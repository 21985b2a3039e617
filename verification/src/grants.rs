//! Whether a script's request for a file or directory capability is granted,
//! judged from what the filesystem says of the path (and of its parent).
use vstd::prelude::*;

use crate::capabilities::{granted_dir, granted_file, Access, Capability};
use crate::text::concat_str;

verus! {

/// What the filesystem says of one path.
#[derive(Debug)]
pub struct PathProbe {
    pub exists: bool,
    pub is_file: bool,
    pub is_dir: bool,
    /// Why reading its metadata (listing it, for a directory read) failed.
    pub access_error: Option<String>,
    /// Its permission bits, where they could be read.
    pub mode: Option<u32>,
}

/// The parent directory of a requested file, as it is shown in messages.
#[derive(Debug)]
pub struct ParentProbe {
    pub shown: String,
    pub probe: PathProbe,
}

/// The refusal `"<prefix><path>"`.
pub open spec fn says(prefix: Seq<char>, path: Seq<char>) -> Option<Seq<char>> {
    Some(prefix + path)
}

/// The refusal `"<prefix><path>': <err>"`.
pub open spec fn says_why(prefix: Seq<char>, path: Seq<char>, err: Seq<char>) -> Option<Seq<char>> {
    Some(prefix + path + "': "@ + err)
}

/// Why a file that does not exist yet cannot be created: its parent is
/// missing, not a directory, or unreadable.
pub open spec fn parent_refusal(parent: Option<ParentProbe>) -> Option<Seq<char>> {
    match parent {
        None => Some("Invalid file path: no parent directory"@),
        Some(p) => if !p.probe.exists {
            says("Parent directory does not exist: "@, p.shown@)
        } else if !p.probe.is_dir {
            says("Parent path is not a directory: "@, p.shown@)
        } else {
            match p.probe.access_error {
                Some(e) => says_why("Cannot access parent directory '"@, p.shown@, e@),
                None => None,
            }
        },
    }
}

/// Why a request for `access` to the file `path` is refused, or `None` where
/// it is granted. A file to read or write may be missing if it can be created;
/// one to execute must exist and have an execute bit set.
pub open spec fn file_refusal(access: Access, path: Seq<char>, target: PathProbe, parent: Option<ParentProbe>) -> Option<
    Seq<char>,
> {
    let unreadable = match target.access_error {
        Some(e) => says_why("Cannot access file '"@, path, e@),
        None => None,
    };
    match access {
        Access::Read => if target.exists {
            if !target.is_file {
                says("Path is not a file: "@, path)
            } else {
                unreadable
            }
        } else {
            parent_refusal(parent)
        },
        Access::Write => if target.exists {
            if target.is_dir {
                says("Path is a directory, not a file: "@, path)
            } else {
                unreadable
            }
        } else {
            parent_refusal(parent)
        },
        Access::Exec => if !target.exists {
            says("File does not exist: "@, path)
        } else if !target.is_file {
            says("Path is not a file: "@, path)
        } else if unreadable is Some {
            unreadable
        } else {
            match target.mode {
                Some(m) => if m & 0o111u32 == 0 {
                    says("File is not executable: "@, path)
                } else {
                    None
                },
                None => None,
            }
        },
    }
}

/// Why a request for `access` to the directory `path` is refused, or `None`
/// where it is granted: the directory must exist and be readable.
pub open spec fn dir_refusal(access: Access, path: Seq<char>, target: PathProbe) -> Option<Seq<char>> {
    if !target.exists {
        says("Directory does not exist: "@, path)
    } else if !target.is_dir {
        says("Path is not a directory: "@, path)
    } else {
        match target.access_error {
            Some(e) => match access {
                Access::Read => says_why("Cannot read directory '"@, path, e@),
                _ => says_why("Cannot access directory '"@, path, e@),
            },
            None => None,
        }
    }
}

/// `"<prefix><path>"`.
fn say(prefix: &str, path: &str) -> (r: String)
    ensures
        says(prefix@, path@) == Some(r@),
{
    concat_str(prefix, path)
}

/// `"<prefix><path>': <err>"`.
fn say_why(prefix: &str, path: &str, err: &str) -> (r: String)
    ensures
        says_why(prefix@, path@, err@) == Some(r@),
{
    let a = concat_str(prefix, path);
    let b = concat_str(a.as_str(), "': ");
    concat_str(b.as_str(), err)
}

fn check_parent(parent: &Option<ParentProbe>) -> (r: Result<(), String>)
    ensures
        match r {
            Ok(_) => parent_refusal(*parent) is None,
            Err(m) => parent_refusal(*parent) == Some(m@),
        },
{
    match parent {
        None => Err("Invalid file path: no parent directory".to_string()),
        Some(p) => {
            if !p.probe.exists {
                Err(say("Parent directory does not exist: ", p.shown.as_str()))
            } else if !p.probe.is_dir {
                Err(say("Parent path is not a directory: ", p.shown.as_str()))
            } else {
                match &p.probe.access_error {
                    Some(e) => Err(say_why("Cannot access parent directory '", p.shown.as_str(), e.as_str())),
                    None => Ok(()),
                }
            }
        },
    }
}

/// The capability that grants `access` to the file `path`.
pub open spec fn file_grant<L, S>(access: Access, path: Seq<char>, c: Capability<L, S>) -> bool {
    match access {
        Access::Read => c matches Capability::ReadFile(p) && p@ == path,
        Access::Write => c matches Capability::WriteFile(p) && p@ == path,
        Access::Exec => c matches Capability::ExecFile(p) && p@ == path,
    }
}

/// The capability that grants `access` to the directory `path`.
pub open spec fn dir_grant<L, S>(access: Access, path: Seq<char>, c: Capability<L, S>) -> bool {
    match access {
        Access::Read => c matches Capability::ReadDir(p) && p@ == path,
        Access::Write => c matches Capability::WriteDir(p) && p@ == path,
        Access::Exec => c matches Capability::ExecDir(p) && p@ == path,
    }
}

/// Judges a request for `access` to the file `path`, given what the
/// filesystem says of it and, for a file that may be created, of its parent.
pub fn request_file<L, S>(access: Access, path: String, target: &PathProbe, parent: &Option<ParentProbe>) -> (r:
    Result<Capability<L, S>, String>)
    ensures
        match r {
            Ok(c) => file_refusal(access, path@, *target, *parent) is None && file_grant(access, path@, c),
            Err(m) => file_refusal(access, path@, *target, *parent) == Some(m@),
        },
{
    let unreadable: Option<String> = match &target.access_error {
        Some(e) => Some(say_why("Cannot access file '", path.as_str(), e.as_str())),
        None => None,
    };
    match access {
        Access::Read => {
            if target.exists {
                if !target.is_file {
                    return Err(say("Path is not a file: ", path.as_str()));
                }
                if let Some(m) = unreadable {
                    return Err(m);
                }
            } else {
                check_parent(parent)?;
            }
            Ok(Capability::ReadFile(path))
        },
        Access::Write => {
            if target.exists {
                if target.is_dir {
                    return Err(say("Path is a directory, not a file: ", path.as_str()));
                }
                if let Some(m) = unreadable {
                    return Err(m);
                }
            } else {
                check_parent(parent)?;
            }
            Ok(Capability::WriteFile(path))
        },
        Access::Exec => {
            if !target.exists {
                return Err(say("File does not exist: ", path.as_str()));
            }
            if !target.is_file {
                return Err(say("Path is not a file: ", path.as_str()));
            }
            if let Some(m) = unreadable {
                return Err(m);
            }
            if let Some(mode) = target.mode {
                if mode & 0o111u32 == 0 {
                    return Err(say("File is not executable: ", path.as_str()));
                }
            }
            Ok(Capability::ExecFile(path))
        },
    }
}

/// Judges a request for `access` to the directory `path`, given what the
/// filesystem says of it.
pub fn request_dir<L, S>(access: Access, path: String, target: &PathProbe) -> (r: Result<Capability<L, S>, String>)
    ensures
        match r {
            Ok(c) => dir_refusal(access, path@, *target) is None && dir_grant(access, path@, c),
            Err(m) => dir_refusal(access, path@, *target) == Some(m@),
        },
{
    if !target.exists {
        return Err(say("Directory does not exist: ", path.as_str()));
    }
    if !target.is_dir {
        return Err(say("Path is not a directory: ", path.as_str()));
    }
    if let Some(e) = &target.access_error {
        return match access {
            Access::Read => Err(say_why("Cannot read directory '", path.as_str(), e.as_str())),
            _ => Err(say_why("Cannot access directory '", path.as_str(), e.as_str())),
        };
    }
    match access {
        Access::Read => Ok(Capability::ReadDir(path)),
        Access::Write => Ok(Capability::WriteDir(path)),
        Access::Exec => Ok(Capability::ExecDir(path)),
    }
}

/// A granted request is honoured as asked: the capability it yields reaches,
/// for that kind of access, exactly the requested file (used without a path)
/// or the requested directory (used with one), and nothing of the other kind.
pub proof fn law_grant_reaches_what_was_requested<L, S>(access: Access, path: Seq<char>, c: Capability<L, S>)
    ensures
        file_grant(access, path, c) ==> granted_file(c, access) == Some(path) && granted_dir(c, access) is None,
        dir_grant(access, path, c) ==> granted_dir(c, access) == Some(path) && granted_file(c, access) is None,
{
}

} // verus!
