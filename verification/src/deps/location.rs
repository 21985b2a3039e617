//! Where registries and packages live: a URL or a filesystem path.
use vstd::prelude::*;

use crate::capabilities::join_text;
use crate::errors::MycoError;
use crate::lexical::{contains_chars, contains_seq};
use crate::text::{opt_text, str_chars, string_from_chars};

verus! {

/// A URL (held as its serialization) or a filesystem path.
#[derive(Debug)]
pub enum Location {
    Url(String),
    Path { path: String },
}

/// What a `Location` holds.
pub enum LocationModel {
    Url(Seq<char>),
    Path(Seq<char>),
}

impl View for Location {
    type V = LocationModel;

    open spec fn view(&self) -> LocationModel {
        match self {
            Location::Url(u) => LocationModel::Url(u@),
            Location::Path { path } => LocationModel::Path(path@),
        }
    }
}

/// The serialization of `s` parsed as an absolute URL, if it parses.
pub uninterp spec fn url_parsed(s: Seq<char>) -> Option<Seq<char>>;

/// The serialization of `input` resolved against the URL `base`, if that works.
pub uninterp spec fn url_joined(base: Seq<char>, input: Seq<char>) -> Option<Seq<char>>;

/// The parent of a path, as `Path::parent` gives it.
pub uninterp spec fn path_parent(p: Seq<char>) -> Option<Seq<char>>;

/// Calls `url::Url::parse` and serializes the result. Trusted: the outcome
/// depends on the text alone, which the name `url_parsed` records.
#[verifier::external_body]
fn parse_url(s: &str) -> (r: Option<String>)
    ensures
        opt_text(r) == url_parsed(s@),
{
    url::Url::parse(s).ok().map(|u| u.to_string())
}

/// Calls `url::Url::join` on `base` (a URL serialization, which `Url::parse`
/// reads back as the same URL) and serializes the result. Trusted: the outcome
/// depends on the two texts alone, which the name `url_joined` records.
#[verifier::external_body]
fn join_url(base: &str, input: &str) -> (r: Option<String>)
    ensures
        opt_text(r) == url_joined(base@, input@),
{
    url::Url::parse(base).and_then(|b| b.join(input)).ok().map(|u| u.to_string())
}

/// Calls `std::path::Path::parent`. Trusted: the outcome depends on the text
/// alone, which the name `path_parent` records.
#[verifier::external_body]
fn parent_path(p: &str) -> (r: Option<String>)
    ensures
        opt_text(r) == path_parent(p@),
{
    std::path::Path::new(p).parent().map(|q| q.to_string_lossy().into_owned())
}

/// The text of `base.join(rel)` on Unix: an absolute `rel` replaces `base`.
pub open spec fn path_join_text(base: Seq<char>, rel: Seq<char>) -> Seq<char> {
    if rel.len() > 0 && rel[0] == '/' {
        rel
    } else {
        join_text(base, rel)
    }
}

/// Where `url` leads from a location. From a URL: text holding the literal
/// `^[a-zA-Z]+://` is parsed on its own, anything else is resolved against the
/// base. From a path: a path naming an existing file is replaced by its parent
/// first, then `url` is joined to it. `None` stands for an invalid URL.
pub open spec fn join_spec(loc: LocationModel, url: Seq<char>, base_is_file: bool) -> Option<LocationModel> {
    match loc {
        LocationModel::Url(base) => {
            let r = if contains_seq(url, "^[a-zA-Z]+://"@) {
                url_parsed(url)
            } else {
                url_joined(base, url)
            };
            match r {
                Some(u) => Some(LocationModel::Url(u)),
                None => None,
            }
        },
        LocationModel::Path(p) => {
            let dir = if base_is_file {
                match path_parent(p) {
                    Some(q) => q,
                    None => p,
                }
            } else {
                p
            };
            Some(LocationModel::Path(path_join_text(dir, url)))
        },
    }
}

/// Joins `rel` to `base` as `PathBuf::join` does on Unix.
pub fn join_path(base: &str, rel: &str) -> (r: String)
    ensures
        r@ == path_join_text(base@, rel@),
{
    let b = str_chars(base);
    let r = str_chars(rel);
    if r.len() > 0 && r[0] == '/' {
        return string_from_chars(r.as_slice());
    }
    let mut out: Vec<char> = Vec::new();
    crate::text::append_chars(&mut out, b.as_slice());
    if b.len() > 0 && b[b.len() - 1] != '/' {
        out.push('/');
    }
    crate::text::append_chars(&mut out, r.as_slice());
    proof {
        reveal_strlit("/");
        if b@.len() > 0 {
            assert(b@.last() == b@[b@.len() - 1]);
        }
        assert(out@ =~= path_join_text(base@, rel@));
    }
    string_from_chars(out.as_slice())
}

impl Location {
    /// The location as text: the URL's serialization or the path.
    pub fn to_string(&self) -> (r: String)
        ensures
            r@ == match self@ {
                LocationModel::Url(u) => u,
                LocationModel::Path(p) => p,
            },
    {
        match self {
            Location::Url(u) => u.clone(),
            Location::Path { path } => path.clone(),
        }
    }

    /// A copy of this location.
    pub fn duplicate(&self) -> (r: Self)
        ensures
            r@ == self@,
    {
        match self {
            Location::Url(u) => Location::Url(u.clone()),
            Location::Path { path } => Location::Path { path: path.clone() },
        }
    }

    /// Whether two locations are the same.
    pub fn same(&self, other: &Self) -> (r: bool)
        ensures
            r == (self@ == other@),
    {
        match (self, other) {
            (Location::Url(a), Location::Url(b)) => a.eq(b),
            (Location::Path { path: a }, Location::Path { path: b }) => a.eq(b),
            _ => false,
        }
    }

    /// The path of a path location.
    pub fn as_path(&self) -> (r: Option<String>)
        ensures
            opt_text(r) == match self@ {
                LocationModel::Url(_) => None,
                LocationModel::Path(p) => Some(p),
            },
    {
        match self {
            Location::Url(_) => None,
            Location::Path { path } => Some(path.clone()),
        }
    }

    /// Resolves `url` against this location; `base_is_file` says whether a path
    /// location names an existing file (which the caller looks up).
    pub fn join(&self, url: &str, base_is_file: bool) -> (r: Result<Location, MycoError>)
        ensures
            match r {
                Ok(l) => join_spec(self@, url@, base_is_file) == Some(l@),
                Err(e) => join_spec(self@, url@, base_is_file) is None && (e matches MycoError::InvalidUrl {
                    url: u,
                } && u@ == url@),
            },
    {
        match self {
            Location::Url(base) => {
                let u = str_chars(url);
                let pattern = str_chars("^[a-zA-Z]+://");
                let joined = if contains_chars(u.as_slice(), pattern.as_slice()) {
                    parse_url(url)
                } else {
                    join_url(base.as_str(), url)
                };
                match joined {
                    Some(s) => Ok(Location::Url(s)),
                    None => Err(MycoError::InvalidUrl { url: url.to_owned() }),
                }
            },
            Location::Path { path } => {
                let dir = if base_is_file {
                    match parent_path(path.as_str()) {
                        Some(q) => q,
                        None => path.clone(),
                    }
                } else {
                    path.clone()
                };
                Ok(Location::Path { path: join_path(dir.as_str(), url) })
            },
        }
    }
}

} // verus!
