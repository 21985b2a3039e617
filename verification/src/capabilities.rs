//! Capability tokens: unguessable strings that stand for one granted access
//! (a file, a directory, a URL or URL prefix, or an open socket), and what a
//! token allows a script to reach.
use vstd::prelude::*;

use crate::errors::MycoError;
use crate::text::{append_str, opt_text, str_chars, string_from_chars};
use crate::text_map::TextMap;

use rand::distributions::Alphanumeric;
use rand::Rng;

verus! {

/// One granted access. Sockets are held as the runtime's own handle types.
#[derive(Debug)]
pub enum Capability<L, S> {
    ReadFile(String),
    WriteFile(String),
    ExecFile(String),
    ReadDir(String),
    WriteDir(String),
    ExecDir(String),
    FetchUrl(String),
    FetchPrefix(String),
    TcpListener(L),
    TcpStream(S),
}

/// Length of a capability token.
pub const TOKEN_LEN: usize = 30;

/// An ASCII letter or digit.
pub open spec fn is_alnum(c: char) -> bool {
    ('0' <= c && c <= '9') || ('A' <= c && c <= 'Z') || ('a' <= c && c <= 'z')
}

/// Draws `n` characters with `rand::thread_rng` from `rand`'s `Alphanumeric`
/// distribution. Trusted: exactly `n` characters, each an ASCII letter or digit
/// (the distribution's documented range); which ones is left to chance.
#[verifier::external_body]
fn random_alphanumeric(n: usize) -> (r: String)
    ensures
        r@.len() == n,
        forall|i: int| 0 <= i < n ==> is_alnum(#[trigger] r@[i]),
{
    let bytes: Vec<u8> = rand::thread_rng().sample_iter(&Alphanumeric).take(n).collect();
    bytes.into_iter().map(char::from).collect()
}

/// The tokens a runtime has handed out and what each stands for.
pub struct CapabilityRegistry<L, S> {
    capabilities: TextMap<Capability<L, S>>,
}

impl<L, S> CapabilityRegistry<L, S> {
    /// The registry's table is well formed.
    pub closed spec fn wf(&self) -> bool {
        self.capabilities.wf()
    }

    /// The capability behind each live token.
    pub closed spec fn tokens(&self) -> Map<Seq<char>, Capability<L, S>> {
        self.capabilities.as_map()
    }

    /// An empty registry.
    pub fn new() -> (r: Self)
        ensures
            r.wf(),
            r.tokens() == Map::<Seq<char>, Capability<L, S>>::empty(),
    {
        CapabilityRegistry { capabilities: TextMap::new() }
    }

    /// Grants `capability` under a fresh random token of 30 ASCII letters and
    /// digits, and returns the token.
    pub fn register(&mut self, capability: Capability<L, S>) -> (token: String)
        requires
            old(self).wf(),
        ensures
            final(self).wf(),
            final(self).tokens() == old(self).tokens().insert(token@, capability),
            token@.len() == TOKEN_LEN,
            forall|i: int| 0 <= i < TOKEN_LEN ==> is_alnum(#[trigger] token@[i]),
    {
        let token = random_alphanumeric(TOKEN_LEN);
        let key = string_from_chars(str_chars(token.as_str()).as_slice());
        self.capabilities.insert(key, capability);
        token
    }

    /// Revokes `token`, returning what it stood for.
    pub fn unregister(&mut self, token: String) -> (r: Option<Capability<L, S>>)
        requires
            old(self).wf(),
        ensures
            final(self).wf(),
            final(self).tokens() == old(self).tokens().remove(token@),
            match r {
                Some(c) => old(self).tokens().contains_key(token@) && old(self).tokens()[token@] == c,
                None => !old(self).tokens().contains_key(token@),
            },
    {
        self.capabilities.remove(token.as_str())
    }

    /// What `name` stands for, if it is a live token.
    pub fn get(&self, name: &str) -> (r: Option<&Capability<L, S>>)
        requires
            self.wf(),
        ensures
            match r {
                Some(c) => self.tokens().contains_key(name@) && self.tokens()[name@] == *c,
                None => !self.tokens().contains_key(name@),
            },
    {
        self.capabilities.get(name)
    }
}

impl<L, S> Default for CapabilityRegistry<L, S> {
    fn default() -> (r: Self)
        ensures
            r.wf(),
            r.tokens() == Map::<Seq<char>, Capability<L, S>>::empty(),
    {
        Self::new()
    }
}

/// A token is honoured from the moment it is granted until it is revoked: the
/// registry answers it with what was granted, and once revoked not at all,
/// while the other tokens keep what they stood for.
pub proof fn law_token_lifecycle<L, S>(
    before: Map<Seq<char>, Capability<L, S>>,
    token: Seq<char>,
    granted: Capability<L, S>,
    other: Seq<char>,
)
    requires
        other != token,
    ensures
        before.insert(token, granted).contains_key(token),
        before.insert(token, granted)[token] == granted,
        !before.insert(token, granted).remove(token).contains_key(token),
        before.insert(token, granted).remove(token).contains_key(other) == before.contains_key(
            other,
        ),
        before.contains_key(other) ==> before.insert(token, granted).remove(token)[other]
            == before[other],
{
}

// ---------------------------------------------------------------------------
// What a token reaches
// ---------------------------------------------------------------------------

/// The kind of access an operation asks a token for.
#[derive(Debug, Clone, Copy, PartialEq, Eq, Structural)]
pub enum Access {
    Read,
    Write,
    Exec,
}

/// The name of an access kind, as the runtime's operations spell it.
pub open spec fn access_name(a: Access) -> Seq<char> {
    match a {
        Access::Read => "read"@,
        Access::Write => "write"@,
        Access::Exec => "exec"@,
    }
}

/// Where a token points for an access: one file, or a path inside a directory.
#[derive(Debug)]
pub enum Target {
    File(String),
    InDir { dir: String, path: String },
}

/// The file a token grants for this access, if it is a file token of that kind.
pub open spec fn granted_file<L, S>(c: Capability<L, S>, a: Access) -> Option<Seq<char>> {
    match (c, a) {
        (Capability::ReadFile(f), Access::Read) => Some(f@),
        (Capability::WriteFile(f), Access::Write) => Some(f@),
        (Capability::ExecFile(f), Access::Exec) => Some(f@),
        _ => None,
    }
}

/// The directory a token grants for this access, if it is a directory token of that kind.
pub open spec fn granted_dir<L, S>(c: Capability<L, S>, a: Access) -> Option<Seq<char>> {
    match (c, a) {
        (Capability::ReadDir(d), Access::Read) => Some(d@),
        (Capability::WriteDir(d), Access::Write) => Some(d@),
        (Capability::ExecDir(d), Access::Exec) => Some(d@),
        _ => None,
    }
}

/// The message for a token that does not grant the access asked for.
pub open spec fn invalid_token_text(a: Access) -> Seq<char> {
    "Invalid token for "@ + access_name(a) + " access"@
}

/// Where a filesystem operation may go with `token`: a file token of the right
/// kind used without a path gives its file; a directory token of the right kind
/// used with a path gives the directory and the path. Anything else is refused.
pub fn resolve_target<L, S>(
    registry: &CapabilityRegistry<L, S>,
    token: &str,
    path: Option<String>,
    access: Access,
) -> (r: Result<Target, MycoError>)
    requires
        registry.wf(),
    ensures
        ({
            let cap = registry.tokens().get(token@);
            match r {
                Ok(Target::File(f)) => path is None && (cap matches Some(c) && granted_file(
                    c,
                    access,
                ) == Some(f@)),
                Ok(Target::InDir { dir, path: p }) => path == Some(p) && (cap matches Some(c)
                    && granted_dir(c, access) == Some(dir@)),
                Err(e) => (e matches MycoError::Internal { message } && message@ == invalid_token_text(
                    access,
                )) && !(cap matches Some(c) && ((path is None && granted_file(c, access) is Some)
                    || (path is Some && granted_dir(c, access) is Some))),
            }
        }),
{
    match registry.get(token) {
        Some(c) => match (c, access, path) {
            (Capability::ReadFile(f), Access::Read, None) => {
                return Ok(Target::File(f.clone()));
            },
            (Capability::WriteFile(f), Access::Write, None) => {
                return Ok(Target::File(f.clone()));
            },
            (Capability::ExecFile(f), Access::Exec, None) => {
                return Ok(Target::File(f.clone()));
            },
            (Capability::ReadDir(d), Access::Read, Some(p)) => {
                return Ok(Target::InDir { dir: d.clone(), path: p });
            },
            (Capability::WriteDir(d), Access::Write, Some(p)) => {
                return Ok(Target::InDir { dir: d.clone(), path: p });
            },
            (Capability::ExecDir(d), Access::Exec, Some(p)) => {
                return Ok(Target::InDir { dir: d.clone(), path: p });
            },
            _ => {},
        },
        None => {},
    }
    let mut message: Vec<char> = Vec::new();
    append_str(&mut message, "Invalid token for ");
    match access {
        Access::Read => append_str(&mut message, "read"),
        Access::Write => append_str(&mut message, "write"),
        Access::Exec => append_str(&mut message, "exec"),
    }
    append_str(&mut message, " access");
    proof {
        assert(message@ =~= invalid_token_text(access));
    }
    Err(MycoError::Internal { message: string_from_chars(message.as_slice()) })
}

/// `s` without its leading slashes, as `trim_start_matches("/")` gives it.
pub open spec fn trim_leading_slashes(s: Seq<char>) -> Seq<char>
    decreases s.len(),
{
    if s.len() > 0 && s[0] == '/' {
        trim_leading_slashes(s.drop_first())
    } else {
        s
    }
}

/// The text of `dir.join(rel)` for a relative `rel` on Unix: a separator goes
/// between them unless `dir` is empty or already ends with one.
pub open spec fn join_text(dir: Seq<char>, rel: Seq<char>) -> Seq<char> {
    if dir.len() == 0 || dir.last() == '/' {
        dir + rel
    } else {
        dir + "/"@ + rel
    }
}

/// Where a path given with a directory token leads: `"/"` is the directory
/// itself; any other path, stripped of its leading slashes, is joined under it.
pub open spec fn within_dir(dir: Seq<char>, path: Seq<char>) -> Seq<char> {
    if path == "/"@ {
        dir
    } else {
        join_text(dir, trim_leading_slashes(path))
    }
}

/// Joins `path` under the (canonical) directory `dir` that a token grants.
pub fn join_within(dir: &str, path: &str) -> (r: String)
    ensures
        r@ == within_dir(dir@, path@),
{
    let d = str_chars(dir);
    let p = str_chars(path);
    proof {
        reveal_strlit("/");
    }
    if p.len() == 1 && p[0] == '/' {
        proof {
            assert(p@ =~= "/"@);
        }
        return string_from_chars(d.as_slice());
    }
    let mut start: usize = 0;
    proof {
        assert(p@.skip(0) =~= p@);
    }
    while start < p.len() && p[start] == '/'
        invariant
            start <= p@.len(),
            trim_leading_slashes(p@) == trim_leading_slashes(p@.skip(start as int)),
        decreases p@.len() - start,
    {
        proof {
            assert(p@.skip(start as int).drop_first() =~= p@.skip(start + 1));
        }
        start = start + 1;
    }
    proof {
        if start < p@.len() {
            assert(p@.skip(start as int)[0] == p@[start as int]);
        }
        assert(p@ != "/"@);
    }
    let mut out: Vec<char> = Vec::new();
    let mut i: usize = 0;
    while i < d.len()
        invariant
            i <= d@.len(),
            out@ == d@.take(i as int),
        decreases d@.len() - i,
    {
        out.push(d[i]);
        i = i + 1;
        proof {
            assert(out@ =~= d@.take(i as int));
        }
    }
    proof {
        assert(d@.take(d@.len() as int) =~= d@);
    }
    if d.len() > 0 && d[d.len() - 1] != '/' {
        out.push('/');
    }
    let mut j: usize = start;
    let ghost head = out@;
    while j < p.len()
        invariant
            start <= j <= p@.len(),
            out@ == head + p@.subrange(start as int, j as int),
        decreases p@.len() - j,
    {
        out.push(p[j]);
        j = j + 1;
        proof {
            assert(out@ =~= head + p@.subrange(start as int, j as int));
        }
    }
    proof {
        assert(p@.subrange(start as int, p@.len() as int) =~= p@.skip(start as int));
        assert(out@ =~= within_dir(dir@, path@));
    }
    string_from_chars(out.as_slice())
}

/// A path given with a directory token is placed under the directory as
/// text: the result always begins with the directory's text. The containment
/// is lexical only; `..` segments are joined as they come and are not
/// resolved here, so after resolution such a path can lead elsewhere.
pub proof fn law_target_stays_in_dir(dir: Seq<char>, path: Seq<char>)
    ensures
        within_dir(dir, path).len() >= dir.len(),
        within_dir(dir, path).take(dir.len() as int) == dir,
{
    let r = within_dir(dir, path);
    assert(r.take(dir.len() as int) =~= dir);
}

/// The URL a fetch with `token` (and, for a prefix token, `path`) may request.
pub open spec fn fetch_url_spec<L, S>(cap: Option<Capability<L, S>>, path: Option<Seq<char>>) -> Result<Seq<char>, MycoError> {
    match cap {
        Some(Capability::FetchUrl(url)) => if path is Some {
            Err(MycoError::PathNotAllowedForSpecificUrlTokens)
        } else {
            Ok(url@)
        },
        Some(Capability::FetchPrefix(base)) => match path {
            Some(p) => if crate::lexical::contains_seq(p, ".."@) {
                Err(MycoError::PathTraversal)
            } else if crate::lexical::contains_seq(p, "://"@) {
                Err(MycoError::FullUrlInPath)
            } else {
                Ok(base@ + p)
            },
            None => Err(MycoError::PathRequiredForPrefix),
        },
        _ => Err(MycoError::InvalidTokenForUrlAccess),
    }
}

/// The URL that a fetch with `token` may request. A URL token allows exactly
/// its URL and no path; a prefix token needs a path, which may not climb out
/// with `..` nor name a whole URL, and is appended to the prefix.
pub fn fetch_target<L, S>(registry: &CapabilityRegistry<L, S>, token: &str, path: Option<String>) -> (r: Result<String, MycoError>)
    requires
        registry.wf(),
    ensures
        match r {
            Ok(u) => fetch_url_spec(registry.tokens().get(token@), opt_text(path)) == Ok::<Seq<char>, MycoError>(u@),
            Err(e) => fetch_url_spec(registry.tokens().get(token@), opt_text(path)) == Err::<Seq<char>, MycoError>(e),
        },
{
    match registry.get(token) {
        Some(Capability::FetchUrl(url)) => {
            if path.is_some() {
                return Err(MycoError::PathNotAllowedForSpecificUrlTokens);
            }
            Ok(url.clone())
        },
        Some(Capability::FetchPrefix(base)) => match path {
            Some(p) => {
                let pc = str_chars(p.as_str());
                let dots = str_chars("..");
                if crate::lexical::contains_chars(pc.as_slice(), dots.as_slice()) {
                    return Err(MycoError::PathTraversal);
                }
                let scheme = str_chars("://");
                if crate::lexical::contains_chars(pc.as_slice(), scheme.as_slice()) {
                    return Err(MycoError::FullUrlInPath);
                }
                let mut out: Vec<char> = Vec::new();
                append_str(&mut out, base.as_str());
                append_str(&mut out, p.as_str());
                Ok(string_from_chars(out.as_slice()))
            },
            None => Err(MycoError::PathRequiredForPrefix),
        },
        _ => Err(MycoError::InvalidTokenForUrlAccess),
    }
}

} // verus!
