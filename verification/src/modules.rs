//! Module loading decisions: a file's type, where an import specifier may
//! lead once local aliases apply, the absolute path and URL of a module, and
//! the files tried for a directory import.
use vstd::prelude::*;
use vstd::utf8::encode_utf8;

use crate::codec::{base64_encode, base64_text};
use crate::deps::location::path_join_text;
use crate::lexical::{eq_ignore_ascii_case, eq_ignore_case};
use crate::errors::MycoError;
use crate::myco_local::MycoLocalToml;
use crate::text_map::TextMap;
use crate::text::{append_str, concat_str, opt_text, starts_with_chars, str_chars, string_from_chars};
use vstd::string::StrSliceExecFns;

verus! {

/// The kinds of file a module can be.
#[derive(Debug, Clone, Copy, PartialEq, Eq, Structural)]
pub enum FileType {
    Unknown,
    TypeScript,
    JavaScript,
    Json,
}

/// The extension of a path, as `Path::extension` gives it.
pub uninterp spec fn path_extension(p: Seq<char>) -> Option<Seq<char>>;

/// Calls `std::path::Path::extension`. Trusted: the outcome depends on the
/// text alone, which the name `path_extension` records.
#[verifier::external_body]
fn extension_of(p: &str) -> (r: Option<String>)
    ensures
        opt_text(r) == path_extension(p@),
{
    std::path::Path::new(p).extension().map(|e| e.to_string_lossy().into_owned())
}

/// The type an extension announces, compared ignoring case. (For these
/// ASCII names, Unicode lower-casing and ASCII lower-casing agree: the only
/// non-ASCII character that lower-cases to an ASCII letter is the Kelvin sign,
/// to `k`, which none of them holds.)
pub open spec fn type_of_extension(e: Seq<char>) -> FileType {
    if eq_ignore_case(e, "ts"@) || eq_ignore_case(e, "mts"@) || eq_ignore_case(e, "cts"@)
        || eq_ignore_case(e, "tsx"@) {
        FileType::TypeScript
    } else if eq_ignore_case(e, "js"@) || eq_ignore_case(e, "jsx"@) || eq_ignore_case(e, "mjs"@)
        || eq_ignore_case(e, "cjs"@) {
        FileType::JavaScript
    } else if eq_ignore_case(e, "json"@) {
        FileType::Json
    } else {
        FileType::Unknown
    }
}

fn is_ext(e: &[char], name: &str) -> (r: bool)
    ensures
        r == eq_ignore_case(e@, name@),
{
    let n = str_chars(name);
    eq_ignore_ascii_case(e, n.as_slice())
}

impl FileType {
    /// The type of the file at `path`, from its extension.
    pub fn from_path(path: &str) -> (r: FileType)
        ensures
            r == match path_extension(path@) {
                Some(e) => type_of_extension(e),
                None => FileType::Unknown,
            },
    {
        match extension_of(path) {
            None => FileType::Unknown,
            Some(ext) => {
                let e = str_chars(ext.as_str());
                let e = e.as_slice();
                if is_ext(e, "ts") || is_ext(e, "mts") || is_ext(e, "cts") || is_ext(e, "tsx") {
                    FileType::TypeScript
                } else if is_ext(e, "js") || is_ext(e, "jsx") || is_ext(e, "mjs") || is_ext(e, "cjs") {
                    FileType::JavaScript
                } else if is_ext(e, "json") {
                    FileType::Json
                } else {
                    FileType::Unknown
                }
            },
        }
    }

    /// Whether a module of this type is transpiled before it is compiled.
    pub fn should_transpile(&self) -> (r: bool)
        ensures
            r == (*self == FileType::TypeScript),
    {
        *self == FileType::TypeScript
    }
}

// ---------------------------------------------------------------------------
// Local aliases
// ---------------------------------------------------------------------------

/// Whether the alias `a` covers the specifier `s`: `s` begins with `a`, and is
/// `a` itself or has `/` at the position `a`'s length in bytes names.
pub open spec fn alias_covers(a: Seq<char>, s: Seq<char>) -> bool {
    &&& a.len() <= s.len()
    &&& s.take(a.len() as int) == a
    &&& (s == a || (encode_utf8(a).len() < s.len() && s[encode_utf8(a).len() as int] == '/'))
}

/// The longest alias among the keys `ks` (scanned in order, a later one
/// replacing the pick only when longer in bytes) that covers `s`.
pub open spec fn longest_alias(ks: Seq<Seq<char>>, s: Seq<char>) -> Option<Seq<char>>
    decreases ks.len(),
{
    if ks.len() == 0 {
        None
    } else {
        let best = longest_alias(ks.drop_last(), s);
        let k = ks.last();
        if alias_covers(k, s) && (best is None || encode_utf8(k).len() > encode_utf8(best->Some_0).len()) {
            Some(k)
        } else {
            best
        }
    }
}

/// The alias an import uses is the longest that fits: when one is picked it
/// is one of the keys, it covers the specifier, and no covering key is longer
/// in bytes; when none is picked, no key covers the specifier.
pub proof fn law_longest_alias_is_longest(ks: Seq<Seq<char>>, s: Seq<char>)
    ensures
        longest_alias(ks, s) matches Some(a) ==> {
            &&& alias_covers(a, s)
            &&& ks.contains(a)
            &&& forall|i: int|
                0 <= i < ks.len() && alias_covers(#[trigger] ks[i], s) ==> encode_utf8(ks[i]).len()
                    <= encode_utf8(a).len()
        },
        longest_alias(ks, s) is None ==> forall|i: int| 0 <= i < ks.len() ==> !alias_covers(#[trigger] ks[i], s),
    decreases ks.len(),
{
    if ks.len() > 0 {
        let init = ks.drop_last();
        law_longest_alias_is_longest(init, s);
        let last = ks.len() - 1;
        assert(ks[last] == ks.last());
        assert forall|i: int| 0 <= i < init.len() implies ks[i] == #[trigger] init[i] by {}
        if let Some(a) = longest_alias(init, s) {
            let k = choose|k: int| 0 <= k < init.len() && init[k] == a;
            assert(ks[k] == a);
        }
        if let Some(a) = longest_alias(ks, s) {
            assert forall|i: int| 0 <= i < ks.len() && alias_covers(#[trigger] ks[i], s) implies encode_utf8(ks[i]).len()
                <= encode_utf8(a).len() by {
                if i < init.len() {
                    assert(ks[i] == init[i]);
                }
            }
        } else {
            assert forall|i: int| 0 <= i < ks.len() implies !alias_covers(#[trigger] ks[i], s) by {
                if i < init.len() {
                    assert(ks[i] == init[i]);
                }
            }
        }
    }
}

/// The specifiers an import of `s` may load, given the local resolutions `m`
/// (with their aliases in ascending order `ks`): the resolution of `s` itself;
/// else the resolution of the longest alias covering `s` followed by the rest of
/// `s`; else `s` unchanged.
pub open spec fn specifiers_spec(m: Map<Seq<char>, String>, ks: Seq<Seq<char>>, s: Seq<char>) -> Seq<char> {
    if m.contains_key(s) {
        m[s]@
    } else {
        match longest_alias(ks, s) {
            Some(a) => m[a]@ + s.skip(a.len() as int),
            None => s,
        }
    }
}

/// Where an import of `specifier` may lead once local aliases apply.
pub fn resolve_specifier(local: Option<&MycoLocalToml>, specifier: &str) -> (r: String)
    requires
        local matches Some(l) ==> l.wf(),
    ensures
        match local {
            None => r@ == specifier@,
            Some(l) => match l.resolve {
                None => r@ == specifier@,
                Some(t) => r@ == specifiers_spec(t.as_map(), t.key_seq(), specifier@),
            },
        },
{
    let l = match local {
        None => {
            return specifier.to_owned();
        },
        Some(l) => l,
    };
    let t = match &l.resolve {
        None => {
            return specifier.to_owned();
        },
        Some(t) => t,
    };
    match t.get(specifier) {
        Some(p) => {
            return p.clone();
        },
        None => {},
    }
    let s = str_chars(specifier);
    let mut best: Option<usize> = None;
    let mut best_len: usize = 0;
    let mut i: usize = 0;
    proof {
        t.lemma_entries();
    }
    while i < t.len()
        invariant
            t.wf(),
            l.resolve == Some(*t),
            s@ == specifier@,
            i <= t.key_seq().len(),
            match best {
                Some(b) => b < i && longest_alias(t.key_seq().take(i as int), s@) == Some(t.key_seq()[b as int])
                    && best_len == encode_utf8(t.key_seq()[b as int]).len(),
                None => longest_alias(t.key_seq().take(i as int), s@) is None,
            },
        decreases t.key_seq().len() - i,
    {
        proof {
            let ks = t.key_seq().take(i + 1);
            assert(ks.drop_last() =~= t.key_seq().take(i as int));
            assert(ks.last() == t.key_seq()[i as int]);
        }
        let k = t.key_at(i);
        let kc = str_chars(k.as_str());
        let kb: usize = k.as_str().as_bytes().len();
        let covers = if starts_with_chars(s.as_slice(), kc.as_slice()) {
            if kc.len() == s.len() {
                proof {
                    assert(s@ =~= s@.take(kc@.len() as int));
                }
                true
            } else {
                kb < s.len() && s[kb] == '/'
            }
        } else {
            false
        };
        proof {
            if kc@.len() < s@.len() {
                assert(s@.len() != kc@.len());
            }
        }
        let better = match best {
            None => true,
            Some(_) => kb > best_len,
        };
        if covers && better {
            best = Some(i);
            best_len = kb;
        }
        i = i + 1;
    }
    proof {
        assert(t.key_seq().take(i as int) =~= t.key_seq());
    }
    match best {
        None => specifier.to_owned(),
        Some(b) => {
            proof {
                t.lemma_entries();
                law_longest_alias_is_longest(t.key_seq(), s@);
                assert(t.as_map().contains_key(t.key_seq()[b as int]));
            }
            let a = t.key_at(b);
            let path = t.value_at(b);
            let alen: usize = str_chars(a.as_str()).len();
            let rest = crate::text::slice_chars(s.as_slice(), alen, s.len());
            proof {
                assert(rest@ =~= s@.skip(alen as int));
            }
            let mut out: Vec<char> = Vec::new();
            append_str(&mut out, path.as_str());
            crate::text::append_chars(&mut out, rest.as_slice());
            proof {
                assert(!t.as_map().contains_key(specifier@));
                assert(out@ =~= specifiers_spec(t.as_map(), t.key_seq(), specifier@));
            }
            string_from_chars(out.as_slice())
        },
    }
}

// ---------------------------------------------------------------------------
// Module paths
// ---------------------------------------------------------------------------

/// What `Path::strip_prefix("./")` leaves of a path, if it starts with `.`.
pub uninterp spec fn strip_current_dir(p: Seq<char>) -> Option<Seq<char>>;

/// Calls `std::path::Path::strip_prefix` with `./`. Trusted: the outcome
/// depends on the text alone, which the name `strip_current_dir` records.
#[verifier::external_body]
fn strip_dot_slash(p: &str) -> (r: Option<String>)
    ensures
        opt_text(r) == strip_current_dir(p@),
{
    std::path::Path::new(p).strip_prefix("./").ok().map(|q| q.to_string_lossy().into_owned())
}

/// The absolute path an import names: `file://` is dropped; an absolute path
/// stays; a relative one, without a leading `./`, is joined to `base`.
pub open spec fn import_path_spec(specifier: Seq<char>, base: Seq<char>) -> Seq<char> {
    let p = if specifier.len() >= 7 && specifier.take(7) == "file://"@ {
        specifier.skip(7)
    } else {
        specifier
    };
    if p.len() > 0 && p[0] == '/' {
        p
    } else {
        match strip_current_dir(p) {
            Some(q) => path_join_text(base, q),
            None => path_join_text(base, p),
        }
    }
}

/// The absolute path of the module an import names, from the importing module's directory.
pub fn import_path(specifier: &str, base: &str) -> (r: String)
    ensures
        r@ == import_path_spec(specifier@, base@),
{
    let s = str_chars(specifier);
    let scheme = str_chars("file://");
    proof {
        reveal_strlit("file://");
    }
    let p: String = if starts_with_chars(s.as_slice(), scheme.as_slice()) {
        let rest = crate::text::slice_chars(s.as_slice(), 7, s.len());
        proof {
            assert(rest@ =~= s@.skip(7));
        }
        string_from_chars(rest.as_slice())
    } else {
        specifier.to_owned()
    };
    let pc = str_chars(p.as_str());
    if pc.len() > 0 && pc[0] == '/' {
        return p;
    }
    match strip_dot_slash(p.as_str()) {
        Some(q) => crate::deps::location::join_path(base, q.as_str()),
        None => crate::deps::location::join_path(base, p.as_str()),
    }
}

/// The URL a module is compiled under: `file://` and its absolute path.
pub fn module_url(path: &str) -> (r: String)
    ensures
        r@ == "file://"@ + path@,
{
    concat_str("file://", path)
}

/// The files tried, in order, for an import that names a directory.
pub open spec fn index_candidates_spec(dir: Seq<char>) -> Seq<Seq<char>> {
    seq![
        path_join_text(dir, "index.ts"@),
        path_join_text(dir, "index.tsx"@),
        path_join_text(dir, "index.js"@),
        path_join_text(dir, "index.jsx"@),
    ]
}

/// The files tried, in order, for an import of the directory `dir`.
pub fn index_candidates(dir: &str) -> (r: Vec<String>)
    ensures
        r@.len() == 4,
        forall|i: int| 0 <= i < 4 ==> (#[trigger] r@[i])@ == index_candidates_spec(dir@)[i],
{
    let mut out: Vec<String> = Vec::new();
    out.push(crate::deps::location::join_path(dir, "index.ts"));
    out.push(crate::deps::location::join_path(dir, "index.tsx"));
    out.push(crate::deps::location::join_path(dir, "index.js"));
    out.push(crate::deps::location::join_path(dir, "index.jsx"));
    out
}

/// What the filesystem says of the path an import names: whether it exists,
/// whether it is a directory, and, for a directory, whether each of its index
/// candidates exists (in the order `index_candidates` gives; one missing from
/// the list counts as absent).
#[derive(Debug)]
pub struct ImportProbe {
    pub exists: bool,
    pub is_dir: bool,
    pub index_exists: Vec<bool>,
}

/// The first of the four index candidates that exists, if any.
pub open spec fn first_index(flags: Seq<bool>) -> Option<int> {
    if flags.len() > 0 && flags[0] {
        Some(0)
    } else if flags.len() > 1 && flags[1] {
        Some(1)
    } else if flags.len() > 2 && flags[2] {
        Some(2)
    } else if flags.len() > 3 && flags[3] {
        Some(3)
    } else {
        None
    }
}

/// The file an import loads, or the path reported as not found: a missing
/// path is not found; a directory loads its first existing index file, and
/// without one is not found (noted as such); any other path loads as it is.
pub open spec fn located_spec(path: Seq<char>, exists: bool, is_dir: bool, flags: Seq<bool>) -> Result<Seq<char>, Seq<char>> {
    if !exists {
        Err(path)
    } else if is_dir {
        match first_index(flags) {
            Some(i) => Ok(index_candidates_spec(path)[i]),
            None => Err(path + " (directory with no index file)"@),
        }
    } else {
        Ok(path)
    }
}

/// Decides which file an import of `specifier`, resolved to `path`, loads.
pub fn locate_module(specifier: &str, path: &str, probe: &ImportProbe) -> (r: Result<String, MycoError>)
    ensures
        match located_spec(path@, probe.exists, probe.is_dir, probe.index_exists@) {
            Ok(f) => r matches Ok(g) && g@ == f,
            Err(shown) => r matches Err(MycoError::ModuleNotFound { specifier: s, resolved_path }) && s@
                == specifier@ && resolved_path@ == shown,
        },
{
    if !probe.exists {
        return Err(MycoError::ModuleNotFound { specifier: specifier.to_owned(), resolved_path: path.to_owned() });
    }
    if !probe.is_dir {
        return Ok(path.to_owned());
    }
    let candidates = index_candidates(path);
    let flags = &probe.index_exists;
    let mut i: usize = 0;
    while i < 4
        invariant
            i <= 4,
            candidates@.len() == 4,
            forall|k: int| 0 <= k < 4 ==> (#[trigger] candidates@[k])@ == index_candidates_spec(path@)[k],
            forall|k: int| 0 <= k < i ==> !(k < flags@.len() && flags@[k]),
            flags@ == probe.index_exists@,
            probe.exists,
            probe.is_dir,
        decreases 4 - i,
    {
        if i < flags.len() && flags[i] {
            proof {
                assert(first_index(flags@) == Some(i as int));
            }
            return Ok(candidates[i].clone());
        }
        i = i + 1;
    }
    proof {
        assert(first_index(flags@) is None);
    }
    Err(MycoError::ModuleNotFound { specifier: specifier.to_owned(), resolved_path: concat_str(path, " (directory with no index file)") })
}

/// The modules compiled so far: the path of each by the URL it was compiled
/// under.
pub struct ModuleRecord {
    url_to_path: TextMap<String>,
}

impl ModuleRecord {
    /// The recorded paths, by URL.
    pub closed spec fn paths(&self) -> Map<Seq<char>, String> {
        self.url_to_path.as_map()
    }

    /// The record's table is well formed.
    pub closed spec fn wf(&self) -> bool {
        self.url_to_path.wf()
    }

    /// An empty record.
    pub fn new() -> (r: Self)
        ensures
            r.wf(),
            r.paths() == Map::<Seq<char>, String>::empty(),
    {
        ModuleRecord { url_to_path: TextMap::new() }
    }

    /// Records a compiled module under its URL, `file://` and its path.
    pub fn record(&mut self, path: String)
        requires
            old(self).wf(),
        ensures
            final(self).wf(),
            final(self).paths() == old(self).paths().insert("file://"@ + path@, path),
    {
        let url = module_url(path.as_str());
        self.url_to_path.insert(url, path);
    }

    /// The path of the module compiled under `url`.
    pub fn path_of(&self, url: &str) -> (r: Option<&String>)
        requires
            self.wf(),
        ensures
            match r {
                Some(p) => self.paths().contains_key(url@) && self.paths()[url@] == *p,
                None => !self.paths().contains_key(url@),
            },
    {
        self.url_to_path.get(url)
    }
}

/// The `data:` URL under which a module's source map is handed to V8.
pub fn source_map_data_url(source_map: &str) -> (r: String)
    ensures
        r@ == "data:application/json;charset=utf-8;base64,"@ + base64_text(encode_utf8(source_map@)),
{
    let bytes = source_map.as_bytes_vec();
    let encoded = base64_encode(bytes.as_slice());
    concat_str("data:application/json;charset=utf-8;base64,", encoded.as_str())
}

} // verus!
