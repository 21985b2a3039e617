//! The module loader's record of the source maps of transpiled modules.
use vstd::prelude::*;

use crate::stack_trace::{lines, lines_spec};
use crate::text::{slice_chars, starts_with_chars, str_chars, string_from_chars};
use crate::text_map::TextMap;

verus! {

/// `s` with every leading repetition of `p` removed, as `trim_start_matches` does.
pub open spec fn trim_prefix_repeated(s: Seq<char>, p: Seq<char>) -> Seq<char>
    decreases s.len(),
{
    if p.len() > 0 && p.len() <= s.len() && s.take(p.len() as int) == p {
        trim_prefix_repeated(s.skip(p.len() as int), p)
    } else {
        s
    }
}

/// Trimming a repeated prefix leaves an end piece of `s` that no longer starts
/// with the prefix; what was cut off is copies of the prefix, one after
/// another; and text that does not start with the prefix stays as it is.
pub proof fn law_trim_prefix_leaves_none(s: Seq<char>, p: Seq<char>)
    requires
        p.len() > 0,
    ensures
        exists|k: int| 0 <= k <= s.len() && #[trigger] s.skip(k) == trim_prefix_repeated(s, p),
        !(p.len() <= trim_prefix_repeated(s, p).len() && trim_prefix_repeated(s, p).take(p.len() as int) == p),
        !(p.len() <= s.len() && s.take(p.len() as int) == p) ==> trim_prefix_repeated(s, p) == s,
        s.len() >= p.len() && s.take(p.len() as int) == p ==> trim_prefix_repeated(s, p) == trim_prefix_repeated(
            s.skip(p.len() as int),
            p,
        ),
    decreases s.len(),
{
    if p.len() <= s.len() && s.take(p.len() as int) == p {
        let rest = s.skip(p.len() as int);
        law_trim_prefix_leaves_none(rest, p);
        let k = choose|k: int| 0 <= k <= rest.len() && #[trigger] rest.skip(k) == trim_prefix_repeated(rest, p);
        assert(rest.skip(k) =~= s.skip(k + p.len()));
    } else {
        assert(s.skip(0) =~= s);
    }
}

/// The path a module URL names: its text without leading `file://`s.
pub fn file_name_of(url: &str) -> (r: String)
    ensures
        r@ == trim_prefix_repeated(url@, "file://"@),
{
    let s = str_chars(url);
    let p = str_chars("file://");
    proof {
        reveal_strlit("file://");
    }
    let mut start: usize = 0;
    let n: usize = s.len();
    proof {
        assert(s@.skip(0) =~= s@);
    }
    loop
        invariant
            n == s@.len(),
            start <= n,
            p@ == "file://"@,
            p@.len() == 7,
            trim_prefix_repeated(url@, "file://"@) == trim_prefix_repeated(s@.skip(start as int), p@),
            s@ == url@,
        decreases n - start,
    {
        let rest = slice_chars(s.as_slice(), start, n);
        proof {
            assert(rest@ =~= s@.skip(start as int));
        }
        if starts_with_chars(rest.as_slice(), p.as_slice()) {
            proof {
                assert(s@.skip(start as int).skip(7) =~= s@.skip(start + 7));
            }
            start = start + 7;
        } else {
            return string_from_chars(rest.as_slice());
        }
    }
}

/// The source maps of the modules the loader transpiled, by file path.
pub struct MycoModuleLoader {
    source_maps: TextMap<Vec<u8>>,
}

impl MycoModuleLoader {
    /// The maps recorded so far.
    pub closed spec fn maps(&self) -> Map<Seq<char>, Vec<u8>> {
        self.source_maps.as_map()
    }

    /// The loader's table is well formed.
    pub closed spec fn wf(&self) -> bool {
        self.source_maps.wf()
    }

    /// A loader with no source maps yet.
    pub fn new() -> (r: Self)
        ensures
            r.wf(),
            r.maps() == Map::<Seq<char>, Vec<u8>>::empty(),
    {
        MycoModuleLoader { source_maps: TextMap::new() }
    }

    /// Records the source map of the module transpiled from `path`.
    pub fn record_source_map(&mut self, path: String, map: Vec<u8>)
        requires
            old(self).wf(),
        ensures
            final(self).wf(),
            final(self).maps() == old(self).maps().insert(path@, map),
    {
        self.source_maps.insert(path, map);
    }

    /// The source map recorded for the module at the URL `file_name`.
    pub fn get_source_map(&self, file_name: &str) -> (r: Option<Vec<u8>>)
        requires
            self.wf(),
        ensures
            ({
                let key = trim_prefix_repeated(file_name@, "file://"@);
                match r {
                    Some(m) => self.maps().contains_key(key) && m@ == self.maps()[key]@,
                    None => !self.maps().contains_key(key),
                }
            }),
    {
        let path = file_name_of(file_name);
        match self.source_maps.get(path.as_str()) {
            Some(m) => Some(vstd::slice::slice_to_vec(m.as_slice())),
            None => None,
        }
    }

    /// The file whose source a stack frame of `file_name` shows: none for the
    /// runtime's own `myco:` modules, else the path the URL names.
    pub fn source_file(file_name: &str) -> (r: Option<String>)
        ensures
            match r {
                None => file_name@.len() >= 5 && file_name@.take(5) == "myco:"@,
                Some(p) => !(file_name@.len() >= 5 && file_name@.take(5) == "myco:"@) && p@ == trim_prefix_repeated(
                    file_name@,
                    "file://"@,
                ),
            },
    {
        let s = str_chars(file_name);
        let m = str_chars("myco:");
        proof {
            reveal_strlit("myco:");
        }
        if starts_with_chars(s.as_slice(), m.as_slice()) {
            None
        } else {
            Some(file_name_of(file_name))
        }
    }
}

/// Line `line_number` (from zero) of a source text, split as `str::lines`
/// splits it.
pub fn source_line(source: &str, line_number: usize) -> (r: Option<String>)
    ensures
        match r {
            Some(l) => line_number < lines_spec(source@).len() && l@ == lines_spec(source@)[line_number as int],
            None => line_number >= lines_spec(source@).len(),
        },
{
    let s = str_chars(source);
    let all = lines(s.as_slice());
    if line_number < all.len() {
        Some(string_from_chars(all[line_number].as_slice()))
    } else {
        None
    }
}

} // verus!
