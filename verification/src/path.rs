//! Paths handed to the runtime.
use vstd::prelude::*;

use crate::text::{starts_with_chars, str_chars, string_from_chars};

verus! {

/// Whether `c` is an ASCII letter, as a drive letter is.
pub open spec fn is_drive_letter(c: char) -> bool {
    ('a' <= c && c <= 'z') || ('A' <= c && c <= 'Z')
}

/// A path without its Windows verbatim prefix:
/// `\\?\UNC\server\share\…` becomes `\\server\share\…`,
/// `\\?\C:\…` becomes `C:\…`, and `\\?\device\…` becomes `\\device\…`.
/// Any other path is left as it is.
pub open spec fn unc_stripped(p: Seq<char>) -> Seq<char> {
    let verbatim = "\\\\?\\"@;
    let unc = "\\\\?\\UNC\\"@;
    if p.len() >= 8 && p.take(8) == unc {
        "\\\\"@ + p.skip(8)
    } else if p.len() >= 4 && p.take(4) == verbatim {
        if p.len() >= 6 && is_drive_letter(p[4]) && p[5] == ':' {
            p.skip(4)
        } else {
            "\\\\"@ + p.skip(4)
        }
    } else {
        p
    }
}

/// Strips a Windows verbatim prefix (`\\?\`, `\\?\UNC\`) from a path, so that
/// the path reads as an ordinary drive or UNC path. `windows` says whether the
/// program runs on Windows; elsewhere paths have no such prefix and come back
/// as they are.
pub fn strip_unc_prefix(path: String, windows: bool) -> (r: String)
    ensures
        !windows ==> r@ == path@,
        windows ==> r@ == unc_stripped(path@),
{
    if !windows {
        return path;
    }
    let p = str_chars(path.as_str());
    let unc = str_chars("\\\\?\\UNC\\");
    let verbatim = str_chars("\\\\?\\");
    proof {
        reveal_strlit("\\\\?\\UNC\\");
        reveal_strlit("\\\\?\\");
        reveal_strlit("\\\\");
    }
    if starts_with_chars(p.as_slice(), unc.as_slice()) {
        let mut out: Vec<char> = vec!['\\', '\\'];
        let mut i: usize = 8;
        while i < p.len()
            invariant
                8 <= i <= p@.len(),
                out@ == "\\\\"@ + p@.subrange(8, i as int),
            decreases p@.len() - i,
        {
            out.push(p[i]);
            i = i + 1;
            proof {
                assert(out@ =~= "\\\\"@ + p@.subrange(8, i as int));
            }
        }
        proof {
            assert(p@.subrange(8, p@.len() as int) =~= p@.skip(8));
        }
        return string_from_chars(out.as_slice());
    }
    if starts_with_chars(p.as_slice(), verbatim.as_slice()) {
        let drive = p.len() >= 6 && (('a' <= p[4] && p[4] <= 'z') || ('A' <= p[4] && p[4] <= 'Z')) && p[5] == ':';
        let mut out: Vec<char> = if drive {
            Vec::new()
        } else {
            vec!['\\', '\\']
        };
        let ghost head = out@;
        let mut i: usize = 4;
        while i < p.len()
            invariant
                4 <= i <= p@.len(),
                out@ == head + p@.subrange(4, i as int),
            decreases p@.len() - i,
        {
            out.push(p[i]);
            i = i + 1;
            proof {
                assert(out@ =~= head + p@.subrange(4, i as int));
            }
        }
        proof {
            assert(p@.subrange(4, p@.len() as int) =~= p@.skip(4));
            if drive {
                assert(head =~= Seq::<char>::empty());
                assert(out@ =~= p@.skip(4));
            } else {
                assert(head =~= "\\\\"@);
            }
        }
        return string_from_chars(out.as_slice());
    }
    path
}

} // verus!
