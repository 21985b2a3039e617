//! Stack traces: reading the frame lines of a JavaScript stack and pointing
//! them back at the original sources through the modules' source maps.
use vstd::prelude::*;

use crate::numbers::{decimal, parse_unsigned, parse_unsigned_chars, push_decimal};
use crate::text::{
    append_chars, append_str, join_seq, opt_text, slice_chars, split_chars, split_seq, str_chars,
    string_from_chars,
};
use crate::lexical::{trim, trim_bounds};
use crate::text_map::TextMap;

verus! {

// ---------------------------------------------------------------------------
// Lines
// ---------------------------------------------------------------------------

/// `s` without one trailing `\r`.
pub open spec fn strip_cr(s: Seq<char>) -> Seq<char> {
    if s.len() > 0 && s.last() == '\r' {
        s.drop_last()
    } else {
        s
    }
}

/// The lines of `s`, as `str::lines` gives them: split at `\n`, a `\r` before
/// a `\n` dropped, and no empty line after a final `\n` (nor for empty text).
pub open spec fn lines_spec(s: Seq<char>) -> Seq<Seq<char>> {
    let pieces = split_seq(s, '\n');
    let n = pieces.len();
    let body = Seq::new((n - 1) as nat, |i: int| strip_cr(pieces[i]));
    if pieces[n - 1].len() == 0 {
        body
    } else {
        body.push(pieces[n - 1])
    }
}

/// The lines of `s`.
pub fn lines(s: &[char]) -> (r: Vec<Vec<char>>)
    ensures
        r@.len() == lines_spec(s@).len(),
        forall|i: int| 0 <= i < r@.len() ==> (#[trigger] r@[i])@ == lines_spec(s@)[i],
{
    let pieces = split_chars(s, '\n');
    proof {
        crate::text::lemma_split_nonempty(s@, '\n');
    }
    let n: usize = pieces.len();
    let mut out: Vec<Vec<char>> = Vec::new();
    let mut i: usize = 0;
    while i + 1 < n
        invariant
            n == pieces@.len(),
            n == split_seq(s@, '\n').len(),
            n >= 1,
            forall|k: int| 0 <= k < n ==> (#[trigger] pieces@[k])@ == split_seq(s@, '\n')[k],
            i < n,
            out@.len() == i,
            forall|k: int| 0 <= k < i ==> (#[trigger] out@[k])@ == strip_cr(split_seq(s@, '\n')[k]),
        decreases n - i,
    {
        let p = pieces[i].as_slice();
        let len: usize = p.len();
        let line = if len > 0 && p[len - 1] == '\r' {
            slice_chars(p, 0, len - 1)
        } else {
            slice_chars(p, 0, len)
        };
        proof {
            if len > 0 {
                assert(p@.last() == p@[len - 1]);
            }
            assert(p@.subrange(0, len as int) =~= p@);
            assert(p@.subrange(0, len - 1) =~= p@.drop_last());
        }
        out.push(line);
        i = i + 1;
    }
    let last = pieces[n - 1].as_slice();
    if last.len() > 0 {
        out.push(slice_chars(last, 0, last.len()));
        proof {
            assert(last@.subrange(0, last@.len() as int) =~= last@);
        }
    }
    proof {
        let spec = lines_spec(s@);
        assert forall|k: int| 0 <= k < out@.len() implies (#[trigger] out@[k])@ == spec[k] by {}
    }
    out
}

// ---------------------------------------------------------------------------
// Frame lines
// ---------------------------------------------------------------------------

/// The index of the last `c` in `s`.
pub open spec fn last_index(s: Seq<char>, c: char) -> Option<int>
    decreases s.len(),
{
    if s.len() == 0 {
        None
    } else if s.last() == c {
        Some(s.len() - 1)
    } else {
        last_index(s.drop_last(), c)
    }
}

/// The index found is that of the last `c`: it holds `c` and no later
/// character does; with no index found, `s` holds no `c`.
pub proof fn law_last_index_is_last(s: Seq<char>, c: char)
    ensures
        last_index(s, c) matches Some(i) ==> 0 <= i < s.len() && s[i] == c && forall|j: int|
            i < j < s.len() ==> #[trigger] s[j] != c,
        last_index(s, c) is None ==> forall|j: int| 0 <= j < s.len() ==> #[trigger] s[j] != c,
    decreases s.len(),
{
    if s.len() > 0 {
        let init = s.drop_last();
        law_last_index_is_last(init, c);
        assert forall|j: int| 0 <= j < init.len() implies s[j] == #[trigger] init[j] by {}
        if s.last() != c {
            assert(s[s.len() - 1] == s.last());
            assert forall|j: int| 0 <= j < s.len() && (last_index(s, c) is None || last_index(s, c)->Some_0 < j) implies #[trigger] s[j] != c by {
                if j < init.len() {
                    assert(s[j] == init[j]);
                }
            }
        }
    }
}

fn find_last(s: &[char], c: char) -> (r: Option<usize>)
    ensures
        match r {
            Some(i) => last_index(s@, c) == Some(i as int) && i < s@.len(),
            None => last_index(s@, c) is None,
        },
{
    let mut j: usize = s.len();
    proof {
        assert(s@.take(j as int) =~= s@);
    }
    while j > 0
        invariant
            j <= s@.len(),
            last_index(s@, c) == last_index(s@.take(j as int), c),
        decreases j,
    {
        proof {
            assert(s@.take(j as int).drop_last() =~= s@.take(j - 1));
            assert(s@.take(j as int).last() == s@[j - 1]);
        }
        if s[j - 1] == c {
            return Some(j - 1);
        }
        j = j - 1;
    }
    None
}

/// The parts of a location `file:line:column`, split at its last two colons as
/// `rsplitn(3, ':')` does; `None` with fewer than two colons.
pub open spec fn location_parts(loc: Seq<char>) -> Option<(Seq<char>, Seq<char>, Seq<char>)> {
    match last_index(loc, ':') {
        None => None,
        Some(c2) => match last_index(loc.take(c2), ':') {
            None => None,
            Some(c1) => Some((loc.take(c1), loc.subrange(c1 + 1, c2), loc.skip(c2 + 1))),
        },
    }
}

/// A frame location with its line and column read as `u32`s.
pub open spec fn parse_location_spec(loc: Seq<char>) -> Option<(Seq<char>, u32, u32)> {
    match location_parts(loc) {
        None => None,
        Some((file, line, column)) => match (parse_unsigned(column, u32::MAX as int), parse_unsigned(line, u32::MAX as int)) {
            (Ok(c), Ok(l)) => Some((file, l as u32, c as u32)),
            _ => None,
        },
    }
}

/// Reads `file:line:column`.
pub fn parse_location(loc: &[char]) -> (r: Option<(Vec<char>, u32, u32)>)
    ensures
        match r {
            Some((f, l, c)) => parse_location_spec(loc@) == Some((f@, l, c)),
            None => parse_location_spec(loc@) is None,
        },
{
    let n: usize = loc.len();
    let c2 = match find_last(loc, ':') {
        None => {
            return None;
        },
        Some(i) => i,
    };
    let head = slice_chars(loc, 0, c2);
    proof {
        assert(head@ =~= loc@.take(c2 as int));
    }
    let c1 = match find_last(head.as_slice(), ':') {
        None => {
            return None;
        },
        Some(i) => i,
    };
    let file = slice_chars(loc, 0, c1);
    let line = slice_chars(loc, c1 + 1, c2);
    let column = slice_chars(loc, c2 + 1, n);
    proof {
        assert(file@ =~= loc@.take(c1 as int));
        assert(column@ =~= loc@.skip(c2 + 1));
    }
    let cv = parse_unsigned_chars(column.as_slice(), u32::MAX);
    let lv = parse_unsigned_chars(line.as_slice(), u32::MAX);
    match (cv, lv) {
        (Ok(c), Ok(l)) => Some((file, l, c)),
        _ => None,
    }
}

/// What a line of a stack trace is.
pub enum FrameLine {
    /// Not a frame (it does not start with `at ` once trimmed).
    Other,
    /// `at function (location)`: the trimmed function part and the location.
    Call(Seq<char>, Seq<char>),
    /// `at location`, without parentheses.
    Bare(Seq<char>),
    /// A frame whose last `)` is not after its last `(`.
    Malformed,
}

/// How a stack line reads.
pub open spec fn frame_line(line: Seq<char>) -> FrameLine {
    let t = trim(line);
    if !(t.len() >= 3 && t.take(3) == "at "@) {
        FrameLine::Other
    } else {
        let rest = t.skip(3);
        match last_index(rest, '(') {
            Some(open) => match last_index(rest, ')') {
                Some(close) => if close > open {
                    FrameLine::Call(trim(rest.take(open)), rest.subrange(open + 1, close))
                } else {
                    FrameLine::Malformed
                },
                None => FrameLine::Malformed,
            },
            None => FrameLine::Bare(rest),
        }
    }
}

// ---------------------------------------------------------------------------
// Source maps
// ---------------------------------------------------------------------------

/// The original position a source map gives for a 0-based line and column:
/// the original line, column and, if recorded, source file.
pub uninterp spec fn source_map_token(map_json: Seq<char>, line: u32, column: u32) -> Option<(u32, u32, Option<Seq<char>>)>;

/// Whether each token of a source map, in order, is a range token; `None`
/// when the text does not parse as a source map.
pub uninterp spec fn source_map_range_flags(map_json: Seq<char>) -> Option<Seq<bool>>;

/// Whether a source map holds a range token. Looking a position up in such a
/// map can land on a range token whose generated column lies past the column
/// asked for, and `lookup_token` then subtracts past zero.
pub open spec fn has_range_tokens(map_json: Seq<char>) -> bool {
    source_map_range_flags(map_json) matches Some(f) && f.contains(true)
}

/// Parses the source map with `sourcemap::SourceMap::from_slice` and reports
/// `Token::is_range` of each token. Trusted: the outcome depends on the map's
/// text alone, which the name `source_map_range_flags` records.
#[verifier::external_body]
fn range_flags(map_json: &str) -> (r: Option<Vec<bool>>)
    ensures
        match r {
            Some(v) => source_map_range_flags(map_json@) == Some(v@),
            None => source_map_range_flags(map_json@) is None,
        },
{
    let map = sourcemap::SourceMap::from_slice(map_json.as_bytes()).ok()?;
    Some(map.tokens().map(|t| t.is_range()).collect())
}

/// Whether the map `map_json` holds a range token.
fn holds_range_tokens(map_json: &str) -> (r: bool)
    ensures
        r == has_range_tokens(map_json@),
{
    match range_flags(map_json) {
        None => false,
        Some(flags) => {
            let mut i: usize = 0;
            while i < flags.len()
                invariant
                    i <= flags@.len(),
                    source_map_range_flags(map_json@) == Some(flags@),
                    forall|k: int| 0 <= k < i ==> !flags@[k],
                decreases flags@.len() - i,
            {
                if flags[i] {
                    proof {
                        assert(flags@[i as int] == true);
                        assert(flags@.contains(true));
                    }
                    return true;
                }
                i = i + 1;
            }
            proof {
                assert(!flags@.contains(true));
            }
            false
        },
    }
}

/// Parses the source map with `sourcemap::SourceMap::from_slice` and calls
/// `lookup_token`. Trusted: the outcome depends on the map's text and the
/// position alone, which the name `source_map_token` records. A map with
/// range tokens is left out: the lookup can underflow on it.
#[verifier::external_body]
fn lookup_token(map_json: &str, line: u32, column: u32) -> (r: Option<(u32, u32, Option<String>)>)
    requires
        !has_range_tokens(map_json@),
    ensures
        match r {
            Some((l, c, s)) => source_map_token(map_json@, line, column) == Some((l, c, opt_text(s))),
            None => source_map_token(map_json@, line, column) is None,
        },
{
    let map = sourcemap::SourceMap::from_slice(map_json.as_bytes()).ok()?;
    let token = map.lookup_token(line, column)?;
    Some((token.get_src_line(), token.get_src_col(), token.get_source().map(|s| s.to_owned())))
}

/// One less than `n`, but not below zero: a 1-based position made 0-based.
pub open spec fn zero_based(n: u32) -> u32 {
    if n > 0 {
        (n - 1) as u32
    } else {
        0
    }
}

/// Where a generated position maps to: through the source map of `script`
/// (kept in `maps` by script name), to the original file (or `script` itself
/// when the map names none) and 1-based line and column; `None` without a map
/// or when the position is unmapped (`u32::MAX` marks that). A map holding
/// range tokens is not consulted, as if there were none.
pub open spec fn mapped_spec(maps: Map<Seq<char>, String>, script: Seq<char>, line: u32, column: u32) -> Option<(Seq<char>, int, int)> {
    if !maps.contains_key(script) || has_range_tokens(maps[script]@) {
        None
    } else {
        match source_map_token(maps[script]@, zero_based(line), zero_based(column)) {
            None => None,
            Some((l, c, src)) => if l != u32::MAX && c != u32::MAX {
                Some(
                    (
                        match src {
                            Some(f) => f,
                            None => script,
                        },
                        l + 1,
                        c + 1,
                    ),
                )
            } else {
                None
            },
        }
    }
}

/// Maps a generated position of `script` to its original source.
pub fn map_location(maps: &TextMap<String>, script: &str, line: u32, column: u32) -> (r: Option<(String, u64, u64)>)
    requires
        maps.wf(),
    ensures
        match r {
            Some((f, l, c)) => mapped_spec(maps.as_map(), script@, line, column) == Some((f@, l as int, c as int)),
            None => mapped_spec(maps.as_map(), script@, line, column) is None,
        },
{
    let map = match maps.get(script) {
        None => {
            return None;
        },
        Some(m) => m,
    };
    if holds_range_tokens(map.as_str()) {
        return None;
    }
    let zl = if line > 0 {
        line - 1
    } else {
        0
    };
    let zc = if column > 0 {
        column - 1
    } else {
        0
    };
    match lookup_token(map.as_str(), zl, zc) {
        None => None,
        Some((l, c, src)) => {
            if l != u32::MAX && c != u32::MAX {
                let file = match src {
                    Some(f) => f,
                    None => script.to_owned(),
                };
                Some((file, l as u64 + 1, c as u64 + 1))
            } else {
                None
            }
        },
    }
}

/// `    at function (file:line:column)`.
pub open spec fn call_text(function: Seq<char>, file: Seq<char>, line: nat, column: nat) -> Seq<char> {
    "    at "@ + function + " ("@ + file + ":"@ + decimal(line) + ":"@ + decimal(column) + ")"@
}

/// `    at file:line:column`.
pub open spec fn bare_text(file: Seq<char>, line: nat, column: nat) -> Seq<char> {
    "    at "@ + file + ":"@ + decimal(line) + ":"@ + decimal(column)
}

/// A stack line with its frame pointed at the original source where a source
/// map knows it; any other line unchanged.
pub open spec fn map_line_spec(maps: Map<Seq<char>, String>, line: Seq<char>) -> Seq<char> {
    match frame_line(line) {
        FrameLine::Call(function, loc) => match parse_location_spec(loc) {
            Some((file, l, c)) => match mapped_spec(maps, file, l, c) {
                Some((f, ml, mc)) => call_text(function, f, ml as nat, mc as nat),
                None => line,
            },
            None => line,
        },
        FrameLine::Bare(loc) => match parse_location_spec(loc) {
            Some((file, l, c)) => match mapped_spec(maps, file, l, c) {
                Some((f, ml, mc)) => bare_text(f, ml as nat, mc as nat),
                None => line,
            },
            None => line,
        },
        _ => line,
    }
}

fn push_position(out: &mut Vec<char>, file: &str, line: u64, column: u64)
    ensures
        final(out)@ == old(out)@ + file@ + ":"@ + decimal(line as nat) + ":"@ + decimal(column as nat),
{
    append_str(out, file);
    append_str(out, ":");
    push_decimal(out, line);
    append_str(out, ":");
    push_decimal(out, column);
    proof {
        assert(final(out)@ =~= old(out)@ + file@ + ":"@ + decimal(line as nat) + ":"@ + decimal(column as nat));
    }
}

/// Points one stack line at its original source.
pub fn map_stack_frame_line(maps: &TextMap<String>, line: &[char]) -> (r: Vec<char>)
    requires
        maps.wf(),
    ensures
        r@ == map_line_spec(maps.as_map(), line@),
{
    let n: usize = line.len();
    let (a, b) = trim_bounds(line, 0, n);
    proof {
        assert(line@.subrange(0, n as int) =~= line@);
    }
    let t = slice_chars(line, a, b);
    let at = str_chars("at ");
    proof {
        reveal_strlit("at ");
    }
    if !crate::text::starts_with_chars(t.as_slice(), at.as_slice()) {
        return slice_chars(line, 0, n);
    }
    let rest = slice_chars(t.as_slice(), 3, t.len());
    proof {
        assert(rest@ =~= t@.skip(3));
        assert(line@.subrange(0, n as int) =~= line@);
    }
    match find_last(rest.as_slice(), '(') {
        Some(open) => {
            let close = match find_last(rest.as_slice(), ')') {
                Some(c) => c,
                None => {
                    return slice_chars(line, 0, n);
                },
            };
            if close <= open {
                return slice_chars(line, 0, n);
            }
            let (fa, fb) = trim_bounds(rest.as_slice(), 0, open);
            let function = slice_chars(rest.as_slice(), fa, fb);
            let loc = slice_chars(rest.as_slice(), open + 1, close);
            proof {
                assert(rest@.subrange(0, open as int) =~= rest@.take(open as int));
            }
            match parse_location(loc.as_slice()) {
                None => slice_chars(line, 0, n),
                Some((file, l, c)) => {
                    let file = string_from_chars(file.as_slice());
                    match map_location(maps, file.as_str(), l, c) {
                        None => slice_chars(line, 0, n),
                        Some((f, ml, mc)) => {
                            let mut out: Vec<char> = Vec::new();
                            append_str(&mut out, "    at ");
                            append_chars(&mut out, function.as_slice());
                            append_str(&mut out, " (");
                            push_position(&mut out, f.as_str(), ml, mc);
                            append_str(&mut out, ")");
                            proof {
                                assert(out@ =~= call_text(function@, f@, ml as nat, mc as nat));
                            }
                            out
                        },
                    }
                },
            }
        },
        None => match parse_location(rest.as_slice()) {
            None => slice_chars(line, 0, n),
            Some((file, l, c)) => {
                let file = string_from_chars(file.as_slice());
                match map_location(maps, file.as_str(), l, c) {
                    None => slice_chars(line, 0, n),
                    Some((f, ml, mc)) => {
                        let mut out: Vec<char> = Vec::new();
                        append_str(&mut out, "    at ");
                        push_position(&mut out, f.as_str(), ml, mc);
                        proof {
                            assert(out@ =~= bare_text(f@, ml as nat, mc as nat));
                        }
                        out
                    },
                }
            },
        },
    }
}

/// A stack trace with each frame line pointed at its original source, lines
/// joined with `\n`.
pub open spec fn mapped_trace(maps: Map<Seq<char>, String>, stack: Seq<char>) -> Seq<char> {
    let ls = lines_spec(stack);
    join_seq(Seq::new(ls.len(), |i: int| map_line_spec(maps, ls[i])), '\n')
}

/// Points every frame of a stack trace at its original source.
pub fn format_stack_trace_with_source_maps(maps: &TextMap<String>, stack_trace: &str) -> (r: String)
    requires
        maps.wf(),
    ensures
        r@ == mapped_trace(maps.as_map(), stack_trace@),
{
    let s = str_chars(stack_trace);
    let ls = lines(s.as_slice());
    let ghost want = Seq::new(lines_spec(s@).len(), |i: int| map_line_spec(maps.as_map(), lines_spec(s@)[i]));
    let mut out: Vec<char> = Vec::new();
    let mut i: usize = 0;
    while i < ls.len()
        invariant
            maps.wf(),
            s@ == stack_trace@,
            ls@.len() == lines_spec(s@).len(),
            forall|k: int| 0 <= k < ls@.len() ==> (#[trigger] ls@[k])@ == lines_spec(s@)[k],
            want == Seq::new(lines_spec(s@).len(), |i: int| map_line_spec(maps.as_map(), lines_spec(s@)[i])),
            i <= ls@.len(),
            out@ == join_seq(want.take(i as int), '\n'),
        decreases ls@.len() - i,
    {
        let mapped = map_stack_frame_line(maps, ls[i].as_slice());
        let ghost before = out@;
        if i > 0 {
            out.push('\n');
        }
        append_chars(&mut out, mapped.as_slice());
        proof {
            let w = want.take(i + 1);
            assert(w.drop_last() =~= want.take(i as int));
            assert(w.last() == mapped@);
            if i == 0 {
                assert(w.len() == 1);
                assert(out@ =~= w[0]);
            } else {
                assert(out@ =~= join_seq(want.take(i as int), '\n').push('\n') + mapped@);
            }
        }
        i = i + 1;
    }
    proof {
        assert(want.take(i as int) =~= want);
    }
    string_from_chars(out.as_slice())
}

/// One frame of a V8 stack: its function, script, line and column.
pub struct StackFrame {
    pub function_name: Option<String>,
    pub script_name: Option<String>,
    pub line: u32,
    pub column: u32,
}

/// The line written for a V8 frame: `<anonymous>` and `<unknown>` stand in for
/// missing names, and the position is mapped when a source map knows it.
pub open spec fn frame_text(maps: Map<Seq<char>, String>, f: StackFrame) -> Seq<char> {
    let function = match f.function_name {
        Some(n) => n@,
        None => "<anonymous>"@,
    };
    let script = match f.script_name {
        Some(n) => n@,
        None => "<unknown>"@,
    };
    match mapped_spec(maps, script, f.line, f.column) {
        Some((file, l, c)) => call_text(function, file, l as nat, c as nat),
        None => call_text(function, script, f.line as nat, f.column as nat),
    }
}

/// Writes the lines of V8 stack frames, joined with `\n`.
pub fn format_frames(maps: &TextMap<String>, frames: &Vec<StackFrame>) -> (r: String)
    requires
        maps.wf(),
    ensures
        r@ == join_seq(Seq::new(frames@.len(), |i: int| frame_text(maps.as_map(), frames@[i])), '\n'),
{
    let ghost want = Seq::new(frames@.len(), |i: int| frame_text(maps.as_map(), frames@[i]));
    let mut out: Vec<char> = Vec::new();
    let mut i: usize = 0;
    while i < frames.len()
        invariant
            maps.wf(),
            want == Seq::new(frames@.len(), |i: int| frame_text(maps.as_map(), frames@[i])),
            i <= frames@.len(),
            out@ == join_seq(want.take(i as int), '\n'),
        decreases frames@.len() - i,
    {
        let f = &frames[i];
        let function: String = match &f.function_name {
            Some(n) => n.clone(),
            None => "<anonymous>".to_owned(),
        };
        let script: String = match &f.script_name {
            Some(n) => n.clone(),
            None => "<unknown>".to_owned(),
        };
        let mut line: Vec<char> = Vec::new();
        append_str(&mut line, "    at ");
        append_str(&mut line, function.as_str());
        append_str(&mut line, " (");
        match map_location(maps, script.as_str(), f.line, f.column) {
            Some((file, l, c)) => push_position(&mut line, file.as_str(), l, c),
            None => push_position(&mut line, script.as_str(), f.line as u64, f.column as u64),
        }
        append_str(&mut line, ")");
        proof {
            assert(line@ =~= frame_text(maps.as_map(), frames@[i as int]));
        }
        if i > 0 {
            out.push('\n');
        }
        let ghost before = out@;
        append_chars(&mut out, line.as_slice());
        proof {
            let w = want.take(i + 1);
            assert(w.drop_last() =~= want.take(i as int));
            assert(w.last() == line@);
            if i == 0 {
                assert(out@ =~= w[0]);
            }
        }
        i = i + 1;
    }
    proof {
        assert(want.take(i as int) =~= want);
    }
    string_from_chars(out.as_slice())
}

} // verus!
