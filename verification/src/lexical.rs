//! Whitespace, trimming, words and ASCII case, as `str` defines them.
use vstd::prelude::*;

verus! {

/// Unicode `White_Space`, the property that `char::is_whitespace` tests.
pub open spec fn is_ws(c: char) -> bool {
    ||| c == '\t' || c == '\n' || c == '\u{0B}' || c == '\u{0C}' || c == '\r' || c == ' '
    ||| c == '\u{85}' || c == '\u{A0}' || c == '\u{1680}'
    ||| ('\u{2000}' <= c && c <= '\u{200A}')
    ||| c == '\u{2028}' || c == '\u{2029}' || c == '\u{202F}' || c == '\u{205F}' || c == '\u{3000}'
}

/// Whether `c` is whitespace.
pub fn is_whitespace(c: char) -> (r: bool)
    ensures
        r == is_ws(c),
{
    c == '\t' || c == '\n' || c == '\u{0B}' || c == '\u{0C}' || c == '\r' || c == ' ' || c
        == '\u{85}' || c == '\u{A0}' || c == '\u{1680}' || ('\u{2000}' <= c && c <= '\u{200A}')
        || c == '\u{2028}' || c == '\u{2029}' || c == '\u{202F}' || c == '\u{205F}' || c
        == '\u{3000}'
}

/// `s` without its leading whitespace.
pub open spec fn trim_start(s: Seq<char>) -> Seq<char>
    decreases s.len(),
{
    if s.len() > 0 && is_ws(s[0]) {
        trim_start(s.drop_first())
    } else {
        s
    }
}

/// `s` without its trailing whitespace.
pub open spec fn trim_end(s: Seq<char>) -> Seq<char>
    decreases s.len(),
{
    if s.len() > 0 && is_ws(s.last()) {
        trim_end(s.drop_last())
    } else {
        s
    }
}

/// `s` without leading and trailing whitespace, as `str::trim` gives it.
pub open spec fn trim(s: Seq<char>) -> Seq<char> {
    trim_end(trim_start(s))
}

proof fn lemma_trim_start_cut(s: Seq<char>) -> (a: int)
    ensures
        0 <= a <= s.len(),
        trim_start(s) == s.skip(a),
        forall|i: int| 0 <= i < a ==> is_ws(#[trigger] s[i]),
        a < s.len() ==> !is_ws(s[a]),
    decreases s.len(),
{
    if s.len() > 0 && is_ws(s[0]) {
        let rest = s.drop_first();
        let b = lemma_trim_start_cut(rest);
        assert(rest.skip(b) =~= s.skip(b + 1));
        assert forall|i: int| 0 <= i < b + 1 implies is_ws(#[trigger] s[i]) by {
            if i > 0 {
                assert(s[i] == rest[i - 1]);
            }
        }
        if b + 1 < s.len() {
            assert(s[b + 1] == rest[b]);
        }
        b + 1
    } else {
        assert(s.skip(0) =~= s);
        0
    }
}

proof fn lemma_trim_end_cut(s: Seq<char>) -> (b: int)
    ensures
        0 <= b <= s.len(),
        trim_end(s) == s.take(b),
        forall|i: int| b <= i < s.len() ==> is_ws(#[trigger] s[i]),
        b > 0 ==> !is_ws(s[b - 1]),
    decreases s.len(),
{
    if s.len() > 0 && is_ws(s.last()) {
        let init = s.drop_last();
        let b = lemma_trim_end_cut(init);
        assert(init.take(b) =~= s.take(b));
        assert forall|i: int| b <= i < s.len() implies is_ws(#[trigger] s[i]) by {
            if i < init.len() {
                assert(s[i] == init[i]);
            }
        }
        if b > 0 {
            assert(s[b - 1] == init[b - 1]);
        }
        b
    } else {
        assert(s.take(s.len() as int) =~= s);
        s.len() as int
    }
}

/// Trimming removes whitespace from both ends and nothing else: the result is
/// a stretch of `s` with only whitespace before and after it, and it neither
/// starts nor ends with whitespace.
pub proof fn law_trim_strips_only_ends(s: Seq<char>)
    ensures
        exists|a: int, b: int|
            0 <= a <= b <= s.len() && trim(s) == s.subrange(a, b) && (forall|i: int|
                0 <= i < a ==> is_ws(#[trigger] s[i])) && (forall|i: int| b <= i < s.len() ==> is_ws(#[trigger] s[i])),
        trim(s).len() > 0 ==> !is_ws(trim(s)[0]) && !is_ws(trim(s).last()),
{
    let a = lemma_trim_start_cut(s);
    let t = s.skip(a);
    let b = lemma_trim_end_cut(t);
    assert(t.take(b) =~= s.subrange(a, a + b));
    assert forall|i: int| a + b <= i < s.len() implies is_ws(#[trigger] s[i]) by {
        assert(s[i] == t[i - a]);
    }
    if trim(s).len() > 0 {
        assert(trim(s)[0] == t[0]);
        assert(t[0] == s[a]);
        assert(trim(s).last() == t[b - 1]);
    }
}

/// Number of characters before the first whitespace character of `s`.
pub open spec fn word_len(s: Seq<char>) -> nat
    decreases s.len(),
{
    if s.len() > 0 && !is_ws(s[0]) {
        1 + word_len(s.drop_first())
    } else {
        0
    }
}

/// The first whitespace-separated word of `s` and the text after it, as one
/// call of `next` on `str::split_whitespace` yields it; `None` when `s` is blank.
pub open spec fn next_word(s: Seq<char>) -> Option<(Seq<char>, Seq<char>)> {
    let t = trim_start(s);
    if t.len() == 0 {
        None
    } else {
        Some((t.take(word_len(t) as int), t.skip(word_len(t) as int)))
    }
}

proof fn lemma_trim_start_step(s: Seq<char>, a: int)
    requires
        0 <= a < s.len(),
        is_ws(s[a]),
    ensures
        trim_start(s.skip(a)) == trim_start(s.skip(a + 1)),
{
    assert(s.skip(a).drop_first() =~= s.skip(a + 1));
}

proof fn lemma_word_len_step(s: Seq<char>, a: int, b: int)
    requires
        0 <= a <= b < s.len(),
        !is_ws(s[b]),
    ensures
        word_len(s.skip(b)) == 1 + word_len(s.skip(b + 1)),
{
    assert(s.skip(b).drop_first() =~= s.skip(b + 1));
}

/// Index of the first non-whitespace character of `s` at or after `from`, or `s.len()`.
fn skip_ws(s: &[char], from: usize) -> (a: usize)
    requires
        from <= s@.len(),
    ensures
        from <= a <= s@.len(),
        trim_start(s@.skip(from as int)) == s@.skip(a as int),
        a < s@.len() ==> !is_ws(s@[a as int]),
{
    let mut a: usize = from;
    while a < s.len() && is_whitespace(s[a])
        invariant
            from <= a <= s@.len(),
            trim_start(s@.skip(from as int)) == trim_start(s@.skip(a as int)),
        decreases s@.len() - a,
    {
        proof {
            lemma_trim_start_step(s@, a as int);
        }
        a = a + 1;
    }
    proof {
        if a < s@.len() {
            assert(s@.skip(a as int)[0] == s@[a as int]);
        }
    }
    a
}

/// Index just past the run of non-whitespace characters starting at `from`.
fn skip_word(s: &[char], from: usize) -> (b: usize)
    requires
        from <= s@.len(),
    ensures
        from <= b <= s@.len(),
        b - from == word_len(s@.skip(from as int)),
{
    let mut b: usize = from;
    while b < s.len() && !is_whitespace(s[b])
        invariant
            from <= b <= s@.len(),
            word_len(s@.skip(from as int)) == (b - from) + word_len(s@.skip(b as int)),
        decreases s@.len() - b,
    {
        proof {
            lemma_word_len_step(s@, from as int, b as int);
        }
        b = b + 1;
    }
    proof {
        if b < s@.len() {
            assert(s@.skip(b as int)[0] == s@[b as int]);
        }
    }
    b
}

/// Trims whitespace from both ends of `s[from..to]`, giving the bounds of what is left.
pub fn trim_bounds(s: &[char], from: usize, to: usize) -> (r: (usize, usize))
    requires
        from <= to <= s@.len(),
    ensures
        from <= r.0 <= r.1 <= to,
        s@.subrange(r.0 as int, r.1 as int) == trim(s@.subrange(from as int, to as int)),
{
    let ghost part = s@.subrange(from as int, to as int);
    let mut a: usize = from;
    while a < to && is_whitespace(s[a])
        invariant
            from <= a <= to <= s@.len(),
            part == s@.subrange(from as int, to as int),
            trim_start(part) == trim_start(s@.subrange(a as int, to as int)),
        decreases to - a,
    {
        proof {
            let t = s@.subrange(a as int, to as int);
            assert(t.drop_first() =~= s@.subrange(a + 1, to as int));
        }
        a = a + 1;
    }
    proof {
        if a < to {
            assert(s@.subrange(a as int, to as int)[0] == s@[a as int]);
        }
    }
    let mut b: usize = to;
    while b > a && is_whitespace(s[b - 1])
        invariant
            from <= a <= b <= to <= s@.len(),
            trim(part) == trim_end(s@.subrange(a as int, b as int)),
        decreases b - a,
    {
        proof {
            let t = s@.subrange(a as int, b as int);
            assert(t.drop_last() =~= s@.subrange(a as int, b - 1));
        }
        b = b - 1;
    }
    proof {
        if b > a {
            assert(s@.subrange(a as int, b as int).last() == s@[b - 1]);
        }
    }
    (a, b)
}

/// The first word of `s[from..]` as the range it occupies, or `None` when the rest is blank.
pub fn next_word_bounds(s: &[char], from: usize) -> (r: Option<(usize, usize)>)
    requires
        from <= s@.len(),
    ensures
        match r {
            Some((a, b)) => from <= a < b <= s@.len() && next_word(s@.skip(from as int)) == Some(
                (s@.subrange(a as int, b as int), s@.skip(b as int)),
            ),
            None => next_word(s@.skip(from as int)) is None,
        },
{
    let a = skip_ws(s, from);
    if a == s.len() {
        return None;
    }
    let b = skip_word(s, a);
    proof {
        let t = s@.skip(a as int);
        assert(t[0] == s@[a as int]);
        assert(word_len(t) >= 1);
        assert(t.take(word_len(t) as int) =~= s@.subrange(a as int, b as int));
        assert(t.skip(word_len(t) as int) =~= s@.skip(b as int));
    }
    Some((a, b))
}

/// `c` with ASCII upper-case letters mapped to lower case, as `char::to_ascii_lowercase`.
pub open spec fn ascii_lower(c: char) -> char {
    if 'A' <= c && c <= 'Z' {
        ((c as u32) + 32) as char
    } else {
        c
    }
}

/// `s` with every ASCII letter in lower case, as `str::to_ascii_lowercase`.
pub open spec fn lower_seq(s: Seq<char>) -> Seq<char> {
    Seq::new(s.len(), |i: int| ascii_lower(s[i]))
}

/// Equality up to ASCII case, as `str::eq_ignore_ascii_case`.
pub open spec fn eq_ignore_case(a: Seq<char>, b: Seq<char>) -> bool {
    lower_seq(a) == lower_seq(b)
}

/// The lower-case form of one character.
pub fn to_ascii_lower(c: char) -> (r: char)
    ensures
        r == ascii_lower(c),
{
    if 'A' <= c && c <= 'Z' {
        ((c as u8) + 32) as char
    } else {
        c
    }
}

/// `s` with its ASCII letters in lower case.
pub fn lowercase_chars(s: &[char]) -> (r: Vec<char>)
    ensures
        r@ == lower_seq(s@),
{
    let mut r: Vec<char> = Vec::new();
    let mut i: usize = 0;
    while i < s.len()
        invariant
            i <= s@.len(),
            r@ == lower_seq(s@.take(i as int)),
        decreases s@.len() - i,
    {
        r.push(to_ascii_lower(s[i]));
        i = i + 1;
        proof {
            assert(r@ =~= lower_seq(s@.take(i as int)));
        }
    }
    proof {
        assert(s@.take(i as int) =~= s@);
    }
    r
}

/// Whether `a` and `b` are equal up to ASCII case.
pub fn eq_ignore_ascii_case(a: &[char], b: &[char]) -> (r: bool)
    ensures
        r == eq_ignore_case(a@, b@),
{
    if a.len() != b.len() {
        proof {
            assert(lower_seq(a@).len() != lower_seq(b@).len());
        }
        return false;
    }
    let mut i: usize = 0;
    while i < a.len()
        invariant
            i <= a@.len(),
            a@.len() == b@.len(),
            forall|j: int| 0 <= j < i ==> ascii_lower(a@[j]) == ascii_lower(b@[j]),
        decreases a@.len() - i,
    {
        if to_ascii_lower(a[i]) != to_ascii_lower(b[i]) {
            proof {
                assert(lower_seq(a@)[i as int] != lower_seq(b@)[i as int]);
            }
            return false;
        }
        i = i + 1;
    }
    proof {
        assert(lower_seq(a@) =~= lower_seq(b@));
    }
    true
}

/// Whether `needle` occurs in `hay` as a contiguous run.
pub open spec fn contains_seq(hay: Seq<char>, needle: Seq<char>) -> bool {
    exists|i: int| 0 <= i && i + needle.len() <= hay.len() && #[trigger] hay.subrange(i, i + needle.len()) == needle
}

/// Whether `needle` occurs in `hay`, as `str::contains` with a string pattern.
pub fn contains_chars(hay: &[char], needle: &[char]) -> (r: bool)
    ensures
        r == contains_seq(hay@, needle@),
{
    if needle.len() > hay.len() {
        return false;
    }
    let n: usize = hay.len();
    let last: usize = n - needle.len();
    let mut i: usize = 0;
    while i <= last
        invariant
            n == hay@.len(),
            last + needle@.len() == hay@.len(),
            forall|k: int| 0 <= k < i ==> #[trigger] hay@.subrange(k, k + needle@.len()) != needle@,
        decreases last + 1 - i,
    {
        let mut j: usize = 0;
        while j < needle.len() && hay[i + j] == needle[j]
            invariant
                i <= last,
                last + needle@.len() == hay@.len(),
                n == hay@.len(),
                j <= needle@.len(),
                forall|k: int| 0 <= k < j ==> hay@[i + k] == needle@[k],
            decreases needle@.len() - j,
        {
            j = j + 1;
        }
        if j == needle.len() {
            proof {
                assert(hay@.subrange(i as int, i + needle@.len()) =~= needle@);
            }
            return true;
        }
        proof {
            assert(hay@.subrange(i as int, i + needle@.len())[j as int] != needle@[j as int]);
        }
        i = i + 1;
    }
    proof {
        assert forall|k: int| 0 <= k && k + needle@.len() <= hay@.len() implies #[trigger] hay@.subrange(k, k + needle@.len()) != needle@ by {
            assert(k < i);
        }
    }
    false
}

} // verus!
