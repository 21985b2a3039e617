//! Character-level text helpers shared by the manifest, HTTP and resolution code.
//!
//! Strings are handled as sequences of `char`; the two conversions between
//! `&str` / `String` and `Vec<char>` are the only trusted pieces here.
use vstd::prelude::*;

verus! {

/// Collects the characters of `s`.
/// Trusted: `str::chars` followed by `collect` yields exactly the characters of `s`.
#[verifier::external_body]
pub(crate) fn str_chars(s: &str) -> (v: Vec<char>)
    ensures
        v@ == s@,
{
    s.chars().collect()
}

/// Builds a `String` from a slice of characters.
/// Trusted: collecting characters into a `String` keeps them in order.
#[verifier::external_body]
pub(crate) fn string_from_chars(v: &[char]) -> (s: String)
    ensures
        s@ == v@,
{
    v.iter().collect()
}

/// The pieces of `s` between occurrences of `sep`, as `str::split` with a `char` gives them.
/// There is always at least one piece.
pub open spec fn split_seq(s: Seq<char>, sep: char) -> Seq<Seq<char>>
    decreases s.len(),
{
    if s.len() == 0 {
        seq![Seq::<char>::empty()]
    } else {
        let p = split_seq(s.drop_last(), sep);
        if s.last() == sep {
            p.push(Seq::<char>::empty())
        } else {
            p.update(p.len() - 1, p.last().push(s.last()))
        }
    }
}

/// The pieces joined with `sep` between consecutive pieces, as `[T]::join` does.
pub open spec fn join_seq(parts: Seq<Seq<char>>, sep: char) -> Seq<char>
    decreases parts.len(),
{
    if parts.len() == 0 {
        Seq::<char>::empty()
    } else if parts.len() == 1 {
        parts[0]
    } else {
        join_seq(parts.drop_last(), sep).push(sep) + parts.last()
    }
}

/// Index of the first occurrence of `c` in `s`, if any.
pub open spec fn first_index(s: Seq<char>, c: char) -> Option<int>
    decreases s.len(),
{
    if s.len() == 0 {
        None
    } else if s[0] == c {
        Some(0)
    } else {
        match first_index(s.drop_first(), c) {
            Some(i) => Some(i + 1),
            None => None,
        }
    }
}

pub proof fn lemma_split_nonempty(s: Seq<char>, sep: char)
    ensures
        split_seq(s, sep).len() >= 1,
    decreases s.len(),
{
    if s.len() > 0 {
        lemma_split_nonempty(s.drop_last(), sep);
    }
}

/// No piece of a split contains the separator.
pub proof fn lemma_split_pieces_free(s: Seq<char>, sep: char)
    ensures
        forall|i: int|
            0 <= i < split_seq(s, sep).len() ==> !(#[trigger] split_seq(s, sep)[i]).contains(sep),
    decreases s.len(),
{
    if s.len() > 0 {
        lemma_split_nonempty(s.drop_last(), sep);
        lemma_split_pieces_free(s.drop_last(), sep);
        let p = split_seq(s.drop_last(), sep);
        if s.last() != sep {
            let q = p.last().push(s.last());
            assert forall|j: int| 0 <= j < q.len() implies q[j] != sep by {
                if j < p.last().len() {
                    assert(q[j] == p.last()[j]);
                }
            }
        }
    }
}

/// Joining the pieces of a split gives back the original sequence.
pub proof fn lemma_join_split(s: Seq<char>, sep: char)
    ensures
        join_seq(split_seq(s, sep), sep) == s,
    decreases s.len(),
{
    if s.len() > 0 {
        let t = s.drop_last();
        lemma_join_split(t, sep);
        lemma_split_nonempty(t, sep);
        let p = split_seq(t, sep);
        if s.last() == sep {
            let q = p.push(Seq::<char>::empty());
            assert(q.drop_last() =~= p);
            assert(join_seq(q, sep) =~= join_seq(p, sep).push(sep));
            assert(t.push(sep) =~= s);
        } else {
            let q = p.update(p.len() - 1, p.last().push(s.last()));
            if p.len() == 1 {
                assert(join_seq(q, sep) == q[0]);
                assert(t.push(s.last()) =~= s);
            } else {
                assert(q.drop_last() =~= p.drop_last());
                assert(join_seq(q, sep) == join_seq(p.drop_last(), sep).push(sep) + p.last().push(
                    s.last(),
                ));
                assert(join_seq(p, sep) == join_seq(p.drop_last(), sep).push(sep) + p.last());
                assert((join_seq(p.drop_last(), sep).push(sep) + p.last()).push(s.last())
                    =~= join_seq(p.drop_last(), sep).push(sep) + p.last().push(s.last()));
                assert(t.push(s.last()) =~= s);
            }
        }
    }
}

/// Splitting `a` followed by a separator-free `b` extends the last piece of `a`'s split by `b`.
pub proof fn lemma_split_append_free(a: Seq<char>, b: Seq<char>, sep: char)
    requires
        !b.contains(sep),
    ensures
        ({
            let p = split_seq(a, sep);
            split_seq(a + b, sep) == p.update(p.len() - 1, p.last() + b)
        }),
    decreases b.len(),
{
    lemma_split_nonempty(a, sep);
    let p = split_seq(a, sep);
    if b.len() == 0 {
        assert(a + b =~= a);
        assert(p.last() + b =~= p.last());
        assert(p.update(p.len() - 1, p.last() + b) =~= p);
    } else {
        let b0 = b.drop_last();
        assert(!b0.contains(sep)) by {
            assert forall|j: int| 0 <= j < b0.len() implies b0[j] != sep by {
                assert(b0[j] == b[j]);
            }
        }
        lemma_split_append_free(a, b0, sep);
        assert((a + b).drop_last() =~= a + b0);
        assert((a + b).last() == b.last());
        assert(b.last() != sep) by {
            assert(b[b.len() - 1] == b.last());
        }
        lemma_split_nonempty(a + b0, sep);
        assert((p.last() + b0).push(b.last()) =~= p.last() + b);
        assert(split_seq(a + b, sep) =~= p.update(p.len() - 1, p.last() + b));
    }
}

/// Splitting a join of separator-free pieces gives the pieces back.
pub proof fn lemma_split_join(parts: Seq<Seq<char>>, sep: char)
    requires
        parts.len() >= 1,
        forall|i: int| 0 <= i < parts.len() ==> !(#[trigger] parts[i]).contains(sep),
    ensures
        split_seq(join_seq(parts, sep), sep) == parts,
    decreases parts.len(),
{
    if parts.len() == 1 {
        let e = Seq::<char>::empty();
        lemma_split_append_free(e, parts[0], sep);
        assert(e + parts[0] =~= parts[0]);
        assert(split_seq(e, sep) =~= seq![e]);
        assert(seq![e].update(0, e + parts[0]) =~= parts);
    } else {
        let init = parts.drop_last();
        assert forall|i: int| 0 <= i < init.len() implies !(#[trigger] init[i]).contains(sep) by {
            assert(init[i] == parts[i]);
        }
        lemma_split_join(init, sep);
        let a = join_seq(init, sep).push(sep);
        lemma_split_append_free(a, parts.last(), sep);
        lemma_split_nonempty(a, sep);
        assert(a.drop_last() =~= join_seq(init, sep));
        let e = Seq::<char>::empty();
        assert(split_seq(a, sep) =~= init.push(e));
        assert(e + parts.last() =~= parts.last());
        assert(init.push(e).update(init.len() as int, e + parts.last()) =~= parts);
    }
}

/// Splits `s` at every `sep`, keeping empty pieces.
pub fn split_chars(s: &[char], sep: char) -> (parts: Vec<Vec<char>>)
    ensures
        parts@.len() == split_seq(s@, sep).len(),
        forall|i: int| 0 <= i < parts@.len() ==> (#[trigger] parts@[i])@ == split_seq(s@, sep)[i],
{
    let mut parts: Vec<Vec<char>> = Vec::new();
    let mut cur: Vec<char> = Vec::new();
    let mut i: usize = 0;
    while i < s.len()
        invariant
            i <= s.len(),
            ({
                let p = split_seq(s@.take(i as int), sep);
                &&& parts@.len() + 1 == p.len()
                &&& forall|k: int| 0 <= k < parts@.len() ==> (#[trigger] parts@[k])@ == p[k]
                &&& cur@ == p.last()
            }),
        decreases s.len() - i,
    {
        proof {
            lemma_split_nonempty(s@.take(i as int), sep);
            assert(s@.take(i + 1).drop_last() =~= s@.take(i as int));
        }
        let c = s[i];
        if c == sep {
            let done = cur;
            parts.push(done);
            cur = Vec::new();
        } else {
            cur.push(c);
        }
        i = i + 1;
    }
    proof {
        assert(s@.take(s.len() as int) =~= s@);
    }
    parts.push(cur);
    parts
}

/// Position of the first `c` in `s`.
pub fn find_char(s: &[char], c: char) -> (r: Option<usize>)
    ensures
        match r {
            Some(i) => i < s@.len() && s@[i as int] == c && forall|j: int| 0 <= j < i ==> s@[j] != c,
            None => !s@.contains(c),
        },
        r matches Some(i) ==> first_index(s@, c) == Some(i as int),
        r is None ==> first_index(s@, c) is None,
{
    let mut i: usize = 0;
    while i < s.len()
        invariant
            i <= s.len(),
            forall|j: int| 0 <= j < i ==> s@[j] != c,
        decreases s.len() - i,
    {
        if s[i] == c {
            proof {
                lemma_first_index(s@, c, i as int);
            }
            return Some(i);
        }
        i = i + 1;
    }
    proof {
        lemma_first_index_none(s@, c);
    }
    None
}

pub proof fn lemma_first_index(s: Seq<char>, c: char, i: int)
    requires
        0 <= i < s.len(),
        s[i] == c,
        forall|j: int| 0 <= j < i ==> s[j] != c,
    ensures
        first_index(s, c) == Some(i),
    decreases s.len(),
{
    if i > 0 {
        lemma_first_index(s.drop_first(), c, i - 1);
    }
}

pub proof fn lemma_first_index_none(s: Seq<char>, c: char)
    requires
        !s.contains(c),
    ensures
        first_index(s, c) is None,
    decreases s.len(),
{
    if s.len() > 0 {
        assert(s[0] != c);
        assert(!s.drop_first().contains(c)) by {
            assert forall|j: int| 0 <= j < s.drop_first().len() implies s.drop_first()[j] != c by {
                assert(s.drop_first()[j] == s[j + 1]);
            }
        }
        lemma_first_index_none(s.drop_first(), c);
    }
}

pub proof fn lemma_first_index_props(s: Seq<char>, c: char)
    ensures
        match first_index(s, c) {
            Some(i) => 0 <= i < s.len() && s[i] == c && forall|j: int| 0 <= j < i ==> s[j] != c,
            None => !s.contains(c),
        },
    decreases s.len(),
{
    if s.len() > 0 {
        lemma_first_index_props(s.drop_first(), c);
        if s[0] != c {
            match first_index(s.drop_first(), c) {
                Some(i) => {
                    assert forall|j: int| 0 <= j < i + 1 implies s[j] != c by {
                        if j > 0 {
                            assert(s[j] == s.drop_first()[j - 1]);
                        }
                    }
                },
                None => {
                    assert forall|j: int| 0 <= j < s.len() implies s[j] != c by {
                        if j > 0 {
                            assert(s[j] == s.drop_first()[j - 1]);
                        }
                    }
                },
            }
        }
    }
}

/// Copies `s[from..to]`.
pub fn slice_chars(s: &[char], from: usize, to: usize) -> (r: Vec<char>)
    requires
        from <= to <= s@.len(),
    ensures
        r@ == s@.subrange(from as int, to as int),
{
    let mut r: Vec<char> = Vec::new();
    let mut i: usize = from;
    while i < to
        invariant
            from <= i <= to <= s@.len(),
            r@ == s@.subrange(from as int, i as int),
        decreases to - i,
    {
        r.push(s[i]);
        proof {
            assert(s@.subrange(from as int, i + 1) =~= s@.subrange(from as int, i as int).push(
                s@[i as int],
            ));
        }
        i = i + 1;
    }
    r
}

/// The outcome of comparing two values.
#[derive(Debug, Clone, Copy, PartialEq, Eq, Structural)]
pub enum Order3 {
    Less,
    Equal,
    Greater,
}

/// Lexicographic order of character sequences, which is the order of `String`s.
pub open spec fn text_order(a: Seq<char>, b: Seq<char>) -> Order3
    decreases a.len(),
{
    if a.len() == 0 && b.len() == 0 {
        Order3::Equal
    } else if a.len() == 0 {
        Order3::Less
    } else if b.len() == 0 {
        Order3::Greater
    } else if a[0] < b[0] {
        Order3::Less
    } else if a[0] > b[0] {
        Order3::Greater
    } else {
        text_order(a.drop_first(), b.drop_first())
    }
}

/// Compares two strings by their characters.
pub fn compare_text(a: &str, b: &str) -> (r: Order3)
    ensures
        r == text_order(a@, b@),
{
    let x = str_chars(a);
    let y = str_chars(b);
    let mut i: usize = 0;
    assert(x@.skip(0) =~= x@);
    assert(y@.skip(0) =~= y@);
    while i < x.len() && i < y.len()
        invariant
            x@ == a@,
            y@ == b@,
            i <= x@.len(),
            i <= y@.len(),
            text_order(x@, y@) == text_order(x@.skip(i as int), y@.skip(i as int)),
        decreases x.len() - i,
    {
        let ghost xs = x@.skip(i as int);
        let ghost ys = y@.skip(i as int);
        assert(xs[0] == x@[i as int]);
        assert(ys[0] == y@[i as int]);
        let c = x[i];
        let d = y[i];
        if c < d {
            assert(text_order(xs, ys) == Order3::Less);
            return Order3::Less;
        }
        if c > d {
            assert(text_order(xs, ys) == Order3::Greater);
            return Order3::Greater;
        }
        assert(xs.drop_first() =~= x@.skip(i + 1));
        assert(ys.drop_first() =~= y@.skip(i + 1));
        i = i + 1;
    }
    if i < x.len() {
        Order3::Greater
    } else if i < y.len() {
        Order3::Less
    } else {
        Order3::Equal
    }
}

pub proof fn lemma_text_order_flip(a: Seq<char>, b: Seq<char>)
    ensures
        (text_order(a, b) == Order3::Less) <==> (text_order(b, a) == Order3::Greater),
        (text_order(a, b) == Order3::Equal) <==> (a == b),
    decreases a.len(),
{
    if a.len() > 0 && b.len() > 0 && a[0] == b[0] {
        lemma_text_order_flip(a.drop_first(), b.drop_first());
        if a.drop_first() == b.drop_first() {
            assert(a =~= seq![a[0]] + a.drop_first());
            assert(b =~= seq![b[0]] + b.drop_first());
            assert(a =~= b);
        }
    } else if a.len() > 0 && b.len() > 0 {
        assert(a[0] != b[0]);
    } else if a.len() == 0 && b.len() == 0 {
        assert(a =~= b);
    }
}

pub proof fn lemma_text_order_trans(a: Seq<char>, b: Seq<char>, c: Seq<char>)
    requires
        text_order(a, b) == Order3::Less,
        text_order(b, c) == Order3::Less,
    ensures
        text_order(a, c) == Order3::Less,
    decreases a.len(),
{
    if a.len() > 0 && b.len() > 0 && c.len() > 0 && a[0] == b[0] && b[0] == c[0] {
        lemma_text_order_trans(a.drop_first(), b.drop_first(), c.drop_first());
    }
}

/// Appends the characters of `s` to `out`.
pub fn append_str(out: &mut Vec<char>, s: &str)
    ensures
        final(out)@ == old(out)@ + s@,
{
    let c = str_chars(s);
    let mut i: usize = 0;
    while i < c.len()
        invariant
            i <= c@.len(),
            c@ == s@,
            out@ == old(out)@ + c@.take(i as int),
        decreases c@.len() - i,
    {
        out.push(c[i]);
        i = i + 1;
        proof {
            assert(out@ =~= old(out)@ + c@.take(i as int));
        }
    }
    proof {
        assert(c@.take(i as int) =~= c@);
    }
}

/// Appends the characters of `s` to `out`.
pub fn append_chars(out: &mut Vec<char>, s: &[char])
    ensures
        final(out)@ == old(out)@ + s@,
{
    let mut i: usize = 0;
    while i < s.len()
        invariant
            i <= s@.len(),
            out@ == old(out)@ + s@.take(i as int),
        decreases s@.len() - i,
    {
        out.push(s[i]);
        i = i + 1;
        proof {
            assert(out@ =~= old(out)@ + s@.take(i as int));
        }
    }
    proof {
        assert(s@.take(i as int) =~= s@);
    }
}

/// The text of an optional string.
pub open spec fn opt_text(s: Option<String>) -> Option<Seq<char>> {
    match s {
        Some(t) => Some(t@),
        None => None,
    }
}

/// Whether two strings hold the same characters.
pub fn same_text(a: &str, b: &str) -> (r: bool)
    ensures
        r == (a@ == b@),
{
    let x = str_chars(a);
    let y = str_chars(b);
    if x.len() != y.len() {
        return false;
    }
    let mut i: usize = 0;
    while i < x.len()
        invariant
            x@ == a@,
            y@ == b@,
            x@.len() == y@.len(),
            i <= x@.len(),
            forall|j: int| 0 <= j < i ==> x@[j] == y@[j],
        decreases x@.len() - i,
    {
        if x[i] != y[i] {
            return false;
        }
        i = i + 1;
    }
    proof {
        assert(x@ =~= y@);
    }
    true
}

/// The concatenation of two strings.
pub fn concat_str(a: &str, b: &str) -> (r: String)
    ensures
        r@ == a@ + b@,
{
    let mut out: Vec<char> = Vec::new();
    append_str(&mut out, a);
    append_str(&mut out, b);
    string_from_chars(out.as_slice())
}

/// Whether `s` begins with `prefix`.
pub fn starts_with_chars(s: &[char], prefix: &[char]) -> (r: bool)
    ensures
        r == (prefix@.len() <= s@.len() && s@.take(prefix@.len() as int) == prefix@),
{
    if prefix.len() > s.len() {
        return false;
    }
    let mut i: usize = 0;
    while i < prefix.len()
        invariant
            prefix@.len() <= s@.len(),
            i <= prefix@.len(),
            forall|j: int| 0 <= j < i ==> s@[j] == prefix@[j],
        decreases prefix@.len() - i,
    {
        if s[i] != prefix[i] {
            proof {
                assert(s@.take(prefix@.len() as int)[i as int] != prefix@[i as int]);
            }
            return false;
        }
        i = i + 1;
    }
    proof {
        assert(s@.take(prefix@.len() as int) =~= prefix@);
    }
    true
}

} // verus!
