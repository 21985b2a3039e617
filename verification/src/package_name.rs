//! Package names of the form `@namespace(.namespace)*/name`.
use vstd::prelude::*;

use crate::errors::MycoError;
use crate::text::{
    compare_text, lemma_text_order_flip, lemma_text_order_trans, text_order, Order3,
    find_char, first_index, join_seq, lemma_first_index_props, lemma_join_split, lemma_split_join,
    slice_chars, split_chars, split_seq, str_chars, string_from_chars,
};

verus! {

/// A package name: one or more dot-separated namespaces and a name.
#[derive(Debug, Clone, PartialEq, Eq, Hash, PartialOrd, Ord)]
pub struct PackageName {
    pub namespaces: Vec<String>,
    pub name: String,
}

/// The namespaces of a name as character sequences.
pub open spec fn strings_view(v: Seq<String>) -> Seq<Seq<char>> {
    Seq::new(v.len(), |i: int| v[i]@)
}

impl PackageName {
    pub open spec fn namespaces_view(&self) -> Seq<Seq<char>> {
        strings_view(self.namespaces@)
    }
}

/// `@` followed by the namespaces joined with `.`.
pub open spec fn namespaces_text(namespaces: Seq<Seq<char>>) -> Seq<char> {
    seq!['@'] + join_seq(namespaces, '.')
}

/// The canonical text of a package name: `@ns1.ns2/name`.
pub open spec fn package_name_text(namespaces: Seq<Seq<char>>, name: Seq<char>) -> Seq<char> {
    namespaces_text(namespaces).push('/') + name
}

/// What parsing `s` as a package name gives: the namespaces and the name, or
/// the text that the error reports.
pub open spec fn parse_package_name(s: Seq<char>) -> Result<(Seq<Seq<char>>, Seq<char>), Seq<char>> {
    if !vstd::utf8::is_ascii_chars(s) || s.len() == 0 || s[0] != '@' {
        Err(s)
    } else {
        let rest = s.drop_first();
        match first_index(rest, '/') {
            None => Err(rest),
            Some(i) => Ok((split_seq(rest.take(i), '.'), rest.skip(i + 1))),
        }
    }
}

/// A name whose text parses back to itself: at least one namespace, no
/// namespace holding `.` or `/`, and only ASCII characters.
pub open spec fn well_formed_name(namespaces: Seq<Seq<char>>, name: Seq<char>) -> bool {
    &&& namespaces.len() >= 1
    &&& forall|i: int|
        0 <= i < namespaces.len() ==> {
            &&& !(#[trigger] namespaces[i]).contains('.')
            &&& !namespaces[i].contains('/')
            &&& vstd::utf8::is_ascii_chars(namespaces[i])
        }
    &&& vstd::utf8::is_ascii_chars(name)
}

fn chars_to_strings(parts: &Vec<Vec<char>>) -> (r: Vec<String>)
    ensures
        strings_view(r@) == Seq::new(parts@.len(), |i: int| parts@[i]@),
{
    let mut r: Vec<String> = Vec::new();
    let mut i: usize = 0;
    while i < parts.len()
        invariant
            i <= parts@.len(),
            r@.len() == i,
            forall|k: int| 0 <= k < i ==> (#[trigger] r@[k])@ == parts@[k]@,
        decreases parts.len() - i,
    {
        r.push(string_from_chars(parts[i].as_slice()));
        i = i + 1;
    }
    assert(strings_view(r@) =~= Seq::new(parts@.len(), |i: int| parts@[i]@));
    r
}

/// Appends `"@"` and the dot-joined namespaces to `out`.
fn push_namespaces(out: &mut Vec<char>, namespaces: &Vec<String>)
    ensures
        final(out)@ == old(out)@ + namespaces_text(strings_view(namespaces@)),
{
    let ghost start = out@;
    let ghost ns = strings_view(namespaces@);
    out.push('@');
    let mut i: usize = 0;
    while i < namespaces.len()
        invariant
            i <= namespaces@.len(),
            ns == strings_view(namespaces@),
            out@ == start + namespaces_text(ns.take(i as int)),
        decreases namespaces.len() - i,
    {
        let piece = str_chars(namespaces[i].as_str());
        let ghost before = out@;
        if i > 0 {
            out.push('.');
        }
        let mut j: usize = 0;
        while j < piece.len()
            invariant
                j <= piece@.len(),
                out@ == (if i > 0 { before.push('.') } else { before }) + piece@.take(j as int),
            decreases piece.len() - j,
        {
            out.push(piece[j]);
            proof {
                assert(piece@.take(j + 1) =~= piece@.take(j as int).push(piece@[j as int]));
            }
            j = j + 1;
        }
        proof {
            assert(piece@.take(piece@.len() as int) =~= piece@);
            let t = ns.take(i + 1);
            assert(t.drop_last() =~= ns.take(i as int));
            assert(t.last() == ns[i as int]);
            if i == 0 {
                assert(join_seq(t, '.') == t[0]);
                assert(ns.take(0) =~= Seq::<Seq<char>>::empty());
                assert(out@ =~= start + namespaces_text(t));
            } else {
                assert(out@ =~= start + namespaces_text(t));
            }
        }
        i = i + 1;
    }
    proof {
        assert(ns.take(namespaces@.len() as int) =~= ns);
    }
}

impl PackageName {
    /// `@` followed by the namespaces joined with `.`, e.g. `@myco.core`.
    pub fn namespaces_to_string(&self) -> (r: String)
        ensures
            r@ == namespaces_text(self.namespaces_view()),
    {
        let mut out: Vec<char> = Vec::new();
        push_namespaces(&mut out, &self.namespaces);
        string_from_chars(out.as_slice())
    }

    /// Parses `@ns1.ns2/name`. The namespaces are the dot-separated pieces before
    /// the first `/`; the name is everything after it.
    pub fn from_str(package_name: &str) -> (r: Result<Self, MycoError>)
        ensures
            match (r, parse_package_name(package_name@)) {
                (Ok(p), Ok((ns, n))) => p.namespaces_view() == ns && p.name@ == n,
                (Err(MycoError::InvalidPackageName { name }), Err(t)) => name@ == t,
                _ => false,
            },
    {
        let chars = str_chars(package_name);
        if !package_name.is_ascii() || chars.len() == 0 || chars[0] != '@' {
            return Err(MycoError::InvalidPackageName { name: string_from_chars(chars.as_slice()) });
        }
        let rest = slice_chars(chars.as_slice(), 1, chars.len());
        proof {
            assert(rest@ =~= package_name@.drop_first());
        }
        match find_char(rest.as_slice(), '/') {
            None => Err(MycoError::InvalidPackageName { name: string_from_chars(rest.as_slice()) }),
            Some(i) => {
                let ns_part = slice_chars(rest.as_slice(), 0, i);
                let name_part = slice_chars(rest.as_slice(), i + 1, rest.len());
                let parts = split_chars(ns_part.as_slice(), '.');
                let namespaces = chars_to_strings(&parts);
                proof {
                    assert(ns_part@ =~= rest@.take(i as int));
                    assert(name_part@ =~= rest@.skip(i + 1));
                    assert(strings_view(namespaces@) =~= split_seq(rest@.take(i as int), '.'));
                }
                Ok(PackageName { namespaces, name: string_from_chars(name_part.as_slice()) })
            },
        }
    }

    /// The canonical text `@ns1.ns2/name`.
    pub fn to_string(&self) -> (r: String)
        ensures
            r@ == package_name_text(self.namespaces_view(), self.name@),
    {
        let mut out: Vec<char> = Vec::new();
        push_namespaces(&mut out, &self.namespaces);
        out.push('/');
        let name = str_chars(self.name.as_str());
        let ghost before = out@;
        let mut j: usize = 0;
        while j < name.len()
            invariant
                j <= name@.len(),
                out@ == before + name@.take(j as int),
            decreases name.len() - j,
        {
            out.push(name[j]);
            proof {
                assert(name@.take(j + 1) =~= name@.take(j as int).push(name@[j as int]));
            }
            j = j + 1;
        }
        proof {
            assert(name@.take(name@.len() as int) =~= name@);
            assert(out@ =~= package_name_text(self.namespaces_view(), self.name@));
        }
        string_from_chars(out.as_slice())
    }
}

impl PackageName {
    /// The namespaces and the name, as character sequences.
    pub open spec fn name_view(&self) -> (Seq<Seq<char>>, Seq<char>) {
        (self.namespaces_view(), self.name@)
    }

    /// Whether both names have the same namespaces and name.
    pub fn same(&self, other: &Self) -> (r: bool)
        ensures
            r == (self.name_view() == other.name_view()),
    {
        if !self.name.eq(&other.name) || self.namespaces.len() != other.namespaces.len() {
            proof {
                if self.namespaces.len() != other.namespaces.len() {
                    assert(self.namespaces_view().len() != other.namespaces_view().len());
                }
            }
            return false;
        }
        let mut i: usize = 0;
        while i < self.namespaces.len()
            invariant
                i <= self.namespaces@.len(),
                self.namespaces@.len() == other.namespaces@.len(),
                forall|j: int| 0 <= j < i ==> self.namespaces@[j]@ == other.namespaces@[j]@,
            decreases self.namespaces@.len() - i,
        {
            if !self.namespaces[i].eq(&other.namespaces[i]) {
                proof {
                    assert(self.namespaces_view()[i as int] != other.namespaces_view()[i as int]);
                }
                return false;
            }
            i = i + 1;
        }
        proof {
            assert(self.namespaces_view() =~= other.namespaces_view());
        }
        true
    }

    /// A copy of this name.
    pub fn duplicate(&self) -> (r: Self)
        ensures
            r.name_view() == self.name_view(),
    {
        let mut namespaces: Vec<String> = Vec::new();
        let mut i: usize = 0;
        while i < self.namespaces.len()
            invariant
                i <= self.namespaces@.len(),
                namespaces@.len() == i,
                forall|k: int| 0 <= k < i ==> (#[trigger] namespaces@[k])@ == self.namespaces@[k]@,
            decreases self.namespaces@.len() - i,
        {
            let c = self.namespaces[i].clone();
            namespaces.push(c);
            i = i + 1;
        }
        proof {
            assert(strings_view(namespaces@) =~= strings_view(self.namespaces@));
        }
        PackageName { namespaces, name: self.name.clone() }
    }
}

/// Every text that parses as a package name is the canonical text of what it
/// parses to: converting a parsed name back to a string gives the input.
pub proof fn law_package_name_text_roundtrip(s: Seq<char>)
    requires
        parse_package_name(s) is Ok,
    ensures
        ({
            let (ns, n) = parse_package_name(s)->Ok_0;
            package_name_text(ns, n) == s
        }),
{
    let rest = s.drop_first();
    lemma_first_index_props(rest, '/');
    let i = first_index(rest, '/').unwrap();
    lemma_join_split(rest.take(i), '.');
    assert(rest =~= rest.take(i).push('/') + rest.skip(i + 1));
    assert(s =~= seq!['@'] + rest);
    assert(package_name_text(split_seq(rest.take(i), '.'), rest.skip(i + 1)) =~= s);
}

/// A well-formed name parses back from its canonical text.
pub proof fn law_package_name_parse_roundtrip(namespaces: Seq<Seq<char>>, name: Seq<char>)
    requires
        well_formed_name(namespaces, name),
    ensures
        parse_package_name(package_name_text(namespaces, name)) == Ok::<
            (Seq<Seq<char>>, Seq<char>),
            Seq<char>,
        >((namespaces, name)),
{
    let j = join_seq(namespaces, '.');
    lemma_join_free(namespaces);
    let s = package_name_text(namespaces, name);
    let rest = s.drop_first();
    assert(rest =~= j.push('/') + name);
    lemma_first_index_props(rest, '/');
    assert(rest[j.len() as int] == '/');
    assert(first_index(rest, '/') == Some(j.len() as int)) by {
        match first_index(rest, '/') {
            Some(k) => {
                if k < j.len() {
                    assert(rest[k] == j[k]);
                }
                if k > j.len() {
                    assert(rest[j.len() as int] == '/');
                }
            },
            None => {
                assert(rest.contains('/'));
            },
        }
    }
    assert(rest.take(j.len() as int) =~= j);
    assert(rest.skip(j.len() as int + 1) =~= name);
    lemma_split_join(namespaces, '.');
    assert(vstd::utf8::is_ascii_chars(s)) by {
        assert forall|k: int| 0 <= k < s.len() implies '\0' <= #[trigger] s[k] <= '\u{7f}' by {
            if k == 0 {
            } else if k - 1 < j.len() {
                assert(s[k] == j[k - 1]);
            } else if k - 1 == j.len() {
            } else {
                assert(s[k] == name[k - 2 - j.len()]);
            }
        }
    }
}

/// The join of ASCII pieces free of `/` is ASCII and free of `/`.
proof fn lemma_join_free(parts: Seq<Seq<char>>)
    requires
        forall|i: int|
            0 <= i < parts.len() ==> {
                &&& !(#[trigger] parts[i]).contains('/')
                &&& vstd::utf8::is_ascii_chars(parts[i])
            },
    ensures
        !join_seq(parts, '.').contains('/'),
        vstd::utf8::is_ascii_chars(join_seq(parts, '.')),
    decreases parts.len(),
{
    if parts.len() > 1 {
        let init = parts.drop_last();
        assert forall|i: int| 0 <= i < init.len() implies {
            &&& !(#[trigger] init[i]).contains('/')
            &&& vstd::utf8::is_ascii_chars(init[i])
        } by {
            assert(init[i] == parts[i]);
        }
        lemma_join_free(init);
        let a = join_seq(init, '.').push('.');
        let b = parts.last();
        assert(!parts[parts.len() - 1].contains('/'));
        assert forall|k: int| 0 <= k < (a + b).len() implies (a + b)[k] != '/' && '\0' <= #[trigger] (
        a + b)[k] <= '\u{7f}' by {
            if k < a.len() {
                if k < a.len() - 1 {
                    assert((a + b)[k] == join_seq(init, '.')[k]);
                }
            } else {
                assert((a + b)[k] == b[k - a.len()]);
            }
        }
    } else if parts.len() == 1 {
        assert(!parts[0].contains('/'));
    }
}

/// The order of lists of strings: element by element, a proper prefix first.
pub open spec fn seqs_order(a: Seq<Seq<char>>, b: Seq<Seq<char>>) -> Order3
    decreases a.len(),
{
    if a.len() == 0 && b.len() == 0 {
        Order3::Equal
    } else if a.len() == 0 {
        Order3::Less
    } else if b.len() == 0 {
        Order3::Greater
    } else {
        match text_order(a[0], b[0]) {
            Order3::Equal => seqs_order(a.drop_first(), b.drop_first()),
            o => o,
        }
    }
}

/// The order of package names: by namespaces, then by name.
pub open spec fn name_order(a: (Seq<Seq<char>>, Seq<char>), b: (Seq<Seq<char>>, Seq<char>)) -> Order3 {
    match seqs_order(a.0, b.0) {
        Order3::Equal => text_order(a.1, b.1),
        o => o,
    }
}

pub proof fn lemma_seqs_order_flip(a: Seq<Seq<char>>, b: Seq<Seq<char>>)
    ensures
        (seqs_order(a, b) == Order3::Less) <==> (seqs_order(b, a) == Order3::Greater),
        (seqs_order(a, b) == Order3::Equal) <==> (a == b),
    decreases a.len(),
{
    if a.len() > 0 && b.len() > 0 {
        lemma_text_order_flip(a[0], b[0]);
        lemma_text_order_flip(b[0], a[0]);
        lemma_seqs_order_flip(a.drop_first(), b.drop_first());
        if a[0] == b[0] && a.drop_first() == b.drop_first() {
            assert(a =~= seq![a[0]] + a.drop_first());
            assert(b =~= seq![b[0]] + b.drop_first());
        }
        if a == b {
            assert(a.drop_first() == b.drop_first());
        }
    } else if a.len() == 0 && b.len() == 0 {
        assert(a =~= b);
    }
}

pub proof fn lemma_seqs_order_trans(a: Seq<Seq<char>>, b: Seq<Seq<char>>, c: Seq<Seq<char>>)
    requires
        seqs_order(a, b) == Order3::Less,
        seqs_order(b, c) == Order3::Less,
    ensures
        seqs_order(a, c) == Order3::Less,
    decreases a.len(),
{
    if a.len() > 0 && b.len() > 0 && c.len() > 0 {
        lemma_text_order_flip(a[0], b[0]);
        lemma_text_order_flip(b[0], c[0]);
        lemma_text_order_flip(a[0], c[0]);
        if text_order(a[0], b[0]) == Order3::Less && text_order(b[0], c[0]) == Order3::Less {
            lemma_text_order_trans(a[0], b[0], c[0]);
        }
        if text_order(a[0], b[0]) == Order3::Equal && text_order(b[0], c[0]) == Order3::Equal {
            lemma_seqs_order_trans(a.drop_first(), b.drop_first(), c.drop_first());
        }
    }
}

/// The order of names is antisymmetric, and names compare equal exactly when
/// they are the same name.
pub proof fn lemma_name_order_flip(a: (Seq<Seq<char>>, Seq<char>), b: (Seq<Seq<char>>, Seq<char>))
    ensures
        (name_order(a, b) == Order3::Less) <==> (name_order(b, a) == Order3::Greater),
        (name_order(a, b) == Order3::Equal) <==> (a == b),
{
    lemma_seqs_order_flip(a.0, b.0);
    lemma_seqs_order_flip(b.0, a.0);
    lemma_text_order_flip(a.1, b.1);
}

/// The order of names is transitive.
pub proof fn lemma_name_order_trans(
    a: (Seq<Seq<char>>, Seq<char>),
    b: (Seq<Seq<char>>, Seq<char>),
    c: (Seq<Seq<char>>, Seq<char>),
)
    requires
        name_order(a, b) == Order3::Less,
        name_order(b, c) == Order3::Less,
    ensures
        name_order(a, c) == Order3::Less,
{
    lemma_seqs_order_flip(a.0, b.0);
    lemma_seqs_order_flip(b.0, c.0);
    lemma_seqs_order_flip(a.0, c.0);
    if seqs_order(a.0, b.0) == Order3::Less && seqs_order(b.0, c.0) == Order3::Less {
        lemma_seqs_order_trans(a.0, b.0, c.0);
    }
    if seqs_order(a.0, b.0) == Order3::Equal && seqs_order(b.0, c.0) == Order3::Equal {
        lemma_text_order_trans(a.1, b.1, c.1);
    }
}

/// Compares two package names in the order of `PackageName`'s `Ord`.
pub fn compare_names(a: &PackageName, b: &PackageName) -> (r: Order3)
    ensures
        r == name_order(a.name_view(), b.name_view()),
{
    let ghost x = a.namespaces_view();
    let ghost y = b.namespaces_view();
    let mut i: usize = 0;
    proof {
        assert(x.skip(0) =~= x);
        assert(y.skip(0) =~= y);
    }
    while i < a.namespaces.len() && i < b.namespaces.len()
        invariant
            x == a.namespaces_view(),
            y == b.namespaces_view(),
            i <= x.len(),
            i <= y.len(),
            seqs_order(x, y) == seqs_order(x.skip(i as int), y.skip(i as int)),
        decreases x.len() - i,
    {
        proof {
            assert(x.skip(i as int)[0] == x[i as int]);
            assert(y.skip(i as int)[0] == y[i as int]);
            assert(x.skip(i as int).drop_first() =~= x.skip(i + 1));
            assert(y.skip(i as int).drop_first() =~= y.skip(i + 1));
        }
        let o = compare_text(a.namespaces[i].as_str(), b.namespaces[i].as_str());
        match o {
            Order3::Equal => {},
            _ => {
                return o;
            },
        }
        i = i + 1;
    }
    if i < a.namespaces.len() {
        return Order3::Greater;
    }
    if i < b.namespaces.len() {
        return Order3::Less;
    }
    compare_text(a.name.as_str(), b.name.as_str())
}

} // verus!
