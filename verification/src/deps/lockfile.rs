//! Lockfiles: the pinned versions of every package a project depends on, how
//! two lockfiles differ, and the bookkeeping of the resolver that builds one.
use vstd::prelude::*;

use crate::deps::registry::{diff_spec, DiffModel, ResolvedModel, ResolvedVersion, ResolvedVersionDiff};
use crate::package_name::PackageName;

verus! {

/// The pinned packages of a project.
#[derive(Debug)]
pub struct LockFile {
    pub package: Vec<ResolvedVersion>,
}

/// How one lockfile differs from another.
#[derive(Debug)]
pub struct LockFileDiff {
    pub diffs: Vec<ResolvedVersionDiff>,
    pub new: Vec<ResolvedVersion>,
    pub removed: Vec<ResolvedVersion>,
}

/// The views of a sequence of pins.
pub open spec fn pins_view(s: Seq<ResolvedVersion>) -> Seq<ResolvedModel> {
    Seq::new(s.len(), |i: int| s[i]@)
}

/// The views of a sequence of pin differences.
pub open spec fn diffs_view(s: Seq<ResolvedVersionDiff>) -> Seq<DiffModel> {
    Seq::new(s.len(), |i: int| s[i]@)
}

/// Whether some pin of `s` has the name `n`.
pub open spec fn names_pin(s: Seq<ResolvedModel>, n: (Seq<Seq<char>>, Seq<char>)) -> bool {
    exists|i: int| 0 <= i < s.len() && (#[trigger] s[i]).name == n
}

/// The last pin of `s` named `n`: a table keyed by name keeps the last entry.
pub open spec fn last_named(s: Seq<ResolvedModel>, n: (Seq<Seq<char>>, Seq<char>)) -> Option<ResolvedModel>
    decreases s.len(),
{
    if s.len() == 0 {
        None
    } else if s.last().name == n {
        Some(s.last())
    } else {
        last_named(s.drop_last(), n)
    }
}

/// The changed pins: for each name of `s` (taken at its last pin) that `o`
/// also pins differently, the difference from `s`'s pin to `o`'s.
pub open spec fn changed_pins(s: Seq<ResolvedModel>, o: Seq<ResolvedModel>) -> Seq<DiffModel>
    decreases s.len(),
{
    if s.len() == 0 {
        Seq::empty()
    } else {
        let head = s[0];
        let here = if names_pin(s.drop_first(), head.name) {
            Seq::empty()
        } else {
            match last_named(o, head.name) {
                Some(b) => if b != head {
                    seq![diff_spec(head, b)]
                } else {
                    Seq::empty()
                },
                None => Seq::empty(),
            }
        };
        here + changed_pins(s.drop_first(), o)
    }
}

/// The pins of `s` (one per name, its last) whose name `o` does not pin.
pub open spec fn unmatched_pins(s: Seq<ResolvedModel>, o: Seq<ResolvedModel>) -> Seq<ResolvedModel>
    decreases s.len(),
{
    if s.len() == 0 {
        Seq::empty()
    } else {
        let head = s[0];
        let here = if !names_pin(s.drop_first(), head.name) && !names_pin(o, head.name) {
            seq![head]
        } else {
            Seq::empty()
        };
        here + unmatched_pins(s.drop_first(), o)
    }
}

proof fn lemma_last_named(s: Seq<ResolvedModel>, n: (Seq<Seq<char>>, Seq<char>))
    ensures
        last_named(s, n) is Some <==> names_pin(s, n),
        last_named(s, n) matches Some(p) ==> p.name == n,
    decreases s.len(),
{
    if s.len() > 0 {
        lemma_last_named(s.drop_last(), n);
        if s.last().name != n {
            if names_pin(s, n) {
                let i = choose|i: int| 0 <= i < s.len() && (#[trigger] s[i]).name == n;
                assert(s.drop_last()[i] == s[i]);
            }
            if names_pin(s.drop_last(), n) {
                let i = choose|i: int| 0 <= i < s.drop_last().len() && (#[trigger] s.drop_last()[i]).name == n;
                assert(s[i] == s.drop_last()[i]);
            }
        }
    }
}

/// Whether a later pin of `s` than position `i` has the name `n`.
fn named_after(s: &Vec<ResolvedVersion>, i: usize, n: &PackageName) -> (r: bool)
    requires
        i < s@.len(),
    ensures
        r == names_pin(pins_view(s@).skip(i + 1), n.name_view()),
{
    let len: usize = s.len();
    let mut j: usize = i + 1;
    while j < len
        invariant
            len == s@.len(),
            i < j <= s@.len(),
            forall|k: int| i < k < j ==> s@[k].name.name_view() != n.name_view(),
        decreases s@.len() - j,
    {
        if s[j].name.same(n) {
            proof {
                assert(pins_view(s@).skip(i + 1)[j - i - 1] == s@[j as int]@);
            }
            return true;
        }
        j = j + 1;
    }
    proof {
        if names_pin(pins_view(s@).skip(i + 1), n.name_view()) {
            let k = choose|k: int| 0 <= k < pins_view(s@).skip(i + 1).len() && (#[trigger] pins_view(s@).skip(i + 1)[k]).name == n.name_view();
            assert(pins_view(s@).skip(i + 1)[k] == s@[i + 1 + k]@);
        }
    }
    false
}

/// The last pin of `s` named `n`, by position.
fn find_last_named(s: &Vec<ResolvedVersion>, n: &PackageName) -> (r: Option<usize>)
    ensures
        match r {
            Some(k) => k < s@.len() && last_named(pins_view(s@), n.name_view()) == Some(s@[k as int]@),
            None => last_named(pins_view(s@), n.name_view()) is None,
        },
{
    let mut j: usize = s.len();
    proof {
        assert(pins_view(s@).take(j as int) =~= pins_view(s@));
    }
    while j > 0
        invariant
            j <= s@.len(),
            last_named(pins_view(s@), n.name_view()) == last_named(pins_view(s@).take(j as int), n.name_view()),
        decreases j,
    {
        proof {
            let t = pins_view(s@).take(j as int);
            assert(t.drop_last() =~= pins_view(s@).take(j - 1));
            assert(t.last() == s@[j - 1]@);
        }
        if s[j - 1].name.same(n) {
            return Some(j - 1);
        }
        j = j - 1;
    }
    None
}

impl LockFile {
    /// An empty lockfile.
    pub fn new() -> (r: Self)
        ensures
            r.package@.len() == 0,
    {
        LockFile { package: Vec::new() }
    }

    /// How `other` differs from this lockfile. Packages are matched by name
    /// (the last pin of a name counts); the result lists, once per name, the
    /// changed pins, the pins only `other` has, and the pins only this one has.
    pub fn diff(&self, other: &LockFile) -> (r: LockFileDiff)
        ensures
            diffs_view(r.diffs@) == changed_pins(pins_view(self.package@), pins_view(other.package@)),
            pins_view(r.new@) == unmatched_pins(pins_view(other.package@), pins_view(self.package@)),
            pins_view(r.removed@) == unmatched_pins(pins_view(self.package@), pins_view(other.package@)),
    {
        let ghost s = pins_view(self.package@);
        let ghost o = pins_view(other.package@);
        let mut diffs: Vec<ResolvedVersionDiff> = Vec::new();
        let mut removed: Vec<ResolvedVersion> = Vec::new();
        let mut i: usize = 0;
        proof {
            assert(s.skip(0) =~= s);
        }
        while i < self.package.len()
            invariant
                i <= self.package@.len(),
                s == pins_view(self.package@),
                o == pins_view(other.package@),
                changed_pins(s, o) == diffs_view(diffs@) + changed_pins(s.skip(i as int), o),
                unmatched_pins(s, o) == pins_view(removed@) + unmatched_pins(s.skip(i as int), o),
            decreases self.package@.len() - i,
        {
            let p = &self.package[i];
            let ghost t = s.skip(i as int);
            proof {
                assert(t[0] == p@);
                assert(t.drop_first() =~= s.skip(i + 1));
            }
            let later = named_after(&self.package, i, &p.name);
            let ghost d0 = diffs@;
            let ghost r0 = removed@;
            if !later {
                match find_last_named(&other.package, &p.name) {
                    Some(k) => {
                        match p.diff(&other.package[k]) {
                            Some(d) => {
                                diffs.push(d);
                                proof {
                                    assert(diffs_view(diffs@) =~= diffs_view(d0) + seq![diff_spec(p@, other.package@[k as int]@)]);
                                }
                            },
                            None => {},
                        }
                        proof {
                            lemma_last_named(o, p@.name);
                        }
                    },
                    None => {
                        proof {
                            lemma_last_named(o, p@.name);
                        }
                        removed.push(p.duplicate());
                        proof {
                            assert(pins_view(removed@) =~= pins_view(r0) + seq![p@]);
                        }
                    },
                }
            }
            proof {
                assert(diffs_view(diffs@) + changed_pins(s.skip(i + 1), o) =~= diffs_view(d0) + changed_pins(t, o));
                assert(pins_view(removed@) + unmatched_pins(s.skip(i + 1), o) =~= pins_view(r0) + unmatched_pins(t, o));
            }
            i = i + 1;
        }
        proof {
            assert(s.skip(i as int) =~= Seq::<ResolvedModel>::empty());
            assert(diffs_view(diffs@) + Seq::<DiffModel>::empty() =~= diffs_view(diffs@));
            assert(pins_view(removed@) + Seq::<ResolvedModel>::empty() =~= pins_view(removed@));
        }
        let mut new: Vec<ResolvedVersion> = Vec::new();
        let mut j: usize = 0;
        proof {
            assert(o.skip(0) =~= o);
        }
        while j < other.package.len()
            invariant
                j <= other.package@.len(),
                s == pins_view(self.package@),
                o == pins_view(other.package@),
                unmatched_pins(o, s) == pins_view(new@) + unmatched_pins(o.skip(j as int), s),
            decreases other.package@.len() - j,
        {
            let p = &other.package[j];
            let ghost t = o.skip(j as int);
            proof {
                assert(t[0] == p@);
                assert(t.drop_first() =~= o.skip(j + 1));
            }
            let later = named_after(&other.package, j, &p.name);
            let ghost n0 = new@;
            if !later {
                match find_last_named(&self.package, &p.name) {
                    Some(_) => {
                        proof {
                            lemma_last_named(s, p@.name);
                        }
                    },
                    None => {
                        proof {
                            lemma_last_named(s, p@.name);
                        }
                        new.push(p.duplicate());
                        proof {
                            assert(pins_view(new@) =~= pins_view(n0) + seq![p@]);
                        }
                    },
                }
            }
            proof {
                assert(pins_view(new@) + unmatched_pins(o.skip(j + 1), s) =~= pins_view(n0) + unmatched_pins(t, s));
            }
            j = j + 1;
        }
        proof {
            assert(o.skip(j as int) =~= Seq::<ResolvedModel>::empty());
            assert(pins_view(new@) + Seq::<ResolvedModel>::empty() =~= pins_view(new@));
        }
        LockFileDiff { diffs, new, removed }
    }
}

proof fn lemma_last_named_at(o: Seq<ResolvedModel>, k: int)
    requires
        0 <= k < o.len(),
        !names_pin(o.skip(k + 1), o[k].name),
    ensures
        last_named(o, o[k].name) == Some(o[k]),
    decreases o.len(),
{
    if k < o.len() - 1 {
        assert(o.skip(k + 1)[o.len() - 2 - k] == o.last());
        assert(o.last().name != o[k].name);
        assert(o.drop_last()[k] == o[k]);
        assert(names_pin(o.drop_last().skip(k + 1), o[k].name) ==> names_pin(o.skip(k + 1), o[k].name)) by {
            if names_pin(o.drop_last().skip(k + 1), o[k].name) {
                let j = choose|j: int| 0 <= j < o.drop_last().skip(k + 1).len() && (#[trigger] o.drop_last().skip(k + 1)[j]).name == o[k].name;
                assert(o.skip(k + 1)[j] == o.drop_last().skip(k + 1)[j]);
            }
        }
        lemma_last_named_at(o.drop_last(), k);
    }
}

proof fn lemma_no_changes_against_self(o: Seq<ResolvedModel>, k: int)
    requires
        0 <= k <= o.len(),
    ensures
        changed_pins(o.skip(k), o).len() == 0,
        unmatched_pins(o.skip(k), o).len() == 0,
    decreases o.len() - k,
{
    if k < o.len() {
        let t = o.skip(k);
        assert(t[0] == o[k]);
        assert(t.drop_first() =~= o.skip(k + 1));
        lemma_no_changes_against_self(o, k + 1);
        if !names_pin(o.skip(k + 1), o[k].name) {
            lemma_last_named_at(o, k);
        }
        assert(names_pin(o, o[k].name));
    }
}

/// A lockfile compared with itself shows no change: no changed, new or
/// removed package.
pub proof fn law_diff_with_itself_is_empty(s: Seq<ResolvedModel>)
    ensures
        changed_pins(s, s).len() == 0,
        unmatched_pins(s, s).len() == 0,
{
    lemma_no_changes_against_self(s, 0);
    assert(s.skip(0) =~= s);
}

/// The pins one lockfile has and the other lacks are exactly those of the
/// names only the first pins: a name is listed when the first lockfile pins
/// it and the second does not, every listed pin is one of the first's, and
/// each name is listed once.
pub proof fn law_unmatched_are_only_in_first(s: Seq<ResolvedModel>, o: Seq<ResolvedModel>)
    ensures
        forall|n: (Seq<Seq<char>>, Seq<char>)|
            #[trigger] names_pin(unmatched_pins(s, o), n) == (names_pin(s, n) && !names_pin(o, n)),
        forall|i: int| 0 <= i < unmatched_pins(s, o).len() ==> s.contains(#[trigger] unmatched_pins(s, o)[i]),
        forall|i: int, j: int|
            0 <= i < j < unmatched_pins(s, o).len() ==> (#[trigger] unmatched_pins(s, o)[i]).name
                != (#[trigger] unmatched_pins(s, o)[j]).name,
    decreases s.len(),
{
    if s.len() > 0 {
        let rest = s.drop_first();
        law_unmatched_are_only_in_first(rest, o);
        let u = unmatched_pins(s, o);
        let ur = unmatched_pins(rest, o);
        let head = s[0];
        let keep = !names_pin(rest, head.name) && !names_pin(o, head.name);
        let here = if keep { seq![head] } else { Seq::<ResolvedModel>::empty() };
        assert(u == here + ur);
        assert forall|i: int| 0 < i < s.len() implies s[i] == #[trigger] rest[i - 1] by {}
        assert forall|n: (Seq<Seq<char>>, Seq<char>)| #[trigger] names_pin(u, n) == (names_pin(s, n) && !names_pin(o, n)) by {
            if names_pin(u, n) {
                let i = choose|i: int| 0 <= i < u.len() && (#[trigger] u[i]).name == n;
                if keep && i == 0 {
                    assert(s[0].name == n);
                } else {
                    let k = if keep { i - 1 } else { i };
                    assert(u[i] == ur[k]);
                    assert(names_pin(ur, n));
                    let m = choose|m: int| 0 <= m < rest.len() && (#[trigger] rest[m]).name == n;
                    assert(s[m + 1] == rest[m]);
                }
            }
            if names_pin(s, n) && !names_pin(o, n) {
                let i = choose|i: int| 0 <= i < s.len() && (#[trigger] s[i]).name == n;
                if names_pin(rest, n) {
                    assert(names_pin(ur, n) == (names_pin(rest, n) && !names_pin(o, n)));
                    let m = choose|m: int| 0 <= m < ur.len() && (#[trigger] ur[m]).name == n;
                    let k = if keep { m + 1 } else { m };
                    assert(u[k] == ur[m]);
                } else {
                    if i > 0 {
                        assert(rest[i - 1].name == n);
                    }
                    assert(i == 0);
                    assert(u[0] == head);
                }
            }
        }
        assert forall|i: int| 0 <= i < u.len() implies s.contains(#[trigger] u[i]) by {
            if keep && i == 0 {
                assert(s[0] == u[i]);
            } else {
                let k = if keep { i - 1 } else { i };
                assert(u[i] == ur[k]);
                let m = choose|m: int| 0 <= m < rest.len() && rest[m] == ur[k];
                assert(s[m + 1] == rest[m]);
            }
        }
        assert forall|i: int, j: int| 0 <= i < j < u.len() implies (#[trigger] u[i]).name != (#[trigger] u[j]).name by {
            if keep {
                if i == 0 {
                    assert(u[j] == ur[j - 1]);
                    if u[j].name == head.name {
                        assert(names_pin(ur, head.name));
                    }
                } else {
                    assert(u[i] == ur[i - 1]);
                    assert(u[j] == ur[j - 1]);
                }
            } else {
                assert(u[i] == ur[i]);
                assert(u[j] == ur[j]);
            }
        }
    }
}

proof fn lemma_last_named_front(s: Seq<ResolvedModel>, n: (Seq<Seq<char>>, Seq<char>))
    requires
        s.len() > 0,
    ensures
        last_named(s, n) == if names_pin(s.drop_first(), n) {
            last_named(s.drop_first(), n)
        } else if s[0].name == n {
            Some(s[0])
        } else {
            None::<ResolvedModel>
        },
    decreases s.len(),
{
    let rest = s.drop_first();
    lemma_last_named(rest, n);
    lemma_last_named(s, n);
    if s.len() == 1 {
        assert(rest.len() == 0);
        assert(!names_pin(rest, n));
        assert(s.last() == s[0]);
    } else {
        let init = s.drop_last();
        lemma_last_named_front(init, n);
        assert(init.drop_first() =~= rest.drop_last());
        assert(rest.last() == s.last());
        assert(init[0] == s[0]);
        if s.last().name == n {
            assert(rest[rest.len() - 1].name == n);
        } else {
            lemma_last_named(rest.drop_last(), n);
            if names_pin(rest, n) {
                let i = choose|i: int| 0 <= i < rest.len() && (#[trigger] rest[i]).name == n;
                assert(i < rest.len() - 1);
                assert(rest.drop_last()[i] == rest[i]);
            }
            if names_pin(rest.drop_last(), n) {
                let i = choose|i: int| 0 <= i < rest.drop_last().len() && (#[trigger] rest.drop_last()[i]).name == n;
                assert(rest[i] == rest.drop_last()[i]);
            }
        }
    }
}

/// The changed pins are those of the names both lockfiles pin differently: a
/// name has a difference listed exactly when both pin it and their last pins
/// of it differ, and the difference listed goes from the first lockfile's pin
/// to the second's.
pub proof fn law_changed_are_differing_pins(s: Seq<ResolvedModel>, o: Seq<ResolvedModel>)
    ensures
        forall|n: (Seq<Seq<char>>, Seq<char>)|
            (exists|i: int| 0 <= i < changed_pins(s, o).len() && (#[trigger] changed_pins(s, o)[i]).name == n) == (
            names_pin(s, n) && names_pin(o, n) && #[trigger] last_named(s, n) != last_named(o, n)),
        forall|i: int|
            0 <= i < changed_pins(s, o).len() ==> #[trigger] changed_pins(s, o)[i] == diff_spec(
                last_named(s, changed_pins(s, o)[i].name)->Some_0,
                last_named(o, changed_pins(s, o)[i].name)->Some_0,
            ),
    decreases s.len(),
{
    if s.len() > 0 {
        let rest = s.drop_first();
        law_changed_are_differing_pins(rest, o);
        let c = changed_pins(s, o);
        let cr = changed_pins(rest, o);
        let head = s[0];
        let keep = !names_pin(rest, head.name) && (last_named(o, head.name) matches Some(b) && b != head);
        lemma_last_named(o, head.name);
        let here = if keep { seq![diff_spec(head, last_named(o, head.name)->Some_0)] } else { Seq::<DiffModel>::empty() };
        assert(c == here + cr);
        assert forall|i: int| 0 < i < s.len() implies s[i] == #[trigger] rest[i - 1] by {}
        assert forall|n: (Seq<Seq<char>>, Seq<char>)|
            (exists|i: int| 0 <= i < c.len() && (#[trigger] c[i]).name == n) == (names_pin(s, n) && names_pin(o, n)
                && #[trigger] last_named(s, n) != last_named(o, n)) by {
            lemma_last_named_front(s, n);
            lemma_last_named(o, n);
            lemma_last_named(rest, n);
            lemma_last_named(s, n);
            assert((exists|i: int| 0 <= i < cr.len() && (#[trigger] cr[i]).name == n) == (names_pin(rest, n)
                && names_pin(o, n) && last_named(rest, n) != last_named(o, n)));
            if exists|i: int| 0 <= i < c.len() && (#[trigger] c[i]).name == n {
                let i = choose|i: int| 0 <= i < c.len() && (#[trigger] c[i]).name == n;
                if keep && i == 0 {
                    assert(c[0].name == head.name);
                    assert(s[0].name == n);
                } else {
                    let k = if keep { i - 1 } else { i };
                    assert(c[i] == cr[k]);
                    let m = choose|m: int| 0 <= m < rest.len() && (#[trigger] rest[m]).name == n;
                    assert(s[m + 1] == rest[m]);
                }
            }
            if names_pin(s, n) && names_pin(o, n) && last_named(s, n) != last_named(o, n) {
                if names_pin(rest, n) {
                    let m = choose|m: int| 0 <= m < cr.len() && (#[trigger] cr[m]).name == n;
                    let k = if keep { m + 1 } else { m };
                    assert(c[k] == cr[m]);
                } else {
                    let i = choose|i: int| 0 <= i < s.len() && (#[trigger] s[i]).name == n;
                    if i > 0 {
                        assert(rest[i - 1].name == n);
                    }
                    assert(c[0].name == n);
                }
            }
        }
        assert forall|i: int| 0 <= i < c.len() implies #[trigger] c[i] == diff_spec(
            last_named(s, c[i].name)->Some_0,
            last_named(o, c[i].name)->Some_0,
        ) by {
            if keep && i == 0 {
                lemma_last_named_front(s, head.name);
            } else {
                let k = if keep { i - 1 } else { i };
                assert(c[i] == cr[k]);
                let n = cr[k].name;
                lemma_last_named_front(s, n);
                assert(exists|j: int| 0 <= j < cr.len() && (#[trigger] cr[j]).name == n);
                assert(names_pin(rest, n));
            }
        }
    }
}

/// Whether two lists of pins agree entry by entry.
pub fn same_pins(a: &Vec<ResolvedVersion>, b: &Vec<ResolvedVersion>) -> (r: bool)
    ensures
        r == (pins_view(a@) == pins_view(b@)),
{
    if a.len() != b.len() {
        proof {
            assert(pins_view(a@).len() != pins_view(b@).len());
        }
        return false;
    }
    let mut i: usize = 0;
    while i < a.len()
        invariant
            i <= a@.len(),
            a@.len() == b@.len(),
            forall|k: int| 0 <= k < i ==> a@[k]@ == b@[k]@,
        decreases a@.len() - i,
    {
        if !a[i].same(&b[i]) {
            proof {
                assert(pins_view(a@)[i as int] != pins_view(b@)[i as int]);
            }
            return false;
        }
        i = i + 1;
    }
    proof {
        assert(pins_view(a@) =~= pins_view(b@));
    }
    true
}

/// `s` with each pin dropped whose name an earlier pin already has.
pub open spec fn first_per_name(s: Seq<ResolvedModel>) -> Seq<ResolvedModel>
    decreases s.len(),
{
    if s.len() == 0 {
        Seq::empty()
    } else {
        let d = first_per_name(s.drop_last());
        if names_pin(s.drop_last(), s.last().name) {
            d
        } else {
            d.push(s.last())
        }
    }
}

/// Keeps the first pin of each name, in order.
pub fn dedup_by_name(packages: Vec<ResolvedVersion>) -> (r: Vec<ResolvedVersion>)
    ensures
        pins_view(r@) == first_per_name(pins_view(packages@)),
{
    let ghost s = pins_view(packages@);
    let mut out: Vec<ResolvedVersion> = Vec::new();
    let mut i: usize = 0;
    while i < packages.len()
        invariant
            i <= packages@.len(),
            s == pins_view(packages@),
            pins_view(out@) == first_per_name(s.take(i as int)),
        decreases packages@.len() - i,
    {
        let mut seen = false;
        let mut j: usize = 0;
        while j < i
            invariant
                j <= i < packages@.len(),
                s == pins_view(packages@),
                seen == names_pin(s.take(j as int), s[i as int].name),
            decreases i - j,
        {
            proof {
                let t = s.take(j + 1);
                if names_pin(t, s[i as int].name) && !names_pin(s.take(j as int), s[i as int].name) {
                    let k = choose|k: int| 0 <= k < t.len() && (#[trigger] t[k]).name == s[i as int].name;
                    if k < j {
                        assert(s.take(j as int)[k] == t[k]);
                    }
                }
                if names_pin(s.take(j as int), s[i as int].name) {
                    let k = choose|k: int| 0 <= k < s.take(j as int).len() && (#[trigger] s.take(j as int)[k]).name == s[i as int].name;
                    assert(t[k] == s.take(j as int)[k]);
                }
                assert(t[j as int] == s[j as int]);
            }
            if packages[j].name.same(&packages[i].name) {
                seen = true;
            }
            j = j + 1;
        }
        proof {
            let t = s.take(i + 1);
            assert(t.drop_last() =~= s.take(i as int));
            assert(t.last() == s[i as int]);
        }
        if !seen {
            let ghost o0 = out@;
            out.push(packages[i].duplicate());
            proof {
                assert(pins_view(out@) =~= pins_view(o0).push(s[i as int]));
            }
        }
        i = i + 1;
    }
    proof {
        assert(s.take(i as int) =~= s);
    }
    out
}

/// After keeping the first pin of each name, no name is pinned twice, every
/// name is still pinned, and each kept pin is the first of its name.
pub proof fn law_dedup_keeps_first(s: Seq<ResolvedModel>)
    ensures
        forall|i: int, j: int|
            0 <= i < j < first_per_name(s).len() ==> (#[trigger] first_per_name(s)[i]).name
                != (#[trigger] first_per_name(s)[j]).name,
        forall|n: (Seq<Seq<char>>, Seq<char>)| names_pin(s, n) == names_pin(first_per_name(s), n),
    decreases s.len(),
{
    if s.len() > 0 {
        let init = s.drop_last();
        law_dedup_keeps_first(init);
        let d = first_per_name(init);
        assert forall|n: (Seq<Seq<char>>, Seq<char>)| names_pin(s, n) == names_pin(first_per_name(s), n) by {
            assert(names_pin(init, n) == names_pin(d, n));
            if names_pin(s, n) {
                let k = choose|k: int| 0 <= k < s.len() && (#[trigger] s[k]).name == n;
                if k < s.len() - 1 {
                    assert(init[k] == s[k]);
                    assert(names_pin(init, n));
                    let m = choose|m: int| 0 <= m < d.len() && (#[trigger] d[m]).name == n;
                    assert(first_per_name(s)[m] == d[m]);
                } else if !names_pin(init, s.last().name) {
                    assert(first_per_name(s)[d.len() as int] == s.last());
                } else {
                    let m = choose|m: int| 0 <= m < d.len() && (#[trigger] d[m]).name == n;
                    assert(first_per_name(s)[m] == d[m]);
                }
            }
            if names_pin(first_per_name(s), n) {
                let k = choose|k: int| 0 <= k < first_per_name(s).len() && (#[trigger] first_per_name(s)[k]).name == n;
                if k < d.len() {
                    assert(first_per_name(s)[k] == d[k]);
                    assert(names_pin(d, n));
                    let m = choose|m: int| 0 <= m < init.len() && (#[trigger] init[m]).name == n;
                    assert(s[m] == init[m]);
                } else {
                    assert(s[s.len() - 1].name == n);
                }
            }
        }
        if names_pin(init, s.last().name) {
        } else {
            assert forall|i: int, j: int|
                0 <= i < j < first_per_name(s).len() implies (#[trigger] first_per_name(s)[i]).name
                != (#[trigger] first_per_name(s)[j]).name by {
                if j == d.len() {
                    assert(first_per_name(s)[i] == d[i]);
                    if d[i].name == s.last().name {
                        assert(names_pin(d, s.last().name));
                    }
                } else {
                    assert(first_per_name(s)[i] == d[i]);
                    assert(first_per_name(s)[j] == d[j]);
                }
            }
        }
    }
}

/// The resolver's worklist: pins still to visit (taken from the end) and the
/// names already visited.
pub struct VisitQueue {
    to_visit: Vec<ResolvedVersion>,
    visited: Vec<PackageName>,
}

impl VisitQueue {
    /// The pins still to visit, in push order.
    pub closed spec fn pending(&self) -> Seq<ResolvedModel> {
        pins_view(self.to_visit@)
    }

    /// The names visited so far.
    pub closed spec fn seen(&self) -> Seq<(Seq<Seq<char>>, Seq<char>)> {
        Seq::new(self.visited@.len(), |i: int| self.visited@[i].name_view())
    }

    /// A worklist holding `start`, with nothing visited yet.
    pub fn new(start: Vec<ResolvedVersion>) -> (r: Self)
        ensures
            r.pending() == pins_view(start@),
            r.seen().len() == 0,
    {
        VisitQueue { to_visit: start, visited: Vec::new() }
    }

    /// Adds a pin to visit.
    pub fn push(&mut self, v: ResolvedVersion)
        ensures
            final(self).pending() == old(self).pending().push(v@),
            final(self).seen() == old(self).seen(),
    {
        self.to_visit.push(v);
        proof {
            assert(final(self).pending() =~= old(self).pending().push(v@));
        }
    }

    fn was_seen(&self, n: &PackageName) -> (r: bool)
        ensures
            r == self.seen().contains(n.name_view()),
    {
        let mut i: usize = 0;
        while i < self.visited.len()
            invariant
                i <= self.visited@.len(),
                forall|k: int| 0 <= k < i ==> self.visited@[k].name_view() != n.name_view(),
            decreases self.visited@.len() - i,
        {
            if self.visited[i].same(n) {
                proof {
                    assert(self.seen()[i as int] == n.name_view());
                }
                return true;
            }
            i = i + 1;
        }
        proof {
            if self.seen().contains(n.name_view()) {
                let k = choose|k: int| 0 <= k < self.seen().len() && self.seen()[k] == n.name_view();
                assert(self.visited@[k].name_view() == n.name_view());
            }
        }
        false
    }

    /// Takes pins from the end until one whose name is not yet visited, marks
    /// that name visited and returns the pin; `None` once nothing is left.
    pub fn next(&mut self) -> (r: Option<ResolvedVersion>)
        ensures
            match r {
                Some(v) => !old(self).seen().contains(v@.name) && final(self).seen() == old(self).seen().push(v@.name)
                    && exists|k: int| 0 <= k < old(self).pending().len() && old(self).pending()[k] == v@
                        && final(self).pending() == old(self).pending().take(k)
                        && forall|j: int| k < j < old(self).pending().len() ==> old(self).seen().contains(#[trigger] old(self).pending()[j].name),
                None => final(self).pending().len() == 0 && final(self).seen() == old(self).seen()
                    && forall|j: int| 0 <= j < old(self).pending().len() ==> old(self).seen().contains(#[trigger] old(self).pending()[j].name),
            },
    {
        let ghost p0 = self.pending();
        let ghost s0 = self.seen();
        loop
            invariant
                s0 == old(self).seen(),
                p0 == old(self).pending(),
                self.seen() == s0,
                self.pending() == p0.take(self.pending().len() as int),
                self.pending().len() <= p0.len(),
                forall|j: int| self.pending().len() <= j < p0.len() ==> s0.contains(#[trigger] p0[j].name),
            decreases self.to_visit@.len(),
        {
            let ghost before = self.to_visit@;
            match self.to_visit.pop() {
                None => {
                    return None;
                },
                Some(v) => {
                    let ghost k = self.to_visit@.len() as int;
                    proof {
                        assert(pins_view(before)[k] == v@);
                        assert(p0.take(k + 1)[k] == p0[k]);
                        assert(pins_view(self.to_visit@) =~= p0.take(k));
                        assert(p0[k] == v@);
                    }
                    if !self.was_seen(&v.name) {
                        let n = v.name.duplicate();
                        let ghost before = self.visited@;
                        self.visited.push(n);
                        proof {
                            assert(self.seen() =~= s0.push(v@.name));
                        }
                        return Some(v);
                    }
                },
            }
        }
    }
}

} // verus!
