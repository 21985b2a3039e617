//! A map from package names to values whose entries are kept in ascending name
//! order, as a `BTreeMap<PackageName, V>` keeps them.
use vstd::prelude::*;

use crate::package_name::{compare_names, lemma_name_order_flip, lemma_name_order_trans, name_order, PackageName};
use crate::text::Order3;

verus! {

/// Entries sorted by name, each name once.
#[derive(Debug)]
pub struct NameTable<V> {
    keys: Vec<PackageName>,
    values: Vec<V>,
}

impl<V> NameTable<V> {
    /// The keys in ascending order.
    pub closed spec fn key_seq(&self) -> Seq<(Seq<Seq<char>>, Seq<char>)> {
        Seq::new(self.keys@.len(), |i: int| self.keys@[i].name_view())
    }

    /// The values, in the order of their keys.
    pub closed spec fn value_seq(&self) -> Seq<V> {
        self.values@
    }

    /// Keys strictly ascending, one value per key.
    pub closed spec fn wf(&self) -> bool {
        entries_wf(self.keys@, self.values@)
    }

    /// The map as a mathematical map.
    pub closed spec fn as_map(&self) -> Map<(Seq<Seq<char>>, Seq<char>), V> {
        entries_map(self.keys@, self.values@)
    }

    /// Every entry is in the map and every key of the map is an entry; the
    /// keys ascend.
    pub proof fn lemma_entries(&self)
        requires
            self.wf(),
        ensures
            self.key_seq().len() == self.value_seq().len(),
            forall|i: int|
                0 <= i < self.key_seq().len() ==> #[trigger] self.as_map().contains_key(
                    self.key_seq()[i],
                ) && self.as_map()[self.key_seq()[i]] == self.value_seq()[i],
            forall|k: (Seq<Seq<char>>, Seq<char>)|
                #[trigger] self.as_map().contains_key(k) ==> exists|i: int|
                    0 <= i < self.key_seq().len() && self.key_seq()[i] == k,
            forall|i: int, j: int|
                0 <= i < j < self.key_seq().len() ==> name_order(
                    self.key_seq()[i],
                    self.key_seq()[j],
                ) == Order3::Less,
    {
        assert forall|i: int| 0 <= i < self.key_seq().len() implies #[trigger] self.as_map().contains_key(
            self.key_seq()[i],
        ) && self.as_map()[self.key_seq()[i]] == self.value_seq()[i] by {
            self.lemma_at(i);
        }
        assert forall|k: (Seq<Seq<char>>, Seq<char>)| #[trigger] self.as_map().contains_key(k) implies exists|i: int|
            0 <= i < self.key_seq().len() && self.key_seq()[i] == k by {
            let i = choose|i: int| 0 <= i < self.keys@.len() && self.keys@[i].name_view() == k;
            assert(self.key_seq()[i] == k);
        }
    }

    proof fn lemma_at(&self, i: int)
        requires
            self.wf(),
            0 <= i < self.keys@.len(),
        ensures
            self.as_map().contains_key(self.keys@[i].name_view()),
            self.as_map()[self.keys@[i].name_view()] == self.values@[i],
    {
        lemma_entry_at(self.keys@, self.values@, i);
    }

    /// An empty map.
    pub fn new() -> (m: Self)
        ensures
            m.wf(),
            m.as_map() == Map::<(Seq<Seq<char>>, Seq<char>), V>::empty(),
            m.key_seq().len() == 0,
    {
        let m = NameTable { keys: Vec::new(), values: Vec::new() };
        assert(m.as_map() =~= Map::<(Seq<Seq<char>>, Seq<char>), V>::empty());
        m
    }

    /// The number of entries.
    pub fn len(&self) -> (r: usize)
        requires
            self.wf(),
        ensures
            r == self.key_seq().len(),
    {
        self.keys.len()
    }

    /// The key of the `i`-th entry in ascending order.
    pub fn key_at(&self, i: usize) -> (r: &PackageName)
        requires
            self.wf(),
            i < self.key_seq().len(),
        ensures
            r.name_view() == self.key_seq()[i as int],
    {
        &self.keys[i]
    }

    /// The value of the `i`-th entry in ascending key order.
    pub fn value_at(&self, i: usize) -> (r: &V)
        requires
            self.wf(),
            i < self.key_seq().len(),
        ensures
            *r == self.value_seq()[i as int],
    {
        &self.values[i]
    }

    /// Where `k` is, or where it would go: the first index whose key is not below `k`.
    fn locate(&self, k: &PackageName) -> (r: (usize, bool))
        requires
            self.wf(),
        ensures
            r.0 <= self.keys@.len(),
            forall|j: int| 0 <= j < r.0 ==> name_order(self.keys@[j].name_view(), k.name_view()) == Order3::Less,
            r.1 ==> r.0 < self.keys@.len() && self.keys@[r.0 as int].name_view() == k.name_view(),
            !r.1 ==> r.0 < self.keys@.len() ==> name_order(k.name_view(), self.keys@[r.0 as int].name_view())
                == Order3::Less,
    {
        let mut i: usize = 0;
        while i < self.keys.len()
            invariant
                self.wf(),
                i <= self.keys@.len(),
                forall|j: int| 0 <= j < i ==> name_order(self.keys@[j].name_view(), k.name_view()) == Order3::Less,
            decreases self.keys.len() - i,
        {
            let o = compare_names(&self.keys[i], k);
            match o {
                Order3::Less => {},
                Order3::Equal => {
                    proof {
                        lemma_name_order_flip(self.keys@[i as int].name_view(), k.name_view());
                    }
                    return (i, true);
                },
                Order3::Greater => {
                    proof {
                        lemma_name_order_flip(k.name_view(), self.keys@[i as int].name_view());
                    }
                    return (i, false);
                },
            }
            i = i + 1;
        }
        (i, false)
    }

    /// The value stored under `k`.
    pub fn get(&self, k: &PackageName) -> (r: Option<&V>)
        requires
            self.wf(),
        ensures
            match r {
                Some(v) => self.as_map().contains_key(k.name_view()) && self.as_map()[k.name_view()] == *v,
                None => !self.as_map().contains_key(k.name_view()),
            },
    {
        let (i, found) = self.locate(k);
        if found {
            proof {
                self.lemma_at(i as int);
            }
            Some(&self.values[i])
        } else {
            proof {
                assert(!self.as_map().contains_key(k.name_view())) by {
                    if self.as_map().contains_key(k.name_view()) {
                        let j = choose|j: int| 0 <= j < self.keys@.len() && self.keys@[j].name_view() == k.name_view();
                        lemma_name_order_flip(k.name_view(), k.name_view());
                        if j < i {
                        } else {
                            if j > i {
                                lemma_name_order_trans(k.name_view(), self.keys@[i as int].name_view(), self.keys@[j].name_view());
                            }
                        }
                    }
                }
            }
            None
        }
    }

    /// Stores `v` under `k`, replacing any previous value.
    pub fn insert(&mut self, k: PackageName, v: V)
        requires
            old(self).wf(),
        ensures
            final(self).wf(),
            final(self).as_map() == old(self).as_map().insert(k.name_view(), v),
    {
        let (i, found) = self.locate(&k);
        let ghost old_keys = self.keys@;
        let ghost old_values = self.values@;
        let ghost old_map = self.as_map();
        if found {
            self.values.set(i, v);
            proof {
                assert(self.keys@ == old_keys);
                assert forall|q: (Seq<Seq<char>>, Seq<char>)| #[trigger] self.as_map().contains_key(q)
                    == old_map.insert(k.name_view(), v).contains_key(q) by {}
                assert(self.as_map() =~= old_map.insert(k.name_view(), v)) by {
                    assert forall|q: (Seq<Seq<char>>, Seq<char>)| self.as_map().contains_key(q) implies #[trigger] self.as_map()[q]
                        == old_map.insert(k.name_view(), v)[q] by {
                        let j = choose|j: int| 0 <= j < self.keys@.len() && self.keys@[j].name_view() == q;
                        self.lemma_at(j);
                        if j == i {
                        } else {
                            lemma_entry_at::<V>(old_keys, old_values, j);
                            if q == k.name_view() {
                                lemma_entries_distinct::<V>(old_keys, old_values, i as int, j);
                            }
                        }
                    }
                }
            }
        } else {
            let ghost kv = k.name_view();
            self.keys.insert(i, k);
            self.values.insert(i, v);
            proof {
                assert(self.keys@ == old_keys.insert(i as int, self.keys@[i as int]));
                assert forall|a: int, b: int| 0 <= a < b < self.keys@.len() implies name_order(
                    self.keys@[a].name_view(),
                    self.keys@[b].name_view(),
                ) == Order3::Less by {
                    if b < i {
                        assert(self.keys@[a] == old_keys[a] && self.keys@[b] == old_keys[b]);
                    } else if b == i {
                        assert(self.keys@[a] == old_keys[a]);
                    } else if a < i {
                        assert(self.keys@[a] == old_keys[a] && self.keys@[b] == old_keys[b - 1]);
                        lemma_name_order_trans(old_keys[a].name_view(), kv, old_keys[i as int].name_view());
                        if b - 1 > i {
                            lemma_name_order_trans(old_keys[a].name_view(), old_keys[i as int].name_view(), old_keys[b - 1].name_view());
                        }
                    } else if a == i {
                        assert(self.keys@[b] == old_keys[b - 1]);
                        if b - 1 > i {
                            lemma_name_order_trans(kv, old_keys[i as int].name_view(), old_keys[b - 1].name_view());
                        }
                    } else {
                        assert(self.keys@[a] == old_keys[a - 1] && self.keys@[b] == old_keys[b - 1]);
                    }
                }
                assert(self.as_map() =~= old_map.insert(kv, v)) by {
                    assert forall|q: (Seq<Seq<char>>, Seq<char>)| #[trigger] self.as_map().contains_key(q)
                        == old_map.insert(kv, v).contains_key(q) by {
                        if old_map.contains_key(q) {
                            let j = choose|j: int| 0 <= j < old_keys.len() && old_keys[j].name_view() == q;
                            let jj = if j < i { j } else { j + 1 };
                            assert(self.keys@[jj].name_view() == q);
                        }
                        if self.as_map().contains_key(q) && q != kv {
                            let j = choose|j: int| 0 <= j < self.keys@.len() && self.keys@[j].name_view() == q;
                            let jj = if j < i { j } else { j - 1 };
                            assert(old_keys[jj].name_view() == q);
                        }
                        if q == kv {
                            assert(self.keys@[i as int].name_view() == q);
                        }
                    }
                    assert forall|q: (Seq<Seq<char>>, Seq<char>)| self.as_map().contains_key(q) implies #[trigger] self.as_map()[q]
                        == old_map.insert(kv, v)[q] by {
                        let j = choose|j: int| 0 <= j < self.keys@.len() && self.keys@[j].name_view() == q;
                        self.lemma_at(j);
                        if j < i {
                            lemma_entry_at::<V>(old_keys, old_values, j);
                            assert(self.values@[j] == old_values[j]);
                            assert(self.keys@[j] == old_keys[j]);
                            lemma_name_order_flip(old_keys[j].name_view(), kv);
                        } else if j > i {
                            lemma_entry_at::<V>(old_keys, old_values, j - 1);
                            assert(self.values@[j] == old_values[j - 1]);
                            assert(self.keys@[j] == old_keys[j - 1]);
                            if j - 1 > i {
                                lemma_name_order_trans(kv, old_keys[i as int].name_view(), old_keys[j - 1].name_view());
                            }
                            lemma_name_order_flip(kv, old_keys[j - 1].name_view());
                        }
                    }
                }
            }
        }
    }

    /// Removes the entry under `k`, returning its value.
    pub fn remove(&mut self, k: &PackageName) -> (r: Option<V>)
        requires
            old(self).wf(),
        ensures
            final(self).wf(),
            final(self).as_map() == old(self).as_map().remove(k.name_view()),
            match r {
                Some(v) => old(self).as_map().contains_key(k.name_view()) && old(self).as_map()[k.name_view()] == v,
                None => !old(self).as_map().contains_key(k.name_view()),
            },
    {
        let (i, found) = self.locate(k);
        let ghost old_keys = self.keys@;
        let ghost old_values = self.values@;
        let ghost old_map = self.as_map();
        if found {
            proof {
                self.lemma_at(i as int);
            }
            self.keys.remove(i);
            let v = self.values.remove(i);
            proof {
                assert forall|a: int, b: int| 0 <= a < b < self.keys@.len() implies name_order(
                    self.keys@[a].name_view(),
                    self.keys@[b].name_view(),
                ) == Order3::Less by {
                    let aa = if a < i { a } else { a + 1 };
                    let bb = if b < i { b } else { b + 1 };
                    assert(self.keys@[a] == old_keys[aa]);
                    assert(self.keys@[b] == old_keys[bb]);
                }
                assert(self.as_map() =~= old_map.remove(k.name_view())) by {
                    assert forall|q: (Seq<Seq<char>>, Seq<char>)| #[trigger] self.as_map().contains_key(q)
                        == old_map.remove(k.name_view()).contains_key(q) by {
                        if self.as_map().contains_key(q) {
                            let j = choose|j: int| 0 <= j < self.keys@.len() && self.keys@[j].name_view() == q;
                            let jj = if j < i { j } else { j + 1 };
                            assert(old_keys[jj].name_view() == q);
                            if q == k.name_view() {
                                lemma_entries_distinct::<V>(old_keys, old_values, jj, i as int);
                            }
                        }
                        if old_map.remove(k.name_view()).contains_key(q) {
                            let j = choose|j: int| 0 <= j < old_keys.len() && old_keys[j].name_view() == q;
                            assert(j != i);
                            let jj = if j < i { j } else { j - 1 };
                            assert(self.keys@[jj].name_view() == q);
                        }
                    }
                    assert forall|q: (Seq<Seq<char>>, Seq<char>)| self.as_map().contains_key(q) implies #[trigger] self.as_map()[q]
                        == old_map.remove(k.name_view())[q] by {
                        let j = choose|j: int| 0 <= j < self.keys@.len() && self.keys@[j].name_view() == q;
                        self.lemma_at(j);
                        let jj = if j < i { j } else { j + 1 };
                        lemma_entry_at::<V>(old_keys, old_values, jj);
                    }
                }
            }
            Some(v)
        } else {
            proof {
                assert(!old_map.contains_key(k.name_view())) by {
                    if old_map.contains_key(k.name_view()) {
                        let j = choose|j: int| 0 <= j < old_keys.len() && old_keys[j].name_view() == k.name_view();
                        lemma_name_order_flip(k.name_view(), k.name_view());
                        if j > i {
                            lemma_name_order_trans(k.name_view(), old_keys[i as int].name_view(), old_keys[j].name_view());
                        }
                    }
                }
                assert(self.as_map() =~= old_map.remove(k.name_view()));
            }
            None
        }
    }
}

/// Keys strictly ascending, one value per key.
pub open spec fn entries_wf<V>(keys: Seq<PackageName>, values: Seq<V>) -> bool {
    &&& keys.len() == values.len()
    &&& forall|i: int, j: int|
        0 <= i < j < keys.len() ==> name_order(keys[i].name_view(), keys[j].name_view()) == Order3::Less
}

/// The map that a list of entries stands for.
pub open spec fn entries_map<V>(keys: Seq<PackageName>, values: Seq<V>) -> Map<(Seq<Seq<char>>, Seq<char>), V> {
    Map::new(
        |k: (Seq<Seq<char>>, Seq<char>)| exists|i: int| 0 <= i < keys.len() && keys[i].name_view() == k,
        |k: (Seq<Seq<char>>, Seq<char>)| values[entry_index(keys, k)],
    )
}

/// An index whose key is `k`, where there is one.
pub open spec fn entry_index(keys: Seq<PackageName>, k: (Seq<Seq<char>>, Seq<char>)) -> int {
    choose|i: int| 0 <= i < keys.len() && keys[i].name_view() == k
}

proof fn lemma_entries_distinct<V>(keys: Seq<PackageName>, values: Seq<V>, i: int, j: int)
    requires
        entries_wf(keys, values),
        0 <= i < keys.len(),
        0 <= j < keys.len(),
        keys[i].name_view() == keys[j].name_view(),
    ensures
        i == j,
{
    if i < j {
        lemma_name_order_flip(keys[i].name_view(), keys[j].name_view());
    } else if j < i {
        lemma_name_order_flip(keys[j].name_view(), keys[i].name_view());
    }
}

proof fn lemma_entry_at<V>(keys: Seq<PackageName>, values: Seq<V>, i: int)
    requires
        entries_wf(keys, values),
        0 <= i < keys.len(),
    ensures
        entries_map(keys, values).contains_key(keys[i].name_view()),
        entries_map(keys, values)[keys[i].name_view()] == values[i],
{
    let k = keys[i].name_view();
    let m = entries_map(keys, values);
    assert(exists|j: int| 0 <= j < keys.len() && keys[j].name_view() == k);
    assert(m.contains_key(k));
    let j = entry_index(keys, k);
    assert(m[k] == values[j]);
    lemma_entries_distinct(keys, values, i, j);
}

} // verus!
