//! A map from strings to values whose entries are kept in ascending key order,
//! as a `BTreeMap<String, V>` keeps them.
use vstd::prelude::*;

use crate::text::{compare_text, lemma_text_order_flip, lemma_text_order_trans, text_order, Order3};

verus! {

/// Entries sorted by key, each key once.
#[derive(Debug)]
pub struct TextMap<V> {
    keys: Vec<String>,
    values: Vec<V>,
}

impl<V> TextMap<V> {
    /// The keys in ascending order.
    pub closed spec fn key_seq(&self) -> Seq<Seq<char>> {
        Seq::new(self.keys@.len(), |i: int| self.keys@[i]@)
    }

    /// The values, in the order of their keys.
    pub closed spec fn value_seq(&self) -> Seq<V> {
        self.values@
    }

    /// Keys strictly ascending, one value per key.
    pub closed spec fn wf(&self) -> bool {
        entries_wf(self.keys@, self.values@)
    }

    /// The map as a mathematical map.
    pub closed spec fn as_map(&self) -> Map<Seq<char>, V> {
        entries_map(self.keys@, self.values@)
    }

    /// Every entry is in the map and every key of the map is an entry; the
    /// keys ascend.
    pub proof fn lemma_entries(&self)
        requires
            self.wf(),
        ensures
            self.key_seq().len() == self.value_seq().len(),
            forall|i: int|
                0 <= i < self.key_seq().len() ==> #[trigger] self.as_map().contains_key(
                    self.key_seq()[i],
                ) && self.as_map()[self.key_seq()[i]] == self.value_seq()[i],
            forall|k: Seq<char>|
                #[trigger] self.as_map().contains_key(k) ==> exists|i: int|
                    0 <= i < self.key_seq().len() && self.key_seq()[i] == k,
            forall|i: int, j: int|
                0 <= i < j < self.key_seq().len() ==> text_order(
                    self.key_seq()[i],
                    self.key_seq()[j],
                ) == Order3::Less,
    {
        assert forall|i: int| 0 <= i < self.key_seq().len() implies #[trigger] self.as_map().contains_key(
            self.key_seq()[i],
        ) && self.as_map()[self.key_seq()[i]] == self.value_seq()[i] by {
            self.lemma_at(i);
        }
        assert forall|k: Seq<char>| #[trigger] self.as_map().contains_key(k) implies exists|i: int|
            0 <= i < self.key_seq().len() && self.key_seq()[i] == k by {
            let i = choose|i: int| 0 <= i < self.keys@.len() && self.keys@[i]@ == k;
            assert(self.key_seq()[i] == k);
        }
    }

    proof fn lemma_at(&self, i: int)
        requires
            self.wf(),
            0 <= i < self.keys@.len(),
        ensures
            self.as_map().contains_key(self.keys@[i]@),
            self.as_map()[self.keys@[i]@] == self.values@[i],
    {
        lemma_entry_at(self.keys@, self.values@, i);
    }

    /// An empty map.
    pub fn new() -> (m: Self)
        ensures
            m.wf(),
            m.as_map() == Map::<Seq<char>, V>::empty(),
            m.key_seq().len() == 0,
    {
        let m = TextMap { keys: Vec::new(), values: Vec::new() };
        assert(m.as_map() =~= Map::<Seq<char>, V>::empty());
        m
    }

    /// The number of entries.
    pub fn len(&self) -> (r: usize)
        requires
            self.wf(),
        ensures
            r == self.key_seq().len(),
    {
        self.keys.len()
    }

    /// The key of the `i`-th entry in ascending order.
    pub fn key_at(&self, i: usize) -> (r: &String)
        requires
            self.wf(),
            i < self.key_seq().len(),
        ensures
            r@ == self.key_seq()[i as int],
    {
        &self.keys[i]
    }

    /// The value of the `i`-th entry in ascending key order.
    pub fn value_at(&self, i: usize) -> (r: &V)
        requires
            self.wf(),
            i < self.key_seq().len(),
        ensures
            *r == self.value_seq()[i as int],
    {
        &self.values[i]
    }

    /// Where `k` is, or where it would go: the first index whose key is not below `k`.
    fn locate(&self, k: &str) -> (r: (usize, bool))
        requires
            self.wf(),
        ensures
            r.0 <= self.keys@.len(),
            forall|j: int| 0 <= j < r.0 ==> text_order(self.keys@[j]@, k@) == Order3::Less,
            r.1 ==> r.0 < self.keys@.len() && self.keys@[r.0 as int]@ == k@,
            !r.1 ==> r.0 < self.keys@.len() ==> text_order(k@, self.keys@[r.0 as int]@)
                == Order3::Less,
    {
        let mut i: usize = 0;
        while i < self.keys.len()
            invariant
                self.wf(),
                i <= self.keys@.len(),
                forall|j: int| 0 <= j < i ==> text_order(self.keys@[j]@, k@) == Order3::Less,
            decreases self.keys.len() - i,
        {
            let o = compare_text(self.keys[i].as_str(), k);
            match o {
                Order3::Less => {},
                Order3::Equal => {
                    proof {
                        lemma_text_order_flip(self.keys@[i as int]@, k@);
                    }
                    return (i, true);
                },
                Order3::Greater => {
                    proof {
                        lemma_text_order_flip(k@, self.keys@[i as int]@);
                    }
                    return (i, false);
                },
            }
            i = i + 1;
        }
        (i, false)
    }

    /// The value stored under `k`.
    pub fn get(&self, k: &str) -> (r: Option<&V>)
        requires
            self.wf(),
        ensures
            match r {
                Some(v) => self.as_map().contains_key(k@) && self.as_map()[k@] == *v,
                None => !self.as_map().contains_key(k@),
            },
    {
        let (i, found) = self.locate(k);
        if found {
            proof {
                self.lemma_at(i as int);
            }
            Some(&self.values[i])
        } else {
            proof {
                assert(!self.as_map().contains_key(k@)) by {
                    if self.as_map().contains_key(k@) {
                        let j = choose|j: int| 0 <= j < self.keys@.len() && self.keys@[j]@ == k@;
                        lemma_text_order_flip(k@, k@);
                        if j < i {
                        } else {
                            if j > i {
                                lemma_text_order_trans(k@, self.keys@[i as int]@, self.keys@[j]@);
                            }
                        }
                    }
                }
            }
            None
        }
    }

    /// Stores `v` under `k`, replacing any previous value.
    pub fn insert(&mut self, k: String, v: V)
        requires
            old(self).wf(),
        ensures
            final(self).wf(),
            final(self).as_map() == old(self).as_map().insert(k@, v),
    {
        let (i, found) = self.locate(k.as_str());
        let ghost old_keys = self.keys@;
        let ghost old_values = self.values@;
        let ghost old_map = self.as_map();
        if found {
            self.values.set(i, v);
            proof {
                assert(self.keys@ == old_keys);
                assert forall|q: Seq<char>| #[trigger] self.as_map().contains_key(q)
                    == old_map.insert(k@, v).contains_key(q) by {}
                assert(self.as_map() =~= old_map.insert(k@, v)) by {
                    assert forall|q: Seq<char>| self.as_map().contains_key(q) implies #[trigger] self.as_map()[q]
                        == old_map.insert(k@, v)[q] by {
                        let j = choose|j: int| 0 <= j < self.keys@.len() && self.keys@[j]@ == q;
                        self.lemma_at(j);
                        if j == i {
                        } else {
                            lemma_entry_at::<V>(old_keys, old_values, j);
                            if q == k@ {
                                lemma_entries_distinct::<V>(old_keys, old_values, i as int, j);
                            }
                        }
                    }
                }
            }
        } else {
            let ghost kv = k@;
            self.keys.insert(i, k);
            self.values.insert(i, v);
            proof {
                assert(self.keys@ == old_keys.insert(i as int, self.keys@[i as int]));
                assert forall|a: int, b: int| 0 <= a < b < self.keys@.len() implies text_order(
                    self.keys@[a]@,
                    self.keys@[b]@,
                ) == Order3::Less by {
                    if b < i {
                        assert(self.keys@[a] == old_keys[a] && self.keys@[b] == old_keys[b]);
                    } else if b == i {
                        assert(self.keys@[a] == old_keys[a]);
                    } else if a < i {
                        assert(self.keys@[a] == old_keys[a] && self.keys@[b] == old_keys[b - 1]);
                        lemma_text_order_trans(old_keys[a]@, kv, old_keys[i as int]@);
                        if b - 1 > i {
                            lemma_text_order_trans(old_keys[a]@, old_keys[i as int]@, old_keys[b - 1]@);
                        }
                    } else if a == i {
                        assert(self.keys@[b] == old_keys[b - 1]);
                        if b - 1 > i {
                            lemma_text_order_trans(kv, old_keys[i as int]@, old_keys[b - 1]@);
                        }
                    } else {
                        assert(self.keys@[a] == old_keys[a - 1] && self.keys@[b] == old_keys[b - 1]);
                    }
                }
                assert(self.as_map() =~= old_map.insert(kv, v)) by {
                    assert forall|q: Seq<char>| #[trigger] self.as_map().contains_key(q)
                        == old_map.insert(kv, v).contains_key(q) by {
                        if old_map.contains_key(q) {
                            let j = choose|j: int| 0 <= j < old_keys.len() && old_keys[j]@ == q;
                            let jj = if j < i { j } else { j + 1 };
                            assert(self.keys@[jj]@ == q);
                        }
                        if self.as_map().contains_key(q) && q != kv {
                            let j = choose|j: int| 0 <= j < self.keys@.len() && self.keys@[j]@ == q;
                            let jj = if j < i { j } else { j - 1 };
                            assert(old_keys[jj]@ == q);
                        }
                        if q == kv {
                            assert(self.keys@[i as int]@ == q);
                        }
                    }
                    assert forall|q: Seq<char>| self.as_map().contains_key(q) implies #[trigger] self.as_map()[q]
                        == old_map.insert(kv, v)[q] by {
                        let j = choose|j: int| 0 <= j < self.keys@.len() && self.keys@[j]@ == q;
                        self.lemma_at(j);
                        if j < i {
                            lemma_entry_at::<V>(old_keys, old_values, j);
                            assert(self.values@[j] == old_values[j]);
                            assert(self.keys@[j] == old_keys[j]);
                            lemma_text_order_flip(old_keys[j]@, kv);
                        } else if j > i {
                            lemma_entry_at::<V>(old_keys, old_values, j - 1);
                            assert(self.values@[j] == old_values[j - 1]);
                            assert(self.keys@[j] == old_keys[j - 1]);
                            if j - 1 > i {
                                lemma_text_order_trans(kv, old_keys[i as int]@, old_keys[j - 1]@);
                            }
                            lemma_text_order_flip(kv, old_keys[j - 1]@);
                        }
                    }
                }
            }
        }
    }

    /// Removes the entry under `k`, returning its value.
    pub fn remove(&mut self, k: &str) -> (r: Option<V>)
        requires
            old(self).wf(),
        ensures
            final(self).wf(),
            final(self).as_map() == old(self).as_map().remove(k@),
            match r {
                Some(v) => old(self).as_map().contains_key(k@) && old(self).as_map()[k@] == v,
                None => !old(self).as_map().contains_key(k@),
            },
    {
        let (i, found) = self.locate(k);
        let ghost old_keys = self.keys@;
        let ghost old_values = self.values@;
        let ghost old_map = self.as_map();
        if found {
            proof {
                self.lemma_at(i as int);
            }
            self.keys.remove(i);
            let v = self.values.remove(i);
            proof {
                assert forall|a: int, b: int| 0 <= a < b < self.keys@.len() implies text_order(
                    self.keys@[a]@,
                    self.keys@[b]@,
                ) == Order3::Less by {
                    let aa = if a < i { a } else { a + 1 };
                    let bb = if b < i { b } else { b + 1 };
                    assert(self.keys@[a] == old_keys[aa]);
                    assert(self.keys@[b] == old_keys[bb]);
                }
                assert(self.as_map() =~= old_map.remove(k@)) by {
                    assert forall|q: Seq<char>| #[trigger] self.as_map().contains_key(q)
                        == old_map.remove(k@).contains_key(q) by {
                        if self.as_map().contains_key(q) {
                            let j = choose|j: int| 0 <= j < self.keys@.len() && self.keys@[j]@ == q;
                            let jj = if j < i { j } else { j + 1 };
                            assert(old_keys[jj]@ == q);
                            if q == k@ {
                                lemma_entries_distinct::<V>(old_keys, old_values, jj, i as int);
                            }
                        }
                        if old_map.remove(k@).contains_key(q) {
                            let j = choose|j: int| 0 <= j < old_keys.len() && old_keys[j]@ == q;
                            assert(j != i);
                            let jj = if j < i { j } else { j - 1 };
                            assert(self.keys@[jj]@ == q);
                        }
                    }
                    assert forall|q: Seq<char>| self.as_map().contains_key(q) implies #[trigger] self.as_map()[q]
                        == old_map.remove(k@)[q] by {
                        let j = choose|j: int| 0 <= j < self.keys@.len() && self.keys@[j]@ == q;
                        self.lemma_at(j);
                        let jj = if j < i { j } else { j + 1 };
                        lemma_entry_at::<V>(old_keys, old_values, jj);
                    }
                }
            }
            Some(v)
        } else {
            proof {
                assert(!old_map.contains_key(k@)) by {
                    if old_map.contains_key(k@) {
                        let j = choose|j: int| 0 <= j < old_keys.len() && old_keys[j]@ == k@;
                        lemma_text_order_flip(k@, k@);
                        if j > i {
                            lemma_text_order_trans(k@, old_keys[i as int]@, old_keys[j]@);
                        }
                    }
                }
                assert(self.as_map() =~= old_map.remove(k@));
            }
            None
        }
    }
}

/// Keys strictly ascending, one value per key.
pub open spec fn entries_wf<V>(keys: Seq<String>, values: Seq<V>) -> bool {
    &&& keys.len() == values.len()
    &&& forall|i: int, j: int|
        0 <= i < j < keys.len() ==> text_order(keys[i]@, keys[j]@) == Order3::Less
}

/// The map that a list of entries stands for.
pub open spec fn entries_map<V>(keys: Seq<String>, values: Seq<V>) -> Map<Seq<char>, V> {
    Map::new(
        |k: Seq<char>| exists|i: int| 0 <= i < keys.len() && keys[i]@ == k,
        |k: Seq<char>| values[entry_index(keys, k)],
    )
}

/// An index whose key is `k`, where there is one.
pub open spec fn entry_index(keys: Seq<String>, k: Seq<char>) -> int {
    choose|i: int| 0 <= i < keys.len() && keys[i]@ == k
}

proof fn lemma_entries_distinct<V>(keys: Seq<String>, values: Seq<V>, i: int, j: int)
    requires
        entries_wf(keys, values),
        0 <= i < keys.len(),
        0 <= j < keys.len(),
        keys[i]@ == keys[j]@,
    ensures
        i == j,
{
    if i < j {
        lemma_text_order_flip(keys[i]@, keys[j]@);
    } else if j < i {
        lemma_text_order_flip(keys[j]@, keys[i]@);
    }
}

proof fn lemma_entry_at<V>(keys: Seq<String>, values: Seq<V>, i: int)
    requires
        entries_wf(keys, values),
        0 <= i < keys.len(),
    ensures
        entries_map(keys, values).contains_key(keys[i]@),
        entries_map(keys, values)[keys[i]@] == values[i],
{
    let k = keys[i]@;
    let m = entries_map(keys, values);
    assert(exists|j: int| 0 <= j < keys.len() && keys[j]@ == k);
    assert(m.contains_key(k));
    let j = entry_index(keys, k);
    assert(m[k] == values[j]);
    lemma_entries_distinct(keys, values, i, j);
}

impl TextMap<String> {
    /// A copy of the map.
    pub fn duplicate(&self) -> (r: Self)
        requires
            self.wf(),
        ensures
            r.wf(),
            r.as_map() == self.as_map(),
            r.key_seq() == self.key_seq(),
            r.value_seq() == self.value_seq(),
    {
        let mut keys: Vec<String> = Vec::new();
        let mut values: Vec<String> = Vec::new();
        let mut i: usize = 0;
        while i < self.keys.len()
            invariant
                self.wf(),
                i <= self.keys@.len(),
                keys@ == self.keys@.take(i as int),
                values@ == self.values@.take(i as int),
            decreases self.keys.len() - i,
        {
            keys.push(self.keys[i].clone());
            values.push(self.values[i].clone());
            proof {
                assert(keys@ =~= self.keys@.take(i + 1));
                assert(values@ =~= self.values@.take(i + 1));
            }
            i = i + 1;
        }
        proof {
            assert(keys@ =~= self.keys@);
            assert(values@ =~= self.values@);
        }
        let r = TextMap { keys, values };
        assert(r.key_seq() =~= self.key_seq());
        r
    }
}

} // verus!
