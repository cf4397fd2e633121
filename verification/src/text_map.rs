//! An ordered map from texts, kept as a sorted vector.
use vstd::prelude::*;
use crate::text::{
    chars_of, lemma_text_lt_total, lemma_text_lt_trans, same_chars, text_less, text_lt,
};

verus! {

/// One entry of a map.
#[derive(Debug)]
pub struct TextEntry<V> {
    pub key: String,
    pub value: V,
}

/// A map from texts, in increasing order of its keys.
#[derive(Debug)]
pub struct TextMap<V> {
    pub entries: Vec<TextEntry<V>>,
}

/// The map that a sequence of entries stands for; a later entry overrides an
/// earlier one with the same key.
pub open spec fn map_of<V>(s: Seq<TextEntry<V>>) -> Map<Seq<char>, V>
    decreases s.len(),
{
    if s.len() == 0 {
        Map::empty()
    } else {
        map_of(s.drop_last()).insert(s.last().key@, s.last().value)
    }
}

/// In strictly increasing order of the keys.
pub open spec fn keys_sorted<V>(s: Seq<TextEntry<V>>) -> bool {
    forall|i: int, j: int|
        #![trigger s[i], s[j]]
        0 <= i < j < s.len() ==> text_lt(s[i].key@, s[j].key@)
}

/// A key is in the map if and only if some entry has it.
pub proof fn lemma_map_of_domain<V>(s: Seq<TextEntry<V>>, k: Seq<char>)
    ensures
        map_of(s).contains_key(k) <==> exists|i: int| 0 <= i < s.len() && (#[trigger] s[i]).key@ == k,
    decreases s.len(),
{
    if s.len() > 0 {
        let d = s.drop_last();
        lemma_map_of_domain(d, k);
        if map_of(s).contains_key(k) {
            if s.last().key@ == k {
                assert(s[s.len() - 1].key@ == k);
            } else {
                let i = choose|i: int| 0 <= i < d.len() && (#[trigger] d[i]).key@ == k;
                assert(s[i].key@ == k);
            }
        }
        if exists|i: int| 0 <= i < s.len() && (#[trigger] s[i]).key@ == k {
            let i = choose|i: int| 0 <= i < s.len() && (#[trigger] s[i]).key@ == k;
            if i < d.len() {
                assert(d[i].key@ == k);
            }
        }
    }
}

/// Sorted keys are distinct.
pub proof fn lemma_keys_distinct<V>(s: Seq<TextEntry<V>>, i: int, j: int)
    requires
        keys_sorted(s),
        0 <= i < s.len(),
        0 <= j < s.len(),
        s[i].key@ == s[j].key@,
    ensures
        i == j,
{
    lemma_text_lt_total(s[i].key@, s[j].key@);
    if i < j {
        assert(text_lt(s[i].key@, s[j].key@));
    } else if j < i {
        assert(text_lt(s[j].key@, s[i].key@));
    }
}

/// Where the keys are sorted, the map holds exactly the value of each entry.
pub proof fn lemma_map_of_index<V>(s: Seq<TextEntry<V>>, i: int)
    requires
        keys_sorted(s),
        0 <= i < s.len(),
    ensures
        map_of(s).contains_key(s[i].key@),
        map_of(s)[s[i].key@] == s[i].value,
    decreases s.len(),
{
    let d = s.drop_last();
    if i < s.len() - 1 {
        assert(keys_sorted(d)) by {
            assert forall|a: int, b: int|
                #![trigger d[a], d[b]]
                0 <= a < b < d.len() implies text_lt(d[a].key@, d[b].key@) by {
                assert(text_lt(s[a].key@, s[b].key@));
            }
        }
        lemma_map_of_index(d, i);
        if s[i].key@ == s.last().key@ {
            lemma_keys_distinct(s, i, s.len() - 1);
        }
    }
}

/// Two entry sequences with the same keys and values pairwise stand for one map.
pub proof fn lemma_map_of_same<V>(s: Seq<TextEntry<V>>, m: Map<Seq<char>, V>)
    requires
        keys_sorted(s),
        forall|i: int|
            0 <= i < s.len() ==> m.contains_key((#[trigger] s[i]).key@) && m[s[i].key@]
                == s[i].value,
        forall|k: Seq<char>| #[trigger]
            m.contains_key(k) ==> exists|i: int| 0 <= i < s.len() && (#[trigger] s[i]).key@ == k,
    ensures
        map_of(s) == m,
{
    assert forall|k: Seq<char>| map_of(s).contains_key(k) <==> m.contains_key(k) by {
        lemma_map_of_domain(s, k);
    }
    assert forall|k: Seq<char>| map_of(s).contains_key(k) implies map_of(s)[k] == m[k] by {
        lemma_map_of_domain(s, k);
        let i = choose|i: int| 0 <= i < s.len() && (#[trigger] s[i]).key@ == k;
        lemma_map_of_index(s, i);
    }
    assert(map_of(s) =~= m);
}

impl<V> View for TextMap<V> {
    type V = Map<Seq<char>, V>;

    open spec fn view(&self) -> Map<Seq<char>, V> {
        map_of(self.entries@)
    }
}

impl<V> TextMap<V> {
    /// The keys are in strictly increasing order.
    pub open spec fn wf(&self) -> bool {
        keys_sorted(self.entries@)
    }

    /// The empty map.
    pub fn new() -> (r: Self)
        ensures
            r.wf(),
            r@ == Map::<Seq<char>, V>::empty(),
            r.entries@.len() == 0,
    {
        TextMap { entries: Vec::new() }
    }

    /// Number of entries.
    pub fn len(&self) -> (r: usize)
        ensures
            r == self.entries@.len(),
    {
        self.entries.len()
    }

    /// Whether there is no entry.
    pub fn is_empty(&self) -> (r: bool)
        ensures
            r == (self@ == Map::<Seq<char>, V>::empty()),
    {
        proof {
            if self.entries@.len() > 0 {
                lemma_map_of_domain(self.entries@, self.entries@[0].key@);
                assert(self@.contains_key(self.entries@[0].key@));
            }
        }
        self.entries.len() == 0
    }

    /// Where a key is, or where it belongs.
    fn locate(&self, key: &[char]) -> (r: (usize, bool))
        requires
            self.wf(),
        ensures
            r.0 <= self.entries@.len(),
            r.1 ==> r.0 < self.entries@.len() && self.entries@[r.0 as int].key@ == key@,
            !r.1 ==> !self@.contains_key(key@),
            forall|i: int|
                0 <= i < r.0 ==> text_lt((#[trigger] self.entries@[i]).key@, key@),
            !r.1 ==> forall|i: int|
                r.0 <= i < self.entries@.len() ==> text_lt(
                    key@,
                    (#[trigger] self.entries@[i]).key@,
                ),
    {
        let mut i: usize = 0;
        while i < self.entries.len()
            invariant
                i <= self.entries@.len(),
                self.wf(),
                forall|j: int| 0 <= j < i ==> text_lt((#[trigger] self.entries@[j]).key@, key@),
            decreases self.entries@.len() - i,
        {
            let k = chars_of(self.entries[i].key.as_str());
            if same_chars(k.as_slice(), key) {
                return (i, true);
            }
            if !text_less(k.as_slice(), key) {
                proof {
                    lemma_text_lt_total(k@, key@);
                    assert forall|j: int| i <= j < self.entries@.len() implies text_lt(
                        key@,
                        (#[trigger] self.entries@[j]).key@,
                    ) by {
                        if j > i {
                            assert(text_lt(
                                self.entries@[i as int].key@,
                                self.entries@[j].key@,
                            ));
                            lemma_text_lt_trans(
                                key@,
                                self.entries@[i as int].key@,
                                self.entries@[j].key@,
                            );
                        }
                    }
                    self.lemma_absent(key@, i as int);
                }
                return (i, false);
            }
            i = i + 1;
        }
        proof {
            self.lemma_absent(key@, i as int);
        }
        (i, false)
    }

    proof fn lemma_absent(&self, key: Seq<char>, at: int)
        requires
            0 <= at <= self.entries@.len(),
            forall|i: int| 0 <= i < at ==> text_lt((#[trigger] self.entries@[i]).key@, key),
            forall|i: int|
                at <= i < self.entries@.len() ==> text_lt(key, (#[trigger] self.entries@[i]).key@),
        ensures
            !self@.contains_key(key),
    {
        lemma_map_of_domain(self.entries@, key);
        if self@.contains_key(key) {
            let i = choose|i: int|
                0 <= i < self.entries@.len() && (#[trigger] self.entries@[i]).key@ == key;
            lemma_text_lt_total(key, key);
        }
    }

    /// The value of a key.
    pub fn get(&self, key: &str) -> (r: Option<&V>)
        requires
            self.wf(),
        ensures
            match r {
                Some(v) => self@.contains_key(key@) && self@[key@] == *v,
                None => !self@.contains_key(key@),
            },
    {
        let k = chars_of(key);
        let (at, found) = self.locate(k.as_slice());
        if found {
            proof {
                lemma_map_of_index(self.entries@, at as int);
            }
            Some(&self.entries[at].value)
        } else {
            None
        }
    }

    /// Whether a key is there.
    pub fn contains_key(&self, key: &str) -> (r: bool)
        requires
            self.wf(),
        ensures
            r == self@.contains_key(key@),
    {
        self.get(key).is_some()
    }

    /// Sets the value of a key.
    pub fn insert(&mut self, key: String, value: V)
        requires
            old(self).wf(),
        ensures
            final(self).wf(),
            final(self)@ == old(self)@.insert(key@, value),
    {
        let k = chars_of(key.as_str());
        let (at, found) = self.locate(k.as_slice());
        let ghost before = self.entries@;
        let ghost m = self@;
        let entry = TextEntry { key, value };
        if found {
            self.entries.set(at, entry);
        } else {
            self.entries.insert(at, entry);
        }
        proof {
            let after = self.entries@;
            let target = m.insert(k@, value);
            assert forall|i: int, j: int|
                #![trigger after[i], after[j]]
                0 <= i < j < after.len() implies text_lt(after[i].key@, after[j].key@) by {
                if found {
                    assert(text_lt(before[i].key@, before[j].key@));
                } else if j < at {
                    assert(text_lt(before[i].key@, before[j].key@));
                } else if j == at {
                    assert(text_lt(before[i].key@, k@));
                } else if i < at {
                    assert(text_lt(before[i].key@, before[j - 1].key@));
                } else if i == at {
                    assert(text_lt(k@, before[j - 1].key@));
                } else {
                    assert(text_lt(before[i - 1].key@, before[j - 1].key@));
                }
            }
            assert forall|i: int| 0 <= i < after.len() implies target.contains_key(
                (#[trigger] after[i]).key@,
            ) && target[after[i].key@] == after[i].value by {
                if i != at {
                    let b = if found || i < at {
                        i
                    } else {
                        i - 1
                    };
                    assert(before[b] == after[i]);
                    lemma_map_of_index(before, b);
                    if after[i].key@ == k@ {
                        lemma_keys_distinct(after, i, at as int);
                    }
                }
            }
            assert forall|x: Seq<char>| #[trigger] target.contains_key(x) implies exists|i: int|
                0 <= i < after.len() && (#[trigger] after[i]).key@ == x by {
                if x == k@ {
                    assert(after[at as int].key@ == x);
                } else {
                    lemma_map_of_domain(before, x);
                    let b = choose|b: int| 0 <= b < before.len() && (#[trigger] before[b]).key@ == x;
                    if found || b < at {
                        assert(after[b].key@ == x);
                    } else {
                        assert(after[b + 1].key@ == x);
                    }
                }
            }
            lemma_map_of_same(after, target);
        }
    }

    /// Removes a key; gives back its value.
    pub fn remove(&mut self, key: &str) -> (r: Option<V>)
        requires
            old(self).wf(),
        ensures
            final(self).wf(),
            final(self)@ == old(self)@.remove(key@),
            match r {
                Some(v) => old(self)@.contains_key(key@) && old(self)@[key@] == v,
                None => !old(self)@.contains_key(key@),
            },
    {
        let k = chars_of(key);
        let (at, found) = self.locate(k.as_slice());
        let ghost before = self.entries@;
        let ghost m = self@;
        if !found {
            proof {
                assert(m.remove(k@) =~= m);
            }
            return None;
        }
        proof {
            lemma_map_of_index(before, at as int);
        }
        let entry = self.entries.remove(at);
        proof {
            let after = self.entries@;
            let target = m.remove(k@);
            assert forall|i: int, j: int|
                #![trigger after[i], after[j]]
                0 <= i < j < after.len() implies text_lt(after[i].key@, after[j].key@) by {
                let a = if i < at {
                    i
                } else {
                    i + 1
                };
                let b = if j < at {
                    j
                } else {
                    j + 1
                };
                assert(text_lt(before[a].key@, before[b].key@));
            }
            assert forall|i: int| 0 <= i < after.len() implies target.contains_key(
                (#[trigger] after[i]).key@,
            ) && target[after[i].key@] == after[i].value by {
                let b = if i < at {
                    i
                } else {
                    i + 1
                };
                assert(before[b] == after[i]);
                lemma_map_of_index(before, b);
                if after[i].key@ == k@ {
                    lemma_keys_distinct(before, b, at as int);
                }
            }
            assert forall|x: Seq<char>| #[trigger] target.contains_key(x) implies exists|i: int|
                0 <= i < after.len() && (#[trigger] after[i]).key@ == x by {
                lemma_map_of_domain(before, x);
                let b = choose|b: int| 0 <= b < before.len() && (#[trigger] before[b]).key@ == x;
                if b < at {
                    assert(after[b].key@ == x);
                } else {
                    assert(after[b - 1].key@ == x);
                }
            }
            lemma_map_of_same(after, target);
        }
        Some(entry.value)
    }

    /// Takes over all entries of another map; they override entries of their keys.
    pub fn append(&mut self, newer: TextMap<V>)
        requires
            old(self).wf(),
            newer.wf(),
        ensures
            final(self).wf(),
            final(self)@ == old(self)@.union_prefer_right(newer@),
    {
        let ghost m = self@;
        let ghost all = newer.entries@;
        let mut rest = newer.entries;
        proof {
            assert(self@.union_prefer_right(map_of(rest@)) =~= m.union_prefer_right(map_of(all)));
        }
        while rest.len() > 0
            invariant
                self.wf(),
                keys_sorted(rest@),
                self@.union_prefer_right(map_of(rest@)) == m.union_prefer_right(map_of(all)),
            decreases rest@.len(),
        {
            let ghost s = rest@;
            let ghost before = self@;
            let last: usize = rest.len() - 1;
            let entry = rest.remove(last);
            let ghost e = entry;
            proof {
                assert(s.drop_last() =~= rest@);
                lemma_map_of_domain(rest@, e.key@);
                if map_of(rest@).contains_key(e.key@) {
                    let i = choose|i: int| 0 <= i < rest@.len() && (#[trigger] rest@[i]).key@ == e.key@;
                    assert(s[i].key@ == s[s.len() - 1].key@);
                    lemma_keys_distinct(s, i, s.len() - 1);
                }
                assert(keys_sorted(rest@)) by {
                    assert forall|a: int, b: int|
                        #![trigger rest@[a], rest@[b]]
                        0 <= a < b < rest@.len() implies text_lt(rest@[a].key@, rest@[b].key@) by {
                        assert(text_lt(s[a].key@, s[b].key@));
                    }
                }
            }
            self.insert(entry.key, entry.value);
            proof {
                assert(self@.union_prefer_right(map_of(rest@)) =~= before.union_prefer_right(
                    map_of(s),
                ));
            }
        }
        proof {
            assert(self@.union_prefer_right(map_of(rest@)) =~= self@);
        }
    }
}

} // verus!
