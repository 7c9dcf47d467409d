//! Maps and sets keyed by text.
//!
//! [`NameMap`] keeps its entries sorted by key, so that a lookup is a binary
//! search and a walk over the entries goes in the order of the keys.

use crate::text;
use crate::text_laws;
use crate::text::{place, Place};
use vstd::prelude::*;

verus! {

/// A map from text to `V`, with its entries in the order of their keys.
pub struct NameMap<V> {
    entries: Vec<(String, V)>,
}

/// The keys of a sequence of entries.
spec fn keys_of<V>(entries: Seq<(String, V)>) -> Seq<Seq<char>> {
    Seq::new(entries.len(), |i: int| entries[i].0@)
}

/// The values of a sequence of entries.
spec fn values_of<V>(entries: Seq<(String, V)>) -> Seq<V> {
    Seq::new(entries.len(), |i: int| entries[i].1)
}

/// `keys` are in strictly ascending order.
pub open spec fn ascending(keys: Seq<Seq<char>>) -> bool {
    forall|i: int, j: int| 0 <= i < j < keys.len() ==> #[trigger] text::lex_lt(keys[i], keys[j])
}

/// The map that pairs `keys[i]` with `values[i]`.
pub open spec fn paired<V>(keys: Seq<Seq<char>>, values: Seq<V>) -> Map<Seq<char>, V> {
    Map::new(|k: Seq<char>| keys.contains(k), |k: Seq<char>| values[keys.index_of(k)])
}

/// Ascending keys are pairwise different.
pub proof fn ascending_no_duplicates(keys: Seq<Seq<char>>)
    requires
        ascending(keys),
    ensures
        keys.no_duplicates(),
{
    assert forall|i: int, j: int| 0 <= i < keys.len() && 0 <= j < keys.len() && i != j implies keys[i]
        != keys[j] by {
        text::lex_lt_irreflexive(keys[i]);
        if i < j {
            assert(text::lex_lt(keys[i], keys[j]));
        } else {
            assert(text::lex_lt(keys[j], keys[i]));
        }
    }
}

/// Where keys are ascending, the pairing gives each key the value beside it.
proof fn paired_at<V>(keys: Seq<Seq<char>>, values: Seq<V>, i: int)
    requires
        ascending(keys),
        keys.len() == values.len(),
        0 <= i < keys.len(),
    ensures
        paired(keys, values).contains_key(keys[i]),
        paired(keys, values)[keys[i]] == values[i],
{
    ascending_no_duplicates(keys);
    assert(keys.contains(keys[i]));
    let j = keys.index_of(keys[i]);
    assert(keys[j] == keys[i] && 0 <= j < keys.len());
}

impl<V> NameMap<V> {
    /// The keys in order.
    pub closed spec fn keys(&self) -> Seq<Seq<char>> {
        keys_of(self.entries@)
    }

    /// The values, each at the place of its key.
    pub closed spec fn values(&self) -> Seq<V> {
        values_of(self.entries@)
    }

    /// The keys stand in strictly ascending order.
    #[verifier::type_invariant]
    pub closed spec fn valid(&self) -> bool {
        ascending(keys_of(self.entries@))
    }
}

impl<V> View for NameMap<V> {
    type V = Map<Seq<char>, V>;

    open spec fn view(&self) -> Map<Seq<char>, V> {
        paired(self.keys(), self.values())
    }
}

impl<V> NameMap<V> {
    /// The keys of a map are ascending, and each has the value at its place.
    pub proof fn layout(&self)
        requires
            self.valid(),
        ensures
            ascending(self.keys()),
            self.keys().no_duplicates(),
            self.keys().len() == self.values().len(),
            self@.dom() =~= self.keys().to_set(),
            forall|i: int|
                0 <= i < self.keys().len() ==> self@.contains_key(#[trigger] self.keys()[i]) && self@[self.keys()[i]]
                    == self.values()[i],
    {
        ascending_no_duplicates(self.keys());
        assert forall|i: int| 0 <= i < self.keys().len() implies self@.contains_key(
            #[trigger] self.keys()[i],
        ) && self@[self.keys()[i]] == self.values()[i] by {
            paired_at(self.keys(), self.values(), i);
        }
    }

    /// The empty map.
    pub fn new() -> (m: Self)
        ensures
            m@ == Map::<Seq<char>, V>::empty(),
            m.keys() == Seq::<Seq<char>>::empty(),
            m.valid(),
    {
        let m = NameMap { entries: Vec::new() };
        assert(m@ =~= Map::<Seq<char>, V>::empty());
        m
    }

    /// The number of entries.
    pub fn len(&self) -> (n: usize)
        ensures
            n == self.keys().len(),
            n == self@.dom().len(),
            self@.dom().finite(),
            self.valid(),
    {
        proof {
            use_type_invariant(self);
            self.layout();
            self.keys().unique_seq_to_set();
        }
        self.entries.len()
    }

    /// The place of `key` if it is there, else the place where it belongs.
    fn find(&self, key: &str) -> (r: (bool, usize))
        ensures
            r.1 <= self.keys().len(),
            r.0 ==> r.1 < self.keys().len() && self.keys()[r.1 as int] == key@,
            !r.0 ==> {
                &&& forall|i: int| 0 <= i < r.1 ==> text::lex_lt(#[trigger] self.keys()[i], key@)
                &&& forall|i: int|
                    r.1 <= i < self.keys().len() ==> text::lex_lt(key@, #[trigger] self.keys()[i])
            },
            r.0 == self@.contains_key(key@),
    {
        proof {
            use_type_invariant(self);
            self.layout();
        }
        let mut lo: usize = 0;
        let mut hi: usize = self.entries.len();
        while lo < hi
            invariant
                lo <= hi <= self.entries@.len(),
                ascending(self.keys()),
                forall|i: int| 0 <= i < lo ==> text::lex_lt(#[trigger] self.keys()[i], key@),
                forall|i: int| hi <= i < self.keys().len() ==> text::lex_lt(key@, #[trigger] self.keys()[i]),
            decreases hi - lo,
        {
            let mid: usize = lo + (hi - lo) / 2;
            assert(self.keys()[mid as int] == self.entries@[mid as int].0@);
            match place(self.entries[mid].0.as_str(), key) {
                Place::Same => {
                    assert(self.keys().contains(key@));
                    return (true, mid);
                },
                Place::Before => {
                    proof {
                        assert forall|i: int| 0 <= i < mid + 1 implies text::lex_lt(
                            #[trigger] self.keys()[i],
                            key@,
                        ) by {
                            if i < mid {
                                assert(text::lex_lt(self.keys()[i], self.keys()[mid as int]));
                                text::lex_lt_transitive(self.keys()[i], self.keys()[mid as int], key@);
                            }
                        }
                    }
                    lo = mid + 1;
                },
                Place::After => {
                    proof {
                        assert forall|i: int| mid <= i < self.keys().len() implies text::lex_lt(
                            key@,
                            #[trigger] self.keys()[i],
                        ) by {
                            if mid < i {
                                assert(text::lex_lt(self.keys()[mid as int], self.keys()[i]));
                                text::lex_lt_transitive(key@, self.keys()[mid as int], self.keys()[i]);
                            }
                        }
                    }
                    hi = mid;
                },
            }
        }
        proof {
            if self.keys().contains(key@) {
                let i = self.keys().index_of(key@);
                text::lex_lt_irreflexive(key@);
                assert(self.keys()[i] == key@);
            }
        }
        (false, lo)
    }

    /// Whether `key` has an entry.
    pub fn contains(&self, key: &str) -> (r: bool)
        ensures
            r == self@.contains_key(key@),
    {
        self.find(key).0
    }

    /// The value under `key`.
    pub fn get(&self, key: &str) -> (r: Option<&V>)
        ensures
            match r {
                Some(v) => self@.contains_key(key@) && *v == self@[key@],
                None => !self@.contains_key(key@),
            },
    {
        let (found, at) = self.find(key);
        if found {
            proof {
                use_type_invariant(self);
                self.layout();
                assert(self.values()[at as int] == self.entries@[at as int].1);
            }
            Some(&self.entries[at].1)
        } else {
            None
        }
    }

    /// The key at place `i`.
    pub fn key_at(&self, i: usize) -> (k: &String)
        requires
            i < self.keys().len(),
        ensures
            k@ == self.keys()[i as int],
            self@.contains_key(k@),
    {
        proof {
            use_type_invariant(self);
            self.layout();
        }
        &self.entries[i].0
    }

    /// The value at place `i`.
    pub fn value_at(&self, i: usize) -> (v: &V)
        requires
            i < self.keys().len(),
        ensures
            *v == self.values()[i as int],
            *v == self@[self.keys()[i as int]],
    {
        proof {
            use_type_invariant(self);
            self.layout();
        }
        &self.entries[i].1
    }

    /// Puts `value` under `key`, in place of what stood there.
    pub fn insert(&mut self, key: String, value: V)
        ensures
            final(self)@ == old(self)@.insert(key@, value),
    {
        let (found, at) = self.find(key.as_str());
        proof {
            use_type_invariant(&*self);
            self.layout();
        }
        let ghost before = *self;
        let ghost keys = self.keys();
        let ghost values = self.values();
        let mut entries: Vec<(String, V)> = Vec::new();
        std::mem::swap(&mut entries, &mut self.entries);
        if found {
            let ghost sealed = entries@;
            entries.set(at, (key, value));
            proof {
                assert(keys_of(entries@) =~= keys);
                assert(values_of(entries@) =~= values.update(at as int, value));
            }
            self.entries = entries;
            proof {
                assert(self.valid());
                self.layout();
                assert(self.keys() == keys);
                assert(self@ =~= before@.insert(key@, value)) by {
                    assert forall|k: Seq<char>| self@.contains_key(k) implies self@[k]
                        == before@.insert(key@, value)[k] by {
                        let i = keys.index_of(k);
                        assert(self.keys()[i] == k);
                        if i == at {
                        } else {
                            assert(keys[i] != keys[at as int]);
                        }
                    }
                    assert forall|k: Seq<char>| before@.insert(key@, value).contains_key(
                        k,
                    ) implies self@.contains_key(k) by {}
                }
            }
        } else {
            entries.insert(at, (key, value));
            proof {
                let ks = keys_of(entries@);
                assert(ks =~= keys.insert(at as int, key@));
                assert(values_of(entries@) =~= values.insert(at as int, value));
                assert forall|i: int, j: int| 0 <= i < j < ks.len() implies #[trigger] text::lex_lt(
                    ks[i],
                    ks[j],
                ) by {
                    let a = if i < at { i } else { i - 1 };
                    let b = if j < at { j } else { j - 1 };
                    if i != at && j != at {
                        assert(text::lex_lt(keys[a], keys[b]));
                    } else if i == at {
                        assert(text::lex_lt(key@, keys[b]));
                    } else {
                        assert(text::lex_lt(keys[a], key@));
                    }
                }
            }
            self.entries = entries;
            proof {
                assert(self.valid());
                self.layout();
                let ks = self.keys();
                assert(ks =~= keys.insert(at as int, key@));
                assert(self.values() =~= values.insert(at as int, value));
                assert(ks[at as int] == key@);
                assert forall|k: Seq<char>| self@.contains_key(k) implies before@.insert(
                    key@,
                    value,
                ).contains_key(k) && self@[k] == before@.insert(key@, value)[k] by {
                    let i = ks.index_of(k);
                    assert(ks[i] == k);
                    if i == at {
                    } else {
                        let a = if i < at { i } else { i - 1 };
                        assert(keys[a] == k);
                        assert(before@.contains_key(keys[a]));
                        assert(ks[i] != ks[at as int]);
                        assert(self.values()[i] == values[a]);
                    }
                }
                assert forall|k: Seq<char>| before@.insert(key@, value).contains_key(
                    k,
                ) implies self@.contains_key(k) by {
                    if k == key@ {
                    } else {
                        let a = keys.index_of(k);
                        assert(keys[a] == k);
                        let i = if a < at { a } else { a + 1 };
                        assert(ks[i] == k);
                    }
                }
                assert(self@ =~= before@.insert(key@, value));
            }
        }
    }

    /// Takes the entry at place `i` out.
    pub fn remove_at(&mut self, i: usize) -> (v: V)
        requires
            i < old(self).keys().len(),
        ensures
            v == old(self).values()[i as int],
            v == old(self)@[old(self).keys()[i as int]],
            final(self).keys() == old(self).keys().remove(i as int),
            final(self).values() == old(self).values().remove(i as int),
            final(self)@ == old(self)@.remove(old(self).keys()[i as int]),
    {
        proof {
            use_type_invariant(&*self);
            self.layout();
        }
        let ghost before = *self;
        let ghost keys = self.keys();
        let ghost values = self.values();
        let mut entries: Vec<(String, V)> = Vec::new();
        std::mem::swap(&mut entries, &mut self.entries);
        let (_key, v) = entries.remove(i);
        proof {
            let ks = keys_of(entries@);
            assert(ks =~= keys.remove(i as int));
            assert(values_of(entries@) =~= values.remove(i as int));
            assert forall|a: int, b: int| 0 <= a < b < ks.len() implies #[trigger] text::lex_lt(
                ks[a],
                ks[b],
            ) by {
                let x = if a < i { a } else { a + 1 };
                let y = if b < i { b } else { b + 1 };
                assert(text::lex_lt(keys[x], keys[y]));
            }
        }
        self.entries = entries;
        proof {
            self.layout();
            let ks = self.keys();
            assert(ks == keys.remove(i as int));
            let gone = keys[i as int];
            assert forall|k: Seq<char>| self@.contains_key(k) implies before@.remove(
                gone,
            ).contains_key(k) && self@[k] == before@.remove(gone)[k] by {
                let a = ks.index_of(k);
                assert(ks[a] == k);
                let x = if a < i { a } else { a + 1 };
                assert(keys[x] == k);
                assert(keys[x] != keys[i as int]);
                assert(before@.contains_key(keys[x]));
            }
            assert forall|k: Seq<char>| before@.remove(gone).contains_key(k) implies self@.contains_key(
                k,
            ) by {
                let x = keys.index_of(k);
                assert(keys[x] == k);
                let a = if x < i { x } else { x - 1 };
                assert(ks[a] == k);
            }
            assert(self@ =~= before@.remove(gone));
        }
        v
    }

    /// Takes the entry under `key` out.
    pub fn remove(&mut self, key: &str) -> (r: Option<V>)
        ensures
            final(self)@ == old(self)@.remove(key@),
            match r {
                Some(v) => old(self)@.contains_key(key@) && v == old(self)@[key@],
                None => !old(self)@.contains_key(key@),
            },
    {
        let (found, at) = self.find(key);
        if found {
            Some(self.remove_at(at))
        } else {
            assert(self@.remove(key@) =~= self@);
            None
        }
    }

    /// Puts `value` at place `i` and hands out what stood there.
    pub fn replace_at(&mut self, i: usize, value: V) -> (v: V)
        requires
            i < old(self).keys().len(),
        ensures
            v == old(self).values()[i as int],
            final(self).keys() == old(self).keys(),
            final(self).values() == old(self).values().update(i as int, value),
    {
        proof {
            use_type_invariant(&*self);
        }
        let ghost keys = self.keys();
        let ghost values = self.values();
        let mut entries: Vec<(String, V)> = Vec::new();
        std::mem::swap(&mut entries, &mut self.entries);
        let (key, v) = entries.remove(i);
        entries.insert(i, (key, value));
        proof {
            assert(keys_of(entries@) =~= keys);
            assert(values_of(entries@) =~= values.update(i as int, value));
        }
        self.entries = entries;
        v
    }

    /// Drops every entry.
    pub fn clear(&mut self)
        ensures
            final(self)@ == Map::<Seq<char>, V>::empty(),
            final(self).keys() == Seq::<Seq<char>>::empty(),
    {
        self.entries = Vec::new();
        assert(self@ =~= Map::<Seq<char>, V>::empty());
    }

    /// Drops every entry whose key is not in `keep`.
    pub fn retain_named<W>(&mut self, keep: &NameMap<W>)
        ensures
            final(self)@ == old(self)@.restrict(keep@.dom()),
    {
        proof {
            use_type_invariant(&*self);
            self.layout();
        }
        let ghost before = *self;
        let mut i: usize = self.entries.len();
        while i > 0
            invariant
                i <= self.keys().len(),
                i <= before.keys().len(),
                before.valid(),
                forall|j: int| 0 <= j < i ==> #[trigger] self.keys()[j] == before.keys()[j],
                forall|j: int|
                    i <= j < self.keys().len() ==> keep@.contains_key(#[trigger] self.keys()[j]),
                forall|k: Seq<char>| #[trigger]
                    self@.contains_key(k) ==> before@.contains_key(k) && self@[k] == before@[k],
                forall|k: Seq<char>|
                    before@.contains_key(k) && keep@.contains_key(k) ==> #[trigger] self@.contains_key(k),
            decreases i,
        {
            i -= 1;
            let ghost here = *self;
            if !keep.contains(self.key_at(i).as_str()) {
                self.remove_at(i);
                proof {
                    assert forall|j: int| i <= j < self.keys().len() implies keep@.contains_key(
                        #[trigger] self.keys()[j],
                    ) by {
                        assert(self.keys()[j] == here.keys()[j + 1]);
                    }
                }
            }
        }
        proof {
            use_type_invariant(&*self);
            self.layout();
            assert forall|k: Seq<char>| self@.contains_key(k) implies keep@.contains_key(k) by {
                let j = self.keys().index_of(k);
                assert(self.keys()[j] == k);
            }
            assert(self@ =~= before@.restrict(keep@.dom()));
        }
    }

    /// The keys in order.
    pub fn key_list(&self) -> (v: Vec<String>)
        ensures
            text::texts(v@) == self.keys(),
            ascending(text::texts(v@)),
            text::texts(v@).no_duplicates(),
            text::texts(v@).to_set() == self@.dom(),
    {
        proof {
            use_type_invariant(self);
            self.layout();
        }
        let mut v: Vec<String> = Vec::new();
        let mut i: usize = 0;
        while i < self.entries.len()
            invariant
                i <= self.entries@.len(),
                v@.len() == i,
                forall|j: int| 0 <= j < i ==> #[trigger] v@[j]@ == self.keys()[j],
            decreases self.entries@.len() - i,
        {
            assert(self.keys()[i as int] == self.entries@[i as int].0@);
            v.push(self.entries[i].0.clone());
            i += 1;
        }
        assert(text::texts(v@) =~= self.keys());
        v
    }
}

/// Two names are in ascending order exactly if, after what they have in common,
/// the first one has ended or goes on with the smaller character.
pub proof fn ascending_goes_by_the_first_difference(
    p: Seq<char>,
    x: char,
    y: char,
    a: Seq<char>,
    b: Seq<char>,
)
    requires
        x != y,
    ensures
        ascending(seq![p + seq![x] + a, p + seq![y] + b]) <==> (x as u32) < (y as u32),
        ascending(seq![p, p + seq![x] + a]),
        !ascending(seq![p + seq![x] + a, p]),
        !ascending(seq![p, p]),
{
    text_laws::first_difference_decides(p, x, y, a, b);
    text::lex_lt_irreflexive(p);
    let one = seq![p + seq![x] + a, p + seq![y] + b];
    let two = seq![p + seq![x] + a, p];
    let same = seq![p, p];
    assert(ascending(one) <==> text::lex_lt(one[0], one[1]));
    assert(ascending(two) <==> text::lex_lt(two[0], two[1]));
    assert(ascending(same) <==> text::lex_lt(same[0], same[1]));
}

} // verus!
