//! A map from texts to values that keeps its keys in order.

use crate::text::{chars_of, copy_of, same_text};
use vstd::prelude::*;

verus! {

/// `a` comes before `b`: at the first place where they differ `a` has the
/// smaller character, or `a` is the beginning of `b`.
pub open spec fn text_less(a: Seq<char>, b: Seq<char>) -> bool
    decreases a.len(),
{
    if b.len() == 0 {
        false
    } else if a.len() == 0 {
        true
    } else if a[0] != b[0] {
        (a[0] as int) < (b[0] as int)
    } else {
        text_less(a.drop_first(), b.drop_first())
    }
}

/// No text comes before itself, and of two texts at most one comes before the
/// other.
pub proof fn lemma_less_one_way(a: Seq<char>, b: Seq<char>)
    ensures
        text_less(a, b) ==> !text_less(b, a) && a != b,
    decreases a.len(),
{
    if a.len() > 0 && b.len() > 0 && a[0] == b[0] {
        lemma_less_one_way(a.drop_first(), b.drop_first());
    }
}

/// Of two different texts one comes before the other.
pub proof fn lemma_less_total(a: Seq<char>, b: Seq<char>)
    ensures
        text_less(a, b) || text_less(b, a) || a == b,
    decreases a.len(),
{
    if a.len() > 0 && b.len() > 0 {
        if a[0] == b[0] {
            lemma_less_total(a.drop_first(), b.drop_first());
            if a.drop_first() == b.drop_first() {
                assert(a =~= seq![a[0]] + a.drop_first());
                assert(b =~= seq![b[0]] + b.drop_first());
            }
        }
    } else if a.len() == 0 && b.len() == 0 {
        assert(a =~= b);
    }
}

/// What comes before something that comes before a third, comes before it.
pub proof fn lemma_less_transitive(a: Seq<char>, b: Seq<char>, c: Seq<char>)
    requires
        text_less(a, b),
        text_less(b, c),
    ensures
        text_less(a, c),
    decreases a.len(),
{
    if a.len() > 0 && a[0] == b[0] && b[0] == c[0] {
        lemma_less_transitive(a.drop_first(), b.drop_first(), c.drop_first());
    }
}

/// Whether `a` comes before `b`.
pub fn less_text(a: &str, b: &str) -> (less: bool)
    ensures
        less == text_less(a@, b@),
{
    let x = chars_of(a);
    let y = chars_of(b);
    let mut i: usize = 0;
    assert(x@.skip(0) =~= x@);
    assert(y@.skip(0) =~= y@);
    while i < x.len() && i < y.len()
        invariant
            x@ == a@,
            y@ == b@,
            i <= x.len(),
            i <= y.len(),
            text_less(x@, y@) == text_less(x@.skip(i as int), y@.skip(i as int)),
        decreases x.len() - i,
    {
        assert(x@.skip(i as int).drop_first() =~= x@.skip(i + 1));
        assert(y@.skip(i as int).drop_first() =~= y@.skip(i + 1));
        if x[i] != y[i] {
            return x[i] < y[i];
        }
        i += 1;
    }
    i < y.len()
}

/// The keys are in order, and none comes twice.
pub open spec fn in_order(keys: Seq<Seq<char>>) -> bool {
    forall|i: int, j: int| 0 <= i < j < keys.len() ==> text_less(#[trigger] keys[i], #[trigger] keys[j])
}

/// A map from texts to values. Its view is that map.
#[derive(Debug)]
pub struct TextMap<V> {
    keys: Vec<String>,
    values: Vec<V>,
}

impl<V> TextMap<V> {
    /// The keys, in order.
    pub closed spec fn spec_keys(self) -> Seq<Seq<char>> {
        self.keys@.map_values(|k: String| k@)
    }

    /// The values, in the order of their keys.
    pub closed spec fn spec_values(self) -> Seq<V> {
        self.values@
    }

    /// The keys are in order, and each has a value.
    pub closed spec fn wf(self) -> bool {
        self.keys@.len() == self.values@.len() && in_order(self.spec_keys())
    }
}

impl<V> View for TextMap<V> {
    type V = Map<Seq<char>, V>;

    closed spec fn view(&self) -> Map<Seq<char>, V> {
        Map::new(
            |k: Seq<char>| self.spec_keys().contains(k),
            |k: Seq<char>| self.values@[self.spec_keys().index_of(k)],
        )
    }
}

/// In order, a key stands at one place only.
proof fn lemma_index(keys: Seq<Seq<char>>, i: int)
    requires
        in_order(keys),
        0 <= i < keys.len(),
    ensures
        keys.contains(keys[i]),
        keys.index_of(keys[i]) == i,
{
    assert(keys[i] == keys[i]);
    let j = keys.index_of(keys[i]);
    assert(keys.contains(keys[i]));
    assert(0 <= j < keys.len() && keys[j] == keys[i]);
    if j < i {
        lemma_less_one_way(keys[j], keys[i]);
    } else if i < j {
        lemma_less_one_way(keys[i], keys[j]);
    }
}

impl<V> TextMap<V> {
    /// What the keys, the values and the map say of one another.
    pub proof fn lemma_view(self)
        requires
            self.wf(),
        ensures
            in_order(self.spec_keys()),
            self.spec_keys().len() == self.spec_values().len(),
            forall|k: Seq<char>| #[trigger] self@.contains_key(k) <==> self.spec_keys().contains(k),
            forall|i: int|
                0 <= i < self.spec_keys().len() ==> self@.contains_key(self.spec_keys()[i])
                    && self@[#[trigger] self.spec_keys()[i]] == self.spec_values()[i],
    {
        assert forall|i: int| 0 <= i < self.spec_keys().len() implies self@.contains_key(
            self.spec_keys()[i],
        ) && self@[#[trigger] self.spec_keys()[i]] == self.spec_values()[i] by {
            lemma_index(self.spec_keys(), i);
        }
    }

    /// The map has as many keys as the list of its keys is long.
    pub proof fn lemma_len(self)
        requires
            self.wf(),
        ensures
            self@.dom().finite(),
            self@.dom().len() == self.spec_keys().len(),
    {
        let keys = self.spec_keys();
        assert(keys.no_duplicates()) by {
            assert forall|i: int, j: int|
                0 <= i < keys.len() && 0 <= j < keys.len() && i != j implies keys[i] != keys[j] by {
                if i < j {
                    lemma_less_one_way(keys[i], keys[j]);
                } else {
                    lemma_less_one_way(keys[j], keys[i]);
                }
            }
        }
        keys.unique_seq_to_set();
        assert(self@.dom() =~= keys.to_set());
    }

    /// An empty map.
    pub fn new() -> (map: TextMap<V>)
        ensures
            map.wf(),
            map@ == Map::<Seq<char>, V>::empty(),
            map.spec_keys().len() == 0,
    {
        let map = TextMap { keys: Vec::new(), values: Vec::new() };
        assert(map@ =~= Map::<Seq<char>, V>::empty());
        map
    }

    /// How many keys there are.
    pub fn len(&self) -> (len: usize)
        ensures
            len == self.spec_keys().len(),
    {
        self.keys.len()
    }

    /// The key at a place in the order.
    pub fn key_at(&self, i: usize) -> (key: &str)
        requires
            i < self.spec_keys().len(),
        ensures
            key@ == self.spec_keys()[i as int],
    {
        self.keys[i].as_str()
    }

    /// The value at a place in the order.
    pub fn value_at(&self, i: usize) -> (value: &V)
        requires
            self.wf(),
            i < self.spec_keys().len(),
        ensures
            *value == self.spec_values()[i as int],
            self@.contains_key(self.spec_keys()[i as int]),
            *value == self@[self.spec_keys()[i as int]],
    {
        proof {
            self.lemma_view();
        }
        &self.values[i]
    }

    /// The place where `key` stands, or where it would stand.
    fn place(&self, key: &str) -> (at: usize)
        requires
            self.wf(),
        ensures
            at <= self.keys@.len(),
            forall|j: int| 0 <= j < at ==> text_less(#[trigger] self.spec_keys()[j], key@),
            forall|j: int| at <= j < self.keys@.len() ==> !text_less(
                #[trigger] self.spec_keys()[j],
                key@,
            ),
    {
        let mut i: usize = 0;
        while i < self.keys.len() && less_text(self.keys[i].as_str(), key)
            invariant
                i <= self.keys@.len(),
                forall|j: int| 0 <= j < i ==> text_less(#[trigger] self.spec_keys()[j], key@),
            ensures
                i <= self.keys@.len(),
                forall|j: int| 0 <= j < i ==> text_less(#[trigger] self.spec_keys()[j], key@),
                i < self.keys@.len() ==> !text_less(self.spec_keys()[i as int], key@),
            decreases self.keys.len() - i,
        {
            i += 1;
        }
        assert forall|j: int| i <= j < self.keys@.len() implies !text_less(
            #[trigger] self.spec_keys()[j],
            key@,
        ) by {
            if j > i && text_less(self.spec_keys()[j], key@) {
                lemma_less_transitive(self.spec_keys()[i as int], self.spec_keys()[j], key@);
            }
        }
        i
    }

    /// The place of `key`, where it is in the map.
    pub fn find(&self, key: &str) -> (at: Option<usize>)
        requires
            self.wf(),
        ensures
            match at {
                Some(i) => i < self.spec_keys().len() && self.spec_keys()[i as int] == key@
                    && self@.contains_key(key@) && self@[key@] == self.spec_values()[i as int],
                None => !self@.contains_key(key@),
            },
    {
        proof {
            self.lemma_view();
        }
        let i = self.place(key);
        if i < self.keys.len() && same_text(self.keys[i].as_str(), key) {
            assert(self.spec_keys()[i as int] == key@);
            Some(i)
        } else {
            assert(!self.spec_keys().contains(key@)) by {
                if self.spec_keys().contains(key@) {
                    let j = self.spec_keys().index_of(key@);
                    assert(self.spec_keys()[j] == key@);
                    lemma_less_one_way(key@, key@);
                    assert(j >= i);
                    if j > i {
                        assert(text_less(self.spec_keys()[i as int], self.spec_keys()[j]));
                    }
                    assert(self.spec_keys()[i as int] == self.keys@[i as int]@);
                }
            }
            None
        }
    }

    /// Whether `key` is in the map.
    pub fn contains(&self, key: &str) -> (found: bool)
        requires
            self.wf(),
        ensures
            found == self@.contains_key(key@),
    {
        self.find(key).is_some()
    }

    /// The value of `key`.
    pub fn get(&self, key: &str) -> (value: Option<&V>)
        requires
            self.wf(),
        ensures
            match value {
                Some(v) => self@.contains_key(key@) && self@[key@] == *v,
                None => !self@.contains_key(key@),
            },
    {
        match self.find(key) {
            Some(i) => Some(&self.values[i]),
            None => None,
        }
    }

    /// Gives `key` a value, in place of the one it had.
    pub fn insert(&mut self, key: &str, value: V)
        requires
            old(self).wf(),
        ensures
            final(self).wf(),
            final(self)@ == old(self)@.insert(key@, value),
            old(self)@.contains_key(key@) ==> final(self).spec_keys() == old(self).spec_keys(),
            !old(self)@.contains_key(key@) ==> final(self).spec_keys().len() == old(
                self,
            ).spec_keys().len() + 1,
    {
        proof {
            old(self).lemma_view();
        }
        match self.find(key) {
            Some(i) => {
                self.values.set(i, value);
                assert(self.spec_keys() == old(self).spec_keys());
                assert(self@ =~= old(self)@.insert(key@, value)) by {
                    lemma_index(self.spec_keys(), i as int);
                    assert forall|k: Seq<char>| #[trigger] self@.contains_key(k) && k
                        != key@ implies self@[k] == old(self)@[k] by {
                        let j = self.spec_keys().index_of(k);
                        assert(self.spec_keys()[j] == k);
                    }
                }
            },
            None => {
                let i = self.place(key);
                let ghost before = self.spec_keys();
                let ghost values_before = self.values@;
                self.keys.insert(i, copy_of(key));
                self.values.insert(i, value);
                let ghost after = self.spec_keys();
                proof {
                    assert(after =~= before.insert(i as int, key@));
                    assert forall|a: int, b: int| 0 <= a < b < after.len() implies text_less(
                        #[trigger] after[a],
                        #[trigger] after[b],
                    ) by {
                        let a0 = if a < i {
                            a
                        } else {
                            a - 1
                        };
                        let b0 = if b < i {
                            b
                        } else {
                            b - 1
                        };
                        if a == i {
                            assert(before[b0] == after[b]);
                            lemma_less_total(key@, before[b0]);
                            if before[b0] == key@ {
                                assert(before.contains(key@));
                            }
                        } else if b == i {
                            assert(before[a0] == after[a]);
                        } else {
                            assert(before[a0] == after[a]);
                            assert(before[b0] == after[b]);
                        }
                    }
                    assert(self.wf());
                    assert(self@ =~= old(self)@.insert(key@, value)) by {
                        assert forall|k: Seq<char>| self@.contains_key(k) <==> old(
                            self,
                        )@.insert(key@, value).contains_key(k) by {
                            if before.contains(k) {
                                let j = before.index_of(k);
                                assert(before[j] == k);
                                assert(after[if j < i { j } else { j + 1 }] == k);
                            }
                            if after.contains(k) && k != key@ {
                                let j = after.index_of(k);
                                assert(after[j] == k);
                                assert(before[if j < i { j } else { j - 1 }] == k);
                            }
                            assert(after[i as int] == key@);
                        }
                        assert forall|k: Seq<char>| #[trigger] self@.contains_key(k) implies self@[k]
                            == old(self)@.insert(key@, value)[k] by {
                            if k == key@ {
                                lemma_index(after, i as int);
                            } else {
                                let j = after.index_of(k);
                                assert(after[j] == k);
                                let j0 = if j < i {
                                    j
                                } else {
                                    j - 1
                                };
                                assert(before[j0] == k);
                                lemma_index(before, j0);
                                lemma_index(after, j);
                            }
                        }
                    }
                }
            },
        }
    }

    /// Takes out the key at a place in the order.
    pub fn remove_at(&mut self, i: usize) -> (value: V)
        requires
            old(self).wf(),
            i < old(self).spec_keys().len(),
        ensures
            final(self).wf(),
            final(self)@ == old(self)@.remove(old(self).spec_keys()[i as int]),
            final(self).spec_keys() == old(self).spec_keys().remove(i as int),
            final(self).spec_values() == old(self).spec_values().remove(i as int),
            value == old(self).spec_values()[i as int],
            value == old(self)@[old(self).spec_keys()[i as int]],
    {
        let ghost before = self.spec_keys();
        let ghost key = before[i as int];
        let gone = self.keys.remove(i);
        let value = self.values.remove(i);
        let ghost after = self.spec_keys();
        proof {
            assert(after =~= before.remove(i as int));
            assert forall|a: int, b: int| 0 <= a < b < after.len() implies text_less(
                #[trigger] after[a],
                #[trigger] after[b],
            ) by {
                assert(after[a] == before[if a < i { a } else { a + 1 }]);
                assert(after[b] == before[if b < i { b } else { b + 1 }]);
            }
            assert(self.wf());
            lemma_index(before, i as int);
            assert(self@ =~= old(self)@.remove(key)) by {
                assert forall|k: Seq<char>| self@.contains_key(k) <==> old(self)@.remove(
                    key,
                ).contains_key(k) by {
                    if after.contains(k) {
                        let j = after.index_of(k);
                        assert(after[j] == k);
                        let j0 = if j < i {
                            j
                        } else {
                            j + 1
                        };
                        assert(before[j0] == k);
                        lemma_index(before, j0);
                    }
                    if before.contains(k) && k != key {
                        let j = before.index_of(k);
                        assert(before[j] == k);
                        assert(after[if j < i { j } else { j - 1 }] == k);
                    }
                }
                assert forall|k: Seq<char>| #[trigger] self@.contains_key(k) implies self@[k]
                    == old(self)@.remove(key)[k] by {
                    let j = after.index_of(k);
                    assert(after[j] == k);
                    let j0 = if j < i {
                        j
                    } else {
                        j + 1
                    };
                    assert(before[j0] == k);
                    lemma_index(before, j0);
                }
            }
        }
        value
    }

    /// Takes `key` out of the map.
    pub fn remove(&mut self, key: &str) -> (value: Option<V>)
        requires
            old(self).wf(),
        ensures
            final(self).wf(),
            final(self)@ == old(self)@.remove(key@),
            match value {
                Some(v) => old(self)@.contains_key(key@) && old(self)@[key@] == v
                    && final(self).spec_keys().len() + 1 == old(self).spec_keys().len(),
                None => !old(self)@.contains_key(key@) && final(self).spec_keys() == old(
                    self,
                ).spec_keys(),
            },
    {
        match self.find(key) {
            None => {
                assert(self@ =~= old(self)@.remove(key@));
                None
            },
            Some(i) => Some(self.remove_at(i)),
        }
    }

    /// Takes everything out of the map.
    pub fn clear(&mut self)
        ensures
            final(self).wf(),
            final(self)@ == Map::<Seq<char>, V>::empty(),
            final(self).spec_keys().len() == 0,
    {
        self.keys.clear();
        self.values.clear();
        assert(self@ =~= Map::<Seq<char>, V>::empty());
    }
}

} // verus!
