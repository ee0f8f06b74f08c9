//! A map from texts to values that keeps its keys in order.

use vstd::prelude::*;

use crate::text::{
    lemma_text_lt_asymmetric, lemma_text_lt_irreflexive, lemma_text_lt_total,
    lemma_text_lt_transitive, text_before, text_lt, text_same,
};

verus! {

/// Whether each key comes strictly before all that follow it.
pub open spec fn strictly_ordered(keys: Seq<Seq<char>>) -> bool {
    forall|i: int, j: int|
        0 <= i < j < keys.len() ==> text_lt(#[trigger] keys[i], #[trigger] keys[j])
}

/// Whether `keys` holds the members of `set`, each once, in order.
pub open spec fn lists_in_order(keys: Seq<Seq<char>>, set: Set<Seq<char>>) -> bool {
    &&& strictly_ordered(keys)
    &&& forall|k: Seq<char>| keys.contains(k) <==> set.contains(k)
}

/// The members of `set` in order. There is one such sequence for every set
/// that a map of this module holds as its domain.
pub open spec fn ordered_keys(set: Set<Seq<char>>) -> Seq<Seq<char>> {
    choose|keys: Seq<Seq<char>>| lists_in_order(keys, set)
}

/// Two ordered sequences with the same members are the same sequence.
pub proof fn lemma_order_is_unique(a: Seq<Seq<char>>, b: Seq<Seq<char>>)
    requires
        strictly_ordered(a),
        strictly_ordered(b),
        forall|k: Seq<char>| a.contains(k) <==> b.contains(k),
    ensures
        a == b,
    decreases a.len(),
{
    if a.len() == 0 {
        if b.len() > 0 {
            assert(b.contains(b[0]));
        }
        assert(a =~= b);
    } else {
        assert(a.contains(a[0]));
        let j = choose|j: int| 0 <= j < b.len() && b[j] == a[0];
        assert(b.contains(b[0]));
        let i = choose|i: int| 0 <= i < a.len() && a[i] == b[0];
        if a[0] != b[0] {
            assert(text_lt(b[0], b[j]));
            assert(text_lt(a[0], a[i]));
            lemma_text_lt_asymmetric(a[0], b[0]);
        }
        let ta = a.drop_first();
        let tb = b.drop_first();
        assert forall|k: Seq<char>| ta.contains(k) <==> tb.contains(k) by {
            if ta.contains(k) {
                let m = choose|m: int| 0 <= m < ta.len() && ta[m] == k;
                assert(a[m + 1] == k);
                assert(text_lt(a[0], a[m + 1]));
                lemma_text_lt_irreflexive(k);
                assert(a.contains(k));
                let n = choose|n: int| 0 <= n < b.len() && b[n] == k;
                assert(tb[n - 1] == k);
            }
            if tb.contains(k) {
                let m = choose|m: int| 0 <= m < tb.len() && tb[m] == k;
                assert(b[m + 1] == k);
                assert(text_lt(b[0], b[m + 1]));
                lemma_text_lt_irreflexive(k);
                assert(b.contains(k));
                let n = choose|n: int| 0 <= n < a.len() && a[n] == k;
                assert(ta[n - 1] == k);
            }
        }
        assert forall|x: int, y: int| 0 <= x < y < ta.len() implies text_lt(
            #[trigger] ta[x],
            #[trigger] ta[y],
        ) by {
            assert(text_lt(a[x + 1], a[y + 1]));
        }
        assert forall|x: int, y: int| 0 <= x < y < tb.len() implies text_lt(
            #[trigger] tb[x],
            #[trigger] tb[y],
        ) by {
            assert(text_lt(b[x + 1], b[y + 1]));
        }
        lemma_order_is_unique(ta, tb);
        assert(a =~= seq![a[0]] + ta);
        assert(b =~= seq![b[0]] + tb);
    }
}

/// A sequence that lists a set in order is the set's `ordered_keys`.
pub proof fn lemma_ordered_keys(keys: Seq<Seq<char>>, set: Set<Seq<char>>)
    requires
        lists_in_order(keys, set),
    ensures
        ordered_keys(set) == keys,
{
    let chosen = ordered_keys(set);
    assert(lists_in_order(chosen, set));
    lemma_order_is_unique(chosen, keys);
}

/// An ordered sequence holds no key twice.
pub proof fn lemma_ordered_is_distinct(keys: Seq<Seq<char>>)
    requires
        strictly_ordered(keys),
    ensures
        keys.no_duplicates(),
{
    assert forall|i: int, j: int| 0 <= i < keys.len() && 0 <= j < keys.len() && i != j implies keys[i]
        != keys[j] by {
        if i < j {
            assert(text_lt(keys[i], keys[j]));
        } else {
            assert(text_lt(keys[j], keys[i]));
        }
        lemma_text_lt_irreflexive(keys[i]);
    }
}

spec fn map_of<T>(keys: Seq<Seq<char>>, values: Seq<T>) -> Map<Seq<char>, T> {
    Map::new(|k: Seq<char>| keys.contains(k), |k: Seq<char>| values[keys.index_of(k)])
}

proof fn lemma_map_of<T>(keys: Seq<Seq<char>>, values: Seq<T>)
    requires
        strictly_ordered(keys),
        keys.len() == values.len(),
    ensures
        forall|i: int|
            0 <= i < keys.len() ==> map_of(keys, values).contains_key(#[trigger] keys[i])
                && map_of(keys, values)[keys[i]] == values[i],
        forall|k: Seq<char>| map_of(keys, values).contains_key(k) <==> keys.contains(k),
        ordered_keys(map_of(keys, values).dom()) == keys,
        map_of(keys, values).dom().finite(),
        map_of(keys, values).dom().len() == keys.len(),
{
    let map = map_of(keys, values);
    lemma_ordered_is_distinct(keys);
    assert forall|i: int| 0 <= i < keys.len() implies map.contains_key(#[trigger] keys[i])
        && map[keys[i]] == values[i] by {
        assert(keys.contains(keys[i]));
        let at = keys.index_of(keys[i]);
        assert(keys[at] == keys[i]);
    }
    lemma_ordered_keys(keys, map.dom());
    assert(map.dom() =~= keys.to_set());
    keys.unique_seq_to_set();
    vstd::seq_lib::seq_to_set_is_finite(keys);
}

proof fn lemma_map_of_insert<T>(
    keys: Seq<Seq<char>>,
    values: Seq<T>,
    at: int,
    key: Seq<char>,
    value: T,
)
    requires
        strictly_ordered(keys),
        keys.len() == values.len(),
        0 <= at <= keys.len(),
        forall|j: int| 0 <= j < at ==> text_lt(#[trigger] keys[j], key),
        at < keys.len() ==> text_lt(key, keys[at]),
    ensures
        strictly_ordered(keys.insert(at, key)),
        map_of(keys.insert(at, key), values.insert(at, value)) == map_of(keys, values).insert(
            key,
            value,
        ),
{
    let new_keys = keys.insert(at, key);
    let new_values = values.insert(at, value);
    assert forall|i: int, j: int| 0 <= i < j < new_keys.len() implies text_lt(
        #[trigger] new_keys[i],
        #[trigger] new_keys[j],
    ) by {
        if j < at {
            assert(text_lt(keys[i], keys[j]));
        } else if j == at {
            assert(text_lt(keys[i], key));
        } else if i < at {
            assert(text_lt(keys[i], key));
            if j - 1 > at {
                assert(text_lt(keys[at], keys[j - 1]));
                lemma_text_lt_transitive(key, keys[at], keys[j - 1]);
            }
            lemma_text_lt_transitive(keys[i], key, keys[j - 1]);
        } else if i == at {
            if j - 1 > at {
                assert(text_lt(keys[at], keys[j - 1]));
                lemma_text_lt_transitive(key, keys[at], keys[j - 1]);
            }
        } else {
            assert(text_lt(keys[i - 1], keys[j - 1]));
        }
    }
    lemma_map_of(keys, values);
    lemma_map_of(new_keys, new_values);
    let left = map_of(new_keys, new_values);
    let right = map_of(keys, values).insert(key, value);
    assert forall|k: Seq<char>| left.contains_key(k) <==> right.contains_key(k) by {
        if left.contains_key(k) {
            let i = choose|i: int| 0 <= i < new_keys.len() && new_keys[i] == k;
            if i < at {
                assert(keys[i] == k);
            } else if i > at {
                assert(keys[i - 1] == k);
            }
        }
        if right.contains_key(k) {
            if k == key {
                assert(new_keys[at] == k);
            } else {
                let i = choose|i: int| 0 <= i < keys.len() && keys[i] == k;
                if i < at {
                    assert(new_keys[i] == k);
                } else {
                    assert(new_keys[i + 1] == k);
                }
            }
        }
    }
    assert forall|k: Seq<char>| left.contains_key(k) implies left[k] == right[k] by {
        let i = choose|i: int| 0 <= i < new_keys.len() && new_keys[i] == k;
        assert(left[new_keys[i]] == new_values[i]);
        if i < at {
            assert(keys[i] == k);
            assert(text_lt(keys[i], key));
            lemma_text_lt_irreflexive(key);
        } else if i > at {
            assert(keys[i - 1] == k);
            assert(text_lt(new_keys[at], new_keys[i]));
            lemma_text_lt_irreflexive(key);
        }
    }
    assert(left =~= right);
}

proof fn lemma_map_of_remove<T>(keys: Seq<Seq<char>>, values: Seq<T>, at: int)
    requires
        strictly_ordered(keys),
        keys.len() == values.len(),
        0 <= at < keys.len(),
    ensures
        strictly_ordered(keys.remove(at)),
        map_of(keys.remove(at), values.remove(at)) == map_of(keys, values).remove(keys[at]),
{
    let new_keys = keys.remove(at);
    let new_values = values.remove(at);
    assert forall|i: int, j: int| 0 <= i < j < new_keys.len() implies text_lt(
        #[trigger] new_keys[i],
        #[trigger] new_keys[j],
    ) by {
        let x = if i < at { i } else { i + 1 };
        let y = if j < at { j } else { j + 1 };
        assert(text_lt(keys[x], keys[y]));
    }
    lemma_map_of(keys, values);
    lemma_map_of(new_keys, new_values);
    lemma_ordered_is_distinct(keys);
    let left = map_of(new_keys, new_values);
    let right = map_of(keys, values).remove(keys[at]);
    assert forall|k: Seq<char>| left.contains_key(k) <==> right.contains_key(k) by {
        if left.contains_key(k) {
            let i = choose|i: int| 0 <= i < new_keys.len() && new_keys[i] == k;
            let x = if i < at { i } else { i + 1 };
            assert(keys[x] == k);
        }
        if right.contains_key(k) {
            let i = choose|i: int| 0 <= i < keys.len() && keys[i] == k;
            if i < at {
                assert(new_keys[i] == k);
            } else {
                assert(new_keys[i - 1] == k);
            }
        }
    }
    assert forall|k: Seq<char>| left.contains_key(k) implies left[k] == right[k] by {
        let i = choose|i: int| 0 <= i < new_keys.len() && new_keys[i] == k;
        assert(left[new_keys[i]] == new_values[i]);
        let x = if i < at { i } else { i + 1 };
        assert(keys[x] == k);
    }
    assert(left =~= right);
}

spec fn slot_of(keys: Seq<Seq<char>>, key: Seq<char>) -> int
    decreases keys.len(),
{
    if keys.len() == 0 {
        0
    } else if text_lt(keys.last(), key) {
        keys.len() as int
    } else {
        slot_of(keys.drop_last(), key)
    }
}

proof fn lemma_slot_of(keys: Seq<Seq<char>>, key: Seq<char>)
    requires
        strictly_ordered(keys),
        !keys.contains(key),
    ensures
        0 <= slot_of(keys, key) <= keys.len(),
        forall|j: int| 0 <= j < slot_of(keys, key) ==> text_lt(#[trigger] keys[j], key),
        slot_of(keys, key) < keys.len() ==> text_lt(key, keys[slot_of(keys, key)]),
    decreases keys.len(),
{
    if keys.len() > 0 {
        let last = keys.last();
        if text_lt(last, key) {
            assert forall|j: int| 0 <= j < keys.len() implies text_lt(#[trigger] keys[j], key) by {
                if j < keys.len() - 1 {
                    assert(text_lt(keys[j], keys[keys.len() - 1]));
                    lemma_text_lt_transitive(keys[j], last, key);
                }
            }
        } else {
            let rest = keys.drop_last();
            assert forall|i: int, j: int| 0 <= i < j < rest.len() implies text_lt(
                #[trigger] rest[i],
                #[trigger] rest[j],
            ) by {
                assert(text_lt(keys[i], keys[j]));
            }
            if rest.contains(key) {
                let i = choose|i: int| 0 <= i < rest.len() && rest[i] == key;
                assert(keys[i] == key);
            }
            lemma_slot_of(rest, key);
            let at = slot_of(rest, key);
            assert forall|j: int| 0 <= j < at implies text_lt(#[trigger] keys[j], key) by {
                assert(rest[j] == keys[j]);
            }
            if at == rest.len() {
                assert(keys[keys.len() - 1] == last);
                lemma_text_lt_total(last, key);
            } else {
                assert(rest[at] == keys[at]);
            }
        }
    }
}

/// Every finite set of texts can be listed in order. With
/// `lemma_order_is_unique` this makes the listing a function of the set
/// alone: the order in which the members came into the set leaves no trace.
pub proof fn lemma_ordered_keys_exist(set: Set<Seq<char>>)
    requires
        set.finite(),
    ensures
        lists_in_order(ordered_keys(set), set),
    decreases set.len(),
{
    if set.len() == 0 {
        let none = Seq::<Seq<char>>::empty();
        assert(set =~= Set::<Seq<char>>::empty());
        assert(lists_in_order(none, set));
    } else {
        let member = set.choose();
        let rest = set.remove(member);
        lemma_ordered_keys_exist(rest);
        let keys = ordered_keys(rest);
        if keys.contains(member) {
            assert(rest.contains(member));
        }
        lemma_slot_of(keys, member);
        let at = slot_of(keys, member);
        lemma_map_of_insert(keys, keys, at, member, member);
        let all = keys.insert(at, member);
        assert forall|k: Seq<char>| all.contains(k) <==> set.contains(k) by {
            if all.contains(k) {
                let i = choose|i: int| 0 <= i < all.len() && all[i] == k;
                if i < at {
                    assert(keys[i] == k);
                    assert(keys.contains(k));
                } else if i > at {
                    assert(keys[i - 1] == k);
                    assert(keys.contains(k));
                }
            }
            if set.contains(k) {
                if k == member {
                    assert(all[at] == k);
                } else {
                    assert(rest.contains(k));
                    assert(keys.contains(k));
                    let i = choose|i: int| 0 <= i < keys.len() && keys[i] == k;
                    if i < at {
                        assert(all[i] == k);
                    } else {
                        assert(all[i + 1] == k);
                    }
                }
            }
        }
        assert(lists_in_order(all, set));
    }
}

#[derive(Debug)]
struct Slot<V> {
    key: String,
    value: V,
}

/// A map from texts to values. Its keys are kept in order, so that walking
/// it by position meets them in that order whatever the order of insertion.
#[derive(Debug)]
pub struct TextMap<V> {
    slots: Vec<Slot<V>>,
}

impl<V: View> View for TextMap<V> {
    type V = Map<Seq<char>, V::V>;

    closed spec fn view(&self) -> Map<Seq<char>, V::V> {
        map_of(self.key_seq(), self.value_seq())
    }
}

impl<V> TextMap<V> {
    closed spec fn key_seq(&self) -> Seq<Seq<char>> {
        Seq::new(self.slots@.len(), |i: int| self.slots@[i].key@)
    }

    #[verifier::type_invariant]
    closed spec fn wf(&self) -> bool {
        strictly_ordered(self.key_seq())
    }
}

impl<V: View> TextMap<V> {
    closed spec fn value_seq(&self) -> Seq<V::V> {
        Seq::new(self.slots@.len(), |i: int| self.slots@[i].value@)
    }

    /// A map that holds nothing.
    pub fn new() -> (r: Self)
        ensures
            r@ == Map::<Seq<char>, V::V>::empty(),
    {
        let r = TextMap { slots: Vec::new() };
        assert(r@ =~= Map::<Seq<char>, V::V>::empty());
        r
    }

    /// The number of keys.
    pub fn len(&self) -> (r: usize)
        ensures
            r == self@.dom().len(),
            r == ordered_keys(self@.dom()).len(),
            self@.dom().finite(),
            lists_in_order(ordered_keys(self@.dom()), self@.dom()),
    {
        proof {
            use_type_invariant(self);
            lemma_map_of(self.key_seq(), self.value_seq());
        }
        self.slots.len()
    }

    /// Whether the map holds nothing.
    pub fn is_empty(&self) -> (r: bool)
        ensures
            r == (self@.dom().len() == 0),
            r == (self@ == Map::<Seq<char>, V::V>::empty()),
            self@.dom().finite(),
    {
        proof {
            use_type_invariant(self);
            lemma_map_of(self.key_seq(), self.value_seq());
            if self.slots@.len() == 0 {
                assert(self@ =~= Map::<Seq<char>, V::V>::empty());
            } else {
                assert(self@.contains_key(self.key_seq()[0]));
            }
        }
        self.slots.len() == 0
    }

    fn locate(&self, key: &str) -> (r: Option<usize>)
        ensures
            match r {
                Some(i) => i < self.slots@.len() && self.key_seq()[i as int] == key@,
                None => !self.key_seq().contains(key@),
            },
    {
        let mut i: usize = 0;
        while i < self.slots.len()
            invariant
                i <= self.slots@.len(),
                forall|j: int| 0 <= j < i ==> self.key_seq()[j] != key@,
            decreases self.slots@.len() - i,
        {
            if text_same(self.slots[i].key.as_str(), key) {
                return Some(i);
            }
            i = i + 1;
        }
        None
    }

    fn lower_bound(&self, key: &str) -> (r: usize)
        ensures
            r <= self.slots@.len(),
            forall|j: int| 0 <= j < r ==> text_lt(#[trigger] self.key_seq()[j], key@),
            r < self.slots@.len() ==> !text_lt(self.key_seq()[r as int], key@),
    {
        let mut i: usize = 0;
        while i < self.slots.len() && text_before(self.slots[i].key.as_str(), key)
            invariant
                i <= self.slots@.len(),
                forall|j: int| 0 <= j < i ==> text_lt(#[trigger] self.key_seq()[j], key@),
            decreases self.slots@.len() - i,
        {
            i = i + 1;
        }
        i
    }

    /// Whether `key` is in the map.
    pub fn contains_key(&self, key: &str) -> (r: bool)
        ensures
            r == self@.contains_key(key@),
    {
        proof {
            use_type_invariant(self);
            lemma_map_of(self.key_seq(), self.value_seq());
        }
        self.locate(key).is_some()
    }

    /// The value under `key`, where there is one.
    pub fn get(&self, key: &str) -> (r: Option<&V>)
        ensures
            match r {
                Some(v) => self@.contains_key(key@) && v@ == self@[key@],
                None => !self@.contains_key(key@),
            },
    {
        proof {
            use_type_invariant(self);
            lemma_map_of(self.key_seq(), self.value_seq());
        }
        match self.locate(key) {
            Some(i) => Some(&self.slots[i].value),
            None => None,
        }
    }

    /// Puts `value` under `key` and hands back the value that was there.
    pub fn insert(&mut self, key: String, value: V) -> (r: Option<V>)
        ensures
            final(self)@ == old(self)@.insert(key@, value@),
            match r {
                Some(v) => old(self)@.contains_key(key@) && v@ == old(self)@[key@],
                None => !old(self)@.contains_key(key@),
            },
    {
        proof {
            use_type_invariant(&*self);
            lemma_map_of(self.key_seq(), self.value_seq());
        }
        let ghost keys = self.key_seq();
        let ghost values = self.value_seq();
        let at = self.lower_bound(key.as_str());
        let mut slots: Vec<Slot<V>> = Vec::new();
        core::mem::swap(&mut slots, &mut self.slots);
        let mut previous: Option<V> = None;
        let ghost mut kept_keys = keys;
        let ghost mut kept_values = values;
        if at < slots.len() && text_same(slots[at].key.as_str(), key.as_str()) {
            let slot = slots.remove(at);
            previous = Some(slot.value);
            proof {
                lemma_map_of_remove(keys, values, at as int);
                kept_keys = keys.remove(at as int);
                kept_values = values.remove(at as int);
            }
        } else {
            proof {
                if at < keys.len() {
                    lemma_text_lt_total(keys[at as int], key@);
                }
                if keys.contains(key@) {
                    let i = choose|i: int| 0 <= i < keys.len() && keys[i] == key@;
                    if i < at {
                        assert(text_lt(keys[i], key@));
                    } else if i > at {
                        assert(text_lt(keys[at as int], keys[i]));
                        lemma_text_lt_asymmetric(keys[at as int], key@);
                    }
                    lemma_text_lt_irreflexive(key@);
                }
            }
        }
        proof {
            if at < kept_keys.len() && previous is Some {
                assert(kept_keys[at as int] == keys[at + 1]);
                assert(text_lt(keys[at as int], keys[at + 1]));
            }
            assert forall|j: int| 0 <= j < at implies text_lt(#[trigger] kept_keys[j], key@) by {
                assert(kept_keys[j] == keys[j]);
            }
            lemma_map_of_insert(kept_keys, kept_values, at as int, key@, value@);
        }
        slots.insert(at, Slot { key, value });
        proof {
            let new_keys = Seq::new(slots@.len(), |i: int| slots@[i].key@);
            let new_values = Seq::new(slots@.len(), |i: int| slots@[i].value@);
            assert(new_keys =~= kept_keys.insert(at as int, key@));
            assert(new_values =~= kept_values.insert(at as int, value@));
            if previous is Some {
                assert(map_of(keys, values).remove(key@).insert(key@, value@) =~= map_of(
                    keys,
                    values,
                ).insert(key@, value@));
            }
        }
        self.slots = slots;
        previous
    }

    /// Takes `key` out of the map and hands back the value that was under it.
    pub fn remove(&mut self, key: &str) -> (r: Option<V>)
        ensures
            final(self)@ == old(self)@.remove(key@),
            match r {
                Some(v) => old(self)@.contains_key(key@) && v@ == old(self)@[key@],
                None => !old(self)@.contains_key(key@),
            },
    {
        proof {
            use_type_invariant(&*self);
            lemma_map_of(self.key_seq(), self.value_seq());
        }
        let ghost keys = self.key_seq();
        let ghost values = self.value_seq();
        match self.locate(key) {
            Some(at) => {
                let mut slots: Vec<Slot<V>> = Vec::new();
                core::mem::swap(&mut slots, &mut self.slots);
                let slot = slots.remove(at);
                proof {
                    lemma_map_of_remove(keys, values, at as int);
                    let new_keys = Seq::new(slots@.len(), |i: int| slots@[i].key@);
                    let new_values = Seq::new(slots@.len(), |i: int| slots@[i].value@);
                    assert(new_keys =~= keys.remove(at as int));
                    assert(new_values =~= values.remove(at as int));
                }
                self.slots = slots;
                Some(slot.value)
            },
            None => {
                assert(self@.remove(key@) =~= self@);
                None
            },
        }
    }

    /// The key at place `i` of the keys in order.
    pub fn key_at(&self, i: usize) -> (r: &String)
        requires
            i < self@.dom().len(),
        ensures
            r@ == ordered_keys(self@.dom())[i as int],
            self@.contains_key(r@),
    {
        proof {
            use_type_invariant(self);
            lemma_map_of(self.key_seq(), self.value_seq());
        }
        &self.slots[i].key
    }

    /// The value under the key at place `i` of the keys in order.
    pub fn value_at(&self, i: usize) -> (r: &V)
        requires
            i < self@.dom().len(),
        ensures
            r@ == self@[ordered_keys(self@.dom())[i as int]],
            self@.contains_key(ordered_keys(self@.dom())[i as int]),
    {
        proof {
            use_type_invariant(self);
            lemma_map_of(self.key_seq(), self.value_seq());
        }
        &self.slots[i].value
    }
}

} // verus!
