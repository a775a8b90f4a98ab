//! A map keyed by text, kept in insertion order.
//!
//! It stands where a hash map keyed by strings would. The verifier's
//! library specifies the standard hash map only for keys known to obey its
//! key model, which strings are not, so nothing could be proved of one here.
//! Lookups compare keys letter for letter, every key occurs once, and the
//! model is a plain mathematical map.
use vstd::prelude::*;
use crate::text::str_eq;

verus! {

/// One key and what it maps to.
struct Slot<V> {
    key: String,
    value: V,
}

/// A map from text to values. No key occurs twice, and the keys stay in the
/// order in which they were first inserted.
pub struct TextMap<V> {
    slots: Vec<Slot<V>>,
}

impl<V> View for TextMap<V> {
    type V = Map<Seq<char>, V>;

    closed spec fn view(&self) -> Map<Seq<char>, V> {
        Map::new(
            |key: Seq<char>| self.has(key),
            |key: Seq<char>| self.slots[self.slot_of(key)].value,
        )
    }
}

impl<V> TextMap<V> {
    /// The map is well formed: no key occurs twice.
    pub closed spec fn wf(self) -> bool {
        forall|i: int, j: int|
            0 <= i < j < self.slots.len() ==> (#[trigger] self.slots[i]).key@ != (
            #[trigger] self.slots[j]).key@
    }

    /// The keys, in insertion order.
    pub closed spec fn keys(self) -> Seq<Seq<char>> {
        Seq::new(self.slots@.len(), |i: int| self.slots[i].key@)
    }

    spec fn has(self, key: Seq<char>) -> bool {
        exists|i: int| 0 <= i < self.slots.len() && (#[trigger] self.slots[i]).key@ == key
    }

    spec fn slot_of(self, key: Seq<char>) -> int {
        choose|i: int| 0 <= i < self.slots.len() && (#[trigger] self.slots[i]).key@ == key
    }

    proof fn lemma_slot(self, at: int)
        requires
            self.wf(),
            0 <= at < self.slots.len(),
        ensures
            self.has(self.slots[at].key@),
            self.slot_of(self.slots[at].key@) == at,
            self@.dom().contains(self.slots[at].key@),
            self@[self.slots[at].key@] == self.slots[at].value,
            self.keys()[at] == self.slots[at].key@,
    {
        let key = self.slots[at].key@;
        let chosen = self.slot_of(key);
        assert(self.slots[chosen].key@ == key);
        if chosen < at {
            assert(self.slots[chosen].key@ != self.slots[at].key@);
        } else if at < chosen {
            assert(self.slots[at].key@ != self.slots[chosen].key@);
        }
    }

    /// The keys are the domain of the map, each listed once.
    pub proof fn lemma_keys(self)
        requires
            self.wf(),
        ensures
            self.keys().no_duplicates(),
            self.keys().to_set() == self@.dom(),
            self@.dom().finite(),
            self@.dom().len() == self.keys().len(),
    {
        let keys = self.keys();
        assert forall|i: int, j: int| 0 <= i < keys.len() && 0 <= j < keys.len() && i != j implies keys[i]
            != keys[j] by {
            if i < j {
                assert(self.slots[i].key@ != self.slots[j].key@);
            } else {
                assert(self.slots[j].key@ != self.slots[i].key@);
            }
        }
        assert forall|key: Seq<char>| keys.to_set().contains(key) <==> self@.dom().contains(key) by {
            if keys.to_set().contains(key) {
                let i = choose|i: int| 0 <= i < keys.len() && keys[i] == key;
                assert(self.slots[i].key@ == key);
            }
            if self@.dom().contains(key) {
                let i = self.slot_of(key);
                assert(keys[i] == key);
            }
        }
        assert(keys.to_set() =~= self@.dom());
        vstd::seq_lib::seq_to_set_is_finite(keys);
        keys.unique_seq_to_set();
    }

    /// An empty map.
    pub fn new() -> (map: Self)
        ensures
            map.wf(),
            map@ == Map::<Seq<char>, V>::empty(),
            map.keys() == Seq::<Seq<char>>::empty(),
    {
        let map = TextMap { slots: Vec::new() };
        assert(map@ =~= Map::<Seq<char>, V>::empty());
        assert(map.keys() =~= Seq::<Seq<char>>::empty());
        map
    }

    /// How many keys the map holds.
    pub fn len(&self) -> (count: usize)
        requires
            self.wf(),
        ensures
            count == self@.dom().len(),
            count == self.keys().len(),
    {
        proof {
            self.lemma_keys();
        }
        self.slots.len()
    }

    fn position(&self, key: &str) -> (found: Option<usize>)
        requires
            self.wf(),
        ensures
            match found {
                Some(at) => at < self.slots.len() && self.slots[at as int].key@ == key@,
                None => !self@.dom().contains(key@) && !self.keys().contains(key@),
            },
    {
        let mut i: usize = 0;
        while i < self.slots.len()
            invariant
                i <= self.slots.len(),
                forall|k: int| 0 <= k < i ==> (#[trigger] self.slots[k]).key@ != key@,
            decreases self.slots.len() - i,
        {
            if str_eq(self.slots[i].key.as_str(), key) {
                return Some(i);
            }
            i += 1;
        }
        None
    }

    /// Whether the key is present.
    pub fn contains_key(&self, key: &str) -> (present: bool)
        requires
            self.wf(),
        ensures
            present == self@.dom().contains(key@),
    {
        match self.position(key) {
            Some(at) => {
                proof {
                    self.lemma_slot(at as int);
                }
                true
            },
            None => false,
        }
    }

    /// The value under the key, if any.
    pub fn get(&self, key: &str) -> (value: Option<&V>)
        requires
            self.wf(),
        ensures
            match value {
                Some(held) => self@.dom().contains(key@) && *held == self@[key@],
                None => !self@.dom().contains(key@),
            },
    {
        match self.position(key) {
            Some(at) => {
                proof {
                    self.lemma_slot(at as int);
                }
                Some(&self.slots[at].value)
            },
            None => None,
        }
    }

    /// The value under the key, if any, for changing in place. Whatever is
    /// written through the reference is what the map then holds under the
    /// key; nothing else changes.
    pub fn get_mut(&mut self, key: &str) -> (value: Option<&mut V>)
        requires
            old(self).wf(),
        ensures
            final(self).wf(),
            final(self).keys() == old(self).keys(),
            match value {
                Some(held) => old(self)@.dom().contains(key@) && *held == old(self)@[key@]
                    && final(self)@ == old(self)@.insert(key@, *final(held)),
                None => !old(self)@.dom().contains(key@) && final(self)@ == old(self)@,
            },
    {
        match self.position(key) {
            Some(at) => {
                proof {
                    self.lemma_slot(at as int);
                }
                let slot = &mut self.slots[at];
                let held = &mut slot.value;
                proof {
                    let before = *old(self);
                    let after = after_borrow(*self);
                    assert(after.slots@.len() == before.slots@.len());
                    assert forall|i: int| 0 <= i < after.slots.len() implies (
                    #[trigger] after.slots[i]).key@ == before.slots[i].key@ by {}
                    assert(after.wf());
                    assert(after.keys() =~= before.keys());
                    assert forall|k: Seq<char>| after.has(k) == before.has(k) by {
                        if before.has(k) {
                            let i = before.slot_of(k);
                            assert(after.slots[i].key@ == k);
                        }
                        if after.has(k) {
                            let i = after.slot_of(k);
                            assert(before.slots[i].key@ == k);
                        }
                    }
                    assert forall|k: Seq<char>| after.has(k) implies #[trigger] after@[k]
                        == before@.insert(key@, *final(held))[k] by {
                        let i = after.slot_of(k);
                        after.lemma_slot(i);
                        before.lemma_slot(i);
                    }
                    assert(after@ =~= before@.insert(key@, *final(held)));
                }
                Some(held)
            },
            None => None,
        }
    }

    /// Puts the value under the key, replacing what was there. Returns what
    /// was there.
    pub fn insert(&mut self, key: String, value: V) -> (previous: Option<V>)
        requires
            old(self).wf(),
        ensures
            final(self).wf(),
            final(self)@ == old(self)@.insert(key@, value),
            previous == if old(self)@.dom().contains(key@) {
                Some(old(self)@[key@])
            } else {
                None
            },
            final(self).keys() == if old(self)@.dom().contains(key@) {
                old(self).keys()
            } else {
                old(self).keys().push(key@)
            },
    {
        match self.position(key.as_str()) {
            Some(at) => {
                proof {
                    self.lemma_slot(at as int);
                }
                let mut fresh = value;
                let held = self.get_mut(key.as_str());
                match held {
                    Some(held) => {
                        core::mem::swap(held, &mut fresh);
                    },
                    None => {},
                }
                Some(fresh)
            },
            None => {
                let ghost before = *self;
                self.slots.push(Slot { key, value });
                proof {
                    let after = *self;
                    let last = before.slots.len() as int;
                    assert forall|i: int| 0 <= i < last implies (#[trigger] after.slots[i])
                        == before.slots[i] by {}
                    assert(after.wf()) by {
                        assert forall|i: int, j: int| 0 <= i < j < after.slots.len() implies (
                        #[trigger] after.slots[i]).key@ != (#[trigger] after.slots[j]).key@ by {
                            if j == last {
                                assert(before.keys()[i] == before.slots[i].key@);
                                assert(before.keys().contains(before.slots[i].key@));
                            }
                        }
                    }
                    assert(after.keys() =~= before.keys().push(key@));
                    assert forall|k: Seq<char>| after.has(k) == (before.has(k) || k == key@) by {
                        if before.has(k) {
                            let i = before.slot_of(k);
                            assert(after.slots[i].key@ == k);
                        }
                        if k == key@ {
                            assert(after.slots[last].key@ == k);
                        }
                        if after.has(k) {
                            let i = after.slot_of(k);
                            if i < last {
                                assert(before.slots[i].key@ == k);
                            }
                        }
                    }
                    assert forall|k: Seq<char>| after.has(k) implies #[trigger] after@[k]
                        == before@.insert(key@, value)[k] by {
                        let i = after.slot_of(k);
                        after.lemma_slot(i);
                        if i < last {
                            before.lemma_slot(i);
                        }
                    }
                    assert(after@ =~= before@.insert(key@, value));
                }
                None
            },
        }
    }

    /// Takes the key out of the map. Returns what was under it.
    pub fn remove(&mut self, key: &str) -> (previous: Option<V>)
        requires
            old(self).wf(),
        ensures
            final(self).wf(),
            final(self)@ == old(self)@.remove(key@),
            previous == if old(self)@.dom().contains(key@) {
                Some(old(self)@[key@])
            } else {
                None
            },
            final(self).keys() == old(self).keys().filter(|k: Seq<char>| k != key@),
    {
        match self.position(key) {
            Some(at) => {
                let ghost before = *self;
                proof {
                    before.lemma_slot(at as int);
                }
                let slot = self.slots.remove(at);
                proof {
                    let after = *self;
                    let gone = at as int;
                    assert forall|i: int| 0 <= i < after.slots.len() implies (
                    #[trigger] after.slots[i]) == before.slots[if i < gone {
                        i
                    } else {
                        i + 1
                    }] by {}
                    assert(after.wf()) by {
                        assert forall|i: int, j: int| 0 <= i < j < after.slots.len() implies (
                        #[trigger] after.slots[i]).key@ != (#[trigger] after.slots[j]).key@ by {
                            let bi = if i < gone { i } else { i + 1 };
                            let bj = if j < gone { j } else { j + 1 };
                            assert(before.slots[bi].key@ != before.slots[bj].key@);
                        }
                    }
                    assert forall|k: Seq<char>| after.has(k) == (before.has(k) && k != key@) by {
                        if before.has(k) && k != key@ {
                            let i = before.slot_of(k);
                            let ai = if i < gone { i } else { i - 1 };
                            assert(after.slots[ai].key@ == k);
                        }
                        if after.has(k) {
                            let i = after.slot_of(k);
                            let bi = if i < gone { i } else { i + 1 };
                            assert(before.slots[bi].key@ == k);
                            before.lemma_slot(bi);
                        }
                    }
                    assert forall|k: Seq<char>| after.has(k) implies #[trigger] after@[k]
                        == before@.remove(key@)[k] by {
                        let i = after.slot_of(k);
                        let bi = if i < gone { i } else { i + 1 };
                        after.lemma_slot(i);
                        before.lemma_slot(bi);
                    }
                    assert(after@ =~= before@.remove(key@));
                    lemma_filter_out_unique(before.keys(), gone);
                    assert(after.keys() =~= before.keys().remove(gone));
                    before.lemma_keys();
                }
                Some(slot.value)
            },
            None => {
                proof {
                    assert(self@ =~= self@.remove(key@));
                    lemma_filter_out_absent(self.keys(), key@);
                }
                None
            },
        }
    }

    /// The keys, in insertion order.
    pub fn key_list(&self) -> (list: Vec<String>)
        requires
            self.wf(),
        ensures
            list.deep_view() == self.keys(),
    {
        let mut list: Vec<String> = Vec::new();
        let mut i: usize = 0;
        while i < self.slots.len()
            invariant
                i <= self.slots.len(),
                list.len() == i,
                forall|k: int| 0 <= k < i ==> (#[trigger] list[k])@ == self.slots[k].key@,
            decreases self.slots.len() - i,
        {
            list.push(self.slots[i].key.clone());
            i += 1;
        }
        assert(list.deep_view() =~= self.keys());
        list
    }
}

/// Filtering a sequence against a value that does not occur in it changes
/// nothing.
pub proof fn lemma_filter_out_absent<A>(items: Seq<A>, gone: A)
    requires
        !items.contains(gone),
    ensures
        items.filter(|item: A| item != gone) == items,
    decreases items.len(),
{
    let keep = |item: A| item != gone;
    reveal(Seq::filter);
    if items.len() > 0 {
        assert(items.drop_last().len() < items.len());
        assert forall|i: int| 0 <= i < items.drop_last().len() implies items.drop_last()[i]
            != gone by {
            assert(items[i] == items.drop_last()[i]);
            assert(items.contains(items[i]));
        }
        assert(!items.drop_last().contains(gone));
        lemma_filter_out_absent(items.drop_last(), gone);
        assert(items.contains(items.last()));
        assert(keep(items.last()));
        assert(items.drop_last().push(items.last()) =~= items);
    }
}

/// In a sequence without duplicates, filtering out the value at one index
/// removes that index and nothing else.
pub proof fn lemma_filter_out_unique<A>(items: Seq<A>, at: int)
    requires
        items.no_duplicates(),
        0 <= at < items.len(),
    ensures
        items.filter(|item: A| item != items[at]) == items.remove(at),
    decreases items.len(),
{
    let gone = items[at];
    let keep = |item: A| item != gone;
    reveal(Seq::filter);
    let front = items.drop_last();
    if at == items.len() - 1 {
        assert forall|i: int| 0 <= i < front.len() implies front[i] != gone by {
            assert(items[i] != items[at]);
        }
        assert(!front.contains(gone));
        lemma_filter_out_absent(front, gone);
        assert(!keep(items.last()));
        assert(items.remove(at) =~= front);
    } else {
        assert(front.no_duplicates());
        assert(front[at] == gone);
        lemma_filter_out_unique(front, at);
        assert(items.last() != items[at]);
        assert(keep(items.last()));
        assert(items.remove(at) =~= front.remove(at).push(items.last()));
    }
}

} // verus!
