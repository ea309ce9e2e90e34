//! A table keyed by service id, with at most one entry per id.
//!
//! Both the table of live processes and the table of probe loops are such
//! tables. Its model is a map from the id's characters to the entry's value.

use vstd::prelude::*;

verus! {

/// One entry of a registry.
pub struct Slot<T> {
    pub key: String,
    pub value: T,
}

/// Whether no two entries carry the same key.
pub open spec fn distinct_keys<T>(slots: Seq<Slot<T>>) -> bool {
    forall|i: int, j: int| 0 <= i < j < slots.len() ==> slots[i].key@ != slots[j].key@
}

/// Whether some entry carries `key`.
pub open spec fn holds_key<T>(slots: Seq<Slot<T>>, key: Seq<char>) -> bool {
    exists|i: int| 0 <= i < slots.len() && #[trigger] slots[i].key@ == key
}

/// The place of an entry that carries `key`.
pub open spec fn place_of<T>(slots: Seq<Slot<T>>, key: Seq<char>) -> int {
    choose|i: int| 0 <= i < slots.len() && #[trigger] slots[i].key@ == key
}

/// The map that a sequence of entries stands for.
pub open spec fn table_of<T>(slots: Seq<Slot<T>>) -> Map<Seq<char>, T> {
    Map::new(|key: Seq<char>| holds_key(slots, key), |key: Seq<char>| slots[place_of(slots, key)].value)
}

/// With distinct keys, the entry at place `i` is what the map holds under
/// that entry's key.
pub proof fn lemma_table_at<T>(slots: Seq<Slot<T>>, i: int)
    requires
        distinct_keys(slots),
        0 <= i < slots.len(),
    ensures
        table_of(slots).dom().contains(slots[i].key@),
        table_of(slots)[slots[i].key@] == slots[i].value,
{
    let key = slots[i].key@;
    assert(holds_key(slots, key));
    let p = place_of(slots, key);
    assert(0 <= p < slots.len() && slots[p].key@ == key);
    if p != i {
        if p < i {
            assert(slots[p].key@ != slots[i].key@);
        } else {
            assert(slots[i].key@ != slots[p].key@);
        }
    }
}

/// Taking the entry at place `i` out removes its key from the map and
/// leaves the rest as it was.
pub proof fn lemma_table_remove<T>(slots: Seq<Slot<T>>, i: int)
    requires
        distinct_keys(slots),
        0 <= i < slots.len(),
    ensures
        distinct_keys(slots.remove(i)),
        table_of(slots.remove(i)) == table_of(slots).remove(slots[i].key@),
{
    let rest = slots.remove(i);
    let gone = slots[i].key@;
    assert forall|a: int, b: int| 0 <= a < b < rest.len() implies rest[a].key@ != rest[b].key@ by {
        let a0 = if a < i { a } else { a + 1 };
        let b0 = if b < i { b } else { b + 1 };
        assert(rest[a] == slots[a0]);
        assert(rest[b] == slots[b0]);
        assert(slots[a0].key@ != slots[b0].key@);
    }
    assert forall|key: Seq<char>| #[trigger]
        table_of(rest).dom().contains(key) <==> table_of(slots).remove(gone).dom().contains(
            key,
        ) by {
        if holds_key(rest, key) {
            let p = place_of(rest, key);
            let p0 = if p < i { p } else { p + 1 };
            assert(rest[p] == slots[p0]);
            assert(slots[p0].key@ == key);
            assert(holds_key(slots, key));
            if key == gone {
                if p0 < i {
                    assert(slots[p0].key@ != slots[i].key@);
                } else {
                    assert(slots[i].key@ != slots[p0].key@);
                }
            }
        }
        if holds_key(slots, key) && key != gone {
            let q = place_of(slots, key);
            let q1 = if q < i { q } else { q - 1 };
            assert(q != i);
            assert(rest[q1] == slots[q]);
            assert(rest[q1].key@ == key);
            assert(holds_key(rest, key));
        }
    }
    assert forall|key: Seq<char>| #[trigger] table_of(rest).dom().contains(key) implies table_of(
        rest,
    )[key] == table_of(slots).remove(gone)[key] by {
        let p = place_of(rest, key);
        let p0 = if p < i { p } else { p + 1 };
        assert(rest[p] == slots[p0]);
        lemma_table_at(slots, p0);
    }
    assert(table_of(rest) =~= table_of(slots).remove(gone));
}

/// Adding an entry under a key that is not yet held inserts it into the map.
pub proof fn lemma_table_push<T>(slots: Seq<Slot<T>>, slot: Slot<T>)
    requires
        distinct_keys(slots),
        !holds_key(slots, slot.key@),
    ensures
        distinct_keys(slots.push(slot)),
        table_of(slots.push(slot)) == table_of(slots).insert(slot.key@, slot.value),
{
    let more = slots.push(slot);
    assert forall|a: int, b: int| 0 <= a < b < more.len() implies more[a].key@ != more[b].key@ by {
        if b == slots.len() {
            assert(more[a] == slots[a]);
            if slots[a].key@ == slot.key@ {
                assert(holds_key(slots, slot.key@));
            }
        } else {
            assert(more[a] == slots[a] && more[b] == slots[b]);
        }
    }
    assert forall|key: Seq<char>| #[trigger]
        table_of(more).dom().contains(key) <==> table_of(slots).insert(
            slot.key@,
            slot.value,
        ).dom().contains(key) by {
        if holds_key(more, key) {
            let p = place_of(more, key);
            if p < slots.len() {
                assert(more[p] == slots[p]);
                assert(holds_key(slots, key));
            }
        }
        if holds_key(slots, key) {
            let q = place_of(slots, key);
            assert(more[q] == slots[q]);
            assert(holds_key(more, key));
        }
        if key == slot.key@ {
            assert(more[slots.len() as int].key@ == key);
            assert(holds_key(more, key));
        }
    }
    assert forall|key: Seq<char>| #[trigger] table_of(more).dom().contains(key) implies table_of(
        more,
    )[key] == table_of(slots).insert(slot.key@, slot.value)[key] by {
        let p = place_of(more, key);
        lemma_table_at(more, p);
        if p < slots.len() {
            assert(more[p] == slots[p]);
            lemma_table_at(slots, p);
            assert(holds_key(slots, key));
        }
    }
    assert(table_of(more) =~= table_of(slots).insert(slot.key@, slot.value));
}

/// The keys of a sequence of entries, in order.
pub open spec fn listing_of<T>(slots: Seq<Slot<T>>) -> Seq<Seq<char>> {
    Seq::new(slots.len(), |i: int| slots[i].key@)
}

/// Whether `keys` names each key of `table` once, and nothing else.
pub open spec fn enumerates<T>(keys: Seq<Seq<char>>, table: Map<Seq<char>, T>) -> bool {
    &&& keys.no_duplicates()
    &&& forall|key: Seq<char>| keys.contains(key) <==> table.dom().contains(key)
}

/// With distinct keys, the listing enumerates the map.
pub proof fn lemma_listing<T>(slots: Seq<Slot<T>>)
    requires
        distinct_keys(slots),
    ensures
        enumerates(listing_of(slots), table_of(slots)),
{
    let keys = listing_of(slots);
    assert forall|i: int, j: int| 0 <= i < keys.len() && 0 <= j < keys.len() && i != j implies keys[i]
        != keys[j] by {
        if i < j {
            assert(slots[i].key@ != slots[j].key@);
        } else {
            assert(slots[j].key@ != slots[i].key@);
        }
    }
    assert forall|key: Seq<char>| keys.contains(key) <==> table_of(slots).dom().contains(key) by {
        if keys.contains(key) {
            let i = choose|i: int| 0 <= i < keys.len() && keys[i] == key;
            assert(slots[i].key@ == key);
            assert(holds_key(slots, key));
        }
        if holds_key(slots, key) {
            let p = place_of(slots, key);
            assert(keys[p] == key);
        }
    }
}

/// A table with at most one entry per key.
pub struct Registry<T> {
    slots: Vec<Slot<T>>,
}

impl<T> View for Registry<T> {
    type V = Map<Seq<char>, T>;

    closed spec fn view(&self) -> Map<Seq<char>, T> {
        table_of(self.slots@)
    }
}

impl<T> Registry<T> {
    #[verifier::type_invariant]
    spec fn well_formed(&self) -> bool {
        distinct_keys(self.slots@)
    }

    /// The keys in the order in which the table lists them.
    pub closed spec fn listing(&self) -> Seq<Seq<char>> {
        listing_of(self.slots@)
    }

    /// An empty table.
    pub fn new() -> (table: Self)
        ensures
            table@ == Map::<Seq<char>, T>::empty(),
    {
        let table = Registry { slots: Vec::new() };
        assert(table@ =~= Map::<Seq<char>, T>::empty());
        table
    }

    /// The place of the entry under `key`, if there is one.
    fn position(&self, key: &String) -> (place: Option<usize>)
        ensures
            match place {
                Some(i) => i < self.slots@.len() && self.slots@[i as int].key@ == key@,
                None => !holds_key(self.slots@, key@),
            },
    {
        let mut i: usize = 0;
        while i < self.slots.len()
            invariant
                i <= self.slots@.len(),
                forall|j: int| 0 <= j < i ==> self.slots@[j].key@ != key@,
            decreases self.slots@.len() - i,
        {
            if self.slots[i].key == *key {
                return Some(i);
            }
            i += 1;
        }
        None
    }

    /// Whether the table has an entry under `key`.
    pub fn contains(&self, key: &str) -> (found: bool)
        ensures
            found == self@.dom().contains(key@),
    {
        let owned = key.to_owned();
        self.position(&owned).is_some()
    }

    /// The value under `key`, if there is one.
    pub fn get(&self, key: &str) -> (found: Option<&T>)
        ensures
            found == if self@.dom().contains(key@) {
                Some(&self@[key@])
            } else {
                None
            },
    {
        let owned = key.to_owned();
        match self.position(&owned) {
            Some(i) => {
                proof {
                    use_type_invariant(self);
                    lemma_table_at(self.slots@, i as int);
                }
                Some(&self.slots[i].value)
            },
            None => None,
        }
    }

    /// Puts `value` under `key` and hands back what was there before.
    pub fn insert(&mut self, key: &str, value: T) -> (displaced: Option<T>)
        ensures
            final(self)@ == old(self)@.insert(key@, value),
            displaced == if old(self)@.dom().contains(key@) {
                Some(old(self)@[key@])
            } else {
                None
            },
    {
        let owned = key.to_owned();
        proof {
            use_type_invariant(&*self);
        }
        let place = self.position(&owned);
        let mut slots: Vec<Slot<T>> = Vec::new();
        std::mem::swap(&mut self.slots, &mut slots);
        let displaced = match place {
            Some(i) => {
                proof {
                    lemma_table_at(slots@, i as int);
                    lemma_table_remove(slots@, i as int);
                }
                let slot = slots.remove(i);
                Some(slot.value)
            },
            None => None,
        };
        let slot = Slot { key: owned, value };
        proof {
            assert(!holds_key(slots@, slot.key@));
            lemma_table_push(slots@, slot);
            assert(old(self)@.remove(key@).insert(key@, value) =~= old(self)@.insert(key@, value));
        }
        slots.push(slot);
        self.slots = slots;
        displaced
    }

    /// Takes the entry under `key` out and hands its value back.
    pub fn remove(&mut self, key: &str) -> (taken: Option<T>)
        ensures
            final(self)@ == old(self)@.remove(key@),
            taken == if old(self)@.dom().contains(key@) {
                Some(old(self)@[key@])
            } else {
                None
            },
    {
        let owned = key.to_owned();
        proof {
            use_type_invariant(&*self);
        }
        match self.position(&owned) {
            Some(i) => {
                let mut slots: Vec<Slot<T>> = Vec::new();
                std::mem::swap(&mut self.slots, &mut slots);
                proof {
                    lemma_table_at(slots@, i as int);
                    lemma_table_remove(slots@, i as int);
                }
                let slot = slots.remove(i);
                self.slots = slots;
                Some(slot.value)
            },
            None => {
                assert(old(self)@.remove(key@) =~= old(self)@);
                None
            },
        }
    }

    /// The keys of the table, each once.
    pub fn keys(&self) -> (keys: Vec<String>)
        ensures
            enumerates(self.listing(), self@),
            keys@.len() == self.listing().len(),
            forall|i: int| 0 <= i < keys@.len() ==> keys@[i]@ == self.listing()[i],
    {
        proof {
            use_type_invariant(self);
            lemma_listing(self.slots@);
        }
        let mut keys: Vec<String> = Vec::new();
        let mut i: usize = 0;
        while i < self.slots.len()
            invariant
                i <= self.slots@.len(),
                keys@.len() == i,
                forall|j: int| 0 <= j < i ==> keys@[j]@ == self.slots@[j].key@,
            decreases self.slots@.len() - i,
        {
            keys.push(self.slots[i].key.clone());
            i += 1;
        }
        keys
    }

    /// Empties the table and hands every value back, in listing order.
    pub fn drain(&mut self) -> (values: Vec<T>)
        ensures
            final(self)@ == Map::<Seq<char>, T>::empty(),
            enumerates(old(self).listing(), old(self)@),
            values@.len() == old(self).listing().len(),
            forall|i: int|
                0 <= i < values@.len() ==> values@[i] == old(self)@[#[trigger] old(self).listing()[i]],
    {
        let mut values: Vec<T> = Vec::new();
        proof {
            use_type_invariant(&*self);
        }
        let mut slots: Vec<Slot<T>> = Vec::new();
        std::mem::swap(&mut self.slots, &mut slots);
        let ghost before = slots@;
        proof {
            lemma_listing(before);
            assert(self@ =~= Map::<Seq<char>, T>::empty());
        }
        while slots.len() > 0
            invariant
                values@.len() + slots@.len() == before.len(),
                forall|j: int| 0 <= j < values@.len() ==> values@[j] == before[j].value,
                forall|j: int| 0 <= j < slots@.len() ==> slots@[j] == before[values@.len() + j],
            decreases slots@.len(),
        {
            let slot = slots.remove(0);
            values.push(slot.value);
        }
        proof {
            assert forall|i: int| 0 <= i < values@.len() implies values@[i] == old(self)@[#[trigger] old(
                self,
            ).listing()[i]] by {
                lemma_table_at(before, i);
            }
        }
        values
    }
}

} // verus!
