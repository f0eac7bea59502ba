//! Records kept under keys, each key at most once.
use crate::table::TableKey;
use vstd::prelude::*;

verus! {

struct Slot<K, V> {
    key: K,
    value: V,
}

spec fn distinct_slots<K: View, V>(s: Seq<Slot<K, V>>) -> bool {
    forall|i: int, j: int| 0 <= i < j < s.len() ==> s[i].key@ != s[j].key@
}

spec fn slot_of<K: View, V>(s: Seq<Slot<K, V>>, k: K::V) -> int {
    choose|i: int| 0 <= i < s.len() && s[i].key@ == k
}

spec fn slots_map<K: View, V>(s: Seq<Slot<K, V>>) -> Map<K::V, V> {
    Map::new(
        |k: K::V| exists|i: int| 0 <= i < s.len() && s[i].key@ == k,
        |k: K::V| s[slot_of(s, k)].value,
    )
}

proof fn lemma_slots<K: View, V>(s: Seq<Slot<K, V>>)
    requires
        distinct_slots(s),
    ensures
        forall|i: int|
            0 <= i < s.len() ==> slots_map(s).dom().contains(#[trigger] s[i].key@) && slots_map(
                s,
            )[s[i].key@] == s[i].value,
        forall|k: K::V| #[trigger]
            slots_map(s).dom().contains(k) ==> 0 <= slot_of(s, k) < s.len() && s[slot_of(
                s,
                k,
            )].key@ == k,
{
    assert forall|i: int| 0 <= i < s.len() implies slots_map(s).dom().contains(
        #[trigger] s[i].key@,
    ) && slots_map(s)[s[i].key@] == s[i].value by {
        let p = slot_of(s, s[i].key@);
        assert(0 <= p < s.len() && s[p].key@ == s[i].key@);
        if p < i {
            assert(s[p].key@ != s[i].key@);
        }
        if i < p {
            assert(s[i].key@ != s[p].key@);
        }
    }
}

proof fn lemma_slots_finite<K: View, V>(s: Seq<Slot<K, V>>)
    requires
        distinct_slots(s),
    ensures
        slots_map(s).dom().finite(),
        slots_map(s).dom().len() == s.len(),
    decreases s.len(),
{
    lemma_slots(s);
    if s.len() == 0 {
        assert(slots_map(s).dom() =~= Set::<K::V>::empty());
    } else {
        let p = s.drop_last();
        lemma_slots_finite(p);
        lemma_slots(p);
        assert(slots_map(s).dom() =~= slots_map(p).dom().insert(s.last().key@)) by {
            assert forall|k: K::V|
                slots_map(s).dom().contains(k) <==> slots_map(p).dom().insert(
                    s.last().key@,
                ).contains(k) by {
                if slots_map(s).dom().contains(k) {
                    let i = slot_of(s, k);
                    if i < p.len() {
                        assert(p[i].key@ == k);
                    }
                }
                if slots_map(p).dom().contains(k) {
                    let i = slot_of(p, k);
                    assert(s[i].key@ == k);
                }
                if k == s.last().key@ {
                    assert(s[s.len() - 1].key@ == k);
                }
            }
        }
        assert(!slots_map(p).dom().contains(s.last().key@)) by {
            if slots_map(p).dom().contains(s.last().key@) {
                let i = slot_of(p, s.last().key@);
                assert(s[i].key@ == s[s.len() - 1].key@);
            }
        }
    }
}

/// Records kept under keys. A key is held at most once.
pub struct Registry<K: TableKey, V> {
    slots: Vec<Slot<K, V>>,
}

impl<K: TableKey, V> Registry<K, V> {
    #[verifier::type_invariant]
    spec fn well_formed(self) -> bool {
        distinct_slots(self.slots@)
    }

    /// The registry as a map from key to record.
    pub closed spec fn view(&self) -> Map<K::V, V> {
        slots_map(self.slots@)
    }

    /// An empty registry.
    pub fn new() -> (r: Self)
        ensures
            r@ == Map::<K::V, V>::empty(),
    {
        let r = Registry { slots: Vec::new() };
        assert(r@ =~= Map::<K::V, V>::empty());
        r
    }

    /// What holds of every registry: it has finitely many keys.
    pub fn bounds(&self)
        ensures
            self@.dom().finite(),
    {
        proof {
            use_type_invariant(self);
            lemma_slots_finite(self.slots@);
        }
    }

    fn find(&self, key: &K) -> (r: Option<usize>)
        ensures
            match r {
                Some(i) => i < self.slots@.len() && self.slots@[i as int].key@ == key@,
                None => forall|j: int| 0 <= j < self.slots@.len() ==> self.slots@[j].key@ != key@,
            },
    {
        let mut i: usize = 0;
        while i < self.slots.len()
            invariant
                i <= self.slots@.len(),
                forall|j: int| 0 <= j < i ==> self.slots@[j].key@ != key@,
            decreases self.slots@.len() - i,
        {
            if self.slots[i].key.same(key) {
                return Some(i);
            }
            i = i + 1;
        }
        None
    }

    /// The number of keys.
    pub fn len(&self) -> (n: usize)
        ensures
            self@.dom().finite(),
            n == self@.dom().len(),
    {
        proof {
            use_type_invariant(self);
            lemma_slots_finite(self.slots@);
        }
        self.slots.len()
    }

    /// The keys, each once.
    pub fn keys(&self) -> (list: Vec<K>)
        ensures
            forall|i: int| 0 <= i < list@.len() ==> self@.dom().contains((#[trigger] list@[i])@),
            forall|i: int, j: int| 0 <= i < j < list@.len() ==> list@[i]@ != list@[j]@,
            forall|k: K::V| #[trigger]
                self@.dom().contains(k) ==> exists|i: int| 0 <= i < list@.len() && list@[i]@ == k,
    {
        proof {
            use_type_invariant(self);
            lemma_slots(self.slots@);
        }
        let mut list: Vec<K> = Vec::new();
        let mut i: usize = 0;
        while i < self.slots.len()
            invariant
                i <= self.slots@.len(),
                list@.len() == i,
                forall|j: int| 0 <= j < i ==> list@[j]@ == self.slots@[j].key@,
            decreases self.slots@.len() - i,
        {
            list.push(self.slots[i].key.duplicate());
            i = i + 1;
        }
        proof {
            assert forall|k: K::V| #[trigger] self@.dom().contains(k) implies exists|i: int|
                0 <= i < list@.len() && list@[i]@ == k by {
                let p = slot_of(self.slots@, k);
                assert(list@[p]@ == k);
            }
            assert forall|i: int, j: int| 0 <= i < j < list@.len() implies list@[i]@
                != list@[j]@ by {
                assert(self.slots@[i].key@ != self.slots@[j].key@);
            }
            assert forall|i: int| 0 <= i < list@.len() implies self@.dom().contains(
                (#[trigger] list@[i])@,
            ) by {
                assert(self@.dom().contains(self.slots@[i].key@));
            }
        }
        list
    }

    /// Whether a record is kept under `key`.
    pub fn contains(&self, key: &K) -> (r: bool)
        ensures
            r == self@.dom().contains(key@),
    {
        proof {
            use_type_invariant(self);
            lemma_slots(self.slots@);
        }
        self.find(key).is_some()
    }

    /// The record kept under `key`, if there is one.
    pub fn get(&self, key: &K) -> (r: Option<&V>)
        ensures
            match r {
                Some(v) => self@.dom().contains(key@) && *v == self@[key@],
                None => !self@.dom().contains(key@),
            },
    {
        proof {
            use_type_invariant(self);
            lemma_slots(self.slots@);
        }
        match self.find(key) {
            Some(i) => Some(&self.slots[i].value),
            None => None,
        }
    }

    /// Takes the record kept under `key` out of the registry, if there is
    /// one.
    pub fn remove(&mut self, key: &K) -> (r: Option<V>)
        ensures
            match r {
                Some(v) => old(self)@.dom().contains(key@) && v == old(self)@[key@],
                None => !old(self)@.dom().contains(key@),
            },
            final(self)@ == old(self)@.remove(key@),
    {
        proof {
            use_type_invariant(&*self);
            lemma_slots(self.slots@);
        }
        let found = self.find(key);
        let i = match found {
            Some(i) => i,
            None => {
                assert(self@ =~= old(self)@.remove(key@));
                return None;
            },
        };
        let mut taken = Registry { slots: Vec::new() };
        std::mem::swap(self, &mut taken);
        let Registry { slots } = taken;
        let mut slots = slots;
        let ghost before = slots@;
        let slot = slots.remove(i);
        proof {
            let after = slots@;
            assert(distinct_slots(after)) by {
                assert forall|a: int, b: int| 0 <= a < b < after.len() implies after[a].key@
                    != after[b].key@ by {
                    let a2 = if a < i { a } else { a + 1 };
                    let b2 = if b < i { b } else { b + 1 };
                    assert(after[a] == before[a2] && after[b] == before[b2]);
                }
            }
            lemma_slots(after);
            assert(slots_map(after) =~= slots_map(before).remove(key@)) by {
                assert forall|k: K::V|
                    slots_map(after).dom().contains(k) <==> slots_map(before).remove(
                        key@,
                    ).dom().contains(k) by {
                    if slots_map(after).dom().contains(k) {
                        let a = slot_of(after, k);
                        let a2 = if a < i { a } else { a + 1 };
                        assert(after[a] == before[a2]);
                        assert(slots_map(before).dom().contains(before[a2].key@));
                        if a2 < i {
                            assert(before[a2].key@ != before[i as int].key@);
                        } else {
                            assert(before[i as int].key@ != before[a2].key@);
                        }
                    }
                    if slots_map(before).remove(key@).dom().contains(k) {
                        let a = slot_of(before, k);
                        let a2 = if a < i { a } else { a - 1 };
                        assert(after[a2] == before[a]);
                        assert(slots_map(after).dom().contains(after[a2].key@));
                    }
                }
                assert forall|k: K::V| slots_map(after).dom().contains(k) implies slots_map(
                    after,
                )[k] == slots_map(before).remove(key@)[k] by {
                    let a = slot_of(after, k);
                    let a2 = if a < i { a } else { a + 1 };
                    assert(after[a] == before[a2]);
                    assert(slots_map(after)[after[a].key@] == after[a].value);
                    assert(slots_map(before)[before[a2].key@] == before[a2].value);
                }
            }
        }
        *self = Registry { slots };
        Some(slot.value)
    }

    /// Keeps `value` under `key`, in place of what was kept there.
    pub fn insert(&mut self, key: K, value: V)
        ensures
            final(self)@ == old(self)@.insert(key@, value),
    {
        let _ = self.remove(&key);
        proof {
            use_type_invariant(&*self);
            lemma_slots(self.slots@);
        }
        let ghost removed = self@;
        let mut taken = Registry { slots: Vec::new() };
        std::mem::swap(self, &mut taken);
        let Registry { slots } = taken;
        let mut slots = slots;
        let ghost before = slots@;
        slots.push(Slot { key, value });
        proof {
            let after = slots@;
            assert(distinct_slots(after)) by {
                assert forall|a: int, b: int| 0 <= a < b < after.len() implies after[a].key@
                    != after[b].key@ by {
                    if b == before.len() {
                        assert(slots_map(before).dom().contains(before[a].key@));
                    }
                }
            }
            lemma_slots(after);
            assert(slots_map(after) =~= slots_map(before).insert(key@, value)) by {
                assert forall|k: K::V|
                    slots_map(after).dom().contains(k) <==> slots_map(before).insert(
                        key@,
                        value,
                    ).dom().contains(k) by {
                    if slots_map(after).dom().contains(k) {
                        let a = slot_of(after, k);
                        if a < before.len() {
                            assert(before[a].key@ == k);
                        }
                    }
                    if slots_map(before).dom().contains(k) {
                        let a = slot_of(before, k);
                        assert(after[a].key@ == k);
                    }
                    if k == key@ {
                        assert(after[before.len() as int].key@ == k);
                    }
                }
                assert forall|k: K::V| slots_map(after).dom().contains(k) implies slots_map(
                    after,
                )[k] == slots_map(before).insert(key@, value)[k] by {
                    let a = slot_of(after, k);
                    assert(slots_map(after)[after[a].key@] == after[a].value);
                    if a < before.len() {
                        assert(before[a] == after[a]);
                        assert(slots_map(before)[before[a].key@] == before[a].value);
                    }
                }
            }
            assert(removed.insert(key@, value) =~= old(self)@.insert(key@, value));
        }
        *self = Registry { slots };
    }
}

} // verus!
