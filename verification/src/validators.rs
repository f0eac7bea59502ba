//! The validators a contract knows of, each active or not.
use vstd::prelude::*;

verus! {

/// One validator: its address, and whether it takes part at present.
#[derive(Clone, Debug, PartialEq, Eq)]
pub struct ValidatorRecord {
    pub address: String,
    pub active: bool,
}

/// The texts of a list of strings.
pub open spec fn texts(v: Seq<String>) -> Seq<Seq<char>> {
    v.map_values(|s: String| s@)
}

/// Whether two lists of strings have a string in common.
pub open spec fn overlapping(a: Seq<Seq<char>>, b: Seq<Seq<char>>) -> bool {
    exists|k: Seq<char>| a.contains(k) && b.contains(k)
}

/// Whether a list holds a string.
pub fn list_contains(list: &Vec<String>, item: &String) -> (r: bool)
    ensures
        r == texts(list@).contains(item@),
{
    let mut i: usize = 0;
    while i < list.len()
        invariant
            i <= list@.len(),
            forall|j: int| 0 <= j < i ==> texts(list@)[j] != item@,
        decreases list@.len() - i,
    {
        if list[i] == *item {
            assert(texts(list@)[i as int] == item@);
            return true;
        }
        i = i + 1;
    }
    false
}

/// Whether two lists of strings have a string in common.
pub fn overlap(a: &Vec<String>, b: &Vec<String>) -> (r: bool)
    ensures
        r == overlapping(texts(a@), texts(b@)),
{
    let mut i: usize = 0;
    while i < a.len()
        invariant
            i <= a@.len(),
            forall|j: int| 0 <= j < i ==> !texts(b@).contains(texts(a@)[j]),
        decreases a@.len() - i,
    {
        if list_contains(b, &a[i]) {
            assert(texts(a@)[i as int] == a@[i as int]@);
            assert(texts(a@).contains(a@[i as int]@));
            return true;
        }
        i = i + 1;
    }
    assert(!overlapping(texts(a@), texts(b@))) by {
        if overlapping(texts(a@), texts(b@)) {
            let k = choose|k: Seq<char>| texts(a@).contains(k) && texts(b@).contains(k);
            let j = choose|j: int| 0 <= j < texts(a@).len() && texts(a@)[j] == k;
            assert(!texts(b@).contains(texts(a@)[j]));
        }
    }
    false
}

/// Whether a map of validators holds `k` as active.
pub open spec fn active_in(m: Map<Seq<char>, bool>, k: Seq<char>) -> bool {
    m.dom().contains(k) && m[k]
}

/// A map of validators after a change of membership: every added address is
/// known afterwards, and an address is active if it was added or was active
/// before, unless it was removed.
pub open spec fn updated(
    m: Map<Seq<char>, bool>,
    added: Seq<Seq<char>>,
    removed: Seq<Seq<char>>,
) -> Map<Seq<char>, bool> {
    Map::new(
        |k: Seq<char>| m.dom().contains(k) || added.contains(k),
        |k: Seq<char>| !removed.contains(k) && (added.contains(k) || m[k]),
    )
}

/// A map of validators after a full list of the active ones replaced what
/// was known: the listed addresses are active, and no other is.
pub open spec fn listed(m: Map<Seq<char>, bool>, list: Seq<Seq<char>>) -> Map<Seq<char>, bool> {
    Map::new(
        |k: Seq<char>| m.dom().contains(k) || list.contains(k),
        |k: Seq<char>| list.contains(k),
    )
}

/// An order of addresses with one more address known: a new one comes last.
pub open spec fn with_known(order: Seq<Seq<char>>, address: Seq<char>) -> Seq<Seq<char>> {
    if order.contains(address) {
        order
    } else {
        order.push(address)
    }
}

/// An order of addresses after each of `added` became known, one after the
/// other.
pub open spec fn with_all_known(order: Seq<Seq<char>>, added: Seq<Seq<char>>) -> Seq<Seq<char>>
    decreases added.len(),
{
    if added.len() == 0 {
        order
    } else {
        with_known(with_all_known(order, added.drop_last()), added.last())
    }
}

/// The active validators of a map, in the order in which `order` names them.
pub open spec fn active_in_order(m: Map<Seq<char>, bool>, order: Seq<Seq<char>>) -> Seq<Seq<char>>
    decreases order.len(),
{
    if order.len() == 0 {
        Seq::empty()
    } else {
        let rest = active_in_order(m, order.drop_last());
        if active_in(m, order.last()) {
            rest.push(order.last())
        } else {
            rest
        }
    }
}

/// Whether an order names every known validator of a map exactly once.
pub open spec fn names_known(m: Map<Seq<char>, bool>, order: Seq<Seq<char>>) -> bool {
    &&& forall|k: Seq<char>| order.contains(k) <==> m.dom().contains(k)
    &&& forall|i: int, j: int| 0 <= i < j < order.len() ==> order[i] != order[j]
}

/// The active validators in order are those that the order names and the
/// map holds as active, each once.
pub proof fn lemma_active_in_order(m: Map<Seq<char>, bool>, order: Seq<Seq<char>>)
    requires
        forall|i: int, j: int| 0 <= i < j < order.len() ==> order[i] != order[j],
    ensures
        forall|k: Seq<char>| #[trigger]
            active_in_order(m, order).contains(k) <==> order.contains(k) && active_in(m, k),
        forall|i: int, j: int|
            0 <= i < j < active_in_order(m, order).len() ==> active_in_order(m, order)[i]
                != active_in_order(m, order)[j],
        names_known(m, order) ==> names_active(m, active_in_order(m, order)),
    decreases order.len(),
{
    let full = active_in_order(m, order);
    if order.len() > 0 {
        let front = order.drop_last();
        let last = order.last();
        let rest = active_in_order(m, front);
        lemma_active_in_order(m, front);
        lemma_contains_push(front, last);
        assert(front.push(last) =~= order);
        lemma_contains_push(rest, last);
        assert(!front.contains(last)) by {
            if front.contains(last) {
                let i = choose|i: int| 0 <= i < front.len() && front[i] == last;
                assert(order[i] != order[order.len() - 1]);
            }
        }
        assert forall|k: Seq<char>| #[trigger]
            full.contains(k) <==> order.contains(k) && active_in(m, k) by {
            assert(rest.contains(k) <==> front.contains(k) && active_in(m, k));
        }
        assert forall|i: int, j: int| 0 <= i < j < full.len() implies full[i] != full[j] by {
            if j == rest.len() {
                assert(rest.contains(rest[i]));
            }
        }
    }
    if names_known(m, order) {
        assert forall|k: Seq<char>| full.contains(k) <==> active_in(m, k) by {
            assert(full.contains(k) <==> order.contains(k) && active_in(m, k));
        }
    }
}

/// Whether a list names the active validators of a map, each once.
pub open spec fn names_active(m: Map<Seq<char>, bool>, list: Seq<Seq<char>>) -> bool {
    &&& forall|k: Seq<char>| list.contains(k) <==> active_in(m, k)
    &&& forall|i: int, j: int| 0 <= i < j < list.len() ==> list[i] != list[j]
}

spec fn record_addresses(s: Seq<ValidatorRecord>) -> Seq<Seq<char>> {
    Seq::new(s.len(), |i: int| s[i].address@)
}

proof fn lemma_addresses(s: Seq<ValidatorRecord>)
    requires
        distinct_addresses(s),
    ensures
        names_known(records_map(s), record_addresses(s)),
{
    lemma_records(s);
    let o = record_addresses(s);
    assert forall|k: Seq<char>| o.contains(k) <==> records_map(s).dom().contains(k) by {
        if o.contains(k) {
            let i = choose|i: int| 0 <= i < o.len() && o[i] == k;
            assert(s[i].address@ == k);
        }
        if records_map(s).dom().contains(k) {
            let p = position(s, k);
            assert(o[p] == k);
        }
    }
    assert forall|i: int, j: int| 0 <= i < j < o.len() implies o[i] != o[j] by {
        assert(s[i].address@ != s[j].address@);
    }
}

spec fn distinct_addresses(s: Seq<ValidatorRecord>) -> bool {
    forall|i: int, j: int| 0 <= i < j < s.len() ==> s[i].address@ != s[j].address@
}

spec fn position(s: Seq<ValidatorRecord>, k: Seq<char>) -> int {
    choose|i: int| 0 <= i < s.len() && s[i].address@ == k
}

spec fn records_map(s: Seq<ValidatorRecord>) -> Map<Seq<char>, bool> {
    Map::new(
        |k: Seq<char>| exists|i: int| 0 <= i < s.len() && s[i].address@ == k,
        |k: Seq<char>| s[position(s, k)].active,
    )
}

proof fn lemma_records(s: Seq<ValidatorRecord>)
    requires
        distinct_addresses(s),
    ensures
        forall|i: int|
            0 <= i < s.len() ==> records_map(s).dom().contains(#[trigger] s[i].address@)
                && records_map(s)[s[i].address@] == s[i].active,
        forall|k: Seq<char>| #[trigger]
            records_map(s).dom().contains(k) ==> 0 <= position(s, k) < s.len() && s[position(
                s,
                k,
            )].address@ == k,
{
    assert forall|i: int| 0 <= i < s.len() implies records_map(s).dom().contains(
        #[trigger] s[i].address@,
    ) && records_map(s)[s[i].address@] == s[i].active by {
        let p = position(s, s[i].address@);
        assert(0 <= p < s.len() && s[p].address@ == s[i].address@);
        if p < i {
            assert(s[p].address@ != s[i].address@);
        }
        if i < p {
            assert(s[i].address@ != s[p].address@);
        }
    }
}

/// What a list holds after one more element: what it held, and the element.
pub proof fn lemma_contains_push<A>(s: Seq<A>, x: A)
    ensures
        forall|k: A| #[trigger] s.push(x).contains(k) <==> (s.contains(k) || k == x),
{
    assert forall|k: A| #[trigger] s.push(x).contains(k) <==> (s.contains(k) || k == x) by {
        if s.push(x).contains(k) {
            let i = choose|i: int| 0 <= i < s.push(x).len() && s.push(x)[i] == k;
            if i < s.len() {
                assert(s[i] == k);
            }
        }
        if s.contains(k) {
            let i = choose|i: int| 0 <= i < s.len() && s[i] == k;
            assert(s.push(x)[i] == k);
        }
        if k == x {
            assert(s.push(x)[s.len() as int] == k);
        }
    }
}

/// The validators a contract knows of. Each address is held once.
pub struct ValidatorSet {
    records: Vec<ValidatorRecord>,
}

impl ValidatorSet {
    #[verifier::type_invariant]
    spec fn well_formed(self) -> bool {
        distinct_addresses(self.records@)
    }

    /// The set as a map from each known address to whether it is active.
    pub closed spec fn view(&self) -> Map<Seq<char>, bool> {
        records_map(self.records@)
    }

    /// The known addresses in the order in which they became known.
    pub closed spec fn order(&self) -> Seq<Seq<char>> {
        record_addresses(self.records@)
    }

    /// A set that knows no validator.
    pub fn new() -> (s: Self)
        ensures
            s@ == Map::<Seq<char>, bool>::empty(),
            s.order() == Seq::<Seq<char>>::empty(),
    {
        let s = ValidatorSet { records: Vec::new() };
        assert(s@ =~= Map::<Seq<char>, bool>::empty());
        assert(s.order() =~= Seq::<Seq<char>>::empty());
        s
    }

    /// What holds of every set: its order names every known validator
    /// once, so the active ones in that order are each named once.
    pub fn bounds(&self)
        ensures
            names_known(self@, self.order()),
            names_active(self@, active_in_order(self@, self.order())),
    {
        proof {
            use_type_invariant(self);
            lemma_addresses(self.records@);
            lemma_active_in_order(self@, self.order());
        }
    }

    fn find(&self, address: &String) -> (r: Option<usize>)
        ensures
            match r {
                Some(i) => i < self.records@.len() && self.records@[i as int].address@ == address@,
                None => forall|j: int|
                    0 <= j < self.records@.len() ==> self.records@[j].address@ != address@,
            },
    {
        let mut i: usize = 0;
        while i < self.records.len()
            invariant
                i <= self.records@.len(),
                forall|j: int| 0 <= j < i ==> self.records@[j].address@ != address@,
            decreases self.records@.len() - i,
        {
            if self.records[i].address == *address {
                return Some(i);
            }
            i = i + 1;
        }
        None
    }

    /// Whether the address is known, active or not.
    pub fn is_known(&self, address: &str) -> (r: bool)
        ensures
            r == self@.dom().contains(address@),
    {
        proof {
            use_type_invariant(self);
            lemma_records(self.records@);
        }
        let owned = address.to_owned();
        self.find(&owned).is_some()
    }

    /// Whether the address is known and active.
    pub fn is_active(&self, address: &str) -> (r: bool)
        ensures
            r == active_in(self@, address@),
    {
        proof {
            use_type_invariant(self);
            lemma_records(self.records@);
        }
        let owned = address.to_owned();
        match self.find(&owned) {
            Some(i) => self.records[i].active,
            None => false,
        }
    }

    fn put(&mut self, address: &str, active: bool, insert: bool)
        ensures
            insert || old(self)@.dom().contains(address@) ==> final(self)@ == old(self)@.insert(
                address@,
                active,
            ),
            !insert && !old(self)@.dom().contains(address@) ==> final(self)@ == old(self)@,
            insert ==> final(self).order() == with_known(old(self).order(), address@),
            !insert ==> final(self).order() == old(self).order(),
    {
        proof {
            use_type_invariant(&*self);
            lemma_records(self.records@);
            lemma_addresses(self.records@);
        }
        let owned = address.to_owned();
        let found = self.find(&owned);
        let mut taken = ValidatorSet { records: Vec::new() };
        std::mem::swap(self, &mut taken);
        let ValidatorSet { records } = taken;
        let mut records = records;
        let ghost before = records@;
        match found {
            Some(i) => {
                records.set(i, ValidatorRecord { address: owned, active });
                proof {
                    assert(record_addresses(records@) =~= record_addresses(before));
                    assert(record_addresses(before)[i as int] == address@);
                    assert(distinct_addresses(records@)) by {
                        assert forall|a: int, b: int| 0 <= a < b < records@.len() implies records@[a].address@
                            != records@[b].address@ by {
                            assert(before[a].address@ != before[b].address@);
                        }
                    }
                    lemma_records(records@);
                    assert(records_map(records@) =~= records_map(before).insert(address@, active))
                        by {
                        assert forall|k: Seq<char>|
                            records_map(records@).dom().contains(k) <==> records_map(before).insert(
                                address@,
                                active,
                            ).dom().contains(k) by {
                            if records_map(records@).dom().contains(k) {
                                let p = position(records@, k);
                                assert(before[p].address@ == k);
                            }
                            if records_map(before).dom().contains(k) {
                                let p = position(before, k);
                                assert(records@[p].address@ == k);
                            }
                        }
                        assert forall|k: Seq<char>|
                            records_map(records@).dom().contains(k) implies records_map(
                            records@,
                        )[k] == records_map(before).insert(address@, active)[k] by {
                            let p = position(records@, k);
                            assert(records@[p].address@ == k);
                            assert(before[p].address@ == k);
                            assert(records_map(records@)[records@[p].address@] == records@[p].active);
                            assert(records_map(before)[before[p].address@] == before[p].active);
                        }
                    }
                }
            },
            None => {
                if insert {
                    records.push(ValidatorRecord { address: owned, active });
                    proof {
                        assert(record_addresses(records@) =~= record_addresses(before).push(
                            address@,
                        ));
                        lemma_records(records@);
                        assert(records_map(records@) =~= records_map(before).insert(
                            address@,
                            active,
                        )) by {
                            assert forall|k: Seq<char>|
                                records_map(records@).dom().contains(k) <==> records_map(
                                    before,
                                ).insert(address@, active).dom().contains(k) by {
                                if records_map(records@).dom().contains(k) {
                                    let p = position(records@, k);
                                    if p < before.len() {
                                        assert(before[p].address@ == k);
                                    }
                                }
                                if records_map(before).dom().contains(k) {
                                    let p = position(before, k);
                                    assert(records@[p].address@ == k);
                                }
                                if k == address@ {
                                    assert(records@[before.len() as int].address@ == k);
                                }
                            }
                            assert forall|k: Seq<char>|
                                records_map(records@).dom().contains(k) implies records_map(
                                records@,
                            )[k] == records_map(before).insert(address@, active)[k] by {
                                let p = position(records@, k);
                                assert(records@[p].address@ == k);
                                assert(records_map(records@)[records@[p].address@]
                                    == records@[p].active);
                                if p < before.len() {
                                    assert(before[p] == records@[p]);
                                    assert(records_map(before)[before[p].address@]
                                        == before[p].active);
                                }
                            }
                        }
                    }
                }
            },
        }
        *self = ValidatorSet { records };
    }

    /// Makes the address known and active.
    pub fn activate(&mut self, address: &str)
        ensures
            final(self)@ == old(self)@.insert(address@, true),
            final(self).order() == with_known(old(self).order(), address@),
    {
        self.put(address, true, true);
    }

    /// Makes the address inactive, if it is known.
    pub fn deactivate(&mut self, address: &str)
        ensures
            final(self)@ == if old(self)@.dom().contains(address@) {
                old(self)@.insert(address@, false)
            } else {
                old(self)@
            },
            final(self).order() == old(self).order(),
    {
        self.put(address, false, false);
    }

    /// Applies a change of membership: the added validators become known and
    /// active, then the removed ones that are known become inactive.
    pub fn apply(&mut self, added: &Vec<String>, removed: &Vec<String>)
        ensures
            final(self)@ == updated(old(self)@, texts(added@), texts(removed@)),
            final(self).order() == with_all_known(old(self).order(), texts(added@)),
    {
        let ghost start = self@;
        let ghost first = self.order();
        let ghost a = texts(added@);
        let ghost r = texts(removed@);
        let mut i: usize = 0;
        assert(self@ =~= updated(start, a.take(0), Seq::empty()));
        assert(a.take(0) =~= Seq::<Seq<char>>::empty());
        while i < added.len()
            invariant
                i <= added@.len(),
                a == texts(added@),
                self@ == updated(start, a.take(i as int), Seq::empty()),
                self.order() == with_all_known(first, a.take(i as int)),
            decreases added@.len() - i,
        {
            self.activate(added[i].as_str());
            proof {
                lemma_contains_push(a.take(i as int), a[i as int]);
                assert(a.take(i + 1).drop_last() =~= a.take(i as int));
                assert(a.take(i + 1).last() == a[i as int]);
                assert(a.take(i + 1) =~= a.take(i as int).push(a[i as int]));
                assert(self@ =~= updated(start, a.take(i + 1), Seq::empty()));
            }
            i = i + 1;
        }
        assert(a.take(i as int) =~= a);
        let mut j: usize = 0;
        assert(self@ =~= updated(start, a, r.take(0)));
        while j < removed.len()
            invariant
                j <= removed@.len(),
                r == texts(removed@),
                self@ == updated(start, a, r.take(j as int)),
                self.order() == with_all_known(first, a),
            decreases removed@.len() - j,
        {
            self.deactivate(removed[j].as_str());
            proof {
                lemma_contains_push(r.take(j as int), r[j as int]);
                assert(r.take(j + 1) =~= r.take(j as int).push(r[j as int]));
                assert(self@ =~= updated(start, a, r.take(j + 1)));
            }
            j = j + 1;
        }
        assert(r.take(j as int) =~= r);
    }

    fn deactivate_all(&mut self)
        ensures
            final(self)@ == listed(old(self)@, Seq::empty()),
            final(self).order() == old(self).order(),
    {
        proof {
            use_type_invariant(&*self);
            lemma_records(self.records@);
        }
        let mut taken = ValidatorSet { records: Vec::new() };
        std::mem::swap(self, &mut taken);
        let ValidatorSet { records } = taken;
        let mut records = records;
        let ghost before = records@;
        let mut i: usize = 0;
        while i < records.len()
            invariant
                i <= records@.len(),
                records@.len() == before.len(),
                forall|j: int| 0 <= j < before.len() ==> records@[j].address@ == before[j].address@,
                forall|j: int| 0 <= j < i ==> !records@[j].active,
            decreases records@.len() - i,
        {
            let address = records[i].address.clone();
            records.set(i, ValidatorRecord { address, active: false });
            i = i + 1;
        }
        proof {
            assert(record_addresses(records@) =~= record_addresses(before));
            assert(distinct_addresses(records@)) by {
                assert forall|a: int, b: int| 0 <= a < b < records@.len() implies records@[a].address@
                    != records@[b].address@ by {
                    assert(before[a].address@ != before[b].address@);
                }
            }
            lemma_records(records@);
            assert(records_map(records@) =~= listed(records_map(before), Seq::empty())) by {
                assert forall|k: Seq<char>|
                    records_map(records@).dom().contains(k) <==> records_map(before).dom().contains(
                        k,
                    ) by {
                    if records_map(records@).dom().contains(k) {
                        let p = position(records@, k);
                        assert(before[p].address@ == k);
                    }
                    if records_map(before).dom().contains(k) {
                        let p = position(before, k);
                        assert(records@[p].address@ == k);
                    }
                }
                assert forall|k: Seq<char>|
                    records_map(records@).dom().contains(k) implies !records_map(records@)[k] by {
                    let p = position(records@, k);
                    assert(records_map(records@)[records@[p].address@] == records@[p].active);
                }
            }
        }
        *self = ValidatorSet { records };
    }

    /// Replaces what is known by a full list of the active validators: the
    /// listed ones are active afterwards, and every other known one is not.
    pub fn overwrite(&mut self, list: &Vec<String>)
        ensures
            final(self)@ == listed(old(self)@, texts(list@)),
            final(self).order() == with_all_known(old(self).order(), texts(list@)),
    {
        let ghost start = self@;
        let ghost first = self.order();
        let ghost l = texts(list@);
        self.deactivate_all();
        assert(l.take(0) =~= Seq::<Seq<char>>::empty());
        let mut i: usize = 0;
        while i < list.len()
            invariant
                i <= list@.len(),
                l == texts(list@),
                self@ == listed(start, l.take(i as int)),
                self.order() == with_all_known(first, l.take(i as int)),
            decreases list@.len() - i,
        {
            self.activate(list[i].as_str());
            proof {
                assert(l.take(i + 1).drop_last() =~= l.take(i as int));
                assert(l.take(i + 1).last() == l[i as int]);
                lemma_contains_push(l.take(i as int), l[i as int]);
                assert(l.take(i + 1) =~= l.take(i as int).push(l[i as int]));
                assert(self@ =~= listed(start, l.take(i + 1)));
            }
            i = i + 1;
        }
        assert(l.take(i as int) =~= l);
    }

    /// The addresses of the active validators, each once, in the order in
    /// which they became known.
    pub fn active_list(&self) -> (list: Vec<String>)
        ensures
            texts(list@) == active_in_order(self@, self.order()),
            names_active(self@, texts(list@)),
    {
        proof {
            use_type_invariant(self);
            lemma_records(self.records@);
        }
        let mut list: Vec<String> = Vec::new();
        let ghost mut from: Seq<int> = Seq::empty();
        let ghost order = self.order();
        let mut i: usize = 0;
        assert(order.take(0) =~= Seq::<Seq<char>>::empty());
        assert(texts(list@) =~= Seq::<Seq<char>>::empty());
        while i < self.records.len()
            invariant
                i <= self.records@.len(),
                order == self.order(),
                texts(list@) == active_in_order(self@, order.take(i as int)),
                from.len() == list@.len(),
                forall|a: int|
                    0 <= a < list@.len() ==> 0 <= #[trigger] from[a] < i && list@[a]@
                        == self.records@[from[a]].address@ && self.records@[from[a]].active,
                forall|a: int, b: int| 0 <= a < b < list@.len() ==> from[a] < from[b],
                forall|j: int|
                    0 <= j < i && self.records@[j].active ==> exists|a: int|
                        0 <= a < list@.len() && #[trigger] from[a] == j,
            decreases self.records@.len() - i,
        {
            let ghost named = texts(list@);
            proof {
                use_type_invariant(self);
                lemma_records(self.records@);
                assert(order.take(i + 1).drop_last() =~= order.take(i as int));
                assert(order.take(i + 1).last() == self.records@[i as int].address@);
                assert(self@.dom().contains(self.records@[i as int].address@));
                assert(self@[self.records@[i as int].address@] == self.records@[i as int].active);
            }
            if self.records[i].active {
                let ghost prev = from;
                let ghost prev_len = list@.len();
                list.push(self.records[i].address.clone());
                proof {
                    assert(texts(list@) =~= named.push(self.records@[i as int].address@));
                    from = from.push(i as int);
                    assert forall|j: int| 0 <= j < i + 1 && self.records@[j].active implies exists|
                        a: int,
                    | 0 <= a < list@.len() && #[trigger] from[a] == j by {
                        if j < i {
                            let a = choose|a: int| 0 <= a < prev_len && #[trigger] prev[a] == j;
                            assert(from[a] == j);
                        } else {
                            assert(from[prev_len as int] == j);
                        }
                    }
                }
            }
            i = i + 1;
        }
        proof {
            assert(order.take(i as int) =~= order);
            let t = texts(list@);
            assert forall|k: Seq<char>| t.contains(k) <==> active_in(self@, k) by {
                if t.contains(k) {
                    let a = choose|a: int| 0 <= a < t.len() && t[a] == k;
                    assert(list@[a]@ == self.records@[from[a]].address@);
                    assert(self@.dom().contains(self.records@[from[a]].address@));
                }
                if active_in(self@, k) {
                    let p = position(self.records@, k);
                    assert(self@[self.records@[p].address@] == self.records@[p].active);
                    let a = choose|a: int| 0 <= a < list@.len() && #[trigger] from[a] == p;
                    assert(t[a] == k);
                }
            }
            assert forall|a: int, b: int| 0 <= a < b < t.len() implies t[a] != t[b] by {
                assert(from[a] < from[b]);
                assert(self.records@[from[a]].address@ != self.records@[from[b]].address@);
            }
        }
        list
    }
}

} // verus!
