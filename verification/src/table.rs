//! Tables of token amounts keyed by an address.
use crate::sums::{
    amount_in, credited, debited, lemma_sum_insert, lemma_sum_remove, positive, sum_of,
};
use vstd::prelude::*;

verus! {

/// What a type needs to serve as the key of an [`AmountTable`]: a view that
/// identifies it, a test for equal views, and a way to copy it.
pub trait TableKey: View + Sized {
    /// Whether two keys have the same view.
    fn same(&self, other: &Self) -> (r: bool)
        ensures
            r == (self@ == other@),
    ;

    /// A copy of the key.
    fn duplicate(&self) -> (r: Self)
        ensures
            r@ == self@,
    ;
}

impl TableKey for String {
    fn same(&self, other: &Self) -> (r: bool) {
        *self == *other
    }

    fn duplicate(&self) -> (r: Self) {
        self.clone()
    }
}

/// A key made of two addresses, such as a delegator and a validator.
#[derive(Debug, PartialEq, Eq)]
pub struct PairKey {
    pub first: String,
    pub second: String,
}

impl View for PairKey {
    type V = (Seq<char>, Seq<char>);

    open spec fn view(&self) -> (Seq<char>, Seq<char>) {
        (self.first@, self.second@)
    }
}

impl PairKey {
    /// The key made of the two given addresses.
    pub fn new(first: &str, second: &str) -> (k: Self)
        ensures
            k@ == (first@, second@),
    {
        PairKey { first: first.to_owned(), second: second.to_owned() }
    }
}

impl TableKey for PairKey {
    fn same(&self, other: &Self) -> (r: bool) {
        self.first == other.first && self.second == other.second
    }

    fn duplicate(&self) -> (r: Self) {
        PairKey { first: self.first.clone(), second: self.second.clone() }
    }
}

/// Where `k` stands in a list of keys.
pub open spec fn position_of<K>(order: Seq<K>, k: K) -> int {
    choose|i: int| 0 <= i < order.len() && order[i] == k
}

/// The order of the keys after `amount` was added under `k`: a key that is
/// new to the table comes last, and the others stay where they are.
pub open spec fn credit_order<K>(order: Seq<K>, m: Map<K, nat>, k: K, amount: nat) -> Seq<K> {
    if amount == 0 || m.dom().contains(k) {
        order
    } else {
        order.push(k)
    }
}

/// The order of the keys after `amount` was taken from what is held under
/// `k`: a key whose amount reaches zero leaves, and the others stay in their
/// order.
pub open spec fn debit_order<K>(order: Seq<K>, m: Map<K, nat>, k: K, amount: nat) -> Seq<K> {
    if amount > 0 && amount == amount_in(m, k) {
        order.remove(position_of(order, k))
    } else {
        order
    }
}

/// Whether a list of keys names every key of a map exactly once.
pub open spec fn orders<K>(m: Map<K, nat>, order: Seq<K>) -> bool {
    &&& forall|i: int| 0 <= i < order.len() ==> m.dom().contains(#[trigger] order[i])
    &&& forall|i: int, j: int| 0 <= i < j < order.len() ==> order[i] != order[j]
    &&& forall|k: K| #[trigger]
        m.dom().contains(k) ==> exists|i: int| 0 <= i < order.len() && order[i] == k
}

/// Adding an amount keeps an order that names every key once.
pub proof fn lemma_credit_orders<K>(order: Seq<K>, m: Map<K, nat>, k: K, amount: nat)
    requires
        orders(m, order),
    ensures
        orders(credited(m, k, amount), credit_order(order, m, k, amount)),
{
    let n = credited(m, k, amount);
    let o = credit_order(order, m, k, amount);
    if amount > 0 {
        if m.dom().contains(k) {
            assert forall|j: K| #[trigger] n.dom().contains(j) implies exists|i: int|
                0 <= i < o.len() && o[i] == j by {
                assert(m.dom().contains(j));
            }
        } else {
            assert forall|i: int| 0 <= i < o.len() implies n.dom().contains(#[trigger] o[i]) by {
                if i < order.len() {
                    assert(m.dom().contains(order[i]));
                }
            }
            assert forall|i: int, j: int| 0 <= i < j < o.len() implies o[i] != o[j] by {
                if j == order.len() {
                    assert(m.dom().contains(order[i]));
                }
            }
            assert forall|j: K| #[trigger] n.dom().contains(j) implies exists|i: int|
                0 <= i < o.len() && o[i] == j by {
                if j == k {
                    assert(o[order.len() as int] == j);
                } else {
                    assert(m.dom().contains(j));
                    let i = choose|i: int| 0 <= i < order.len() && order[i] == j;
                    assert(o[i] == j);
                }
            }
        }
    }
}

/// Taking an amount that is held keeps an order that names every key once.
pub proof fn lemma_debit_orders<K>(order: Seq<K>, m: Map<K, nat>, k: K, amount: nat)
    requires
        orders(m, order),
        amount <= amount_in(m, k),
    ensures
        orders(debited(m, k, amount), debit_order(order, m, k, amount)),
{
    let n = debited(m, k, amount);
    let o = debit_order(order, m, k, amount);
    if amount > 0 {
        assert(m.dom().contains(k));
        if amount == amount_in(m, k) {
            let p = position_of(order, k);
            assert(0 <= p < order.len() && order[p] == k);
            assert forall|i: int| 0 <= i < o.len() implies n.dom().contains(#[trigger] o[i]) by {
                let i2 = if i < p { i } else { i + 1 };
                assert(o[i] == order[i2]);
                assert(m.dom().contains(order[i2]));
                if i2 < p {
                    assert(order[i2] != order[p]);
                } else {
                    assert(order[p] != order[i2]);
                }
            }
            assert forall|i: int, j: int| 0 <= i < j < o.len() implies o[i] != o[j] by {
                let i2 = if i < p { i } else { i + 1 };
                let j2 = if j < p { j } else { j + 1 };
                assert(o[i] == order[i2] && o[j] == order[j2]);
            }
            assert forall|j: K| #[trigger] n.dom().contains(j) implies exists|i: int|
                0 <= i < o.len() && o[i] == j by {
                assert(m.dom().contains(j));
                let i = choose|i: int| 0 <= i < order.len() && order[i] == j;
                let i2 = if i < p { i } else { i - 1 };
                assert(o[i2] == j);
            }
        } else {
            assert forall|j: K| #[trigger] n.dom().contains(j) implies exists|i: int|
                0 <= i < o.len() && o[i] == j by {
                assert(m.dom().contains(j));
            }
        }
    }
}

/// Adding an amount and taking it again leaves the order as it was.
pub proof fn lemma_credit_then_debit_order<K>(order: Seq<K>, m: Map<K, nat>, k: K, amount: nat)
    requires
        orders(m, order),
        positive(m),
    ensures
        debit_order(credit_order(order, m, k, amount), credited(m, k, amount), k, amount)
            == order,
{
    if amount > 0 && !m.dom().contains(k) {
        let o = order.push(k);
        let p = position_of(o, k);
        assert(o[order.len() as int] == k);
        assert(0 <= p < o.len() && o[p] == k);
        if p < order.len() {
            assert(m.dom().contains(order[p]));
        }
        assert(o.remove(p) =~= order);
    }
}

/// Whether a list names every key of a map exactly once, each with the
/// amount the map holds under it.
pub open spec fn lists<K: View>(m: Map<K::V, nat>, s: Seq<Holding<K>>) -> bool {
    &&& forall|i: int|
        0 <= i < s.len() ==> m.dom().contains(#[trigger] s[i].key@) && m[s[i].key@] == s[i].amount
    &&& forall|i: int, j: int| 0 <= i < j < s.len() ==> s[i].key@ != s[j].key@
    &&& forall|k: K::V| #[trigger]
        m.dom().contains(k) ==> exists|i: int| 0 <= i < s.len() && s[i].key@ == k
}

/// One line of an [`AmountTable`]: an address and the amount held under it.
#[derive(Debug, PartialEq, Eq)]
pub struct Holding<K> {
    pub key: K,
    pub amount: u128,
}

/// Amounts keyed by address. Absent keys hold zero, no key is stored with a
/// zero amount, and the sum of all amounts fits in a `u128`.
pub struct AmountTable<K: TableKey> {
    entries: Vec<Holding<K>>,
    total: u128,
}

pub closed spec fn entries_sum<K: View>(s: Seq<Holding<K>>) -> nat
    decreases s.len(),
{
    if s.len() == 0 {
        0
    } else {
        entries_sum(s.drop_last()) + s.last().amount as nat
    }
}

pub closed spec fn entries_map<K: View>(s: Seq<Holding<K>>) -> Map<K::V, nat>
    decreases s.len(),
{
    if s.len() == 0 {
        Map::empty()
    } else {
        entries_map(s.drop_last()).insert(s.last().key@, s.last().amount as nat)
    }
}

spec fn entries_keys<K: View>(s: Seq<Holding<K>>) -> Seq<K::V> {
    Seq::new(s.len(), |i: int| s[i].key@)
}

spec fn distinct_keys<K: View>(s: Seq<Holding<K>>) -> bool {
    forall|i: int, j: int| 0 <= i < j < s.len() ==> s[i].key@ != s[j].key@
}

spec fn positive_amounts<K: View>(s: Seq<Holding<K>>) -> bool {
    forall|i: int| 0 <= i < s.len() ==> #[trigger] s[i].amount > 0
}

proof fn lemma_entries<K: View>(s: Seq<Holding<K>>)
    requires
        distinct_keys(s),
    ensures
        entries_map(s).dom().finite(),
        sum_of(entries_map(s)) == entries_sum(s),
        forall|i: int|
            0 <= i < s.len() ==> entries_map(s).dom().contains(#[trigger] s[i].key@)
                && entries_map(s)[s[i].key@] == s[i].amount,
        forall|k: K::V| #[trigger]
            entries_map(s).dom().contains(k) ==> exists|i: int| 0 <= i < s.len() && s[i].key@ == k,
    decreases s.len(),
{
    if s.len() > 0 {
        let p = s.drop_last();
        lemma_entries(p);
        let last = s.last();
        assert(!entries_map(p).dom().contains(last.key@)) by {
            if entries_map(p).dom().contains(last.key@) {
                let i = choose|i: int| 0 <= i < p.len() && p[i].key@ == last.key@;
                assert(s[i].key@ == s[s.len() - 1].key@);
            }
        }
        lemma_sum_insert(entries_map(p), last.key@, last.amount as nat);
        assert forall|i: int| 0 <= i < s.len() implies entries_map(s).dom().contains(
            #[trigger] s[i].key@,
        ) && entries_map(s)[s[i].key@] == s[i].amount by {
            if i < s.len() - 1 {
                assert(p[i] == s[i]);
                assert(s[i].key@ != s[s.len() - 1].key@);
            }
        }
        assert forall|k: K::V| #[trigger] entries_map(s).dom().contains(k) implies exists|
            i: int,
        | 0 <= i < s.len() && s[i].key@ == k by {
            if k == last.key@ {
                assert(s[s.len() - 1].key@ == k);
            } else {
                let i = choose|i: int| 0 <= i < p.len() && p[i].key@ == k;
                assert(s[i].key@ == k);
            }
        }
    }
}

proof fn lemma_entries_sum_update<K: View>(s: Seq<Holding<K>>, i: int, h: Holding<K>)
    requires
        0 <= i < s.len(),
    ensures
        entries_sum(s.update(i, h)) + s[i].amount == entries_sum(s) + h.amount,
    decreases s.len(),
{
    let t = s.update(i, h);
    if i == s.len() - 1 {
        assert(t.drop_last() =~= s.drop_last());
    } else {
        lemma_entries_sum_update(s.drop_last(), i, h);
        assert(t.drop_last() =~= s.drop_last().update(i, h));
    }
}

proof fn lemma_entries_sum_remove<K: View>(s: Seq<Holding<K>>, i: int)
    requires
        0 <= i < s.len(),
    ensures
        entries_sum(s.remove(i)) + s[i].amount == entries_sum(s),
    decreases s.len(),
{
    let t = s.remove(i);
    if i == s.len() - 1 {
        assert(t =~= s.drop_last());
    } else {
        lemma_entries_sum_remove(s.drop_last(), i);
        assert(t.drop_last() =~= s.drop_last().remove(i));
        assert(t.last() == s.last());
    }
}

proof fn lemma_entries_sum_push<K: View>(s: Seq<Holding<K>>, h: Holding<K>)
    ensures
        entries_sum(s.push(h)) == entries_sum(s) + h.amount,
{
    assert(s.push(h).drop_last() =~= s);
}

impl<K: TableKey> AmountTable<K> {
    #[verifier::type_invariant]
    spec fn well_formed(self) -> bool {
        &&& distinct_keys(self.entries@)
        &&& positive_amounts(self.entries@)
        &&& self.total == entries_sum(self.entries@)
    }

    /// The table as a map from address to the positive amount held under it.
    pub closed spec fn view(&self) -> Map<K::V, nat> {
        entries_map(self.entries@)
    }

    /// The keys in the order in which they entered the table.
    pub closed spec fn order(&self) -> Seq<K::V> {
        entries_keys(self.entries@)
    }

    /// The amount held under `key`, zero where the table has no such key.
    pub open spec fn amount(&self, key: K::V) -> nat {
        amount_in(self@, key)
    }

    /// The sum of all amounts in the table.
    pub open spec fn sum(&self) -> nat {
        sum_of(self@)
    }

    /// An empty table.
    pub fn new() -> (t: Self)
        ensures
            t@ == Map::<K::V, nat>::empty(),
            t.order() == Seq::<K::V>::empty(),
    {
        AmountTable { entries: Vec::new(), total: 0 }
    }

    /// What holds of every table: finitely many keys, no zero amount, and a
    /// sum within `u128`.
    pub fn bounds(&self)
        ensures
            self@.dom().finite(),
            positive(self@),
            orders(self@, self.order()),
            forall|k: K::V| self@.dom().contains(k) ==> #[trigger] self@[k] <= self.sum(),
            self.sum() <= u128::MAX,
    {
        proof {
            use_type_invariant(self);
            lemma_entries(self.entries@);
            assert forall|k: K::V| self@.dom().contains(k) implies 0 < #[trigger] self@[k]
                <= self.sum() by {
                let i = choose|i: int| 0 <= i < self.entries@.len() && self.entries@[i].key@ == k;
                assert(self.entries@[i].amount > 0);
                lemma_sum_remove(self@, k);
            }
            let order = self.order();
            assert forall|i: int| 0 <= i < order.len() implies self@.dom().contains(
                #[trigger] order[i],
            ) by {
                assert(self@.dom().contains(self.entries@[i].key@));
            }
            assert forall|i: int, j: int| 0 <= i < j < order.len() implies order[i]
                != order[j] by {
                assert(self.entries@[i].key@ != self.entries@[j].key@);
            }
            assert forall|k: K::V| #[trigger] self@.dom().contains(k) implies exists|i: int|
                0 <= i < order.len() && order[i] == k by {
                let i = choose|i: int| 0 <= i < self.entries@.len() && self.entries@[i].key@ == k;
                assert(order[i] == k);
            }
        }
    }

    fn find(&self, key: &K) -> (r: Option<usize>)
        ensures
            match r {
                Some(i) => i < self.entries@.len() && self.entries@[i as int].key@ == key@,
                None => forall|j: int| 0 <= j < self.entries@.len() ==> self.entries@[j].key@ != key@,
            },
    {
        let mut i: usize = 0;
        while i < self.entries.len()
            invariant
                i <= self.entries@.len(),
                forall|j: int| 0 <= j < i ==> self.entries@[j].key@ != key@,
            decreases self.entries@.len() - i,
        {
            if self.entries[i].key.same(key) {
                return Some(i);
            }
            i = i + 1;
        }
        None
    }

    /// The amount held under `key`.
    pub fn get(&self, key: &K) -> (a: u128)
        ensures
            a == self.amount(key@),
    {
        proof {
            use_type_invariant(self);
            lemma_entries(self.entries@);
        }
        match self.find(key) {
            Some(i) => self.entries[i].amount,
            None => 0,
        }
    }

    /// The sum of all amounts.
    pub fn total(&self) -> (t: u128)
        ensures
            t == self.sum(),
    {
        proof {
            use_type_invariant(self);
            lemma_entries(self.entries@);
        }
        self.total
    }

    /// Adds `amount` under `key` unless the sum would leave `u128`; says
    /// whether it did.
    pub fn credit(&mut self, key: &K, amount: u128) -> (done: bool)
        ensures
            done == (old(self).sum() + amount <= u128::MAX),
            done ==> final(self)@ == credited(old(self)@, key@, amount as nat),
            done ==> final(self).order() == credit_order(
                old(self).order(),
                old(self)@,
                key@,
                amount as nat,
            ),
            !done ==> final(self).order() == old(self).order(),
            !done ==> final(self)@ == old(self)@,
            done ==> final(self).sum() == old(self).sum() + amount,
    {
        proof {
            use_type_invariant(&*self);
            lemma_entries(self.entries@);
        }
        if amount > u128::MAX - self.total {
            return false;
        }
        if amount == 0 {
            return true;
        }
        let owned = key.duplicate();
        let found = self.find(key);
        let mut taken = AmountTable::new();
        std::mem::swap(self, &mut taken);
        let AmountTable { entries, total } = taken;
        let mut entries = entries;
        let ghost before = entries@;
        match found {
            Some(i) => {
                proof {
                    lemma_sum_remove(entries_map(before), key@);
                }
                let held = entries[i].amount;
                entries.set(i, Holding { key: owned, amount: held + amount });
                proof {
                    assert(entries_keys(entries@) =~= entries_keys(before));
                    lemma_entries_sum_update(before, i as int, entries@[i as int]);
                    lemma_entries(entries@);
                    assert(entries_map(entries@) =~= entries_map(before).insert(
                        key@,
                        (held + amount) as nat,
                    )) by {
                        lemma_same_keys(before, entries@);
                    }
                }
            },
            None => {
                entries.push(Holding { key: owned, amount });
                proof {
                    assert(entries_keys(entries@) =~= entries_keys(before).push(key@));
                    lemma_entries_sum_push(before, entries@.last());
                    assert(entries@.drop_last() =~= before);
                }
            },
        }
        proof {
            lemma_sum_insert(
                entries_map(before),
                key@,
                (amount_in(entries_map(before), key@) + amount) as nat,
            );
        }
        *self = AmountTable { entries, total: total + amount };
        true
    }
}

impl<K: TableKey> AmountTable<K> {
    /// Takes `amount` from what is held under `key` unless less is held;
    /// says whether it did. A key whose amount reaches zero leaves the table.
    pub fn debit(&mut self, key: &K, amount: u128) -> (done: bool)
        ensures
            done == (amount <= old(self).amount(key@)),
            done ==> final(self)@ == debited(old(self)@, key@, amount as nat),
            done ==> final(self).order() == debit_order(
                old(self).order(),
                old(self)@,
                key@,
                amount as nat,
            ),
            !done ==> final(self).order() == old(self).order(),
            !done ==> final(self)@ == old(self)@,
            done ==> final(self).sum() == old(self).sum() - amount,
    {
        proof {
            use_type_invariant(&*self);
            lemma_entries(self.entries@);
        }
        if amount == 0 {
            return true;
        }
        let found = self.find(key);
        let i = match found {
            Some(i) => i,
            None => {
                return false;
            },
        };
        let held = self.entries[i].amount;
        if amount > held {
            return false;
        }
        let owned = key.duplicate();
        let mut taken = AmountTable::new();
        std::mem::swap(self, &mut taken);
        let AmountTable { entries, total } = taken;
        let mut entries = entries;
        let ghost before = entries@;
        proof {
            lemma_sum_remove(entries_map(before), key@);
        }
        if amount == held {
            entries.remove(i);
            proof {
                lemma_entries_sum_remove(before, i as int);
                lemma_removed_key(before, i as int);
                let keys = entries_keys(before);
                let p = position_of(keys, key@);
                assert(keys[i as int] == key@);
                assert(0 <= p < keys.len() && keys[p] == key@);
                assert(p == i) by {
                    if p < i {
                        assert(before[p].key@ != before[i as int].key@);
                    }
                    if i < p {
                        assert(before[i as int].key@ != before[p].key@);
                    }
                }
                assert(entries_keys(entries@) =~= keys.remove(i as int));
            }
        } else {
            entries.set(i, Holding { key: owned, amount: held - amount });
            proof {
                assert(entries_keys(entries@) =~= entries_keys(before));
                lemma_entries_sum_update(before, i as int, entries@[i as int]);
                lemma_entries(entries@);
                lemma_same_keys(before, entries@);
                assert(entries_map(entries@) =~= entries_map(before).insert(
                    key@,
                    (held - amount) as nat,
                ));
                lemma_sum_insert(entries_map(before), key@, (held - amount) as nat);
            }
        }
        *self = AmountTable { entries, total: total - amount };
        true
    }

    /// Removes `key` and hands out what was held under it.
    pub fn take(&mut self, key: &K) -> (a: u128)
        ensures
            a == old(self).amount(key@),
            final(self)@ == old(self)@.remove(key@),
            final(self).order() == debit_order(old(self).order(), old(self)@, key@, a as nat),
            final(self).sum() == old(self).sum() - a,
    {
        self.bounds();
        let held = self.get(key);
        let _ = self.debit(key, held);
        assert(self@ =~= old(self)@.remove(key@));
        held
    }

    /// The number of keys in the table.
    pub fn len(&self) -> (n: usize)
        ensures
            n == self@.dom().len(),
    {
        proof {
            use_type_invariant(self);
            lemma_entries_len(self.entries@);
        }
        self.entries.len()
    }

    /// Every key with its amount, in the order in which the keys entered
    /// the table.
    pub fn holdings(&self) -> (list: Vec<Holding<K>>)
        ensures
            lists(self@, list@),
            list@.len() == self.order().len(),
            forall|i: int| 0 <= i < list@.len() ==> (#[trigger] list@[i]).key@ == self.order()[i],
    {
        proof {
            use_type_invariant(self);
            lemma_entries(self.entries@);
        }
        let mut list: Vec<Holding<K>> = Vec::new();
        let mut i: usize = 0;
        while i < self.entries.len()
            invariant
                i <= self.entries@.len(),
                list@.len() == i,
                forall|j: int|
                    0 <= j < i ==> list@[j].key@ == self.entries@[j].key@ && list@[j].amount
                        == self.entries@[j].amount,
            decreases self.entries@.len() - i,
        {
            list.push(Holding { key: self.entries[i].key.duplicate(), amount: self.entries[i].amount });
            i = i + 1;
        }
        proof {
            assert forall|k: K::V| #[trigger] self@.dom().contains(k) implies exists|i: int|
                0 <= i < list@.len() && list@[i].key@ == k by {
                let i = choose|i: int| 0 <= i < self.entries@.len() && self.entries@[i].key@ == k;
                assert(list@[i].key@ == k);
            }
            assert forall|i: int, j: int| 0 <= i < j < list@.len() implies list@[i].key@
                != list@[j].key@ by {
                assert(self.entries@[i].key@ != self.entries@[j].key@);
            }
            assert forall|i: int| 0 <= i < list@.len() implies self@.dom().contains(
                #[trigger] list@[i].key@,
            ) && self@[list@[i].key@] == list@[i].amount by {
                assert(self@.dom().contains(self.entries@[i].key@));
            }
        }
        list
    }
}

/// A list of distinct keys gives a map with as many keys.
proof fn lemma_entries_len<K: View>(s: Seq<Holding<K>>)
    requires
        distinct_keys(s),
    ensures
        entries_map(s).dom().finite(),
        entries_map(s).dom().len() == s.len(),
    decreases s.len(),
{
    lemma_entries(s);
    if s.len() > 0 {
        let p = s.drop_last();
        lemma_entries_len(p);
        lemma_entries(p);
        assert(!entries_map(p).dom().contains(s.last().key@)) by {
            if entries_map(p).dom().contains(s.last().key@) {
                let i = choose|i: int| 0 <= i < p.len() && p[i].key@ == s.last().key@;
                assert(s[i].key@ == s[s.len() - 1].key@);
            }
        }
    }
}

/// Dropping one line of a list of distinct keys drops its key from the map.
proof fn lemma_removed_key<K: View>(s: Seq<Holding<K>>, i: int)
    requires
        0 <= i < s.len(),
        distinct_keys(s),
    ensures
        distinct_keys(s.remove(i)),
        entries_map(s.remove(i)) =~= entries_map(s).remove(s[i].key@),
{
    let t = s.remove(i);
    assert(distinct_keys(t)) by {
        assert forall|a: int, b: int| 0 <= a < b < t.len() implies t[a].key@ != t[b].key@ by {
            let a2 = if a < i { a } else { a + 1 };
            let b2 = if b < i { b } else { b + 1 };
            assert(t[a] == s[a2] && t[b] == s[b2]);
        }
    }
    lemma_entries(s);
    lemma_entries(t);
    let ms = entries_map(s);
    let mt = entries_map(t);
    assert forall|k: K::V| mt.dom().contains(k) <==> ms.remove(s[i].key@).dom().contains(k) by {
        if mt.dom().contains(k) {
            let a = choose|a: int| 0 <= a < t.len() && t[a].key@ == k;
            let a2 = if a < i { a } else { a + 1 };
            assert(t[a] == s[a2]);
            assert(ms.dom().contains(s[a2].key@));
            if a2 < i {
                assert(s[a2].key@ != s[i].key@);
            } else {
                assert(s[i].key@ != s[a2].key@);
            }
        }
        if ms.remove(s[i].key@).dom().contains(k) {
            let a = choose|a: int| 0 <= a < s.len() && s[a].key@ == k;
            let a2 = if a < i { a } else { a - 1 };
            assert(t[a2] == s[a]);
            assert(mt.dom().contains(t[a2].key@));
        }
    }
    assert forall|k: K::V| mt.dom().contains(k) implies mt[k] == ms.remove(s[i].key@)[k] by {
        let a = choose|a: int| 0 <= a < t.len() && t[a].key@ == k;
        let a2 = if a < i { a } else { a + 1 };
        assert(t[a] == s[a2]);
        assert(mt[t[a].key@] == t[a].amount);
        assert(ms[s[a2].key@] == s[a2].amount);
    }
}

/// Two lists with the same keys in the same places give maps that differ
/// only where the amounts differ.
proof fn lemma_same_keys<K: View>(s: Seq<Holding<K>>, t: Seq<Holding<K>>)
    requires
        s.len() == t.len(),
        distinct_keys(s),
        forall|i: int| 0 <= i < s.len() ==> s[i].key@ == t[i].key@,
    ensures
        distinct_keys(t),
        entries_map(t).dom() =~= entries_map(s).dom(),
        forall|i: int|
            0 <= i < s.len() && s[i].amount == t[i].amount ==> entries_map(t)[#[trigger] s[i].key@]
                == entries_map(s)[s[i].key@],
{
    assert(distinct_keys(t)) by {
        assert forall|i: int, j: int| 0 <= i < j < t.len() implies t[i].key@ != t[j].key@ by {
            assert(s[i].key@ != s[j].key@);
        }
    }
    lemma_entries(s);
    lemma_entries(t);
    assert forall|k: K::V| entries_map(t).dom().contains(k) <==> entries_map(s).dom().contains(
        k,
    ) by {
        if entries_map(t).dom().contains(k) {
            let i = choose|i: int| 0 <= i < t.len() && t[i].key@ == k;
            assert(s[i].key@ == k);
        }
        if entries_map(s).dom().contains(k) {
            let i = choose|i: int| 0 <= i < s.len() && s[i].key@ == k;
            assert(t[i].key@ == k);
        }
    }
}

} // verus!
