//! Sums over finite maps of natural numbers.
use vstd::prelude::*;

verus! {

/// The sum of all amounts held in a finite map.
pub open spec fn sum_of<K>(m: Map<K, nat>) -> nat
    decreases m.dom().len(),
    when m.dom().finite()
{
    if m.dom().len() == 0 {
        0
    } else {
        let k = m.dom().choose();
        m[k] + sum_of(m.remove(k))
    }
}

/// The amount a map holds under a key, zero where the key is absent.
pub open spec fn amount_in<K>(m: Map<K, nat>, k: K) -> nat {
    if m.dom().contains(k) {
        m[k]
    } else {
        0
    }
}

/// The empty map sums to zero.
pub proof fn lemma_sum_empty<K>()
    ensures
        sum_of(Map::<K, nat>::empty()) == 0,
{
}

/// Any entry can be split off from the sum.
pub proof fn lemma_sum_remove<K>(m: Map<K, nat>, k: K)
    requires
        m.dom().finite(),
        m.dom().contains(k),
    ensures
        sum_of(m) == m[k] + sum_of(m.remove(k)),
    decreases m.dom().len(),
{
    let c = m.dom().choose();
    if c != k {
        lemma_sum_remove(m.remove(c), k);
        lemma_sum_remove(m.remove(k), c);
        assert(m.remove(c).remove(k) =~= m.remove(k).remove(c));
    }
}

/// Writing an amount under a key replaces that key's share of the sum.
pub proof fn lemma_sum_insert<K>(m: Map<K, nat>, k: K, v: nat)
    requires
        m.dom().finite(),
    ensures
        sum_of(m.insert(k, v)) + amount_in(m, k) == sum_of(m) + v,
{
    let m2 = m.insert(k, v);
    lemma_sum_remove(m2, k);
    assert(m2.remove(k) =~= m.remove(k));
    if m.dom().contains(k) {
        lemma_sum_remove(m, k);
    } else {
        assert(m.remove(k) =~= m);
    }
}

/// No single amount exceeds the sum.
pub proof fn lemma_sum_bounds<K>(m: Map<K, nat>, k: K)
    requires
        m.dom().finite(),
    ensures
        amount_in(m, k) <= sum_of(m),
{
    if m.dom().contains(k) {
        lemma_sum_remove(m, k);
    }
}


/// Whether a map holds no zero amount.
pub open spec fn positive<K>(m: Map<K, nat>) -> bool {
    forall|k: K| m.dom().contains(k) ==> #[trigger] m[k] > 0
}

/// A map after `amount` was added under `k`.
pub open spec fn credited<K>(m: Map<K, nat>, k: K, amount: nat) -> Map<K, nat> {
    if amount == 0 {
        m
    } else {
        m.insert(k, amount_in(m, k) + amount)
    }
}

/// A map after `amount` was taken from what it holds under `k`; a key whose
/// amount reaches zero leaves the map. Meant for `amount <= amount_in(m, k)`.
pub open spec fn debited<K>(m: Map<K, nat>, k: K, amount: nat) -> Map<K, nat> {
    if amount == 0 {
        m
    } else if amount == amount_in(m, k) {
        m.remove(k)
    } else {
        m.insert(k, (amount_in(m, k) - amount) as nat)
    }
}

/// Adding an amount under a key adds it to the sum, and keeps a map finite
/// and free of zero amounts.
pub proof fn lemma_credited<K>(m: Map<K, nat>, k: K, amount: nat)
    requires
        m.dom().finite(),
    ensures
        credited(m, k, amount).dom().finite(),
        sum_of(credited(m, k, amount)) == sum_of(m) + amount,
        positive(m) ==> positive(credited(m, k, amount)),
        amount_in(credited(m, k, amount), k) == amount_in(m, k) + amount,
        forall|j: K| j != k ==> amount_in(credited(m, k, amount), j) == amount_in(m, j),
{
    if amount > 0 {
        lemma_sum_insert(m, k, amount_in(m, k) + amount);
    }
}

/// Taking an amount that is held under a key takes it from the sum, and
/// keeps a map finite and free of zero amounts.
pub proof fn lemma_debited<K>(m: Map<K, nat>, k: K, amount: nat)
    requires
        m.dom().finite(),
        amount <= amount_in(m, k),
    ensures
        debited(m, k, amount).dom().finite(),
        sum_of(debited(m, k, amount)) == sum_of(m) - amount,
        positive(m) ==> positive(debited(m, k, amount)),
        amount_in(debited(m, k, amount), k) == amount_in(m, k) - amount,
        forall|j: K| j != k ==> amount_in(debited(m, k, amount), j) == amount_in(m, j),
{
    if amount > 0 {
        if amount == amount_in(m, k) {
            lemma_sum_remove(m, k);
        } else {
            lemma_sum_insert(m, k, (amount_in(m, k) - amount) as nat);
        }
    }
}

/// Adding an amount and taking it again leaves a map as it was.
pub proof fn lemma_credit_then_debit<K>(m: Map<K, nat>, k: K, amount: nat)
    requires
        positive(m),
    ensures
        debited(credited(m, k, amount), k, amount) == m,
{
    assert(debited(credited(m, k, amount), k, amount) =~= m);
}

/// Taking an amount that is held and adding it again leaves a map as it was.
pub proof fn lemma_debit_then_credit<K>(m: Map<K, nat>, k: K, amount: nat)
    requires
        amount <= amount_in(m, k),
    ensures
        credited(debited(m, k, amount), k, amount) == m,
{
    assert(credited(debited(m, k, amount), k, amount) =~= m);
}

} // verus!
