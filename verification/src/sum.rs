//! The sum of the amounts that a finite map holds.

use vstd::prelude::*;

verus! {

/// The sum of the values of `m`, for `m` with finitely many keys.
pub open spec fn total<K>(m: Map<K, nat>) -> nat
    decreases m.dom().len(),
    when m.dom().finite()
{
    if m.dom().is_empty() {
        0
    } else {
        let k = m.dom().choose();
        m[k] + total(m.remove(k))
    }
}

/// Any key can be taken out of the sum first.
pub proof fn lemma_total_remove<K>(m: Map<K, nat>, k: K)
    requires
        m.dom().finite(),
        m.contains_key(k),
    ensures
        total(m) == m[k] + total(m.remove(k)),
    decreases m.dom().len(),
{
    let c = m.dom().choose();
    if c != k {
        assert(m.dom().contains(c));
        lemma_total_remove(m.remove(c), k);
        lemma_total_remove(m.remove(k), c);
        assert(m.remove(c).remove(k) =~= m.remove(k).remove(c));
    }
}

/// Filing `v` under `k` adds `v` to the sum of the other keys.
pub proof fn lemma_total_insert<K>(m: Map<K, nat>, k: K, v: nat)
    requires
        m.dom().finite(),
    ensures
        total(m.insert(k, v)) == total(m.remove(k)) + v,
        !m.contains_key(k) ==> total(m.insert(k, v)) == total(m) + v,
        m.contains_key(k) ==> total(m.insert(k, v)) == total(m) - m[k] + v,
{
    lemma_total_remove(m.insert(k, v), k);
    assert(m.insert(k, v).remove(k) =~= m.remove(k));
    if m.contains_key(k) {
        lemma_total_remove(m, k);
    } else {
        assert(m.remove(k) =~= m);
    }
}

/// Taking a key out does not raise the sum.
pub proof fn lemma_total_remove_le<K>(m: Map<K, nat>, k: K)
    requires
        m.dom().finite(),
    ensures
        total(m.remove(k)) <= total(m),
{
    if m.contains_key(k) {
        lemma_total_remove(m, k);
    } else {
        assert(m.remove(k) =~= m);
    }
}

/// The map `m` with each value multiplied by `q`.
pub open spec fn scaled<K>(m: Map<K, nat>, q: nat) -> Map<K, nat> {
    m.map_values(|v: nat| q * v)
}

/// Multiplying each value by `q` multiplies the sum by `q`.
pub proof fn lemma_total_scaled<K>(m: Map<K, nat>, q: nat)
    requires
        m.dom().finite(),
    ensures
        total(scaled(m, q)) == q * total(m),
    decreases m.dom().len(),
{
    if m.dom().is_empty() {
        assert(scaled(m, q).dom() =~= m.dom());
        assert(q * 0 == 0);
    } else {
        let k = m.dom().choose();
        assert(scaled(m, q).dom() =~= m.dom());
        lemma_total_remove(scaled(m, q), k);
        assert(scaled(m, q).remove(k) =~= scaled(m.remove(k), q));
        lemma_total_scaled(m.remove(k), q);
        assert(q * (m[k] + total(m.remove(k))) == q * m[k] + q * total(m.remove(k)))
            by (nonlinear_arith);
    }
}

} // verus!
