use vstd::prelude::*;

verus! {

/// Sequences of one length flatten to that length times their number.
pub proof fn lemma_flatten_uniform<A>(ss: Seq<Seq<A>>, m: nat)
    requires
        forall|i: int| 0 <= i < ss.len() ==> (#[trigger] ss[i]).len() == m,
    ensures
        ss.flatten().len() == ss.len() * m,
    decreases ss.len(),
{
    if ss.len() > 0 {
        let init = ss.drop_last();
        lemma_flatten_uniform(init, m);
        init.lemma_flatten_push(ss.last());
        assert(init.push(ss.last()) =~= ss);
        assert((ss.len() - 1) * m + m == ss.len() * m) by (nonlinear_arith);
    }
}

/// Sequences of at least one length flatten to at least that length times
/// their number.
pub proof fn lemma_flatten_at_least<A>(ss: Seq<Seq<A>>, m: nat)
    requires
        forall|i: int| 0 <= i < ss.len() ==> (#[trigger] ss[i]).len() >= m,
    ensures
        ss.flatten().len() >= ss.len() * m,
    decreases ss.len(),
{
    if ss.len() > 0 {
        let init = ss.drop_last();
        lemma_flatten_at_least(init, m);
        init.lemma_flatten_push(ss.last());
        assert(init.push(ss.last()) =~= ss);
        assert((ss.len() - 1) * m + m == ss.len() * m) by (nonlinear_arith);
    }
}

/// In sequences of one length `m`, entry `k` of sequence `i` is entry
/// `i * m + k` of the flattened whole.
pub proof fn lemma_flatten_index<A>(ss: Seq<Seq<A>>, m: nat, i: int, k: int)
    requires
        forall|j: int| 0 <= j < ss.len() ==> (#[trigger] ss[j]).len() == m,
        0 <= i < ss.len(),
        0 <= k < m,
    ensures
        0 <= i * m + k < ss.flatten().len(),
        ss.flatten()[i * m + k] == ss[i][k],
    decreases ss.len(),
{
    let init = ss.drop_last();
    let n = ss.len() as int;
    lemma_flatten_uniform(init, m);
    lemma_flatten_uniform(ss, m);
    init.lemma_flatten_push(ss.last());
    assert(init.push(ss.last()) =~= ss);
    assert((n - 1) * m + m == n * m) by (nonlinear_arith);
    if i < n - 1 {
        lemma_flatten_index(init, m, i, k);
    } else {
        assert(i * m + k - init.flatten().len() == k);
    }
    assert(0 <= i * m + k < n * m) by (nonlinear_arith)
        requires
            0 <= i < n,
            0 <= k < m,
    ;
}

} // verus!
