//! Facts about flattening sequences of sequences.

use vstd::prelude::*;
use vstd::seq_lib::lemma_flatten_concat;

verus! {

/// The element at position `k` of a sequence of sequences sits in the
/// flattened sequence right after the elements before it.
pub proof fn lemma_flatten_element<A>(s: Seq<Seq<A>>, k: int)
    requires
        0 <= k < s.len(),
    ensures
        s.subrange(0, k).flatten().len() + s[k].len() <= s.flatten().len(),
        s.flatten().subrange(
            s.subrange(0, k).flatten().len() as int,
            (s.subrange(0, k).flatten().len() + s[k].len()) as int,
        ) == s[k],
{
    let pre = s.subrange(0, k);
    let post = s.subrange(k + 1, s.len() as int);
    assert(s =~= pre + (seq![s[k]] + post));
    lemma_flatten_concat(pre, seq![s[k]] + post);
    lemma_flatten_concat(seq![s[k]], post);
    seq![s[k]].lemma_flatten_one_element();
    assert(s.flatten() =~= pre.flatten() + (s[k] + post.flatten()));
    assert(s.flatten().subrange(pre.flatten().len() as int, (pre.flatten().len() + s[k].len()) as int) =~= s[k]);
}

/// Flattening elements of one length `m`.
pub proof fn lemma_flatten_uniform<A>(s: Seq<Seq<A>>, m: nat)
    requires
        forall|j: int| 0 <= j < s.len() ==> (#[trigger] s[j]).len() == m,
    ensures
        s.flatten().len() == s.len() * m,
    decreases s.len(),
{
    if s.len() > 0 {
        let d = s.drop_last();
        lemma_flatten_uniform(d, m);
        assert(d.push(s.last()) =~= s);
        d.lemma_flatten_push(s.last());
        assert((s.len() - 1) * m + m == s.len() * m) by (nonlinear_arith);
    }
}

/// The `i`-th element of a sequence of elements of one length `m` is the
/// `i`-th chunk of `m` items of the flattened sequence.
pub proof fn lemma_flatten_uniform_chunk<A>(s: Seq<Seq<A>>, m: nat, i: int)
    requires
        forall|j: int| 0 <= j < s.len() ==> (#[trigger] s[j]).len() == m,
        0 <= i < s.len(),
    ensures
        i * m + m <= s.flatten().len(),
        s.flatten().subrange(i * m, i * m + m) == s[i],
{
    lemma_flatten_element(s, i);
    lemma_flatten_uniform(s.subrange(0, i), m);
    lemma_flatten_uniform(s, m);
}

} // verus!
