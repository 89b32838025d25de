//! Ordered-subsequence predicates over character sequences.
//!
//! `is_subsequence` is the greedy, front-to-front characterization that the
//! boolean pre-filter computes; `is_embedding` names an explicit witness: a
//! strictly increasing choice of positions.  The lemmas connect the two.

use vstd::prelude::*;

use crate::casefold::fold_lower;
use crate::casefold::lemma_fold_lower_concat;
use crate::casefold::lower_of;

verus! {

/// `a` is an ordered (not necessarily contiguous) subsequence of `b`,
/// characterized greedily: a head match consumes both heads, otherwise the
/// head of `b` is dropped.
pub open spec fn is_subsequence(a: Seq<char>, b: Seq<char>) -> bool
    decreases b.len(),
{
    if a.len() == 0 {
        true
    } else if b.len() == 0 {
        false
    } else if a[0] == b[0] {
        is_subsequence(a.skip(1), b.skip(1))
    } else {
        is_subsequence(a, b.skip(1))
    }
}

/// `m` embeds `a` into `b`: strictly increasing positions of `b`, one per
/// character of `a`, each carrying the corresponding character.
pub open spec fn is_embedding(m: Seq<int>, a: Seq<char>, b: Seq<char>) -> bool {
    &&& m.len() == a.len()
    &&& forall|k: int| 0 <= k < m.len() ==> 0 <= #[trigger] m[k] < b.len() && a[k] == b[m[k]]
    &&& forall|k1: int, k2: int| #![trigger m[k1], m[k2]] 0 <= k1 < k2 < m.len() ==> m[k1] < m[k2]
}

/// Some embedding of `a` into `b` exists.
pub open spec fn has_embedding(a: Seq<char>, b: Seq<char>) -> bool {
    exists|m: Seq<int>| is_embedding(m, a, b)
}

/// Whenever an explicit embedding exists, the greedy check succeeds.
pub proof fn lemma_embedding_implies_subsequence(a: Seq<char>, b: Seq<char>)
    requires
        has_embedding(a, b),
    ensures
        is_subsequence(a, b),
    decreases b.len(),
{
    let m = choose|m: Seq<int>| is_embedding(m, a, b);
    if a.len() == 0 {
    } else {
        assert(0 <= m[0] < b.len());
        assert(a[0] == b[m[0]]);
        if a[0] == b[0] {
            let m2 = m.skip(1).map_values(|x: int| x - 1);
            assert(is_embedding(m2, a.skip(1), b.skip(1))) by {
                assert forall|k: int| 0 <= k < m2.len() implies 0 <= #[trigger] m2[k]
                    < b.skip(1).len() && a.skip(1)[k] == b.skip(1)[m2[k]] by {
                    assert(m2[k] == m[k + 1] - 1);
                    assert(m[0] < m[k + 1]);
                    assert(a[k + 1] == b[m[k + 1]]);
                }
                assert forall|k1: int, k2: int| #![trigger m2[k1], m2[k2]] 0 <= k1 < k2
                    < m2.len() implies m2[k1] < m2[k2] by {
                    assert(m[k1 + 1] < m[k2 + 1]);
                }
            }
            assert(has_embedding(a.skip(1), b.skip(1)));
            lemma_embedding_implies_subsequence(a.skip(1), b.skip(1));
        } else {
            assert(m[0] != 0);
            let m2 = m.map_values(|x: int| x - 1);
            assert(is_embedding(m2, a, b.skip(1))) by {
                assert forall|k: int| 0 <= k < m2.len() implies 0 <= #[trigger] m2[k]
                    < b.skip(1).len() && a[k] == b.skip(1)[m2[k]] by {
                    assert(m2[k] == m[k] - 1);
                    if k > 0 {
                        assert(m[0] < m[k]);
                    }
                    assert(a[k] == b[m[k]]);
                }
                assert forall|k1: int, k2: int| #![trigger m2[k1], m2[k2]] 0 <= k1 < k2
                    < m2.len() implies m2[k1] < m2[k2] by {
                    assert(m[k1] < m[k2]);
                }
            }
            assert(has_embedding(a, b.skip(1)));
            lemma_embedding_implies_subsequence(a, b.skip(1));
        }
    }
}

/// Whenever the greedy check succeeds, an explicit embedding exists.
pub proof fn lemma_subsequence_implies_embedding(a: Seq<char>, b: Seq<char>)
    requires
        is_subsequence(a, b),
    ensures
        has_embedding(a, b),
    decreases b.len(),
{
    if a.len() == 0 {
        let m0 = Seq::<int>::empty();
        assert(is_embedding(m0, a, b));
    } else if a[0] == b[0] {
        lemma_subsequence_implies_embedding(a.skip(1), b.skip(1));
        let m2 = choose|m: Seq<int>| is_embedding(m, a.skip(1), b.skip(1));
        let m0 = seq![0int] + m2.map_values(|x: int| x + 1);
        assert(is_embedding(m0, a, b)) by {
            assert forall|k: int| 0 <= k < m0.len() implies 0 <= #[trigger] m0[k] < b.len()
                && a[k] == b[m0[k]] by {
                if k > 0 {
                    assert(m0[k] == m2[k - 1] + 1);
                    assert(a.skip(1)[k - 1] == b.skip(1)[m2[k - 1]]);
                }
            }
            assert forall|k1: int, k2: int| #![trigger m0[k1], m0[k2]] 0 <= k1 < k2
                < m0.len() implies m0[k1] < m0[k2] by {
                if k1 > 0 {
                    assert(m2[k1 - 1] < m2[k2 - 1]);
                }
            }
        }
    } else {
        lemma_subsequence_implies_embedding(a, b.skip(1));
        let m2 = choose|m: Seq<int>| is_embedding(m, a, b.skip(1));
        let m0 = m2.map_values(|x: int| x + 1);
        assert(is_embedding(m0, a, b)) by {
            assert forall|k: int| 0 <= k < m0.len() implies 0 <= #[trigger] m0[k] < b.len()
                && a[k] == b[m0[k]] by {
                assert(a[k] == b.skip(1)[m2[k]]);
            }
            assert forall|k1: int, k2: int| #![trigger m0[k1], m0[k2]] 0 <= k1 < k2
                < m0.len() implies m0[k1] < m0[k2] by {
                assert(m2[k1] < m2[k2]);
            }
        }
    }
}

/// Document positions that carry the case-folded pattern characters, one
/// per pattern character and strictly increasing, yield an embedding of the
/// folded pattern into the folded document: each position contributes its
/// whole lowercase block.
pub proof fn lemma_folded_witness_embedding(p: Seq<char>, d: Seq<char>, w: Seq<int>)
    requires
        w.len() == p.len(),
        forall|k: int| 0 <= k < w.len() ==> 0 <= #[trigger] w[k] < d.len(),
        forall|k1: int, k2: int| #![trigger w[k1], w[k2]] 0 <= k1 < k2 < w.len() ==> w[k1]
            < w[k2],
        forall|k: int| 0 <= k < w.len() ==> lower_of(d[#[trigger] w[k]]) == lower_of(p[k]),
    ensures
        has_embedding(fold_lower(p), fold_lower(d)),
    decreases p.len(),
{
    if p.len() == 0 {
        assert(fold_lower(p) == Seq::<char>::empty());
        assert(is_embedding(Seq::<int>::empty(), fold_lower(p), fold_lower(d)));
    } else {
        let i0 = w[0];
        assert(0 <= i0 < d.len());
        assert(d =~= (d.take(i0) + seq![d[i0]]) + d.skip(i0 + 1));
        lemma_fold_lower_concat(d.take(i0) + seq![d[i0]], d.skip(i0 + 1));
        lemma_fold_lower_concat(d.take(i0), seq![d[i0]]);
        assert(seq![d[i0]].skip(1) =~= Seq::<char>::empty());
        assert(fold_lower(Seq::<char>::empty()) == Seq::<char>::empty());
        assert(fold_lower(seq![d[i0]]) == lower_of(seq![d[i0]][0]) + Seq::<char>::empty());
        assert(seq![d[i0]][0] == d[i0]);
        assert(fold_lower(seq![d[i0]]) =~= lower_of(d[i0]));
        let pre = fold_lower(d.take(i0));
        let blk = lower_of(d[i0]);
        let post = fold_lower(d.skip(i0 + 1));
        let fd = fold_lower(d);
        assert(fd == (pre + blk) + post);
        let p1 = p.skip(1);
        let d1 = d.skip(i0 + 1);
        let w1 = w.skip(1).map_values(|x: int| x - (i0 + 1));
        assert forall|k: int| 0 <= k < w1.len() implies 0 <= #[trigger] w1[k] < d1.len()
            && lower_of(d1[w1[k]]) == lower_of(p1[k]) by {
            assert(w1[k] == w[k + 1] - (i0 + 1));
            assert(w[0] < w[k + 1]);
            assert(d1[w1[k]] == d[w[k + 1]]);
            assert(lower_of(d[w[k + 1]]) == lower_of(p[k + 1]));
        }
        assert forall|k1: int, k2: int| #![trigger w1[k1], w1[k2]] 0 <= k1 < k2
            < w1.len() implies w1[k1] < w1[k2] by {
            assert(w[k1 + 1] < w[k2 + 1]);
        }
        lemma_folded_witness_embedding(p1, d1, w1);
        let m1 = choose|m: Seq<int>| is_embedding(m, fold_lower(p1), fold_lower(d1));
        let off = pre.len() + blk.len();
        let fp = fold_lower(p);
        assert(fp == lower_of(p[0]) + fold_lower(p1));
        assert(blk == lower_of(p[0]));
        assert(blk.len() == lower_of(p[0]).len());
        let m0 = Seq::<int>::new(
            fp.len(),
            |k: int|
                if k < blk.len() {
                    pre.len() + k
                } else {
                    m1[k - blk.len()] + off
                },
        );
        assert(is_embedding(m0, fp, fd)) by {
            assert forall|k: int| 0 <= k < m0.len() implies 0 <= #[trigger] m0[k] < fd.len()
                && fp[k] == fd[m0[k]] by {
                if k < blk.len() {
                    assert(fp[k] == lower_of(p[0])[k]);
                    assert(fd[pre.len() + k] == (pre + blk)[pre.len() + k]);
                    assert((pre + blk)[pre.len() + k] == blk[k]);
                } else {
                    let j = k - blk.len();
                    assert(0 <= m1[j] < post.len());
                    assert(fold_lower(p1)[j] == post[m1[j]]);
                    assert(fp[k] == fold_lower(p1)[j]);
                    assert(fd[m1[j] + off] == post[m1[j]]);
                }
            }
            assert forall|k1: int, k2: int| #![trigger m0[k1], m0[k2]] 0 <= k1 < k2
                < m0.len() implies m0[k1] < m0[k2] by {
                if k1 < blk.len() && k2 >= blk.len() {
                    assert(0 <= m1[k2 - blk.len()]);
                } else if k1 >= blk.len() {
                    assert(m1[k1 - blk.len()] < m1[k2 - blk.len()]);
                }
            }
        }
        assert(has_embedding(fp, fd));
    }
}

} // verus!
