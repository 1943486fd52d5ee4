//! A stable sort over any total preorder, proved sorted, a permutation of its
//! input, and order-preserving among equal elements — which is what `std`'s
//! `sort_by` promises and what the rail's orderings rely on.

use vstd::prelude::*;

verus! {

/// A total preorder on `T` with an executable comparison.
pub trait Comparator<T> {
    /// `a` may come before `b`.
    spec fn spec_le(&self, a: &T, b: &T) -> bool;

    /// Any two elements are comparable.
    proof fn lemma_total(&self, a: &T, b: &T)
        ensures
            self.spec_le(a, b) || self.spec_le(b, a),
    ;

    /// The order is transitive.
    proof fn lemma_trans(&self, a: &T, b: &T, c: &T)
        requires
            self.spec_le(a, b),
            self.spec_le(b, c),
        ensures
            self.spec_le(a, c),
    ;

    /// Decide [`spec_le`](Self::spec_le).
    fn le(&self, a: &T, b: &T) -> (r: bool)
        ensures
            r == self.spec_le(a, b),
    ;
}

/// `s` is ordered by `spec_le`.
pub open spec fn sorted<T, C: Comparator<T>>(c: C, s: Seq<T>) -> bool {
    forall|i: int, j: int| 0 <= i < j < s.len() ==> c.spec_le(&#[trigger] s[i], &#[trigger] s[j])
}

/// `perm` is a permutation of `0..n`.
pub open spec fn is_perm(perm: Seq<int>, n: int) -> bool {
    &&& perm.len() == n
    &&& forall|k: int| 0 <= k < n ==> 0 <= #[trigger] perm[k] < n
    &&& forall|k: int, l: int| 0 <= k < l < n ==> #[trigger] perm[k] != #[trigger] perm[l]
}

/// `out` is `input` rearranged by `perm`, with elements the order cannot tell
/// apart kept in their input order.
pub open spec fn stable_rearrangement<T, C: Comparator<T>>(
    c: C,
    input: Seq<T>,
    out: Seq<T>,
    perm: Seq<int>,
) -> bool {
    &&& out.len() == input.len()
    &&& is_perm(perm, input.len() as int)
    &&& forall|k: int| 0 <= k < out.len() ==> out[k] == input[#[trigger] perm[k]]
    &&& forall|k: int, l: int|
        0 <= k < l < out.len() && c.spec_le(&#[trigger] out[l], &#[trigger] out[k]) ==> perm[k] < perm[l]
}

/// `out` is the stable sort of `input`.
pub open spec fn stably_sorted<T, C: Comparator<T>>(c: C, input: Seq<T>, out: Seq<T>) -> bool {
    sorted(c, out) && exists|perm: Seq<int>| stable_rearrangement(c, input, out, perm)
}

/// Sort `v` stably by the comparator `c`.
pub fn stable_sort<T, C: Comparator<T>>(v: Vec<T>, c: &C) -> (r: Vec<T>)
    ensures
        stably_sorted(*c, v@, r@),
{
    let ghost input = v@;
    let mut rest = v;
    let mut out: Vec<T> = Vec::new();
    let ghost mut perm: Seq<int> = Seq::empty();
    let n = rest.len();
    let mut i: usize = 0;
    while i < n
        invariant
            n == input.len(),
            0 <= i <= n,
            rest@ == input.subrange(i as int, n as int),
            out@.len() == i,
            sorted(*c, out@),
            perm.len() == i,
            forall|k: int| 0 <= k < i ==> 0 <= #[trigger] perm[k] < i,
            forall|k: int, l: int| 0 <= k < l < i ==> #[trigger] perm[k] != #[trigger] perm[l],
            forall|k: int| 0 <= k < i ==> out@[k] == input[#[trigger] perm[k]],
            forall|k: int, l: int|
                0 <= k < l < i && c.spec_le(&#[trigger] out@[l], &#[trigger] out@[k]) ==> perm[k]
                    < perm[l],
        decreases n - i,
    {
        let x = rest.remove(0);
        assert(x == input[i as int]);
        // Find the first element that must come after `x`.
        let mut p: usize = 0;
        while p < out.len()
            invariant
                0 <= p <= out@.len(),
                forall|j: int| 0 <= j < p ==> c.spec_le(&#[trigger] out@[j], &x),
            ensures
                0 <= p <= out@.len(),
                forall|j: int| 0 <= j < p ==> c.spec_le(&#[trigger] out@[j], &x),
                p < out@.len() ==> !c.spec_le(&out@[p as int], &x),
            decreases out@.len() - p,
        {
            if !c.le(&out[p], &x) {
                break;
            }
            p += 1;
        }
        proof {
            // Everything from `p` on is strictly after `x`.
            assert forall|j: int| p <= j < out@.len() implies !c.spec_le(&#[trigger] out@[j], &x) by {
                if c.spec_le(&out@[j], &x) && j > p {
                    assert(c.spec_le(&out@[p as int], &out@[j]));
                    c.lemma_trans(&out@[p as int], &out@[j], &x);
                }
            }
        }
        let ghost old_out = out@;
        let ghost old_perm = perm;
        out.insert(p, x);
        proof {
            perm = old_perm.subrange(0, p as int).push(i as int) + old_perm.subrange(
                p as int,
                i as int,
            );
            assert forall|k: int| 0 <= k < i + 1 implies out@[k] == input[#[trigger] perm[k]] by {
                if k < p {
                } else if k == p {
                } else {
                    assert(perm[k] == old_perm[k - 1]);
                }
            }
            assert forall|k: int| 0 <= k < i + 1 implies 0 <= #[trigger] perm[k] < i + 1 by {
                if k > p {
                    assert(perm[k] == old_perm[k - 1]);
                }
            }
            assert forall|k: int, l: int| 0 <= k < l < i + 1 implies #[trigger] perm[k]
                != #[trigger] perm[l] by {
                if l < p {
                } else if l == p {
                } else if k < p {
                    assert(perm[l] == old_perm[l - 1]);
                } else if k == p {
                    assert(perm[l] == old_perm[l - 1]);
                } else {
                    assert(perm[l] == old_perm[l - 1]);
                    assert(perm[k] == old_perm[k - 1]);
                }
            }
            assert forall|a: int, b: int| 0 <= a < b < out@.len() implies c.spec_le(&#[trigger] out@[a], &#[trigger] out@[b]) by {
                if b < p {
                    assert(c.spec_le(&old_out[a], &old_out[b]));
                } else if b == p {
                    assert(out@[a] == old_out[a]);
                } else if a < p {
                    assert(out@[b] == old_out[b - 1]);
                    assert(c.spec_le(&old_out[a], &x));
                    c.lemma_total(&old_out[b - 1], &x);
                    c.lemma_trans(&old_out[a], &x, &old_out[b - 1]);
                } else if a == p {
                    assert(out@[b] == old_out[b - 1]);
                    c.lemma_total(&old_out[b - 1], &x);
                } else {
                    assert(out@[a] == old_out[a - 1]);
                    assert(out@[b] == old_out[b - 1]);
                    assert(c.spec_le(&old_out[a - 1], &old_out[b - 1]));
                }
            }
            assert forall|a: int, b: int|
                0 <= a < b < out@.len() && c.spec_le(&#[trigger] out@[b], &#[trigger] out@[a]) implies perm[a] < perm[b] by {
                if b < p {
                } else if b == p {
                } else if a < p {
                    assert(perm[b] == old_perm[b - 1]);
                    assert(out@[b] == old_out[b - 1]);
                    if c.spec_le(&out@[b], &out@[a]) {
                        assert(c.spec_le(&old_out[a], &x));
                        c.lemma_trans(&old_out[b - 1], &old_out[a], &x);
                    }
                } else if a == p {
                    assert(out@[b] == old_out[b - 1]);
                } else {
                    assert(perm[b] == old_perm[b - 1]);
                    assert(perm[a] == old_perm[a - 1]);
                    assert(out@[a] == old_out[a - 1]);
                    assert(out@[b] == old_out[b - 1]);
                }
            }
        }
        i += 1;
    }
    assert(stable_rearrangement(*c, input, out@, perm));
    out
}

} // verus!
