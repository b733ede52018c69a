//! Stable ordering of positions by an integer key, largest key first.

use vstd::prelude::*;

verus! {

/// Position `i` comes before position `j`: its key is larger, or the keys
/// are equal and `i` is the earlier position.
pub open spec fn precedes(keys: Seq<i128>, i: int, j: int) -> bool {
    keys[i] > keys[j] || (keys[i] == keys[j] && i < j)
}

/// `perm` lists every position of `keys` once, by descending key, and keeps
/// positions with equal keys in their original order.
pub open spec fn is_descending_order(keys: Seq<i128>, perm: Seq<usize>) -> bool {
    &&& perm.len() == keys.len()
    &&& keys.len() <= usize::MAX
    &&& forall|a: int| 0 <= a < perm.len() ==> (#[trigger] perm[a]) < keys.len()
    &&& forall|a: int, b: int|
        0 <= a < b < perm.len() ==> precedes(keys, #[trigger] perm[a] as int, #[trigger] perm[b] as int)
    &&& forall|j: usize| j < keys.len() ==> #[trigger] perm.contains(j)
}

/// The stable descending order of the positions of `keys`.
pub open spec fn descending_perm(keys: Seq<i128>) -> Seq<usize> {
    choose|perm: Seq<usize>| is_descending_order(keys, perm)
}

/// `items` rearranged into the stable descending order of `keys`.
pub open spec fn arranged<T>(items: Seq<T>, keys: Seq<i128>) -> Seq<T> {
    Seq::new(items.len(), |k: int| items[descending_perm(keys)[k] as int])
}

/// There is only one stable descending order.
pub proof fn lemma_descending_order_unique(keys: Seq<i128>, p: Seq<usize>, q: Seq<usize>)
    requires
        is_descending_order(keys, p),
        is_descending_order(keys, q),
    ensures
        p == q,
{
    assert forall|a: int| 0 <= a < p.len() implies p[a] == q[a] by {
        lemma_same_up_to(keys, p, q, a);
    }
    assert(p =~= q);
}

proof fn lemma_same_up_to(keys: Seq<i128>, p: Seq<usize>, q: Seq<usize>, a: int)
    requires
        is_descending_order(keys, p),
        is_descending_order(keys, q),
        0 <= a < p.len(),
    ensures
        p[a] == q[a],
    decreases a,
{
    assert forall|k: int| 0 <= k < a implies p[k] == q[k] by {
        lemma_same_up_to(keys, p, q, k);
    }
    assert(p.contains(q[a]));
    let b = choose|b: int| 0 <= b < p.len() && p[b] == q[a];
    assert(q.contains(p[a]));
    let c = choose|c: int| 0 <= c < q.len() && q[c] == p[a];
    if b < a {
        lemma_order_is_injective(keys, q, b, a);
    }
    if c < a {
        lemma_order_is_injective(keys, p, c, a);
    }
    if b > a && c > a {
        assert(precedes(keys, p[a] as int, p[b] as int));
        assert(precedes(keys, q[a] as int, q[c] as int));
    }
}

/// The positions of `keys` in stable descending order of their keys.
pub fn descending_order(keys: &Vec<i128>) -> (perm: Vec<usize>)
    ensures
        is_descending_order(keys@, perm@),
        perm@ == descending_perm(keys@),
{
    let n = keys.len();
    let mut perm: Vec<usize> = Vec::new();
    let mut i: usize = 0;
    while i < n
        invariant
            n == keys.len(),
            0 <= i <= n,
            perm.len() == i,
            forall|a: int| 0 <= a < perm.len() ==> (#[trigger] perm[a]) < i,
            forall|a: int, b: int|
                0 <= a < b < perm.len() ==> precedes(
                    keys@,
                    #[trigger] perm[a] as int,
                    #[trigger] perm[b] as int,
                ),
            forall|j: usize| j < i ==> #[trigger] perm@.contains(j),
        decreases n - i,
    {
        let key = keys[i];
        let mut p: usize = 0;
        while p < perm.len() && keys[perm[p]] >= key
            invariant
                n == keys.len(),
                i < n,
                key == keys[i as int],
                perm.len() == i,
                0 <= p <= perm.len(),
                forall|a: int| 0 <= a < perm.len() ==> (#[trigger] perm[a]) < i,
                forall|a: int| 0 <= a < p ==> keys[(#[trigger] perm[a]) as int] >= key,
            decreases perm.len() - p,
        {
            p += 1;
        }
        let ghost before = perm@;
        perm.insert(p, i);
        proof {
            before.insert_ensures(p as int, i);
            let after = perm@;
            assert forall|a: int, b: int| 0 <= a < b < after.len() implies precedes(
                keys@,
                #[trigger] after[a] as int,
                #[trigger] after[b] as int,
            ) by {
                if b < p {
                    assert(after[a] == before[a] && after[b] == before[b]);
                } else if b == p {
                    assert(after[a] == before[a]);
                } else if a == p {
                    assert(after[b] == before[b - 1]);
                    assert(precedes(keys@, before[p as int] as int, before[b - 1] as int) || b - 1
                        == p);
                } else if a < p {
                    assert(after[a] == before[a] && after[b] == before[b - 1]);
                } else {
                    assert(after[a] == before[a - 1] && after[b] == before[b - 1]);
                }
            }
            assert forall|j: usize| j < i + 1 implies #[trigger] after.contains(j) by {
                if j == i {
                    assert(after[p as int] == j);
                } else {
                    assert(before.contains(j));
                    let a0 = choose|a: int| 0 <= a < before.len() && before[a] == j;
                    if a0 < p {
                        assert(after[a0] == j);
                    } else {
                        assert(after[a0 + 1] == j);
                    }
                }
            }
        }
        i += 1;
    }
    proof {
        lemma_descending_order_unique(keys@, perm@, descending_perm(keys@));
    }
    perm
}

/// In such an order no position occurs twice.
pub proof fn lemma_order_is_injective(keys: Seq<i128>, perm: Seq<usize>, a: int, b: int)
    requires
        is_descending_order(keys, perm),
        0 <= a < perm.len(),
        0 <= b < perm.len(),
        perm[a] == perm[b],
    ensures
        a == b,
{
    if a < b {
        assert(precedes(keys, perm[a] as int, perm[b] as int));
    } else if b < a {
        assert(precedes(keys, perm[b] as int, perm[a] as int));
    }
}

} // verus!
