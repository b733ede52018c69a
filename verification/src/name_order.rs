//! Stable ordering of positions by a name, names compared byte by byte.

use vstd::prelude::*;

verus! {

/// `a` comes before `b` in the order of their bytes: at the first place
/// where they differ `a` has the smaller byte, or `a` ends there and `b`
/// goes on.
pub open spec fn lex_lt(a: Seq<u8>, b: Seq<u8>) -> bool
    decreases a.len(),
{
    if b.len() == 0 {
        false
    } else if a.len() == 0 {
        true
    } else if a[0] != b[0] {
        a[0] < b[0]
    } else {
        lex_lt(a.drop_first(), b.drop_first())
    }
}

/// Of two different names one comes before the other.
pub proof fn lemma_lex_total(a: Seq<u8>, b: Seq<u8>)
    requires
        a != b,
    ensures
        lex_lt(a, b) || lex_lt(b, a),
    decreases a.len(),
{
    if a.len() > 0 && b.len() > 0 && a[0] == b[0] {
        if a.drop_first() == b.drop_first() {
            assert(a =~= seq![a[0]] + a.drop_first());
            assert(b =~= seq![b[0]] + b.drop_first());
        }
        lemma_lex_total(a.drop_first(), b.drop_first());
    } else if a.len() == 0 && b.len() == 0 {
        assert(a =~= b);
    }
}

/// The order is transitive.
pub proof fn lemma_lex_transitive(a: Seq<u8>, b: Seq<u8>, c: Seq<u8>)
    requires
        lex_lt(a, b),
        lex_lt(b, c),
    ensures
        lex_lt(a, c),
    decreases a.len(),
{
    if a.len() > 0 && b.len() > 0 && c.len() > 0 && a[0] == b[0] && b[0] == c[0] {
        lemma_lex_transitive(a.drop_first(), b.drop_first(), c.drop_first());
    }
}

/// Whether `a` comes before `b` in the order of their bytes.
pub fn bytes_lt(a: &[u8], b: &[u8]) -> (r: bool)
    ensures
        r == lex_lt(a@, b@),
{
    let mut i: usize = 0;
    assert(a@.subrange(0, a@.len() as int) =~= a@);
    assert(b@.subrange(0, b@.len() as int) =~= b@);
    while i < a.len() && i < b.len()
        invariant
            0 <= i <= a.len(),
            i <= b.len(),
            lex_lt(a@, b@) == lex_lt(
                a@.subrange(i as int, a@.len() as int),
                b@.subrange(i as int, b@.len() as int),
            ),
        decreases a.len() - i,
    {
        let ghost ra = a@.subrange(i as int, a@.len() as int);
        let ghost rb = b@.subrange(i as int, b@.len() as int);
        assert(ra[0] == a@[i as int] && rb[0] == b@[i as int]);
        if a[i] != b[i] {
            return a[i] < b[i];
        }
        assert(ra.drop_first() =~= a@.subrange(i + 1, a@.len() as int));
        assert(rb.drop_first() =~= b@.subrange(i + 1, b@.len() as int));
        i += 1;
    }
    let ghost ra = a@.subrange(i as int, a@.len() as int);
    let ghost rb = b@.subrange(i as int, b@.len() as int);
    assert(ra.len() == a.len() - i && rb.len() == b.len() - i);
    i < b.len()
}

/// Position `i` comes before position `j`: its name comes first, or the
/// names are equal and `i` is the earlier position.
pub open spec fn name_precedes(names: Seq<Seq<u8>>, i: int, j: int) -> bool {
    lex_lt(names[i], names[j]) || (names[i] == names[j] && i < j)
}

/// `perm` lists every position of `names` once, by ascending name, and
/// keeps positions with equal names in their original order.
pub open spec fn is_ascending_order(names: Seq<Seq<u8>>, perm: Seq<usize>) -> bool {
    &&& perm.len() == names.len()
    &&& names.len() <= usize::MAX
    &&& forall|a: int| 0 <= a < perm.len() ==> (#[trigger] perm[a]) < names.len()
    &&& forall|a: int, b: int|
        0 <= a < b < perm.len() ==> name_precedes(
            names,
            #[trigger] perm[a] as int,
            #[trigger] perm[b] as int,
        )
    &&& forall|j: usize| j < names.len() ==> #[trigger] perm.contains(j)
}

/// The bytes of the names of a list.
pub open spec fn name_bytes(names: Seq<Vec<u8>>) -> Seq<Seq<u8>> {
    names.map_values(|n: Vec<u8>| n@)
}

/// The positions of `names` in stable ascending order of the names.
pub fn ascending_order(names: &Vec<Vec<u8>>) -> (perm: Vec<usize>)
    ensures
        is_ascending_order(name_bytes(names@), perm@),
{
    let n = names.len();
    let ghost keys = name_bytes(names@);
    let mut perm: Vec<usize> = Vec::new();
    let mut i: usize = 0;
    while i < n
        invariant
            n == names.len(),
            keys == name_bytes(names@),
            0 <= i <= n,
            perm.len() == i,
            forall|a: int| 0 <= a < perm.len() ==> (#[trigger] perm[a]) < i,
            forall|a: int, b: int|
                0 <= a < b < perm.len() ==> name_precedes(
                    keys,
                    #[trigger] perm[a] as int,
                    #[trigger] perm[b] as int,
                ),
            forall|j: usize| j < i ==> #[trigger] perm@.contains(j),
        decreases n - i,
    {
        let key = names[i].as_slice();
        assert(key@ == keys[i as int]);
        let mut p: usize = 0;
        while p < perm.len() && !bytes_lt(key, names[perm[p]].as_slice())
            invariant
                n == names.len(),
                keys == name_bytes(names@),
                i < n,
                key@ == keys[i as int],
                perm.len() == i,
                0 <= p <= perm.len(),
                forall|a: int| 0 <= a < perm.len() ==> (#[trigger] perm[a]) < i,
                forall|a: int| 0 <= a < p ==> !lex_lt(key@, keys[(#[trigger] perm[a]) as int]),
            decreases perm.len() - p,
        {
            assert(names[perm[p as int] as int]@ == keys[perm[p as int] as int]);
            p += 1;
        }
        let ghost before = perm@;
        proof {
            if p < perm.len() {
                assert(names[perm[p as int] as int]@ == keys[perm[p as int] as int]);
                assert(lex_lt(key@, keys[before[p as int] as int]));
            }
        }
        perm.insert(p, i);
        proof {
            before.insert_ensures(p as int, i);
            let after = perm@;
            assert forall|a: int, b: int| 0 <= a < b < after.len() implies name_precedes(
                keys,
                #[trigger] after[a] as int,
                #[trigger] after[b] as int,
            ) by {
                if b < p {
                    assert(after[a] == before[a] && after[b] == before[b]);
                } else if b == p {
                    assert(after[a] == before[a]);
                    let e = keys[before[a] as int];
                    if e != key@ {
                        lemma_lex_total(e, key@);
                    }
                } else if a == p {
                    assert(after[b] == before[b - 1]);
                    let first = keys[before[p as int] as int];
                    let other = keys[before[b - 1] as int];
                    if b - 1 > p {
                        assert(name_precedes(keys, before[p as int] as int, before[b - 1] as int));
                        if lex_lt(first, other) {
                            lemma_lex_transitive(key@, first, other);
                        }
                    }
                } else if a < p {
                    assert(after[a] == before[a] && after[b] == before[b - 1]);
                } else {
                    assert(after[a] == before[a - 1] && after[b] == before[b - 1]);
                }
            }
            assert forall|j: usize| j < i + 1 implies #[trigger] after.contains(j) by {
                if j == i {
                    assert(after[p as int] == j);
                } else {
                    assert(before.contains(j));
                    let a0 = choose|a: int| 0 <= a < before.len() && before[a] == j;
                    if a0 < p {
                        assert(after[a0] == j);
                    } else {
                        assert(after[a0 + 1] == j);
                    }
                }
            }
        }
        i += 1;
    }
    perm
}

} // verus!
