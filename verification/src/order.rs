//! The order of the table: larger counts first, equal counts in stored order.

use vstd::prelude::*;

verus! {

/// Whether the record at place `a` stands above the record at place `b`:
/// its count is larger, or the counts are equal and it is stored earlier.
pub open spec fn comes_before(keys: Seq<u32>, a: int, b: int) -> bool {
    keys[a] > keys[b] || (keys[a] == keys[b] && a < b)
}

/// Whether `order` lists the places of all records by descending count, with
/// equal counts in stored order: every place occurs, and each entry stands
/// above all later ones.
pub open spec fn is_table_order(keys: Seq<u32>, order: Seq<usize>) -> bool {
    &&& order.len() == keys.len()
    &&& forall|i: int| 0 <= i < order.len() ==> (#[trigger] order[i]) < keys.len()
    &&& forall|i: int, j: int|
        0 <= i < j < order.len() ==> comes_before(
            keys,
            (#[trigger] order[i]) as int,
            (#[trigger] order[j]) as int,
        )
    &&& forall|k: usize| k < keys.len() ==> #[trigger] order.contains(k)
}

/// The order of the table for the given counts.
pub open spec fn table_order(keys: Seq<u32>) -> Seq<usize> {
    choose|order: Seq<usize>| is_table_order(keys, order)
}

/// Along a table order the counts never increase.
pub proof fn lemma_order_descends(keys: Seq<u32>, order: Seq<usize>)
    requires
        is_table_order(keys, order),
    ensures
        forall|i: int, j: int|
            0 <= i <= j < order.len() ==> keys[(#[trigger] order[i]) as int] >= keys[(
            #[trigger] order[j]) as int],
{
}

/// Records with equal counts keep their stored order.
pub proof fn lemma_order_is_stable(keys: Seq<u32>, order: Seq<usize>)
    requires
        is_table_order(keys, order),
    ensures
        forall|i: int, j: int|
            0 <= i < j < order.len() && keys[(#[trigger] order[i]) as int] == keys[(
            #[trigger] order[j]) as int] ==> order[i] < order[j],
{
}

/// There is only one table order for given counts.
pub proof fn lemma_order_is_unique(keys: Seq<u32>, a: Seq<usize>, b: Seq<usize>)
    requires
        is_table_order(keys, a),
        is_table_order(keys, b),
    ensures
        a == b,
{
    assert forall|i: int| 0 <= i < a.len() implies a[i] == b[i] by {
        lemma_same_prefix(keys, a, b, i);
    }
    assert(a =~= b);
}

proof fn lemma_same_prefix(keys: Seq<u32>, a: Seq<usize>, b: Seq<usize>, i: int)
    requires
        is_table_order(keys, a),
        is_table_order(keys, b),
        0 <= i < a.len(),
    ensures
        a[i] == b[i],
    decreases i,
{
    assert forall|j: int| 0 <= j < i implies a[j] == b[j] by {
        lemma_same_prefix(keys, a, b, j);
    }
    if a[i] != b[i] {
        let x = a[i] as int;
        let y = b[i] as int;
        // where a's entry stands in b, and b's entry in a
        assert(b.contains(a[i]));
        assert(a.contains(b[i]));
        let m = choose|m: int| 0 <= m < b.len() && b[m] == a[i];
        let w = choose|w: int| 0 <= w < a.len() && a[w] == b[i];
        if m < i {
            assert(a[m] == b[m]);
            assert(comes_before(keys, a[m] as int, a[i] as int));
        }
        if w < i {
            assert(b[w] == a[w]);
            assert(comes_before(keys, b[w] as int, b[i] as int));
        }
        assert(m > i && w > i);
        assert(comes_before(keys, b[i] as int, b[m] as int));
        assert(comes_before(keys, a[i] as int, a[w] as int));
    }
}

/// The places of the records by descending count; records with equal counts
/// keep their stored order.
pub fn sorted_order(keys: &Vec<u32>) -> (order: Vec<usize>)
    ensures
        is_table_order(keys@, order@),
        order@ == table_order(keys@),
        forall|i: int, j: int|
            0 <= i <= j < order@.len() ==> keys@[(#[trigger] order@[i]) as int] >= keys@[(
            #[trigger] order@[j]) as int],
{
    let n = keys.len();
    let mut order: Vec<usize> = Vec::new();
    let mut k: usize = 0;
    while k < n
        invariant
            k <= n,
            n == keys@.len(),
            order@.len() == k,
            forall|i: int| 0 <= i < order@.len() ==> (#[trigger] order@[i]) < k,
            forall|i: int, j: int|
                0 <= i < j < order@.len() ==> comes_before(
                    keys@,
                    (#[trigger] order@[i]) as int,
                    (#[trigger] order@[j]) as int,
                ),
            forall|m: usize| m < k ==> #[trigger] order@.contains(m),
        decreases n - k,
    {
        let mut p: usize = order.len();
        while p > 0 && keys[order[p - 1]] < keys[k]
            invariant
                p <= order@.len(),
                order@.len() == k,
                k < n,
                n == keys@.len(),
                forall|i: int| 0 <= i < order@.len() ==> (#[trigger] order@[i]) < k,
                forall|j: int|
                    p <= j < order@.len() ==> keys@[(#[trigger] order@[j]) as int] < keys@[k as int],
            decreases p,
        {
            p -= 1;
        }
        let ghost before = order@;
        proof {
            assert forall|i: int| 0 <= i < p implies keys@[(#[trigger] before[i]) as int]
                >= keys@[k as int] by {
                if i < p - 1 {
                    assert(comes_before(keys@, before[i] as int, before[p - 1] as int));
                }
            }
        }
        order.insert(p, k);
        proof {
            let after = order@;
            assert(after =~= before.insert(p as int, k));
            assert forall|i: int, j: int| 0 <= i < j < after.len() implies comes_before(
                keys@,
                (#[trigger] after[i]) as int,
                (#[trigger] after[j]) as int,
            ) by {
                if j < p {
                    assert(after[i] == before[i] && after[j] == before[j]);
                } else if j == p {
                    assert(after[i] == before[i]);
                } else if i < p {
                    assert(after[i] == before[i] && after[j] == before[j - 1]);
                } else if i == p {
                    assert(after[j] == before[j - 1]);
                } else {
                    assert(after[i] == before[i - 1] && after[j] == before[j - 1]);
                }
            }
            assert forall|m: usize| m < k + 1 implies #[trigger] after.contains(m) by {
                if m == k {
                    assert(after[p as int] == m);
                } else {
                    assert(before.contains(m));
                    let i = choose|i: int| 0 <= i < before.len() && before[i] == m;
                    if i < p {
                        assert(after[i] == m);
                    } else {
                        assert(after[i + 1] == m);
                    }
                }
            }
            assert forall|i: int| 0 <= i < after.len() implies (#[trigger] after[i]) < k + 1 by {
                if i < p {
                    assert(after[i] == before[i]);
                } else if i > p {
                    assert(after[i] == before[i - 1]);
                }
            }
        }
        k += 1;
    }
    proof {
        assert(is_table_order(keys@, order@));
        lemma_order_is_unique(keys@, order@, table_order(keys@));
    }
    order
}

} // verus!
