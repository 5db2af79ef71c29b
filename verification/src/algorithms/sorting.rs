//! Sorting by insertion, and what it keeps.

use vstd::prelude::*;

verus! {

/// A sequence with the item at position `from` moved forward to position
/// `to`.
pub open spec fn moved_forward<V>(items: Seq<V>, from: int, to: int) -> Seq<V> {
    items.remove(from).insert(to, items[from])
}

/// Moving an item forward keeps the items what they are, and only shifts
/// those between the two positions.
pub proof fn lemma_moved_forward<V>(items: Seq<V>, from: int, to: int)
    requires
        0 <= to <= from < items.len(),
    ensures
        moved_forward(items, from, to).len() == items.len(),
        moved_forward(items, from, to).to_multiset() == items.to_multiset(),
        forall|i: int| 0 <= i < to ==> moved_forward(items, from, to)[i] == items[i],
        moved_forward(items, from, to)[to] == items[from],
        forall|i: int| to < i <= from ==> moved_forward(items, from, to)[i] == items[i - 1],
        forall|i: int| from < i < items.len() ==> moved_forward(items, from, to)[i] == items[i],
{
    let after = moved_forward(items, from, to);
    let taken = items.remove(from);
    broadcast use vstd::seq_lib::group_to_multiset_ensures;
    assert(after.remove(to) =~= taken);
    assert(taken.to_multiset() == items.to_multiset().remove(items[from]));
    assert(taken.to_multiset() == after.to_multiset().remove(after[to]));
    assert(items.contains(items[from]));
    assert(after.contains(after[to]));
    assert(after.to_multiset() =~= items.to_multiset()) by {
        assert forall|v: V| after.to_multiset().count(v) == items.to_multiset().count(v) by {
            assert(taken.to_multiset().count(v) == items.to_multiset().remove(items[from]).count(
                v,
            ));
            assert(taken.to_multiset().count(v) == after.to_multiset().remove(after[to]).count(v));
        }
    }
}

/// Whether the values fall, or stay, from each to the next.
pub open spec fn is_descending(values: Seq<u64>) -> bool {
    forall|i: int, j: int| 0 <= i < j < values.len() ==> values[i] >= values[j]
}

/// Sorts the values from the greatest to the least.
pub fn sort_descending(values: &mut Vec<u64>)
    ensures
        final(values)@.len() == old(values)@.len(),
        final(values)@.to_multiset() == old(values)@.to_multiset(),
        is_descending(final(values)@),
{
    let total: usize = values.len();
    let mut sorted: usize = 0;
    while sorted < total
        invariant
            sorted <= total,
            total == values@.len(),
            total == old(values)@.len(),
            values@.to_multiset() == old(values)@.to_multiset(),
            is_descending(values@.subrange(0, sorted as int)),
        decreases total - sorted,
    {
        let ghost current = values@;
        let ghost prefix = current.subrange(0, sorted as int);
        let value = values[sorted];
        let mut rank: usize = 0;
        while rank < sorted && values[rank] >= value
            invariant
                rank <= sorted < total,
                total == values@.len(),
                current == values@,
                value == current[sorted as int],
                forall|k: int| 0 <= k < rank ==> current[k] >= value,
            decreases sorted - rank,
        {
            rank = rank + 1;
        }
        proof {
            lemma_moved_forward(current, sorted as int, rank as int);
        }
        let taken = values.remove(sorted);
        values.insert(rank, taken);
        proof {
            let after = values@;
            assert(after == moved_forward(current, sorted as int, rank as int));
            let next = after.subrange(0, sorted as int + 1);
            assert forall|i: int, j: int| 0 <= i < j < next.len() implies next[i] >= next[j] by {
                if j < rank {
                    assert(prefix[i] >= prefix[j]);
                } else if j == rank {
                } else {
                    assert(current[rank as int] < value);
                    if j - 1 > rank {
                        assert(prefix[rank as int] >= prefix[j - 1]);
                    }
                    if i < rank {
                        assert(prefix[i] >= prefix[j - 1]);
                    } else if i > rank {
                        assert(prefix[i - 1] >= prefix[j - 1]);
                    }
                }
            }
        }
        sorted = sorted + 1;
    }
    assert(values@.subrange(0, total as int) =~= values@);
}

} // verus!
