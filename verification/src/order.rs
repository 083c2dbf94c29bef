//! Orders of positions: `0..n` sorted by a total order on positions.
use vstd::prelude::*;
use vstd::relations::{sorted_by, total_ordering};
use vstd::seq_lib::lemma_sorted_unique;

verus! {

broadcast use vstd::seq_lib::group_to_multiset_ensures;

/// The positions `0, 1, …, n - 1`.
pub open spec fn positions(n: nat) -> Seq<int> {
    Seq::new(n, |i: int| i)
}

/// A sequence sorted by a total order and holding exactly the positions `0..n` is
/// the positions sorted by that order.
pub proof fn lemma_sorted_positions(order: Seq<int>, n: nat, leq: spec_fn(int, int) -> bool)
    requires
        total_ordering(leq),
        sorted_by(order, leq),
        order.to_multiset() == positions(n).to_multiset(),
    ensures
        order == positions(n).sort_by(leq),
{
    positions(n).lemma_sort_by_ensures(leq);
    lemma_sorted_unique(order, positions(n).sort_by(leq), leq);
}

/// Inserting position `n` anywhere into an arrangement of `0..n` gives an
/// arrangement of `0..n + 1`.
pub proof fn lemma_insert_next_position(order: Seq<int>, n: nat, at: int)
    requires
        order.to_multiset() == positions(n).to_multiset(),
        0 <= at <= order.len(),
    ensures
        order.insert(at, n as int).to_multiset() == positions(n + 1).to_multiset(),
{
    assert(positions(n + 1) =~= positions(n).push(n as int));
}

/// The positions of a vector of indices.
pub open spec fn as_positions(v: Seq<usize>) -> Seq<int> {
    v.map_values(|k: usize| k as int)
}

pub proof fn lemma_as_positions_insert(v: Seq<usize>, at: int, x: usize)
    requires
        0 <= at <= v.len(),
    ensures
        as_positions(v.insert(at, x)) == as_positions(v).insert(at, x as int),
{
    assert(as_positions(v.insert(at, x)) =~= as_positions(v).insert(at, x as int));
}

} // verus!
