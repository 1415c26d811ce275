//! The locality cost of a coordinate-to-slot mapping.
//!
//! Every cell is charged for each of its neighbors by the distance between
//! the two slots. A pair of neighbors is thus charged twice, once from each
//! side. A cell is not its own neighbor.

use vstd::prelude::*;
use vstd::seq_lib::lemma_fold_left_permutation;
use crate::coord::in_cube;
use crate::coord::lemma_neighbors_upto;
use crate::coord::lemma_row_major;
use crate::coord::neighbors_of;
use crate::coord::row_major;
use crate::coord::Coord;
use crate::layout::permutes_cube;

verus! {

/// Bytes of a cache line.
pub const CACHE_LINE_BYTES: usize = 64;

/// Bytes of one stored cell.
pub const CELL_BYTES: usize = 2;

/// Distance between two slots from which on they lie on different cache
/// lines: as many cells as fit one line.
pub const MISS_THRESHOLD: usize = 32;

/// How a pair of neighboring cells is charged for the distance between
/// their slots.
#[derive(Clone, Copy, Debug, PartialEq, Eq, Structural)]
pub enum CostPolicy {
    /// The distance, less one: adjacent slots are free.
    DistanceSum,
    /// One for every pair whose slots lie [`MISS_THRESHOLD`] or more apart.
    ThresholdMiss,
}

/// Distance between two slots.
pub open spec fn gap(a: int, b: int) -> int {
    if a <= b {
        b - a
    } else {
        a - b
    }
}

/// What a pair of neighbors with slots `a` and `b` is charged.
pub open spec fn penalty(policy: CostPolicy, a: int, b: int) -> int {
    match policy {
        CostPolicy::DistanceSum => gap(a, b) - 1,
        CostPolicy::ThresholdMiss => if gap(a, b) >= MISS_THRESHOLD {
            1
        } else {
            0
        },
    }
}

/// Adds to a sum what `c` is charged for its neighbor `n`.
pub open spec fn add_penalty(m: Map<Coord, usize>, policy: CostPolicy, c: Coord) -> spec_fn(
    int,
    Coord,
) -> int {
    |sum: int, n: Coord| sum + penalty(policy, m[c] as int, m[n] as int)
}

/// What the cell `c` is charged for all its neighbors.
pub open spec fn cell_cost(m: Map<Coord, usize>, policy: CostPolicy, width: int, c: Coord) -> int {
    neighbors_of(c, width).fold_left(0, add_penalty(m, policy, c))
}

/// Adds to a sum what the cell `c` is charged.
pub open spec fn add_cell_cost(m: Map<Coord, usize>, policy: CostPolicy, width: int) -> spec_fn(
    int,
    Coord,
) -> int {
    |sum: int, c: Coord| sum + cell_cost(m, policy, width, c)
}

/// What the cells of `cells` are charged together.
pub open spec fn cost_over(
    m: Map<Coord, usize>,
    policy: CostPolicy,
    width: int,
    cells: Seq<Coord>,
) -> int {
    cells.fold_left(0, add_cell_cost(m, policy, width))
}

/// The cost of the mapping `m` on the cube of the given width: what all
/// its cells are charged together.
pub open spec fn total_cost(m: Map<Coord, usize>, policy: CostPolicy, width: int) -> int {
    cost_over(m, policy, width, row_major(width))
}

/// A fold over one more element applies the operator once more.
pub proof fn lemma_fold_left_step<A, B>(s: Seq<A>, i: int, b: B, f: spec_fn(B, A) -> B)
    requires
        0 <= i < s.len(),
    ensures
        s.take(i + 1).fold_left(b, f) == f(s.take(i).fold_left(b, f), s[i]),
{
    assert(s.take(i + 1).drop_last() =~= s.take(i));
}

/// Two sequences without duplicates that hold the same elements are
/// rearrangements of each other.
pub proof fn lemma_same_elements<A>(a: Seq<A>, b: Seq<A>)
    requires
        a.no_duplicates(),
        b.no_duplicates(),
        forall|x: A| a.contains(x) <==> b.contains(x),
    ensures
        a.to_multiset() == b.to_multiset(),
{
    broadcast use vstd::seq_lib::group_to_multiset_ensures;

    a.lemma_multiset_has_no_duplicates();
    b.lemma_multiset_has_no_duplicates();
    assert forall|x: A| a.to_multiset().count(x) == b.to_multiset().count(x) by {
        assert(a.contains(x) <==> a.to_multiset().count(x) > 0);
        assert(b.contains(x) <==> b.to_multiset().count(x) > 0);
    }
    assert(a.to_multiset() =~= b.to_multiset());
}

/// What a cell of a bijection is charged for cells other than itself is
/// not negative.
pub proof fn lemma_charges_nonnegative(
    m: Map<Coord, usize>,
    policy: CostPolicy,
    width: int,
    c: Coord,
    others: Seq<Coord>,
)
    requires
        permutes_cube(m, width),
        in_cube(c, width),
        forall|i: int|
            0 <= i < others.len() ==> in_cube(#[trigger] others[i], width) && others[i] != c,
    ensures
        others.fold_left(0, add_penalty(m, policy, c)) >= 0,
    decreases others.len(),
{
    if others.len() > 0 {
        lemma_charges_nonnegative(m, policy, width, c, others.drop_last());
        let n = others.last();
        assert(in_cube(n, width) && n != c);
        assert(m[n] != m[c]);
    }
}

/// What the cells of a bijection are charged together is not negative.
pub proof fn lemma_cost_over_nonnegative(
    m: Map<Coord, usize>,
    policy: CostPolicy,
    width: int,
    cells: Seq<Coord>,
)
    requires
        permutes_cube(m, width),
        width <= i32::MAX,
        forall|i: int| 0 <= i < cells.len() ==> in_cube(#[trigger] cells[i], width),
    ensures
        cost_over(m, policy, width, cells) >= 0,
    decreases cells.len(),
{
    if cells.len() > 0 {
        lemma_cost_over_nonnegative(m, policy, width, cells.drop_last());
        let c = cells.last();
        assert(in_cube(c, width));
        lemma_neighbors_upto(c, width, 27);
        lemma_charges_nonnegative(m, policy, width, c, neighbors_of(c, width));
    }
}

/// The cost of a bijection is not negative, under either policy.
pub proof fn lemma_cost_nonnegative(m: Map<Coord, usize>, policy: CostPolicy, width: int)
    requires
        permutes_cube(m, width),
        0 <= width <= i32::MAX,
    ensures
        total_cost(m, policy, width) >= 0,
{
    lemma_row_major(width);
    assert forall|i: int| 0 <= i < row_major(width).len() implies in_cube(
        #[trigger] row_major(width)[i],
        width,
    ) by {
        assert(row_major(width).contains(row_major(width)[i]));
    }
    lemma_cost_over_nonnegative(m, policy, width, row_major(width));
}

/// The cost does not depend on the order in which the cells are charged.
pub proof fn lemma_cost_any_order(
    m: Map<Coord, usize>,
    policy: CostPolicy,
    width: int,
    cells: Seq<Coord>,
)
    requires
        cells.to_multiset() == row_major(width).to_multiset(),
    ensures
        cost_over(m, policy, width, cells) == total_cost(m, policy, width),
{
    let f = add_cell_cost(m, policy, width);
    assert(vstd::seq_lib::commutative_foldl(f));
    lemma_fold_left_permutation(cells, row_major(width), f, 0);
}

} // verus!
