//! The layout: a bijection between the cells of a cube and the slots of a
//! flat array.

use vstd::prelude::*;
use vstd::set_lib::lemma_int_range;
use vstd::set_lib::lemma_subset_equality;
use vstd::set_lib::set_int_range;
use crate::chance::shuffle_cells;
use crate::chance::thread_rng;
use crate::coord::cell_count;
use crate::coord::cube_cells;
use crate::coord::in_cube;
use crate::coord::lemma_cell_at_linear_index;
use crate::coord::lemma_cell_count;
use crate::coord::lemma_linear_index_cell_at;
use crate::coord::lemma_linear_index_injective;
use crate::coord::lemma_linear_index_range;
use crate::coord::lemma_neighbors_upto;
use crate::coord::lemma_row_major;
use crate::coord::linear_index;
use crate::coord::linearize_within;
use crate::coord::neighbors_of;
use crate::coord::neighbors_within;
use crate::coord::row_major;
use crate::coord::within;
use crate::coord::Coord;
use crate::coord::UCoord;
use crate::coord::MAX_WIDTH;
use crate::coord::WIDTH;
use crate::cost::add_cell_cost;
use crate::cost::add_penalty;
use crate::cost::cost_over;
use crate::cost::lemma_cost_any_order;
use crate::cost::lemma_fold_left_step;
use crate::cost::lemma_same_elements;
use crate::cost::total_cost;
use crate::cost::CostPolicy;
use crate::cost::MISS_THRESHOLD;
use crate::morton::is_morton_width;
use crate::morton::lemma_decode_encode;
use crate::morton::lemma_morton_range;
use crate::morton::morton_index;
use crate::morton::to_morton_index;
use crate::store::lists_cells;
use crate::store::store_entries;
use crate::store::store_get;
use crate::store::store_insert;
use crate::store::store_map;
use crate::store::store_pair_mut;
use crate::store::store_with_capacity;
use crate::store::CellKey;
use crate::store::CellStore;

verus! {

/// What `position` answers for a coordinate outside the cube. No cell has
/// this slot, since slots stay below `W^3`.
pub const UNMAPPED: usize = usize::MAX;

/// The assignment of a slot to every cell of a cube.
pub struct Layout {
    cells: CellStore,
    width: usize,
    policy: CostPolicy,
}

/// The store key of a cell.
pub open spec fn key_of(c: Coord) -> CellKey {
    (c.x as u8, c.y as u8, c.z as u8)
}

/// The coordinate that a store key stands for.
pub open spec fn coord_of(k: CellKey) -> Coord {
    Coord { x: k.0 as i32, y: k.1 as i32, z: k.2 as i32 }
}

/// Whether each axis of `c` fits a store key.
pub open spec fn fits_key(c: Coord) -> bool {
    &&& 0 <= c.x < 256
    &&& 0 <= c.y < 256
    &&& 0 <= c.z < 256
}

/// Whether some cell of the cube has slot `i` in `m`.
pub open spec fn slot_taken(m: Map<Coord, usize>, width: int, i: int) -> bool {
    exists|c: Coord| in_cube(c, width) && #[trigger] m[c] == i
}

/// Whether `m` is a bijection from the cells of the cube onto the slots
/// `[0, W^3)`.
pub open spec fn permutes_cube(m: Map<Coord, usize>, width: int) -> bool {
    &&& forall|c: Coord| #[trigger] m.contains_key(c) <==> in_cube(c, width)
    &&& forall|c: Coord| in_cube(c, width) ==> 0 <= #[trigger] m[c] < cell_count(width)
    &&& forall|a: Coord, b: Coord|
        in_cube(a, width) && in_cube(b, width) && #[trigger] m[a] == #[trigger] m[b] ==> a == b
    &&& forall|i: int| 0 <= i < cell_count(width) ==> #[trigger] slot_taken(m, width, i)
}

/// Whether `entries` names `W^3` distinct cells of the cube and gives them
/// distinct slots below `W^3`.
pub open spec fn assigns_cube(entries: Seq<(Coord, usize)>, width: int) -> bool {
    &&& entries.len() == cell_count(width)
    &&& forall|i: int|
        0 <= i < entries.len() ==> in_cube((#[trigger] entries[i]).0, width) && entries[i].1
            < cell_count(width)
    &&& forall|i: int, j: int|
        0 <= i < j < entries.len() ==> (#[trigger] entries[i]).0 != (#[trigger] entries[j]).0
            && entries[i].1 != entries[j].1
}

/// Whether `entries` names the cell `c`.
pub open spec fn names_cell(entries: Seq<(Coord, usize)>, c: Coord) -> bool {
    exists|i: int| 0 <= i < entries.len() && (#[trigger] entries[i]).0 == c
}

/// Whether `entries` gives the slot `v` to some cell.
pub open spec fn gives_slot(entries: Seq<(Coord, usize)>, v: int) -> bool {
    exists|i: int| 0 <= i < entries.len() && (#[trigger] entries[i]).1 == v
}

/// Whether `order` names every cell of the cube exactly once.
pub open spec fn orders_cube(order: Seq<Coord>, width: int) -> bool {
    &&& order.len() == cell_count(width)
    &&& forall|i: int| 0 <= i < order.len() ==> in_cube(#[trigger] order[i], width)
    &&& order.no_duplicates()
}

/// Why a list of entries is not accepted as a layout.
#[derive(Clone, Copy, Debug, PartialEq, Eq, Structural)]
pub enum SnapshotError {
    /// The number of entries is not the number of cells of the cube.
    WrongKeyCount,
    /// An entry names a coordinate outside the cube.
    KeyOutOfBounds,
    /// An entry names a cell that an earlier entry names too.
    DuplicateKey,
    /// An entry gives a slot that is not below the number of cells.
    IndexOutOfRange,
    /// An entry gives a slot that an earlier entry gives too.
    DuplicateIndex,
}

impl SnapshotError {
    /// What is wrong, in words.
    pub fn describe(&self) -> (text: &'static str)
        ensures
            *self == SnapshotError::WrongKeyCount ==> text
                == "the number of entries is not the number of cells",
            *self == SnapshotError::KeyOutOfBounds ==> text
                == "an entry names a coordinate outside the cube",
            *self == SnapshotError::DuplicateKey ==> text == "a cell is named twice",
            *self == SnapshotError::IndexOutOfRange ==> text
                == "an entry gives an index that is out of range",
            *self == SnapshotError::DuplicateIndex ==> text == "an index is given twice",
    {
        match self {
            SnapshotError::WrongKeyCount => "the number of entries is not the number of cells",
            SnapshotError::KeyOutOfBounds => "an entry names a coordinate outside the cube",
            SnapshotError::DuplicateKey => "a cell is named twice",
            SnapshotError::IndexOutOfRange => "an entry gives an index that is out of range",
            SnapshotError::DuplicateIndex => "an index is given twice",
        }
    }
}

/// Whether one of the first `i` entries names the cell `c`.
pub open spec fn names_before(entries: Seq<(Coord, usize)>, i: int, c: Coord) -> bool {
    exists|j: int| 0 <= j < i && (#[trigger] entries[j]).0 == c
}

/// Whether one of the first `i` entries gives the slot `v`.
pub open spec fn gives_before(entries: Seq<(Coord, usize)>, i: int, v: usize) -> bool {
    exists|j: int| 0 <= j < i && (#[trigger] entries[j]).1 == v
}

/// What is wrong with entry `i`, given the entries before it: its cell is
/// checked before its slot.
pub open spec fn entry_defect(entries: Seq<(Coord, usize)>, width: int, i: int) -> Option<
    SnapshotError,
> {
    if !in_cube(entries[i].0, width) {
        Some(SnapshotError::KeyOutOfBounds)
    } else if names_before(entries, i, entries[i].0) {
        Some(SnapshotError::DuplicateKey)
    } else if entries[i].1 >= cell_count(width) {
        Some(SnapshotError::IndexOutOfRange)
    } else if gives_before(entries, i, entries[i].1) {
        Some(SnapshotError::DuplicateIndex)
    } else {
        None
    }
}

/// The defect of the first defective entry from `i` on.
pub open spec fn first_defect_from(entries: Seq<(Coord, usize)>, width: int, i: int) -> Option<
    SnapshotError,
>
    decreases entries.len() - i,
{
    if i < 0 || i >= entries.len() {
        None
    } else if entry_defect(entries, width, i) is Some {
        entry_defect(entries, width, i)
    } else {
        first_defect_from(entries, width, i + 1)
    }
}

/// Why `entries` is no layout of the cube, if it is none: a wrong number
/// of entries, or else the defect of the first defective entry.
pub open spec fn snapshot_defect(entries: Seq<(Coord, usize)>, width: int) -> Option<
    SnapshotError,
> {
    if entries.len() != cell_count(width) {
        Some(SnapshotError::WrongKeyCount)
    } else {
        first_defect_from(entries, width, 0)
    }
}

/// The first defect from `i` on is that of entry `k` when no entry between
/// the two is defective.
pub proof fn lemma_first_defect(entries: Seq<(Coord, usize)>, width: int, i: int, k: int)
    requires
        0 <= i <= k <= entries.len(),
        forall|j: int| i <= j < k ==> #[trigger] entry_defect(entries, width, j) is None,
    ensures
        k < entries.len() && entry_defect(entries, width, k) is Some ==> first_defect_from(
            entries,
            width,
            i,
        ) == entry_defect(entries, width, k),
        k == entries.len() ==> first_defect_from(entries, width, i) is None,
    decreases k - i,
{
    if i < k {
        assert(entry_defect(entries, width, i) is None);
        lemma_first_defect(entries, width, i + 1, k);
    }
}

/// A defective entry makes for a defect.
pub proof fn lemma_defect_found(entries: Seq<(Coord, usize)>, width: int, i: int, k: int)
    requires
        0 <= i <= k < entries.len(),
        entry_defect(entries, width, k) is Some,
    ensures
        first_defect_from(entries, width, i) is Some,
    decreases k - i,
{
    if entry_defect(entries, width, i) is None {
        lemma_defect_found(entries, width, i + 1, k);
    }
}

/// The lists without defect are exactly those that name every cell of the
/// cube once and give every slot once.
pub proof fn lemma_no_defect(entries: Seq<(Coord, usize)>, width: int)
    ensures
        snapshot_defect(entries, width) is None <==> assigns_cube(entries, width),
{
    if entries.len() == cell_count(width) {
        if assigns_cube(entries, width) {
            assert forall|j: int| 0 <= j < entries.len() implies #[trigger] entry_defect(
                entries,
                width,
                j,
            ) is None by {
                assert(in_cube(entries[j].0, width));
            }
            lemma_first_defect(entries, width, 0, entries.len() as int);
        } else {
            if exists|k: int| 0 <= k < entries.len() && entry_defect(entries, width, k) is Some {
                let k = choose|k: int|
                    0 <= k < entries.len() && entry_defect(entries, width, k) is Some;
                lemma_defect_found(entries, width, 0, k);
            } else {
                assert forall|i: int| 0 <= i < entries.len() implies in_cube(
                    (#[trigger] entries[i]).0,
                    width,
                ) && entries[i].1 < cell_count(width) by {
                    assert(entry_defect(entries, width, i) is None);
                }
                assert forall|i: int, j: int| 0 <= i < j < entries.len() implies (
                #[trigger] entries[i]).0 != (#[trigger] entries[j]).0 && entries[i].1
                    != entries[j].1 by {
                    assert(entry_defect(entries, width, j) is None);
                }
            }
        }
    }
}

/// `m` with the slots of `a` and `b` exchanged.
pub open spec fn swapped(m: Map<Coord, usize>, a: Coord, b: Coord) -> Map<Coord, usize> {
    m.insert(a, m[b]).insert(b, m[a])
}

/// A sequence of `n` distinct numbers below `n` holds every number below
/// `n`.
pub proof fn lemma_distinct_covers(s: Seq<int>, n: int)
    requires
        s.len() == n,
        forall|i: int| 0 <= i < s.len() ==> 0 <= #[trigger] s[i] < n,
        forall|i: int, j: int| 0 <= i < j < s.len() ==> s[i] != s[j],
    ensures
        forall|v: int| 0 <= v < n ==> #[trigger] s.contains(v),
{
    broadcast use vstd::seq_lib::seq_to_set_is_finite;

    assert(s.no_duplicates());
    s.unique_seq_to_set();
    lemma_int_range(0, n);
    assert(s.to_set().subset_of(set_int_range(0, n)));
    lemma_subset_equality(s.to_set(), set_int_range(0, n));
    assert forall|v: int| 0 <= v < n implies #[trigger] s.contains(v) by {
        assert(set_int_range(0, n).contains(v));
        assert(s.to_set().contains(v));
    }
}

/// Every cell of the cube is named by `entries`, and every slot given.
pub proof fn lemma_assignment_covers(entries: Seq<(Coord, usize)>, width: int)
    requires
        assigns_cube(entries, width),
        0 <= width <= i32::MAX,
    ensures
        forall|c: Coord| in_cube(c, width) ==> #[trigger] names_cell(entries, c),
        forall|v: int| 0 <= v < cell_count(width) ==> #[trigger] gives_slot(entries, v),
{
    let n = cell_count(width);
    let cells = Seq::new(entries.len(), |i: int| linear_index(entries[i].0, width));
    let slots = Seq::new(entries.len(), |i: int| entries[i].1 as int);
    assert forall|i: int| 0 <= i < cells.len() implies 0 <= #[trigger] cells[i] < n by {
        lemma_linear_index_range(entries[i].0, width);
    }
    assert forall|i: int, j: int| 0 <= i < j < cells.len() implies cells[i] != cells[j] by {
        if cells[i] == cells[j] {
            lemma_linear_index_injective(entries[i].0, entries[j].0, width);
        }
    }
    lemma_distinct_covers(cells, n);
    lemma_distinct_covers(slots, n);
    assert forall|c: Coord| in_cube(c, width) implies #[trigger] names_cell(entries, c) by {
        lemma_linear_index_range(c, width);
        assert(cells.contains(linear_index(c, width)));
        let i = choose|i: int| 0 <= i < cells.len() && cells[i] == linear_index(c, width);
        lemma_linear_index_injective(entries[i].0, c, width);
    }
    assert forall|v: int| 0 <= v < n implies #[trigger] gives_slot(entries, v) by {
        assert(slots.contains(v));
        let i = choose|i: int| 0 <= i < slots.len() && slots[i] == v;
        assert(entries[i].1 == v);
    }
}

impl Layout {
    /// The coordinate-to-slot mapping.
    pub closed spec fn view(&self) -> Map<Coord, usize> {
        Map::new(
            |c: Coord| fits_key(c) && store_map(self.cells).contains_key(key_of(c)),
            |c: Coord| store_map(self.cells)[key_of(c)],
        )
    }

    /// Width of the cube, in contracts.
    pub closed spec fn spec_width(&self) -> usize {
        self.width
    }

    /// The policy by which the layout is costed, in contracts.
    pub closed spec fn spec_policy(&self) -> CostPolicy {
        self.policy
    }

    /// Every key of the store stands for a cell of the cube.
    pub closed spec fn keys_in_cube(&self) -> bool {
        forall|k: CellKey| #[trigger]
            store_map(self.cells).contains_key(k) ==> in_cube(coord_of(k), self.width as int)
    }

    /// The invariant of a layout: its mapping is a bijection between the
    /// cells of its cube and the slots `[0, W^3)`.
    pub open spec fn wf(&self) -> bool {
        &&& self.width() <= MAX_WIDTH
        &&& self.keys_in_cube()
        &&& permutes_cube(self@, self.width() as int)
    }

    /// Width of the cube.
    #[verifier::when_used_as_spec(spec_width)]
    pub fn width(&self) -> (w: usize)
        ensures
            w == self.width(),
    {
        self.width
    }

    /// The policy by which the layout is costed.
    #[verifier::when_used_as_spec(spec_policy)]
    pub fn policy(&self) -> (p: CostPolicy)
        ensures
            p == self.policy(),
    {
        self.policy
    }

    /// The layout that gives each named cell the slot named with it.
    fn assign(width: usize, policy: CostPolicy, entries: &Vec<(Coord, usize)>) -> (layout: Layout)
        requires
            width <= MAX_WIDTH,
            assigns_cube(entries@, width as int),
        ensures
            layout.wf(),
            layout.width() == width,
            layout.policy() == policy,
            forall|i: int|
                0 <= i < entries.len() ==> layout@[(#[trigger] entries[i]).0] == entries[i].1,
    {
        assert(width * width <= 256 && width * width * width <= 4096) by (nonlinear_arith)
            requires
                width <= 16,
        ;
        let mut cells = store_with_capacity(width * width * width);
        let mut i: usize = 0;
        while i < entries.len()
            invariant
                i <= entries.len(),
                width <= MAX_WIDTH,
                assigns_cube(entries@, width as int),
                forall|k: CellKey| #[trigger]
                    store_map(cells).contains_key(k) <==> exists|j: int|
                        0 <= j < i && key_of((#[trigger] entries[j]).0) == k,
                forall|j: int|
                    0 <= j < i ==> store_map(cells)[key_of((#[trigger] entries[j]).0)]
                        == entries[j].1,
            decreases entries.len() - i,
        {
            let (point, slot) = entries[i];
            let key = (point.x as u8, point.y as u8, point.z as u8);
            assert(key == key_of(entries[i as int].0));
            let ghost before = store_map(cells);
            let _ = store_insert(&mut cells, key, slot);
            assert forall|j: int| 0 <= j < i + 1 implies store_map(cells)[key_of(
                (#[trigger] entries[j]).0,
            )] == entries[j].1 by {
                if j < i {
                    assert(entries[j].0 != entries[i as int].0);
                    assert(key_of(entries[j].0) != key);
                }
            }
            assert forall|k: CellKey| #[trigger]
                store_map(cells).contains_key(k) <==> exists|j: int|
                    0 <= j < i + 1 && key_of((#[trigger] entries[j]).0) == k by {
                if store_map(cells).contains_key(k) {
                    if k == key {
                        assert(key_of(entries[i as int].0) == k);
                    } else {
                        assert(before.contains_key(k));
                    }
                }
                if exists|j: int| 0 <= j < i + 1 && key_of((#[trigger] entries[j]).0) == k {
                    let j = choose|j: int| 0 <= j < i + 1 && key_of((#[trigger] entries[j]).0) == k;
                    if j < i {
                        assert(before.contains_key(k));
                    }
                }
            }
            i = i + 1;
        }
        let layout = Layout { cells, width, policy };
        proof {
            let m = layout@;
            let w = width as int;
            lemma_assignment_covers(entries@, w);
            assert forall|i: int| 0 <= i < entries.len() implies m.contains_key(
                (#[trigger] entries[i]).0,
            ) && m[entries[i].0] == entries[i].1 by {
                assert(key_of(entries[i].0) == key_of(entries[i].0));
            }
            assert forall|c: Coord| #[trigger] m.contains_key(c) <==> in_cube(c, w) by {
                if m.contains_key(c) {
                    let j = choose|j: int|
                        0 <= j < entries.len() && key_of((#[trigger] entries[j]).0) == key_of(c);
                    assert(entries[j].0 == c);
                }
                if in_cube(c, w) {
                    assert(names_cell(entries@, c));
                    let j = choose|j: int| 0 <= j < entries.len() && (#[trigger] entries[j]).0 == c;
                    assert(m.contains_key(entries[j].0));
                }
            }
            assert forall|c: Coord| in_cube(c, w) implies 0 <= #[trigger] m[c] < cell_count(w) by {
                assert(names_cell(entries@, c));
                let j = choose|j: int| 0 <= j < entries.len() && (#[trigger] entries[j]).0 == c;
                assert(m[entries[j].0] == entries[j].1);
            }
            assert forall|a: Coord, b: Coord|
                in_cube(a, w) && in_cube(b, w) && #[trigger] m[a] == #[trigger] m[b] implies a
                == b by {
                assert(names_cell(entries@, a) && names_cell(entries@, b));
                let i = choose|i: int| 0 <= i < entries.len() && (#[trigger] entries[i]).0 == a;
                let j = choose|j: int| 0 <= j < entries.len() && (#[trigger] entries[j]).0 == b;
                assert(m[entries[i].0] == entries[i].1);
                assert(m[entries[j].0] == entries[j].1);
                if i < j {
                    assert(entries[i].1 != entries[j].1);
                }
                if j < i {
                    assert(entries[j].1 != entries[i].1);
                }
            }
            assert forall|v: int| 0 <= v < cell_count(w) implies #[trigger] slot_taken(
                m,
                w,
                v,
            ) by {
                assert(gives_slot(entries@, v));
                let j = choose|j: int| 0 <= j < entries.len() && (#[trigger] entries[j]).1 == v;
                assert(m[entries[j].0] == entries[j].1);
                assert(in_cube(entries[j].0, w));
            }
            assert forall|k: CellKey| #[trigger] store_map(layout.cells).contains_key(k) implies in_cube(
                coord_of(k),
                w,
            ) by {
                let j = choose|j: int| 0 <= j < entries.len() && key_of((#[trigger] entries[j]).0) == k;
                assert(coord_of(k) == entries[j].0);
            }
        }
        layout
    }

    /// The row-major layout: every cell gets the slot `x + z * W + y * W^2`.
    pub fn seed_linear(width: usize, policy: CostPolicy) -> (layout: Layout)
        requires
            width <= MAX_WIDTH,
        ensures
            layout.wf(),
            layout.width() == width,
            layout.policy() == policy,
            forall|c: Coord|
                in_cube(c, width as int) ==> #[trigger] layout@[c] == linear_index(c, width as int),
    {
        let points = cube_cells(width);
        let mut entries: Vec<(Coord, usize)> = Vec::new();
        let mut i: usize = 0;
        proof {
            lemma_row_major(width as int);
            lemma_cell_count(width as int);
        }
        while i < points.len()
            invariant
                i <= points.len(),
                width <= MAX_WIDTH,
                points@ == row_major(width as int),
                points.len() == cell_count(width as int),
                entries.len() == i,
                forall|j: int| 0 <= j < i ==> #[trigger] entries[j] == (points[j], j as usize),
            decreases points.len() - i,
        {
            proof {
                lemma_cell_count(width as int);
                lemma_linear_index_cell_at(i as int, width as int);
            }
            entries.push((points[i], linearize_within(points[i], width)));
            i = i + 1;
        }
        proof {
            assert forall|i: int, j: int| 0 <= i < j < entries.len() implies (#[trigger] entries[i]).0
                != (#[trigger] entries[j]).0 by {
                lemma_linear_index_cell_at(i, width as int);
                lemma_linear_index_cell_at(j, width as int);
            }
            assert forall|i: int| 0 <= i < entries.len() implies in_cube(
                (#[trigger] entries[i]).0,
                width as int,
            ) by {
                lemma_linear_index_cell_at(i, width as int);
            }
        }
        let layout = Layout::assign(width, policy, &entries);
        proof {
            assert forall|c: Coord| in_cube(c, width as int) implies #[trigger] layout@[c]
                == linear_index(c, width as int) by {
                lemma_linear_index_range(c, width as int);
                lemma_cell_at_linear_index(c, width as int);
                let i = linear_index(c, width as int);
                assert(entries[i].0 == c);
            }
        }
        layout
    }

    /// The Z-order layout: every cell gets its Morton index as its slot.
    /// The width has to be a power of two, or the indices would leave gaps.
    pub fn seed_morton(width: usize, policy: CostPolicy) -> (layout: Layout)
        requires
            is_morton_width(width as int),
        ensures
            layout.wf(),
            layout.width() == width,
            layout.policy() == policy,
            forall|c: Coord|
                in_cube(c, width as int) ==> #[trigger] layout@[c] == morton_index(
                    c.x as u32,
                    c.y as u32,
                    c.z as u32,
                ),
    {
        let points = cube_cells(width);
        let mut entries: Vec<(Coord, usize)> = Vec::new();
        let mut i: usize = 0;
        proof {
            lemma_row_major(width as int);
            lemma_cell_count(width as int);
        }
        while i < points.len()
            invariant
                i <= points.len(),
                is_morton_width(width as int),
                points@ == row_major(width as int),
                points.len() == cell_count(width as int),
                entries.len() == i,
                forall|j: int|
                    0 <= j < i ==> #[trigger] entries[j] == (
                        points[j],
                        morton_index(
                            points[j].x as u32,
                            points[j].y as u32,
                            points[j].z as u32,
                        ) as usize,
                    ),
            decreases points.len() - i,
        {
            proof {
                lemma_linear_index_cell_at(i as int, width as int);
            }
            let point = points[i];
            let cell = UCoord { x: point.x as u32, y: point.y as u32, z: point.z as u32 };
            entries.push((point, to_morton_index(cell) as usize));
            i = i + 1;
        }
        proof {
            let w = width as int;
            assert forall|i: int| 0 <= i < entries.len() implies in_cube(
                (#[trigger] entries[i]).0,
                w,
            ) && entries[i].1 < cell_count(w) by {
                lemma_linear_index_cell_at(i, w);
                let c = entries[i].0;
                lemma_morton_range(c.x as u32, c.y as u32, c.z as u32, width as u32);
            }
            assert forall|i: int, j: int| 0 <= i < j < entries.len() implies (#[trigger] entries[i]).0
                != (#[trigger] entries[j]).0 && entries[i].1 != entries[j].1 by {
                lemma_linear_index_cell_at(i, w);
                lemma_linear_index_cell_at(j, w);
                let (a, b) = (entries[i].0, entries[j].0);
                lemma_decode_encode(a.x as u32, a.y as u32, a.z as u32);
                lemma_decode_encode(b.x as u32, b.y as u32, b.z as u32);
            }
        }
        let layout = Layout::assign(width, policy, &entries);
        proof {
            assert forall|c: Coord| in_cube(c, width as int) implies #[trigger] layout@[c]
                == morton_index(c.x as u32, c.y as u32, c.z as u32) by {
                lemma_linear_index_range(c, width as int);
                lemma_cell_at_linear_index(c, width as int);
                let i = linear_index(c, width as int);
                assert(entries[i].0 == c);
            }
        }
        layout
    }

    /// The layout that gives the cells the slots `0, 1, 2, ...` in the
    /// order in which `order` names them.
    pub fn seed_in_order(width: usize, policy: CostPolicy, order: &Vec<Coord>) -> (layout: Layout)
        requires
            width <= MAX_WIDTH,
            orders_cube(order@, width as int),
        ensures
            layout.wf(),
            layout.width() == width,
            layout.policy() == policy,
            forall|i: int| 0 <= i < order.len() ==> layout@[#[trigger] order[i]] == i,
    {
        let mut entries: Vec<(Coord, usize)> = Vec::new();
        let mut i: usize = 0;
        while i < order.len()
            invariant
                i <= order.len(),
                entries.len() == i,
                forall|j: int| 0 <= j < i ==> #[trigger] entries[j] == (order[j], j as usize),
            decreases order.len() - i,
        {
            entries.push((order[i], i));
            i = i + 1;
        }
        let layout = Layout::assign(width, policy, &entries);
        proof {
            assert forall|i: int| 0 <= i < order.len() implies layout@[#[trigger] order[i]]
                == i by {
                assert(entries[i].0 == order[i]);
            }
        }
        layout
    }

    /// A layout drawn uniformly from all layouts of the cube: the cells are
    /// shuffled and take their slots in the shuffled order.
    pub fn seed_random(width: usize, policy: CostPolicy) -> (layout: Layout)
        requires
            width <= MAX_WIDTH,
        ensures
            layout.wf(),
            layout.width() == width,
            layout.policy() == policy,
    {
        let mut points = cube_cells(width);
        let mut rng = thread_rng();
        shuffle_cells(&mut points, &mut rng);
        proof {
            lemma_shuffled_orders_cube(points@, width as int);
        }
        Layout::seed_in_order(width, policy, &points)
    }

    /// The row-major layout of the default grid, costed by cache misses.
    pub fn new_linear() -> (layout: Layout)
        ensures
            layout.wf(),
            layout.width() == WIDTH,
            layout.policy() == CostPolicy::ThresholdMiss,
            forall|c: Coord|
                in_cube(c, WIDTH as int) ==> #[trigger] layout@[c] == linear_index(c, WIDTH as int),
    {
        Layout::seed_linear(WIDTH, CostPolicy::ThresholdMiss)
    }

    /// The Z-order layout of the default grid, costed by cache misses.
    pub fn new_morton() -> (layout: Layout)
        ensures
            layout.wf(),
            layout.width() == WIDTH,
            layout.policy() == CostPolicy::ThresholdMiss,
            forall|c: Coord|
                in_cube(c, WIDTH as int) ==> #[trigger] layout@[c] == morton_index(
                    c.x as u32,
                    c.y as u32,
                    c.z as u32,
                ),
    {
        Layout::seed_morton(WIDTH, CostPolicy::ThresholdMiss)
    }

    /// A random layout of the default grid, costed by cache misses.
    pub fn new_random() -> (layout: Layout)
        ensures
            layout.wf(),
            layout.width() == WIDTH,
            layout.policy() == CostPolicy::ThresholdMiss,
    {
        Layout::seed_random(WIDTH, CostPolicy::ThresholdMiss)
    }

    /// Whether `point` is a cell of the default grid.
    pub fn in_bounds(point: Coord) -> (inside: bool)
        ensures
            inside == in_cube(point, WIDTH as int),
    {
        within(point, WIDTH)
    }

    /// The neighbors of `point` in the default grid.
    pub fn neighbors(point: Coord) -> (found: Vec<Coord>)
        ensures
            found@ == neighbors_of(point, WIDTH as int),
    {
        neighbors_within(point, WIDTH)
    }

    /// Whether `point` is a cell of the layout's cube.
    pub fn contains(&self, point: Coord) -> (inside: bool)
        ensures
            inside == in_cube(point, self.width() as int),
    {
        within(point, self.width)
    }

    /// The slot of `point`, or [`UNMAPPED`] when `point` lies outside the
    /// cube.
    pub fn position(&self, point: Coord) -> (slot: usize)
        requires
            self.wf(),
        ensures
            in_cube(point, self.width() as int) ==> slot == self@[point],
            !in_cube(point, self.width() as int) ==> slot == UNMAPPED,
            slot != UNMAPPED <==> in_cube(point, self.width() as int),
    {
        if !within(point, self.width) {
            return UNMAPPED;
        }
        let key = (point.x as u8, point.y as u8, point.z as u8);
        assert(key == key_of(point));
        assert(self@.contains_key(point));
        proof {
            lemma_cell_count(self.width as int);
            assert(self@[point] < cell_count(self.width as int) <= 4096);
        }
        match store_get(&self.cells, key) {
            Some(slot) => slot,
            None => UNMAPPED,
        }
    }

    /// The cost of the layout under its policy.
    pub open spec fn cost(&self) -> int {
        total_cost(self@, self.policy(), self.width() as int)
    }

    /// The cells of the store, in the store's own order.
    proof fn lemma_listed_cells(&self, entries: Seq<(CellKey, usize)>) -> (cells: Seq<Coord>)
        requires
            self.wf(),
            lists_cells(entries, store_map(self.cells)),
        ensures
            cells.len() == entries.len(),
            cells.len() == cell_count(self.width() as int),
            forall|i: int|
                0 <= i < cells.len() ==> #[trigger] cells[i] == coord_of(entries[i].0) && in_cube(
                    cells[i],
                    self.width() as int,
                ) && self@[cells[i]] == entries[i].1,
            cells.no_duplicates(),
            cells.to_multiset() == row_major(self.width() as int).to_multiset(),
    {
        broadcast use vstd::seq_lib::group_to_multiset_ensures;

        let w = self.width as int;
        let cells = Seq::new(entries.len(), |i: int| coord_of(entries[i].0));
        lemma_row_major(w);
        assert forall|i: int| 0 <= i < cells.len() implies in_cube(#[trigger] cells[i], w)
            && self@[cells[i]] == entries[i].1 by {
            assert(store_map(self.cells).contains_pair(entries[i].0, entries[i].1));
            assert(key_of(cells[i]) == entries[i].0);
        }
        assert forall|i: int, j: int| 0 <= i < cells.len() && 0 <= j < cells.len() && i
            != j implies cells[i] != cells[j] by {
            if i < j {
                assert(entries[i].0 != entries[j].0);
            } else {
                assert(entries[j].0 != entries[i].0);
            }
        }
        assert forall|c: Coord| cells.contains(c) <==> row_major(w).contains(c) by {
            if cells.contains(c) {
                let i = choose|i: int| 0 <= i < cells.len() && cells[i] == c;
                assert(in_cube(cells[i], w));
            }
            if row_major(w).contains(c) {
                assert(in_cube(c, w));
                assert(self@.contains_key(c));
                let i = choose|i: int|
                    0 <= i < entries.len() && (#[trigger] entries[i]).0 == key_of(c);
                assert(cells[i] == c);
            }
        }
        lemma_same_elements(cells, row_major(w));
        assert(cells.len() == cells.to_multiset().len());
        assert(row_major(w).len() == row_major(w).to_multiset().len());
        cells
    }

    /// The cost of the layout: what every cell is charged for each of its
    /// neighbors, under the layout's policy.
    pub fn heuristic(&self) -> (total: usize)
        requires
            self.wf(),
        ensures
            total == self.cost(),
    {
        let entries = store_entries(&self.cells);
        let ghost m = self@;
        let ghost w = self.width as int;
        let ghost cells = self.lemma_listed_cells(entries@);
        proof {
            lemma_cell_count(w);
        }
        let mut total: usize = 0;
        let mut i: usize = 0;
        while i < entries.len()
            invariant
                self.wf(),
                m == self@,
                w == self.width as int,
                i <= entries.len(),
                entries.len() == cells.len(),
                entries.len() <= 4096,
                cell_count(w) <= 4096,
                forall|i: int|
                    0 <= i < cells.len() ==> #[trigger] cells[i] == coord_of(entries[i].0)
                        && in_cube(cells[i], w) && m[cells[i]] == entries[i].1,
                total == cost_over(m, self.policy, w, cells.take(i as int)),
                total <= i * 110592,
            decreases entries.len() - i,
        {
            let (key, slot) = entries[i];
            let point = Coord { x: key.0 as i32, y: key.1 as i32, z: key.2 as i32 };
            assert(point == cells[i as int]);
            let neighbors = neighbors_within(point, self.width);
            let ghost charged = total;
            let ghost charge = add_penalty(m, self.policy, point);
            proof {
                lemma_neighbors_upto(point, w, 27);
            }
            let mut j: usize = 0;
            while j < neighbors.len()
                invariant
                    self.wf(),
                    m == self@,
                    w == self.width as int,
                    cell_count(w) <= 4096,
                    in_cube(point, w),
                    m[point] == slot,
                    charge == add_penalty(m, self.policy, point),
                    j <= neighbors.len(),
                    neighbors.len() <= 27,
                    forall|k: int|
                        0 <= k < neighbors.len() ==> in_cube(#[trigger] neighbors[k], w)
                            && neighbors[k] != point,
                    total == charged + neighbors@.take(j as int).fold_left(0, charge),
                    charged <= total <= charged + j * 4096,
                    charged <= 4096 * 110592,
                decreases neighbors.len() - j,
            {
                let neighbor_slot = self.position(neighbors[j]);
                let distance = if neighbor_slot >= slot {
                    neighbor_slot - slot
                } else {
                    slot - neighbor_slot
                };
                proof {
                    lemma_fold_left_step(neighbors@, j as int, 0, charge);
                    assert(m[neighbors[j as int]] != m[point]);
                    assert(0 <= m[neighbors[j as int]] < cell_count(w));
                    assert(0 <= m[point] < cell_count(w));
                }
                match self.policy {
                    CostPolicy::DistanceSum => {
                        total = total + (distance - 1);
                    },
                    CostPolicy::ThresholdMiss => {
                        if distance >= MISS_THRESHOLD {
                            total = total + 1;
                        }
                    },
                }
                j = j + 1;
            }
            proof {
                assert(neighbors@.take(neighbors.len() as int) =~= neighbors@);
                lemma_fold_left_step(cells, i as int, 0, add_cell_cost(m, self.policy, w));
            }
            i = i + 1;
        }
        proof {
            assert(cells.take(cells.len() as int) =~= cells);
            lemma_cost_any_order(m, self.policy, w, cells);
        }
        total
    }

    /// Every cell with its slot, in the store's own order.
    pub fn entries(&self) -> (listed: Vec<(Coord, usize)>)
        requires
            self.wf(),
        ensures
            assigns_cube(listed@, self.width() as int),
            forall|i: int|
                0 <= i < listed.len() ==> self@[(#[trigger] listed[i]).0] == listed[i].1,
    {
        let entries = store_entries(&self.cells);
        let ghost cells = self.lemma_listed_cells(entries@);
        let mut listed: Vec<(Coord, usize)> = Vec::new();
        let mut i: usize = 0;
        while i < entries.len()
            invariant
                i <= entries.len(),
                entries.len() == cells.len(),
                forall|i: int|
                    0 <= i < cells.len() ==> #[trigger] cells[i] == coord_of(entries[i].0),
                listed.len() == i,
                forall|j: int| 0 <= j < i ==> #[trigger] listed[j] == (cells[j], entries[j].1),
            decreases entries.len() - i,
        {
            let (key, slot) = entries[i];
            listed.push((Coord { x: key.0 as i32, y: key.1 as i32, z: key.2 as i32 }, slot));
            i = i + 1;
        }
        proof {
            let w = self.width as int;
            assert forall|i: int| 0 <= i < listed.len() implies in_cube(
                (#[trigger] listed[i]).0,
                w,
            ) && listed[i].1 < cell_count(w) && self@[listed[i].0] == listed[i].1 by {
                assert(in_cube(cells[i], w));
            }
            assert forall|i: int, j: int| 0 <= i < j < listed.len() implies (#[trigger] listed[i]).0
                != (#[trigger] listed[j]).0 && listed[i].1 != listed[j].1 by {
                assert(cells[i] != cells[j]);
                assert(in_cube(cells[i], w) && in_cube(cells[j], w));
            }
        }
        listed
    }

    /// The cells in the order of their slots: the path that the flat array
    /// takes through the cube.
    pub fn storage_order(&self) -> (order: Vec<Coord>)
        requires
            self.wf(),
        ensures
            order.len() == cell_count(self.width() as int),
            forall|v: int|
                0 <= v < order.len() ==> in_cube(#[trigger] order[v], self.width() as int)
                    && self@[order[v]] == v,
    {
        let entries = store_entries(&self.cells);
        let ghost cells = self.lemma_listed_cells(entries@);
        let ghost w = self.width as int;
        let mut order: Vec<Coord> = Vec::new();
        let mut i: usize = 0;
        while i < entries.len()
            invariant
                i <= entries.len(),
                order.len() == i,
            decreases entries.len() - i,
        {
            order.push(Coord { x: 0, y: 0, z: 0 });
            i = i + 1;
        }
        i = 0;
        while i < entries.len()
            invariant
                self.wf(),
                w == self.width as int,
                i <= entries.len(),
                entries.len() == cells.len(),
                cells.len() == cell_count(w),
                order.len() == entries.len(),
                forall|i: int|
                    0 <= i < cells.len() ==> #[trigger] cells[i] == coord_of(entries[i].0)
                        && in_cube(cells[i], w) && self@[cells[i]] == entries[i].1,
                cells.no_duplicates(),
                forall|j: int| 0 <= j < i ==> order[entries[j].1 as int] == #[trigger] cells[j],
            decreases entries.len() - i,
        {
            let (key, slot) = entries[i];
            let point = Coord { x: key.0 as i32, y: key.1 as i32, z: key.2 as i32 };
            assert(point == cells[i as int]);
            assert(in_cube(cells[i as int], w));
            let ghost before = order@;
            order.set(slot, point);
            assert forall|j: int| 0 <= j < i + 1 implies order[entries[j].1 as int]
                == #[trigger] cells[j] by {
                if j < i {
                    assert(cells[j] != cells[i as int]);
                    assert(in_cube(cells[j], w));
                    assert(before[entries[j].1 as int] == cells[j]);
                }
            }
            i = i + 1;
        }
        proof {
            assert forall|v: int| 0 <= v < order.len() implies in_cube(#[trigger] order[v], w)
                && self@[order[v]] == v by {
                assert(slot_taken(self@, w, v));
                let c = choose|c: Coord| in_cube(c, w) && #[trigger] self@[c] == v;
                assert(self@.contains_key(c));
                let j = choose|j: int|
                    0 <= j < entries.len() && (#[trigger] entries[j]).0 == key_of(c);
                assert(cells[j] == c);
            }
        }
        order
    }

    /// The layout that `entries` describes, if they describe one: every
    /// cell of the cube named once, every slot below `W^3` given once.
    /// Otherwise the first defect found, with the number of entries checked
    /// first and then each entry in turn, its cell before its slot.
    pub fn from_entries(width: usize, policy: CostPolicy, entries: &Vec<(Coord, usize)>) -> (r:
        Result<Layout, SnapshotError>)
        requires
            width <= MAX_WIDTH,
        ensures
            match r {
                Ok(layout) => {
                    &&& snapshot_defect(entries@, width as int) is None
                    &&& layout.wf()
                    &&& layout.width() == width
                    &&& layout.policy() == policy
                    &&& forall|i: int|
                        0 <= i < entries.len() ==> layout@[(#[trigger] entries[i]).0]
                            == entries[i].1
                },
                Err(e) => snapshot_defect(entries@, width as int) == Some(e),
            },
    {
        let ghost w = width as int;
        proof {
            lemma_cell_count(w);
        }
        assert(width * width <= 256 && width * width * width <= 4096) by (nonlinear_arith)
            requires
                width <= 16,
        ;
        let count = width * width * width;
        if entries.len() != count {
            return Err(SnapshotError::WrongKeyCount);
        }
        let mut seen_cell: Vec<bool> = Vec::new();
        let mut seen_slot: Vec<bool> = Vec::new();
        let mut i: usize = 0;
        while i < count
            invariant
                i <= count,
                seen_cell.len() == i,
                seen_slot.len() == i,
                forall|k: int| 0 <= k < i ==> !#[trigger] seen_cell[k],
                forall|k: int| 0 <= k < i ==> !#[trigger] seen_slot[k],
            decreases count - i,
        {
            seen_cell.push(false);
            seen_slot.push(false);
            i = i + 1;
        }
        i = 0;
        proof {
            assert forall|c: Coord| in_cube(c, w) implies (seen_cell[linear_index(c, w)]
                <==> #[trigger] names_before(entries@, 0, c)) by {
                lemma_linear_index_range(c, w);
            }
        }
        while i < entries.len()
            invariant
                w == width as int,
                width <= MAX_WIDTH,
                count == cell_count(w),
                entries.len() == count,
                i <= entries.len(),
                seen_cell.len() == count,
                seen_slot.len() == count,
                forall|j: int| 0 <= j < i ==> #[trigger] entry_defect(entries@, w, j) is None,
                forall|c: Coord|
                    in_cube(c, w) ==> (seen_cell[linear_index(c, w)] <==> #[trigger] names_before(
                        entries@,
                        i as int,
                        c,
                    )),
                forall|v: usize|
                    v < count ==> (seen_slot[v as int] <==> #[trigger] gives_before(
                        entries@,
                        i as int,
                        v,
                    )),
            decreases entries.len() - i,
        {
            let (cell, slot) = entries[i];
            proof {
                lemma_first_defect(entries@, w, 0, i as int);
            }
            if !within(cell, width) {
                return Err(SnapshotError::KeyOutOfBounds);
            }
            let index = linearize_within(cell, width);
            if seen_cell[index] {
                assert(names_before(entries@, i as int, cell));
                return Err(SnapshotError::DuplicateKey);
            }
            assert(!names_before(entries@, i as int, cell));
            if slot >= count {
                return Err(SnapshotError::IndexOutOfRange);
            }
            if seen_slot[slot] {
                assert(gives_before(entries@, i as int, slot));
                return Err(SnapshotError::DuplicateIndex);
            }
            assert(!gives_before(entries@, i as int, slot));
            assert(entry_defect(entries@, w, i as int) is None);
            let ghost cells_before = seen_cell@;
            let ghost slots_before = seen_slot@;
            seen_cell.set(index, true);
            seen_slot.set(slot, true);
            assert forall|c: Coord| in_cube(c, w) implies (seen_cell[linear_index(c, w)]
                <==> #[trigger] names_before(entries@, i + 1, c)) by {
                lemma_linear_index_range(c, w);
                assert(cells_before[linear_index(c, w)] <==> names_before(entries@, i as int, c));
                if c == cell {
                    assert(entries[i as int].0 == c);
                } else {
                    if linear_index(c, w) == index {
                        lemma_linear_index_injective(c, cell, w);
                    }
                    if names_before(entries@, i + 1, c) {
                        let j = choose|j: int| 0 <= j < i + 1 && (#[trigger] entries[j]).0 == c;
                        assert(j < i);
                    }
                }
            }
            assert forall|v: usize| v < count implies (seen_slot[v as int]
                <==> #[trigger] gives_before(entries@, i + 1, v)) by {
                assert(slots_before[v as int] <==> gives_before(entries@, i as int, v));
                if v == slot {
                    assert(entries[i as int].1 == v);
                } else {
                    if gives_before(entries@, i + 1, v) {
                        let j = choose|j: int| 0 <= j < i + 1 && (#[trigger] entries[j]).1 == v;
                        assert(j < i);
                    }
                }
            }
            i = i + 1;
        }
        proof {
            lemma_first_defect(entries@, w, 0, entries.len() as int);
            lemma_no_defect(entries@, w);
        }
        Ok(Layout::assign(width, policy, entries))
    }

    /// Exchanges the slots of the cells `a` and `b`.
    pub fn swap(&mut self, a: Coord, b: Coord)
        requires
            old(self).wf(),
            in_cube(a, old(self).width() as int),
            in_cube(b, old(self).width() as int),
        ensures
            final(self).wf(),
            final(self).width() == old(self).width(),
            final(self).policy() == old(self).policy(),
            final(self)@ == swapped(old(self)@, a, b),
    {
        if a == b {
            assert(self@ =~= swapped(self@, a, b));
            return ;
        }
        let first = (a.x as u8, a.y as u8, a.z as u8);
        let second = (b.x as u8, b.y as u8, b.z as u8);
        assert(first == key_of(a) && second == key_of(b));
        assert(self@.contains_key(a) && self@.contains_key(b));
        let ghost before = store_map(self.cells);
        let pair = store_pair_mut(&mut self.cells, first, second);
        match pair {
            (Some(slot_a), Some(slot_b)) => {
                std::mem::swap(slot_a, slot_b);
            },
            _ => {},
        }
        proof {
            let after = store_map(self.cells);
            assert(after == before.insert(first, before[second]).insert(second, before[first]));
            assert(self@ =~= swapped(old(self)@, a, b));
            lemma_swap_permutes(old(self)@, self.width as int, a, b);
            assert forall|k: CellKey| #[trigger] after.contains_key(k) implies in_cube(
                coord_of(k),
                self.width as int,
            ) by {
                if k != first && k != second {
                    assert(before.contains_key(k));
                }
            }
        }
    }
}

/// Any rearrangement of the row-major order names every cell of the cube
/// exactly once.
pub proof fn lemma_shuffled_orders_cube(order: Seq<Coord>, width: int)
    requires
        0 <= width <= i32::MAX,
        order.to_multiset() == row_major(width).to_multiset(),
    ensures
        orders_cube(order, width),
{
    broadcast use vstd::seq_lib::group_to_multiset_ensures;

    let cells = row_major(width);
    lemma_row_major(width);
    cells.lemma_multiset_has_no_duplicates();
    order.lemma_multiset_has_no_duplicates_conv();
    assert(order.len() == order.to_multiset().len());
    assert(cells.len() == cells.to_multiset().len());
    assert forall|i: int| 0 <= i < order.len() implies in_cube(#[trigger] order[i], width) by {
        assert(order.contains(order[i]));
        assert(order.to_multiset().count(order[i]) > 0);
        assert(cells.contains(order[i]));
    }
}

/// Exchanging the slots of two cells twice restores the mapping.
pub proof fn lemma_swap_involution(m: Map<Coord, usize>, a: Coord, b: Coord)
    requires
        m.contains_key(a),
        m.contains_key(b),
    ensures
        swapped(swapped(m, a, b), a, b) == m,
{
    assert(swapped(swapped(m, a, b), a, b) =~= m);
}

/// Exchanging the slots of two cells of a bijection leaves a bijection.
pub proof fn lemma_swap_permutes(m: Map<Coord, usize>, width: int, a: Coord, b: Coord)
    requires
        permutes_cube(m, width),
        in_cube(a, width),
        in_cube(b, width),
    ensures
        permutes_cube(swapped(m, a, b), width),
{
    let s = swapped(m, a, b);
    assert forall|c: Coord| #[trigger] s.contains_key(c) <==> in_cube(c, width) by {
        assert(m.contains_key(c) <==> in_cube(c, width));
    }
    assert forall|c: Coord| in_cube(c, width) implies 0 <= #[trigger] s[c] < cell_count(width) by {
        assert(0 <= m[c] < cell_count(width));
        assert(0 <= m[a] < cell_count(width));
        assert(0 <= m[b] < cell_count(width));
    }
    assert forall|i: int| 0 <= i < cell_count(width) implies #[trigger] slot_taken(s, width, i) by {
        assert(slot_taken(m, width, i));
        let c = choose|c: Coord| in_cube(c, width) && #[trigger] m[c] == i;
        if c == a {
            assert(s[b] == i);
        } else if c == b {
            assert(s[a] == i);
        } else {
            assert(s[c] == i);
        }
    }
}

} // verus!
