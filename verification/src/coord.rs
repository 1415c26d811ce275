//! Grid coordinates and the geometry of the cube.

use vstd::prelude::*;
use vstd::arithmetic::div_mod::lemma_fundamental_div_mod;
use vstd::arithmetic::div_mod::lemma_fundamental_div_mod_converse;

verus! {

/// Number of cells along each axis of the default grid.
pub const WIDTH: usize = 16;

/// Largest cube width a layout supports. Each axis then fits the four bits
/// of the Morton codec, and every cost fits a 32-bit `usize`.
pub const MAX_WIDTH: usize = 16;

/// A signed grid coordinate. Cells of a cube of width `W` have all three
/// components in `[0, W)`; anything else lies outside the cube.
#[derive(Clone, Copy, Debug, PartialEq, Eq, Structural)]
pub struct Coord {
    pub x: i32,
    pub y: i32,
    pub z: i32,
}

/// An unsigned coordinate, as consumed and produced by the Morton codec.
#[derive(Clone, Copy, Debug, PartialEq, Eq, Structural)]
pub struct UCoord {
    pub x: u32,
    pub y: u32,
    pub z: u32,
}

impl Coord {
    /// The coordinate with the given components.
    pub fn new(x: i32, y: i32, z: i32) -> (c: Coord)
        ensures
            c == (Coord { x, y, z }),
    {
        Coord { x, y, z }
    }
}

impl UCoord {
    /// The coordinate with the given components.
    pub fn new(x: u32, y: u32, z: u32) -> (c: UCoord)
        ensures
            c == (UCoord { x, y, z }),
    {
        UCoord { x, y, z }
    }
}

/// Number of cells of a cube of the given width.
pub open spec fn cell_count(width: int) -> int {
    width * width * width
}

/// Whether `c` is a cell of the cube of the given width.
pub open spec fn in_cube(c: Coord, width: int) -> bool {
    &&& 0 <= c.x < width
    &&& 0 <= c.y < width
    &&& 0 <= c.z < width
}

/// Row-major slot of a cell: `x + z * W + y * W^2`.
pub open spec fn linear_index(c: Coord, width: int) -> int {
    c.x + c.z * width + c.y * width * width
}

/// The cell whose row-major slot is `i`.
pub open spec fn cell_at(i: int, width: int) -> Coord {
    Coord {
        x: (i % width) as i32,
        y: ((i / width) / width) as i32,
        z: ((i / width) % width) as i32,
    }
}

/// The cells of the cube in row-major order.
pub open spec fn row_major(width: int) -> Seq<Coord> {
    Seq::new(cell_count(width) as nat, |i: int| cell_at(i, width))
}

/// The `k`-th of the 27 offsets of a neighborhood, with `x` varying slowest
/// and `z` fastest; offset 13 is `(0, 0, 0)`.
pub open spec fn offset(k: int) -> (int, int, int) {
    (k / 9 - 1, (k / 3) % 3 - 1, k % 3 - 1)
}

/// Whether the `k`-th offset leads from `c` to another cell of the cube.
pub open spec fn leads_inside(c: Coord, width: int, k: int) -> bool {
    &&& k != 13
    &&& 0 <= c.x + offset(k).0 < width
    &&& 0 <= c.y + offset(k).1 < width
    &&& 0 <= c.z + offset(k).2 < width
}

/// The coordinate that the `k`-th offset leads to from `c`.
pub open spec fn stepped(c: Coord, k: int) -> Coord {
    Coord {
        x: (c.x + offset(k).0) as i32,
        y: (c.y + offset(k).1) as i32,
        z: (c.z + offset(k).2) as i32,
    }
}

/// The neighbors of `c` that the first `k` offsets lead to.
pub open spec fn neighbors_upto(c: Coord, width: int, k: nat) -> Seq<Coord>
    decreases k,
{
    if k == 0 {
        Seq::empty()
    } else {
        let before = neighbors_upto(c, width, (k - 1) as nat);
        if leads_inside(c, width, k - 1) {
            before.push(stepped(c, k - 1))
        } else {
            before
        }
    }
}

/// The cells within distance one of `c` on every axis, `c` itself left
/// out: at most 26, fewer at the boundary of the cube, none when `c` is far
/// outside it.
pub open spec fn neighbors_of(c: Coord, width: int) -> Seq<Coord> {
    neighbors_upto(c, width, 27)
}

/// Whether `n` is a cell of the cube other than `c` that differs from `c`
/// by at most one on every axis.
pub open spec fn adjacent(c: Coord, n: Coord, width: int) -> bool {
    &&& in_cube(n, width)
    &&& n != c
    &&& -1 <= n.x - c.x <= 1
    &&& -1 <= n.y - c.y <= 1
    &&& -1 <= n.z - c.z <= 1
}

/// The neighbors of a coordinate are cells of the cube other than itself,
/// and there are at most as many as offsets were tried.
pub proof fn lemma_neighbors_upto(c: Coord, width: int, k: nat)
    requires
        k <= 27,
        width <= i32::MAX,
    ensures
        neighbors_upto(c, width, k).len() <= k,
        forall|i: int|
            0 <= i < neighbors_upto(c, width, k).len() ==> in_cube(
                #[trigger] neighbors_upto(c, width, k)[i],
                width,
            ) && neighbors_upto(c, width, k)[i] != c,
    decreases k,
{
    if k > 0 {
        lemma_neighbors_upto(c, width, (k - 1) as nat);
        if leads_inside(c, width, k - 1) {
            let n = stepped(c, k - 1);
            assert(in_cube(n, width));
            assert(n != c);
        }
    }
}

/// Whether one of the first `k` offsets leads from `c` to the cell `n`.
pub open spec fn reached_within(c: Coord, n: Coord, width: int, k: int) -> bool {
    exists|j: int| 0 <= j < k && #[trigger] leads_inside(c, width, j) && stepped(c, j) == n
}

/// The neighbors found among the first `k` offsets are the cells that
/// these offsets lead to, each found once.
pub proof fn lemma_neighbors_upto_reached(c: Coord, width: int, k: nat)
    requires
        k <= 27,
        width <= i32::MAX,
    ensures
        forall|n: Coord| #[trigger]
            neighbors_upto(c, width, k).contains(n) <==> reached_within(c, n, width, k as int),
        neighbors_upto(c, width, k).no_duplicates(),
    decreases k,
{
    broadcast use vstd::seq_lib::lemma_seq_contains_after_push;

    if k == 0 {
        assert forall|n: Coord| !neighbors_upto(c, width, k).contains(n) by {}
    } else {
        let before = neighbors_upto(c, width, (k - 1) as nat);
        lemma_neighbors_upto_reached(c, width, (k - 1) as nat);
        let now = neighbors_upto(c, width, k);
        assert forall|n: Coord| #[trigger] now.contains(n) <==> reached_within(
            c,
            n,
            width,
            k as int,
        ) by {
            assert(before.contains(n) <==> reached_within(c, n, width, k - 1));
            if reached_within(c, n, width, k as int) {
                let j = choose|j: int|
                    0 <= j < k && #[trigger] leads_inside(c, width, j) && stepped(c, j) == n;
                if j < k - 1 {
                    assert(reached_within(c, n, width, k - 1));
                }
            }
            if leads_inside(c, width, k - 1) && stepped(c, k - 1) == n {
                assert(reached_within(c, n, width, k as int));
            }
        }
        if leads_inside(c, width, k - 1) {
            let n = stepped(c, k - 1);
            if before.contains(n) {
                let j = choose|j: int|
                    0 <= j < k - 1 && #[trigger] leads_inside(c, width, j) && stepped(c, j) == n;
                assert(offset(j) == offset(k - 1));
                assert(false);
            }
            assert(now =~= before.push(n));
            assert forall|i: int, j: int| 0 <= i < now.len() && 0 <= j < now.len() && i
                != j implies now[i] != now[j] by {
                if i < before.len() {
                    assert(before.contains(now[i]));
                }
                if j < before.len() {
                    assert(before.contains(now[j]));
                }
            }
        }
    }
}

/// The neighbors of `c` are exactly the cells adjacent to it, each listed
/// once.
pub proof fn lemma_neighbors_adjacent(c: Coord, width: int)
    requires
        width <= i32::MAX,
    ensures
        forall|n: Coord| #[trigger] neighbors_of(c, width).contains(n) <==> adjacent(c, n, width),
        neighbors_of(c, width).no_duplicates(),
{
    lemma_neighbors_upto_reached(c, width, 27);
    assert forall|n: Coord| #[trigger] neighbors_of(c, width).contains(n) <==> adjacent(
        c,
        n,
        width,
    ) by {
        if adjacent(c, n, width) {
            let j = (n.x - c.x + 1) * 9 + (n.y - c.y + 1) * 3 + (n.z - c.z + 1);
            assert(offset(j) == (n.x - c.x, n.y - c.y, n.z - c.z));
            assert(leads_inside(c, width, j) && stepped(c, j) == n);
            assert(reached_within(c, n, width, 27));
        }
        if reached_within(c, n, width, 27) {
            let j = choose|j: int|
                0 <= j < 27 && #[trigger] leads_inside(c, width, j) && stepped(c, j) == n;
            assert(adjacent(c, n, width));
        }
    }
}

/// A cube without width has no cell, and the widest cube has 4096.
pub proof fn lemma_cell_count(width: int)
    requires
        0 <= width,
    ensures
        0 <= cell_count(width),
        width == 0 ==> cell_count(width) == 0,
        width >= 2 ==> cell_count(width) >= 2,
        width <= MAX_WIDTH ==> cell_count(width) <= 4096,
{
    assert(0 <= width * width * width && (width == 0 ==> width * width * width == 0) && (width
        >= 2 ==> width * width * width >= 2) && (width <= 16 ==> width * width * width <= 4096))
        by (nonlinear_arith)
        requires
            0 <= width,
    ;
}

/// A cell's row-major slot is a slot of the cube.
pub proof fn lemma_linear_index_range(c: Coord, width: int)
    requires
        in_cube(c, width),
    ensures
        0 <= linear_index(c, width) < cell_count(width),
{
    let (x, y, z) = (c.x as int, c.y as int, c.z as int);
    assert(0 <= x + z * width + y * width * width < width * width * width) by (nonlinear_arith)
        requires
            0 <= x < width,
            0 <= y < width,
            0 <= z < width,
    ;
}

/// `cell_at` inverts `linear_index` on the cells of the cube.
pub proof fn lemma_cell_at_linear_index(c: Coord, width: int)
    requires
        in_cube(c, width),
    ensures
        cell_at(linear_index(c, width), width) == c,
{
    let (x, y, z) = (c.x as int, c.y as int, c.z as int);
    let i = linear_index(c, width);
    let q = z + y * width;
    assert(i == q * width + x) by (nonlinear_arith)
        requires
            i == x + z * width + y * width * width,
            q == z + y * width,
    ;
    lemma_fundamental_div_mod_converse(i, width, q, x);
    lemma_fundamental_div_mod_converse(q, width, y, z);
}

/// `linear_index` inverts `cell_at` on the slots of the cube.
pub proof fn lemma_linear_index_cell_at(i: int, width: int)
    requires
        0 <= i < cell_count(width),
        0 < width <= i32::MAX,
    ensures
        in_cube(cell_at(i, width), width),
        linear_index(cell_at(i, width), width) == i,
{
    let x = i % width;
    let q = i / width;
    let z = q % width;
    let y = q / width;
    lemma_fundamental_div_mod(i, width);
    lemma_fundamental_div_mod(q, width);
    assert(0 <= q < width * width) by (nonlinear_arith)
        requires
            i == width * q + x,
            0 <= x < width,
            0 <= i < width * width * width,
            0 < width,
    ;
    assert(0 <= y < width) by (nonlinear_arith)
        requires
            q == width * y + z,
            0 <= z < width,
            0 <= q < width * width,
            0 < width,
    ;
    assert(x + z * width + y * width * width == i) by (nonlinear_arith)
        requires
            i == width * q + x,
            q == width * y + z,
    ;
}

/// Distinct cells of the cube have distinct row-major slots.
pub proof fn lemma_linear_index_injective(a: Coord, b: Coord, width: int)
    requires
        in_cube(a, width),
        in_cube(b, width),
        linear_index(a, width) == linear_index(b, width),
    ensures
        a == b,
{
    lemma_cell_at_linear_index(a, width);
    lemma_cell_at_linear_index(b, width);
}

/// The row-major order names every cell of the cube exactly once.
pub proof fn lemma_row_major(width: int)
    requires
        0 <= width <= i32::MAX,
    ensures
        row_major(width).len() == cell_count(width),
        row_major(width).no_duplicates(),
        forall|c: Coord| #[trigger] row_major(width).contains(c) <==> in_cube(c, width),
{
    let cells = row_major(width);
    lemma_cell_count(width);
    assert forall|i: int, j: int| 0 <= i < cells.len() && 0 <= j < cells.len() && i != j implies cells[i]
        != cells[j] by {
        lemma_linear_index_cell_at(i, width);
        lemma_linear_index_cell_at(j, width);
    }
    assert forall|c: Coord| #[trigger] cells.contains(c) <==> in_cube(c, width) by {
        if cells.contains(c) {
            let i = choose|i: int| 0 <= i < cells.len() && cells[i] == c;
            lemma_linear_index_cell_at(i, width);
        }
        if in_cube(c, width) {
            lemma_linear_index_range(c, width);
            lemma_cell_at_linear_index(c, width);
            assert(cells[linear_index(c, width)] == c);
        }
    }
}

/// Whether `point` is a cell of the cube of the given width.
pub fn within(point: Coord, width: usize) -> (r: bool)
    ensures
        r == in_cube(point, width as int),
{
    point.x >= 0 && (point.x as usize) < width && point.y >= 0 && (point.y as usize) < width
        && point.z >= 0 && (point.z as usize) < width
}

/// Row-major slot of `point` in the cube of the given width.
pub fn linearize_within(point: Coord, width: usize) -> (index: usize)
    requires
        in_cube(point, width as int),
        width <= MAX_WIDTH,
    ensures
        index == linear_index(point, width as int),
        index < cell_count(width as int),
{
    proof {
        lemma_linear_index_range(point, width as int);
        let (w, y, z) = (width as int, point.y as int, point.z as int);
        assert(0 <= z * w <= 256 && 0 <= y * w <= 256 && 0 <= y * w * w <= 4096)
            by (nonlinear_arith)
            requires
                0 <= y < w,
                0 <= z < w,
                w <= 16,
        ;
    }
    point.x as usize + point.z as usize * width + point.y as usize * width * width
}

/// Row-major slot of `point` in the default grid: `x + z * 16 + y * 256`.
pub fn linearize(point: Coord) -> (index: usize)
    requires
        point.x >= 0,
        point.y >= 0,
        point.z >= 0,
        linear_index(point, WIDTH as int) <= usize::MAX,
    ensures
        index == linear_index(point, WIDTH as int),
{
    point.x as usize + point.z as usize * WIDTH + point.y as usize * WIDTH * WIDTH
}

/// The cell whose row-major slot in the cube of the given width is `index`.
pub fn cell_of(index: usize, width: usize) -> (point: Coord)
    requires
        0 < width <= MAX_WIDTH,
        index < cell_count(width as int),
    ensures
        point == cell_at(index as int, width as int),
        in_cube(point, width as int),
        linear_index(point, width as int) == index,
{
    proof {
        lemma_linear_index_cell_at(index as int, width as int);
    }
    let row = index / width;
    Coord { x: (index % width) as i32, y: (row / width) as i32, z: (row % width) as i32 }
}

/// The cells of the cube of the given width, in row-major order.
pub fn cube_cells(width: usize) -> (cells: Vec<Coord>)
    requires
        width <= MAX_WIDTH,
    ensures
        cells@ == row_major(width as int),
{
    assert(width * width <= 256 && width * width * width <= 4096) by (nonlinear_arith)
        requires
            width <= 16,
    ;
    let count = width * width * width;
    let mut cells: Vec<Coord> = Vec::new();
    let mut index: usize = 0;
    while index < count
        invariant
            index <= count,
            count == cell_count(width as int),
            width <= MAX_WIDTH,
            cells@ == Seq::new(index as nat, |i: int| cell_at(i, width as int)),
        decreases count - index,
    {
        assert(width > 0) by (nonlinear_arith)
            requires
                index < width * width * width,
        ;
        cells.push(cell_of(index, width));
        index = index + 1;
    }
    cells
}

/// The neighbors of `point` in the cube of the given width: every cell
/// other than `point` that differs from it by at most one on each axis,
/// ordered by `x`, then `y`, then `z`.
pub fn neighbors_within(point: Coord, width: usize) -> (found: Vec<Coord>)
    ensures
        found@ == neighbors_of(point, width as int),
{
    let mut found: Vec<Coord> = Vec::new();
    let mut k: usize = 0;
    while k < 27
        invariant
            k <= 27,
            found@ == neighbors_upto(point, width as int, k as nat),
        decreases 27 - k,
    {
        let x: i64 = point.x as i64 + (k / 9) as i64 - 1;
        let y: i64 = point.y as i64 + ((k / 3) % 3) as i64 - 1;
        let z: i64 = point.z as i64 + (k % 3) as i64 - 1;
        if k != 13 && 0 <= x && 0 <= y && 0 <= z && (x as u64) < (width as u64) && (y as u64) < (
        width as u64) && (z as u64) < (width as u64) {
            found.push(Coord { x: x as i32, y: y as i32, z: z as i32 });
        }
        k = k + 1;
    }
    found
}

} // verus!
