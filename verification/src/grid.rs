use vstd::prelude::*;
use crate::SimError;
use crate::cell::{Cell, Color, Position};

verus! {

/// The cell every coordinate holds right after construction: dead, black,
/// placed at its own coordinate.
pub open spec fn blank_cell(x: int, y: int, z: int) -> Cell {
    Cell {
        position: Position { x: x as i32, y: y as i32, z: z as i32 },
        alive: false,
        color: Color { r: 0, g: 0, b: 0 },
    }
}

/// A fixed-size 3D lattice of cells. The cells live in one dense vector,
/// laid out x-major: coordinate `(x, y, z)` sits at flat index
/// `(x * height + y) * depth + z`.
pub struct Grid {
    pub cells: Vec<Cell>,
    pub width: i32,
    pub height: i32,
    pub depth: i32,
}

impl Grid {
    /// The flat index of coordinate `(x, y, z)` in `cells`.
    pub open spec fn flat_index(self, x: int, y: int, z: int) -> int {
        (x * self.height + y) * self.depth + z
    }

    /// Whether `(x, y, z)` lies inside the grid extent.
    pub open spec fn contains(self, x: int, y: int, z: int) -> bool {
        0 <= x < self.width && 0 <= y < self.height && 0 <= z < self.depth
    }

    /// The cell stored at in-bounds coordinate `(x, y, z)`.
    pub open spec fn cell_at(self, x: int, y: int, z: int) -> Cell {
        self.cells@[self.flat_index(x, y, z)]
    }

    /// Well-formedness: positive dimensions whose product fits the address
    /// space, and exactly one stored cell per coordinate.
    pub open spec fn wf(self) -> bool {
        &&& 0 < self.width
        &&& 0 < self.height
        &&& 0 < self.depth
        &&& self.width * self.height * self.depth <= usize::MAX
        &&& self.cells@.len() == self.width * self.height * self.depth
    }
}

/// An in-bounds coordinate maps to a flat index inside the cell array, and
/// the partial products on the way there stay below the array length.
proof fn lemma_flat_index_bounds(w: int, h: int, d: int, x: int, y: int, z: int)
    requires
        0 <= x < w,
        0 <= y < h,
        0 <= z < d,
    ensures
        0 <= (x * h + y) * d + z,
        (x * h + y) * d + z < w * h * d,
        0 <= x * h + y,
        x * h + y < w * h,
        w * h <= w * h * d,
{
    assert(0 <= (x * h + y) * d + z && (x * h + y) * d + z < w * h * d && 0 <= x * h + y && x * h
        + y < w * h && w * h <= w * h * d) by (nonlinear_arith)
        requires
            0 <= x < w,
            0 <= y < h,
            0 <= z < d,
    ;
}

/// Flat indexing respects the lexicographic order on coordinates.
proof fn lemma_flat_index_lex(h: int, d: int, a: int, b: int, c: int, x: int, y: int, z: int)
    requires
        0 <= a,
        0 <= b < h,
        0 <= c < d,
        0 <= x,
        0 <= y < h,
        0 <= z < d,
        a < x || (a == x && b < y) || (a == x && b == y && c < z),
    ensures
        (a * h + b) * d + c < (x * h + y) * d + z,
{
    if a < x {
        assert((a * h + b) * d + c < (x * h + y) * d + z) by (nonlinear_arith)
            requires
                0 <= a,
                0 <= b < h,
                0 <= c < d,
                0 <= y,
                0 <= z,
                a < x,
        ;
    } else if a == x && b < y {
        assert((a * h + b) * d + c < (a * h + y) * d + z) by (nonlinear_arith)
            requires
                0 <= c < d,
                0 <= z,
                b < y,
        ;
    }
}

/// Distinct in-bounds coordinates have distinct flat indices.
proof fn lemma_flat_index_injective(
    h: int,
    d: int,
    a: int,
    b: int,
    c: int,
    x: int,
    y: int,
    z: int,
)
    requires
        0 <= b < h,
        0 <= c < d,
        0 <= a,
        0 <= y < h,
        0 <= z < d,
        0 <= x,
        a != x || b != y || c != z,
    ensures
        (a * h + b) * d + c != (x * h + y) * d + z,
{
    if a < x || (a == x && b < y) || (a == x && b == y && c < z) {
        lemma_flat_index_lex(h, d, a, b, c, x, y, z);
    } else {
        lemma_flat_index_lex(h, d, x, y, z, a, b, c);
    }
}

/// A partial neighbor count lies between zero and the number of points
/// considered.
proof fn lemma_neighbor_count_upto_bounds(g: Grid, x: int, y: int, z: int, k: int)
    requires
        0 <= k,
    ensures
        0 <= g.neighbor_count_upto(x, y, z, k) <= k,
    decreases k,
{
    if k > 0 {
        lemma_neighbor_count_upto_bounds(g, x, y, z, k - 1);
    }
}

/// Extending a partial neighbor count adds at most one per point.
proof fn lemma_neighbor_count_upto_diff(g: Grid, x: int, y: int, z: int, k1: int, k2: int)
    requires
        0 <= k1 <= k2,
    ensures
        g.neighbor_count_upto(x, y, z, k2) - g.neighbor_count_upto(x, y, z, k1) <= k2 - k1,
    decreases k2 - k1,
{
    if k2 > k1 {
        lemma_neighbor_count_upto_diff(g, x, y, z, k1, k2 - 1);
    }
}

impl Grid {
    /// Computes the flat index of an in-bounds coordinate.
    fn index_of(&self, x: i32, y: i32, z: i32) -> (i: usize)
        requires
            self.wf(),
            self.contains(x as int, y as int, z as int),
        ensures
            i as int == self.flat_index(x as int, y as int, z as int),
            i < self.cells@.len(),
    {
        proof {
            lemma_flat_index_bounds(
                self.width as int,
                self.height as int,
                self.depth as int,
                x as int,
                y as int,
                z as int,
            );
        }
        ((x as usize) * (self.height as usize) + (y as usize)) * (self.depth as usize) + (
        z as usize)
    }

    /// Builds the all-dead grid with the given positive dimensions.
    pub(crate) fn make(width: i32, height: i32, depth: i32) -> (g: Grid)
        requires
            0 < width,
            0 < height,
            0 < depth,
            width * height * depth <= usize::MAX,
        ensures
            g.wf(),
            g.width == width,
            g.height == height,
            g.depth == depth,
            forall|x: int, y: int, z: int|
                g.contains(x, y, z) ==> g.cell_at(x, y, z) == blank_cell(x, y, z),
    {
        let mut cells: Vec<Cell> = Vec::new();
        let mut x: i32 = 0;
        while x < width
            invariant
                0 <= x <= width,
                0 < width,
                0 < height,
                0 < depth,
                width * height * depth <= usize::MAX,
                cells@.len() == x * height * depth,
                forall|a: int, b: int, c: int|
                    0 <= a < x && 0 <= b < height && 0 <= c < depth ==> cells@[(a * height + b)
                        * depth + c] == blank_cell(a, b, c),
            decreases width - x,
        {
            let mut y: i32 = 0;
            while y < height
                invariant
                    0 <= y <= height,
                    0 <= x < width,
                    0 < width,
                    0 < height,
                    0 < depth,
                    width * height * depth <= usize::MAX,
                    cells@.len() == x * height * depth + y * depth,
                    forall|a: int, b: int, c: int|
                        0 <= a < width && 0 <= b < height && 0 <= c < depth && (a < x || (a == x
                            && b < y)) ==> cells@[(a * height + b) * depth + c] == blank_cell(
                            a,
                            b,
                            c,
                        ),
                decreases height - y,
            {
                let mut z: i32 = 0;
                while z < depth
                    invariant
                        0 <= z <= depth,
                        0 <= y < height,
                        0 <= x < width,
                        0 < width,
                        0 < height,
                        0 < depth,
                        width * height * depth <= usize::MAX,
                        cells@.len() == x * height * depth + y * depth + z,
                        forall|a: int, b: int, c: int|
                            0 <= a < width && 0 <= b < height && 0 <= c < depth && (a < x || (a == x
                                && b < y) || (a == x && b == y && c < z)) ==> cells@[(a * height + b)
                                * depth + c] == blank_cell(a, b, c),
                    decreases depth - z,
                {
                    proof {
                        lemma_flat_index_bounds(
                            width as int,
                            height as int,
                            depth as int,
                            x as int,
                            y as int,
                            z as int,
                        );
                        assert(x * height * depth + y * depth + z == (x * height + y) * depth + z)
                            by (nonlinear_arith);
                    }
                    cells.push(
                        Cell {
                            position: Position { x, y, z },
                            alive: false,
                            color: Color { r: 0, g: 0, b: 0 },
                        },
                    );
                    proof {
                        assert forall|a: int, b: int, c: int|
                            0 <= a < width && 0 <= b < height && 0 <= c < depth && (a < x || (a == x
                                && b < y) || (a == x && b == y && c < z + 1)) implies cells@[(a
                            * height + b) * depth + c] == blank_cell(a, b, c) by {
                            if a == x && b == y && c == z {
                                assert(cells@[(a * height + b) * depth + c] == blank_cell(a, b, c));
                            } else {
                                lemma_flat_index_lex(
                                    height as int,
                                    depth as int,
                                    a,
                                    b,
                                    c,
                                    x as int,
                                    y as int,
                                    z as int,
                                );
                                lemma_flat_index_bounds(
                                    width as int,
                                    height as int,
                                    depth as int,
                                    a,
                                    b,
                                    c,
                                );
                            }
                        }
                    }
                    z = z + 1;
                }
                proof {
                    assert(x * height * depth + y * depth + depth == x * height * depth + (y + 1)
                        * depth) by (nonlinear_arith);
                }
                y = y + 1;
            }
            proof {
                assert(x * height * depth + height * depth == (x + 1) * height * depth)
                    by (nonlinear_arith);
            }
            x = x + 1;
        }
        Grid { cells, width, height, depth }
    }

    /// Creates a grid of `width * height * depth` dead cells, or reports
    /// `InvalidDimension` when any dimension is zero or negative.
    pub fn new(width: i32, height: i32, depth: i32) -> (r: Result<Grid, SimError>)
        requires
            (0 < width && 0 < height && 0 < depth) ==> width * height * depth <= usize::MAX,
        ensures
            r is Ok <==> (0 < width && 0 < height && 0 < depth),
            r is Err ==> r->Err_0 == SimError::InvalidDimension,
            r is Ok ==> {
                let g = r->Ok_0;
                &&& g.wf()
                &&& g.width == width
                &&& g.height == height
                &&& g.depth == depth
                &&& forall|x: int, y: int, z: int|
                    g.contains(x, y, z) ==> (#[trigger] g.cell_at(x, y, z)) == blank_cell(x, y, z)
            },
    {
        if width <= 0 || height <= 0 || depth <= 0 {
            Err(SimError::InvalidDimension)
        } else {
            Ok(Grid::make(width, height, depth))
        }
    }

    /// Reads the cell at an in-bounds coordinate.
    pub(crate) fn at(&self, x: i32, y: i32, z: i32) -> (c: Cell)
        requires
            self.wf(),
            self.contains(x as int, y as int, z as int),
        ensures
            c == self.cell_at(x as int, y as int, z as int),
    {
        let i = self.index_of(x, y, z);
        self.cells[i]
    }

    /// Overwrites the cell at an in-bounds coordinate, leaving every other
    /// coordinate untouched.
    pub(crate) fn put(&mut self, x: i32, y: i32, z: i32, cell: Cell)
        requires
            old(self).wf(),
            old(self).contains(x as int, y as int, z as int),
        ensures
            final(self).wf(),
            final(self).width == old(self).width,
            final(self).height == old(self).height,
            final(self).depth == old(self).depth,
            final(self).cell_at(x as int, y as int, z as int) == cell,
            forall|a: int, b: int, c: int|
                old(self).contains(a, b, c) && !(a == x as int && b == y as int && c == z as int)
                    ==> (#[trigger] final(self).cell_at(a, b, c)) == old(self).cell_at(a, b, c),
    {
        let i = self.index_of(x, y, z);
        self.cells.set(i, cell);
        proof {
            assert forall|a: int, b: int, c: int|
                old(self).contains(a, b, c) && !(a == x as int && b == y as int && c
                    == z as int) implies self.cell_at(a, b, c) == old(self).cell_at(a, b, c) by {
                lemma_flat_index_injective(
                    self.height as int,
                    self.depth as int,
                    a,
                    b,
                    c,
                    x as int,
                    y as int,
                    z as int,
                );
                lemma_flat_index_bounds(
                    self.width as int,
                    self.height as int,
                    self.depth as int,
                    a,
                    b,
                    c,
                );
            }
        }
    }

    /// The contribution of the `j`-th point of the 3x3x3 block around
    /// `(x, y, z)` to its neighbor count. Index `j` in `[0, 27)` names the
    /// offset `(j / 9 - 1, (j / 3) % 3 - 1, j % 3 - 1)`; index 13 is the
    /// center itself and never counts, and offsets that leave the grid are
    /// treated as "no neighbor".
    pub open spec fn neighbor_contrib(self, x: int, y: int, z: int, j: int) -> int {
        let nx = x + j / 9 - 1;
        let ny = y + (j / 3) % 3 - 1;
        let nz = z + j % 3 - 1;
        if j != 13 && self.contains(nx, ny, nz) && self.cell_at(nx, ny, nz).alive {
            1
        } else {
            0
        }
    }

    /// The alive neighbors of `(x, y, z)` among the first `k` points of its
    /// 3x3x3 block.
    pub open spec fn neighbor_count_upto(self, x: int, y: int, z: int, k: int) -> int
        decreases k,
    {
        if k <= 0 {
            0
        } else {
            self.neighbor_count_upto(x, y, z, k - 1) + self.neighbor_contrib(x, y, z, k - 1)
        }
    }

    /// The number of alive cells among the at most 26 in-bounds Moore
    /// neighbors of `(x, y, z)`: the in-bounds points at Chebyshev distance 1.
    pub open spec fn neighbor_count(self, x: int, y: int, z: int) -> int {
        self.neighbor_count_upto(x, y, z, 27)
    }

    /// Counts the alive Moore neighbors of an in-bounds coordinate.
    pub(crate) fn neighbor_total(&self, x: i32, y: i32, z: i32) -> (n: u32)
        requires
            self.wf(),
            self.contains(x as int, y as int, z as int),
        ensures
            n as int == self.neighbor_count(x as int, y as int, z as int),
            n <= 26,
    {
        let mut n: u32 = 0;
        let mut j: u32 = 0;
        while j < 27
            invariant
                self.wf(),
                self.contains(x as int, y as int, z as int),
                0 <= j <= 27,
                n <= j,
                n as int == self.neighbor_count_upto(x as int, y as int, z as int, j as int),
            decreases 27 - j,
        {
            if j != 13 {
                let dx: i32 = (j / 9) as i32 - 1;
                let dy: i32 = ((j / 3) % 3) as i32 - 1;
                let dz: i32 = (j % 3) as i32 - 1;
                let nx = x + dx;
                let ny = y + dy;
                let nz = z + dz;
                if 0 <= nx && nx < self.width && 0 <= ny && ny < self.height && 0 <= nz && nz
                    < self.depth {
                    if self.at(nx, ny, nz).alive {
                        n = n + 1;
                    }
                }
            }
            j = j + 1;
        }
        proof {
            assert(n <= 26) by {
                lemma_neighbor_count_upto_bounds(*self, x as int, y as int, z as int, 13);
                lemma_neighbor_count_upto_diff(*self, x as int, y as int, z as int, 14, 27);
                assert(self.neighbor_count_upto(x as int, y as int, z as int, 14)
                    == self.neighbor_count_upto(x as int, y as int, z as int, 13));
            }
        }
        n
    }

    /// Counts the alive Moore neighbors of `(x, y, z)`: the number of alive
    /// cells among the in-bounds coordinates at Chebyshev distance 1. Fails
    /// with `OutOfBounds` when `(x, y, z)` itself lies outside the grid.
    pub fn count_alive_neighbors(&self, x: i32, y: i32, z: i32) -> (r: Result<u32, SimError>)
        requires
            self.wf(),
        ensures
            r is Ok <==> self.contains(x as int, y as int, z as int),
            r is Ok ==> r->Ok_0 as int == self.neighbor_count(x as int, y as int, z as int)
                && r->Ok_0 <= 26,
            r is Err ==> r->Err_0 == SimError::OutOfBounds,
    {
        if 0 <= x && x < self.width && 0 <= y && y < self.height && 0 <= z && z < self.depth {
            Ok(self.neighbor_total(x, y, z))
        } else {
            Err(SimError::OutOfBounds)
        }
    }

    /// Returns the cell at `(x, y, z)`, or `OutOfBounds` when the coordinate
    /// lies outside the grid extent on any axis.
    pub fn get(&self, x: i32, y: i32, z: i32) -> (r: Result<Cell, SimError>)
        requires
            self.wf(),
        ensures
            r is Ok <==> self.contains(x as int, y as int, z as int),
            r is Ok ==> r->Ok_0 == self.cell_at(x as int, y as int, z as int),
            r is Err ==> r->Err_0 == SimError::OutOfBounds,
    {
        if 0 <= x && x < self.width && 0 <= y && y < self.height && 0 <= z && z < self.depth {
            Ok(self.at(x, y, z))
        } else {
            Err(SimError::OutOfBounds)
        }
    }

    /// Overwrites the cell at `(x, y, z)` in place, or reports `OutOfBounds`
    /// (leaving the grid unchanged) when the coordinate lies outside the
    /// grid extent on any axis.
    pub fn set(&mut self, x: i32, y: i32, z: i32, cell: Cell) -> (r: Result<(), SimError>)
        requires
            old(self).wf(),
        ensures
            r is Ok <==> old(self).contains(x as int, y as int, z as int),
            r is Err ==> r->Err_0 == SimError::OutOfBounds && *final(self) == *old(self),
            r is Ok ==> {
                &&& final(self).wf()
                &&& final(self).width == old(self).width
                &&& final(self).height == old(self).height
                &&& final(self).depth == old(self).depth
                &&& final(self).cell_at(x as int, y as int, z as int) == cell
                &&& forall|a: int, b: int, c: int|
                    old(self).contains(a, b, c) && !(a == x as int && b == y as int && c
                        == z as int) ==> (#[trigger] final(self).cell_at(a, b, c)) == old(
                        self,
                    ).cell_at(a, b, c)
            },
    {
        if 0 <= x && x < self.width && 0 <= y && y < self.height && 0 <= z && z < self.depth {
            self.put(x, y, z, cell);
            Ok(())
        } else {
            Err(SimError::OutOfBounds)
        }
    }
}

} // verus!
