use vstd::prelude::*;
use crate::SimError;
use crate::cell::{Cell, Position};
use crate::grid::Grid;
use crate::rng::{rng_below, rng_from_seed};
use crate::rule::{BirthChance, ColorRule, NeighborRule};

verus! {

/// The alive-state of in-bounds coordinate `(x, y, z)` one tick after `g`:
/// an alive cell survives when its neighbor count lies in the survival
/// range, a dead cell is born when it lies in the birth range, and the cell
/// is dead otherwise.
pub open spec fn spec_next_alive(
    g: Grid,
    survival: NeighborRule,
    birth: NeighborRule,
    x: int,
    y: int,
    z: int,
) -> bool {
    if g.cell_at(x, y, z).alive {
        survival.contains(g.neighbor_count(x, y, z))
    } else {
        birth.contains(g.neighbor_count(x, y, z))
    }
}

/// The whole cell at `(x, y, z)` one tick after `g`: the transition rule
/// decides its alive-state, the color rule recolors it, and it stays at its
/// own coordinate.
pub open spec fn spec_next_cell(
    g: Grid,
    survival: NeighborRule,
    birth: NeighborRule,
    colors: ColorRule,
    x: int,
    y: int,
    z: int,
) -> Cell {
    Cell {
        position: Position { x: x as i32, y: y as i32, z: z as i32 },
        alive: spec_next_alive(g, survival, birth, x, y, z),
        color: colors.spec_color_for(spec_next_alive(g, survival, birth, x, y, z)),
    }
}

/// `after` is the state exactly one tick past `before` under the given
/// rules.
pub open spec fn steps_to(
    before: Grid,
    after: Grid,
    survival: NeighborRule,
    birth: NeighborRule,
    colors: ColorRule,
) -> bool {
    &&& after.wf()
    &&& after.width == before.width
    &&& after.height == before.height
    &&& after.depth == before.depth
    &&& forall|x: int, y: int, z: int|
        before.contains(x, y, z) ==> (#[trigger] after.cell_at(x, y, z)) == spec_next_cell(
            before,
            survival,
            birth,
            colors,
            x,
            y,
            z,
        )
}

/// What `initialize` guarantees of every seeded cell: it sits at its own
/// coordinate, its color follows the color rule, and the two degenerate
/// chances pin its alive-state (never alive at probability zero, always
/// alive at probability one).
pub open spec fn seeded_cell_ok(
    cell: Cell,
    chance: BirthChance,
    colors: ColorRule,
    x: int,
    y: int,
    z: int,
) -> bool {
    &&& cell.position == (Position { x: x as i32, y: y as i32, z: z as i32 })
    &&& cell.color == colors.spec_color_for(cell.alive)
    &&& chance.numer == 0 ==> !cell.alive
    &&& chance.numer == chance.denom ==> cell.alive
}

/// Whether every in-bounds cell of `g` is dead.
pub open spec fn all_dead(g: Grid) -> bool {
    forall|x: int, y: int, z: int| g.contains(x, y, z) ==> !(#[trigger] g.cell_at(x, y, z)).alive
}

/// Two grids of equal extent whose cells agree coordinate by coordinate
/// assign equal partial neighbor counts everywhere.
proof fn lemma_neighbor_count_agrees(g1: Grid, g2: Grid, x: int, y: int, z: int, k: int)
    requires
        g1.width == g2.width,
        g1.height == g2.height,
        g1.depth == g2.depth,
        forall|a: int, b: int, c: int|
            g1.contains(a, b, c) ==> g1.cell_at(a, b, c) == g2.cell_at(a, b, c),
    ensures
        g1.neighbor_count_upto(x, y, z, k) == g2.neighbor_count_upto(x, y, z, k),
    decreases k,
{
    if k > 0 {
        lemma_neighbor_count_agrees(g1, g2, x, y, z, k - 1);
        let j = k - 1;
        let nx = x + j / 9 - 1;
        let ny = y + (j / 3) % 3 - 1;
        let nz = z + j % 3 - 1;
        if g1.contains(nx, ny, nz) {
            assert(g1.cell_at(nx, ny, nz) == g2.cell_at(nx, ny, nz));
        }
        assert(g1.neighbor_contrib(x, y, z, j) == g2.neighbor_contrib(x, y, z, j));
    }
}

/// Determinism law: a tick is a function of the grid state and the rules
/// alone. Two ticks taken from observably identical states, under the same
/// rules, produce observably identical next states.
pub proof fn lemma_step_deterministic(
    g1: Grid,
    g2: Grid,
    n1: Grid,
    n2: Grid,
    survival: NeighborRule,
    birth: NeighborRule,
    colors: ColorRule,
)
    requires
        g1.width == g2.width,
        g1.height == g2.height,
        g1.depth == g2.depth,
        forall|x: int, y: int, z: int|
            g1.contains(x, y, z) ==> g1.cell_at(x, y, z) == g2.cell_at(x, y, z),
        steps_to(g1, n1, survival, birth, colors),
        steps_to(g2, n2, survival, birth, colors),
    ensures
        n1.width == n2.width,
        n1.height == n2.height,
        n1.depth == n2.depth,
        forall|x: int, y: int, z: int|
            n1.contains(x, y, z) ==> n1.cell_at(x, y, z) == n2.cell_at(x, y, z),
{
    assert forall|x: int, y: int, z: int| n1.contains(x, y, z) implies n1.cell_at(x, y, z)
        == n2.cell_at(x, y, z) by {
        assert(g1.contains(x, y, z));
        assert(g1.cell_at(x, y, z) == g2.cell_at(x, y, z));
        lemma_neighbor_count_agrees(g1, g2, x, y, z, 27);
        assert(n1.cell_at(x, y, z) == spec_next_cell(g1, survival, birth, colors, x, y, z));
        assert(n2.cell_at(x, y, z) == spec_next_cell(g2, survival, birth, colors, x, y, z));
    }
}

/// In an all-dead grid every partial neighbor count is zero.
proof fn lemma_dead_neighbor_count(g: Grid, x: int, y: int, z: int, k: int)
    requires
        all_dead(g),
    ensures
        g.neighbor_count_upto(x, y, z, k) == 0,
    decreases k,
{
    if k > 0 {
        lemma_dead_neighbor_count(g, x, y, z, k - 1);
        let j = k - 1;
        let nx = x + j / 9 - 1;
        let ny = y + (j / 3) % 3 - 1;
        let nz = z + j % 3 - 1;
        if g.contains(nx, ny, nz) {
            assert(!g.cell_at(nx, ny, nz).alive);
        }
    }
}

/// Stability law, one tick: under a birth range that excludes zero, a tick
/// taken from an all-dead grid yields an all-dead grid, since no cell can
/// have an alive neighbor.
pub proof fn lemma_all_dead_stable(
    before: Grid,
    after: Grid,
    survival: NeighborRule,
    birth: NeighborRule,
    colors: ColorRule,
)
    requires
        all_dead(before),
        !birth.contains(0),
        steps_to(before, after, survival, birth, colors),
    ensures
        all_dead(after),
{
    assert forall|x: int, y: int, z: int| after.contains(x, y, z) implies !after.cell_at(
        x,
        y,
        z,
    ).alive by {
        assert(before.contains(x, y, z));
        assert(!before.cell_at(x, y, z).alive);
        lemma_dead_neighbor_count(before, x, y, z, 27);
        assert(after.cell_at(x, y, z) == spec_next_cell(before, survival, birth, colors, x, y, z));
    }
}

/// Stability law, any number of ticks: along any chain of grids in which
/// each grid steps to the next under a birth range that excludes zero, an
/// all-dead start keeps every later grid all-dead.
pub proof fn lemma_all_dead_stays_dead(
    chain: Seq<Grid>,
    survival: NeighborRule,
    birth: NeighborRule,
    colors: ColorRule,
)
    requires
        chain.len() > 0,
        all_dead(chain[0]),
        !birth.contains(0),
        forall|i: int|
            0 <= i < chain.len() - 1 ==> steps_to(
                #[trigger] chain[i],
                chain[i + 1],
                survival,
                birth,
                colors,
            ),
    ensures
        forall|i: int| 0 <= i < chain.len() ==> all_dead(chain[i]),
    decreases chain.len(),
{
    if chain.len() > 1 {
        assert(steps_to(chain[0], chain[1], survival, birth, colors));
        lemma_all_dead_stable(chain[0], chain[1], survival, birth, colors);
        let rest = chain.subrange(1, chain.len() as int);
        assert forall|i: int|
            0 <= i < rest.len() - 1 implies steps_to(
            #[trigger] rest[i],
            rest[i + 1],
            survival,
            birth,
            colors,
        ) by {
            assert(rest[i] == chain[i + 1]);
            assert(rest[i + 1] == chain[i + 2]);
            assert(steps_to(chain[i + 1], chain[i + 2], survival, birth, colors));
        }
        lemma_all_dead_stays_dead(rest, survival, birth, colors);
        assert forall|i: int| 0 <= i < chain.len() implies all_dead(chain[i]) by {
            if i > 0 {
                assert(chain[i] == rest[i - 1]);
                assert(all_dead(rest[i - 1]));
            }
        }
    }
}

/// The simulation engine: it owns the current grid, evolves it one tick at
/// a time under its configured rules, and hands read-only snapshots to the
/// host. Before `initialize` it holds no grid and every query fails with
/// `NotInitialized`.
pub struct SimulationEngine {
    pub grid: Option<Grid>,
    pub survival: NeighborRule,
    pub birth: NeighborRule,
    pub colors: ColorRule,
}

impl SimulationEngine {
    /// Whether `initialize` has completed.
    pub open spec fn is_ready(self) -> bool {
        self.grid is Some
    }

    /// The current grid of a ready engine.
    pub open spec fn cur(self) -> Grid {
        self.grid->Some_0
    }

    /// Well-formedness: whatever grid the engine holds is well-formed.
    pub open spec fn wf(self) -> bool {
        self.grid is Some ==> self.grid->Some_0.wf()
    }

    /// Creates an engine with the given rules and no grid yet.
    pub fn new(survival: NeighborRule, birth: NeighborRule, colors: ColorRule) -> (e:
        SimulationEngine)
        ensures
            e.wf(),
            !e.is_ready(),
            e.survival == survival,
            e.birth == birth,
            e.colors == colors,
    {
        SimulationEngine { grid: None, survival, birth, colors }
    }

    /// Allocates the grid and seeds every cell alive with probability
    /// `chance`, drawing from a generator built from the explicit `seed`.
    /// This is the only randomness in the core; `step` is deterministic.
    /// Fails with `InvalidDimension` when any dimension is zero or
    /// negative.
    pub fn initialize(
        &mut self,
        width: i32,
        height: i32,
        depth: i32,
        chance: BirthChance,
        seed: u64,
    ) -> (r: Result<(), SimError>)
        requires
            old(self).wf(),
            chance.wf(),
            (0 < width && 0 < height && 0 < depth) ==> width * height * depth <= usize::MAX,
        ensures
            final(self).wf(),
            final(self).survival == old(self).survival,
            final(self).birth == old(self).birth,
            final(self).colors == old(self).colors,
            r is Ok <==> (0 < width && 0 < height && 0 < depth),
            r is Err ==> r->Err_0 == SimError::InvalidDimension && *final(self) == *old(self),
            r is Ok ==> {
                &&& final(self).is_ready()
                &&& final(self).cur().width == width
                &&& final(self).cur().height == height
                &&& final(self).cur().depth == depth
                &&& forall|x: int, y: int, z: int|
                    final(self).cur().contains(x, y, z) ==> seeded_cell_ok(
                        #[trigger] final(self).cur().cell_at(x, y, z),
                        chance,
                        old(self).colors,
                        x,
                        y,
                        z,
                    )
            },
    {
        if width <= 0 || height <= 0 || depth <= 0 {
            return Err(SimError::InvalidDimension);
        }
        let colors = self.colors;
        let mut g = Grid::make(width, height, depth);
        let mut rng = rng_from_seed(seed);
        let mut x: i32 = 0;
        while x < width
            invariant
                g.wf(),
                g.width == width,
                g.height == height,
                g.depth == depth,
                0 <= x <= width,
                chance.wf(),
                forall|a: int, b: int, c: int|
                    g.contains(a, b, c) && a < x ==> seeded_cell_ok(
                        g.cell_at(a, b, c),
                        chance,
                        colors,
                        a,
                        b,
                        c,
                    ),
            decreases width - x,
        {
            let mut y: i32 = 0;
            while y < height
                invariant
                    g.wf(),
                    g.width == width,
                    g.height == height,
                    g.depth == depth,
                    0 <= x < width,
                    0 <= y <= height,
                    chance.wf(),
                    forall|a: int, b: int, c: int|
                        g.contains(a, b, c) && (a < x || (a == x && b < y)) ==> seeded_cell_ok(
                            g.cell_at(a, b, c),
                            chance,
                            colors,
                            a,
                            b,
                            c,
                        ),
                decreases height - y,
            {
                let mut z: i32 = 0;
                while z < depth
                    invariant
                        g.wf(),
                        g.width == width,
                        g.height == height,
                        g.depth == depth,
                        0 <= x < width,
                        0 <= y < height,
                        0 <= z <= depth,
                        chance.wf(),
                        forall|a: int, b: int, c: int|
                            g.contains(a, b, c) && (a < x || (a == x && b < y) || (a == x && b == y
                                && c < z)) ==> seeded_cell_ok(
                                g.cell_at(a, b, c),
                                chance,
                                colors,
                                a,
                                b,
                                c,
                            ),
                    decreases depth - z,
                {
                    let draw = rng_below(&mut rng, chance.denom);
                    let alive = draw < chance.numer;
                    let color = colors.color_for(alive);
                    let ghost g0 = g;
                    g.put(x, y, z, Cell { position: Position { x, y, z }, alive, color });
                    proof {
                        assert forall|a: int, b: int, c: int|
                            g.contains(a, b, c) && (a < x || (a == x && b < y) || (a == x && b == y
                                && c < z + 1)) implies seeded_cell_ok(
                            g.cell_at(a, b, c),
                            chance,
                            colors,
                            a,
                            b,
                            c,
                        ) by {
                            if !(a == x as int && b == y as int && c == z as int) {
                                assert(g0.contains(a, b, c));
                                assert(g.cell_at(a, b, c) == g0.cell_at(a, b, c));
                                assert(seeded_cell_ok(g0.cell_at(a, b, c), chance, colors, a, b, c));
                            }
                        }
                    }
                    z = z + 1;
                }
                y = y + 1;
            }
            x = x + 1;
        }
        self.grid = Some(g);
        Ok(())
    }

    /// Advances the grid by one tick: every cell's next state is computed
    /// from the current grid only, on a fresh buffer that replaces the
    /// current grid as one indivisible assignment at the end. Fails with
    /// `NotInitialized` before `initialize`.
    pub fn step(&mut self) -> (r: Result<(), SimError>)
        requires
            old(self).wf(),
        ensures
            final(self).wf(),
            final(self).survival == old(self).survival,
            final(self).birth == old(self).birth,
            final(self).colors == old(self).colors,
            r is Ok <==> old(self).is_ready(),
            r is Err ==> r->Err_0 == SimError::NotInitialized && *final(self) == *old(self),
            r is Ok ==> final(self).is_ready() && steps_to(
                old(self).cur(),
                final(self).cur(),
                old(self).survival,
                old(self).birth,
                old(self).colors,
            ),
    {
        let next = match &self.grid {
            None => {
                return Err(SimError::NotInitialized);
            },
            Some(g) => {
                let survival = &self.survival;
                let birth = &self.birth;
                let colors = self.colors;
                let mut next = Grid::make(g.width, g.height, g.depth);
                let mut x: i32 = 0;
                while x < g.width
                    invariant
                        g.wf(),
                        next.wf(),
                        next.width == g.width,
                        next.height == g.height,
                        next.depth == g.depth,
                        0 <= x <= g.width,
                        forall|a: int, b: int, c: int|
                            g.contains(a, b, c) && a < x ==> next.cell_at(a, b, c)
                                == spec_next_cell(*g, *survival, *birth, colors, a, b, c),
                    decreases g.width - x,
                {
                    let mut y: i32 = 0;
                    while y < g.height
                        invariant
                            g.wf(),
                            next.wf(),
                            next.width == g.width,
                            next.height == g.height,
                            next.depth == g.depth,
                            0 <= x < g.width,
                            0 <= y <= g.height,
                            forall|a: int, b: int, c: int|
                                g.contains(a, b, c) && (a < x || (a == x && b < y)) ==> next.cell_at(
                                    a,
                                    b,
                                    c,
                                ) == spec_next_cell(*g, *survival, *birth, colors, a, b, c),
                        decreases g.height - y,
                    {
                        let mut z: i32 = 0;
                        while z < g.depth
                            invariant
                                g.wf(),
                                next.wf(),
                                next.width == g.width,
                                next.height == g.height,
                                next.depth == g.depth,
                                0 <= x < g.width,
                                0 <= y < g.height,
                                0 <= z <= g.depth,
                                forall|a: int, b: int, c: int|
                                    g.contains(a, b, c) && (a < x || (a == x && b < y) || (a == x
                                        && b == y && c < z)) ==> next.cell_at(a, b, c)
                                        == spec_next_cell(*g, *survival, *birth, colors, a, b, c),
                            decreases g.depth - z,
                        {
                            let n = g.neighbor_total(x, y, z);
                            let alive_now = g.at(x, y, z).alive;
                            let alive = if alive_now {
                                survival.admits(n)
                            } else {
                                birth.admits(n)
                            };
                            let color = colors.color_for(alive);
                            next.put(x, y, z, Cell { position: Position { x, y, z }, alive, color });
                            z = z + 1;
                        }
                        y = y + 1;
                    }
                    x = x + 1;
                }
                next
            },
        };
        self.grid = Some(next);
        Ok(())
    }

    /// Reads one cell of the current grid. Fails with `NotInitialized`
    /// before `initialize`, and with `OutOfBounds` for a coordinate outside
    /// the grid extent.
    pub fn get_cell(&self, x: i32, y: i32, z: i32) -> (r: Result<Cell, SimError>)
        requires
            self.wf(),
        ensures
            !self.is_ready() ==> r is Err && r->Err_0 == SimError::NotInitialized,
            self.is_ready() ==> {
                &&& r is Ok <==> self.cur().contains(x as int, y as int, z as int)
                &&& r is Ok ==> r->Ok_0 == self.cur().cell_at(x as int, y as int, z as int)
                &&& r is Err ==> r->Err_0 == SimError::OutOfBounds
            },
    {
        match &self.grid {
            None => Err(SimError::NotInitialized),
            Some(g) => g.get(x, y, z),
        }
    }

    /// Copies out the whole current state, one cell per coordinate, in flat
    /// index order; the host reads each cell's coordinate from its
    /// `position`. Fails with `NotInitialized` before `initialize`.
    pub fn snapshot(&self) -> (r: Result<Vec<Cell>, SimError>)
        requires
            self.wf(),
        ensures
            r is Ok <==> self.is_ready(),
            r is Err ==> r->Err_0 == SimError::NotInitialized,
            r is Ok ==> {
                &&& r->Ok_0@.len() == self.cur().width * self.cur().height * self.cur().depth
                &&& forall|x: int, y: int, z: int|
                    self.cur().contains(x, y, z) ==> r->Ok_0@[#[trigger] self.cur().flat_index(
                        x,
                        y,
                        z,
                    )] == self.cur().cell_at(x, y, z)
            },
    {
        match &self.grid {
            None => Err(SimError::NotInitialized),
            Some(g) => {
                let mut out: Vec<Cell> = Vec::new();
                let mut i: usize = 0;
                while i < g.cells.len()
                    invariant
                        0 <= i <= g.cells@.len(),
                        out@.len() == i,
                        forall|j: int| 0 <= j < i ==> out@[j] == g.cells@[j],
                    decreases g.cells@.len() - i,
                {
                    out.push(g.cells[i]);
                    i = i + 1;
                }
                proof {
                    assert(out@ =~= g.cells@);
                }
                Ok(out)
            },
        }
    }
}

} // verus!
