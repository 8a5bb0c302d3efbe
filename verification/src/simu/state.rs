//! The mathematical model of the solver's state.
//!
//! The grid has `num_x` by `num_y` cells, the outermost of which form a
//! border. `i` counts cells along x and `j` along y; cell `(i, j)` stands at
//! offset `i * num_y + j` of every field.

use vstd::arithmetic::div_mod::{lemma_fundamental_div_mod, lemma_fundamental_div_mod_converse};
use vstd::prelude::*;

verus! {

/// The fields of a fluid and its geometry.
pub struct FluidState<T> {
    /// Cells along x, border included.
    pub num_x: nat,
    /// Cells along y, border included.
    pub num_y: nat,
    /// Acceleration along y.
    pub gravity: T,
    /// Density of the fluid.
    pub density: T,
    /// Side of a cell.
    pub h: T,
    /// Velocity along x, on the face between cells `(i - 1, j)` and `(i, j)`.
    pub u: Seq<T>,
    /// Velocity along y, on the face between cells `(i, j - 1)` and `(i, j)`.
    pub v: Seq<T>,
    /// Pressure at cell centers.
    pub p: Seq<T>,
    /// The mask: `true` for fluid, `false` for solid.
    pub s: Seq<bool>,
    /// Smoke density at cell centers.
    pub m: Seq<T>,
    /// Room for the next `u` while it is gathered; afterwards the `u` that
    /// it replaced.
    pub new_u: Seq<T>,
    /// Room for the next `v` while it is gathered; afterwards the `v` that
    /// it replaced.
    pub new_v: Seq<T>,
    /// Room for the next smoke while it is gathered; afterwards the smoke
    /// that it replaced.
    pub new_m: Seq<T>,
}

/// Whether a walk through the grid, along y first, comes to cell `(a, b)`
/// before it comes to `(i, j)`.
pub open spec fn walked(a: int, b: int, i: int, j: int) -> bool {
    a < i || (a == i && b < j)
}

impl<T> FluidState<T> {
    /// Number of cells.
    pub open spec fn cells(self) -> nat {
        self.num_x * self.num_y
    }

    /// The grid has an interior and every field has one value per cell.
    pub open spec fn wf(self) -> bool {
        &&& self.num_x >= 3
        &&& self.num_y >= 3
        &&& self.u.len() == self.cells()
        &&& self.v.len() == self.cells()
        &&& self.p.len() == self.cells()
        &&& self.s.len() == self.cells()
        &&& self.m.len() == self.cells()
        &&& self.new_u.len() == self.cells()
        &&& self.new_v.len() == self.cells()
        &&& self.new_m.len() == self.cells()
    }

    /// Offset of cell `(i, j)`.
    pub open spec fn at(self, i: int, j: int) -> int {
        i * self.num_y + j
    }

    /// The x index of the cell at offset `k`.
    pub open spec fn xi(self, k: int) -> int {
        k / (self.num_y as int)
    }

    /// The y index of the cell at offset `k`.
    pub open spec fn yj(self, k: int) -> int {
        k % (self.num_y as int)
    }

    /// Whether `(i, j)` is a cell of the grid.
    pub open spec fn on_grid(self, i: int, j: int) -> bool {
        0 <= i < self.num_x && 0 <= j < self.num_y
    }

    /// Whether `(i, j)` is a cell inside the border.
    pub open spec fn interior(self, i: int, j: int) -> bool {
        1 <= i < self.num_x - 1 && 1 <= j < self.num_y - 1
    }

    /// Whether cell `(i, j)` holds fluid.
    pub open spec fn fluid(self, i: int, j: int) -> bool {
        self.s[self.at(i, j)]
    }

    /// The mask value of cell `(i, j)`: 1 for fluid, 0 for solid.
    pub open spec fn mask(self, i: int, j: int) -> int {
        if self.fluid(i, j) {
            1
        } else {
            0
        }
    }

    /// Whether the walk through the grid, along y first, comes to the cell at
    /// offset `k` before it comes to `(i, j)`.
    pub open spec fn before(self, k: int, i: int, j: int) -> bool {
        walked(self.xi(k), self.yj(k), i, j)
    }

    /// A cell of the grid has an offset below the number of cells, and the
    /// offset gives the cell back.
    pub proof fn lemma_at(self, i: int, j: int)
        requires
            self.on_grid(i, j),
        ensures
            0 <= self.at(i, j) < self.cells(),
            self.xi(self.at(i, j)) == i,
            self.yj(self.at(i, j)) == j,
    {
        let ny = self.num_y as int;
        let nx = self.num_x as int;
        assert(0 <= i * ny && i * ny + ny <= nx * ny) by (nonlinear_arith)
            requires
                0 <= i < nx,
                0 < ny,
        ;
        lemma_fundamental_div_mod_converse(self.at(i, j), ny, i, j);
    }

    /// Whether `now` holds the values of `goal` at the offsets that the walk
    /// has passed before it comes to `(i, j)`, and those of `start` at the
    /// others.
    pub open spec fn passed<A>(self, now: Seq<A>, goal: Seq<A>, start: Seq<A>, i: int, j: int) -> bool {
        &&& now.len() == self.cells()
        &&& forall|k: int|
            0 <= k < self.cells() ==> #[trigger] now[k] == (if self.before(k, i, j) {
                goal[k]
            } else {
                start[k]
            })
    }

    /// Before the walk begins nothing has been passed.
    pub proof fn lemma_passed_none<A>(self, goal: Seq<A>, start: Seq<A>)
        requires
            start.len() == self.cells(),
        ensures
            self.passed(start, goal, start, 0, 0),
    {
        assert forall|k: int| 0 <= k < self.cells() implies !self.before(k, 0, 0) by {
            self.lemma_cell(k);
        }
    }

    /// The walk passes cell `(i, j)` when the value at its offset becomes
    /// that of `goal` and the others stay.
    pub proof fn lemma_passed_next<A>(
        self,
        prev: Seq<A>,
        now: Seq<A>,
        goal: Seq<A>,
        start: Seq<A>,
        i: int,
        j: int,
    )
        requires
            self.on_grid(i, j),
            self.passed(prev, goal, start, i, j),
            now.len() == prev.len(),
            now[self.at(i, j)] == goal[self.at(i, j)],
            forall|k: int| 0 <= k < now.len() && k != self.at(i, j) ==> #[trigger] now[k] == prev[k],
        ensures
            self.passed(now, goal, start, i, j + 1),
    {
        assert forall|k: int| 0 <= k < self.cells() implies #[trigger] now[k] == (if self.before(
            k,
            i,
            j + 1,
        ) {
            goal[k]
        } else {
            start[k]
        }) by {
            self.lemma_cell(k);
            self.lemma_at(i, j);
        }
    }

    /// The walk passes, without a change, the cells from `(i, j)` up to
    /// `(i2, j2)` at which `goal` and `start` agree.
    pub proof fn lemma_passed_idle<A>(
        self,
        now: Seq<A>,
        goal: Seq<A>,
        start: Seq<A>,
        i: int,
        j: int,
        i2: int,
        j2: int,
    )
        requires
            self.passed(now, goal, start, i, j),
            walked(i, j, i2, j2) || (i == i2 && j == j2),
            forall|k: int|
                0 <= k < self.cells() && self.before(k, i2, j2) && !self.before(k, i, j)
                    ==> #[trigger] goal[k] == start[k],
        ensures
            self.passed(now, goal, start, i2, j2),
    {
        assert forall|k: int| 0 <= k < self.cells() implies #[trigger] now[k] == (if self.before(
            k,
            i2,
            j2,
        ) {
            goal[k]
        } else {
            start[k]
        }) by {
            if self.before(k, i2, j2) && !self.before(k, i, j) {
                assert(goal[k] == start[k]);
            }
        }
    }

    /// At the end of a line along y the walk goes on with the next line.
    pub proof fn lemma_passed_line<A>(self, now: Seq<A>, goal: Seq<A>, start: Seq<A>, i: int)
        requires
            self.passed(now, goal, start, i, self.num_y as int),
        ensures
            self.passed(now, goal, start, i + 1, 0),
    {
        assert forall|k: int| 0 <= k < self.cells() implies self.before(k, i, self.num_y as int)
            == self.before(k, i + 1, 0) by {
            self.lemma_cell(k);
        }
    }

    /// When the walk has passed the last line, `now` is `goal`.
    pub proof fn lemma_passed_all<A>(self, now: Seq<A>, goal: Seq<A>, start: Seq<A>, i: int, j: int)
        requires
            self.passed(now, goal, start, i, j),
            i >= self.num_x,
            goal.len() == self.cells(),
        ensures
            now == goal,
    {
        assert forall|k: int| 0 <= k < self.cells() implies now[k] == goal[k] by {
            self.lemma_cell(k);
        }
        assert(now =~= goal);
    }

    /// An offset below the number of cells is that of one cell of the grid.
    pub proof fn lemma_cell(self, k: int)
        requires
            0 <= k < self.cells(),
        ensures
            self.on_grid(self.xi(k), self.yj(k)),
            self.at(self.xi(k), self.yj(k)) == k,
    {
        let ny = self.num_y as int;
        let nx = self.num_x as int;
        assert(ny > 0) by (nonlinear_arith)
            requires
                0 <= k < nx * ny,
                0 <= ny,
        ;
        lemma_fundamental_div_mod(k, ny);
        let q = k / ny;
        assert(0 <= k % ny < ny);
        assert(ny * q == q * ny) by (nonlinear_arith);
        assert(0 <= q < nx) by (nonlinear_arith)
            requires
                0 <= k < nx * ny,
                0 < ny,
                k == q * ny + k % ny,
                0 <= k % ny < ny,
        ;
    }
}

} // verus!
