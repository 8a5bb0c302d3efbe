//! Setting up the mask and the boundary conditions of a scenario.

use crate::scalar::{half, Scalar};
use crate::simu::obstacle::{CircularObstacle, Obstacle, ObstacleType, RectangularObstacle};
use crate::simu::state::{walked, FluidState};
use crate::simu::{constant, fill, Fluid};
use vstd::prelude::*;

verus! {

impl<T: Scalar> FluidState<T> {
    /// The coordinate of the middle of the cells with index `i`, along
    /// either axis.
    pub open spec fn center(self, i: int) -> T {
        T::from_index(i as usize).plus(half::<T>()).times(self.h)
    }

    /// Whether `(i, j)` is an interior cell whose center lies inside
    /// `obstacle`.
    pub open spec fn solid_at<O: Obstacle<T>>(self, obstacle: O, i: int, j: int) -> bool {
        self.interior(i, j) && obstacle.is_inside(self.center(i), self.center(j))
    }

    /// The state with every cell fluid.
    pub open spec fn clear_obstacles(self) -> Self {
        FluidState { s: constant(self.s.len(), true), ..self }
    }

    /// The state with the mask of a tank that is open at the top: the border
    /// is solid at both ends of x and at the low end of y.
    pub open spec fn tank(self) -> Self {
        FluidState {
            s: Seq::new(
                self.s.len(),
                |k: int| !(self.xi(k) == 0 || self.xi(k) == self.num_x - 1 || self.yj(k) == 0),
            ),
            ..self
        }
    }

    /// The state with `obstacle` stamped into the interior. An interior cell
    /// is solid if its center lies inside the obstacle and fluid if not; a
    /// solid cell holds smoke 1 and no flow passes its four faces. The
    /// border keeps its mask.
    pub open spec fn add_obstacle<O: Obstacle<T>>(self, obstacle: O) -> Self {
        FluidState {
            s: Seq::new(
                self.s.len(),
                |k: int|
                    if self.interior(self.xi(k), self.yj(k)) {
                        !self.solid_at(obstacle, self.xi(k), self.yj(k))
                    } else {
                        self.s[k]
                    },
            ),
            m: Seq::new(
                self.m.len(),
                |k: int|
                    if self.solid_at(obstacle, self.xi(k), self.yj(k)) {
                        T::one()
                    } else {
                        self.m[k]
                    },
            ),
            u: Seq::new(
                self.u.len(),
                |k: int|
                    if self.solid_at(obstacle, self.xi(k), self.yj(k)) || self.solid_at(
                        obstacle,
                        self.xi(k) - 1,
                        self.yj(k),
                    ) {
                        T::zero()
                    } else {
                        self.u[k]
                    },
            ),
            v: Seq::new(
                self.v.len(),
                |k: int|
                    if self.solid_at(obstacle, self.xi(k), self.yj(k)) || self.solid_at(
                        obstacle,
                        self.xi(k),
                        self.yj(k) - 1,
                    ) {
                        T::zero()
                    } else {
                        self.v[k]
                    },
            ),
            ..self
        }
    }

    /// The first row of the band without smoke that marks the inlet. The
    /// band is a tenth of the interior height high and lies around the
    /// middle of the grid: it begins at `num_y / 2 - (num_y - 2) / 20`,
    /// rounded down.
    pub open spec fn band_start(self) -> int {
        1 + (9 * (self.num_y - 2)) / 20
    }

    /// The row after the last one of the band, `num_y / 2 + (num_y - 2) / 20`
    /// rounded down.
    pub open spec fn band_end(self) -> int {
        1 + (11 * (self.num_y - 2)) / 20
    }

    /// The state of an empty pipe without gravity: the border is solid at
    /// the low end of x and at both ends of y, the flow along x is
    /// `inflow_velocity` in the first cells after the low end of x, and the
    /// smoke is taken out of the band that marks the inlet.
    pub open spec fn pipe(self, inflow_velocity: T) -> Self {
        FluidState {
            gravity: T::zero(),
            s: Seq::new(
                self.s.len(),
                |k: int| !(self.xi(k) == 0 || self.yj(k) == self.num_y - 1 || self.yj(k) == 0),
            ),
            u: Seq::new(
                self.u.len(),
                |k: int|
                    if self.xi(k) == 1 {
                        inflow_velocity
                    } else {
                        self.u[k]
                    },
            ),
            m: Seq::new(
                self.m.len(),
                |k: int|
                    if self.xi(k) == 1 && self.band_start() <= self.yj(k) < self.band_end() {
                        T::zero()
                    } else {
                        self.m[k]
                    },
            ),
            ..self
        }
    }

    /// The state of a pipe with `obstacles` standing in the flow.
    pub open spec fn vortex_shedding(self, inflow_velocity: T, obstacles: Vec<ObstacleType<T>>) -> Self {
        self.pipe(inflow_velocity).add_obstacle(obstacles)
    }

    /// Whether the walk, on its way to `(i, j)`, has found cell `(a, b)` to
    /// be solid.
    spec fn marked<O: Obstacle<T>>(self, obstacle: O, a: int, b: int, i: int, j: int) -> bool {
        self.solid_at(obstacle, a, b) && walked(a, b, i, j)
    }

    /// The state while `obstacle` is being stamped: the cells that the walk
    /// has passed before it comes to `(i, j)` are marked, the others are as
    /// they were.
    spec fn stamp_until<O: Obstacle<T>>(self, obstacle: O, i: int, j: int) -> Self {
        FluidState {
            s: Seq::new(
                self.s.len(),
                |k: int|
                    if self.interior(self.xi(k), self.yj(k)) && walked(self.xi(k), self.yj(k), i, j) {
                        !self.solid_at(obstacle, self.xi(k), self.yj(k))
                    } else {
                        self.s[k]
                    },
            ),
            m: Seq::new(
                self.m.len(),
                |k: int|
                    if self.marked(obstacle, self.xi(k), self.yj(k), i, j) {
                        T::one()
                    } else {
                        self.m[k]
                    },
            ),
            u: Seq::new(
                self.u.len(),
                |k: int|
                    if self.marked(obstacle, self.xi(k), self.yj(k), i, j) || self.marked(
                        obstacle,
                        self.xi(k) - 1,
                        self.yj(k),
                        i,
                        j,
                    ) {
                        T::zero()
                    } else {
                        self.u[k]
                    },
            ),
            v: Seq::new(
                self.v.len(),
                |k: int|
                    if self.marked(obstacle, self.xi(k), self.yj(k), i, j) || self.marked(
                        obstacle,
                        self.xi(k),
                        self.yj(k) - 1,
                        i,
                        j,
                    ) {
                        T::zero()
                    } else {
                        self.v[k]
                    },
            ),
            ..self
        }
    }

    /// Two places of the walk between which no interior cell lies give the
    /// same state.
    proof fn lemma_stamp_same<O: Obstacle<T>>(self, obstacle: O, i: int, j: int, i2: int, j2: int)
        requires
            forall|a: int, b: int| #[trigger]
                self.interior(a, b) ==> walked(a, b, i, j) == walked(a, b, i2, j2),
        ensures
            self.stamp_until(obstacle, i, j) == self.stamp_until(obstacle, i2, j2),
    {
        let one = self.stamp_until(obstacle, i, j);
        let two = self.stamp_until(obstacle, i2, j2);
        assert forall|a: int, b: int|
            self.marked(obstacle, a, b, i, j) == self.marked(obstacle, a, b, i2, j2) by {
            if self.interior(a, b) {
            }
        }
        assert(one.s =~= two.s);
        assert(one.m =~= two.m);
        assert(one.u =~= two.u);
        assert(one.v =~= two.v);
    }

    /// Before the walk comes to the first interior cell nothing is marked.
    proof fn lemma_stamp_none<O: Obstacle<T>>(self, obstacle: O)
        requires
            self.wf(),
        ensures
            self.stamp_until(obstacle, 1, 1) == self,
    {
        let one = self.stamp_until(obstacle, 1, 1);
        assert(one.s =~= self.s);
        assert(one.m =~= self.m);
        assert(one.u =~= self.u);
        assert(one.v =~= self.v);
    }

    /// After the walk has left the last interior line the obstacle is
    /// stamped.
    proof fn lemma_stamp_all<O: Obstacle<T>>(self, obstacle: O)
        requires
            self.wf(),
        ensures
            self.stamp_until(obstacle, self.num_x - 1, 1) == self.add_obstacle(obstacle),
    {
        let one = self.stamp_until(obstacle, self.num_x - 1, 1);
        let two = self.add_obstacle(obstacle);
        assert(one.s =~= two.s);
        assert(one.m =~= two.m);
        assert(one.u =~= two.u);
        assert(one.v =~= two.v);
    }
}

impl<T: Scalar> Fluid<T> {
    /// Makes every cell fluid. Velocity, pressure and smoke stay as they are.
    pub fn clear_obstacles(&mut self)
        requires
            old(self).wf(),
        ensures
            final(self).wf(),
            final(self)@ == old(self)@.clear_obstacles(),
    {
        fill(&mut self.s, true);
    }

    /// Sets the mask of a tank that is open at the top.
    pub fn tank(&mut self)
        requires
            old(self).wf(),
        ensures
            final(self).wf(),
            final(self)@ == old(self)@.tank(),
    {
        let ghost start = self@;
        let ghost goal = start.tank();
        proof {
            start.lemma_passed_none(goal.s, start.s);
        }
        let mut i: usize = 0;
        while i < self.num_x
            invariant
                i <= self.num_x,
                self.wf(),
                start.wf(),
                goal == start.tank(),
                self@ == (FluidState { s: self@.s, ..start }),
                start.passed(self@.s, goal.s, start.s, i as int, 0),
            decreases self.num_x - i,
        {
            let mut j: usize = 0;
            while j < self.num_y
                invariant
                    i < self.num_x,
                    j <= self.num_y,
                    self.wf(),
                    start.wf(),
                    goal == start.tank(),
                    self@ == (FluidState { s: self@.s, ..start }),
                    start.passed(self@.s, goal.s, start.s, i as int, j as int),
                decreases self.num_y - j,
            {
                let here = self.idx(i, j);
                let wall = i == 0 || i == self.num_x - 1 || j == 0;
                let ghost prev = self@.s;
                self.s[here] = !wall;
                proof {
                    start.lemma_passed_next(prev, self@.s, goal.s, start.s, i as int, j as int);
                }
                j += 1;
            }
            proof {
                start.lemma_passed_line(self@.s, goal.s, start.s, i as int);
            }
            i += 1;
        }
        proof {
            start.lemma_passed_all(self@.s, goal.s, start.s, i as int, 0);
        }
    }

    /// Stamps `obstacle` into the interior: every interior cell whose center
    /// lies inside it becomes solid, holds smoke 1 and lets no flow pass its
    /// four faces; every other interior cell becomes fluid.
    pub fn add_obstacle<O: Obstacle<T>>(&mut self, obstacle: O)
        requires
            old(self).wf(),
        ensures
            final(self).wf(),
            final(self)@ == old(self)@.add_obstacle(obstacle),
    {
        self.stamp(&obstacle);
    }

    /// Stamps `obstacles` into the interior: a cell is solid if its center
    /// lies inside any of them.
    pub fn add_obstacles(&mut self, obstacles: Vec<ObstacleType<T>>)
        requires
            old(self).wf(),
        ensures
            final(self).wf(),
            final(self)@ == old(self)@.add_obstacle(obstacles),
    {
        self.stamp(&obstacles);
    }

    /// Stamps the rectangle around `(x, y)` with half width `w` and half
    /// height `h` into the interior.
    pub fn add_rectangular_obstacle(&mut self, x: T, y: T, w: T, h: T)
        requires
            old(self).wf(),
        ensures
            final(self).wf(),
            final(self)@ == old(self)@.add_obstacle(RectangularObstacle { x, y, w, h }),
    {
        self.stamp(&RectangularObstacle::new(x, y, w, h));
    }

    /// Stamps the disc around `(x, y)` with radius `r` into the interior.
    pub fn add_circular_obstacle(&mut self, x: T, y: T, r: T)
        requires
            old(self).wf(),
        ensures
            final(self).wf(),
            final(self)@ == old(self)@.add_obstacle(CircularObstacle { x, y, r }),
    {
        self.stamp(&CircularObstacle::new(x, y, r));
    }

    /// Sets up the flow through a pipe around `obstacles`, without gravity:
    /// solid walls at the low end of x and at both ends of y, the flow
    /// `inflow_velocity` along x at the inlet, a band without smoke in the
    /// middle of the inlet, and the obstacles stamped into the interior.
    pub fn vortex_shedding(&mut self, inflow_velocity: T, obstacles: Vec<ObstacleType<T>>)
        requires
            old(self).wf(),
        ensures
            final(self).wf(),
            final(self)@ == old(self)@.vortex_shedding(inflow_velocity, obstacles),
    {
        self.pipe(inflow_velocity);
        self.add_obstacles(obstacles);
    }

    /// Sets up the flow through an empty pipe, without gravity.
    fn pipe(&mut self, inflow_velocity: T)
        requires
            old(self).wf(),
        ensures
            final(self).wf(),
            final(self)@ == old(self)@.pipe(inflow_velocity),
    {
        let ghost start = self@;
        let ghost goal = start.pipe(inflow_velocity);
        proof {
            start.lemma_passed_none(goal.s, start.s);
            start.lemma_passed_none(goal.u, start.u);
        }
        let mut i: usize = 0;
        while i < self.num_x
            invariant
                i <= self.num_x,
                self.wf(),
                start.wf(),
                goal == start.pipe(inflow_velocity),
                self@ == (FluidState { s: self@.s, u: self@.u, ..start }),
                start.passed(self@.s, goal.s, start.s, i as int, 0),
                start.passed(self@.u, goal.u, start.u, i as int, 0),
            decreases self.num_x - i,
        {
            let mut j: usize = 0;
            while j < self.num_y
                invariant
                    i < self.num_x,
                    j <= self.num_y,
                    self.wf(),
                    start.wf(),
                    goal == start.pipe(inflow_velocity),
                    self@ == (FluidState { s: self@.s, u: self@.u, ..start }),
                    start.passed(self@.s, goal.s, start.s, i as int, j as int),
                    start.passed(self@.u, goal.u, start.u, i as int, j as int),
                decreases self.num_y - j,
            {
                let here = self.idx(i, j);
                let wall = i == 0 || j == self.num_y - 1 || j == 0;
                let ghost prev_s = self@.s;
                let ghost prev_u = self@.u;
                self.s[here] = !wall;
                if i == 1 {
                    self.u[here] = inflow_velocity;
                }
                proof {
                    start.lemma_passed_next(prev_s, self@.s, goal.s, start.s, i as int, j as int);
                    start.lemma_passed_next(prev_u, self@.u, goal.u, start.u, i as int, j as int);
                }
                j += 1;
            }
            proof {
                start.lemma_passed_line(self@.s, goal.s, start.s, i as int);
                start.lemma_passed_line(self@.u, goal.u, start.u, i as int);
            }
            i += 1;
        }
        proof {
            start.lemma_passed_all(self@.s, goal.s, start.s, i as int, 0);
            start.lemma_passed_all(self@.u, goal.u, start.u, i as int, 0);
        }
        let interior_h = self.num_y - 2;
        let min_j = 1 + (interior_h / 20) * 9 + ((interior_h % 20) * 9) / 20;
        let max_j = 1 + (interior_h / 20) * 11 + ((interior_h % 20) * 11) / 20;
        let mut j: usize = min_j;
        while j < max_j
            invariant
                min_j <= j <= max_j,
                min_j == start.band_start(),
                max_j == start.band_end(),
                max_j <= self.num_y - 1,
                self.wf(),
                start.wf(),
                self@ == (FluidState { s: goal.s, u: goal.u, m: self@.m, ..start }),
                forall|k: int|
                    0 <= k < start.cells() ==> #[trigger] self@.m[k] == (if start.xi(k) == 1 && min_j
                        <= start.yj(k) < j {
                        T::zero()
                    } else {
                        start.m[k]
                    }),
            decreases max_j - j,
        {
            let here = self.idx(1, j);
            self.m[here] = T::zero();
            proof {
                assert forall|k: int| 0 <= k < start.cells() implies #[trigger] self@.m[k] == (
                if start.xi(k) == 1 && min_j <= start.yj(k) < j + 1 {
                    T::zero()
                } else {
                    start.m[k]
                }) by {
                    start.lemma_cell(k);
                }
            }
            j += 1;
        }
        proof {
            assert(self@.m =~= goal.m);
        }
        self.gravity = T::zero();
    }

    /// Walks through the interior and marks every cell by `obstacle`.
    fn stamp<O: Obstacle<T>>(&mut self, obstacle: &O)
        requires
            old(self).wf(),
        ensures
            final(self).wf(),
            final(self)@ == old(self)@.add_obstacle(*obstacle),
    {
        let ghost start = self@;
        let one_half = T::one().over(T::from_index(2));
        proof {
            start.lemma_stamp_none(*obstacle);
        }
        let mut i: usize = 1;
        while i < self.num_x - 1
            invariant
                1 <= i <= self.num_x - 1,
                self.wf(),
                start.wf(),
                one_half == half::<T>(),
                self@ == start.stamp_until(*obstacle, i as int, 1),
            decreases self.num_x - i,
        {
            let mut j: usize = 1;
            while j < self.num_y - 1
                invariant
                    1 <= i < self.num_x - 1,
                    1 <= j <= self.num_y - 1,
                    self.wf(),
                    start.wf(),
                    one_half == half::<T>(),
                    self@ == start.stamp_until(*obstacle, i as int, j as int),
                decreases self.num_y - j,
            {
                let x = T::from_index(i).plus(one_half).times(self.h);
                let y = T::from_index(j).plus(one_half).times(self.h);
                let solid = obstacle.is_inside(x, y);
                let here = self.idx(i, j);
                let right = self.idx(i + 1, j);
                let above = self.idx(i, j + 1);
                if solid {
                    self.m[here] = T::one();
                    self.u[here] = T::zero();
                    self.u[right] = T::zero();
                    self.v[here] = T::zero();
                    self.v[above] = T::zero();
                }
                self.s[here] = !solid;
                proof {
                    let next = start.stamp_until(*obstacle, i as int, j + 1);
                    assert(solid == start.solid_at(*obstacle, i as int, j as int));
                    assert forall|k: int| 0 <= k < start.cells() implies self@.s[k] == next.s[k] by {
                        start.lemma_cell(k);
                    }
                    assert forall|k: int| 0 <= k < start.cells() implies self@.m[k] == next.m[k] by {
                        start.lemma_cell(k);
                    }
                    assert forall|k: int| 0 <= k < start.cells() implies self@.u[k] == next.u[k] by {
                        start.lemma_cell(k);
                    }
                    assert forall|k: int| 0 <= k < start.cells() implies self@.v[k] == next.v[k] by {
                        start.lemma_cell(k);
                    }
                    assert(self@.s =~= next.s);
                    assert(self@.m =~= next.m);
                    assert(self@.u =~= next.u);
                    assert(self@.v =~= next.v);
                }
                j += 1;
            }
            proof {
                start.lemma_stamp_same(*obstacle, i as int, j as int, i + 1, 1);
            }
            i += 1;
        }
        proof {
            start.lemma_stamp_all(*obstacle);
        }
    }
}

} // verus!
