//! One step of the solver: gravity, projection, extrapolation, advection.

use crate::scalar::{half, Scalar};
use crate::simu::state::FluidState;
use crate::simu::{constant, copy_into, fill, Field, Fluid};
use vstd::prelude::*;

verus! {

impl<T: Scalar> FluidState<T> {
    /// Whether gravity acts on `v` of cell `(i, j)`: the cell lies inside
    /// the border, and it and the cell below it hold fluid.
    pub open spec fn gravity_face(self, i: int, j: int) -> bool {
        &&& self.interior(i, j)
        &&& self.fluid(i, j)
        &&& self.fluid(i, j - 1)
    }

    /// The state after gravity has acted for the time `dt`. The border rows
    /// and columns keep their velocity.
    pub open spec fn integrate(self, dt: T, gravity: T) -> Self {
        FluidState {
            v: Seq::new(
                self.v.len(),
                |k: int|
                    if self.gravity_face(self.xi(k), self.yj(k)) {
                        self.v[k].plus(dt.times(gravity))
                    } else {
                        self.v[k]
                    },
            ),
            ..self
        }
    }

    /// How many of the four neighbours of cell `(i, j)` hold fluid.
    pub open spec fn neighbours(self, i: int, j: int) -> nat {
        let left: nat = if self.fluid(i - 1, j) { 1 } else { 0 };
        let right: nat = if self.fluid(i + 1, j) { 1 } else { 0 };
        let below: nat = if self.fluid(i, j - 1) { 1 } else { 0 };
        let above: nat = if self.fluid(i, j + 1) { 1 } else { 0 };
        left + right + below + above
    }

    /// What flows out of cell `(i, j)` through its four faces.
    pub open spec fn divergence(self, i: int, j: int) -> T {
        self.u[self.at(i + 1, j)].minus(self.u[self.at(i, j)]).plus(self.v[self.at(i, j + 1)]).minus(
            self.v[self.at(i, j)],
        )
    }

    /// Whether the projection corrects cell `(i, j)`: an interior fluid cell
    /// with at least one fluid neighbour.
    pub open spec fn relaxed(self, i: int, j: int) -> bool {
        self.interior(i, j) && self.fluid(i, j) && self.neighbours(i, j) > 0
    }

    /// The flow that every open face of cell `(i, j)` takes over so that
    /// nothing is left to flow out, stretched by `over_relaxation`.
    pub open spec fn correction(self, over_relaxation: T, i: int, j: int) -> T {
        self.divergence(i, j).neg().over(T::from_index(self.neighbours(i, j) as usize)).times(
            over_relaxation,
        )
    }

    /// The state after cell `(i, j)` has been corrected: the pressure of the
    /// cell grows by `cp` times the correction, and each of its four faces
    /// that leads to a fluid cell takes the correction, the others keep
    /// their flow.
    pub open spec fn relax_cell(self, cp: T, over_relaxation: T, i: int, j: int) -> Self {
        if !self.relaxed(i, j) {
            self
        } else {
            let c = self.correction(over_relaxation, i, j);
            let here = self.at(i, j);
            let right = self.at(i + 1, j);
            let above = self.at(i, j + 1);
            FluidState {
                p: self.p.update(here, self.p[here].plus(cp.times(c))),
                u: self.u.update(
                    here,
                    if self.fluid(i - 1, j) {
                        self.u[here].minus(c)
                    } else {
                        self.u[here]
                    },
                ).update(
                    right,
                    if self.fluid(i + 1, j) {
                        self.u[right].plus(c)
                    } else {
                        self.u[right]
                    },
                ),
                v: self.v.update(
                    here,
                    if self.fluid(i, j - 1) {
                        self.v[here].minus(c)
                    } else {
                        self.v[here]
                    },
                ).update(
                    above,
                    if self.fluid(i, j + 1) {
                        self.v[above].plus(c)
                    } else {
                        self.v[above]
                    },
                ),
                ..self
            }
        }
    }

    /// The state after the first `n` interior cells have been corrected one
    /// after the other, along y first, each on the state that the one before
    /// it left.
    pub open spec fn sweep(self, cp: T, over_relaxation: T, n: nat) -> Self
        decreases n,
    {
        if n == 0 {
            self
        } else {
            let prev = self.sweep(cp, over_relaxation, (n - 1) as nat);
            prev.relax_cell(
                cp,
                over_relaxation,
                1 + (n - 1) / (self.num_y - 2),
                1 + (n - 1) % (self.num_y - 2),
            )
        }
    }

    /// Number of cells inside the border.
    pub open spec fn interior_cells(self) -> nat {
        ((self.num_x - 2) * (self.num_y - 2)) as nat
    }

    /// The state after `iterations` sweeps over the interior.
    pub open spec fn relax(self, cp: T, over_relaxation: T, iterations: nat) -> Self
        decreases iterations,
    {
        if iterations == 0 {
            self
        } else {
            self.relax(cp, over_relaxation, (iterations - 1) as nat).sweep(
                cp,
                over_relaxation,
                self.interior_cells(),
            )
        }
    }

    /// The state after the projection that takes the divergence out of the
    /// velocity, in `iterations` sweeps; the pressure grows by
    /// `density * h / dt` times each correction.
    pub open spec fn solve_incompressibility(self, over_relaxation: T, iterations: nat, dt: T) -> Self {
        self.relax(self.density.times(self.h).over(dt), over_relaxation, iterations)
    }

    /// The state after the velocities next to the border have been copied
    /// onto it: `u` along y, `v` along x.
    pub open spec fn extrapolate(self) -> Self {
        FluidState {
            u: Seq::new(
                self.u.len(),
                |k: int|
                    if self.yj(k) == 0 {
                        self.u[self.at(self.xi(k), 1)]
                    } else if self.yj(k) == self.num_y - 1 {
                        self.u[self.at(self.xi(k), self.num_y - 2)]
                    } else {
                        self.u[k]
                    },
            ),
            v: Seq::new(
                self.v.len(),
                |k: int|
                    if self.xi(k) == 0 {
                        self.v[self.at(1, self.yj(k))]
                    } else if self.xi(k) == self.num_x - 1 {
                        self.v[self.at(self.num_x - 2, self.yj(k))]
                    } else {
                        self.v[k]
                    },
            ),
            ..self
        }
    }

    /// Whether `u` of cell `(i, j)` is carried along by the flow: the face
    /// lies inside the border rows and parts two fluid cells.
    pub open spec fn u_face(self, i: int, j: int) -> bool {
        &&& 1 <= i < self.num_x
        &&& 1 <= j < self.num_y - 1
        &&& self.fluid(i, j)
        &&& self.fluid(i - 1, j)
    }

    /// Whether `v` of cell `(i, j)` is carried along by the flow.
    pub open spec fn v_face(self, i: int, j: int) -> bool {
        &&& 1 <= i < self.num_x - 1
        &&& 1 <= j < self.num_y
        &&& self.fluid(i, j)
        &&& self.fluid(i, j - 1)
    }

    /// The value of `u` at the point from which the flow reaches the face of
    /// `u` of cell `(i, j)` in the time `dt`.
    pub open spec fn advected_u(self, dt: T, i: int, j: int) -> T {
        let x = T::from_index(i as usize).times(self.h);
        let y = T::from_index(j as usize).times(self.h).plus(half::<T>().times(self.h));
        let u = self.u[self.at(i, j)];
        let v = self.avg_v(i, j);
        self.sample(x.minus(dt.times(u)), y.minus(dt.times(v)), Field::U)
    }

    /// The value of `v` at the point from which the flow reaches the face of
    /// `v` of cell `(i, j)` in the time `dt`.
    pub open spec fn advected_v(self, dt: T, i: int, j: int) -> T {
        let x = T::from_index(i as usize).times(self.h).plus(half::<T>().times(self.h));
        let y = T::from_index(j as usize).times(self.h);
        let u = self.avg_u(i, j);
        let v = self.v[self.at(i, j)];
        self.sample(x.minus(dt.times(u)), y.minus(dt.times(v)), Field::V)
    }

    /// The state after the flow has carried the velocity along for the time
    /// `dt`. Every new value is read from the velocity before the step, which
    /// is kept in the room for the next one.
    pub open spec fn advect_velocity(self, dt: T) -> Self {
        FluidState {
            new_u: self.u,
            new_v: self.v,
            u: Seq::new(
                self.u.len(),
                |k: int|
                    if self.u_face(self.xi(k), self.yj(k)) {
                        self.advected_u(dt, self.xi(k), self.yj(k))
                    } else {
                        self.u[k]
                    },
            ),
            v: Seq::new(
                self.v.len(),
                |k: int|
                    if self.v_face(self.xi(k), self.yj(k)) {
                        self.advected_v(dt, self.xi(k), self.yj(k))
                    } else {
                        self.v[k]
                    },
            ),
            ..self
        }
    }

    /// The smoke at the point from which the flow reaches the center of
    /// cell `(i, j)` in the time `dt`.
    pub open spec fn advected_m(self, dt: T, i: int, j: int) -> T {
        let h2 = half::<T>().times(self.h);
        let u = self.u[self.at(i, j)].plus(self.u[self.at(i + 1, j)]).times(half::<T>());
        let v = self.v[self.at(i, j)].plus(self.v[self.at(i, j + 1)]).times(half::<T>());
        let x = T::from_index(i as usize).times(self.h).plus(h2).minus(dt.times(u));
        let y = T::from_index(j as usize).times(self.h).plus(h2).minus(dt.times(v));
        self.sample(x, y, Field::S)
    }

    /// The state after the flow has carried the smoke along for the time
    /// `dt`. Solid cells and the border keep their smoke. The smoke before
    /// the step is kept in the room for the next one.
    pub open spec fn advect_smoke(self, dt: T) -> Self {
        FluidState {
            new_m: self.m,
            m: Seq::new(
                self.m.len(),
                |k: int|
                    if self.interior(self.xi(k), self.yj(k)) && self.fluid(self.xi(k), self.yj(k)) {
                        self.advected_m(dt, self.xi(k), self.yj(k))
                    } else {
                        self.m[k]
                    },
            ),
            ..self
        }
    }

    /// The state with no pressure anywhere.
    pub open spec fn clear_pressure(self) -> Self {
        FluidState { p: constant(self.p.len(), T::zero()), ..self }
    }

    /// The state one time step `dt` later: gravity, projection from zero
    /// pressure, extrapolation, advection of the velocity, advection of the
    /// smoke, in this order.
    pub open spec fn simulate(self, dt: T, iterations: nat, over_relaxation: T) -> Self {
        self.integrate(dt, self.gravity).clear_pressure().solve_incompressibility(
            over_relaxation,
            iterations,
            dt,
        ).extrapolate().advect_velocity(dt).advect_smoke(dt)
    }
}

impl<T: Scalar> Fluid<T> {
    /// Lets gravity act for the time `dt` on every face inside the border
    /// that parts two fluid cells along y.
    pub fn integrate(&mut self, dt: T, gravity: T)
        requires
            old(self).wf(),
        ensures
            final(self).wf(),
            final(self)@ == old(self)@.integrate(dt, gravity),
    {
        let ghost start = self@;
        let ghost goal = start.integrate(dt, gravity);
        proof {
            start.lemma_passed_none(goal.v, start.v);
            assert forall|k: int|
                0 <= k < start.cells() && start.before(k, 1, 1) implies #[trigger] goal.v[k]
                == start.v[k] by {
                start.lemma_cell(k);
            }
            start.lemma_passed_idle(self@.v, goal.v, start.v, 0, 0, 1, 1);
        }
        let mut i: usize = 1;
        while i < self.num_x - 1
            invariant
                1 <= i <= self.num_x - 1,
                self.wf(),
                start.wf(),
                goal == start.integrate(dt, gravity),
                self@ == (FluidState { v: self@.v, ..start }),
                start.passed(self@.v, goal.v, start.v, i as int, 1),
            decreases self.num_x - i,
        {
            let mut j: usize = 1;
            while j < self.num_y - 1
                invariant
                    1 <= i < self.num_x - 1,
                    1 <= j <= self.num_y - 1,
                    self.wf(),
                    start.wf(),
                    goal == start.integrate(dt, gravity),
                    self@ == (FluidState { v: self@.v, ..start }),
                    start.passed(self@.v, goal.v, start.v, i as int, j as int),
                decreases self.num_y - j,
            {
                let here = self.idx(i, j);
                let below = self.idx(i, j - 1);
                let ghost prev = self@.v;
                if self.s[here] && self.s[below] {
                    let moved = self.v[here].plus(dt.times(gravity));
                    self.v[here] = moved;
                }
                proof {
                    start.lemma_passed_next(prev, self@.v, goal.v, start.v, i as int, j as int);
                }
                j += 1;
            }
            proof {
                assert forall|k: int|
                    0 <= k < start.cells() && start.before(k, i + 1, 1) && !start.before(
                        k,
                        i as int,
                        j as int,
                    ) implies #[trigger] goal.v[k] == start.v[k] by {
                    start.lemma_cell(k);
                }
                start.lemma_passed_idle(self@.v, goal.v, start.v, i as int, j as int, i + 1, 1);
            }
            i += 1;
        }
        proof {
            assert forall|k: int|
                0 <= k < start.cells() && start.before(k, start.num_x as int, 1) && !start.before(
                    k,
                    i as int,
                    1,
                ) implies #[trigger] goal.v[k] == start.v[k] by {
                start.lemma_cell(k);
            }
            start.lemma_passed_idle(self@.v, goal.v, start.v, i as int, 1, start.num_x as int, 1);
            start.lemma_passed_all(self@.v, goal.v, start.v, start.num_x as int, 1);
        }
    }

    /// Takes the divergence out of the velocity in `num_iters` sweeps over
    /// the interior. Each cell is corrected in place, on the flows that the
    /// cells before it have left.
    pub fn solve_incompressibility(&mut self, over_relaxation: T, num_iters: u32, dt: T)
        requires
            old(self).wf(),
            T::zero().lt(dt),
        ensures
            final(self).wf(),
            final(self)@ == old(self)@.solve_incompressibility(over_relaxation, num_iters as nat, dt),
    {
        let ghost start = self@;
        let cp = self.density.times(self.h).over(dt);
        let mut iteration: u32 = 0;
        while iteration < num_iters
            invariant
                iteration <= num_iters,
                self.wf(),
                start.wf(),
                self@.num_x == start.num_x,
                self@.num_y == start.num_y,
                self@ == start.relax(cp, over_relaxation, iteration as nat),
            decreases num_iters - iteration,
        {
            self.sweep(cp, over_relaxation);
            iteration += 1;
        }
    }

    /// Corrects every interior cell once, along y first.
    fn sweep(&mut self, cp: T, over_relaxation: T)
        requires
            old(self).wf(),
        ensures
            final(self).wf(),
            final(self)@.num_x == old(self)@.num_x,
            final(self)@.num_y == old(self)@.num_y,
            final(self)@ == old(self)@.sweep(cp, over_relaxation, old(self)@.interior_cells()),
    {
        let ghost start = self@;
        let ghost width = self.num_y as int - 2;
        let mut i: usize = 1;
        while i < self.num_x - 1
            invariant
                1 <= i <= self.num_x - 1,
                self.wf(),
                start.wf(),
                width == self.num_y - 2,
                self@.num_x == start.num_x,
                self@.num_y == start.num_y,
                (i - 1) * width >= 0,
                self@ == start.sweep(cp, over_relaxation, ((i - 1) * width) as nat),
            decreases self.num_x - i,
        {
            let mut j: usize = 1;
            while j < self.num_y - 1
                invariant
                    1 <= i < self.num_x - 1,
                    1 <= j <= self.num_y - 1,
                    self.wf(),
                    start.wf(),
                    width == self.num_y - 2,
                    self@.num_x == start.num_x,
                    self@.num_y == start.num_y,
                    (i - 1) * width >= 0,
                    self@ == start.sweep(cp, over_relaxation, ((i - 1) * width + (j - 1)) as nat),
                decreases self.num_y - j,
            {
                let ghost n = (i - 1) * width + (j - 1);
                proof {
                    vstd::arithmetic::div_mod::lemma_fundamental_div_mod_converse(
                        n,
                        width,
                        i as int - 1,
                        j as int - 1,
                    );
                    assert(start.sweep(cp, over_relaxation, (n + 1) as nat) == self@.relax_cell(
                        cp,
                        over_relaxation,
                        i as int,
                        j as int,
                    ));
                }
                self.relax_cell(cp, over_relaxation, i, j);
                j += 1;
            }
            proof {
                assert((i - 1) * width + width == (i + 1 - 1) * width) by (nonlinear_arith);
            }
            i += 1;
        }
    }

    /// Corrects the interior cell `(i, j)`.
    fn relax_cell(&mut self, cp: T, over_relaxation: T, i: usize, j: usize)
        requires
            old(self).wf(),
            old(self)@.interior(i as int, j as int),
        ensures
            final(self).wf(),
            final(self)@.num_x == old(self)@.num_x,
            final(self)@.num_y == old(self)@.num_y,
            final(self)@ == old(self)@.relax_cell(cp, over_relaxation, i as int, j as int),
    {
        let here = self.idx(i, j);
        if !self.s[here] {
            return ;
        }
        let right = self.idx(i + 1, j);
        let above = self.idx(i, j + 1);
        let sx0 = self.s[self.idx(i - 1, j)];
        let sx1 = self.s[right];
        let sy0 = self.s[self.idx(i, j - 1)];
        let sy1 = self.s[above];
        let mut s: usize = 0;
        if sx0 {
            s += 1;
        }
        if sx1 {
            s += 1;
        }
        if sy0 {
            s += 1;
        }
        if sy1 {
            s += 1;
        }
        if s == 0 {
            return ;
        }
        let div = self.u[right].minus(self.u[here]).plus(self.v[above]).minus(self.v[here]);
        let c = div.neg().over(T::from_index(s)).times(over_relaxation);
        let p = self.p[here].plus(cp.times(c));
        self.p[here] = p;
        let u0 = if sx0 {
            self.u[here].minus(c)
        } else {
            self.u[here]
        };
        self.u[here] = u0;
        let u1 = if sx1 {
            self.u[right].plus(c)
        } else {
            self.u[right]
        };
        self.u[right] = u1;
        let v0 = if sy0 {
            self.v[here].minus(c)
        } else {
            self.v[here]
        };
        self.v[here] = v0;
        let v1 = if sy1 {
            self.v[above].plus(c)
        } else {
            self.v[above]
        };
        self.v[above] = v1;
    }

    /// Copies the velocities next to the border onto it: `u` along y, `v`
    /// along x.
    pub fn extrapolate(&mut self)
        requires
            old(self).wf(),
        ensures
            final(self).wf(),
            final(self)@ == old(self)@.extrapolate(),
    {
        let ghost start = self@;
        let ghost goal = start.extrapolate();
        let mut i: usize = 0;
        while i < self.num_x
            invariant
                0 <= i <= self.num_x,
                self.wf(),
                start.wf(),
                goal == start.extrapolate(),
                self@ == (FluidState { u: self@.u, ..start }),
                forall|k: int|
                    0 <= k < start.cells() ==> #[trigger] self@.u[k] == (if start.xi(k) < i {
                        goal.u[k]
                    } else {
                        start.u[k]
                    }),
            decreases self.num_x - i,
        {
            let low = self.idx(i, 0);
            let low_from = self.idx(i, 1);
            let high = self.idx(i, self.num_y - 1);
            let high_from = self.idx(i, self.num_y - 2);
            let a = self.u[low_from];
            self.u[low] = a;
            let b = self.u[high_from];
            self.u[high] = b;
            proof {
                assert forall|k: int| 0 <= k < start.cells() implies #[trigger] self@.u[k] == (
                if start.xi(k) < i + 1 {
                    goal.u[k]
                } else {
                    start.u[k]
                }) by {
                    start.lemma_cell(k);
                }
            }
            i += 1;
        }
        let ghost mid = self@;
        let mut j: usize = 0;
        while j < self.num_y
            invariant
                0 <= j <= self.num_y,
                self.wf(),
                start.wf(),
                goal == start.extrapolate(),
                self@ == (FluidState { v: self@.v, ..mid }),
                mid == (FluidState { u: mid.u, ..start }),
                forall|k: int|
                    0 <= k < start.cells() ==> #[trigger] self@.v[k] == (if start.yj(k) < j {
                        goal.v[k]
                    } else {
                        start.v[k]
                    }),
            decreases self.num_y - j,
        {
            let low = self.idx(0, j);
            let low_from = self.idx(1, j);
            let high = self.idx(self.num_x - 1, j);
            let high_from = self.idx(self.num_x - 2, j);
            let a = self.v[low_from];
            self.v[low] = a;
            let b = self.v[high_from];
            self.v[high] = b;
            proof {
                assert forall|k: int| 0 <= k < start.cells() implies #[trigger] self@.v[k] == (
                if start.yj(k) < j + 1 {
                    goal.v[k]
                } else {
                    start.v[k]
                }) by {
                    start.lemma_cell(k);
                }
            }
            j += 1;
        }
        proof {
            assert forall|k: int| 0 <= k < start.cells() implies self@.v[k] == goal.v[k] by {
                start.lemma_cell(k);
            }
            assert forall|k: int| 0 <= k < start.cells() implies self@.u[k] == goal.u[k] by {
                start.lemma_cell(k);
            }
            assert(self@.v =~= goal.v);
            assert(self@.u =~= goal.u);
        }
    }

    /// Lets the flow carry the velocity along for the time `dt`: the new
    /// velocity of every face between two fluid cells is the old velocity at
    /// the point from which the flow reaches the face. The new values are
    /// gathered apart and replace the old ones at the end.
    pub fn advect_velocity(&mut self, dt: T)
        requires
            old(self).wf(),
        ensures
            final(self).wf(),
            final(self)@ == old(self)@.advect_velocity(dt),
    {
        let ghost start = self@;
        let ghost goal = start.advect_velocity(dt);
        copy_into(&mut self.new_u, &self.u);
        copy_into(&mut self.new_v, &self.v);
        let h = self.h;
        let h2 = self.half_cell();
        proof {
            start.lemma_passed_none(goal.u, start.u);
            start.lemma_passed_none(goal.v, start.v);
            assert forall|k: int|
                0 <= k < start.cells() && start.before(k, 1, 1) implies #[trigger] goal.u[k]
                == start.u[k] by {
                start.lemma_cell(k);
            }
            assert forall|k: int|
                0 <= k < start.cells() && start.before(k, 1, 1) implies #[trigger] goal.v[k]
                == start.v[k] by {
                start.lemma_cell(k);
            }
            start.lemma_passed_idle(self.new_u@, goal.u, start.u, 0, 0, 1, 1);
            start.lemma_passed_idle(self.new_v@, goal.v, start.v, 0, 0, 1, 1);
        }
        let mut i: usize = 1;
        while i < self.num_x
            invariant
                1 <= i <= self.num_x,
                self.wf(),
                self@ == (FluidState { new_u: self@.new_u, new_v: self@.new_v, ..start }),
                goal == start.advect_velocity(dt),
                h == start.h,
                h2 == half::<T>().times(start.h),
                start.passed(self.new_u@, goal.u, start.u, i as int, 1),
                start.passed(self.new_v@, goal.v, start.v, i as int, 1),
            decreases self.num_x - i,
        {
            let mut j: usize = 1;
            while j < self.num_y
                invariant
                    1 <= i < self.num_x,
                    1 <= j <= self.num_y,
                    self.wf(),
                    self@ == (FluidState { new_u: self@.new_u, new_v: self@.new_v, ..start }),
                    goal == start.advect_velocity(dt),
                    h == start.h,
                    h2 == half::<T>().times(start.h),
                    start.passed(self.new_u@, goal.u, start.u, i as int, j as int),
                    start.passed(self.new_v@, goal.v, start.v, i as int, j as int),
                decreases self.num_y - j,
            {
                let here = self.idx(i, j);
                let fluid_here = self.s[here];
                let ghost prev_u = self.new_u@;
                let ghost prev_v = self.new_v@;
                if fluid_here && self.s[self.idx(i - 1, j)] && j < self.num_y - 1 {
                    let x = T::from_index(i).times(h);
                    let y = T::from_index(j).times(h).plus(h2);
                    let u = self.u[here];
                    let v = self.avg_v(i, j);
                    let x = x.minus(dt.times(u));
                    let y = y.minus(dt.times(v));
                    let u = self.sample_field(x, y, Field::U);
                    self.new_u[here] = u;
                }
                if fluid_here && self.s[self.idx(i, j - 1)] && i < self.num_x - 1 {
                    let x = T::from_index(i).times(h).plus(h2);
                    let y = T::from_index(j).times(h);
                    let u = self.avg_u(i, j);
                    let v = self.v[here];
                    let x = x.minus(dt.times(u));
                    let y = y.minus(dt.times(v));
                    let v = self.sample_field(x, y, Field::V);
                    self.new_v[here] = v;
                }
                proof {
                    start.lemma_passed_next(prev_u, self.new_u@, goal.u, start.u, i as int, j as int);
                    start.lemma_passed_next(prev_v, self.new_v@, goal.v, start.v, i as int, j as int);
                }
                j += 1;
            }
            proof {
                assert forall|k: int|
                    0 <= k < start.cells() && start.before(k, i + 1, 1) && !start.before(
                        k,
                        i as int,
                        j as int,
                    ) implies #[trigger] goal.u[k] == start.u[k] by {
                    start.lemma_cell(k);
                }
                assert forall|k: int|
                    0 <= k < start.cells() && start.before(k, i + 1, 1) && !start.before(
                        k,
                        i as int,
                        j as int,
                    ) implies #[trigger] goal.v[k] == start.v[k] by {
                    start.lemma_cell(k);
                }
                start.lemma_passed_idle(self.new_u@, goal.u, start.u, i as int, j as int, i + 1, 1);
                start.lemma_passed_idle(self.new_v@, goal.v, start.v, i as int, j as int, i + 1, 1);
            }
            i += 1;
        }
        proof {
            start.lemma_passed_all(self.new_u@, goal.u, start.u, i as int, 1);
            start.lemma_passed_all(self.new_v@, goal.v, start.v, i as int, 1);
        }
        std::mem::swap(&mut self.u, &mut self.new_u);
        std::mem::swap(&mut self.v, &mut self.new_v);
    }

    /// Lets the flow carry the smoke along for the time `dt`: the new smoke
    /// of every interior fluid cell is the old smoke at the point from which
    /// the flow reaches the center of the cell.
    pub fn advect_smoke(&mut self, dt: T)
        requires
            old(self).wf(),
        ensures
            final(self).wf(),
            final(self)@ == old(self)@.advect_smoke(dt),
    {
        let ghost start = self@;
        let ghost goal = start.advect_smoke(dt);
        copy_into(&mut self.new_m, &self.m);
        let h = self.h;
        let h2 = self.half_cell();
        let one_half = T::one().over(T::from_index(2));
        proof {
            start.lemma_passed_none(goal.m, start.m);
            assert forall|k: int|
                0 <= k < start.cells() && start.before(k, 1, 1) implies #[trigger] goal.m[k]
                == start.m[k] by {
                start.lemma_cell(k);
            }
            start.lemma_passed_idle(self.new_m@, goal.m, start.m, 0, 0, 1, 1);
        }
        let mut i: usize = 1;
        while i < self.num_x - 1
            invariant
                1 <= i <= self.num_x - 1,
                self.wf(),
                self@ == (FluidState { new_m: self@.new_m, ..start }),
                goal == start.advect_smoke(dt),
                h == start.h,
                h2 == half::<T>().times(start.h),
                one_half == half::<T>(),
                start.passed(self.new_m@, goal.m, start.m, i as int, 1),
            decreases self.num_x - i,
        {
            let mut j: usize = 1;
            while j < self.num_y - 1
                invariant
                    1 <= i < self.num_x - 1,
                    1 <= j <= self.num_y - 1,
                    self.wf(),
                    self@ == (FluidState { new_m: self@.new_m, ..start }),
                    goal == start.advect_smoke(dt),
                    h == start.h,
                    h2 == half::<T>().times(start.h),
                    one_half == half::<T>(),
                    start.passed(self.new_m@, goal.m, start.m, i as int, j as int),
                decreases self.num_y - j,
            {
                let here = self.idx(i, j);
                let ghost prev = self.new_m@;
                if self.s[here] {
                    let u = self.u[here].plus(self.u[self.idx(i + 1, j)]).times(one_half);
                    let v = self.v[here].plus(self.v[self.idx(i, j + 1)]).times(one_half);
                    let x = T::from_index(i).times(h).plus(h2).minus(dt.times(u));
                    let y = T::from_index(j).times(h).plus(h2).minus(dt.times(v));
                    let m = self.sample_field(x, y, Field::S);
                    self.new_m[here] = m;
                }
                proof {
                    start.lemma_passed_next(prev, self.new_m@, goal.m, start.m, i as int, j as int);
                }
                j += 1;
            }
            proof {
                assert forall|k: int|
                    0 <= k < start.cells() && start.before(k, i + 1, 1) && !start.before(
                        k,
                        i as int,
                        j as int,
                    ) implies #[trigger] goal.m[k] == start.m[k] by {
                    start.lemma_cell(k);
                }
                start.lemma_passed_idle(self.new_m@, goal.m, start.m, i as int, j as int, i + 1, 1);
            }
            i += 1;
        }
        proof {
            assert forall|k: int|
                0 <= k < start.cells() && start.before(k, start.num_x as int, 1) && !start.before(
                    k,
                    i as int,
                    1,
                ) implies #[trigger] goal.m[k] == start.m[k] by {
                start.lemma_cell(k);
            }
            start.lemma_passed_idle(self.new_m@, goal.m, start.m, i as int, 1, start.num_x as int, 1);
            start.lemma_passed_all(self.new_m@, goal.m, start.m, start.num_x as int, 1);
        }
        std::mem::swap(&mut self.m, &mut self.new_m);
    }

    /// Takes the fluid one time step `dt` further: gravity, projection from
    /// zero pressure in `num_iters` sweeps, extrapolation, advection of the
    /// velocity, advection of the smoke.
    pub fn simulate(&mut self, dt: T, num_iters: u32, over_relaxation: T)
        requires
            old(self).wf(),
            T::zero().lt(dt),
        ensures
            final(self).wf(),
            final(self)@ == old(self)@.simulate(dt, num_iters as nat, over_relaxation),
    {
        self.integrate(dt, self.gravity);
        fill(&mut self.p, T::zero());
        self.solve_incompressibility(over_relaxation, num_iters, dt);
        self.extrapolate();
        self.advect_velocity(dt);
        self.advect_smoke(dt);
    }
}

} // verus!
