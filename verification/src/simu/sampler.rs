//! Reading the fields between their grid points.

use crate::scalar::{half, quarter, Scalar};
use crate::simu::state::FluidState;
use crate::simu::{Field, Fluid};
use vstd::prelude::*;

verus! {

impl<T: Scalar> FluidState<T> {
    /// The values of `field`.
    pub open spec fn values(self, field: Field) -> Seq<T> {
        match field {
            Field::U => self.u,
            Field::V => self.v,
            Field::S => self.m,
        }
    }

    /// How far the grid points of `field` stand from the cell corners, along
    /// x and along y: half a cell along the axes on which the field lives at
    /// the middle of a cell.
    pub open spec fn offsets(self, field: Field) -> (T, T) {
        let h2 = half::<T>().times(self.h);
        match field {
            Field::U => (T::zero(), h2),
            Field::V => (h2, T::zero()),
            Field::S => (h2, h2),
        }
    }

    /// The coordinate `x` moved into the span from `h` to `n * h`.
    pub open spec fn clamped(self, x: T, n: nat) -> T {
        x.min(T::from_index(n as usize).times(self.h)).max(self.h)
    }

    /// The index of the last grid point at or below the coordinate `t`,
    /// measured from the first grid point, and at most `n - 1`.
    pub open spec fn lower(self, t: T, n: nat) -> int {
        let i = t.times(T::one().over(self.h)).floor_index();
        if i < n - 1 {
            i as int
        } else {
            n - 1
        }
    }

    /// The grid point after `i0`, and at most `n - 1`.
    pub open spec fn upper(i0: int, n: nat) -> int {
        if i0 + 1 < n - 1 {
            i0 + 1
        } else {
            n - 1
        }
    }

    /// How far the coordinate `t` lies beyond grid point `i0`, in cells.
    pub open spec fn weight(self, t: T, i0: int) -> T {
        t.minus(T::from_index(i0 as usize).times(self.h)).times(T::one().over(self.h))
    }

    /// The value of `field` at the point `(x, y)`, blended from the four grid
    /// points of the field that surround it. A point outside the span from
    /// `h` to `num_x * h`, or to `num_y * h`, is moved to the span's end
    /// first.
    pub open spec fn sample(self, x: T, y: T, field: Field) -> T {
        let f = self.values(field);
        let (dx, dy) = self.offsets(field);
        let x = self.clamped(x, self.num_x).minus(dx);
        let y = self.clamped(y, self.num_y).minus(dy);
        let i0 = self.lower(x, self.num_x);
        let i1 = Self::upper(i0, self.num_x);
        let j0 = self.lower(y, self.num_y);
        let j1 = Self::upper(j0, self.num_y);
        let tx = self.weight(x, i0);
        let ty = self.weight(y, j0);
        let sx = T::one().minus(tx);
        let sy = T::one().minus(ty);
        sx.times(sy).times(f[self.at(i0, j0)]).plus(tx.times(sy).times(f[self.at(i1, j0)])).plus(
            tx.times(ty).times(f[self.at(i1, j1)]),
        ).plus(sx.times(ty).times(f[self.at(i0, j1)]))
    }

    /// The mean of the four values of `u` around the face on which
    /// `v` of cell `(i, j)` lives.
    pub open spec fn avg_u(self, i: int, j: int) -> T {
        self.u[self.at(i, j - 1)].plus(self.u[self.at(i, j)]).plus(self.u[self.at(i + 1, j - 1)]).plus(
            self.u[self.at(i + 1, j)],
        ).times(quarter::<T>())
    }

    /// The mean of the four values of `v` around the face on which
    /// `u` of cell `(i, j)` lives.
    pub open spec fn avg_v(self, i: int, j: int) -> T {
        self.v[self.at(i - 1, j)].plus(self.v[self.at(i, j)]).plus(self.v[self.at(i - 1, j + 1)]).plus(
            self.v[self.at(i, j + 1)],
        ).times(quarter::<T>())
    }
}

impl<T: Scalar> Fluid<T> {
    /// The value of `field` at the point `(x, y)`.
    pub fn sample_field(&self, x: T, y: T, field: Field) -> (r: T)
        requires
            self.wf(),
        ensures
            r == self@.sample(x, y, field),
    {
        let h = self.h;
        let h1 = T::one().over(h);
        let h2 = self.half_cell();
        let x = x.min(T::from_index(self.num_x).times(h)).max(h);
        let y = y.min(T::from_index(self.num_y).times(h)).max(h);
        let (dx, dy) = match field {
            Field::U => (T::zero(), h2),
            Field::V => (h2, T::zero()),
            Field::S => (h2, h2),
        };
        let x = x.minus(dx);
        let y = y.minus(dy);
        let i0 = self.lower_index(x, self.num_x);
        let tx = x.minus(T::from_index(i0).times(h)).times(h1);
        let i1 = if i0 + 1 < self.num_x - 1 {
            i0 + 1
        } else {
            self.num_x - 1
        };
        let j0 = self.lower_index(y, self.num_y);
        let ty = y.minus(T::from_index(j0).times(h)).times(h1);
        let j1 = if j0 + 1 < self.num_y - 1 {
            j0 + 1
        } else {
            self.num_y - 1
        };
        let sx = T::one().minus(tx);
        let sy = T::one().minus(ty);
        let k00 = self.idx(i0, j0);
        let k10 = self.idx(i1, j0);
        let k11 = self.idx(i1, j1);
        let k01 = self.idx(i0, j1);
        match field {
            Field::U => sx.times(sy).times(self.u[k00]).plus(tx.times(sy).times(self.u[k10])).plus(
                tx.times(ty).times(self.u[k11]),
            ).plus(sx.times(ty).times(self.u[k01])),
            Field::V => sx.times(sy).times(self.v[k00]).plus(tx.times(sy).times(self.v[k10])).plus(
                tx.times(ty).times(self.v[k11]),
            ).plus(sx.times(ty).times(self.v[k01])),
            Field::S => sx.times(sy).times(self.m[k00]).plus(tx.times(sy).times(self.m[k10])).plus(
                tx.times(ty).times(self.m[k11]),
            ).plus(sx.times(ty).times(self.m[k01])),
        }
    }

    /// The index of the last grid point at or below the coordinate `t`, at
    /// most `n - 1`.
    fn lower_index(&self, t: T, n: usize) -> (i: usize)
        requires
            n >= 1,
        ensures
            i == self@.lower(t, n as nat),
            i <= n - 1,
    {
        let i = t.times(T::one().over(self.h)).floor_index();
        if i < n - 1 {
            i
        } else {
            n - 1
        }
    }

    /// The mean of the four values of `u` around the face on which `v` of
    /// cell `(i, j)` lives.
    pub fn avg_u(&self, i: usize, j: usize) -> (r: T)
        requires
            self.wf(),
            i + 1 < self@.num_x,
            1 <= j < self@.num_y,
        ensures
            r == self@.avg_u(i as int, j as int),
    {
        let quarter = T::one().over(T::from_index(4));
        let a = self.u[self.idx(i, j - 1)];
        let b = self.u[self.idx(i, j)];
        let c = self.u[self.idx(i + 1, j - 1)];
        let d = self.u[self.idx(i + 1, j)];
        a.plus(b).plus(c).plus(d).times(quarter)
    }

    /// The mean of the four values of `v` around the face on which `u` of
    /// cell `(i, j)` lives.
    pub fn avg_v(&self, i: usize, j: usize) -> (r: T)
        requires
            self.wf(),
            1 <= i < self@.num_x,
            j + 1 < self@.num_y,
        ensures
            r == self@.avg_v(i as int, j as int),
    {
        let quarter = T::one().over(T::from_index(4));
        let a = self.v[self.idx(i - 1, j)];
        let b = self.v[self.idx(i, j)];
        let c = self.v[self.idx(i - 1, j + 1)];
        let d = self.v[self.idx(i, j + 1)];
        a.plus(b).plus(c).plus(d).times(quarter)
    }
}

} // verus!
