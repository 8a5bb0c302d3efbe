//! The fluid: its buffers, its geometry and the way to create one.

use crate::scalar::{half, Scalar};
use crate::simu::state::FluidState;
use vstd::prelude::*;

pub mod configure;
pub mod laws;
pub mod obstacle;
pub mod sampler;
pub mod state;
pub mod step;

verus! {

/// A fluid on a staggered grid.
///
/// The velocity along x lives on the faces between cells that are neighbours
/// along x, the velocity along y on the faces between neighbours along y;
/// pressure, mask and smoke live at cell centers.
pub struct Fluid<T> {
    gravity: T,
    density: T,
    num_x: usize,
    num_y: usize,
    h: T,
    u: Vec<T>,
    v: Vec<T>,
    new_u: Vec<T>,
    new_v: Vec<T>,
    p: Vec<T>,
    s: Vec<bool>,
    m: Vec<T>,
    new_m: Vec<T>,
}

/// The field that a sample is taken from.
#[derive(Clone, Copy, Debug, PartialEq, Eq, Structural)]
pub enum Field {
    /// Velocity along x.
    U,
    /// Velocity along y.
    V,
    /// Smoke density.
    S,
}

/// The sequence of `n` times `x`.
pub open spec fn constant<A>(n: nat, x: A) -> Seq<A> {
    Seq::new(n, |k: int| x)
}

/// A vector of `n` times `x`.
fn filled<A: Copy>(n: usize, x: A) -> (r: Vec<A>)
    ensures
        r@ == constant(n as nat, x),
{
    let mut r: Vec<A> = Vec::with_capacity(n);
    let mut k: usize = 0;
    while k < n
        invariant
            k <= n,
            r@ == constant(k as nat, x),
        decreases n - k,
    {
        r.push(x);
        k += 1;
        assert(r@ =~= constant(k as nat, x));
    }
    r
}

/// Sets every value of `buffer` to `x`.
fn fill<A: Copy>(buffer: &mut Vec<A>, x: A)
    ensures
        final(buffer)@ == constant(old(buffer)@.len(), x),
{
    let n = buffer.len();
    let mut k: usize = 0;
    while k < n
        invariant
            k <= n,
            buffer@.len() == n,
            forall|l: int| 0 <= l < k ==> buffer@[l] == x,
        decreases n - k,
    {
        buffer[k] = x;
        k += 1;
    }
    assert(buffer@ =~= constant(n as nat, x));
}

/// Makes `target` hold the values of `source`.
fn copy_into<A: Copy>(target: &mut Vec<A>, source: &Vec<A>)
    requires
        old(target)@.len() == source@.len(),
    ensures
        final(target)@ == source@,
{
    let n = source.len();
    let mut k: usize = 0;
    while k < n
        invariant
            k <= n,
            source@.len() == n,
            target@.len() == n,
            forall|l: int| 0 <= l < k ==> target@[l] == source@[l],
        decreases n - k,
    {
        target[k] = source[k];
        k += 1;
    }
    assert(target@ =~= source@);
}

impl<T> View for Fluid<T> {
    type V = FluidState<T>;

    closed spec fn view(&self) -> FluidState<T> {
        FluidState {
            num_x: self.num_x as nat,
            num_y: self.num_y as nat,
            gravity: self.gravity,
            density: self.density,
            h: self.h,
            u: self.u@,
            v: self.v@,
            p: self.p@,
            s: self.s@,
            m: self.m@,
            new_u: self.new_u@,
            new_v: self.new_v@,
            new_m: self.new_m@,
        }
    }
}

impl<T: Scalar> Fluid<T> {
    /// Every buffer has one value per cell of a grid with an interior.
    pub open spec fn wf(&self) -> bool {
        self@.wf()
    }

    /// A fluid at rest on a grid of `num_x` by `num_y` cells inside a border
    /// one cell wide: no velocity, no pressure, smoke everywhere, every cell
    /// solid until a scenario is set up, and zero in the room for the next
    /// step.
    pub fn create(gravity: T, num_x: usize, num_y: usize, h: T, density: T) -> (fluid: Fluid<T>)
        requires
            num_x >= 1,
            num_y >= 1,
            (num_x + 2) * (num_y + 2) <= usize::MAX,
        ensures
            fluid.wf(),
            fluid@ == (FluidState {
                num_x: (num_x + 2) as nat,
                num_y: (num_y + 2) as nat,
                gravity,
                density,
                h,
                u: constant(((num_x + 2) * (num_y + 2)) as nat, T::zero()),
                v: constant(((num_x + 2) * (num_y + 2)) as nat, T::zero()),
                p: constant(((num_x + 2) * (num_y + 2)) as nat, T::zero()),
                s: constant(((num_x + 2) * (num_y + 2)) as nat, false),
                m: constant(((num_x + 2) * (num_y + 2)) as nat, T::one()),
                new_u: constant(((num_x + 2) * (num_y + 2)) as nat, T::zero()),
                new_v: constant(((num_x + 2) * (num_y + 2)) as nat, T::zero()),
                new_m: constant(((num_x + 2) * (num_y + 2)) as nat, T::zero()),
            }),
    {
        assert(num_x + 2 <= (num_x + 2) * (num_y + 2) && num_y + 2 <= (num_x + 2) * (num_y + 2))
            by (nonlinear_arith)
            requires
                num_x >= 1,
                num_y >= 1,
        ;
        let num_x = num_x + 2;
        let num_y = num_y + 2;
        let num_cells = num_x * num_y;
        let u = filled(num_cells, T::zero());
        let v = filled(num_cells, T::zero());
        let new_u = filled(num_cells, T::zero());
        let new_v = filled(num_cells, T::zero());
        let p = filled(num_cells, T::zero());
        let s = filled(num_cells, false);
        let m = filled(num_cells, T::one());
        let new_m = filled(num_cells, T::zero());
        Fluid { gravity, density, num_x, num_y, h, u, v, new_u, new_v, p, s, m, new_m }
    }

    /// The pressure of every cell, as the last step left it.
    pub fn pressure(&self) -> (p: Vec<T>)
        ensures
            p@ == self@.p,
    {
        let mut p: Vec<T> = Vec::with_capacity(self.p.len());
        let mut k: usize = 0;
        while k < self.p.len()
            invariant
                k <= self.p.len(),
                p@ == self.p@.take(k as int),
            decreases self.p.len() - k,
        {
            p.push(self.p[k]);
            k += 1;
            assert(p@ =~= self.p@.take(k as int));
        }
        assert(p@ =~= self.p@);
        p
    }

    /// Cells along x, border included.
    pub fn num_x(&self) -> (n: usize)
        ensures
            n == self@.num_x,
    {
        self.num_x
    }

    /// Cells along y, border included.
    pub fn num_y(&self) -> (n: usize)
        ensures
            n == self@.num_y,
    {
        self.num_y
    }

    /// Side of a cell.
    pub fn cell_size(&self) -> (h: T)
        ensures
            h == self@.h,
    {
        self.h
    }

    /// Acceleration along y.
    pub fn gravity(&self) -> (g: T)
        ensures
            g == self@.gravity,
    {
        self.gravity
    }

    /// Velocity along x on the low face of cell `(i, j)`.
    pub fn u(&self, i: usize, j: usize) -> (u: T)
        requires
            self.wf(),
            self@.on_grid(i as int, j as int),
        ensures
            u == self@.u[self@.at(i as int, j as int)],
    {
        self.u[self.idx(i, j)]
    }

    /// Velocity along y on the low face of cell `(i, j)`.
    pub fn v(&self, i: usize, j: usize) -> (v: T)
        requires
            self.wf(),
            self@.on_grid(i as int, j as int),
        ensures
            v == self@.v[self@.at(i as int, j as int)],
    {
        self.v[self.idx(i, j)]
    }

    /// Smoke density of cell `(i, j)`.
    pub fn smoke(&self, i: usize, j: usize) -> (m: T)
        requires
            self.wf(),
            self@.on_grid(i as int, j as int),
        ensures
            m == self@.m[self@.at(i as int, j as int)],
    {
        self.m[self.idx(i, j)]
    }

    /// The mask of cell `(i, j)`: 1 for fluid, 0 for solid.
    pub fn mask(&self, i: usize, j: usize) -> (s: u8)
        requires
            self.wf(),
            self@.on_grid(i as int, j as int),
        ensures
            s == self@.mask(i as int, j as int),
    {
        if self.s[self.idx(i, j)] {
            1
        } else {
            0
        }
    }

    /// One half times the side of a cell.
    fn half_cell(&self) -> (r: T)
        ensures
            r == half::<T>().times(self@.h),
    {
        T::one().over(T::from_index(2)).times(self.h)
    }

    /// Offset of cell `(i, j)` in every buffer.
    fn idx(&self, i: usize, j: usize) -> (k: usize)
        requires
            self.wf(),
            i < self@.num_x,
            j < self@.num_y,
        ensures
            k == self@.at(i as int, j as int),
            k < self@.cells(),
            self@.xi(k as int) == i,
            self@.yj(k as int) == j,
    {
        proof {
            self@.lemma_at(i as int, j as int);
            assert(0 <= i * self.num_y) by (nonlinear_arith)
                requires
                    0 <= i,
                    0 <= self.num_y,
            ;
            assert(self@.cells() == self.u.len());
            assert(self@.at(i as int, j as int) == i * self.num_y + j);
        }
        i * self.num_y + j
    }
}

} // verus!
