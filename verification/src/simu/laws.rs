//! What holds of the solver whatever the numbers are, and what holds of it in
//! fixed-point numbers.

use crate::fixed::{magnitude, truncated, Fixed, SCALE, WHOLE_MAX};
use crate::scalar::{half, Scalar};
use crate::simu::obstacle::{in_circle, CircularObstacle, Obstacle, ObstacleType};
use crate::simu::state::FluidState;
use crate::simu::Field;
use vstd::prelude::*;

verus! {

/// Containment. After an obstacle has been stamped, an interior cell has
/// mask 0 if its center lies inside the obstacle and mask 1 if not.
pub proof fn lemma_stamped_mask<T: Scalar, O: Obstacle<T>>(
    st: FluidState<T>,
    obstacle: O,
    i: int,
    j: int,
)
    requires
        st.wf(),
        st.interior(i, j),
    ensures
        st.add_obstacle(obstacle).mask(i, j) == (if obstacle.is_inside(st.center(i), st.center(j)) {
            0int
        } else {
            1int
        }),
{
    st.lemma_at(i, j);
}

/// Containment for a disc. After the disc of radius `r` around `(x, y)` has
/// been stamped, an interior cell whose center lies less than `r` from
/// `(x, y)` has mask 0.
pub proof fn lemma_disc_is_solid<T: Scalar>(st: FluidState<T>, x: T, y: T, r: T, i: int, j: int)
    requires
        st.wf(),
        st.interior(i, j),
        in_circle(x, y, r, st.center(i), st.center(j)),
    ensures
        st.add_obstacle(CircularObstacle { x, y, r }).mask(i, j) == 0,
{
    lemma_stamped_mask(st, CircularObstacle { x, y, r }, i, j);
}

/// Containment for several shapes, stamped alone or as part of the pipe
/// scenario. An interior cell whose center lies inside one of the shapes has
/// mask 0; one whose center lies outside all of them has mask 1.
pub proof fn lemma_containment<T: Scalar>(
    st: FluidState<T>,
    inflow_velocity: T,
    obstacles: Vec<ObstacleType<T>>,
    i: int,
    j: int,
)
    requires
        st.wf(),
        st.interior(i, j),
    ensures
        (exists|n: int|
            0 <= n < obstacles@.len() && (#[trigger] obstacles@[n]).is_inside(
                st.center(i),
                st.center(j),
            )) ==> st.add_obstacle(obstacles).mask(i, j) == 0 && st.vortex_shedding(
            inflow_velocity,
            obstacles,
        ).mask(i, j) == 0,
        (forall|n: int|
            0 <= n < obstacles@.len() ==> !(#[trigger] obstacles@[n]).is_inside(
                st.center(i),
                st.center(j),
            )) ==> st.add_obstacle(obstacles).mask(i, j) == 1 && st.vortex_shedding(
            inflow_velocity,
            obstacles,
        ).mask(i, j) == 1,
{
    lemma_stamped_mask(st, obstacles, i, j);
    lemma_stamped_mask(st.pipe(inflow_velocity), obstacles, i, j);
}

/// Stamping never touches the mask of the border: a cell of the border is
/// fluid after the stamping if and only if it was before.
pub proof fn lemma_stamp_keeps_border<T: Scalar, O: Obstacle<T>>(
    st: FluidState<T>,
    obstacle: O,
    i: int,
    j: int,
)
    requires
        st.wf(),
        st.on_grid(i, j),
        !st.interior(i, j),
    ensures
        st.add_obstacle(obstacle).fluid(i, j) == st.fluid(i, j),
{
    st.lemma_at(i, j);
}

/// Stamping the same obstacle a second time changes nothing.
pub proof fn lemma_stamp_twice<T: Scalar, O: Obstacle<T>>(st: FluidState<T>, obstacle: O)
    requires
        st.wf(),
    ensures
        st.add_obstacle(obstacle).add_obstacle(obstacle) == st.add_obstacle(obstacle),
{
    let once = st.add_obstacle(obstacle);
    let twice = once.add_obstacle(obstacle);
    assert forall|a: int, b: int| once.solid_at(obstacle, a, b) == st.solid_at(obstacle, a, b) by {}
    assert(twice.s =~= once.s);
    assert(twice.m =~= once.m);
    assert(twice.u =~= once.u);
    assert(twice.v =~= once.v);
}

/// Gravity leaves the border alone: it changes `v` of no cell of a border
/// row or column.
pub proof fn lemma_gravity_keeps_border<T: Scalar>(
    st: FluidState<T>,
    dt: T,
    gravity: T,
    i: int,
    j: int,
)
    requires
        st.wf(),
        st.on_grid(i, j),
        !st.interior(i, j),
    ensures
        st.integrate(dt, gravity).v[st.at(i, j)] == st.v[st.at(i, j)],
{
    st.lemma_at(i, j);
}

/// Extrapolation leaves no gradient across the border. After it, `u` at
/// `j = 0` equals `u` at `j = 1` for every `i`, and so at the far end; `v`
/// at `i = 0` equals `v` at `i = 1` for every `j`, and so at the far end.
pub proof fn lemma_extrapolated_border<T: Scalar>(st: FluidState<T>, i: int, j: int)
    requires
        st.wf(),
        st.on_grid(i, j),
    ensures
        ({
            let e = st.extrapolate();
            &&& e.u[e.at(i, 0)] == e.u[e.at(i, 1)]
            &&& e.u[e.at(i, e.num_y - 1)] == e.u[e.at(i, e.num_y - 2)]
            &&& e.v[e.at(0, j)] == e.v[e.at(1, j)]
            &&& e.v[e.at(e.num_x - 1, j)] == e.v[e.at(e.num_x - 2, j)]
        }),
{
    st.lemma_at(i, 0);
    st.lemma_at(i, 1);
    st.lemma_at(i, st.num_y - 1);
    st.lemma_at(i, st.num_y - 2);
    st.lemma_at(0, j);
    st.lemma_at(1, j);
    st.lemma_at(st.num_x - 1, j);
    st.lemma_at(st.num_x - 2, j);
}

/// Whether every interior cell is solid or has four solid neighbours.
pub open spec fn isolated<T>(st: FluidState<T>) -> bool {
    forall|i: int, j: int| #[trigger]
        st.interior(i, j) && st.fluid(i, j) ==> !st.fluid(i - 1, j) && !st.fluid(i + 1, j)
            && !st.fluid(i, j - 1) && !st.fluid(i, j + 1)
}

/// Whether nothing flows.
pub open spec fn still<T: Scalar>(st: FluidState<T>) -> bool {
    &&& forall|k: int| 0 <= k < st.u.len() ==> #[trigger] st.u[k] == T::zero()
    &&& forall|k: int| 0 <= k < st.v.len() ==> #[trigger] st.v[k] == T::zero()
}

/// Whether the fluid is at rest with nothing to move it: no velocity, no
/// gravity, and every interior cell solid or enclosed by solid cells.
pub open spec fn quiescent<T: Scalar>(st: FluidState<T>) -> bool {
    still(st) && st.gravity == T::zero() && isolated(st)
}

/// Two states on the same grid with the same mask are isolated together.
proof fn lemma_isolated_same_mask<T>(a: FluidState<T>, b: FluidState<T>)
    requires
        isolated(a),
        a.num_x == b.num_x,
        a.num_y == b.num_y,
        a.s == b.s,
    ensures
        isolated(b),
{
    assert forall|i: int, j: int| #[trigger] b.interior(i, j) && b.fluid(i, j) implies !b.fluid(
        i - 1,
        j,
    ) && !b.fluid(i + 1, j) && !b.fluid(i, j - 1) && !b.fluid(i, j + 1) by {
        assert(a.interior(i, j));
    }
}

/// Where the interior fluid cells are isolated, neither gravity nor the flow
/// moves a face, and the projection corrects no cell.
proof fn lemma_isolated_faces<T: Scalar>(st: FluidState<T>, i: int, j: int)
    requires
        st.wf(),
        isolated(st),
    ensures
        !st.gravity_face(i, j),
        !st.u_face(i, j),
        !st.v_face(i, j),
        !st.relaxed(i, j),
{
    if 1 <= i < st.num_x && 1 <= j < st.num_y - 1 {
        if i == st.num_x - 1 {
            assert(st.interior(i - 1, j));
        } else {
            assert(st.interior(i, j));
        }
    }
    if 1 <= i < st.num_x - 1 && 1 <= j < st.num_y {
        if j == st.num_y - 1 {
            assert(st.interior(i, j - 1));
        } else {
            assert(st.interior(i, j));
        }
    }
}

/// Where the interior fluid cells are isolated, a sweep changes nothing.
proof fn lemma_isolated_sweep<T: Scalar>(st: FluidState<T>, cp: T, over_relaxation: T, n: nat)
    requires
        st.wf(),
        isolated(st),
    ensures
        st.sweep(cp, over_relaxation, n) == st,
    decreases n,
{
    if n > 0 {
        lemma_isolated_sweep(st, cp, over_relaxation, (n - 1) as nat);
        lemma_isolated_faces(st, 1 + (n - 1) / (st.num_y - 2), 1 + (n - 1) % (st.num_y - 2));
    }
}

/// Where the interior fluid cells are isolated, the projection changes
/// nothing.
proof fn lemma_isolated_relax<T: Scalar>(
    st: FluidState<T>,
    cp: T,
    over_relaxation: T,
    iterations: nat,
)
    requires
        st.wf(),
        isolated(st),
    ensures
        st.relax(cp, over_relaxation, iterations) == st,
    decreases iterations,
{
    if iterations > 0 {
        lemma_isolated_relax(st, cp, over_relaxation, (iterations - 1) as nat);
        lemma_isolated_sweep(st, cp, over_relaxation, st.interior_cells());
    }
}

/// A step on a still fluid whose interior fluid cells are isolated clears
/// the pressure and leaves velocity, mask and geometry as they are.
proof fn lemma_still_step<T: Scalar>(
    st: FluidState<T>,
    dt: T,
    iterations: nat,
    over_relaxation: T,
)
    requires
        st.wf(),
        still(st),
        isolated(st),
    ensures
        ({
            let next = st.simulate(dt, iterations, over_relaxation);
            &&& next.wf()
            &&& next.num_x == st.num_x
            &&& next.num_y == st.num_y
            &&& next.s == st.s
            &&& next.u == st.u
            &&& next.v == st.v
            &&& next.p == st.clear_pressure().p
        }),
{
    let a = st.integrate(dt, st.gravity);
    assert(a.v =~= st.v) by {
        assert forall|k: int| 0 <= k < st.v.len() implies a.v[k] == st.v[k] by {
            lemma_isolated_faces(st, st.xi(k), st.yj(k));
        }
    }
    assert(a == st);
    let b = a.clear_pressure();
    lemma_isolated_same_mask(st, b);
    lemma_isolated_relax(b, b.density.times(b.h).over(dt), over_relaxation, iterations);
    let c = b.solve_incompressibility(over_relaxation, iterations, dt);
    assert(c == b);
    let d = c.extrapolate();
    assert(d.u =~= c.u && d.v =~= c.v) by {
        assert forall|k: int| 0 <= k < st.cells() implies d.u[k] == c.u[k] && d.v[k] == c.v[k] by {
            st.lemma_cell(k);
            st.lemma_at(st.xi(k), 1);
            st.lemma_at(st.xi(k), st.num_y - 2);
            st.lemma_at(1, st.yj(k));
            st.lemma_at(st.num_x - 2, st.yj(k));
        }
    }
    assert(d == c);
    let e = d.advect_velocity(dt);
    assert(e.u =~= d.u && e.v =~= d.v) by {
        assert forall|k: int| 0 <= k < st.cells() implies e.u[k] == d.u[k] && e.v[k] == d.v[k] by {
            lemma_isolated_faces(b, b.xi(k), b.yj(k));
        }
    }
}

/// Fixed point. On a fluid at rest (no velocity, no gravity, every interior
/// cell solid or enclosed by solid cells) a step leaves the velocity as it
/// is, and a second step with the same parameters leaves pressure and
/// velocity as the first one left them.
pub proof fn lemma_quiescent_fixed_point<T: Scalar>(
    st: FluidState<T>,
    dt: T,
    iterations: nat,
    over_relaxation: T,
)
    requires
        st.wf(),
        quiescent(st),
    ensures
        ({
            let once = st.simulate(dt, iterations, over_relaxation);
            let twice = once.simulate(dt, iterations, over_relaxation);
            &&& once.u == st.u
            &&& once.v == st.v
            &&& twice.u == once.u
            &&& twice.v == once.v
            &&& twice.p == once.p
        }),
{
    lemma_still_step(st, dt, iterations, over_relaxation);
    let once = st.simulate(dt, iterations, over_relaxation);
    lemma_isolated_same_mask(st, once);
    lemma_still_step(once, dt, iterations, over_relaxation);
    assert(once.clear_pressure().p =~= st.clear_pressure().p);
}


/// Whether the fixed-point coordinates of the grid are exact: the side of a
/// cell is a power of two, its inverse can be held, and no coordinate of
/// the grid is beyond the range.
pub open spec fn exact_grid(st: FluidState<Fixed>) -> bool {
    &&& st.h.raw >= 4
    &&& 0x1_0000_0000_0000_0000int % (st.h.raw as int) == 0
    &&& st.num_x <= WHOLE_MAX
    &&& st.num_y <= WHOLE_MAX
    &&& (st.num_x + 1) * st.h.raw <= i64::MAX
    &&& (st.num_y + 1) * st.h.raw <= i64::MAX
}

/// Along one axis of an exact grid, the middle of the cells with index `i`
/// lies on the grid point `i` of the smoke, with nothing beyond it.
proof fn lemma_center_on_grid_point(st: FluidState<Fixed>, n: nat, i: int)
    requires
        exact_grid(st),
        1 <= i < n - 1,
        n == st.num_x || n == st.num_y,
    ensures
        ({
            let h2 = half::<Fixed>().times(st.h);
            let t = st.clamped(Fixed::from_index(i as usize).times(st.h).plus(h2), n).minus(h2);
            &&& st.lower(t, n) == i
            &&& FluidState::<Fixed>::upper(i, n) == i + 1
            &&& st.weight(t, i) == Fixed::zero()
        }),
{
    let h = st.h.raw as int;
    let s = SCALE as int;
    let h2 = half::<Fixed>().times(st.h);
    assert(0 <= h2.raw <= h) by {
        assert(half::<Fixed>().raw == 0x8000_0000);
        assert(0 <= (0x8000_0000 * h) / s <= h) by (nonlinear_arith)
            requires
                h >= 0,
                s == 0x1_0000_0000,
        ;
    }
    assert(i * h >= h && i * h + h <= n * h && n * h + h == (n + 1) * h) by (nonlinear_arith)
        requires
            1 <= i < n - 1,
            h > 0,
    ;
    assert((i * s * h) / s == i * h && (n * s * h) / s == n * h) by (nonlinear_arith)
        requires
            s == 0x1_0000_0000,
    ;
    assert(i * s >= 0 && n * s >= 0 && i * s * h >= 0 && n * s * h >= 0) by (nonlinear_arith)
        requires
            i >= 0,
            n >= 0,
            h >= 0,
            s == 0x1_0000_0000,
    ;
    let ih = Fixed::from_index(i as usize).times(st.h);
    assert(ih.raw == i * h);
    let nh = Fixed::from_index(n as usize).times(st.h);
    assert(nh.raw == n * h);
    let c = ih.plus(h2);
    assert(c.raw == i * h + h2.raw);
    assert(st.clamped(c, n) == c);
    let t = c.minus(h2);
    assert(t.raw == i * h);
    let h1 = Fixed::one().over(st.h);
    let whole = 0x1_0000_0000_0000_0000int;
    assert(s * s == whole) by (nonlinear_arith)
        requires
            s == 0x1_0000_0000,
            whole == 0x1_0000_0000_0000_0000int,
    ;
    vstd::arithmetic::div_mod::lemma_fundamental_div_mod(whole, h);
    assert(whole / h <= i64::MAX && (whole / h) * h == whole && whole / h >= 0) by (nonlinear_arith)
        requires
            h >= 4,
            whole % h == 0,
            whole == 0x1_0000_0000_0000_0000int,
            whole == h * (whole / h) + whole % h,
    ;
    assert(h1.raw == whole / h);
    assert((i * h) * (whole / h) == i * s * s) by (nonlinear_arith)
        requires
            (whole / h) * h == whole,
            s * s == whole,
    ;
    assert((i * s * s) / s == i * s && i * s * s >= 0 && (i * s) / s == i) by (nonlinear_arith)
        requires
            s == 0x1_0000_0000,
            i >= 0,
    ;
    assert(t.times(h1).raw == i * s);
    assert(t.times(h1).floor_index() == i);
    let back = Fixed::from_index(i as usize).times(st.h);
    assert(t.minus(back) == Fixed::zero());
    assert(0 * h1.raw == 0);
}

/// In fixed-point numbers, the smoke read at the middle of an interior cell
/// of an exact grid is the smoke of the cell.
proof fn lemma_center_sample(st: FluidState<Fixed>, i: int, j: int)
    requires
        st.wf(),
        exact_grid(st),
        st.interior(i, j),
    ensures
        ({
            let h2 = half::<Fixed>().times(st.h);
            let x = Fixed::from_index(i as usize).times(st.h).plus(h2);
            let y = Fixed::from_index(j as usize).times(st.h).plus(h2);
            st.sample(x, y, Field::S) == st.m[st.at(i, j)]
        }),
{
    lemma_center_on_grid_point(st, st.num_x, i);
    lemma_center_on_grid_point(st, st.num_y, j);
    let m = st.m[st.at(i, j)];
    let one = Fixed::one();
    let zero = Fixed::zero();
    lemma_fixed_one_and_zero(m);
    lemma_fixed_one_and_zero(one);
    lemma_fixed_one_and_zero(st.m[st.at(i + 1, j)]);
    lemma_fixed_one_and_zero(st.m[st.at(i + 1, j + 1)]);
    lemma_fixed_one_and_zero(st.m[st.at(i, j + 1)]);
}

/// In fixed-point numbers, one times `x` is `x`, zero times `x` is zero,
/// and `x` with zero added or taken away is `x`.
proof fn lemma_fixed_one_and_zero(x: Fixed)
    ensures
        Fixed::one().times(x) == x,
        Fixed::zero().times(x) == Fixed::zero(),
        x.times(Fixed::zero()) == Fixed::zero(),
        x.plus(Fixed::zero()) == x,
        x.minus(Fixed::zero()) == x,
        Fixed::zero().plus(Fixed::zero()) == Fixed::zero(),
{
    let s = SCALE as int;
    let r = x.raw as int;
    assert((s * r) / s == r && (s * (-r)) / s == -r && s * (-r) == -(s * r) && (s * r < 0 <==> r < 0))
        by (nonlinear_arith)
        requires
            s == 0x1_0000_0000,
    ;
    assert(0 * r == 0 && r * 0 == 0);
}

/// Smoke stays where nothing flows, in fixed-point numbers on an exact
/// grid: with no velocity anywhere, carrying the smoke along for any time
/// leaves the smoke of every cell as it is.
pub proof fn lemma_smoke_stays_where_nothing_flows(st: FluidState<Fixed>, dt: Fixed)
    requires
        st.wf(),
        still(st),
        exact_grid(st),
    ensures
        st.advect_smoke(dt).m == st.m,
{
    let next = st.advect_smoke(dt);
    assert forall|k: int| 0 <= k < st.cells() implies next.m[k] == st.m[k] by {
        let i = st.xi(k);
        let j = st.yj(k);
        st.lemma_cell(k);
        if st.interior(i, j) && st.fluid(i, j) {
            st.lemma_at(i + 1, j);
            st.lemma_at(i, j + 1);
            let zero = Fixed::zero();
            lemma_fixed_one_and_zero(half::<Fixed>());
            lemma_fixed_one_and_zero(dt);
            let h2 = half::<Fixed>().times(st.h);
            let x = Fixed::from_index(i as usize).times(st.h).plus(h2);
            let y = Fixed::from_index(j as usize).times(st.h).plus(h2);
            lemma_fixed_one_and_zero(x);
            lemma_fixed_one_and_zero(y);
            lemma_center_sample(st, i, j);
            assert(st.advected_m(dt, i, j) == st.sample(x, y, Field::S));
        }
    }
    assert(next.m =~= st.m);
}


/// Whether no velocity is further than `bound` steps from zero.
pub open spec fn within(st: FluidState<Fixed>, bound: int) -> bool {
    &&& forall|k: int| 0 <= k < st.u.len() ==> -bound <= (#[trigger] st.u[k]).raw <= bound
    &&& forall|k: int| 0 <= k < st.v.len() ==> -bound <= (#[trigger] st.v[k]).raw <= bound
}

/// The correction of a cell with `n` open faces out of which `d` flows,
/// without over-relaxation: `-d / n`, rounded toward zero.
proof fn lemma_plain_correction(d: Fixed, n: int)
    requires
        1 <= n <= 4,
        -0x1000_0000_0000_0000 <= d.raw <= 0x1000_0000_0000_0000,
    ensures
        ({
            let c = d.neg().over(Fixed::from_index(n as usize)).times(Fixed::one());
            &&& magnitude(d.raw + n * c.raw) < n
            &&& magnitude(d.raw as int) < n ==> c.raw == 0
            &&& -0x1000_0000_0000_0000 <= c.raw <= 0x1000_0000_0000_0000
        }),
{
    let s = SCALE as int;
    let a = magnitude(d.raw as int);
    let q = d.neg().over(Fixed::from_index(n as usize));
    assert(Fixed::from_index(n as usize).raw == n * s);
    assert(d.neg().raw == -d.raw);
    assert(magnitude(-d.raw * s) == a * s && (-d.raw * s < 0 <==> -d.raw < 0)) by (nonlinear_arith)
        requires
            s == 0x1_0000_0000,
            a == magnitude(d.raw as int),
    ;
    assert(a * s == s * a && n * s == s * n && n * s > 0) by (nonlinear_arith)
        requires
            n >= 1,
            s == 0x1_0000_0000,
    ;
    vstd::arithmetic::div_mod::lemma_div_multiples_vanish_quotient(s, a, n);
    vstd::arithmetic::div_mod::lemma_fundamental_div_mod(a, n);
    vstd::arithmetic::div_mod::lemma_div_pos_is_pos(a, n);
    let w = a / n;
    assert(0 <= w <= a && 0 <= a - n * w < n) by (nonlinear_arith)
        requires
            0 <= a,
            1 <= n,
            a == n * w + a % n,
            0 <= a % n < n,
            0 <= w,
    ;
    assert((a * s) / (n * s) == w);
    assert(magnitude(n * s) == n * s);
    assert(truncated(-d.raw * s, n * s) == (if d.raw > 0 { -w } else { w }));
    assert(q.raw == (if d.raw > 0 { -w } else { w }));
    assert(q.times(Fixed::one()) == q) by {
        let r = q.raw as int;
        assert((r * s) / s == r && ((-r) * s) / s == -r && (-r) * s == -(r * s) && (r * s < 0 <==> r
            < 0)) by (nonlinear_arith)
            requires
                s == 0x1_0000_0000,
        ;
    }
    assert(n * (-w) == -(n * w)) by (nonlinear_arith);
    if a < n {
        vstd::arithmetic::div_mod::lemma_basic_div(a, n);
    }
}

/// What is left to flow out of a cell after its correction without
/// over-relaxation: less than one step of the number type for each open
/// face.
proof fn lemma_corrected_cell(
    u0: Fixed,
    u1: Fixed,
    v0: Fixed,
    v1: Fixed,
    left: bool,
    right: bool,
    below: bool,
    above: bool,
)
    requires
        left || right || below || above,
        -0x0400_0000_0000_0000 <= u0.raw <= 0x0400_0000_0000_0000,
        -0x0400_0000_0000_0000 <= u1.raw <= 0x0400_0000_0000_0000,
        -0x0400_0000_0000_0000 <= v0.raw <= 0x0400_0000_0000_0000,
        -0x0400_0000_0000_0000 <= v1.raw <= 0x0400_0000_0000_0000,
    ensures
        ({
            let n = open_faces(left, right, below, above);
            let d = u1.minus(u0).plus(v1).minus(v0);
            let c = d.neg().over(Fixed::from_index(n as usize)).times(Fixed::one());
            let a0 = if left { u0.minus(c) } else { u0 };
            let a1 = if right { u1.plus(c) } else { u1 };
            let b0 = if below { v0.minus(c) } else { v0 };
            let b1 = if above { v1.plus(c) } else { v1 };
            &&& magnitude(a1.minus(a0).plus(b1).minus(b0).raw as int) < n
            &&& -0x2000_0000_0000_0000 <= a0.raw <= 0x2000_0000_0000_0000
            &&& -0x2000_0000_0000_0000 <= a1.raw <= 0x2000_0000_0000_0000
            &&& -0x2000_0000_0000_0000 <= b0.raw <= 0x2000_0000_0000_0000
            &&& -0x2000_0000_0000_0000 <= b1.raw <= 0x2000_0000_0000_0000
        }),
{
    let n = open_faces(left, right, below, above);
    let d = u1.minus(u0).plus(v1).minus(v0);
    assert(d.raw == u1.raw - u0.raw + v1.raw - v0.raw);
    lemma_plain_correction(d, n);
    let c = d.neg().over(Fixed::from_index(n as usize)).times(Fixed::one());
    let a0 = if left { u0.minus(c) } else { u0 };
    let a1 = if right { u1.plus(c) } else { u1 };
    let b0 = if below { v0.minus(c) } else { v0 };
    let b1 = if above { v1.plus(c) } else { v1 };
    let e0: int = if left { 1 } else { 0 };
    let e1: int = if right { 1 } else { 0 };
    let f0: int = if below { 1 } else { 0 };
    let f1: int = if above { 1 } else { 0 };
    assert(a0.raw == u0.raw - e0 * c.raw && a1.raw == u1.raw + e1 * c.raw);
    assert(b0.raw == v0.raw - f0 * c.raw && b1.raw == v1.raw + f1 * c.raw);
    assert(a1.minus(a0).plus(b1).minus(b0).raw == a1.raw - a0.raw + b1.raw - b0.raw);
    assert(a1.raw - a0.raw + b1.raw - b0.raw == d.raw + n * c.raw) by (nonlinear_arith)
        requires
            a0.raw == u0.raw - e0 * c.raw,
            a1.raw == u1.raw + e1 * c.raw,
            b0.raw == v0.raw - f0 * c.raw,
            b1.raw == v1.raw + f1 * c.raw,
            d.raw == u1.raw - u0.raw + v1.raw - v0.raw,
            n == e0 + e1 + f0 + f1,
    ;
}

/// How many of four faces are open.
pub open spec fn open_faces(left: bool, right: bool, below: bool, above: bool) -> int {
    let a: int = if left { 1 } else { 0 };
    let b: int = if right { 1 } else { 0 };
    let c: int = if below { 1 } else { 0 };
    let d: int = if above { 1 } else { 0 };
    a + b + c + d
}

/// One sweep without over-relaxation over a grid with one interior cell
/// leaves less than one step of the number type to flow out of the cell
/// through each of its open faces.
proof fn lemma_lone_cell_sweep(st: FluidState<Fixed>, cp: Fixed)
    requires
        st.wf(),
        st.num_x == 3,
        st.num_y == 3,
        st.relaxed(1, 1),
        within(st, 0x0400_0000_0000_0000),
    ensures
        ({
            let after = st.sweep(cp, Fixed::one(), st.interior_cells());
            &&& after.wf()
            &&& after.num_x == 3
            &&& after.num_y == 3
            &&& after.s == st.s
            &&& magnitude(after.divergence(1, 1).raw as int) < st.neighbours(1, 1)
        }),
{
    let after = st.relax_cell(cp, Fixed::one(), 1, 1);
    assert(st.interior_cells() == 1) by (nonlinear_arith)
        requires
            st.num_x == 3,
            st.num_y == 3,
            st.interior_cells() == (st.num_x - 2) * (st.num_y - 2),
    ;
    assert(st.sweep(cp, Fixed::one(), 0) == st);
    assert(st.sweep(cp, Fixed::one(), 1) == after);
    assert(st.cells() == 9) by (nonlinear_arith)
        requires
            st.num_x == 3,
            st.num_y == 3,
            st.cells() == st.num_x * st.num_y,
    ;
    assert(st.at(1, 1) == 4 && st.at(2, 1) == 7 && st.at(1, 2) == 5);
    assert(st.u[4].raw <= 0x0400_0000_0000_0000 && st.u[7].raw <= 0x0400_0000_0000_0000);
    assert(st.v[4].raw <= 0x0400_0000_0000_0000 && st.v[5].raw <= 0x0400_0000_0000_0000);
    lemma_corrected_cell(
        st.u[4],
        st.u[7],
        st.v[4],
        st.v[5],
        st.fluid(0, 1),
        st.fluid(2, 1),
        st.fluid(1, 0),
        st.fluid(1, 2),
    );
    assert(st.neighbours(1, 1) == open_faces(
        st.fluid(0, 1),
        st.fluid(2, 1),
        st.fluid(1, 0),
        st.fluid(1, 2),
    ));
    assert(after.at(1, 1) == 4 && after.at(2, 1) == 7 && after.at(1, 2) == 5);
}

/// Where less flows out of the one interior cell than it has open faces, a
/// sweep without over-relaxation changes nothing.
proof fn lemma_lone_cell_settled(st: FluidState<Fixed>, cp: Fixed)
    requires
        st.wf(),
        st.num_x == 3,
        st.num_y == 3,
        st.relaxed(1, 1),
        magnitude(st.divergence(1, 1).raw as int) < st.neighbours(1, 1),
    ensures
        st.sweep(cp, Fixed::one(), st.interior_cells()) == st,
{
    let n = st.neighbours(1, 1) as int;
    let d = st.divergence(1, 1);
    let after = st.relax_cell(cp, Fixed::one(), 1, 1);
    assert(st.interior_cells() == 1) by (nonlinear_arith)
        requires
            st.num_x == 3,
            st.num_y == 3,
            st.interior_cells() == (st.num_x - 2) * (st.num_y - 2),
    ;
    assert(st.sweep(cp, Fixed::one(), 0) == st);
    assert(st.sweep(cp, Fixed::one(), 1) == after);
    assert(st.cells() == 9) by (nonlinear_arith)
        requires
            st.num_x == 3,
            st.num_y == 3,
            st.cells() == st.num_x * st.num_y,
    ;
    assert(st.at(1, 1) == 4 && st.at(2, 1) == 7 && st.at(1, 2) == 5);
    lemma_plain_correction(d, n);
    let c = st.correction(Fixed::one(), 1, 1);
    assert(c == Fixed::zero());
    lemma_fixed_one_and_zero(cp);
    lemma_fixed_one_and_zero(st.p[4]);
    lemma_fixed_one_and_zero(st.u[4]);
    lemma_fixed_one_and_zero(st.u[7]);
    lemma_fixed_one_and_zero(st.v[4]);
    lemma_fixed_one_and_zero(st.v[5]);
    assert(after.p =~= st.p);
    assert(after.u =~= st.u);
    assert(after.v =~= st.v);
}

/// The projection without over-relaxation of a grid with one interior cell
/// is done after its first sweep.
proof fn lemma_lone_cell_relax(st: FluidState<Fixed>, cp: Fixed, iterations: nat)
    requires
        st.wf(),
        st.num_x == 3,
        st.num_y == 3,
        st.relaxed(1, 1),
        within(st, 0x0400_0000_0000_0000),
        iterations >= 1,
    ensures
        st.relax(cp, Fixed::one(), iterations) == st.sweep(cp, Fixed::one(), st.interior_cells()),
    decreases iterations,
{
    lemma_lone_cell_sweep(st, cp);
    if iterations == 1 {
        assert(st.relax(cp, Fixed::one(), 0) == st);
    } else {
        lemma_lone_cell_relax(st, cp, (iterations - 1) as nat);
        let once = st.sweep(cp, Fixed::one(), st.interior_cells());
        assert(once.at(1, 1) == st.at(1, 1) && once.at(0, 1) == st.at(0, 1) && once.at(2, 1) == st.at(
            2,
            1,
        ) && once.at(1, 0) == st.at(1, 0) && once.at(1, 2) == st.at(1, 2));
        assert(once.relaxed(1, 1));
        assert(once.neighbours(1, 1) == st.neighbours(1, 1));
        lemma_lone_cell_settled(once, cp);
    }
}

/// Divergence goes to zero on the smallest grid, in fixed-point numbers.
/// Where the one interior cell holds fluid and has an open face, and no
/// velocity is further than `2^58` steps from zero, the projection without
/// over-relaxation leaves, after one sweep or more, less than one step of
/// the number type to flow out through each open face of the cell.
pub proof fn lemma_lone_cell_is_emptied(st: FluidState<Fixed>, dt: Fixed, iterations: nat)
    requires
        st.wf(),
        st.num_x == 3,
        st.num_y == 3,
        st.fluid(1, 1),
        st.neighbours(1, 1) > 0,
        within(st, 0x0400_0000_0000_0000),
        iterations >= 1,
    ensures
        magnitude(
            st.solve_incompressibility(Fixed::one(), iterations, dt).divergence(1, 1).raw as int,
        ) < st.neighbours(1, 1),
{
    let cp = st.density.times(st.h).over(dt);
    lemma_lone_cell_relax(st, cp, iterations);
    lemma_lone_cell_sweep(st, cp);
}

} // verus!
