use fluid_sim::fixed::{Fixed, SCALE};
use fluid_sim::scalar::Scalar;
use fluid_sim::simu::obstacle::{Obstacle, ObstacleType};
use fluid_sim::simu::{Field, Fluid};

fn whole(n: i64) -> Fixed {
    Fixed { raw: n * SCALE }
}

fn ratio(num: i64, den: i64) -> Fixed {
    Fixed { raw: num * SCALE / den }
}

fn fixed_pipe(num_x: usize, num_y: usize, shapes: Vec<ObstacleType<Fixed>>) -> Fluid<Fixed> {
    let mut fluid = Fluid::create(whole(0), num_x, num_y, whole(1), whole(1000));
    fluid.vortex_shedding(whole(2), shapes);
    fluid
}

#[test]
fn fixed_sweep_corrects_each_cell_on_what_the_cell_before_left() {
    let mut fluid = fixed_pipe(2, 1, vec![]);
    fluid.solve_incompressibility(whole(1), 1, whole(1));
    assert_eq!(fluid.u(1, 1), whole(2));
    assert_eq!(fluid.u(2, 1), whole(1));
    assert_eq!(fluid.u(3, 1), whole(1));
    let p = fluid.pressure();
    assert_eq!(p[4], whole(2000));
    assert_eq!(p[7], whole(1000));
    fluid.solve_incompressibility(ratio(3, 2), 1, ratio(1, 2));
    // cell (1, 1) lacks 1 and hands 3/2 on; cell (2, 1) then lacks 3/2 and
    // each of its two faces takes 9/8; a unit of correction weighs 2000
    assert_eq!(fluid.u(2, 1), ratio(11, 8));
    assert_eq!(fluid.u(3, 1), ratio(17, 8));
    let p = fluid.pressure();
    assert_eq!(p[4], whole(5000));
    assert_eq!(p[7], whole(3250));
}

#[test]
fn fixed_sample_blends_the_four_values_around_a_point() {
    let fluid = fixed_pipe(20, 10, vec![]);
    assert_eq!(fluid.sample_field(ratio(3, 2), ratio(11, 2), Field::S), whole(0));
    assert_eq!(fluid.sample_field(whole(2), whole(6), Field::S), ratio(3, 4));
    assert_eq!(fluid.sample_field(ratio(7, 4), ratio(23, 4), Field::S), ratio(7, 16));
    assert_eq!(fluid.sample_field(ratio(5, 4), ratio(3, 2), Field::U), ratio(3, 2));
    assert_eq!(fluid.sample_field(whole(-7), whole(500), Field::U), whole(2));
    assert_eq!(fluid.sample_field(whole(3), whole(3), Field::V), whole(0));
}

#[test]
fn fixed_advection_reads_the_flow_before_the_step() {
    let mut fluid = fixed_pipe(2, 1, vec![]);
    fluid.solve_incompressibility(whole(1), 1, whole(1));
    fluid.extrapolate();
    assert_eq!(fluid.u(2, 0), whole(1));
    assert_eq!(fluid.u(2, 2), whole(1));
    fluid.advect_velocity(ratio(1, 2));
    assert_eq!((fluid.u(1, 1), fluid.u(2, 1), fluid.u(3, 1)), (whole(2), ratio(3, 2), whole(1)));
    let mut smoke = fixed_pipe(20, 10, vec![]);
    smoke.advect_smoke(ratio(1, 2));
    assert_eq!(smoke.smoke(1, 5), ratio(1, 2));
    assert_eq!(smoke.smoke(2, 5), whole(1));
}

#[test]
fn fixed_gravity_moves_the_faces_between_fluid_cells() {
    let mut fluid = Fluid::create(whole(-8), 3, 3, whole(1), whole(1000));
    fluid.tank();
    fluid.integrate(ratio(1, 2), whole(-8));
    assert_eq!(fluid.v(2, 2), whole(-4));
    assert_eq!(fluid.v(2, 1), whole(0));
    assert_eq!(fluid.v(4, 2), whole(0));
    assert_eq!(fluid.avg_v(1, 2), whole(-2));
}

#[test]
fn fixed_disc_holds_the_cells_whose_center_it_holds() {
    let shape = ObstacleType::Circular { x: whole(10), y: whole(5), r: whole(2) };
    assert!(shape.is_inside(ratio(21, 2), ratio(11, 2)));
    assert!(!shape.is_inside(whole(12), whole(5)));
    let fluid = fixed_pipe(20, 10, vec![shape]);
    let mut solid = 0;
    for i in 1..21_i64 {
        for j in 1..11_i64 {
            // squared distance of the center from (10, 5), in quarters
            let d2 = (2 * i + 1 - 20).pow(2) + (2 * j + 1 - 10).pow(2);
            let inside = d2 < 16;
            assert_eq!(fluid.mask(i as usize, j as usize), if inside { 0 } else { 1 });
            solid += usize::from(inside);
        }
    }
    assert_eq!(solid, 12);
}

#[test]
fn fixed_flow_around_a_disc_end_to_end() {
    let mut fluid = Fluid::create(whole(0), 20, 10, whole(1), whole(1));
    let shape = ObstacleType::Circular { x: whole(10), y: whole(5), r: whole(2) };
    fluid.vortex_shedding(whole(2), vec![shape]);
    fluid.simulate(ratio(1, 10), 20, ratio(19, 10));
    for j in [1, 2, 9, 10] {
        let off = (fluid.u(1, j).raw - whole(2).raw).abs();
        assert!(off < SCALE / 1000, "u(1, {j}) is {off} steps off");
    }
    assert_eq!(fluid.mask(10, 5), 0);
    assert_eq!(fluid.u(10, 5), whole(0));
    assert!(fluid.u(2, 5).raw > 0);
    let (nx, ny) = (fluid.num_x(), fluid.num_y());
    let mut left = 0_i64;
    for i in 1..nx - 1 {
        for j in 1..ny - 1 {
            if fluid.mask(i, j) == 1 {
                let d = fluid.u(i + 1, j).raw - fluid.u(i, j).raw + fluid.v(i, j + 1).raw
                    - fluid.v(i, j).raw;
                left += d.abs();
            }
        }
    }
    // 40 units flow in along the inlet before the first sweep
    assert!(left < 40 * SCALE);
}

#[test]
fn fixed_fluid_at_rest_stays_at_rest() {
    let mut fluid = Fluid::create(whole(0), 4, 3, whole(1), whole(1000));
    fluid.simulate(ratio(1, 10), 20, ratio(19, 10));
    fluid.simulate(ratio(1, 10), 20, ratio(19, 10));
    assert!(fluid.pressure().iter().all(|p| *p == whole(0)));
    for i in 0..6 {
        for j in 0..5 {
            assert_eq!(fluid.u(i, j), whole(0));
            assert_eq!(fluid.v(i, j), whole(0));
            assert_eq!(fluid.smoke(i, j), whole(1));
        }
    }
}

#[test]
fn fixed_isolated_fluid_cell_stays_at_rest() {
    // three by three interior cells, all solid but the one in the middle
    let mut fluid = Fluid::create(whole(0), 3, 3, whole(1), whole(1000));
    let bar = |x: i64, y: i64, w: i64, h: i64| ObstacleType::Rectangular {
        x: ratio(x, 2),
        y: ratio(y, 2),
        w: ratio(w, 2),
        h: ratio(h, 2),
    };
    fluid.add_obstacles(vec![bar(3, 5, 1, 4), bar(7, 5, 1, 4), bar(5, 3, 1, 1), bar(5, 7, 1, 1)]);
    for i in 0..5 {
        for j in 0..5 {
            assert_eq!(fluid.mask(i, j), if (i, j) == (2, 2) { 1 } else { 0 });
        }
    }
    fluid.simulate(ratio(1, 10), 20, ratio(19, 10));
    let once = fluid.pressure();
    fluid.simulate(ratio(1, 10), 20, ratio(19, 10));
    assert_eq!(fluid.pressure(), once);
    for i in 0..5 {
        for j in 0..5 {
            assert_eq!(fluid.u(i, j), whole(0));
            assert_eq!(fluid.v(i, j), whole(0));
        }
    }
}

#[test]
fn fixed_smoke_stays_where_nothing_flows() {
    for h in [whole(1), ratio(1, 2), ratio(1, 1024), whole(4)] {
        let mut fluid = Fluid::create(whole(0), 20, 10, h, whole(1000));
        let shape = ObstacleType::Circular {
            x: whole(8).times(h),
            y: whole(5).times(h),
            r: whole(2).times(h),
        };
        fluid.vortex_shedding(whole(0), vec![shape]);
        let read = |f: &Fluid<Fixed>| -> Vec<Fixed> {
            let mut cells = Vec::new();
            for i in 0..f.num_x() {
                for j in 0..f.num_y() {
                    cells.push(f.smoke(i, j));
                }
            }
            cells
        };
        let before = read(&fluid);
        assert!(before.contains(&whole(0)));
        for dt in [ratio(1, 100), whole(1), whole(100)] {
            fluid.advect_smoke(dt);
            assert_eq!(read(&fluid), before);
        }
    }
}

#[test]
fn fixed_lone_cell_is_emptied_up_to_rounding() {
    // one interior cell, open on all four sides; seven steps flow in
    let mut fluid = Fluid::create(whole(0), 1, 1, whole(1), whole(1));
    fluid.vortex_shedding(Fixed { raw: 7 }, vec![]);
    fluid.clear_obstacles();
    let out = |f: &Fluid<Fixed>| f.u(2, 1).raw - f.u(1, 1).raw + f.v(1, 2).raw - f.v(1, 1).raw;
    assert_eq!(out(&fluid), -7);
    fluid.solve_incompressibility(whole(1), 1, whole(1));
    // each of the four faces takes one step of the seven
    assert_eq!(out(&fluid), -3);
    assert_eq!(fluid.u(1, 1), Fixed { raw: 6 });
    assert_eq!(fluid.u(2, 1), Fixed { raw: 1 });
    assert_eq!(fluid.v(1, 1), Fixed { raw: -1 });
    assert_eq!(fluid.v(1, 2), Fixed { raw: 1 });
    fluid.solve_incompressibility(whole(1), 5, whole(1));
    assert_eq!(out(&fluid), -3);
    // a flow that the faces can share out leaves nothing
    let mut fluid = Fluid::create(whole(0), 1, 1, whole(1), whole(1));
    fluid.vortex_shedding(whole(3), vec![]);
    fluid.clear_obstacles();
    fluid.solve_incompressibility(whole(1), 3, whole(1));
    assert_eq!(out(&fluid), 0);
}
