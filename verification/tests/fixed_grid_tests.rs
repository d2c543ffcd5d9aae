//! The fixed-point arithmetic, the grid container and the solver kernels.

use terrain_sim::fixed::{add_sat, fp_mul, half_trunc, int_scale, isqrt, radius_fp, sub_sat, SCALE};
use terrain_sim::grid::Grid;
use terrain_sim::solver::{update_velocity, update_water, SolverConfig};
use terrain_sim::terrain::Velocity;

#[test]
fn fixed_products_truncate_toward_zero() {
    assert_eq!(fp_mul(3 * SCALE, 2 * SCALE), 6 * SCALE);
    assert_eq!(fp_mul(-3 * SCALE, 2 * SCALE), -6 * SCALE);
    assert_eq!(fp_mul(1, 1), 0);
    assert_eq!(fp_mul(-1, 1), 0);
    assert_eq!(fp_mul(SCALE / 2, SCALE / 2), SCALE / 4);
    assert_eq!(fp_mul(0, i64::MAX), 0);
}

#[test]
fn saturating_sums_and_differences() {
    assert_eq!(add_sat(i64::MAX, 1), i64::MAX);
    assert_eq!(add_sat(i64::MIN, -1), i64::MIN);
    assert_eq!(add_sat(5, 7), 12);
    assert_eq!(sub_sat(i64::MIN, 1), i64::MIN);
    assert_eq!(sub_sat(i64::MAX, -1), i64::MAX);
    assert_eq!(sub_sat(5, 7), -2);
}

#[test]
fn halving_truncates_toward_zero() {
    assert_eq!(half_trunc(5), 2);
    assert_eq!(half_trunc(-5), -2);
    assert_eq!(half_trunc(4), 2);
    assert_eq!(half_trunc(-4), -2);
}

#[test]
fn integer_square_roots_are_floors() {
    assert_eq!(isqrt(0), 0);
    assert_eq!(isqrt(1), 1);
    assert_eq!(isqrt(2), 1);
    assert_eq!(isqrt(4), 2);
    assert_eq!(isqrt(99), 9);
    assert_eq!(isqrt(100), 10);
    assert_eq!(isqrt(u64::MAX as u128 * u64::MAX as u128), u64::MAX);
    assert_eq!(isqrt(u128::MAX), u64::MAX);
}

#[test]
fn radius_is_the_euclidean_norm() {
    assert_eq!(radius_fp(3 * SCALE, 4 * SCALE), 5 * SCALE);
    assert_eq!(radius_fp(-3 * SCALE, 4 * SCALE), 5 * SCALE);
    assert_eq!(radius_fp(0, -7 * SCALE), 7 * SCALE);
    assert_eq!(radius_fp(SCALE, SCALE), 1_414_213);
}

#[test]
fn int_scale_scales_counts() {
    assert_eq!(int_scale(3, SCALE), 3 * SCALE);
    assert_eq!(int_scale(3, -SCALE), -3 * SCALE);
    assert_eq!(int_scale(0, SCALE), 0);
    assert_eq!(int_scale(7, SCALE / 2), 3_500_000);
    assert_eq!(int_scale(65535, i64::MAX), i64::MAX);
    assert_eq!(int_scale(65535, i64::MIN), i64::MIN);
}

#[test]
fn grid_checked_access_bounds() {
    let g = Grid::from_values(vec![1i64, 2, 3, 4, 5, 6], (3, 2));
    assert_eq!(g.dimensions(), (3, 2));
    assert_eq!(g.get((0, 0)), Some(&1));
    assert_eq!(g.get((0, 1)), Some(&2));
    assert_eq!(g.get((1, 0)), Some(&3));
    assert_eq!(g.get((2, 1)), Some(&6));
    assert_eq!(g.get((-1, 0)), None);
    assert_eq!(g.get((0, -1)), None);
    assert_eq!(g.get((3, 0)), None);
    assert_eq!(g.get((0, 2)), None);
}

#[test]
fn grid_mutation_hits_one_cell() {
    let mut g = Grid::from_values(vec![0i64; 6], (2, 3));
    if let Some(cell) = g.get_mut((1, 2)) {
        *cell = 42;
    }
    assert!(g.get_mut((5, 5)).is_none());
    assert_eq!(g.to_values(), vec![0, 0, 0, 0, 0, 42]);
    assert_eq!(*g.get_unchecked(1, 2), 42);
}

#[test]
fn velocity_kernel_exact_two_cell_slope() {
    let cfg = SolverConfig::default();
    let heights = Grid::from_values(vec![2_000_000i64, 1_000_000], (2, 1));
    let base: Grid<Velocity> = Grid::filled(Velocity { x: 0, y: 0 }, (2, 1));
    let v = update_velocity(&heights, &base, &cfg);
    // The low edge is pinned; the downhill cell gains gradient * dt * g.
    assert_eq!(*v.get_unchecked(0, 0), Velocity { x: 0, y: 0 });
    assert_eq!(*v.get_unchecked(1, 0), Velocity { x: 1000, y: 0 });
}

#[test]
fn water_kernel_exact_two_cell_slope() {
    let cfg = SolverConfig::default();
    let heights = Grid::from_values(vec![2_000_000i64, 1_000_000], (2, 1));
    let velocity = Grid::from_values(
        vec![Velocity { x: 0, y: 0 }, Velocity { x: 1000, y: 0 }],
        (2, 1),
    );
    let out = update_water(&heights, &velocity, &heights, &cfg);
    assert_eq!(out.to_values(), vec![1_999_985, 1_000_015]);
}

#[test]
fn default_config_constants() {
    let cfg = SolverConfig::default();
    assert_eq!(cfg.gravity, 100_000);
    assert_eq!(cfg.viscosity, 200);
    assert_eq!(cfg.time_step, 10_000);
    assert_eq!(cfg.substep_count, 20);
}
