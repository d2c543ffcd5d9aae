//! Generator, query and solver behavior, observed through the public API.

use terrain_sim::fixed::SCALE;
use terrain_sim::solver::SolverConfig;
use terrain_sim::terrain::{Droplet, Terrain, Tile};

#[test]
fn flat_is_constant_everywhere() {
    let t = Terrain::flat((4, 3), 2 * SCALE + 500_000);
    let buf = t.export_height_buffer();
    assert_eq!(buf.len(), 12);
    for v in buf {
        assert_eq!(v, 2_500_000);
    }
}

#[test]
fn droplet_overrides_exactly_one_cell() {
    let t = Terrain::droplet(
        (20, 20),
        SCALE,
        vec![Droplet { position: (10, 10), height: 6 * SCALE }],
    );
    let buf = t.export_height_buffer();
    for x in 0..20usize {
        for y in 0..20usize {
            let expected = if (x, y) == (10, 10) { 6_000_000 } else { 1_000_000 };
            assert_eq!(buf[x * 20 + y], expected);
        }
    }
}

#[test]
fn droplet_later_override_wins() {
    let t = Terrain::droplet(
        (5, 5),
        0,
        vec![
            Droplet { position: (2, 3), height: 4 * SCALE },
            Droplet { position: (2, 3), height: 9 * SCALE },
        ],
    );
    let buf = t.export_height_buffer();
    assert_eq!(buf[2 * 5 + 3], 9_000_000);
    assert_eq!(buf[0], 0);
}

#[test]
fn droplet_base_height_arbitrary() {
    let t = Terrain::droplet(
        (3, 3),
        -7 * SCALE,
        vec![Droplet { position: (0, 0), height: 6 * SCALE }],
    );
    let buf = t.export_height_buffer();
    assert_eq!(buf[0], 6_000_000);
    for i in 1..9 {
        assert_eq!(buf[i], -7_000_000);
    }
}

#[test]
fn zero_slope_cone_is_uniform_wherever_centered() {
    let a = Terrain::new_cone((6, 4), (2 * SCALE, 3 * SCALE), 5 * SCALE, 0);
    let b = Terrain::new_cone((6, 4), (-17 * SCALE, 40 * SCALE), 5 * SCALE, 0);
    let ba = a.export_height_buffer();
    let bb = b.export_height_buffer();
    assert_eq!(ba, bb);
    for v in ba {
        assert_eq!(v, 5_000_000);
    }
}

#[test]
fn cone_exact_euclidean_distances() {
    // Unit slope from the origin: the height is the distance itself.
    let t = Terrain::new_cone((5, 5), (0, 0), 0, SCALE);
    let buf = t.export_height_buffer();
    assert_eq!(buf[0], 0);
    // (3, 4) lies at distance 5.
    assert_eq!(buf[3 * 5 + 4], 5_000_000);
    // (1, 1) lies at sqrt(2), rounded down in fixed-point units.
    assert_eq!(buf[1 * 5 + 1], 1_414_213);
    // (0, 2) lies at distance 2.
    assert_eq!(buf[2], 2_000_000);
}

#[test]
fn clamped_cone_never_goes_below_floor() {
    let t = Terrain::cone_flat((100, 100), (50 * SCALE, 50 * SCALE), 5 * SCALE, -SCALE / 2, 0);
    let buf = t.export_height_buffer();
    assert!(buf.iter().all(|v| *v >= 0));
    // The center keeps the unclamped value, the far corner is clamped.
    assert_eq!(buf[50 * 100 + 50], 5_000_000);
    assert_eq!(buf[0], 0);
}

#[test]
fn clamped_cone_floor_respected_for_positive_floor() {
    let t = Terrain::cone_flat((8, 8), (0, 0), 2 * SCALE, -SCALE, SCALE);
    let buf = t.export_height_buffer();
    assert!(buf.iter().all(|v| *v >= SCALE));
}

#[test]
fn flat_field_is_a_fixed_point_of_the_solver() {
    let mut t = Terrain::flat((5, 4), 3_250_000);
    let before = t.export_height_buffer();
    t.water_simulation();
    assert_eq!(t.export_height_buffer(), before);
    t.water_simulation();
    t.water_simulation();
    assert_eq!(t.export_height_buffer(), before);
}

#[test]
fn advance_one_substep_exact_two_cell_field() {
    // A two-cell slope, advanced one sub-step with the default constants,
    // moves exactly 15 fixed-point units of height downhill.
    let cfg = SolverConfig { gravity: 100_000, viscosity: 200, time_step: 10_000, substep_count: 1 };
    let mut t = Terrain::from_tiles(vec![2_000_000, 1_000_000], (2, 1));
    t.advance(&cfg);
    assert_eq!(t.export_height_buffer(), vec![1_999_985, 1_000_015]);
}

#[test]
fn advance_is_deterministic() {
    let mut a = Terrain::droplet((9, 9), SCALE, vec![Droplet { position: (4, 4), height: 6 * SCALE }]);
    let mut b = Terrain::droplet((9, 9), SCALE, vec![Droplet { position: (4, 4), height: 6 * SCALE }]);
    a.water_simulation();
    b.water_simulation();
    assert_eq!(a.export_height_buffer(), b.export_height_buffer());
}

#[test]
fn advance_moves_water_off_a_peak() {
    let mut t = Terrain::droplet((9, 9), SCALE, vec![Droplet { position: (4, 4), height: 6 * SCALE }]);
    t.water_simulation();
    let buf = t.export_height_buffer();
    assert!(buf[4 * 9 + 4] < 6_000_000);
}

#[test]
fn get_transform_in_and_out_of_range() {
    let t = Terrain::droplet((5, 5), SCALE, vec![Droplet { position: (2, 1), height: 6 * SCALE }]);
    assert_eq!(t.get_transform((2, 1)), Some((2, 6_000_000, 1)));
    assert_eq!(t.get_transform((0, 0)), Some((0, 1_000_000, 0)));
    assert_eq!(t.get_transform((-1, 0)), None);
    assert_eq!(t.get_transform((0, -1)), None);
    assert_eq!(t.get_transform((5, 0)), None);
    assert_eq!(t.get_transform((0, 5)), None);
}

#[test]
fn rounded_lookup_matches_exact_lookup_inside() {
    let t = Terrain::new_cone((6, 6), (0, 0), 0, SCALE);
    for x in 0..6i64 {
        for y in 0..6i64 {
            let exact = t.get_transform((x, y)).unwrap();
            assert_eq!(t.get_transform_rounded((x, y)), exact);
        }
    }
}

#[test]
fn rounded_lookup_clamps_to_nearest_boundary() {
    let t = Terrain::new_cone((6, 6), (0, 0), 0, SCALE);
    assert_eq!(t.get_transform_rounded((100, -3)), t.get_transform((5, 0)).unwrap());
    assert_eq!(t.get_transform_rounded((-1000, 1000)), t.get_transform((0, 5)).unwrap());
    assert_eq!(t.get_transform_rounded((3, 99)), t.get_transform((3, 5)).unwrap());
}

#[test]
fn single_cell_terrain_is_stable() {
    let mut t = Terrain::flat((1, 1), 9 * SCALE);
    t.water_simulation();
    assert_eq!(t.export_height_buffer(), vec![9 * SCALE]);
    assert_eq!(t.get_transform_rounded((50, -50)), (0, 9 * SCALE, 0));
}

#[test]
fn droplet_with_no_overrides_is_flat() {
    let t = Terrain::droplet((4, 4), 2 * SCALE, vec![]);
    assert!(t.export_height_buffer().iter().all(|v| *v == 2 * SCALE));
}

#[test]
fn from_tiles_wraps_buffer_unchanged() {
    let tiles = vec![
        Tile { height: 1 },
        Tile { height: 2 },
        Tile { height: 3 },
        Tile { height: 4 },
        Tile { height: 5 },
        Tile { height: 6 },
    ];
    let buf: Vec<i64> = tiles.iter().map(|t| t.height).collect();
    let t = Terrain::from_tiles(buf.clone(), (3, 2));
    assert_eq!(t.dimensions(), (3, 2));
    assert_eq!(t.export_height_buffer(), buf);
}
