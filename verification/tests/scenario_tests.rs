//! The scenario descriptors and the built-in scenario library.

use terrain_sim::fixed::SCALE;
use terrain_sim::scenario::{Scenario, ScenarioKind, TerrainLibrary};
use terrain_sim::terrain::Droplet;

#[test]
fn library_holds_three_buildable_scenarios() {
    let lib = TerrainLibrary::default();
    assert_eq!(lib.entries.len(), 3);
    assert_eq!(lib.entries[0].name, "Droplet");
    assert_eq!(lib.entries[1].name, "Big Droplet");
    assert_eq!(lib.entries[2].name, "Many Droplets");
    for s in &lib.entries {
        assert!(s.build_scenario().is_some());
    }
}

#[test]
fn library_first_scenario_is_the_single_droplet() {
    let lib = TerrainLibrary::default();
    let t = lib.entries[0].build_scenario().unwrap();
    assert_eq!(t.dimensions(), (20, 20));
    let buf = t.export_height_buffer();
    assert_eq!(buf[10 * 20 + 10], 6 * SCALE);
    assert_eq!(buf[0], SCALE);
}

#[test]
fn library_second_scenario_is_the_floored_basin() {
    let lib = TerrainLibrary::default();
    let t = lib.entries[1].build_scenario().unwrap();
    assert_eq!(t.dimensions(), (100, 100));
    let buf = t.export_height_buffer();
    assert_eq!(buf[50 * 100 + 50], 5 * SCALE);
    assert!(buf.iter().all(|v| *v >= 0));
}

#[test]
fn library_third_scenario_holds_seven_droplets() {
    let lib = TerrainLibrary::default();
    let t = lib.entries[2].build_scenario().unwrap();
    assert_eq!(t.dimensions(), (50, 50));
    let buf = t.export_height_buffer();
    let spots = [(10, 10), (20, 20), (0, 10), (23, 28), (43, 38), (33, 8), (2, 44)];
    let mut overridden = 0;
    for x in 0..50usize {
        for y in 0..50usize {
            if spots.contains(&(x, y)) {
                assert_eq!(buf[x * 50 + y], 6 * SCALE);
                overridden += 1;
            } else {
                assert_eq!(buf[x * 50 + y], SCALE);
            }
        }
    }
    assert_eq!(overridden, 7);
}

#[test]
fn flat_scenario_builds_its_field() {
    let s = Scenario {
        name: String::from("flat pond"),
        kind: ScenarioKind::Flat { dimensions: (4, 4), height: 2 * SCALE },
    };
    let t = s.build_scenario().unwrap();
    assert!(t.export_height_buffer().iter().all(|v| *v == 2 * SCALE));
}

#[test]
fn out_of_range_droplet_scenario_fails() {
    let s = Scenario {
        name: String::from("bad"),
        kind: ScenarioKind::Droplets {
            dimensions: (5, 5),
            base_height: 0,
            droplets: vec![Droplet { position: (5, 0), height: SCALE }],
        },
    };
    assert!(s.build_scenario().is_none());
}

#[test]
fn zero_sized_scenario_fails() {
    let s = Scenario {
        name: String::from("empty"),
        kind: ScenarioKind::Flat { dimensions: (0, 3), height: SCALE },
    };
    assert!(s.build_scenario().is_none());
}

#[test]
fn raster_scenario_decodes_or_fails() {
    let good = Scenario {
        name: String::from("raster"),
        kind: ScenarioKind::Raster { data: b"P2 2 2 255 1 2 3 4".to_vec(), scaling: SCALE },
    };
    let t = good.build_scenario().unwrap();
    assert_eq!(t.export_height_buffer(), vec![SCALE, 2 * SCALE, 3 * SCALE, 4 * SCALE]);
    let bad = Scenario {
        name: String::from("raster"),
        kind: ScenarioKind::Raster { data: b"P2 2 2 255 1 2 3".to_vec(), scaling: SCALE },
    };
    assert!(bad.build_scenario().is_none());
}
