//! Scenario descriptors: a named, tagged recipe for an initial terrain.
//!
//! Each scenario carries the parameters of one generator kind as plain
//! data, so building a terrain from it is a pure function of the
//! descriptor; the same descriptor always builds the same field.

use crate::fixed::SCALE;
use crate::grid::{grid_at, grid_in_range};
use crate::pgm::{decode_pgm, spec_decode};
use crate::terrain::{
    cone_flat_height, cone_height, droplet_value, velocity_zeroed, Droplet, Terrain, TerrainModel,
};
use vstd::prelude::*;

verus! {

/// The closed set of generator kinds, each with its parameters.  Cone
/// centers and all heights are fixed-point values; dimensions and droplet
/// positions are cell indices.
pub enum ScenarioKind {
    /// A constant field.
    Flat { dimensions: (usize, usize), height: i64 },
    /// A radial cone.
    Cone { dimensions: (usize, usize), center: (i64, i64), center_height: i64, slope: i64 },
    /// A radial cone floored at `min_height`.
    ConeFlat {
        dimensions: (usize, usize),
        center: (i64, i64),
        center_height: i64,
        slope: i64,
        min_height: i64,
    },
    /// A constant base with point overrides.
    Droplets { dimensions: (usize, usize), base_height: i64, droplets: Vec<Droplet> },
    /// A raster text image, scaled.
    Raster { data: Vec<u8>, scaling: i64 },
}

/// A scenario can build a terrain: its shape is usable and its parameters
/// are in range.
pub open spec fn scenario_valid(k: ScenarioKind) -> bool {
    match k {
        ScenarioKind::Flat { dimensions, .. } => Terrain::dims_ok(dimensions),
        ScenarioKind::Cone { dimensions, .. } => Terrain::dims_ok(dimensions),
        ScenarioKind::ConeFlat { dimensions, .. } => Terrain::dims_ok(dimensions),
        ScenarioKind::Droplets { dimensions, droplets, .. } => Terrain::dims_ok(dimensions)
            && forall|i: int|
            0 <= i < droplets@.len() ==> (#[trigger] droplets@[i]).position.0 < dimensions.0
                && droplets@[i].position.1 < dimensions.1,
        ScenarioKind::Raster { data, scaling } => spec_decode(data@, scaling as int) is Ok,
    }
}

/// The terrain a scenario describes: the generator's exact field, with
/// velocity zeroed.
pub open spec fn scenario_terrain(k: ScenarioKind, m: TerrainModel) -> bool {
    match k {
        ScenarioKind::Flat { dimensions, height } => {
            &&& m.heights.w == dimensions.0
            &&& m.heights.h == dimensions.1
            &&& forall|x: int, y: int|
                grid_in_range(m.heights, x, y) ==> grid_at(m.heights, x, y) == height
            &&& velocity_zeroed(m)
        },
        ScenarioKind::Cone { dimensions, center, center_height, slope } => {
            &&& m.heights.w == dimensions.0
            &&& m.heights.h == dimensions.1
            &&& forall|x: int, y: int|
                grid_in_range(m.heights, x, y) ==> grid_at(m.heights, x, y) == cone_height(
                    center,
                    center_height,
                    slope,
                    x,
                    y,
                )
            &&& velocity_zeroed(m)
        },
        ScenarioKind::ConeFlat { dimensions, center, center_height, slope, min_height } => {
            &&& m.heights.w == dimensions.0
            &&& m.heights.h == dimensions.1
            &&& forall|x: int, y: int|
                grid_in_range(m.heights, x, y) ==> grid_at(m.heights, x, y) == cone_flat_height(
                    center,
                    center_height,
                    slope,
                    min_height,
                    x,
                    y,
                )
            &&& velocity_zeroed(m)
        },
        ScenarioKind::Droplets { dimensions, base_height, droplets } => {
            &&& m.heights.w == dimensions.0
            &&& m.heights.h == dimensions.1
            &&& forall|x: int, y: int|
                grid_in_range(m.heights, x, y) ==> grid_at(m.heights, x, y) == droplet_value(
                    droplets@,
                    x,
                    y,
                    base_height,
                )
            &&& velocity_zeroed(m)
        },
        ScenarioKind::Raster { data, scaling } => {
            &&& spec_decode(data@, scaling as int) matches Ok(v) && m.heights.w == v.0
                && m.heights.h == v.1 && m.heights.cells == v.2
            &&& velocity_zeroed(m)
        },
    }
}

/// A named terrain recipe.
pub struct Scenario {
    pub name: String,
    pub kind: ScenarioKind,
}

impl Scenario {
    /// Build the terrain this scenario describes, or nothing when its
    /// parameters are unusable (bad shape, an override out of range, or a
    /// raster that does not decode).
    #[verifier::loop_isolation(false)]
    pub fn build_scenario(&self) -> (r: Option<Terrain>)
        ensures
            r is Some <==> scenario_valid(self.kind),
            r matches Some(t) ==> t.wf() && scenario_terrain(self.kind, t@),
    {
        match &self.kind {
            ScenarioKind::Flat { dimensions, height } => {
                let dims = *dimensions;
                if !dims_usable(dims) {
                    return None;
                }
                Some(Terrain::flat(dims, *height))
            },
            ScenarioKind::Cone { dimensions, center, center_height, slope } => {
                let dims = *dimensions;
                if !dims_usable(dims) {
                    return None;
                }
                Some(Terrain::new_cone(dims, *center, *center_height, *slope))
            },
            ScenarioKind::ConeFlat { dimensions, center, center_height, slope, min_height } => {
                let dims = *dimensions;
                if !dims_usable(dims) {
                    return None;
                }
                Some(Terrain::cone_flat(dims, *center, *center_height, *slope, *min_height))
            },
            ScenarioKind::Droplets { dimensions, base_height, droplets } => {
                let dims = *dimensions;
                if !dims_usable(dims) {
                    return None;
                }
                let n = droplets.len();
                let mut ds: Vec<Droplet> = Vec::new();
                let mut i: usize = 0;
                while i < n
                    invariant
                        i <= n,
                        n == droplets@.len(),
                        ds@ == droplets@.take(i as int),
                        forall|k: int|
                            0 <= k < i ==> (#[trigger] droplets@[k]).position.0 < dims.0
                                && droplets@[k].position.1 < dims.1,
                    decreases n - i,
                {
                    let d = droplets[i];
                    if d.position.0 >= dims.0 || d.position.1 >= dims.1 {
                        return None;
                    }
                    ds.push(d);
                    proof {
                        assert(ds@ =~= droplets@.take(i as int + 1));
                    }
                    i = i + 1;
                }
                proof {
                    assert(ds@ =~= droplets@);
                }
                Some(Terrain::droplet(dims, *base_height, ds))
            },
            ScenarioKind::Raster { data, scaling } => {
                match decode_pgm(data, *scaling) {
                    Ok(t) => Some(t),
                    Err(_) => None,
                }
            },
        }
    }
}

/// Runtime test of `Terrain::dims_ok`.
fn dims_usable(dimensions: (usize, usize)) -> (r: bool)
    ensures
        r == Terrain::dims_ok(dimensions),
{
    dimensions.0 >= 1 && dimensions.1 >= 1 && (dimensions.0 as u64) <= i64::MAX as u64
        && (dimensions.1 as u64) <= i64::MAX as u64 && {
        match dimensions.0.checked_mul(dimensions.1) {
            Some(_) => true,
            None => false,
        }
    }
}

/// The built-in scenario list.
pub struct TerrainLibrary {
    pub entries: Vec<Scenario>,
}

impl Default for TerrainLibrary {
    /// Three ready scenarios: one droplet, a broad sloped basin, and many
    /// droplets, all on modest grids.
    fn default() -> (r: TerrainLibrary)
        ensures
            r.entries@.len() == 3,
            forall|i: int| 0 <= i < 3 ==> scenario_valid((#[trigger] r.entries@[i]).kind),
            r.entries@[0].name@ == "Droplet"@,
            r.entries@[0].kind matches ScenarioKind::Droplets { dimensions, base_height, droplets }
                && dimensions == (20usize, 20usize) && base_height == SCALE && droplets@.len() == 1
                && droplets@[0].position.0 == 10 && droplets@[0].position.1 == 10
                && droplets@[0].height == 6 * SCALE,
            r.entries@[1].name@ == "Big Droplet"@,
            r.entries@[1].kind matches ScenarioKind::ConeFlat {
                dimensions,
                center,
                center_height,
                slope,
                min_height,
            } && dimensions == (100usize, 100usize) && center.0 == 50 * SCALE && center.1 == 50
                * SCALE && center_height == 5 * SCALE && slope == -SCALE / 2 && min_height == 0,
            r.entries@[2].name@ == "Many Droplets"@,
            r.entries@[2].kind matches ScenarioKind::Droplets { dimensions, base_height, droplets }
                && dimensions == (50usize, 50usize) && base_height == SCALE && droplets@
                == many_droplets(),
    {
        proof {
            reveal_strlit("Droplet");
            reveal_strlit("Big Droplet");
            reveal_strlit("Many Droplets");
        }
        let single = Scenario {
            name: String::from_str("Droplet"),
            kind: ScenarioKind::Droplets {
                dimensions: (20, 20),
                base_height: SCALE,
                droplets: droplet_list_single(),
            },
        };
        let basin = Scenario {
            name: String::from_str("Big Droplet"),
            kind: ScenarioKind::ConeFlat {
                dimensions: (100, 100),
                center: (50 * SCALE, 50 * SCALE),
                center_height: 5 * SCALE,
                slope: -SCALE / 2,
                min_height: 0,
            },
        };
        let many = Scenario {
            name: String::from_str("Many Droplets"),
            kind: ScenarioKind::Droplets {
                dimensions: (50, 50),
                base_height: SCALE,
                droplets: droplet_list_many(),
            },
        };
        proof {
            assert(scenario_valid(single.kind));
            assert(scenario_valid(basin.kind));
            assert(scenario_valid(many.kind));
        }
        let mut entries: Vec<Scenario> = Vec::new();
        entries.push(single);
        entries.push(basin);
        entries.push(many);
        TerrainLibrary { entries }
    }
}

/// The one override of the single-droplet scenario.
fn droplet_list_single() -> (r: Vec<Droplet>)
    ensures
        r@.len() == 1,
        r@[0].position.0 == 10,
        r@[0].position.1 == 10,
        r@[0].height == 6 * SCALE,
        forall|i: int|
            0 <= i < r@.len() ==> (#[trigger] r@[i]).position.0 < 20 && r@[i].position.1 < 20,
{
    let mut v: Vec<Droplet> = Vec::new();
    v.push(Droplet { position: (10, 10), height: 6 * SCALE });
    v
}

/// The overrides of the many-droplets scenario: seven spots, each raised
/// to 6.0.
pub open spec fn many_droplets() -> Seq<Droplet> {
    seq![
        Droplet { position: (10, 10), height: (6 * SCALE) as i64 },
        Droplet { position: (20, 20), height: (6 * SCALE) as i64 },
        Droplet { position: (0, 10), height: (6 * SCALE) as i64 },
        Droplet { position: (23, 28), height: (6 * SCALE) as i64 },
        Droplet { position: (43, 38), height: (6 * SCALE) as i64 },
        Droplet { position: (33, 8), height: (6 * SCALE) as i64 },
        Droplet { position: (2, 44), height: (6 * SCALE) as i64 },
    ]
}

/// Build the overrides of the many-droplets scenario.
fn droplet_list_many() -> (r: Vec<Droplet>)
    ensures
        r@ == many_droplets(),
        r@.len() == 7,
        forall|i: int|
            0 <= i < r@.len() ==> (#[trigger] r@[i]).position.0 < 50 && r@[i].position.1 < 50,
{
    let mut v: Vec<Droplet> = Vec::new();
    v.push(Droplet { position: (10, 10), height: 6 * SCALE });
    v.push(Droplet { position: (20, 20), height: 6 * SCALE });
    v.push(Droplet { position: (0, 10), height: 6 * SCALE });
    v.push(Droplet { position: (23, 28), height: 6 * SCALE });
    v.push(Droplet { position: (43, 38), height: 6 * SCALE });
    v.push(Droplet { position: (33, 8), height: 6 * SCALE });
    v.push(Droplet { position: (2, 44), height: 6 * SCALE });
    proof {
        assert(v@ =~= many_droplets());
    }
    v
}

} // verus!
