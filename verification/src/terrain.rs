//! The terrain aggregate: a height grid and a co-located velocity grid of the
//! same shape, with parametric generators and query/export operations.
//!
//! Heights and velocity components are fixed-point `i64` values (see
//! [`crate::fixed`]).  Cell coordinates are plain cell indices; a cone center
//! is given in fixed-point cell units, so fractional centers are expressible.
//! The velocity grid is co-located with the height grid (one planar vector
//! per cell, same `(w, h)` shape and indexing).

use crate::fixed::{
    add_sat, cell_to_fixed, fp_mul, radius_fp, sat64, spec_add_sat, spec_fp_mul, spec_radius,
    spec_sub_sat, sub_sat, SCALE,
};
use crate::grid::{grid_at, grid_in_range, grid_wf, Grid, GridModel};
use crate::solver::{advance_model, default_config, substep_model, SolverConfig};
use vstd::prelude::*;

verus! {

/// One planar flow vector: the instantaneous x- and y-direction flux rate
/// out of a cell, in fixed-point units.
#[derive(Clone, Copy, PartialEq, Eq, Structural, Debug)]
pub struct Velocity {
    pub x: i64,
    pub y: i64,
}

/// A single-cell height override applied by the droplet generator.
#[derive(Clone, Copy, Debug)]
pub struct Droplet {
    pub position: (usize, usize),
    pub height: i64,
}

/// One cell's worth of externally supplied height data.
#[derive(Clone, Copy, PartialEq, Eq, Structural, Debug)]
pub struct Tile {
    pub height: i64,
}

/// Mathematical model of a terrain: the two co-indexed grids.
#[verifier::ext_equal]
pub ghost struct TerrainModel {
    pub heights: GridModel<i64>,
    pub velocity: GridModel<Velocity>,
}

/// Both grids are well formed, share one shape, the shape is nonempty, and
/// each axis fits in `i64` (so signed coordinates can address every cell).
pub open spec fn terrain_wf(m: TerrainModel) -> bool {
    &&& grid_wf(m.heights)
    &&& grid_wf(m.velocity)
    &&& m.velocity.w == m.heights.w
    &&& m.velocity.h == m.heights.h
    &&& m.heights.w >= 1
    &&& m.heights.h >= 1
    &&& m.heights.w <= i64::MAX as int
    &&& m.heights.h <= i64::MAX as int
}

/// Every velocity cell is the zero vector.
pub open spec fn velocity_zeroed(m: TerrainModel) -> bool {
    forall|x: int, y: int|
        grid_in_range(m.velocity, x, y) ==> grid_at(m.velocity, x, y) == (Velocity { x: 0, y: 0 })
}

/// The height the cone generator assigns to cell `(x, y)`:
/// `center_height + slope * distance((x, y), center)`, where the distance is
/// Euclidean in cell-index space and `center` is in fixed-point cell units.
pub open spec fn cone_height(
    center: (i64, i64),
    center_height: i64,
    slope: i64,
    x: int,
    y: int,
) -> int {
    let dx = spec_sub_sat(sat64(x * SCALE), center.0 as int);
    let dy = spec_sub_sat(sat64(y * SCALE), center.1 as int);
    spec_add_sat(center_height as int, spec_fp_mul(spec_radius(dx, dy), slope as int))
}

/// The clamped-cone height: the cone height, floored at `min_height`.
pub open spec fn cone_flat_height(
    center: (i64, i64),
    center_height: i64,
    slope: i64,
    min_height: i64,
    x: int,
    y: int,
) -> int {
    let v = cone_height(center, center_height, slope, x, y);
    if v < min_height {
        min_height as int
    } else {
        v
    }
}

/// The cell value a cone builder produces: the cone height, floored when a
/// floor is given.
pub open spec fn cone_cell(
    center: (i64, i64),
    center_height: i64,
    slope: i64,
    floor: Option<i64>,
    x: int,
    y: int,
) -> int {
    match floor {
        None => cone_height(center, center_height, slope, x, y),
        Some(m) => cone_flat_height(center, center_height, slope, m, x, y),
    }
}

/// The height the droplet generator assigns to cell `(x, y)`: the height of
/// the last override that targets the cell, else the base height.
pub open spec fn droplet_value(drops: Seq<Droplet>, x: int, y: int, base: i64) -> int
    decreases drops.len(),
{
    if drops.len() == 0 {
        base as int
    } else if drops.last().position.0 == x && drops.last().position.1 == y {
        drops.last().height as int
    } else {
        droplet_value(drops.drop_last(), x, y, base)
    }
}

/// Clamp a signed coordinate onto the axis `[0, d)`.
pub open spec fn clamp_axis(i: int, d: int) -> int {
    if i >= d {
        d - 1
    } else if i < 0 {
        0
    } else {
        i
    }
}

/// The terrain aggregate: one height field, one velocity field, one shape.
pub struct Terrain {
    heights: Grid<i64>,
    velocity: Grid<Velocity>,
    dimensions: (usize, usize),
}

impl View for Terrain {
    type V = TerrainModel;

    closed spec fn view(&self) -> TerrainModel {
        TerrainModel { heights: self.heights@, velocity: self.velocity@ }
    }
}

impl Terrain {
    /// The aggregate invariant: the model is well formed and the cached
    /// dimensions agree with the grids.
    pub closed spec fn wf(&self) -> bool {
        terrain_wf(self@) && self.dimensions.0 == self@.heights.w && self.dimensions.1
            == self@.heights.h
    }

    /// A well-formed terrain has a well-formed model, so clients outside
    /// this module can pass from `wf` to the model-level facts the public
    /// lemmas ask for.
    pub proof fn wf_implies_model_wf(&self)
        requires
            self.wf(),
        ensures
            terrain_wf(self@),
    {
    }

    /// Preconditions every generator shares: a nonempty shape whose axes fit
    /// in `i64` and whose cell count fits in `usize`.
    pub open spec fn dims_ok(dimensions: (usize, usize)) -> bool {
        &&& dimensions.0 >= 1
        &&& dimensions.1 >= 1
        &&& dimensions.0 as int <= i64::MAX as int
        &&& dimensions.1 as int <= i64::MAX as int
        &&& dimensions.0 * dimensions.1 <= usize::MAX
    }

    /// Rebuild a terrain from a verified height buffer, with zero velocity.
    fn assemble(heights: Vec<i64>, dimensions: (usize, usize)) -> (r: Terrain)
        requires
            Self::dims_ok(dimensions),
            heights@.len() == dimensions.0 * dimensions.1,
        ensures
            r.wf(),
            r@.heights.w == dimensions.0,
            r@.heights.h == dimensions.1,
            r@.heights.cells == heights@,
            velocity_zeroed(r@),
    {
        Terrain {
            heights: Grid::from_values(heights, dimensions),
            velocity: Grid::filled(Velocity { x: 0, y: 0 }, dimensions),
            dimensions,
        }
    }

    /// The terrain's shape, as `(w, h)`.
    pub fn dimensions(&self) -> (r: (usize, usize))
        requires
            self.wf(),
        ensures
            r.0 == self@.heights.w,
            r.1 == self@.heights.h,
    {
        self.dimensions
    }

    /// Every cell set to the constant `height`; velocity zeroed everywhere.
    pub fn flat(dimensions: (usize, usize), height: i64) -> (r: Terrain)
        requires
            Self::dims_ok(dimensions),
        ensures
            r.wf(),
            r@.heights.w == dimensions.0,
            r@.heights.h == dimensions.1,
            forall|x: int, y: int|
                grid_in_range(r@.heights, x, y) ==> grid_at(r@.heights, x, y) == height,
            velocity_zeroed(r@),
    {
        Terrain {
            heights: Grid::filled(height, dimensions),
            velocity: Grid::filled(Velocity { x: 0, y: 0 }, dimensions),
            dimensions,
        }
    }

    /// Wrap an already-computed row-major height buffer; velocity zeroed.
    pub fn from_tiles(heights: Vec<i64>, dimensions: (usize, usize)) -> (r: Terrain)
        requires
            Self::dims_ok(dimensions),
            heights@.len() == dimensions.0 * dimensions.1,
        ensures
            r.wf(),
            r@.heights.w == dimensions.0,
            r@.heights.h == dimensions.1,
            r@.heights.cells == heights@,
            velocity_zeroed(r@),
    {
        Self::assemble(heights, dimensions)
    }

    /// The row-major cone height buffer, optionally floored.
    fn cone_buffer(
        dimensions: (usize, usize),
        center: (i64, i64),
        center_height: i64,
        slope: i64,
        floor: Option<i64>,
    ) -> (r: Vec<i64>)
        requires
            Self::dims_ok(dimensions),
        ensures
            r@.len() == dimensions.0 * dimensions.1,
            forall|x: int, y: int|
                0 <= x < dimensions.0 && 0 <= y < dimensions.1 ==> r@[x * dimensions.1 + y]
                    == cone_cell(center, center_height, slope, floor, x, y),
    {
        let w = dimensions.0;
        let h = dimensions.1;
        let mut out: Vec<i64> = Vec::new();
        let mut x: usize = 0;
        while x < w
            invariant
                x <= w,
                w == dimensions.0,
                h == dimensions.1,
                Self::dims_ok(dimensions),
                out@.len() == x * h,
                forall|xx: int, yy: int|
                    0 <= xx < x && 0 <= yy < h ==> out@[xx * h + yy] == cone_cell(
                        center,
                        center_height,
                        slope,
                        floor,
                        xx,
                        yy,
                    ),
            decreases w - x,
        {
            let mut y: usize = 0;
            while y < h
                invariant
                    x < w,
                    y <= h,
                    w == dimensions.0,
                    h == dimensions.1,
                    Self::dims_ok(dimensions),
                    out@.len() == x * h + y,
                    forall|xx: int, yy: int|
                        0 <= xx < x && 0 <= yy < h ==> out@[xx * h + yy] == cone_cell(
                            center,
                            center_height,
                            slope,
                            floor,
                            xx,
                            yy,
                        ),
                    forall|yy: int|
                        0 <= yy < y ==> out@[x as int * h + yy] == cone_cell(
                            center,
                            center_height,
                            slope,
                            floor,
                            x as int,
                            yy,
                        ),
                decreases h - y,
            {
                proof {
                    crate::grid::lemma_row_major_index_bound(w as int, h as int, x as int, y as int);
                    assert(x as int * h + y < w as int * h <= usize::MAX);
                }
                let dx = sub_sat(cell_to_fixed(x), center.0);
                let dy = sub_sat(cell_to_fixed(y), center.1);
                let mut v = add_sat(center_height, fp_mul(radius_fp(dx, dy), slope));
                match floor {
                    Some(m) => {
                        if v < m {
                            v = m;
                        }
                    },
                    None => {},
                }
                out.push(v);
                proof {
                    assert forall|xx: int, yy: int| 0 <= xx < x && 0 <= yy < h implies out@[xx * h
                        + yy] == cone_cell(center, center_height, slope, floor, xx, yy) by {
                        crate::grid::lemma_row_major_index_bound(x as int, h as int, xx, yy);
                    }
                }
                y = y + 1;
            }
            proof {
                assert(x as int * h + h == (x as int + 1) * h) by (nonlinear_arith);
                assert forall|xx: int, yy: int| 0 <= xx < x + 1 && 0 <= yy < h implies out@[xx * h
                    + yy] == cone_cell(center, center_height, slope, floor, xx, yy) by {
                    crate::grid::lemma_row_major_index_bound(x as int + 1, h as int, xx, yy);
                }
            }
            x = x + 1;
        }
        out
    }

    /// Cone terrain: height rises (or falls) linearly with the Euclidean
    /// distance from `center`, starting at `center_height`; velocity zeroed.
    pub fn new_cone(
        dimensions: (usize, usize),
        center: (i64, i64),
        center_height: i64,
        slope: i64,
    ) -> (r: Terrain)
        requires
            Self::dims_ok(dimensions),
        ensures
            r.wf(),
            r@.heights.w == dimensions.0,
            r@.heights.h == dimensions.1,
            forall|x: int, y: int|
                grid_in_range(r@.heights, x, y) ==> grid_at(r@.heights, x, y) == cone_height(
                    center,
                    center_height,
                    slope,
                    x,
                    y,
                ),
            velocity_zeroed(r@),
    {
        let heights = Self::cone_buffer(dimensions, center, center_height, slope, None);
        let t = Self::assemble(heights, dimensions);
        proof {
            assert forall|x: int, y: int| grid_in_range(t@.heights, x, y) implies grid_at(
                t@.heights,
                x,
                y,
            ) == cone_height(center, center_height, slope, x, y) by {
                crate::grid::lemma_row_major_index_bound(t@.heights.w, t@.heights.h, x, y);
                assert(heights@[x * dimensions.1 + y] == cone_cell(
                    center,
                    center_height,
                    slope,
                    None,
                    x,
                    y,
                ));
            }
        }
        t
    }

    /// Cone terrain with a floor: like `new_cone`, but no cell's height goes
    /// below `min_height`.
    pub fn cone_flat(
        dimensions: (usize, usize),
        center: (i64, i64),
        center_height: i64,
        slope: i64,
        min_height: i64,
    ) -> (r: Terrain)
        requires
            Self::dims_ok(dimensions),
        ensures
            r.wf(),
            r@.heights.w == dimensions.0,
            r@.heights.h == dimensions.1,
            forall|x: int, y: int|
                grid_in_range(r@.heights, x, y) ==> grid_at(r@.heights, x, y) == cone_flat_height(
                    center,
                    center_height,
                    slope,
                    min_height,
                    x,
                    y,
                ),
            forall|x: int, y: int|
                grid_in_range(r@.heights, x, y) ==> grid_at(r@.heights, x, y) >= min_height,
            velocity_zeroed(r@),
    {
        let heights = Self::cone_buffer(dimensions, center, center_height, slope, Some(min_height));
        let t = Self::assemble(heights, dimensions);
        proof {
            assert forall|x: int, y: int| grid_in_range(t@.heights, x, y) implies grid_at(
                t@.heights,
                x,
                y,
            ) == cone_flat_height(center, center_height, slope, min_height, x, y) by {
                crate::grid::lemma_row_major_index_bound(t@.heights.w, t@.heights.h, x, y);
                assert(heights@[x * dimensions.1 + y] == cone_cell(
                    center,
                    center_height,
                    slope,
                    Some(min_height),
                    x,
                    y,
                ));
            }
        }
        t
    }

    /// Base height everywhere, then each override replaces exactly its target
    /// cell; later overrides win on collision.  Every override position must
    /// be in range.
    pub fn droplet(dimensions: (usize, usize), height: i64, droplets: Vec<Droplet>) -> (r: Terrain)
        requires
            Self::dims_ok(dimensions),
            forall|i: int|
                0 <= i < droplets@.len() ==> (#[trigger] droplets@[i]).position.0 < dimensions.0
                    && droplets@[i].position.1 < dimensions.1,
        ensures
            r.wf(),
            r@.heights.w == dimensions.0,
            r@.heights.h == dimensions.1,
            forall|x: int, y: int|
                grid_in_range(r@.heights, x, y) ==> grid_at(r@.heights, x, y) == droplet_value(
                    droplets@,
                    x,
                    y,
                    height,
                ),
            velocity_zeroed(r@),
    {
        let mut grid: Grid<i64> = Grid::filled(height, dimensions);
        let mut i: usize = 0;
        let n = droplets.len();
        while i < n
            invariant
                i <= n,
                n == droplets@.len(),
                Self::dims_ok(dimensions),
                forall|k: int|
                    0 <= k < n ==> (#[trigger] droplets@[k]).position.0 < dimensions.0
                        && droplets@[k].position.1 < dimensions.1,
                grid_wf(grid@),
                grid@.w == dimensions.0,
                grid@.h == dimensions.1,
                forall|x: int, y: int|
                    grid_in_range(grid@, x, y) ==> grid_at(grid@, x, y) == droplet_value(
                        droplets@.take(i as int),
                        x,
                        y,
                        height,
                    ),
            decreases n - i,
        {
            let d = droplets[i];
            let ghost pre = grid@;
            let cell = grid.get_mut_unchecked(d.position.0, d.position.1);
            *cell = d.height;
            proof {
                let prev = droplets@.take(i as int);
                let cur = droplets@.take(i as int + 1);
                assert(cur.drop_last() =~= prev);
                assert(cur.last() == droplets@[i as int]);
                crate::grid::lemma_row_major_index_bound(
                    grid@.w,
                    grid@.h,
                    d.position.0 as int,
                    d.position.1 as int,
                );
                assert forall|x: int, y: int| grid_in_range(grid@, x, y) implies grid_at(
                    grid@,
                    x,
                    y,
                ) == droplet_value(cur, x, y, height) by {
                    crate::grid::lemma_row_major_index_bound(grid@.w, grid@.h, x, y);
                    assert(grid_at(pre, x, y) == droplet_value(prev, x, y, height));
                    if x == d.position.0 && y == d.position.1 {
                    } else {
                        assert(x * grid@.h + y != d.position.0 as int * grid@.h
                            + d.position.1 as int) by (nonlinear_arith)
                            requires
                                0 <= x < grid@.w,
                                0 <= y < grid@.h,
                                0 <= d.position.0 < grid@.w,
                                0 <= d.position.1 < grid@.h,
                                !(x == d.position.0 && y == d.position.1),
                        ;
                    }
                }
            }
            i = i + 1;
        }
        proof {
            assert(droplets@.take(n as int) =~= droplets@);
        }
        let heights = grid.to_values();
        Self::assemble(heights, dimensions)
    }

    /// The world-space sample `(x, height, y)` at an exact integer cell, or
    /// absent when the coordinate is out of range.
    pub fn get_transform(&self, coordinate: (i64, i64)) -> (r: Option<(i64, i64, i64)>)
        requires
            self.wf(),
        ensures
            match r {
                Some(t) => grid_in_range(self@.heights, coordinate.0 as int, coordinate.1 as int)
                    && t.0 == coordinate.0 && t.2 == coordinate.1 && t.1 == grid_at(
                    self@.heights,
                    coordinate.0 as int,
                    coordinate.1 as int,
                ),
                None => !grid_in_range(self@.heights, coordinate.0 as int, coordinate.1 as int),
            },
    {
        match self.heights.get(coordinate) {
            Some(height) => Some((coordinate.0, *height, coordinate.1)),
            None => None,
        }
    }

    /// The sample at the nearest cell: each axis of the coordinate is clamped
    /// into `[0, dimension - 1]`, so this never fails.
    pub fn get_transform_rounded(&self, coordinate: (i64, i64)) -> (r: (i64, i64, i64))
        requires
            self.wf(),
        ensures
            r.0 == clamp_axis(coordinate.0 as int, self@.heights.w),
            r.2 == clamp_axis(coordinate.1 as int, self@.heights.h),
            r.1 == grid_at(
                self@.heights,
                clamp_axis(coordinate.0 as int, self@.heights.w),
                clamp_axis(coordinate.1 as int, self@.heights.h),
            ),
    {
        let w = self.dimensions.0 as i64;
        let h = self.dimensions.1 as i64;
        let cx = if coordinate.0 >= w {
            w - 1
        } else if coordinate.0 < 0 {
            0i64
        } else {
            coordinate.0
        };
        let cy = if coordinate.1 >= h {
            h - 1
        } else if coordinate.1 < 0 {
            0i64
        } else {
            coordinate.1
        };
        let height = *self.heights.get_unchecked(cx as usize, cy as usize);
        (cx, height, cy)
    }

    /// Advance the simulation by `cfg.substep_count` predictor-corrector
    /// sub-steps of the solver, in place.
    pub fn advance(&mut self, cfg: &SolverConfig)
        requires
            old(self).wf(),
        ensures
            final(self).wf(),
            final(self)@ == advance_model(old(self)@, *cfg, cfg.substep_count as nat),
            final(self)@.heights.w == old(self)@.heights.w,
            final(self)@.heights.h == old(self)@.heights.h,
    {
        let ghost m0 = self@;
        let mut i: usize = 0;
        while i < cfg.substep_count
            invariant
                self.wf(),
                i <= cfg.substep_count,
                self@ == advance_model(m0, *cfg, i as nat),
            decreases cfg.substep_count - i,
        {
            let half_v = crate::solver::update_velocity(&self.heights, &self.velocity, cfg);
            let half_h = crate::solver::update_water(
                &self.heights,
                &self.velocity,
                &self.heights,
                cfg,
            );
            let new_v = crate::solver::update_velocity(&half_h, &self.velocity, cfg);
            let new_h = crate::solver::update_water(&half_h, &half_v, &self.heights, cfg);
            let ghost prev = self@;
            self.velocity = new_v;
            self.heights = new_h;
            proof {
                assert(self@ =~= substep_model(prev, *cfg));
                assert(advance_model(m0, *cfg, (i + 1) as nat) == substep_model(
                    advance_model(m0, *cfg, i as nat),
                    *cfg,
                ));
            }
            i = i + 1;
        }
        proof {
            crate::solver::lemma_advance_preserves_shape(m0, *cfg, cfg.substep_count as nat);
        }
    }

    /// Advance the simulation with the default solver constants.
    pub fn water_simulation(&mut self)
        requires
            old(self).wf(),
        ensures
            final(self).wf(),
            final(self)@ == advance_model(
                old(self)@,
                default_config(),
                default_config().substep_count as nat,
            ),
            final(self)@.heights.w == old(self)@.heights.w,
            final(self)@.heights.h == old(self)@.heights.h,
    {
        let cfg = SolverConfig::default();
        self.advance(&cfg);
    }

    /// A copy of the height grid in row-major order, for mesh construction.
    pub fn export_height_buffer(&self) -> (r: Vec<i64>)
        requires
            self.wf(),
        ensures
            r@ == self@.heights.cells,
    {
        self.heights.to_values()
    }
}

/// A zero-slope cone is a uniform field at `center_height`, wherever its
/// center lies.
pub proof fn lemma_cone_zero_slope(center: (i64, i64), center_height: i64, x: int, y: int)
    ensures
        cone_height(center, center_height, 0, x, y) == center_height,
{
    let dx = spec_sub_sat(sat64(x * SCALE), center.0 as int);
    let dy = spec_sub_sat(sat64(y * SCALE), center.1 as int);
    assert(spec_radius(dx, dy) * 0 == 0);
}

/// A cell that no droplet override targets keeps the base height.
pub proof fn lemma_droplet_untouched(drops: Seq<Droplet>, x: int, y: int, base: i64)
    requires
        forall|i: int|
            0 <= i < drops.len() ==> !((#[trigger] drops[i]).position.0 == x && drops[i].position.1
                == y),
    ensures
        droplet_value(drops, x, y, base) == base,
    decreases drops.len(),
{
    if drops.len() > 0 {
        assert(drops.last() == drops[drops.len() - 1]);
        lemma_droplet_untouched(drops.drop_last(), x, y, base);
    }
}

/// The last override that targets a cell decides that cell's height.
pub proof fn lemma_droplet_last_wins(drops: Seq<Droplet>, i: int, base: i64)
    requires
        0 <= i < drops.len(),
        forall|j: int|
            i < j < drops.len() ==> !((#[trigger] drops[j]).position.0 == drops[i].position.0
                && drops[j].position.1 == drops[i].position.1),
    ensures
        droplet_value(drops, drops[i].position.0 as int, drops[i].position.1 as int, base)
            == drops[i].height,
    decreases drops.len(),
{
    if i == drops.len() - 1 {
    } else {
        assert(drops.drop_last()[i] == drops[i]);
        lemma_droplet_last_wins(drops.drop_last(), i, base);
    }
}

/// Inside the grid, the clamped sample agrees with the exact integer sample;
/// outside, it is the sample at the nearest boundary cell.
pub proof fn lemma_rounded_matches_exact(m: TerrainModel, cx: int, cy: int)
    requires
        terrain_wf(m),
    ensures
        grid_in_range(m.heights, cx, cy) ==> clamp_axis(cx, m.heights.w) == cx && clamp_axis(
            cy,
            m.heights.h,
        ) == cy,
        cx >= m.heights.w ==> clamp_axis(cx, m.heights.w) == m.heights.w - 1,
        cx < 0 ==> clamp_axis(cx, m.heights.w) == 0,
        cy >= m.heights.h ==> clamp_axis(cy, m.heights.h) == m.heights.h - 1,
        cy < 0 ==> clamp_axis(cy, m.heights.h) == 0,
{
}

} // verus!
