//! The height/velocity relaxation solver.
//!
//! One `advance` call runs a fixed number of predictor-corrector sub-steps.
//! Each sub-step first computes a half-step velocity field and a half-step
//! height field from the current state, then recomputes the full-step
//! velocity and height from the half-step state.  Boundary handling: a
//! missing low neighbor contributes a zero gradient, the low-edge velocity
//! component is pinned to zero, and at the high edges the neighbor height
//! clamps to the cell's own height while the neighbor velocity is zero, so
//! no flux crosses the domain boundary.
//!
//! All arithmetic is the saturating fixed-point arithmetic of
//! [`crate::fixed`]; the kernels below are specified cell by cell, exactly.

use crate::fixed::{
    add_sat, fp_mul, half_trunc, spec_add_sat, spec_fp_mul, spec_half, spec_sub_sat, sub_sat,
};
use crate::grid::{
    grid_at, grid_from_fn, grid_in_range, grid_wf, lemma_grid_from_fn_at, lemma_grid_pointwise_eq,
    lemma_row_major_index_bound, Grid, GridModel,
};
use crate::terrain::{velocity_zeroed, terrain_wf, TerrainModel, Velocity};
use vstd::prelude::*;

verus! {

/// The solver's tunable constants, all fixed-point except the sub-step
/// count: `gravity` scales the height gradient into a velocity change,
/// `viscosity` is the per-sub-step damping fraction, `time_step` the
/// integration interval, and `substep_count` the sub-steps per `advance`.
#[derive(Clone, Copy, PartialEq, Eq, Structural, Debug)]
pub struct SolverConfig {
    pub gravity: i64,
    pub viscosity: i64,
    pub time_step: i64,
    pub substep_count: usize,
}

/// The default constants: `time_step` 0.01, `gravity` 0.1, `viscosity`
/// 0.0002, and 20 sub-steps per call.
pub open spec fn default_config() -> SolverConfig {
    SolverConfig { gravity: 100_000, viscosity: 200, time_step: 10_000, substep_count: 20 }
}

impl Default for SolverConfig {
    fn default() -> (r: SolverConfig)
        ensures
            r == default_config(),
    {
        SolverConfig { gravity: 100_000, viscosity: 200, time_step: 10_000, substep_count: 20 }
    }
}

/// The new velocity of cell `(x, y)`: each component gains the height
/// gradient toward the low neighbor scaled by `time_step * gravity`, is
/// damped by `viscosity`, and is pinned to zero on the low edge.
pub open spec fn vel_cell(
    hs: GridModel<i64>,
    base: GridModel<Velocity>,
    cfg: SolverConfig,
    x: int,
    y: int,
) -> Velocity {
    let c = grid_at(hs, x, y) as int;
    let gx = if x > 0 {
        spec_sub_sat(grid_at(hs, x - 1, y) as int, c)
    } else {
        0
    };
    let gy = if y > 0 {
        spec_sub_sat(grid_at(hs, x, y - 1) as int, c)
    } else {
        0
    };
    let b = grid_at(base, x, y);
    let tx = spec_add_sat(
        b.x as int,
        spec_fp_mul(spec_fp_mul(gx, cfg.time_step as int), cfg.gravity as int),
    );
    let txd = spec_sub_sat(tx, spec_fp_mul(tx, cfg.viscosity as int));
    let ty = spec_add_sat(
        b.y as int,
        spec_fp_mul(spec_fp_mul(gy, cfg.time_step as int), cfg.gravity as int),
    );
    let tyd = spec_sub_sat(ty, spec_fp_mul(ty, cfg.viscosity as int));
    Velocity {
        x: if x == 0 {
            0
        } else {
            txd as i64
        },
        y: if y == 0 {
            0
        } else {
            tyd as i64
        },
    }
}

/// The new height of cell `(x, y)`: the applied height minus the net
/// face-averaged outflow, scaled by `time_step`.  Missing neighbors clamp to
/// the cell's own height with zero velocity (closed boundary).
pub open spec fn water_cell(
    hs: GridModel<i64>,
    vs: GridModel<Velocity>,
    ap: GridModel<i64>,
    cfg: SolverConfig,
    x: int,
    y: int,
) -> i64 {
    let c = grid_at(hs, x, y) as int;
    let hyn1 = if y > 0 {
        grid_at(hs, x, y - 1) as int
    } else {
        c
    };
    let hxn1 = if x > 0 {
        grid_at(hs, x - 1, y) as int
    } else {
        c
    };
    let hy1 = if y + 1 < hs.h {
        grid_at(hs, x, y + 1) as int
    } else {
        c
    };
    let vy1 = if y + 1 < hs.h {
        grid_at(vs, x, y + 1).y as int
    } else {
        0
    };
    let hx1 = if x + 1 < hs.w {
        grid_at(hs, x + 1, y) as int
    } else {
        c
    };
    let ux1 = if x + 1 < hs.w {
        grid_at(vs, x + 1, y).x as int
    } else {
        0
    };
    let uy0 = grid_at(vs, x, y).y as int;
    let ux0 = grid_at(vs, x, y).x as int;
    let axn1 = spec_half(spec_add_sat(hxn1, c));
    let ax1 = spec_half(spec_add_sat(hx1, c));
    let ayn1 = spec_half(spec_add_sat(hyn1, c));
    let ay1 = spec_half(spec_add_sat(hy1, c));
    let dx = spec_sub_sat(spec_fp_mul(ux1, ax1), spec_fp_mul(ux0, axn1));
    let dy = spec_sub_sat(spec_fp_mul(vy1, ay1), spec_fp_mul(uy0, ayn1));
    spec_sub_sat(
        grid_at(ap, x, y) as int,
        spec_fp_mul(spec_add_sat(dx, dy), cfg.time_step as int),
    ) as i64
}

/// The whole new velocity grid.
pub open spec fn vel_grid(
    hs: GridModel<i64>,
    base: GridModel<Velocity>,
    cfg: SolverConfig,
) -> GridModel<Velocity> {
    grid_from_fn(hs.w, hs.h, |x: int, y: int| vel_cell(hs, base, cfg, x, y))
}

/// The whole new height grid.
pub open spec fn water_grid(
    hs: GridModel<i64>,
    vs: GridModel<Velocity>,
    ap: GridModel<i64>,
    cfg: SolverConfig,
) -> GridModel<i64> {
    grid_from_fn(hs.w, hs.h, |x: int, y: int| water_cell(hs, vs, ap, cfg, x, y))
}

/// One predictor-corrector sub-step: half-step fields from the current
/// state, then the full step computed from the half-step state and applied
/// to the current state.
pub open spec fn substep_model(m: TerrainModel, cfg: SolverConfig) -> TerrainModel {
    let hh = water_grid(m.heights, m.velocity, m.heights, cfg);
    let hv = vel_grid(m.heights, m.velocity, cfg);
    TerrainModel {
        heights: water_grid(hh, hv, m.heights, cfg),
        velocity: vel_grid(hh, m.velocity, cfg),
    }
}

/// `n` sub-steps.
pub open spec fn advance_model(m: TerrainModel, cfg: SolverConfig, n: nat) -> TerrainModel
    decreases n,
{
    if n == 0 {
        m
    } else {
        substep_model(advance_model(m, cfg, (n - 1) as nat), cfg)
    }
}

/// Velocity update kernel: the grid whose every cell is `vel_cell`.
pub fn update_velocity(heights: &Grid<i64>, base: &Grid<Velocity>, cfg: &SolverConfig) -> (r: Grid<
    Velocity,
>)
    requires
        grid_wf(heights@),
        grid_wf(base@),
        base@.w == heights@.w,
        base@.h == heights@.h,
    ensures
        r@ == vel_grid(heights@, base@, *cfg),
{
    let (w, h) = heights.dimensions();
    let mut out: Vec<Velocity> = Vec::new();
    let mut x: usize = 0;
    while x < w
        invariant
            x <= w,
            w == heights@.w,
            h == heights@.h,
            grid_wf(heights@),
            grid_wf(base@),
            base@.w == heights@.w,
            base@.h == heights@.h,
            out@.len() == x * h,
            forall|xx: int, yy: int|
                0 <= xx < x && 0 <= yy < h ==> out@[xx * h + yy] == vel_cell(
                    heights@,
                    base@,
                    *cfg,
                    xx,
                    yy,
                ),
        decreases w - x,
    {
        let mut y: usize = 0;
        while y < h
            invariant
                x < w,
                y <= h,
                w == heights@.w,
                h == heights@.h,
                grid_wf(heights@),
                grid_wf(base@),
                base@.w == heights@.w,
                base@.h == heights@.h,
                out@.len() == x * h + y,
                forall|xx: int, yy: int|
                    0 <= xx < x && 0 <= yy < h ==> out@[xx * h + yy] == vel_cell(
                        heights@,
                        base@,
                        *cfg,
                        xx,
                        yy,
                    ),
                forall|yy: int|
                    0 <= yy < y ==> out@[x as int * h + yy] == vel_cell(
                        heights@,
                        base@,
                        *cfg,
                        x as int,
                        yy,
                    ),
            decreases h - y,
        {
            proof {
                lemma_row_major_index_bound(w as int, h as int, x as int, y as int);
            }
            let c = *heights.get_unchecked(x, y);
            let hx = if x > 0 {
                *heights.get_unchecked(x - 1, y)
            } else {
                c
            };
            let hy = if y > 0 {
                *heights.get_unchecked(x, y - 1)
            } else {
                c
            };
            let gx = if x > 0 {
                sub_sat(hx, c)
            } else {
                0i64
            };
            let gy = if y > 0 {
                sub_sat(hy, c)
            } else {
                0i64
            };
            let b = *base.get_unchecked(x, y);
            let tx = add_sat(b.x, fp_mul(fp_mul(gx, cfg.time_step), cfg.gravity));
            let txd = sub_sat(tx, fp_mul(tx, cfg.viscosity));
            let ty = add_sat(b.y, fp_mul(fp_mul(gy, cfg.time_step), cfg.gravity));
            let tyd = sub_sat(ty, fp_mul(ty, cfg.viscosity));
            let vx = if x == 0 {
                0i64
            } else {
                txd
            };
            let vy = if y == 0 {
                0i64
            } else {
                tyd
            };
            out.push(Velocity { x: vx, y: vy });
            proof {
                assert(out@.last() == vel_cell(heights@, base@, *cfg, x as int, y as int));
                assert forall|xx: int, yy: int| 0 <= xx < x && 0 <= yy < h implies out@[xx * h + yy]
                    == vel_cell(heights@, base@, *cfg, xx, yy) by {
                    lemma_row_major_index_bound(x as int, h as int, xx, yy);
                }
            }
            y = y + 1;
        }
        proof {
            assert(x as int * h + h == (x as int + 1) * h) by (nonlinear_arith);
            assert forall|xx: int, yy: int| 0 <= xx < x + 1 && 0 <= yy < h implies out@[xx * h + yy]
                == vel_cell(heights@, base@, *cfg, xx, yy) by {
                lemma_row_major_index_bound(x as int + 1, h as int, xx, yy);
            }
        }
        x = x + 1;
    }
    let r = Grid::from_values(out, (w, h));
    proof {
        let target = vel_grid(heights@, base@, *cfg);
        assert forall|x: int, y: int| grid_in_range(r@, x, y) implies grid_at(r@, x, y) == grid_at(
            target,
            x,
            y,
        ) by {
            lemma_row_major_index_bound(r@.w, r@.h, x, y);
            lemma_grid_from_fn_at(
                heights@.w,
                heights@.h,
                |xx: int, yy: int| vel_cell(heights@, base@, *cfg, xx, yy),
                x,
                y,
            );
        }
        lemma_grid_pointwise_eq(r@, target);
    }
    r
}

/// Height update kernel: the grid whose every cell is `water_cell`.
pub fn update_water(
    heights: &Grid<i64>,
    velocity: &Grid<Velocity>,
    heights_apply: &Grid<i64>,
    cfg: &SolverConfig,
) -> (r: Grid<i64>)
    requires
        grid_wf(heights@),
        grid_wf(velocity@),
        grid_wf(heights_apply@),
        velocity@.w == heights@.w,
        velocity@.h == heights@.h,
        heights_apply@.w == heights@.w,
        heights_apply@.h == heights@.h,
    ensures
        r@ == water_grid(heights@, velocity@, heights_apply@, *cfg),
{
    let (w, h) = heights.dimensions();
    let mut out: Vec<i64> = Vec::new();
    let mut x: usize = 0;
    while x < w
        invariant
            x <= w,
            w == heights@.w,
            h == heights@.h,
            grid_wf(heights@),
            grid_wf(velocity@),
            grid_wf(heights_apply@),
            velocity@.w == heights@.w,
            velocity@.h == heights@.h,
            heights_apply@.w == heights@.w,
            heights_apply@.h == heights@.h,
            out@.len() == x * h,
            forall|xx: int, yy: int|
                0 <= xx < x && 0 <= yy < h ==> out@[xx * h + yy] == water_cell(
                    heights@,
                    velocity@,
                    heights_apply@,
                    *cfg,
                    xx,
                    yy,
                ),
        decreases w - x,
    {
        let mut y: usize = 0;
        while y < h
            invariant
                x < w,
                y <= h,
                w == heights@.w,
                h == heights@.h,
                grid_wf(heights@),
                grid_wf(velocity@),
                grid_wf(heights_apply@),
                velocity@.w == heights@.w,
                velocity@.h == heights@.h,
                heights_apply@.w == heights@.w,
                heights_apply@.h == heights@.h,
                out@.len() == x * h + y,
                forall|xx: int, yy: int|
                    0 <= xx < x && 0 <= yy < h ==> out@[xx * h + yy] == water_cell(
                        heights@,
                        velocity@,
                        heights_apply@,
                        *cfg,
                        xx,
                        yy,
                    ),
                forall|yy: int|
                    0 <= yy < y ==> out@[x as int * h + yy] == water_cell(
                        heights@,
                        velocity@,
                        heights_apply@,
                        *cfg,
                        x as int,
                        yy,
                    ),
            decreases h - y,
        {
            proof {
                lemma_row_major_index_bound(w as int, h as int, x as int, y as int);
            }
            let c = *heights.get_unchecked(x, y);
            let hyn1 = if y > 0 {
                *heights.get_unchecked(x, y - 1)
            } else {
                c
            };
            let hxn1 = if x > 0 {
                *heights.get_unchecked(x - 1, y)
            } else {
                c
            };
            let hy1 = if y + 1 < h {
                *heights.get_unchecked(x, y + 1)
            } else {
                c
            };
            let vy1 = if y + 1 < h {
                velocity.get_unchecked(x, y + 1).y
            } else {
                0i64
            };
            let hx1 = if x + 1 < w {
                *heights.get_unchecked(x + 1, y)
            } else {
                c
            };
            let ux1 = if x + 1 < w {
                velocity.get_unchecked(x + 1, y).x
            } else {
                0i64
            };
            let v0 = *velocity.get_unchecked(x, y);
            let axn1 = half_trunc(add_sat(hxn1, c));
            let ax1 = half_trunc(add_sat(hx1, c));
            let ayn1 = half_trunc(add_sat(hyn1, c));
            let ay1 = half_trunc(add_sat(hy1, c));
            let dx = sub_sat(fp_mul(ux1, ax1), fp_mul(v0.x, axn1));
            let dy = sub_sat(fp_mul(vy1, ay1), fp_mul(v0.y, ayn1));
            let ap = *heights_apply.get_unchecked(x, y);
            let v = sub_sat(ap, fp_mul(add_sat(dx, dy), cfg.time_step));
            out.push(v);
            proof {
                assert(out@.last() == water_cell(
                    heights@,
                    velocity@,
                    heights_apply@,
                    *cfg,
                    x as int,
                    y as int,
                ));
                assert forall|xx: int, yy: int| 0 <= xx < x && 0 <= yy < h implies out@[xx * h + yy]
                    == water_cell(heights@, velocity@, heights_apply@, *cfg, xx, yy) by {
                    lemma_row_major_index_bound(x as int, h as int, xx, yy);
                }
            }
            y = y + 1;
        }
        proof {
            assert(x as int * h + h == (x as int + 1) * h) by (nonlinear_arith);
            assert forall|xx: int, yy: int| 0 <= xx < x + 1 && 0 <= yy < h implies out@[xx * h + yy]
                == water_cell(heights@, velocity@, heights_apply@, *cfg, xx, yy) by {
                lemma_row_major_index_bound(x as int + 1, h as int, xx, yy);
            }
        }
        x = x + 1;
    }
    let r = Grid::from_values(out, (w, h));
    proof {
        let target = water_grid(heights@, velocity@, heights_apply@, *cfg);
        assert forall|x: int, y: int| grid_in_range(r@, x, y) implies grid_at(r@, x, y) == grid_at(
            target,
            x,
            y,
        ) by {
            lemma_row_major_index_bound(r@.w, r@.h, x, y);
            lemma_grid_from_fn_at(
                heights@.w,
                heights@.h,
                |xx: int, yy: int| water_cell(heights@, velocity@, heights_apply@, *cfg, xx, yy),
                x,
                y,
            );
        }
        lemma_grid_pointwise_eq(r@, target);
    }
    r
}

/// The solver never changes the field's shape.
pub proof fn lemma_advance_preserves_shape(m: TerrainModel, cfg: SolverConfig, n: nat)
    requires
        m.velocity.w == m.heights.w,
        m.velocity.h == m.heights.h,
    ensures
        advance_model(m, cfg, n).heights.w == m.heights.w,
        advance_model(m, cfg, n).heights.h == m.heights.h,
        advance_model(m, cfg, n).velocity.w == m.heights.w,
        advance_model(m, cfg, n).velocity.h == m.heights.h,
    decreases n,
{
    if n == 0 {
    } else {
        lemma_advance_preserves_shape(m, cfg, (n - 1) as nat);
    }
}

/// Every height cell is `c` and every velocity cell is zero.
pub open spec fn uniform_model(m: TerrainModel, c: i64) -> bool {
    &&& forall|x: int, y: int|
        grid_in_range(m.heights, x, y) ==> grid_at(m.heights, x, y) == c
    &&& velocity_zeroed(m)
}

/// A uniform field with zero velocity is unchanged by one sub-step: every
/// gradient and every flux is zero.
pub proof fn lemma_uniform_substep(m: TerrainModel, c: i64, cfg: SolverConfig)
    requires
        terrain_wf(m),
        uniform_model(m, c),
    ensures
        substep_model(m, cfg) == m,
{
    let hh = water_grid(m.heights, m.velocity, m.heights, cfg);
    let hv = vel_grid(m.heights, m.velocity, cfg);
    assert forall|x: int, y: int| grid_in_range(m.velocity, x, y) implies grid_at(hv, x, y)
        == grid_at(m.velocity, x, y) by {
        lemma_grid_from_fn_at(
            m.heights.w,
            m.heights.h,
            |xx: int, yy: int| vel_cell(m.heights, m.velocity, cfg, xx, yy),
            x,
            y,
        );
        assert(grid_at(m.velocity, x, y) == Velocity { x: 0, y: 0 });
        crate::fixed::lemma_fp_mul_zero(cfg.time_step as int);
        crate::fixed::lemma_fp_mul_zero(cfg.gravity as int);
        crate::fixed::lemma_fp_mul_zero(cfg.viscosity as int);
        assert(vel_cell(m.heights, m.velocity, cfg, x, y) == Velocity { x: 0, y: 0 });
    }
    lemma_grid_pointwise_eq(hv, m.velocity);
    assert forall|x: int, y: int| grid_in_range(m.heights, x, y) implies grid_at(hh, x, y)
        == grid_at(m.heights, x, y) by {
        lemma_grid_from_fn_at(
            m.heights.w,
            m.heights.h,
            |xx: int, yy: int| water_cell(m.heights, m.velocity, m.heights, cfg, xx, yy),
            x,
            y,
        );
        assert(water_cell(m.heights, m.velocity, m.heights, cfg, x, y) == c);
    }
    lemma_grid_pointwise_eq(hh, m.heights);
    assert(substep_model(m, cfg) =~= m);
}

/// A uniform field with zero velocity is a fixed point of the whole solver,
/// for any number of sub-steps.
pub proof fn lemma_uniform_fixed_point(m: TerrainModel, c: i64, cfg: SolverConfig, n: nat)
    requires
        terrain_wf(m),
        uniform_model(m, c),
    ensures
        advance_model(m, cfg, n) == m,
    decreases n,
{
    if n > 0 {
        lemma_uniform_fixed_point(m, c, cfg, (n - 1) as nat);
        lemma_uniform_substep(m, c, cfg);
    }
}

} // verus!
