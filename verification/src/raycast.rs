//! Grid-traversal ray casting (digital differential analyzer).
//!
//! A ray is decomposed into a fixed-point direction `(cos a, sin a)`. The
//! caster tracks the grid cell containing the ray and, per axis, the
//! accumulated distance to the next grid-line crossing; it repeatedly
//! advances along the axis with the smaller accumulated distance until the
//! cell it enters is a wall or lies outside the grid. The returned distance
//! is the perpendicular distance (the travel projected on the stepped
//! axis), clamped to the visibility range; a ray that leaves the grid
//! reports the full visibility range.

use vstd::prelude::*;
use crate::fixed::{FP, TWO_PI, spec_sin, spec_cos, spec_scale, sin_fix, cos_fix};
use crate::maze::Maze;

verus! {

/// Per-cell crossing distance used when a direction component is zero, so
/// that the corresponding axis is never the nearer one in practice.
pub const SENTINEL: i64 = 0x4000_0000_0000;

/// Outcome of casting one ray: perpendicular distance to the wall that was
/// struck (clamped to the visibility range), a 4-valued code for the wall
/// face, and the fixed-point coordinates of the hit point.
pub struct RaycastResult {
    pub distance: i64,
    pub wall_type: u8,
    pub hit_x: i64,
    pub hit_y: i64,
}

/// Distance (in fixed-point units of ray travel) between two successive
/// grid-line crossings on one axis, for direction component `d`.
pub open spec fn spec_delta(d: int) -> int {
    if d == 0 {
        SENTINEL as int
    } else if d < 0 {
        ((FP * FP) as int) / (-d)
    } else {
        ((FP * FP) as int) / d
    }
}

/// Grid step (+1 or -1) on one axis for direction component `d`.
pub open spec fn spec_step(d: int) -> int {
    if d < 0 {
        -1
    } else {
        1
    }
}

/// Accumulated distance from the origin to the first grid-line crossing on
/// one axis, where `start` is the fixed-point origin coordinate, `map` the
/// containing cell, `delta` the per-cell crossing distance and `d` the
/// direction component.
pub open spec fn spec_side_init(start: int, map: int, delta: int, d: int) -> int {
    if d < 0 {
        ((start - map * FP) * delta) / (FP as int)
    } else {
        ((map * FP + FP - start) * delta) / (FP as int)
    }
}

/// True when cell `(x, y)` lies inside the grid.
pub open spec fn cell_in_bounds(m: Maze, x: int, y: int) -> bool {
    0 <= x < m.width && 0 <= y < m.height
}

/// One run of the grid traversal from the given state: steps the cell on
/// the axis with the smaller accumulated distance until the cell entered
/// is outside the grid or a wall. Yields `(hit, side, side_dist)`: whether
/// a wall was struck, which axis was stepped last (0 = x, 1 = y), and the
/// accumulated crossing distance on that axis after the final step.
pub open spec fn dda(
    m: Maze,
    map_x: int,
    map_y: int,
    sdx: int,
    sdy: int,
    dlx: int,
    dly: int,
    stx: int,
    sty: int,
    fuel: nat,
) -> (bool, int, int)
    decreases fuel,
{
    if fuel == 0 {
        (false, 0, sdx)
    } else if sdx < sdy {
        let nx = map_x + stx;
        let nsdx = sdx + dlx;
        if !cell_in_bounds(m, nx, map_y) {
            (false, 0, nsdx)
        } else if m.spec_cell(nx, map_y) {
            (true, 0, nsdx)
        } else {
            dda(m, nx, map_y, nsdx, sdy, dlx, dly, stx, sty, (fuel - 1) as nat)
        }
    } else {
        let ny = map_y + sty;
        let nsdy = sdy + dly;
        if !cell_in_bounds(m, map_x, ny) {
            (false, 1, nsdy)
        } else if m.spec_cell(map_x, ny) {
            (true, 1, nsdy)
        } else {
            dda(m, map_x, ny, sdx, nsdy, dlx, dly, stx, sty, (fuel - 1) as nat)
        }
    }
}

/// Upper bound on the number of steps the traversal can take from cell
/// `(map_x, map_y)` before leaving the grid.
pub open spec fn oob_steps(m: Maze, map_x: int, map_y: int, stx: int, sty: int) -> int {
    (if stx > 0 {
        m.width - map_x
    } else {
        map_x + 1
    }) + (if sty > 0 {
        m.height - map_y
    } else {
        map_y + 1
    })
}

/// The traversal result does not depend on the fuel once the fuel covers
/// every step the ray can take before leaving the grid.
proof fn lemma_dda_fuel(
    m: Maze,
    map_x: int,
    map_y: int,
    sdx: int,
    sdy: int,
    dlx: int,
    dly: int,
    stx: int,
    sty: int,
    f1: nat,
    f2: nat,
)
    requires
        cell_in_bounds(m, map_x, map_y),
        stx == 1 || stx == -1,
        sty == 1 || sty == -1,
        f1 >= oob_steps(m, map_x, map_y, stx, sty),
        f2 >= oob_steps(m, map_x, map_y, stx, sty),
    ensures
        dda(m, map_x, map_y, sdx, sdy, dlx, dly, stx, sty, f1) == dda(
            m,
            map_x,
            map_y,
            sdx,
            sdy,
            dlx,
            dly,
            stx,
            sty,
            f2,
        ),
    decreases oob_steps(m, map_x, map_y, stx, sty),
{
    if sdx < sdy {
        let nx = map_x + stx;
        if cell_in_bounds(m, nx, map_y) && !m.spec_cell(nx, map_y) {
            lemma_dda_fuel(
                m,
                nx,
                map_y,
                sdx + dlx,
                sdy,
                dlx,
                dly,
                stx,
                sty,
                (f1 - 1) as nat,
                (f2 - 1) as nat,
            );
        }
    } else {
        let ny = map_y + sty;
        if cell_in_bounds(m, map_x, ny) && !m.spec_cell(map_x, ny) {
            lemma_dda_fuel(
                m,
                map_x,
                ny,
                sdx,
                sdy + dly,
                dlx,
                dly,
                stx,
                sty,
                (f1 - 1) as nat,
                (f2 - 1) as nat,
            );
        }
    }
}

/// The traversal outcome for a ray cast from fixed-point origin
/// `(start_x, start_y)` at angle `a`, with fuel covering the whole grid.
pub open spec fn ray_outcome(m: Maze, start_x: int, start_y: int, a: int) -> (bool, int, int) {
    let dx = spec_cos(a);
    let dy = spec_sin(a);
    let mx = start_x / (FP as int);
    let my = start_y / (FP as int);
    dda(
        m,
        mx,
        my,
        spec_side_init(start_x, mx, spec_delta(dx), dx),
        spec_side_init(start_y, my, spec_delta(dy), dy),
        spec_delta(dx),
        spec_delta(dy),
        spec_step(dx),
        spec_step(dy),
        (m.width + m.height) as nat,
    )
}

/// Perpendicular wall distance of a ray before clamping: the accumulated
/// crossing distance of the stepped axis minus one per-cell crossing, i.e.
/// the distance at which the ray entered the cell that was struck.
pub open spec fn ray_perp(m: Maze, start_x: int, start_y: int, a: int) -> int {
    let o = ray_outcome(m, start_x, start_y, a);
    o.2 - (if o.1 == 0 {
        spec_delta(spec_cos(a))
    } else {
        spec_delta(spec_sin(a))
    })
}

/// The distance reported for a ray: the perpendicular wall distance
/// clamped to `max_distance`; exactly `max_distance` when the ray leaves
/// the grid without striking a wall.
pub open spec fn spec_ray_distance(m: Maze, start_x: int, start_y: int, a: int, max_distance: int) -> int {
    let o = ray_outcome(m, start_x, start_y, a);
    if !o.0 {
        max_distance
    } else {
        let p = ray_perp(m, start_x, start_y, a);
        if p < max_distance {
            p
        } else {
            max_distance
        }
    }
}

/// Wall face code from the stepped axis and the step signs: 0 and 1 for
/// the two vertical-axis faces, 2 and 3 for the two horizontal-axis faces.
pub open spec fn spec_wall_type(side: int, stx: int, sty: int) -> int {
    if side == 0 {
        if stx > 0 {
            3
        } else {
            2
        }
    } else {
        if sty > 0 {
            1
        } else {
            0
        }
    }
}

/// Wall face code reported for a ray.
pub open spec fn spec_ray_wall_type(m: Maze, start_x: int, start_y: int, a: int) -> int {
    let o = ray_outcome(m, start_x, start_y, a);
    spec_wall_type(o.1, spec_step(spec_cos(a)), spec_step(spec_sin(a)))
}

/// Law: a ray whose nearest wall lies at or beyond the visibility range —
/// in particular one aimed into open space longer than the range — reports
/// exactly the visibility range.
pub proof fn lemma_ray_clamp(m: Maze, start_x: int, start_y: int, a: int, max_distance: int)
    requires
        ray_outcome(m, start_x, start_y, a).0 ==> ray_perp(m, start_x, start_y, a)
            >= max_distance,
    ensures
        spec_ray_distance(m, start_x, start_y, a, max_distance) == max_distance,
{
}

/// Straight +x traversal: with the cells between open and a wall `k + 1`
/// cells ahead on the row, the traversal strikes that wall on the
/// horizontal axis after accumulating `k + 1` whole-cell crossings.
proof fn lemma_dda_straight(
    m: Maze,
    map_x: int,
    map_y: int,
    sdx: int,
    sdy: int,
    dly: int,
    sty: int,
    k: int,
    fuel: nat,
)
    requires
        0 <= map_x,
        map_x + k + 1 < m.width,
        0 <= map_y < m.height,
        0 <= k,
        forall|xi: int| map_x < xi <= map_x + k ==> !#[trigger] m.spec_cell(xi, map_y),
        m.spec_cell(map_x + k + 1, map_y),
        0 <= sdx,
        sdx + (k + 1) * FP < sdy,
        fuel >= k + 1,
    ensures
        dda(m, map_x, map_y, sdx, sdy, FP as int, dly, 1, sty, fuel) == (
            true,
            0int,
            sdx + (k + 1) * FP,
        ),
    decreases k,
{
    if k == 0 {
        assert(m.spec_cell(map_x + 1, map_y));
    } else {
        assert(!m.spec_cell(map_x + 1, map_y));
        lemma_dda_straight(m, map_x + 1, map_y, sdx + FP, sdy, dly, sty, k - 1, (fuel - 1) as nat);
    }
}

/// A ray cast along +x (angle 0) strikes the nearest wall of its row
/// exactly: the perpendicular distance is the fixed-point gap from the
/// origin to that wall's near face.
pub proof fn lemma_ray_straight(m: Maze, x: int, y: int, wx: int)
    requires
        m.wf(),
        0 <= x,
        0 <= y,
        x / (FP as int) < wx < m.width,
        y / (FP as int) < m.height,
        forall|j: int| x / (FP as int) < j < wx ==> !#[trigger] m.spec_cell(j, y / (FP as int)),
        m.spec_cell(wx, y / (FP as int)),
    ensures
        ray_outcome(m, x, y, 0).0,
        ray_outcome(m, x, y, 0).1 == 0,
        ray_perp(m, x, y, 0) == wx * FP - x,
{
    let f = FP as int;
    let mx = x / f;
    let my = y / f;
    assert(spec_cos(0) == FP as int);
    assert(spec_sin(0) == 0);
    assert(spec_delta(FP as int) == f);
    assert(spec_delta(0) == SENTINEL as int);
    vstd::arithmetic::div_mod::lemma_fundamental_div_mod(x, f);
    vstd::arithmetic::div_mod::lemma_mod_division_less_than_divisor(x, f);
    vstd::arithmetic::div_mod::lemma_fundamental_div_mod(y, f);
    vstd::arithmetic::div_mod::lemma_mod_division_less_than_divisor(y, f);
    vstd::arithmetic::div_mod::lemma_div_pos_is_pos(x, f);
    vstd::arithmetic::div_mod::lemma_div_pos_is_pos(y, f);
    let a = mx * f + f - x;
    assert(0 < a <= f);
    vstd::arithmetic::div_mod::lemma_div_multiples_vanish(a, f);
    assert((f * a) / f == a);
    assert(a * f == f * a) by (nonlinear_arith);
    assert(spec_side_init(x, mx, f, FP as int) == a);
    let b = my * f + f - y;
    assert(0 < b <= f);
    let sdy = spec_side_init(y, my, SENTINEL as int, 0);
    assert(sdy == (b * (SENTINEL as int)) / f);
    assert((SENTINEL as int) <= b * (SENTINEL as int)) by (nonlinear_arith)
        requires
            1 <= b,
    ;
    vstd::arithmetic::div_mod::lemma_div_is_ordered(
        SENTINEL as int,
        b * (SENTINEL as int),
        f,
    );
    assert(sdy >= (SENTINEL as int) / f);
    let k = wx - mx - 1;
    assert(a + (k + 1) * FP < sdy);
    lemma_dda_straight(m, mx, my, a, sdy, SENTINEL as int, 1, k, (m.width + m.height) as nat);
}

/// Law (ray monotonicity): two rays cast along +x at the same row toward
/// the same wall, with only open cells in front of both origins, report
/// distances in the order of the origins: the origin nearer the wall sees
/// the strictly smaller distance, and each distance is exactly the gap to
/// the wall when the farther gap is within the visibility range.
pub proof fn lemma_ray_monotone(
    m: Maze,
    x_near: int,
    x_far: int,
    y: int,
    wx: int,
    max_distance: int,
)
    requires
        m.wf(),
        0 <= x_far < x_near,
        0 <= y,
        y / (FP as int) < m.height,
        x_near / (FP as int) < wx < m.width,
        forall|j: int| x_far / (FP as int) < j < wx ==> !#[trigger] m.spec_cell(j, y / (FP as int)),
        m.spec_cell(wx, y / (FP as int)),
        wx * FP - x_far <= max_distance,
    ensures
        spec_ray_distance(m, x_near, y, 0, max_distance) == wx * FP - x_near,
        spec_ray_distance(m, x_far, y, 0, max_distance) == wx * FP - x_far,
        spec_ray_distance(m, x_near, y, 0, max_distance) < spec_ray_distance(
            m,
            x_far,
            y,
            0,
            max_distance,
        ),
{
    vstd::arithmetic::div_mod::lemma_div_is_ordered(x_far, x_near, FP as int);
    lemma_ray_straight(m, x_near, y, wx);
    lemma_ray_straight(m, x_far, y, wx);
}

/// Law (ray monotonicity, shifted form): moving the origin of a +x ray
/// exactly two cells back along the ray, with no wall on the crossed
/// segment and the farther reading still inside the visibility range,
/// raises the reported distance by exactly two cells.
pub proof fn lemma_ray_step_back(m: Maze, x: int, y: int, wx: int, max_distance: int)
    requires
        m.wf(),
        2 * FP <= x,
        0 <= y,
        y / (FP as int) < m.height,
        x / (FP as int) < wx < m.width,
        forall|j: int|
            (x - 2 * FP) / (FP as int) < j < wx ==> !#[trigger] m.spec_cell(
                j,
                y / (FP as int),
            ),
        m.spec_cell(wx, y / (FP as int)),
        wx * FP - x <= max_distance - 2 * FP,
    ensures
        spec_ray_distance(m, x - 2 * FP, y, 0, max_distance) == spec_ray_distance(
            m,
            x,
            y,
            0,
            max_distance,
        ) + 2 * FP,
{
    lemma_ray_monotone(m, x, x - 2 * FP, y, wx, max_distance);
}

/// Casts one ray through the maze and reports the clamped perpendicular
/// distance, the wall face code and the hit point.
#[verifier::loop_isolation(false)]
#[verifier::rlimit(100)]
pub fn cast_ray(start_x: i64, start_y: i64, angle: i64, maze: &Maze, max_distance: i64) -> (r:
    RaycastResult)
    requires
        maze.wf(),
        -TWO_PI <= angle < 2 * TWO_PI,
        0 <= start_x < (maze.width as int) * FP,
        0 <= start_y < (maze.height as int) * FP,
        0 < max_distance <= 1000 * FP,
    ensures
        r.distance == spec_ray_distance(
            *maze,
            start_x as int,
            start_y as int,
            angle as int,
            max_distance as int,
        ),
        0 <= r.distance <= max_distance,
        r.wall_type == spec_ray_wall_type(*maze, start_x as int, start_y as int, angle as int),
        r.wall_type <= 3,
        r.hit_x == start_x + spec_scale(spec_cos(angle as int), r.distance as int),
        r.hit_y == start_y + spec_scale(spec_sin(angle as int), r.distance as int),
{
    let width = maze.width;
    let height = maze.height;
    let dx = cos_fix(angle);
    let dy = sin_fix(angle);

    let mut map_x: i64 = start_x / FP;
    let mut map_y: i64 = start_y / FP;

    let delta_dist_x: i64 = if dx == 0 {
        SENTINEL
    } else {
        let adx = if dx < 0 {
            -dx
        } else {
            dx
        };
        proof {
            assert(FP <= (FP * FP) / (adx as int) <= FP * FP) by (nonlinear_arith)
                requires
                    1 <= adx <= FP,
            ;
        }
        (FP * FP) / adx
    };
    let delta_dist_y: i64 = if dy == 0 {
        SENTINEL
    } else {
        let ady = if dy < 0 {
            -dy
        } else {
            dy
        };
        proof {
            assert(FP <= (FP * FP) / (ady as int) <= FP * FP) by (nonlinear_arith)
                requires
                    1 <= ady <= FP,
            ;
        }
        (FP * FP) / ady
    };
    assert(delta_dist_x == spec_delta(dx as int) && FP <= delta_dist_x <= SENTINEL);
    assert(delta_dist_y == spec_delta(dy as int) && FP <= delta_dist_y <= SENTINEL);

    let mut side_dist_x: i64;
    let mut side_dist_y: i64;
    let step_x: i64;
    let step_y: i64;

    if dx < 0 {
        step_x = -1;
        let frac = start_x - map_x * FP;
        proof {
            assert(0 <= frac * delta_dist_x <= FP * SENTINEL) by (nonlinear_arith)
                requires
                    0 <= frac <= FP && FP <= delta_dist_x <= SENTINEL,
            ;
        }
        side_dist_x = (frac * delta_dist_x) / FP;
    } else {
        step_x = 1;
        let frac = map_x * FP + FP - start_x;
        proof {
            assert(0 <= frac * delta_dist_x <= FP * SENTINEL) by (nonlinear_arith)
                requires
                    0 <= frac <= FP && FP <= delta_dist_x <= SENTINEL,
            ;
        }
        side_dist_x = (frac * delta_dist_x) / FP;
    }

    if dy < 0 {
        step_y = -1;
        let frac = start_y - map_y * FP;
        proof {
            assert(0 <= frac * delta_dist_y <= FP * SENTINEL) by (nonlinear_arith)
                requires
                    0 <= frac <= FP && FP <= delta_dist_y <= SENTINEL,
            ;
        }
        side_dist_y = (frac * delta_dist_y) / FP;
    } else {
        step_y = 1;
        let frac = map_y * FP + FP - start_y;
        proof {
            assert(0 <= frac * delta_dist_y <= FP * SENTINEL) by (nonlinear_arith)
                requires
                    0 <= frac <= FP && FP <= delta_dist_y <= SENTINEL,
            ;
        }
        side_dist_y = (frac * delta_dist_y) / FP;
    }

    assert(side_dist_x == spec_side_init(start_x as int, map_x as int, delta_dist_x as int, dx as int));
    assert(side_dist_y == spec_side_init(start_y as int, map_y as int, delta_dist_y as int, dy as int));

    let ghost o = ray_outcome(*maze, start_x as int, start_y as int, angle as int);
    let ghost init_steps = oob_steps(*maze, map_x as int, map_y as int, step_x as int, step_y as int);
    let ghost fuel = (width + height) as nat;
    let ghost mut k: int = 0;

    proof {
        lemma_dda_fuel(
            *maze,
            map_x as int,
            map_y as int,
            side_dist_x as int,
            side_dist_y as int,
            delta_dist_x as int,
            delta_dist_y as int,
            step_x as int,
            step_y as int,
            fuel,
            fuel,
        );
    }

    let mut hit = false;
    let mut oob = false;
    let mut side: u8 = 0;

    while !hit && !oob
        invariant
            -1 <= map_x <= width,
            -1 <= map_y <= height,
            !hit && !oob ==> cell_in_bounds(*maze, map_x as int, map_y as int),
            0 <= side_dist_x,
            0 <= side_dist_y,
            0 <= k <= init_steps,
            side_dist_x <= (1 + k) * SENTINEL,
            side_dist_y <= (1 + k) * SENTINEL,
            !hit && !oob ==> k + oob_steps(*maze, map_x as int, map_y as int, step_x as int, step_y as int) == init_steps,
            side == 0 || side == 1,
            !hit && !oob ==> dda(
                *maze,
                map_x as int,
                map_y as int,
                side_dist_x as int,
                side_dist_y as int,
                delta_dist_x as int,
                delta_dist_y as int,
                step_x as int,
                step_y as int,
                fuel,
            ) == o,
            hit ==> o.0 && o.1 == side as int && o.2 == (if side == 0 {
                side_dist_x as int
            } else {
                side_dist_y as int
            }),
            oob ==> !o.0 && o.1 == side as int && o.2 == (if side == 0 {
                side_dist_x as int
            } else {
                side_dist_y as int
            }),
            (hit || oob) ==> (if side == 0 {
                side_dist_x >= delta_dist_x
            } else {
                side_dist_y >= delta_dist_y
            }),
        decreases oob_steps(*maze, map_x as int, map_y as int, step_x as int, step_y as int),
    {
        let ghost pre_x = map_x as int;
        let ghost pre_y = map_y as int;
        if side_dist_x < side_dist_y {
            side_dist_x = side_dist_x + delta_dist_x;
            map_x = map_x + step_x;
            side = 0;
        } else {
            side_dist_y = side_dist_y + delta_dist_y;
            map_y = map_y + step_y;
            side = 1;
        }
        proof {
            k = k + 1;
        }

        if map_x < 0 || map_y < 0 || map_x >= width as i64 || map_y >= height as i64 {
            oob = true;
        } else if maze.is_wall(map_x as usize, map_y as usize) {
            hit = true;
        } else {
            proof {
                lemma_dda_fuel(
                    *maze,
                    map_x as int,
                    map_y as int,
                    side_dist_x as int,
                    side_dist_y as int,
                    delta_dist_x as int,
                    delta_dist_y as int,
                    step_x as int,
                    step_y as int,
                    (fuel - 1) as nat,
                    fuel,
                );
            }
        }
    }

    let perp_wall_dist: i64 = if side == 0 {
        side_dist_x - delta_dist_x
    } else {
        side_dist_y - delta_dist_y
    };

    let distance: i64 = if oob {
        max_distance
    } else if perp_wall_dist < max_distance {
        perp_wall_dist
    } else {
        max_distance
    };

    proof {
        assert(0 <= (if dx >= 0 { dx as int } else { -(dx as int) }) * distance <= 1000 * FP * FP)
            by (nonlinear_arith)
            requires
                -FP <= dx <= FP && 0 <= distance <= 1000 * FP,
        ;
        assert(0 <= (if dy >= 0 { dy as int } else { -(dy as int) }) * distance <= 1000 * FP * FP)
            by (nonlinear_arith)
            requires
                -FP <= dy <= FP && 0 <= distance <= 1000 * FP,
        ;
    }
    let hit_x = if dx >= 0 {
        start_x + (dx * distance) / FP
    } else {
        start_x - ((-dx) * distance) / FP
    };
    let hit_y = if dy >= 0 {
        start_y + (dy * distance) / FP
    } else {
        start_y - ((-dy) * distance) / FP
    };

    let wall_type: u8 = if side == 0 {
        if step_x > 0 {
            3
        } else {
            2
        }
    } else {
        if step_y > 0 {
            1
        } else {
            0
        }
    };

    RaycastResult { distance, wall_type, hit_x, hit_y }
}

} // verus!
