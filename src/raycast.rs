use vstd::prelude::*;

use crate::chunk_manager::{in_i32, ChunkManager};

verus! {

/// Fixed-point units per block: ray origins, directions and distances are
/// given in multiples of `1 / FIXED_ONE` of a block.
pub const FIXED_ONE: i64 = 65536;

/// Answers whether a grid cell is solid.
pub trait OccupancyQuery {
    /// The state in which the query can be asked.
    spec fn ready(&self) -> bool;

    spec fn solid_at(&self, x: int, y: int, z: int) -> bool;

    fn is_solid(&self, x: i32, y: i32, z: i32) -> (r: bool)
        requires
            self.ready(),
        ensures
            r == self.solid_at(x as int, y as int, z as int),
    ;
}

impl OccupancyQuery for ChunkManager {
    open spec fn ready(&self) -> bool {
        self.wf()
    }

    open spec fn solid_at(&self, x: int, y: int, z: int) -> bool {
        self.solid(x, y, z)
    }

    fn is_solid(&self, x: i32, y: i32, z: i32) -> (r: bool) {
        self.is_solid_block_at(x, y, z)
    }
}

/// The constants of one traversal. Distances along the ray are scaled by
/// the product `P` of the non-zero direction components, which makes every
/// crossing distance an integer: `t_max`, `delta` and `t` below are `P`
/// times the distance in blocks, and the walk goes on while
/// `t * FIXED_ONE <= limit`.
pub ghost struct RaySetup {
    pub step: (int, int, int),
    pub finite: (bool, bool, bool),
    pub delta: (int, int, int),
    pub limit: int,
}

/// The state of a traversal: the current cell, the scaled distance to the
/// next boundary on each axis, the scaled distance travelled, and the axis
/// last advanced (-1 before the first step).
pub ghost struct RayState {
    pub cell: (int, int, int),
    pub t_max: (int, int, int),
    pub t: int,
    pub last: int,
}

pub open spec fn sign_step(d: int) -> int {
    if d > 0 {
        1
    } else {
        -1
    }
}

/// The factor that a direction component contributes to `P`.
pub open spec fn factor(d: int) -> int {
    if d > 0 {
        d
    } else if d < 0 {
        -d
    } else {
        1
    }
}

/// Fixed-point distance from `o` to the first cell boundary in direction `d`.
pub open spec fn boundary_dist(o: int, cell: int, d: int) -> int {
    if d > 0 {
        (cell + 1) * FIXED_ONE - o
    } else {
        o - cell * FIXED_ONE
    }
}

pub open spec fn ray_setup(d: (i64, i64, i64), max_distance: i64) -> RaySetup {
    let (fx, fy, fz) = (factor(d.0 as int), factor(d.1 as int), factor(d.2 as int));
    RaySetup {
        step: (sign_step(d.0 as int), sign_step(d.1 as int), sign_step(d.2 as int)),
        finite: (d.0 != 0, d.1 != 0, d.2 != 0),
        delta: (FIXED_ONE * (fy * fz), FIXED_ONE * (fx * fz), FIXED_ONE * (fx * fy)),
        limit: max_distance * (fx * fy * fz),
    }
}

pub open spec fn ray_start(o: (i64, i64, i64), d: (i64, i64, i64)) -> RayState {
    let (fx, fy, fz) = (factor(d.0 as int), factor(d.1 as int), factor(d.2 as int));
    let cell = (
        (o.0 as int) / (FIXED_ONE as int),
        (o.1 as int) / (FIXED_ONE as int),
        (o.2 as int) / (FIXED_ONE as int),
    );
    RayState {
        cell,
        t_max: (
            boundary_dist(o.0 as int, cell.0, d.0 as int) * (fy * fz),
            boundary_dist(o.1 as int, cell.1, d.1 as int) * (fx * fz),
            boundary_dist(o.2 as int, cell.2, d.2 as int) * (fx * fy),
        ),
        t: 0,
        last: -1,
    }
}

/// The axis to advance: the one with the nearest boundary, x before y
/// before z on a tie; an axis the ray is parallel to never comes first.
pub open spec fn next_axis(s: RaySetup, st: RayState) -> int {
    let x_first = s.finite.0 && (!s.finite.1 || st.t_max.0 <= st.t_max.1) && (!s.finite.2
        || st.t_max.0 <= st.t_max.2);
    let y_first = s.finite.1 && (!s.finite.2 || st.t_max.1 <= st.t_max.2);
    if x_first {
        0
    } else if y_first {
        1
    } else {
        2
    }
}

pub open spec fn advance(s: RaySetup, st: RayState) -> RayState {
    let a = next_axis(s, st);
    if a == 0 {
        RayState {
            cell: (st.cell.0 + s.step.0, st.cell.1, st.cell.2),
            t_max: (st.t_max.0 + s.delta.0, st.t_max.1, st.t_max.2),
            t: st.t_max.0,
            last: 0,
        }
    } else if a == 1 {
        RayState {
            cell: (st.cell.0, st.cell.1 + s.step.1, st.cell.2),
            t_max: (st.t_max.0, st.t_max.1 + s.delta.1, st.t_max.2),
            t: st.t_max.1,
            last: 1,
        }
    } else {
        RayState {
            cell: (st.cell.0, st.cell.1, st.cell.2 + s.step.2),
            t_max: (st.t_max.0, st.t_max.1, st.t_max.2 + s.delta.2),
            t: st.t_max.2,
            last: 2,
        }
    }
}

/// The traversal state after `k` steps.
pub open spec fn ray_state(s: RaySetup, init: RayState, k: nat) -> RayState
    decreases k,
{
    if k == 0 {
        init
    } else {
        advance(s, ray_state(s, init, (k - 1) as nat))
    }
}

/// A cell counts as solid if the query says so; cells beyond the `i32`
/// grid are open.
pub open spec fn cell_solid<Q: OccupancyQuery>(q: &Q, c: (int, int, int)) -> bool {
    in_i32(c.0) && in_i32(c.1) && in_i32(c.2) && q.solid_at(c.0, c.1, c.2)
}

pub open spec fn within_reach(s: RaySetup, st: RayState) -> bool {
    st.t * FIXED_ONE <= s.limit
}

/// The first `k` states were within reach and in open cells.
pub open spec fn open_until<Q: OccupancyQuery>(q: &Q, s: RaySetup, init: RayState, k: nat) -> bool {
    forall|j: nat|
        j < k ==> within_reach(s, #[trigger] ray_state(s, init, j)) && !cell_solid(
            q,
            ray_state(s, init, j).cell,
        )
}

/// The face normal of a hit: against the step of the axis last advanced,
/// zero if none was.
pub open spec fn hit_normal(s: RaySetup, st: RayState) -> (int, int, int) {
    if st.last == 0 {
        (-s.step.0, 0, 0)
    } else if st.last == 1 {
        (0, -s.step.1, 0)
    } else if st.last == 2 {
        (0, 0, -s.step.2)
    } else {
        (0, 0, 0)
    }
}

pub open spec fn ray_input_ok(d: (i64, i64, i64), max_distance: i64) -> bool {
    &&& -FIXED_ONE <= d.0 <= FIXED_ONE
    &&& -FIXED_ONE <= d.1 <= FIXED_ONE
    &&& -FIXED_ONE <= d.2 <= FIXED_ONE
    &&& (d.0 != 0 || d.1 != 0 || d.2 != 0)
}

/// The walk stops at step `k` on a hit: the cells before were open and
/// within reach, the cell at `k` is within reach and solid, and `cell` and
/// `normal` are its coordinates and entry normal.
pub open spec fn hit_at<Q: OccupancyQuery>(
    q: &Q,
    s: RaySetup,
    init: RayState,
    k: nat,
    cell: (i32, i32, i32),
    normal: (i32, i32, i32),
) -> bool {
    let st = ray_state(s, init, k);
    &&& open_until(q, s, init, k)
    &&& within_reach(s, st)
    &&& cell_solid(q, st.cell)
    &&& st.cell == (cell.0 as int, cell.1 as int, cell.2 as int)
    &&& hit_normal(s, st) == (normal.0 as int, normal.1 as int, normal.2 as int)
}

/// The walk stops at step `k` without a hit: the cells before were open and
/// within reach, and step `k` is beyond reach.
pub open spec fn missed_at<Q: OccupancyQuery>(q: &Q, s: RaySetup, init: RayState, k: nat) -> bool {
    open_until(q, s, init, k) && !within_reach(s, ray_state(s, init, k))
}

/// What is left of the walk: for each axis the ray is not parallel to, how
/// far its next boundary may still move before the walk must have ended.
spec fn ray_measure(s: RaySetup, st: RayState) -> int {
    (if s.finite.0 {
        s.limit + 2 * FIXED_ONE * s.delta.0 - FIXED_ONE * st.t_max.0
    } else {
        0
    }) + (if s.finite.1 {
        s.limit + 2 * FIXED_ONE * s.delta.1 - FIXED_ONE * st.t_max.1
    } else {
        0
    }) + (if s.finite.2 {
        s.limit + 2 * FIXED_ONE * s.delta.2 - FIXED_ONE * st.t_max.2
    } else {
        0
    })
}

fn factor_of(d: i64) -> (r: i128)
    requires
        -FIXED_ONE <= d <= FIXED_ONE,
    ensures
        r == factor(d as int),
        1 <= r <= FIXED_ONE,
{
    if d > 0 {
        d as i128
    } else if d < 0 {
        -(d as i128)
    } else {
        1
    }
}

/// The cell that fixed-point coordinate `o` lies in (floor division).
pub(crate) fn fixed_floor(o: i64) -> (r: i128)
    ensures
        r == (o as int) / (FIXED_ONE as int),
        -0x8000_0000_0000 <= r < 0x8000_0000_0000,
{
    // 2^63 is a multiple of FIXED_ONE, so shifting by it keeps the quotient
    // exact up to a known offset.
    let shifted = (o as i128 + 0x8000_0000_0000_0000i128) as u128;
    let q = shifted / (FIXED_ONE as u128);
    assert(q as int == (o as int) / (FIXED_ONE as int) + 0x8000_0000_0000) by {
        assert(shifted as int == o as int + 0x8000_0000_0000_0000);
    }
    q as i128 - 0x8000_0000_0000i128
}

/// Fixed-point distance from `o` in cell `cell` to the cell's boundary in
/// direction `d`.
fn boundary_dist_of(o: i64, cell: i128, d: i64) -> (r: i128)
    requires
        cell == (o as int) / (FIXED_ONE as int),
    ensures
        r == boundary_dist(o as int, cell as int, d as int),
        0 <= r <= FIXED_ONE,
{
    if d > 0 {
        (cell + 1) * (FIXED_ONE as i128) - o as i128
    } else {
        o as i128 - cell * (FIXED_ONE as i128)
    }
}

/// Walks the grid cells along the ray from `origin` in `direction` and
/// returns the first solid cell met within `max_distance`, with the normal
/// of the face the ray entered it through (zero if the ray starts inside
/// it). All three are in fixed point; `direction` should be a unit vector.
pub fn raycast<Q: OccupancyQuery>(
    q: &Q,
    origin: (i64, i64, i64),
    direction: (i64, i64, i64),
    max_distance: i64,
) -> (r: Option<((i32, i32, i32), (i32, i32, i32))>)
    requires
        q.ready(),
        ray_input_ok(direction, max_distance),
    ensures
        ({
            let s = ray_setup(direction, max_distance);
            let init = ray_start(origin, direction);
            match r {
                Some((cell, normal)) => exists|k: nat| #[trigger] hit_at(q, s, init, k, cell, normal),
                None => exists|k: nat| #[trigger] missed_at(q, s, init, k),
            }
        }),
{
    let ghost s = ray_setup(direction, max_distance);
    let ghost init = ray_start(origin, direction);
    if max_distance < 0 {
        // Out of reach before the first cell: nothing is queried.
        proof {
            assert(ray_state(s, init, 0) == init);
            assert(s.limit < 0) by (nonlinear_arith)
                requires
                    s.limit == max_distance * (factor(direction.0 as int) * factor(direction.1 as int)
                        * factor(direction.2 as int)),
                    max_distance < 0,
                    factor(direction.0 as int) >= 1,
                    factor(direction.1 as int) >= 1,
                    factor(direction.2 as int) >= 1,
            ;
            assert(missed_at(q, s, init, 0));
        }
        return None;
    }
    let one = FIXED_ONE as i128;
    let fin_x = direction.0 != 0;
    let fin_y = direction.1 != 0;
    let fin_z = direction.2 != 0;
    let step_x: i128 = if direction.0 > 0 { 1 } else { -1 };
    let step_y: i128 = if direction.1 > 0 { 1 } else { -1 };
    let step_z: i128 = if direction.2 > 0 { 1 } else { -1 };
    let fx = factor_of(direction.0);
    let fy = factor_of(direction.1);
    let fz = factor_of(direction.2);
    assert(1 <= fy * fz <= 0x1_0000_0000 && 1 <= fx * fz <= 0x1_0000_0000 && 1 <= fx * fy <= 0x1_0000_0000)
        by (nonlinear_arith)
        requires
            1 <= fx <= 0x1_0000,
            1 <= fy <= 0x1_0000,
            1 <= fz <= 0x1_0000,
    ;
    let qx = fy * fz;
    let qy = fx * fz;
    let qz = fx * fy;
    assert(1 <= qx * fx <= 0x1_0000_0000_0000) by (nonlinear_arith)
        requires
            1 <= fx <= 0x1_0000,
            1 <= qx <= 0x1_0000_0000,
    ;
    let p = qx * fx;
    assert(p == fx * fy * fz) by (nonlinear_arith)
        requires
            p == qx * fx,
            qx == fy * fz,
    ;
    let delta_x = one * qx;
    let delta_y = one * qy;
    let delta_z = one * qz;
    assert(0 <= (max_distance as i128) * p <= 0x8000_0000_0000_0000 * 0x1_0000_0000_0000) by (
    nonlinear_arith)
        requires
            0 <= max_distance <= 0x7fff_ffff_ffff_ffff,
            1 <= p <= 0x1_0000_0000_0000,
    ;
    let limit = (max_distance as i128) * p;

    let mut cx = fixed_floor(origin.0);
    let mut cy = fixed_floor(origin.1);
    let mut cz = fixed_floor(origin.2);
    let bx = boundary_dist_of(origin.0, cx, direction.0);
    let by = boundary_dist_of(origin.1, cy, direction.1);
    let bz = boundary_dist_of(origin.2, cz, direction.2);
    assert(0 <= bx * qx <= delta_x && 0 <= by * qy <= delta_y && 0 <= bz * qz <= delta_z) by (
    nonlinear_arith)
        requires
            0 <= bx <= 0x1_0000,
            0 <= by <= 0x1_0000,
            0 <= bz <= 0x1_0000,
            1 <= qx,
            1 <= qy,
            1 <= qz,
            delta_x == 0x1_0000 * qx,
            delta_y == 0x1_0000 * qy,
            delta_z == 0x1_0000 * qz,
    ;
    let mut tmx = bx * qx;
    let mut tmy = by * qy;
    let mut tmz = bz * qz;
    let mut t: i128 = 0;
    let mut last: i8 = -1;
    let ghost c0 = (cx as int, cy as int, cz as int);
    let ghost mut k: nat = 0;
    let ghost mut n: int = 0;
    let ghost m0 = ray_measure(s, init);
    assert(ray_state(s, init, 0) == init);

    while t * one <= limit
        invariant
            q.ready(),
            ray_input_ok(direction, max_distance),
            s == ray_setup(direction, max_distance),
            init == ray_start(origin, direction),
            s.finite == (fin_x, fin_y, fin_z),
            s.step == (step_x as int, step_y as int, step_z as int),
            s.delta == (delta_x as int, delta_y as int, delta_z as int),
            s.limit == limit,
            one == FIXED_ONE,
            0x1_0000 <= delta_x <= 0x1_0000_0000_0000,
            0x1_0000 <= delta_y <= 0x1_0000_0000_0000,
            0x1_0000 <= delta_z <= 0x1_0000_0000_0000,
            0 <= limit <= 0x8000_0000_0000_0000 * 0x1_0000_0000_0000,
            ray_state(s, init, k).cell == (cx as int, cy as int, cz as int),
            ray_state(s, init, k).t_max == (tmx as int, tmy as int, tmz as int),
            ray_state(s, init, k).t == t as int,
            ray_state(s, init, k).last == last as int,
            open_until(q, s, init, k),
            0 <= t,
            fin_x ==> t <= tmx && tmx <= t + delta_x && tmx * one <= limit + 2 * one * delta_x,
            fin_y ==> t <= tmy && tmy <= t + delta_y && tmy * one <= limit + 2 * one * delta_y,
            fin_z ==> t <= tmz && tmz <= t + delta_z && tmz * one <= limit + 2 * one * delta_z,
            !fin_x ==> cx == c0.0 && 0 <= tmx <= delta_x,
            !fin_y ==> cy == c0.1 && 0 <= tmy <= delta_y,
            !fin_z ==> cz == c0.2 && 0 <= tmz <= delta_z,
            t * one <= limit + 2 * one * 0x1_0000_0000_0000,
            0 <= n,
            n * FIXED_ONE + ray_measure(s, ray_state(s, init, k)) <= m0,
            m0 <= 3 * (0x8000_0000_0000_0000 * 0x1_0000_0000_0000 + 2 * 0x1_0000 * 0x1_0000_0000_0000),
            c0.0 - n <= cx <= c0.0 + n,
            c0.1 - n <= cy <= c0.1 + n,
            c0.2 - n <= cz <= c0.2 + n,
            -0x8000_0000_0000 <= c0.0 < 0x8000_0000_0000,
            -0x8000_0000_0000 <= c0.1 < 0x8000_0000_0000,
            -0x8000_0000_0000 <= c0.2 < 0x8000_0000_0000,
        decreases ray_measure(s, ray_state(s, init, k)),
    {
        let in_grid = i32::MIN as i128 <= cx && cx <= i32::MAX as i128 && i32::MIN as i128 <= cy
            && cy <= i32::MAX as i128 && i32::MIN as i128 <= cz && cz <= i32::MAX as i128;
        if in_grid && q.is_solid(cx as i32, cy as i32, cz as i32) {
            let normal: (i32, i32, i32) = if last == 0 {
                (-step_x as i32, 0, 0)
            } else if last == 1 {
                (0, -step_y as i32, 0)
            } else if last == 2 {
                (0, 0, -step_z as i32)
            } else {
                (0, 0, 0)
            };
            assert(cell_solid(q, ray_state(s, init, k).cell));
            assert(hit_normal(s, ray_state(s, init, k)) == (normal.0 as int, normal.1 as int, normal.2 as int));
            assert(within_reach(s, ray_state(s, init, k)));
            let cell = (cx as i32, cy as i32, cz as i32);
            assert(hit_at(q, s, init, k, cell, normal));
            let r = Some((cell, normal));
            assert(r matches Some((c, n)) && c == cell && n == normal);
            return r;
        }
        let ghost before = ray_state(s, init, k);
        let x_first = fin_x && (!fin_y || tmx <= tmy) && (!fin_z || tmx <= tmz);
        let y_first = fin_y && (!fin_z || tmy <= tmz);
        if x_first {
            cx = cx + step_x;
            t = tmx;
            tmx = tmx + delta_x;
            last = 0;
        } else if y_first {
            cy = cy + step_y;
            t = tmy;
            tmy = tmy + delta_y;
            last = 1;
        } else {
            assert(fin_z);
            cz = cz + step_z;
            t = tmz;
            tmz = tmz + delta_z;
            last = 2;
        }
        proof {
            assert forall|j: nat| j < k + 1 implies within_reach(s, #[trigger] ray_state(s, init, j)) && !cell_solid(
                q,
                ray_state(s, init, j).cell,
            ) by {
                if j == k {
                } else {
                    assert(j < k);
                }
            }
            k = k + 1;
            n = n + 1;
            assert(ray_state(s, init, k) == advance(s, before));
        }
    }
    assert(missed_at(q, s, init, k));
    None
}

} // verus!
