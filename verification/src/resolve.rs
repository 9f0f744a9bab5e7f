//! The per-substep physics: semi-implicit Euler integration, wall bounces
//! with restitution, and pairwise separation with a 1D elastic velocity
//! response along the axis of least penetration.
//!
//! Every executable function here returns exactly what its spec-level twin
//! computes, so a whole substep is a mathematical function of the state.

use vstd::prelude::*;
use vstd::arithmetic::div_mod::{
    lemma_div_is_ordered, lemma_div_pos_is_pos, lemma_div_multiples_vanish,
};
use vstd::arithmetic::mul::{lemma_mul_inequality, lemma_mul_strict_inequality};
use crate::body::{axis_settled, iabs, Mass, Rect, SimBox, overlap_x, overlap_y, penetrating};
use crate::params::{
    COORD_LIMIT, EXTENT_LIMIT, GRAVITY_LIMIT, MASS_LIMIT, MILLI, RESTITUTION_ONE, SUBSTEP_DT,
    VEL_LIMIT,
};
use crate::vec2::{clamp_i64, scale_milli, spec_clamp, spec_scale_milli, Vec2};

verus! {

/// Widest center coordinate the resolver accepts: the viewport plus all the
/// drift that one substep's sequential pair corrections can add.
pub const POS_PLAY: i64 = 16_000_000_000;

/// Bound on `spec_scale_milli` from bounds on its arguments.
pub proof fn lemma_scale_milli_bound(a: int, b: int, abound: int, bbound: int)
    requires
        0 <= b <= bbound,
        -abound <= a <= abound,
        0 <= abound,
    ensures
        -((abound * bbound) / (MILLI as int)) <= spec_scale_milli(a, b) <= (abound * bbound) / (
        MILLI as int),
{
    if a >= 0 {
        assert(a * b <= abound * bbound && a * b >= 0) by (nonlinear_arith)
            requires 0 <= a <= abound, 0 <= b <= bbound;
        lemma_div_is_ordered(a * b, abound * bbound, MILLI as int);
        lemma_div_pos_is_pos(a * b, MILLI as int);
        lemma_div_pos_is_pos(abound * bbound, MILLI as int);
    } else {
        assert((-a) * b <= abound * bbound && (-a) * b >= 0) by (nonlinear_arith)
            requires 0 <= -a <= abound, 0 <= b <= bbound;
        lemma_div_is_ordered((-a) * b, abound * bbound, MILLI as int);
        lemma_div_pos_is_pos((-a) * b, MILLI as int);
        lemma_div_pos_is_pos(abound * bbound, MILLI as int);
    }
}

/// One box after gravity and movement over `dt`: velocity first (clamped to
/// the speed limit), then position from the updated velocity. An immovable
/// box (zero-reciprocal mass) never moves, so it is left untouched.
pub open spec fn spec_integrate(b: SimBox, g: Vec2, dt: i64) -> SimBox {
    if b.mass == Mass::Immovable {
        b
    } else {
        spec_integrate_movable(b, g, dt)
    }
}

/// The movable case of `spec_integrate`.
pub open spec fn spec_integrate_movable(b: SimBox, g: Vec2, dt: i64) -> SimBox {
    let vx = spec_clamp(
        b.vel.x + spec_scale_milli(g.x as int, dt as int),
        -(VEL_LIMIT as int),
        VEL_LIMIT as int,
    );
    let vy = spec_clamp(
        b.vel.y + spec_scale_milli(g.y as int, dt as int),
        -(VEL_LIMIT as int),
        VEL_LIMIT as int,
    );
    let px = b.pos.x + spec_scale_milli(vx, dt as int);
    let py = b.pos.y + spec_scale_milli(vy, dt as int);
    SimBox {
        pos: Vec2 { x: px as i64, y: py as i64 },
        vel: Vec2 { x: vx as i64, y: vy as i64 },
        ..b
    }
}

/// Executable twin of `spec_integrate`.
pub fn integrate(b: SimBox, g: Vec2, dt: i64) -> (r: SimBox)
    requires
        b.wf(),
        -(GRAVITY_LIMIT as int) <= g.x <= GRAVITY_LIMIT,
        -(GRAVITY_LIMIT as int) <= g.y <= GRAVITY_LIMIT,
        0 <= dt <= SUBSTEP_DT,
        -(COORD_LIMIT as int) <= b.pos.x <= COORD_LIMIT,
        -(COORD_LIMIT as int) <= b.pos.y <= COORD_LIMIT,
    ensures
        r == spec_integrate(b, g, dt),
        r.wf(),
        r.id == b.id,
        r.half == b.half,
        r.mass == b.mass,
        -(COORD_LIMIT + 20_000 as int) <= r.pos.x <= COORD_LIMIT + 20_000,
        -(COORD_LIMIT + 20_000 as int) <= r.pos.y <= COORD_LIMIT + 20_000,
{
    if let Mass::Immovable = b.mass {
        return b;
    }
    proof {
        lemma_scale_milli_bound(g.x as int, dt as int, GRAVITY_LIMIT as int, SUBSTEP_DT as int);
        lemma_scale_milli_bound(g.y as int, dt as int, GRAVITY_LIMIT as int, SUBSTEP_DT as int);
        assert(-100_000_000 <= g.x * dt <= 100_000_000) by (nonlinear_arith)
            requires -1_000_000 <= g.x <= 1_000_000, 0 <= dt <= 20;
        assert(-100_000_000 <= g.y * dt <= 100_000_000) by (nonlinear_arith)
            requires -1_000_000 <= g.y <= 1_000_000, 0 <= dt <= 20;
    }
    let gx = scale_milli(g.x, dt);
    let gy = scale_milli(g.y, dt);
    let vx = clamp_i64(b.vel.x + gx, -VEL_LIMIT, VEL_LIMIT);
    let vy = clamp_i64(b.vel.y + gy, -VEL_LIMIT, VEL_LIMIT);
    proof {
        lemma_scale_milli_bound(vx as int, dt as int, VEL_LIMIT as int, SUBSTEP_DT as int);
        lemma_scale_milli_bound(vy as int, dt as int, VEL_LIMIT as int, SUBSTEP_DT as int);
        assert(-100_000_000 <= vx * dt <= 100_000_000) by (nonlinear_arith)
            requires -1_000_000 <= vx <= 1_000_000, 0 <= dt <= 20;
        assert(-100_000_000 <= vy * dt <= 100_000_000) by (nonlinear_arith)
            requires -1_000_000 <= vy <= 1_000_000, 0 <= dt <= 20;
    }
    let mx = scale_milli(vx, dt);
    let my = scale_milli(vy, dt);
    let px = b.pos.x + mx;
    let py = b.pos.y + my;
    SimBox { pos: Vec2 { x: px, y: py }, vel: Vec2 { x: vx, y: vy }, ..b }
}

/// One axis of wall resolution: position and velocity after the box is
/// held between walls `lo` and `hi`. A box too large for the viewport is
/// centered with that axis's velocity zeroed; one past a wall is clamped
/// flush and, if still heading out, reflected with restitution `e`.
pub open spec fn spec_wall_axis(pos: int, vel: int, h: int, lo: int, hi: int, e: int) -> (
    int,
    int,
) {
    if 2 * h > hi - lo {
        (lo + (hi - lo) / 2, 0)
    } else if pos < lo + h {
        (lo + h, if vel < 0 { (e * (-vel)) / (MILLI as int) } else { vel })
    } else if pos > hi - h {
        (hi - h, if vel > 0 { -((e * vel) / (MILLI as int)) } else { vel })
    } else {
        (pos, vel)
    }
}

/// Executable twin of `spec_wall_axis`.
pub fn wall_axis(pos: i64, vel: i64, h: i64, lo: i64, hi: i64, e: i64) -> (r: (i64, i64))
    requires
        0 < h <= EXTENT_LIMIT,
        -(COORD_LIMIT as int) <= lo < hi <= COORD_LIMIT,
        -(VEL_LIMIT as int) <= vel <= VEL_LIMIT,
        0 <= e <= RESTITUTION_ONE,
        -(POS_PLAY as int) <= pos <= POS_PLAY,
    ensures
        r.0 == spec_wall_axis(pos as int, vel as int, h as int, lo as int, hi as int, e as int).0,
        r.1 == spec_wall_axis(pos as int, vel as int, h as int, lo as int, hi as int, e as int).1,
        axis_settled(r.0 as int, h as int, lo as int, hi as int),
        iabs(r.1 as int) <= iabs(vel as int),
{
    if 2 * h > hi - lo {
        (lo + (hi - lo) / 2, 0)
    } else if pos < lo + h {
        let v2 = if vel < 0 {
            let m = -vel;
            proof {
                lemma_mul_inequality(e as int, MILLI as int, m as int);
                lemma_div_is_ordered(e * m, MILLI * m, MILLI as int);
                lemma_div_multiples_vanish(m as int, MILLI as int);
                lemma_div_pos_is_pos(e * m, MILLI as int);
            }
            (e * m) / MILLI
        } else {
            vel
        };
        (lo + h, v2)
    } else if pos > hi - h {
        let v2 = if vel > 0 {
            proof {
                lemma_mul_inequality(e as int, MILLI as int, vel as int);
                lemma_div_is_ordered(e * vel, MILLI * vel, MILLI as int);
                lemma_div_multiples_vanish(vel as int, MILLI as int);
                lemma_div_pos_is_pos(e * vel, MILLI as int);
            }
            -((e * vel) / MILLI)
        } else {
            vel
        };
        (hi - h, v2)
    } else {
        (pos, vel)
    }
}

/// A box after wall resolution on both axes.
pub open spec fn spec_wall(b: SimBox, r: Rect, e: int) -> SimBox {
    let rx = spec_wall_axis(
        b.pos.x as int,
        b.vel.x as int,
        b.half.x as int,
        r.min.x as int,
        r.max.x as int,
        e,
    );
    let ry = spec_wall_axis(
        b.pos.y as int,
        b.vel.y as int,
        b.half.y as int,
        r.min.y as int,
        r.max.y as int,
        e,
    );
    SimBox {
        pos: Vec2 { x: rx.0 as i64, y: ry.0 as i64 },
        vel: Vec2 { x: rx.1 as i64, y: ry.1 as i64 },
        ..b
    }
}

/// Executable twin of `spec_wall`: clamps the box into the viewport and
/// reflects outbound perpendicular velocity, scaled by restitution.
pub fn resolve_wall(b: SimBox, r: Rect, e: i64) -> (out: SimBox)
    requires
        b.wf(),
        r.wf(),
        0 <= e <= RESTITUTION_ONE,
        -(POS_PLAY as int) <= b.pos.x <= POS_PLAY,
        -(POS_PLAY as int) <= b.pos.y <= POS_PLAY,
    ensures
        out == spec_wall(b, r, e as int),
        out.wf(),
        crate::body::placed_in(out, r),
        out.id == b.id,
        out.half == b.half,
        out.mass == b.mass,
        -(COORD_LIMIT as int) <= out.pos.x <= COORD_LIMIT,
        -(COORD_LIMIT as int) <= out.pos.y <= COORD_LIMIT,
{
    let rx = wall_axis(b.pos.x, b.vel.x, b.half.x, r.min.x, r.max.x, e);
    let ry = wall_axis(b.pos.y, b.vel.y, b.half.y, r.min.y, r.max.y, e);
    SimBox { pos: Vec2 { x: rx.0, y: ry.0 }, vel: Vec2 { x: rx.1, y: ry.1 }, ..b }
}

/// Energy at a wall, for a box that fits between the walls: the axis speed
/// never grows; a perfectly elastic wall (`e == RESTITUTION_ONE`) keeps it
/// exactly; a true bounce with `e < RESTITUTION_ONE` strictly loses speed.
pub proof fn lemma_wall_energy(pos: int, vel: int, h: int, lo: int, hi: int, e: int)
    requires
        0 < h,
        lo < hi,
        2 * h <= hi - lo,
        0 <= e <= RESTITUTION_ONE,
    ensures
        iabs(spec_wall_axis(pos, vel, h, lo, hi, e).1) <= iabs(vel),
        e == RESTITUTION_ONE ==> iabs(spec_wall_axis(pos, vel, h, lo, hi, e).1) == iabs(vel),
        (e < RESTITUTION_ONE && ((pos < lo + h && vel < 0) || (pos > hi - h && vel > 0)))
            ==> iabs(spec_wall_axis(pos, vel, h, lo, hi, e).1) < iabs(vel),
{
    let m = iabs(vel);
    if pos < lo + h && vel < 0 {
        lemma_mul_inequality(e, RESTITUTION_ONE as int, m);
        lemma_div_is_ordered(e * m, RESTITUTION_ONE * m, MILLI as int);
        lemma_div_multiples_vanish(m, MILLI as int);
        lemma_div_pos_is_pos(e * m, MILLI as int);
        if e < RESTITUTION_ONE {
            lemma_mul_strict_inequality(e, RESTITUTION_ONE as int, m);
            vstd::arithmetic::div_mod::lemma_multiply_divide_lt(e * m, MILLI as int, m);
        }
    } else if pos > hi - h && vel > 0 {
        lemma_mul_inequality(e, RESTITUTION_ONE as int, m);
        lemma_div_is_ordered(e * m, RESTITUTION_ONE * m, MILLI as int);
        lemma_div_multiples_vanish(m, MILLI as int);
        lemma_div_pos_is_pos(e * m, MILLI as int);
        if e < RESTITUTION_ONE {
            lemma_mul_strict_inequality(e, RESTITUTION_ONE as int, m);
            vstd::arithmetic::div_mod::lemma_multiply_divide_lt(e * m, MILLI as int, m);
        }
    }
}

/// The separation weights of a pair: each box moves in proportion to the
/// other's mass (so the lighter box moves more), and an immovable box
/// weighs the pair fully onto its partner. Two immovable boxes get weight
/// zero each: nothing moves.
pub open spec fn spec_weights(ma: Mass, mb: Mass) -> (int, int) {
    match (ma, mb) {
        (Mass::Finite(a), Mass::Finite(b)) => (b as int, a as int),
        (Mass::Finite(_), Mass::Immovable) => (1, 0),
        (Mass::Immovable, Mass::Finite(_)) => (0, 1),
        (Mass::Immovable, Mass::Immovable) => (0, 0),
    }
}

/// Executable twin of `spec_weights`.
pub fn weights(ma: Mass, mb: Mass) -> (r: (i64, i64))
    requires
        ma.wf(),
        mb.wf(),
    ensures
        r.0 == spec_weights(ma, mb).0,
        r.1 == spec_weights(ma, mb).1,
        0 <= r.0 <= MASS_LIMIT,
        0 <= r.1 <= MASS_LIMIT,
{
    match (ma, mb) {
        (Mass::Finite(a), Mass::Finite(b)) => (b, a),
        (Mass::Finite(_), Mass::Immovable) => (1, 0),
        (Mass::Immovable, Mass::Finite(_)) => (0, 1),
        (Mass::Immovable, Mass::Immovable) => (0, 0),
    }
}

/// One axis of pair resolution, on scalars: positions `pa`, `pb` and
/// velocities `va`, `vb` along the resolution axis, penetration `pen > 0`,
/// separation weights `wa`, `wb`, restitution `e`.
///
/// The boxes are pushed apart by exactly `pen`, split by weight; if they
/// are approaching, the standard two-body restitution response is applied
/// (clamped to the speed limit). The box listed first is treated as the
/// low side when the centers coincide, so the outcome is deterministic.
pub open spec fn spec_resolve_axis(
    pa: int,
    va: int,
    pb: int,
    vb: int,
    pen: int,
    wa: int,
    wb: int,
    e: int,
) -> (int, int, int, int) {
    let wsum = wa + wb;
    if wsum <= 0 {
        (pa, va, pb, vb)
    } else {
        let sa = (pen * wa) / wsum;
        let sb = pen - sa;
        if pa <= pb {
            let rel = va - vb;
            if rel > 0 {
                let da = ((RESTITUTION_ONE + e) * wa * rel) / (wsum * (MILLI as int));
                let db = ((RESTITUTION_ONE + e) * wb * rel) / (wsum * (MILLI as int));
                (
                    pa - sa,
                    spec_clamp(va - da, -(VEL_LIMIT as int), VEL_LIMIT as int),
                    pb + sb,
                    spec_clamp(vb + db, -(VEL_LIMIT as int), VEL_LIMIT as int),
                )
            } else {
                (pa - sa, va, pb + sb, vb)
            }
        } else {
            let rel = vb - va;
            if rel > 0 {
                let da = ((RESTITUTION_ONE + e) * wa * rel) / (wsum * (MILLI as int));
                let db = ((RESTITUTION_ONE + e) * wb * rel) / (wsum * (MILLI as int));
                (
                    pa + sa,
                    spec_clamp(va + da, -(VEL_LIMIT as int), VEL_LIMIT as int),
                    pb - sb,
                    spec_clamp(vb - db, -(VEL_LIMIT as int), VEL_LIMIT as int),
                )
            } else {
                (pa + sa, va, pb - sb, vb)
            }
        }
    }
}

/// The separation shares sum to the whole penetration and each lies in
/// `[0, pen]`; the velocity impulses are non-negative and bounded by twice
/// the approach speed.
proof fn lemma_axis_quantities(pen: int, wa: int, wb: int, e: int, rel: int)
    requires
        0 <= pen,
        0 <= wa,
        0 <= wb,
        0 < wa + wb,
        0 <= e <= RESTITUTION_ONE,
        0 <= rel,
    ensures
        0 <= (pen * wa) / (wa + wb) <= pen,
        0 <= ((RESTITUTION_ONE + e) * wa * rel) / ((wa + wb) * (MILLI as int)) <= 2 * rel,
        0 <= ((RESTITUTION_ONE + e) * wb * rel) / ((wa + wb) * (MILLI as int)) <= 2 * rel,
{
    let wsum = wa + wb;
    assert(pen * wa >= 0 && pen * wa <= pen * wsum) by (nonlinear_arith)
        requires 0 <= pen, 0 <= wa, wa <= wsum;
    lemma_div_pos_is_pos(pen * wa, wsum);
    lemma_div_is_ordered(pen * wa, pen * wsum, wsum);
    lemma_div_multiples_vanish(pen, wsum);
    assert(wsum * pen == pen * wsum) by (nonlinear_arith);

    let k = RESTITUTION_ONE + e;
    let d = wsum * (MILLI as int);
    assert(d >= wsum && d > 0) by (nonlinear_arith)
        requires wsum > 0, d == wsum * (MILLI as int), MILLI == 1000i64;
    assert(k * wa * rel >= 0) by (nonlinear_arith)
        requires k >= 0, wa >= 0, rel >= 0;
    assert(k * wb * rel >= 0) by (nonlinear_arith)
        requires k >= 0, wb >= 0, rel >= 0;
    assert(k * wa * rel <= d * (2 * rel)) by (nonlinear_arith)
        requires 0 <= k <= 2 * (MILLI as int), 0 <= wa <= wsum, 0 <= rel, d == wsum * (MILLI as int);
    assert(k * wb * rel <= d * (2 * rel)) by (nonlinear_arith)
        requires 0 <= k <= 2 * (MILLI as int), 0 <= wb <= wsum, 0 <= rel, d == wsum * (MILLI as int);
    lemma_div_pos_is_pos(k * wa * rel, d);
    lemma_div_pos_is_pos(k * wb * rel, d);
    lemma_div_is_ordered(k * wa * rel, d * (2 * rel), d);
    lemma_div_is_ordered(k * wb * rel, d * (2 * rel), d);
    lemma_div_multiples_vanish(2 * rel, d);
}

/// Executable twin of `spec_resolve_axis`.
pub fn resolve_axis(
    pa: i64,
    va: i64,
    pb: i64,
    vb: i64,
    pen: i64,
    wa: i64,
    wb: i64,
    e: i64,
) -> (r: (i64, i64, i64, i64))
    requires
        0 < pen <= 2 * (EXTENT_LIMIT as int),
        0 <= wa <= MASS_LIMIT,
        0 <= wb <= MASS_LIMIT,
        0 <= e <= RESTITUTION_ONE,
        -(VEL_LIMIT as int) <= va <= VEL_LIMIT,
        -(VEL_LIMIT as int) <= vb <= VEL_LIMIT,
        -(POS_PLAY as int) <= pa <= POS_PLAY,
        -(POS_PLAY as int) <= pb <= POS_PLAY,
    ensures
        r.0 == spec_resolve_axis(
            pa as int, va as int, pb as int, vb as int, pen as int, wa as int, wb as int, e as int,
        ).0,
        r.1 == spec_resolve_axis(
            pa as int, va as int, pb as int, vb as int, pen as int, wa as int, wb as int, e as int,
        ).1,
        r.2 == spec_resolve_axis(
            pa as int, va as int, pb as int, vb as int, pen as int, wa as int, wb as int, e as int,
        ).2,
        r.3 == spec_resolve_axis(
            pa as int, va as int, pb as int, vb as int, pen as int, wa as int, wb as int, e as int,
        ).3,
        -(VEL_LIMIT as int) <= r.1 <= VEL_LIMIT,
        -(VEL_LIMIT as int) <= r.3 <= VEL_LIMIT,
        iabs(r.0 - pa) <= pen,
        iabs(r.2 - pb) <= pen,
{
    let wsum = wa + wb;
    if wsum <= 0 {
        return (pa, va, pb, vb);
    }
    assert(pen * wa <= 2_000_000_000_000_000 && pen * wa >= 0) by (nonlinear_arith)
        requires 0 <= pen <= 2_000_000, 0 <= wa <= 1_000_000;
    let sa = (pen * wa) / wsum;
    let sb = pen - sa;
    proof {
        lemma_axis_quantities(pen as int, wa as int, wb as int, e as int, 0);
    }
    let a_low = pa <= pb;
    let rel = if a_low {
        va - vb
    } else {
        vb - va
    };
    if rel > 0 {
        proof {
            lemma_axis_quantities(pen as int, wa as int, wb as int, e as int, rel as int);
        }
        let k = RESTITUTION_ONE + e;
        assert(k * wa >= 0 && k * wa <= 2_000_000_000) by (nonlinear_arith)
            requires 0 <= k <= 2000, 0 <= wa <= 1_000_000;
        assert(k * wb >= 0 && k * wb <= 2_000_000_000) by (nonlinear_arith)
            requires 0 <= k <= 2000, 0 <= wb <= 1_000_000;
        assert((k * wa) * rel >= 0 && (k * wa) * rel <= 4_000_000_000_000_000) by (nonlinear_arith)
            requires 0 <= k * wa <= 2_000_000_000, 0 < rel <= 2_000_000;
        assert((k * wb) * rel >= 0 && (k * wb) * rel <= 4_000_000_000_000_000) by (nonlinear_arith)
            requires 0 <= k * wb <= 2_000_000_000, 0 < rel <= 2_000_000;
        assert(wsum * MILLI <= 2_000_000_000 && wsum * MILLI >= MILLI) by (nonlinear_arith)
            requires 0 < wsum <= 2_000_000, MILLI == 1000i64;
        let da = (k * wa * rel) / (wsum * MILLI);
        let db = (k * wb * rel) / (wsum * MILLI);
        if a_low {
            let r1 = clamp_i64(va - da, -VEL_LIMIT, VEL_LIMIT);
            let r3 = clamp_i64(vb + db, -VEL_LIMIT, VEL_LIMIT);
            (pa - sa, r1, pb + sb, r3)
        } else {
            let r1 = clamp_i64(va + da, -VEL_LIMIT, VEL_LIMIT);
            let r3 = clamp_i64(vb - db, -VEL_LIMIT, VEL_LIMIT);
            (pa + sa, r1, pb - sb, r3)
        }
    } else {
        if a_low {
            (pa - sa, va, pb + sb, vb)
        } else {
            (pa + sa, va, pb - sb, vb)
        }
    }
}

/// Where a box center comes to rest on one axis when only containment is
/// asked for (no velocity change): clamped between the walls if the box
/// fits, centered otherwise.
pub open spec fn spec_settle_axis(pos: int, h: int, lo: int, hi: int) -> int {
    if 2 * h <= hi - lo {
        spec_clamp(pos, lo + h, hi - h)
    } else {
        lo + (hi - lo) / 2
    }
}

/// Executable twin of `spec_settle_axis`.
pub fn settle_axis(pos: i64, h: i64, lo: i64, hi: i64) -> (r: i64)
    requires
        0 < h <= EXTENT_LIMIT,
        -(COORD_LIMIT as int) <= lo < hi <= COORD_LIMIT,
    ensures
        r == spec_settle_axis(pos as int, h as int, lo as int, hi as int),
        axis_settled(r as int, h as int, lo as int, hi as int),
{
    if 2 * h <= hi - lo {
        clamp_i64(pos, lo + h, hi - h)
    } else {
        lo + (hi - lo) / 2
    }
}

/// A box placed back into the viewport, velocity untouched.
pub open spec fn spec_settle(b: SimBox, r: Rect) -> SimBox {
    let px = spec_settle_axis(b.pos.x as int, b.half.x as int, r.min.x as int, r.max.x as int);
    let py = spec_settle_axis(b.pos.y as int, b.half.y as int, r.min.y as int, r.max.y as int);
    SimBox { pos: Vec2 { x: px as i64, y: py as i64 }, ..b }
}

/// Executable twin of `spec_settle`: the containment-restoration pass run
/// at the end of a substep, after pair separation may have nudged a box
/// past a wall.
pub fn settle_box(b: SimBox, r: Rect) -> (out: SimBox)
    requires
        b.wf(),
        r.wf(),
    ensures
        out == spec_settle(b, r),
        out.wf(),
        crate::body::placed_in(out, r),
        out.id == b.id,
        out.half == b.half,
        out.mass == b.mass,
        out.vel == b.vel,
{
    let px = settle_axis(b.pos.x, b.half.x, r.min.x, r.max.x);
    let py = settle_axis(b.pos.y, b.half.y, r.min.y, r.max.y);
    SimBox { pos: Vec2 { x: px, y: py }, ..b }
}

/// A pair after collision resolution: untouched unless the rectangles
/// penetrate; otherwise separated along the axis of least penetration
/// (ties prefer x), with the velocity response on that axis only.
pub open spec fn spec_resolve_pair(a: SimBox, b: SimBox, e: int) -> (SimBox, SimBox) {
    if !penetrating(a, b) {
        (a, b)
    } else {
        let w = spec_weights(a.mass, b.mass);
        let ox = overlap_x(a, b);
        let oy = overlap_y(a, b);
        if ox <= oy {
            let t = spec_resolve_axis(
                a.pos.x as int,
                a.vel.x as int,
                b.pos.x as int,
                b.vel.x as int,
                ox,
                w.0,
                w.1,
                e,
            );
            (
                SimBox {
                    pos: Vec2 { x: t.0 as i64, ..a.pos },
                    vel: Vec2 { x: t.1 as i64, ..a.vel },
                    ..a
                },
                SimBox {
                    pos: Vec2 { x: t.2 as i64, ..b.pos },
                    vel: Vec2 { x: t.3 as i64, ..b.vel },
                    ..b
                },
            )
        } else {
            let t = spec_resolve_axis(
                a.pos.y as int,
                a.vel.y as int,
                b.pos.y as int,
                b.vel.y as int,
                oy,
                w.0,
                w.1,
                e,
            );
            (
                SimBox {
                    pos: Vec2 { y: t.0 as i64, ..a.pos },
                    vel: Vec2 { y: t.1 as i64, ..a.vel },
                    ..a
                },
                SimBox {
                    pos: Vec2 { y: t.2 as i64, ..b.pos },
                    vel: Vec2 { y: t.3 as i64, ..b.vel },
                    ..b
                },
            )
        }
    }
}

/// Non-penetration: once a pair with at least one movable box has been
/// resolved, the two rectangles no longer penetrate — the separation along
/// the chosen axis closes the overlap exactly, leaving the boxes touching.
pub proof fn lemma_pair_separates(a: SimBox, b: SimBox, e: int)
    requires
        a.wf(),
        b.wf(),
        0 <= e <= RESTITUTION_ONE,
        !(a.mass == Mass::Immovable && b.mass == Mass::Immovable),
        -(POS_PLAY as int) <= a.pos.x <= POS_PLAY,
        -(POS_PLAY as int) <= a.pos.y <= POS_PLAY,
        -(POS_PLAY as int) <= b.pos.x <= POS_PLAY,
        -(POS_PLAY as int) <= b.pos.y <= POS_PLAY,
    ensures
        !penetrating(spec_resolve_pair(a, b, e).0, spec_resolve_pair(a, b, e).1),
{
    if penetrating(a, b) {
        let w = spec_weights(a.mass, b.mass);
        let wsum = w.0 + w.1;
        assert(wsum > 0);
        let ox = overlap_x(a, b);
        let oy = overlap_y(a, b);
        if ox <= oy {
            let pen = ox;
            let pa = a.pos.x as int;
            let pb = b.pos.x as int;
            lemma_axis_quantities(pen, w.0, w.1, e, 0);
            let sa = (pen * w.0) / wsum;
            let t = spec_resolve_axis(
                pa, a.vel.x as int, pb, b.vel.x as int, pen, w.0, w.1, e,
            );
            let r0 = spec_resolve_pair(a, b, e).0;
            let r1 = spec_resolve_pair(a, b, e).1;
            if pa <= pb {
                assert(t.0 == pa - sa && t.2 == pb + (pen - sa));
                assert(t.2 - t.0 == a.half.x + b.half.x);
            } else {
                assert(t.0 == pa + sa && t.2 == pb - (pen - sa));
                assert(t.0 - t.2 == a.half.x + b.half.x);
            }
            assert(r0.pos.x == t.0 && r1.pos.x == t.2);
            assert(overlap_x(r0, r1) == 0);
        } else {
            let pen = oy;
            let pa = a.pos.y as int;
            let pb = b.pos.y as int;
            lemma_axis_quantities(pen, w.0, w.1, e, 0);
            let sa = (pen * w.0) / wsum;
            let t = spec_resolve_axis(
                pa, a.vel.y as int, pb, b.vel.y as int, pen, w.0, w.1, e,
            );
            let r0 = spec_resolve_pair(a, b, e).0;
            let r1 = spec_resolve_pair(a, b, e).1;
            if pa <= pb {
                assert(t.0 == pa - sa && t.2 == pb + (pen - sa));
                assert(t.2 - t.0 == a.half.y + b.half.y);
            } else {
                assert(t.0 == pa + sa && t.2 == pb - (pen - sa));
                assert(t.0 - t.2 == a.half.y + b.half.y);
            }
            assert(r0.pos.y == t.0 && r1.pos.y == t.2);
            assert(overlap_y(r0, r1) == 0);
        }
    }
}

/// Mass ordering: in a collision between a light box `a` and a heavy box
/// `b`, the heavy box's velocity change along the resolution axis is no
/// larger than the light box's. (Restricted to speeds far enough below the
/// limiter that clamping stays out of play.)
pub proof fn lemma_mass_ordering(
    pa: int,
    va: int,
    pb: int,
    vb: int,
    pen: int,
    m_light: int,
    m_heavy: int,
    e: int,
)
    requires
        1 <= m_light < m_heavy <= MASS_LIMIT,
        0 < pen,
        0 <= e <= RESTITUTION_ONE,
        iabs(va) <= VEL_LIMIT / 8,
        iabs(vb) <= VEL_LIMIT / 8,
    ensures
        iabs(spec_resolve_axis(pa, va, pb, vb, pen, m_heavy, m_light, e).3 - vb) <= iabs(
            spec_resolve_axis(pa, va, pb, vb, pen, m_heavy, m_light, e).1 - va,
        ),
{
    let wa = m_heavy;
    let wb = m_light;
    let wsum = wa + wb;
    let t = spec_resolve_axis(pa, va, pb, vb, pen, wa, wb, e);
    let rel = if pa <= pb {
        va - vb
    } else {
        vb - va
    };
    if rel > 0 {
        lemma_axis_quantities(pen, wa, wb, e, rel);
        let k = RESTITUTION_ONE + e;
        let d = wsum * (MILLI as int);
        let da = (k * wa * rel) / d;
        let db = (k * wb * rel) / d;
        assert(k * wb * rel <= k * wa * rel) by (nonlinear_arith)
            requires 0 <= k, 0 < rel, 0 <= wb <= wa;
        assert(d > 0) by (nonlinear_arith)
            requires wsum > 0, d == wsum * (MILLI as int), MILLI == 1000i64;
        lemma_div_is_ordered(k * wb * rel, k * wa * rel, d);
        assert(0 <= db <= da <= 2 * rel);
        assert(rel <= iabs(va) + iabs(vb));
        if pa <= pb {
            assert(t.1 == spec_clamp(va - da, -(VEL_LIMIT as int), VEL_LIMIT as int));
            assert(t.1 == va - da && t.3 == vb + db);
        } else {
            assert(t.1 == va + da && t.3 == vb - db);
        }
        assert(iabs(t.3 - vb) == db && iabs(t.1 - va) == da);
    } else {
        assert(t.1 == va && t.3 == vb);
    }
}

/// Mass ordering, strictly: when the boxes approach and the mass gap is
/// wide enough that fixed-point rounding cannot collapse the two impulses
/// onto one value, the heavy box's velocity change is strictly smaller.
pub proof fn lemma_mass_ordering_strict(
    pa: int,
    va: int,
    pb: int,
    vb: int,
    pen: int,
    m_light: int,
    m_heavy: int,
    e: int,
)
    requires
        1 <= m_light < m_heavy <= MASS_LIMIT,
        0 < pen,
        0 <= e <= RESTITUTION_ONE,
        iabs(va) <= VEL_LIMIT / 8,
        iabs(vb) <= VEL_LIMIT / 8,
        pa <= pb,
        va - vb > 0,
        (RESTITUTION_ONE + e) * (m_heavy - m_light) * (va - vb) >= (m_heavy + m_light) * (
        MILLI as int),
    ensures
        iabs(spec_resolve_axis(pa, va, pb, vb, pen, m_heavy, m_light, e).3 - vb) < iabs(
            spec_resolve_axis(pa, va, pb, vb, pen, m_heavy, m_light, e).1 - va,
        ),
{
    let wa = m_heavy;
    let wb = m_light;
    let wsum = wa + wb;
    let rel = va - vb;
    let t = spec_resolve_axis(pa, va, pb, vb, pen, wa, wb, e);
    lemma_axis_quantities(pen, wa, wb, e, rel);
    let k = RESTITUTION_ONE + e;
    let d = wsum * (MILLI as int);
    let da = (k * wa * rel) / d;
    let db = (k * wb * rel) / d;
    assert(d > 0) by (nonlinear_arith)
        requires wsum > 0, d == wsum * (MILLI as int), MILLI == 1000i64;
    assert(k * wa * rel >= k * wb * rel + d) by (nonlinear_arith)
        requires
            k * (wa - wb) * rel >= d,
            0 <= k,
            0 < rel,
            0 <= wb <= wa,
    ;
    lemma_div_is_ordered(k * wb * rel + d, k * wa * rel, d);
    vstd::arithmetic::div_mod::lemma_div_plus_one(k * wb * rel, d);
    assert(db < da);
    assert(0 <= db && da <= 2 * rel);
    assert(t.1 == spec_clamp(va - da, -(VEL_LIMIT as int), VEL_LIMIT as int));
    assert(t.1 == va - da && t.3 == vb + db);
    assert(iabs(t.3 - vb) == db && iabs(t.1 - va) == da);
}

/// Executable twin of `spec_resolve_pair`.
pub fn resolve_pair(a: SimBox, b: SimBox, e: i64) -> (r: (SimBox, SimBox))
    requires
        a.wf(),
        b.wf(),
        0 <= e <= RESTITUTION_ONE,
        -(POS_PLAY as int) <= a.pos.x <= POS_PLAY,
        -(POS_PLAY as int) <= a.pos.y <= POS_PLAY,
        -(POS_PLAY as int) <= b.pos.x <= POS_PLAY,
        -(POS_PLAY as int) <= b.pos.y <= POS_PLAY,
    ensures
        r.0 == spec_resolve_pair(a, b, e as int).0,
        r.1 == spec_resolve_pair(a, b, e as int).1,
        r.0.wf(),
        r.1.wf(),
        r.0.id == a.id && r.0.half == a.half && r.0.mass == a.mass,
        r.1.id == b.id && r.1.half == b.half && r.1.mass == b.mass,
        iabs(r.0.pos.x - a.pos.x) <= 2 * (EXTENT_LIMIT as int),
        iabs(r.0.pos.y - a.pos.y) <= 2 * (EXTENT_LIMIT as int),
        iabs(r.1.pos.x - b.pos.x) <= 2 * (EXTENT_LIMIT as int),
        iabs(r.1.pos.y - b.pos.y) <= 2 * (EXTENT_LIMIT as int),
{
    let dx = a.pos.x - b.pos.x;
    let adx = if dx < 0 {
        -dx
    } else {
        dx
    };
    let ox = (a.half.x + b.half.x) - adx;
    let dy = a.pos.y - b.pos.y;
    let ady = if dy < 0 {
        -dy
    } else {
        dy
    };
    let oy = (a.half.y + b.half.y) - ady;
    if !(ox > 0 && oy > 0) {
        return (a, b);
    }
    let w = weights(a.mass, b.mass);
    if ox <= oy {
        let t = resolve_axis(a.pos.x, a.vel.x, b.pos.x, b.vel.x, ox, w.0, w.1, e);
        (
            SimBox { pos: Vec2 { x: t.0, ..a.pos }, vel: Vec2 { x: t.1, ..a.vel }, ..a },
            SimBox { pos: Vec2 { x: t.2, ..b.pos }, vel: Vec2 { x: t.3, ..b.vel }, ..b },
        )
    } else {
        let t = resolve_axis(a.pos.y, a.vel.y, b.pos.y, b.vel.y, oy, w.0, w.1, e);
        (
            SimBox { pos: Vec2 { y: t.0, ..a.pos }, vel: Vec2 { y: t.1, ..a.vel }, ..a },
            SimBox { pos: Vec2 { y: t.2, ..b.pos }, vel: Vec2 { y: t.3, ..b.vel }, ..b },
        )
    }
}

} // verus!
