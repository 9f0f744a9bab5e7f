//! Scenario tests for the simulation core: spawning, removal, stepping,
//! wall bounces, pair collisions, and the documented edge-case policies.
//! All quantities are in milli-units (1000 = one unit).

use box_collision::body::{Mass, Rect, SimBox};
use box_collision::vec2::Vec2;
use box_collision::world::{SimError, World};

fn v(x: i64, y: i64) -> Vec2 {
    Vec2 { x, y }
}

fn square_arena() -> Rect {
    // [0,0] - [100,100] in units.
    Rect { min: v(0, 0), max: v(100_000, 100_000) }
}

fn arena_world(gravity: Vec2, restitution: i64) -> World {
    World::new(square_arena(), gravity, restitution, 16)
}

fn inside(b: &SimBox, r: &Rect) -> bool {
    r.min.x <= b.pos.x - b.half.x
        && b.pos.x + b.half.x <= r.max.x
        && r.min.y <= b.pos.y - b.half.y
        && b.pos.y + b.half.y <= r.max.y
}

fn overlap_area(a: &SimBox, b: &SimBox) -> i64 {
    let ox = (a.half.x + b.half.x) - (a.pos.x - b.pos.x).abs();
    let oy = (a.half.y + b.half.y) - (a.pos.y - b.pos.y).abs();
    if ox > 0 && oy > 0 {
        ox * oy
    } else {
        0
    }
}

#[test]
fn spawn_rejects_non_positive_extents() {
    let mut w = arena_world(v(0, 0), 900);
    let r = w.spawn(v(50_000, 50_000), v(0, 0), v(0, 5_000), Mass::Finite(1_000));
    assert_eq!(r, Err(SimError::InvalidGeometry));
    let r = w.spawn(v(50_000, 50_000), v(0, 0), v(5_000, -1), Mass::Finite(1_000));
    assert_eq!(r, Err(SimError::InvalidGeometry));
    assert_eq!(w.snapshot().len(), 0);
    assert_eq!(w.next_id, 0);
}

#[test]
fn spawn_assigns_fresh_ids_in_order() {
    let mut w = arena_world(v(0, 0), 900);
    let a = w.spawn(v(20_000, 20_000), v(0, 0), v(5_000, 5_000), Mass::Finite(1_000));
    let b = w.spawn(v(50_000, 20_000), v(0, 0), v(5_000, 5_000), Mass::Finite(1_000));
    let c = w.spawn(v(80_000, 20_000), v(0, 0), v(5_000, 5_000), Mass::Finite(1_000));
    assert_eq!((a, b, c), (Ok(0), Ok(1), Ok(2)));
    let snap = w.snapshot();
    assert_eq!(snap.len(), 3);
    assert_eq!((snap[0].id, snap[1].id, snap[2].id), (0, 1, 2));
    assert_eq!(w.next_id, 3);
}

#[test]
fn spawn_pulls_position_into_bounds() {
    let mut w = arena_world(v(0, 0), 900);
    w.spawn(v(-50_000, 50_000), v(0, 0), v(5_000, 5_000), Mass::Finite(1_000)).unwrap();
    let snap = w.snapshot();
    assert_eq!(snap[0].pos, v(5_000, 50_000));
}

#[test]
fn spawn_keeps_requested_fields() {
    let mut w = arena_world(v(0, 0), 900);
    w.spawn(v(40_000, 60_000), v(-3_000, 2_000), v(4_000, 6_000), Mass::Finite(77)).unwrap();
    let snap = w.snapshot();
    assert_eq!(snap[0].pos, v(40_000, 60_000));
    assert_eq!(snap[0].vel, v(-3_000, 2_000));
    assert_eq!(snap[0].half, v(4_000, 6_000));
    assert_eq!(snap[0].mass, Mass::Finite(77));
}

#[test]
fn fifo_eviction_at_capacity() {
    let mut w = World::new(square_arena(), v(0, 0), 900, 2);
    w.spawn(v(20_000, 20_000), v(0, 0), v(5_000, 5_000), Mass::Finite(1_000)).unwrap();
    w.spawn(v(50_000, 20_000), v(0, 0), v(5_000, 5_000), Mass::Finite(1_000)).unwrap();
    let r = w.spawn(v(80_000, 20_000), v(0, 0), v(5_000, 5_000), Mass::Finite(1_000));
    assert_eq!(r, Ok(2));
    let snap = w.snapshot();
    assert_eq!(snap.len(), 2);
    // The oldest box (id 0) was evicted.
    assert_eq!((snap[0].id, snap[1].id), (1, 2));
}

#[test]
fn remove_deletes_and_is_idempotent() {
    let mut w = arena_world(v(0, 0), 900);
    w.spawn(v(20_000, 20_000), v(0, 0), v(5_000, 5_000), Mass::Finite(1_000)).unwrap();
    w.spawn(v(50_000, 20_000), v(0, 0), v(5_000, 5_000), Mass::Finite(1_000)).unwrap();
    w.spawn(v(80_000, 20_000), v(0, 0), v(5_000, 5_000), Mass::Finite(1_000)).unwrap();
    w.remove(1);
    let snap = w.snapshot();
    assert_eq!(snap.len(), 2);
    assert_eq!((snap[0].id, snap[1].id), (0, 2));
    // Removing the same id again, or an id never handed out, changes nothing.
    w.remove(1);
    w.remove(999);
    assert_eq!(w.snapshot().len(), 2);
}

#[test]
fn snapshot_is_a_detached_copy() {
    let mut w = arena_world(v(0, 0), 900);
    w.spawn(v(20_000, 20_000), v(1_000, 0), v(5_000, 5_000), Mass::Finite(1_000)).unwrap();
    let first = w.snapshot();
    let mut tampered = w.snapshot();
    tampered[0].pos = v(0, 0);
    tampered.clear();
    assert_eq!(w.snapshot(), first);
}

#[test]
fn step_keeps_boxes_inside_bounds() {
    // Boundary containment: after every step, every box's rectangle lies
    // inside the viewport, tolerance zero.
    let mut w = arena_world(v(0, -50_000), 900);
    w.spawn(v(10_000, 90_000), v(40_000, 10_000), v(5_000, 5_000), Mass::Finite(1_000)).unwrap();
    w.spawn(v(50_000, 80_000), v(-30_000, 0), v(8_000, 4_000), Mass::Finite(3_000)).unwrap();
    w.spawn(v(80_000, 70_000), v(15_000, -20_000), v(3_000, 9_000), Mass::Finite(500)).unwrap();
    let r = square_arena();
    for _ in 0..400 {
        w.step(17);
        for b in w.snapshot() {
            assert!(inside(&b, &r), "box {} left the viewport", b.id);
        }
    }
}

#[test]
fn floor_bounce_restitution() {
    // A box dropped from (50,90) under gravity (0,-50) with restitution
    // 0.8: the post-bounce upward speed is exactly 0.8 times the impact
    // speed (rounded down by the fixed-point scale).
    let mut w = arena_world(v(0, -50_000), 800);
    w.spawn(v(50_000, 90_000), v(0, 0), v(5_000, 5_000), Mass::Finite(1_000)).unwrap();
    let dt = 17; // one 60 Hz frame
    let mut bounced = false;
    let mut prev_vy = 0;
    for _ in 0..300 {
        prev_vy = w.snapshot()[0].vel.y;
        w.step(dt);
        let b = &w.snapshot()[0];
        if b.vel.y > 0 {
            // Impact speed: the velocity the box carried into the wall,
            // after this step's gravity kick.
            let impact = -(prev_vy + -50_000 * dt / 1000);
            assert!(impact > 0);
            assert_eq!(b.vel.y, 800 * impact / 1000);
            assert_eq!(b.pos.y, 5_000); // flush on the floor
            bounced = true;
            break;
        }
    }
    assert!(bounced, "the box never reached the floor");
}

#[test]
fn equal_mass_swap() {
    // Two equal boxes, equal and opposite velocities, restitution 1 and no
    // gravity: a head-on collision swaps the velocities exactly.
    let mut w = arena_world(v(0, 0), 1_000);
    w.spawn(v(20_000, 50_000), v(10_000, 0), v(5_000, 5_000), Mass::Finite(1_000)).unwrap();
    w.spawn(v(80_000, 50_000), v(-10_000, 0), v(5_000, 5_000), Mass::Finite(1_000)).unwrap();
    let mut collided = false;
    for _ in 0..200 {
        w.step(17);
        let snap = w.snapshot();
        if snap[0].vel.x < 0 {
            assert_eq!(snap[0].vel, v(-10_000, 0));
            assert_eq!(snap[1].vel, v(10_000, 0));
            assert_eq!(overlap_area(&snap[0], &snap[1]), 0);
            collided = true;
            break;
        }
    }
    assert!(collided, "the boxes never met");
}

#[test]
fn elastic_walls_preserve_speed_exactly() {
    // Restitution 1, no gravity: a box bouncing between the side walls
    // keeps its speed exactly, for as long as we care to run it.
    let mut w = arena_world(v(0, 0), 1_000);
    w.spawn(v(50_000, 50_000), v(40_000, 0), v(5_000, 5_000), Mass::Finite(1_000)).unwrap();
    let mut sign_changes = 0;
    let mut last_sign = 1;
    for _ in 0..600 {
        w.step(20);
        let b = &w.snapshot()[0];
        assert_eq!(b.vel.x.abs(), 40_000);
        assert_eq!(b.vel.y, 0);
        let s = if b.vel.x < 0 { -1 } else { 1 };
        if s != last_sign {
            sign_changes += 1;
            last_sign = s;
        }
    }
    assert!(sign_changes >= 2, "expected at least two wall bounces");
}

#[test]
fn inelastic_bounces_lose_speed() {
    // Restitution below 1 under gravity: each bounce leaves the floor
    // slower than the one before.
    let mut w = arena_world(v(0, -50_000), 800);
    w.spawn(v(50_000, 90_000), v(0, 0), v(5_000, 5_000), Mass::Finite(1_000)).unwrap();
    let mut bounce_speeds: Vec<i64> = Vec::new();
    let mut prev_vy = 0;
    for _ in 0..2_000 {
        w.step(17);
        let b = &w.snapshot()[0];
        if prev_vy < 0 && b.vel.y > 0 {
            bounce_speeds.push(b.vel.y);
            if bounce_speeds.len() == 3 {
                break;
            }
        }
        prev_vy = b.vel.y;
    }
    assert!(bounce_speeds.len() >= 2, "expected at least two bounces");
    assert!(bounce_speeds[1] < bounce_speeds[0]);
}

#[test]
fn heavy_box_changes_speed_less() {
    // Mass ordering: light and heavy box, equal opposite speeds, head on.
    let mut w = arena_world(v(0, 0), 1_000);
    w.spawn(v(30_000, 50_000), v(10_000, 0), v(5_000, 5_000), Mass::Finite(1_000)).unwrap();
    w.spawn(v(70_000, 50_000), v(-10_000, 0), v(5_000, 5_000), Mass::Finite(9_000)).unwrap();
    for _ in 0..150 {
        w.step(17);
        let snap = w.snapshot();
        if snap[0].vel.x < 0 {
            let d_light = (snap[0].vel.x - 10_000).abs();
            let d_heavy = (snap[1].vel.x - -10_000).abs();
            assert_eq!(d_light, 36_000);
            assert_eq!(d_heavy, 4_000);
            assert!(d_heavy < d_light);
            return;
        }
    }
    panic!("the boxes never met");
}

#[test]
fn identical_worlds_stay_identical() {
    // Determinism: two worlds fed the identical call sequence give
    // identical snapshots at every point.
    let script = |w: &mut World| {
        w.spawn(v(20_000, 80_000), v(12_000, 0), v(5_000, 5_000), Mass::Finite(1_000)).unwrap();
        w.spawn(v(70_000, 80_000), v(-9_000, 3_000), v(6_000, 4_000), Mass::Finite(2_500)).unwrap();
        w.step(17);
        w.step(33);
        w.spawn(v(50_000, 20_000), v(0, 25_000), v(5_000, 5_000), Mass::Finite(800)).unwrap();
        w.step(100);
        w.remove(1);
        w.step(17);
    };
    let mut w1 = arena_world(v(0, -50_000), 850);
    let mut w2 = arena_world(v(0, -50_000), 850);
    script(&mut w1);
    script(&mut w2);
    assert_eq!(w1.snapshot(), w2.snapshot());
    assert_eq!(w1.time, w2.time);
}

#[test]
fn large_step_equals_fixed_substeps() {
    // A 100 ms step splits into five 20 ms substeps, so it lands on
    // exactly the same state as five 20 ms steps.
    let mut w1 = arena_world(v(0, -50_000), 900);
    let mut w2 = arena_world(v(0, -50_000), 900);
    for w in [&mut w1, &mut w2] {
        w.spawn(v(30_000, 80_000), v(20_000, 0), v(5_000, 5_000), Mass::Finite(1_000)).unwrap();
    }
    w1.step(100);
    for _ in 0..5 {
        w2.step(20);
    }
    assert_eq!(w1.snapshot(), w2.snapshot());
    assert_eq!(w1.time, w2.time);
}

#[test]
fn zero_dt_step_changes_nothing() {
    let mut w = arena_world(v(0, -50_000), 900);
    w.spawn(v(50_000, 50_000), v(10_000, 0), v(5_000, 5_000), Mass::Finite(1_000)).unwrap();
    let before = w.snapshot();
    w.step(0);
    assert_eq!(w.snapshot(), before);
    assert_eq!(w.time, 0);
}

#[test]
fn time_accumulates_monotonically() {
    let mut w = arena_world(v(0, 0), 900);
    w.step(17);
    assert_eq!(w.time, 17);
    w.step(0);
    assert_eq!(w.time, 17);
    w.step(100);
    assert_eq!(w.time, 117);
}

#[test]
fn coincident_boxes_separate_deterministically() {
    // Fully overlapping equal boxes: the tie prefers the x axis and the
    // first-spawned box takes the low side; the split is exactly even.
    let mut w = arena_world(v(0, 0), 800);
    w.spawn(v(50_000, 50_000), v(0, 0), v(5_000, 5_000), Mass::Finite(1_000)).unwrap();
    w.spawn(v(50_000, 50_000), v(0, 0), v(5_000, 5_000), Mass::Finite(1_000)).unwrap();
    w.step(17);
    let snap = w.snapshot();
    assert_eq!(snap[0].pos, v(45_000, 50_000));
    assert_eq!(snap[1].pos, v(55_000, 50_000));
    assert_eq!(overlap_area(&snap[0], &snap[1]), 0);
}

#[test]
fn oversized_box_is_centered_with_axis_velocity_zeroed() {
    // A box wider than the viewport cannot be contained: it is centered on
    // that axis and its velocity there is zeroed, rather than producing
    // inverted geometry.
    let narrow = Rect { min: v(0, 0), max: v(10_000, 100_000) };
    let mut w = World::new(narrow, v(0, 0), 900, 4);
    w.spawn(v(2_000, 50_000), v(5_000, 1_000), v(20_000, 5_000), Mass::Finite(1_000)).unwrap();
    let spawned = w.snapshot();
    assert_eq!(spawned[0].pos.x, 5_000); // centered already at spawn
    w.step(17);
    let b = &w.snapshot()[0];
    assert_eq!(b.pos.x, 5_000);
    assert_eq!(b.vel.x, 0);
    assert_eq!(b.vel.y, 1_000); // the fitting axis is untouched
}

#[test]
fn immovable_box_never_moves() {
    let mut w = arena_world(v(0, -50_000), 1_000);
    w.spawn(v(50_000, 30_000), v(0, 0), v(10_000, 10_000), Mass::Immovable).unwrap();
    w.spawn(v(10_000, 30_000), v(20_000, 0), v(5_000, 5_000), Mass::Finite(1_000)).unwrap();
    let mut reflected = false;
    for _ in 0..200 {
        w.step(17);
        let snap = w.snapshot();
        assert_eq!(snap[0].pos, v(50_000, 30_000));
        assert_eq!(snap[0].vel, v(0, 0));
        if snap[1].vel.x < 0 {
            reflected = true;
            break;
        }
    }
    assert!(reflected, "the mover never bounced off the immovable box");
}

#[test]
fn vector_operations() {
    let a = Vec2::new(3_000, 4_000);
    let b = Vec2::new(-1_000, 2_000);
    assert_eq!(a.plus(b), v(2_000, 6_000));
    assert_eq!(a.minus(b), v(4_000, 2_000));
    // Scaling by 0.5 rounds toward zero on both signs.
    assert_eq!(Vec2::new(-3, 7).scaled_milli(500), v(-1, 3));
    assert_eq!(a.length(), 5_000);
    assert_eq!(Vec2::new(0, 0).length(), 0);
    assert_eq!(Vec2::new(1_000, 1_000).length(), 1_414);
}

#[test]
fn integer_square_root() {
    assert_eq!(box_collision::vec2::isqrt_u64(0), 0);
    assert_eq!(box_collision::vec2::isqrt_u64(1), 1);
    assert_eq!(box_collision::vec2::isqrt_u64(15), 3);
    assert_eq!(box_collision::vec2::isqrt_u64(16), 4);
    assert_eq!(box_collision::vec2::isqrt_u64(u64::MAX), 4_294_967_295);
}
