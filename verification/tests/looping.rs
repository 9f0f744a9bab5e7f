//! Tests for the simulation loop: its state machine and the fixed-timestep
//! accumulator that decouples physics from the display refresh rate.

use box_collision::body::{Mass, Rect};
use box_collision::simloop::{LoopState, SimLoop};
use box_collision::vec2::Vec2;
use box_collision::world::World;

fn v(x: i64, y: i64) -> Vec2 {
    Vec2 { x, y }
}

fn demo_world() -> World {
    let arena = Rect { min: v(0, 0), max: v(100_000, 100_000) };
    let mut w = World::new(arena, v(0, -50_000), 900, 8);
    w.spawn(v(50_000, 80_000), v(10_000, 0), v(5_000, 5_000), Mass::Finite(1_000)).unwrap();
    w
}

#[test]
fn state_machine_transitions() {
    let mut l = SimLoop::new(demo_world(), 17);
    assert_eq!(l.state, LoopState::Stopped);
    // pause and resume do nothing while stopped
    l.pause();
    assert_eq!(l.state, LoopState::Stopped);
    l.resume();
    assert_eq!(l.state, LoopState::Stopped);
    l.start();
    assert_eq!(l.state, LoopState::Running);
    // start is a no-op while running
    l.start();
    assert_eq!(l.state, LoopState::Running);
    l.pause();
    assert_eq!(l.state, LoopState::Paused);
    l.pause();
    assert_eq!(l.state, LoopState::Paused);
    l.resume();
    assert_eq!(l.state, LoopState::Running);
    l.stop();
    assert_eq!(l.state, LoopState::Stopped);
    assert_eq!(l.acc, 0);
}

#[test]
fn frames_step_only_while_running() {
    let mut l = SimLoop::new(demo_world(), 17);
    let before = l.world.snapshot();
    l.on_frame(40);
    assert_eq!(l.world.snapshot(), before);
    assert_eq!(l.acc, 0);
    l.start();
    l.pause();
    l.on_frame(40);
    assert_eq!(l.world.snapshot(), before);
    assert_eq!(l.acc, 0);
    l.resume();
    l.on_frame(40);
    assert_ne!(l.world.snapshot(), before);
}

#[test]
fn accumulator_carries_the_remainder() {
    let mut l = SimLoop::new(demo_world(), 17);
    l.start();
    // 40 ms buys two 17 ms steps and leaves 6 ms.
    l.on_frame(40);
    assert_eq!(l.acc, 6);
    assert_eq!(l.world.time, 34);
    // 11 more ms completes exactly one further step.
    l.on_frame(11);
    assert_eq!(l.acc, 0);
    assert_eq!(l.world.time, 51);
    // A short frame only accumulates.
    l.on_frame(9);
    assert_eq!(l.acc, 9);
    assert_eq!(l.world.time, 51);
}

#[test]
fn frame_steps_match_direct_steps() {
    // Whatever frame deltas arrive, the world passes through exactly the
    // states that direct fixed steps produce.
    let mut l = SimLoop::new(demo_world(), 17);
    l.start();
    for delta in [5, 30, 17, 0, 70, 12, 23] {
        l.on_frame(delta);
    }
    // 157 ms in all: nine full steps, 4 ms left over.
    assert_eq!(l.acc, 4);
    let mut w = demo_world();
    for _ in 0..9 {
        w.step(17);
    }
    assert_eq!(l.world.snapshot(), w.snapshot());
    assert_eq!(l.world.time, w.time);
}

#[test]
fn stopping_discards_accumulated_time() {
    let mut l = SimLoop::new(demo_world(), 17);
    l.start();
    l.on_frame(10);
    assert_eq!(l.acc, 10);
    l.stop();
    assert_eq!(l.acc, 0);
    l.start();
    l.on_frame(10);
    // The earlier 10 ms is gone: still not enough for a step.
    assert_eq!(l.world.time, 0);
}
