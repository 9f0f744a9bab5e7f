//! The simulation loop: a small state machine (stopped, running, paused)
//! around a fixed-timestep accumulator. A frame callback hands it the
//! wall-clock delta since the last frame; while running it advances the
//! world by whole fixed steps and carries the remainder, so the physics is
//! identical whatever the display refresh rate does.
//!
//! The scheduling itself — who calls `on_frame`, and when — is the
//! embedding program's business; nothing here blocks or suspends.

use vstd::prelude::*;
use vstd::arithmetic::div_mod::lemma_fundamental_div_mod_converse;
use crate::body::SimBox;
use crate::params::DT_LIMIT;
use crate::vec2::Vec2;
use crate::body::Rect;
use crate::world::{spec_step_seq, spec_time_after, World};

verus! {

/// Where the loop stands: `start` takes Stopped to Running, `pause` and
/// `resume` toggle Running and Paused, `stop` takes any state to Stopped.
#[derive(Clone, Copy, Debug, PartialEq, Eq, Structural)]
pub enum LoopState {
    Stopped,
    Running,
    Paused,
}

/// The loop: owns the world it drives, the fixed timestep, and the
/// accumulated not-yet-simulated time.
pub struct SimLoop {
    pub world: World,
    pub fixed_dt: i64,
    pub acc: i64,
    pub state: LoopState,
}

/// The box sequence after `m` whole fixed steps of `fdt`.
pub open spec fn spec_steps_n(
    s: Seq<SimBox>,
    g: Vec2,
    e: int,
    bounds: Rect,
    fdt: int,
    m: int,
) -> Seq<SimBox>
    decreases m,
{
    if m <= 0 {
        s
    } else {
        spec_step_seq(spec_steps_n(s, g, e, bounds, fdt, m - 1), g, e, bounds, fdt)
    }
}

/// The world clock after `m` whole fixed steps of `fdt`.
pub open spec fn spec_time_n(t: int, fdt: int, m: int) -> int
    decreases m,
{
    if m <= 0 {
        t
    } else {
        spec_time_after(spec_time_n(t, fdt, m - 1), fdt)
    }
}

impl SimLoop {
    /// A healthy loop: a healthy world, a positive fixed step, and an
    /// accumulator already reduced below one step.
    pub open spec fn wf(self) -> bool {
        &&& self.world.wf()
        &&& 1 <= self.fixed_dt <= DT_LIMIT
        &&& 0 <= self.acc < self.fixed_dt
    }

    /// A stopped loop around the given world.
    pub fn new(world: World, fixed_dt: i64) -> (l: SimLoop)
        requires
            world.wf(),
            1 <= fixed_dt <= DT_LIMIT,
        ensures
            l.wf(),
            l.world == world,
            l.fixed_dt == fixed_dt,
            l.acc == 0,
            l.state == LoopState::Stopped,
    {
        SimLoop { world, fixed_dt, acc: 0, state: LoopState::Stopped }
    }

    /// Begin running: takes a stopped loop to running and is a no-op in
    /// any other state.
    pub fn start(&mut self)
        requires
            old(self).wf(),
        ensures
            final(self).wf(),
            final(self).state == (if old(self).state == LoopState::Stopped {
                LoopState::Running
            } else {
                old(self).state
            }),
            final(self).world == old(self).world,
            final(self).fixed_dt == old(self).fixed_dt,
            final(self).acc == old(self).acc,
    {
        if self.state == LoopState::Stopped {
            self.state = LoopState::Running;
        }
    }

    /// Pause: takes a running loop to paused (no further steps until
    /// resumed) and is a no-op in any other state.
    pub fn pause(&mut self)
        requires
            old(self).wf(),
        ensures
            final(self).wf(),
            final(self).state == (if old(self).state == LoopState::Running {
                LoopState::Paused
            } else {
                old(self).state
            }),
            final(self).world == old(self).world,
            final(self).fixed_dt == old(self).fixed_dt,
            final(self).acc == old(self).acc,
    {
        if self.state == LoopState::Running {
            self.state = LoopState::Paused;
        }
    }

    /// Resume: takes a paused loop back to running and is a no-op in any
    /// other state.
    pub fn resume(&mut self)
        requires
            old(self).wf(),
        ensures
            final(self).wf(),
            final(self).state == (if old(self).state == LoopState::Paused {
                LoopState::Running
            } else {
                old(self).state
            }),
            final(self).world == old(self).world,
            final(self).fixed_dt == old(self).fixed_dt,
            final(self).acc == old(self).acc,
    {
        if self.state == LoopState::Paused {
            self.state = LoopState::Running;
        }
    }

    /// Stop from any state, dropping any accumulated fraction of a step:
    /// a later start begins fresh.
    pub fn stop(&mut self)
        requires
            old(self).wf(),
        ensures
            final(self).wf(),
            final(self).state == LoopState::Stopped,
            final(self).acc == 0,
            final(self).world == old(self).world,
            final(self).fixed_dt == old(self).fixed_dt,
    {
        self.state = LoopState::Stopped;
        self.acc = 0;
    }

    /// One frame callback with the wall-clock delta since the last frame.
    /// When running, the delta joins the accumulator and the world is
    /// stepped by the fixed timestep once per whole step accumulated, the
    /// remainder carrying to the next frame; in any other state nothing
    /// changes. All due steps complete before this returns, so a caller
    /// that renders afterward never observes a partially stepped world.
    pub fn on_frame(&mut self, delta: i64)
        requires
            old(self).wf(),
            0 <= delta <= DT_LIMIT,
        ensures
            final(self).wf(),
            final(self).state == old(self).state,
            final(self).fixed_dt == old(self).fixed_dt,
            old(self).state != LoopState::Running ==> *final(self) == *old(self),
            old(self).state == LoopState::Running ==> ({
                let total = old(self).acc + delta;
                let m = total / (old(self).fixed_dt as int);
                &&& final(self).acc == total % (old(self).fixed_dt as int)
                &&& final(self).world.boxes@ == spec_steps_n(
                    old(self).world.boxes@,
                    old(self).world.gravity,
                    old(self).world.restitution as int,
                    old(self).world.bounds,
                    old(self).fixed_dt as int,
                    m,
                )
                &&& final(self).world.time == spec_time_n(
                    old(self).world.time as int,
                    old(self).fixed_dt as int,
                    m,
                )
                &&& final(self).world.bounds == old(self).world.bounds
                &&& final(self).world.gravity == old(self).world.gravity
                &&& final(self).world.restitution == old(self).world.restitution
                &&& final(self).world.max_boxes == old(self).world.max_boxes
                &&& final(self).world.next_id == old(self).world.next_id
            }),
    {
        if self.state != LoopState::Running {
            return;
        }
        self.acc = self.acc + delta;
        let ghost total = old(self).acc + delta;
        let ghost mut done: int = 0;
        while self.acc >= self.fixed_dt
            invariant
                old(self).wf(),
                0 <= delta <= DT_LIMIT,
                self.world.wf(),
                self.fixed_dt == old(self).fixed_dt,
                self.state == old(self).state,
                total == old(self).acc + delta,
                0 <= self.acc,
                0 <= done,
                total == done * (self.fixed_dt as int) + self.acc,
                self.world.boxes@ == spec_steps_n(
                    old(self).world.boxes@,
                    old(self).world.gravity,
                    old(self).world.restitution as int,
                    old(self).world.bounds,
                    self.fixed_dt as int,
                    done,
                ),
                self.world.time == spec_time_n(
                    old(self).world.time as int,
                    self.fixed_dt as int,
                    done,
                ),
                self.world.bounds == old(self).world.bounds,
                self.world.gravity == old(self).world.gravity,
                self.world.restitution == old(self).world.restitution,
                self.world.max_boxes == old(self).world.max_boxes,
                self.world.next_id == old(self).world.next_id,
            decreases self.acc,
        {
            self.world.step(self.fixed_dt);
            self.acc = self.acc - self.fixed_dt;
            proof {
                let fdt = self.fixed_dt as int;
                assert((done + 1) * fdt == done * fdt + fdt) by (nonlinear_arith);
                done = done + 1;
            }
        }
        proof {
            lemma_fundamental_div_mod_converse(
                total,
                self.fixed_dt as int,
                done,
                self.acc as int,
            );
        }
    }
}

} // verus!
