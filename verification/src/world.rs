//! The simulation world: an ordered set of boxes confined to a viewport,
//! advanced by fixed, fully deterministic steps.

use vstd::prelude::*;
use vstd::arithmetic::div_mod::{
    lemma_div_is_ordered, lemma_div_pos_is_pos, lemma_div_multiples_vanish,
    lemma_div_nonincreasing, lemma_fundamental_div_mod, lemma_mod_division_less_than_divisor,
    lemma_div_by_self,
};
use crate::body::{
    lemma_placed_in_range, placed_in, iabs, Mass, Rect, SimBox,
};
use crate::params::{
    BOX_COUNT_LIMIT, COORD_LIMIT, DT_LIMIT, EXTENT_LIMIT, GRAVITY_LIMIT, RESTITUTION_ONE,
    SUBSTEP_DT, VEL_LIMIT,
};
use crate::resolve::{
    integrate, lemma_scale_milli_bound, lemma_wall_energy, resolve_pair, resolve_wall,
    settle_axis, settle_box, spec_integrate, spec_resolve_pair, spec_settle, spec_settle_axis,
    spec_wall,
};
use crate::vec2::Vec2;

verus! {

/// Why a spawn request was rejected: the requested box had a zero or
/// negative extent. An unknown id on removal is not an error (removal is
/// a no-op then), so this is the library's whole error taxonomy.
#[derive(Clone, Copy, Debug, PartialEq, Eq, Structural)]
pub enum SimError {
    InvalidGeometry,
}

/// The simulation world. `boxes` is kept in spawn order, which is also
/// ascending id order; ids are never reused while a box is live.
pub struct World {
    /// The viewport boxes are confined to.
    pub bounds: Rect,
    /// Constant acceleration applied every substep.
    pub gravity: Vec2,
    /// Restitution in thousandths, shared by walls and pairs.
    pub restitution: i64,
    /// FIFO eviction keeps the box count at or below this.
    pub max_boxes: usize,
    /// The live boxes, oldest first.
    pub boxes: Vec<SimBox>,
    /// Id the next spawned box receives.
    pub next_id: u64,
    /// Accumulated simulation time in milliseconds; never decreases.
    pub time: i64,
}

/// First index holding `id`, or -1 when absent.
pub open spec fn find_id(s: Seq<SimBox>, id: u64) -> int
    decreases s.len(),
{
    if s.len() == 0 {
        -1
    } else if s[0].id == id {
        0
    } else {
        let r = find_id(s.subrange(1, s.len() as int), id);
        if r < 0 {
            -1
        } else {
            r + 1
        }
    }
}

proof fn lemma_find_id_at(s: Seq<SimBox>, id: u64, i: int)
    requires
        0 <= i < s.len(),
        forall|j: int| 0 <= j < i ==> s[j].id != id,
        s[i].id == id,
    ensures
        find_id(s, id) == i,
    decreases i,
{
    if i == 0 {
    } else {
        let tail = s.subrange(1, s.len() as int);
        assert(forall|j: int| 0 <= j < i - 1 ==> tail[j].id != id);
        assert(tail[i - 1].id == id);
        lemma_find_id_at(tail, id, i - 1);
    }
}

proof fn lemma_find_id_none(s: Seq<SimBox>, id: u64)
    requires
        forall|j: int| 0 <= j < s.len() ==> s[j].id != id,
    ensures
        find_id(s, id) == -1,
    decreases s.len(),
{
    if s.len() > 0 {
        lemma_find_id_none(s.subrange(1, s.len() as int), id);
    }
}

/// The pair `(i, j)` of a sequence after collision resolution.
pub open spec fn spec_pair_update(s: Seq<SimBox>, e: int, i: int, j: int) -> Seq<SimBox> {
    let t = spec_resolve_pair(s[i], s[j], e);
    s.update(i, t.0).update(j, t.1)
}

/// The sequence after resolving every pair from `(i, j)` onward, in the
/// fixed deterministic order: ascending by the pair of positions in the
/// sequence (and so ascending by the pair of ids, smaller first).
pub open spec fn spec_pairs_from(s: Seq<SimBox>, e: int, i: int, j: int) -> Seq<SimBox>
    decreases s.len() - i, s.len() - j,
{
    if i < 0 || j < i + 1 || s.len() < 2 || i >= s.len() - 1 {
        s
    } else if j >= s.len() {
        spec_pairs_from(s, e, i + 1, i + 2)
    } else {
        spec_pairs_from(spec_pair_update(s, e, i, j), e, i, j + 1)
    }
}

/// One substep: integrate, resolve walls, resolve pairs in order, then
/// restore containment.
pub open spec fn spec_substep_seq(s: Seq<SimBox>, g: Vec2, e: int, bounds: Rect, dt: i64) -> Seq<
    SimBox,
> {
    let s1 = s.map_values(|b: SimBox| spec_integrate(b, g, dt));
    let s2 = s1.map_values(|b: SimBox| spec_wall(b, bounds, e));
    let s3 = spec_pairs_from(s2, e, 0, 1);
    s3.map_values(|b: SimBox| spec_settle(b, bounds))
}

/// How many substeps a step of `dt` takes: none for `dt == 0`, else just
/// enough that each substep is at most `SUBSTEP_DT` long.
pub open spec fn spec_substep_count(dt: int) -> int {
    if dt <= 0 {
        0
    } else {
        (dt - 1) / (SUBSTEP_DT as int) + 1
    }
}

/// Length of the `k`-th substep: the substeps split `dt` as evenly as
/// integers allow, the earlier ones taking the remainder, one unit each.
pub open spec fn spec_sub_dt(dt: int, k: int) -> int {
    let n = spec_substep_count(dt);
    if k < dt % n {
        dt / n + 1
    } else {
        dt / n
    }
}

/// The box sequence after the first `k` substeps of a step of `dt`.
pub open spec fn spec_steps_upto(
    s: Seq<SimBox>,
    g: Vec2,
    e: int,
    bounds: Rect,
    dt: int,
    k: int,
) -> Seq<SimBox>
    decreases k,
{
    if k <= 0 {
        s
    } else {
        spec_substep_seq(
            spec_steps_upto(s, g, e, bounds, dt, k - 1),
            g,
            e,
            bounds,
            spec_sub_dt(dt, k - 1) as i64,
        )
    }
}

/// The box sequence after a whole step of `dt`: what `World::step` must
/// produce, to the bit.
pub open spec fn spec_step_seq(s: Seq<SimBox>, g: Vec2, e: int, bounds: Rect, dt: int) -> Seq<
    SimBox,
> {
    spec_steps_upto(s, g, e, bounds, dt, spec_substep_count(dt))
}

/// Simulation time after a step of `dt` (saturating at the clock's end).
pub open spec fn spec_time_after(t: int, dt: int) -> int {
    if t + dt > i64::MAX {
        i64::MAX as int
    } else {
        t + dt
    }
}

/// The substep plan is sane: there are substeps exactly when `dt > 0`,
/// never more than `dt`, and each substep length is in `[1, SUBSTEP_DT]`.
pub proof fn lemma_substep_plan(dt: int)
    requires
        0 <= dt <= DT_LIMIT,
    ensures
        spec_substep_count(dt) == 0 <==> dt == 0,
        0 <= spec_substep_count(dt) <= dt,
        forall|k: int|
            0 <= k < spec_substep_count(dt) ==> 1 <= #[trigger] spec_sub_dt(dt, k) <= SUBSTEP_DT,
{
    if dt > 0 {
        let sd = SUBSTEP_DT as int;
        let n = spec_substep_count(dt);
        lemma_div_pos_is_pos(dt - 1, sd);
        lemma_div_nonincreasing(dt - 1, sd);
        assert(1 <= n <= dt);
        lemma_fundamental_div_mod(dt - 1, sd);
        lemma_mod_division_less_than_divisor(dt - 1, sd);
        assert(sd * n >= dt);
        lemma_div_is_ordered(n, dt, n);
        lemma_div_by_self(n);
        assert(dt / n >= 1);
        lemma_div_is_ordered(dt, sd * n, n);
        lemma_div_multiples_vanish(sd, n);
        assert((n * sd) / n == sd);
        assert(sd * n == n * sd) by (nonlinear_arith);
        assert(dt / n <= sd);
        lemma_fundamental_div_mod(dt, n);
        lemma_mod_division_less_than_divisor(dt, n);
        if dt % n > 0 {
            assert(dt == n * (dt / n) + dt % n);
            assert(dt / n < sd) by (nonlinear_arith)
                requires
                    dt == n * (dt / n) + dt % n,
                    dt % n > 0,
                    dt <= sd * n,
                    n > 0,
                    dt / n <= sd,
            ;
        }
        assert(forall|k: int| 0 <= k < n ==> 1 <= #[trigger] spec_sub_dt(dt, k) <= sd);
    }
}

impl World {
    /// Every live box is well-formed, placed in the viewport, and the ids
    /// are strictly ascending and below the next id to hand out.
    pub open spec fn wf(self) -> bool {
        &&& self.bounds.wf()
        &&& -(GRAVITY_LIMIT as int) <= self.gravity.x <= GRAVITY_LIMIT
        &&& -(GRAVITY_LIMIT as int) <= self.gravity.y <= GRAVITY_LIMIT
        &&& 0 <= self.restitution <= RESTITUTION_ONE
        &&& 1 <= self.max_boxes <= BOX_COUNT_LIMIT
        &&& self.boxes@.len() <= self.max_boxes
        &&& forall|i: int| 0 <= i < self.boxes@.len() ==> (#[trigger] self.boxes@[i]).wf()
        &&& forall|i: int|
            0 <= i < self.boxes@.len() ==> placed_in(#[trigger] self.boxes@[i], self.bounds)
        &&& forall|i: int, j: int|
            0 <= i < j < self.boxes@.len() ==> (#[trigger] self.boxes@[i]).id < (
            #[trigger] self.boxes@[j]).id
        &&& forall|i: int| 0 <= i < self.boxes@.len() ==> (#[trigger] self.boxes@[i]).id < self.next_id
        &&& 0 <= self.time
    }

    /// A fresh, empty world over the given viewport and configuration.
    pub fn new(bounds: Rect, gravity: Vec2, restitution: i64, max_boxes: usize) -> (w: World)
        requires
            bounds.wf(),
            -(GRAVITY_LIMIT as int) <= gravity.x <= GRAVITY_LIMIT,
            -(GRAVITY_LIMIT as int) <= gravity.y <= GRAVITY_LIMIT,
            0 <= restitution <= RESTITUTION_ONE,
            1 <= max_boxes <= BOX_COUNT_LIMIT,
        ensures
            w.wf(),
            w.bounds == bounds,
            w.gravity == gravity,
            w.restitution == restitution,
            w.max_boxes == max_boxes,
            w.boxes@ == Seq::<SimBox>::empty(),
            w.next_id == 0,
            w.time == 0,
    {
        let w = World {
            bounds,
            gravity,
            restitution,
            max_boxes,
            boxes: Vec::new(),
            next_id: 0,
            time: 0,
        };
        proof {
            assert(w.boxes@ =~= Seq::<SimBox>::empty());
        }
        w
    }

    /// The box a successful spawn request creates: the next id, the given
    /// velocity, extents and mass, and the requested position pulled into
    /// the viewport.
    pub open spec fn spec_spawned_box(self, pos: Vec2, vel: Vec2, half: Vec2, mass: Mass) -> SimBox {
        let px = spec_settle_axis(
            pos.x as int,
            half.x as int,
            self.bounds.min.x as int,
            self.bounds.max.x as int,
        );
        let py = spec_settle_axis(
            pos.y as int,
            half.y as int,
            self.bounds.min.y as int,
            self.bounds.max.y as int,
        );
        SimBox { id: self.next_id, pos: Vec2 { x: px as i64, y: py as i64 }, vel, half, mass }
    }

    /// Spawn a box. A request with a zero or negative extent is rejected
    /// with `InvalidGeometry` and changes nothing; otherwise the box is
    /// created under a fresh id, and if the world is full the oldest box
    /// is evicted first (FIFO), so a spawn never fails for capacity.
    pub fn spawn(&mut self, pos: Vec2, vel: Vec2, half: Vec2, mass: Mass) -> (r: Result<
        u64,
        SimError,
    >)
        requires
            old(self).wf(),
            old(self).next_id < u64::MAX,
            half.x <= EXTENT_LIMIT,
            half.y <= EXTENT_LIMIT,
            -(VEL_LIMIT as int) <= vel.x <= VEL_LIMIT,
            -(VEL_LIMIT as int) <= vel.y <= VEL_LIMIT,
            mass.wf(),
        ensures
            final(self).wf(),
            r is Err <==> (half.x <= 0 || half.y <= 0),
            r is Err ==> r == Err::<u64, SimError>(SimError::InvalidGeometry) && *final(self)
                == *old(self),
            r is Ok ==> {
                &&& r == Ok::<u64, SimError>(old(self).next_id)
                &&& final(self).next_id == old(self).next_id + 1
                &&& final(self).boxes@ == (if old(self).boxes@.len() < old(self).max_boxes {
                    old(self).boxes@.push(old(self).spec_spawned_box(pos, vel, half, mass))
                } else {
                    old(self).boxes@.subrange(1, old(self).boxes@.len() as int).push(
                        old(self).spec_spawned_box(pos, vel, half, mass),
                    )
                })
                &&& final(self).bounds == old(self).bounds
                &&& final(self).gravity == old(self).gravity
                &&& final(self).restitution == old(self).restitution
                &&& final(self).max_boxes == old(self).max_boxes
                &&& final(self).time == old(self).time
            },
    {
        if half.x <= 0 || half.y <= 0 {
            return Err(SimError::InvalidGeometry);
        }
        let id = self.next_id;
        self.next_id = id + 1;
        let px = settle_axis(pos.x, half.x, self.bounds.min.x, self.bounds.max.x);
        let py = settle_axis(pos.y, half.y, self.bounds.min.y, self.bounds.max.y);
        let nb = SimBox { id, pos: Vec2 { x: px, y: py }, vel, half, mass };
        if self.boxes.len() >= self.max_boxes {
            let _evicted = self.boxes.remove(0);
        }
        self.boxes.push(nb);
        Ok(id)
    }

    /// Remove the box with the given id; a no-op when no box has it, so
    /// removal is idempotent and safe against stale references.
    pub fn remove(&mut self, id: u64)
        requires
            old(self).wf(),
        ensures
            final(self).wf(),
            final(self).boxes@ == (if find_id(old(self).boxes@, id) >= 0 {
                old(self).boxes@.remove(find_id(old(self).boxes@, id))
            } else {
                old(self).boxes@
            }),
            final(self).bounds == old(self).bounds,
            final(self).gravity == old(self).gravity,
            final(self).restitution == old(self).restitution,
            final(self).max_boxes == old(self).max_boxes,
            final(self).next_id == old(self).next_id,
            final(self).time == old(self).time,
    {
        let n = self.boxes.len();
        let mut i: usize = 0;
        while i < n
            invariant
                old(self).wf(),
                *self == *old(self),
                n == self.boxes@.len(),
                0 <= i <= n,
                forall|j: int| 0 <= j < i ==> (#[trigger] self.boxes@[j]).id != id,
            decreases n - i,
        {
            if self.boxes[i].id == id {
                proof {
                    lemma_find_id_at(self.boxes@, id, i as int);
                }
                self.boxes.remove(i);
                proof {
                    let s = old(self).boxes@;
                    let ns = self.boxes@;
                    s.remove_ensures(i as int);
                    assert forall|k: int| 0 <= k < ns.len() implies (#[trigger] ns[k]).wf()
                        && placed_in(ns[k], self.bounds) && ns[k].id < self.next_id by {
                        if k < i as int {
                            assert(ns[k] == s[k]);
                        } else {
                            assert(ns[k] == s[k + 1]);
                        }
                    }
                    assert forall|k: int, l: int| 0 <= k < l < ns.len() implies (
                    #[trigger] ns[k]).id < (#[trigger] ns[l]).id by {
                        if l < i as int {
                            assert(ns[k] == s[k] && ns[l] == s[l]);
                        } else if k < i as int {
                            assert(ns[k] == s[k] && ns[l] == s[l + 1]);
                        } else {
                            assert(ns[k] == s[k + 1] && ns[l] == s[l + 1]);
                        }
                    }
                }
                return;
            }
            i += 1;
        }
        proof {
            lemma_find_id_none(self.boxes@, id);
        }
    }

    /// A read-only copy of the live boxes, oldest first. The copy does not
    /// alias the world: the caller may mutate it freely.
    pub fn snapshot(&self) -> (r: Vec<SimBox>)
        ensures
            r@ == self.boxes@,
    {
        let mut out: Vec<SimBox> = Vec::new();
        let n = self.boxes.len();
        let mut i: usize = 0;
        while i < n
            invariant
                0 <= i <= n,
                n == self.boxes@.len(),
                out@ == self.boxes@.subrange(0, i as int),
            decreases n - i,
        {
            out.push(self.boxes[i]);
            proof {
                assert(out@ =~= self.boxes@.subrange(0, i as int + 1));
            }
            i += 1;
        }
        proof {
            assert(self.boxes@.subrange(0, n as int) =~= self.boxes@);
        }
        out
    }

    /// One substep of length `dt`: integrate every box, resolve it against
    /// the walls, resolve all pairs in ascending order, restore
    /// containment.
    fn substep(&mut self, dt: i64)
        requires
            old(self).wf(),
            1 <= dt <= SUBSTEP_DT,
        ensures
            final(self).wf(),
            final(self).boxes@ == spec_substep_seq(
                old(self).boxes@,
                old(self).gravity,
                old(self).restitution as int,
                old(self).bounds,
                dt,
            ),
            final(self).bounds == old(self).bounds,
            final(self).gravity == old(self).gravity,
            final(self).restitution == old(self).restitution,
            final(self).max_boxes == old(self).max_boxes,
            final(self).next_id == old(self).next_id,
            final(self).time == old(self).time,
            final(self).boxes@.len() == old(self).boxes@.len(),
    {
        let ghost s0 = self.boxes@;
        let g = self.gravity;
        let e = self.restitution;
        let bounds = self.bounds;
        let n = self.boxes.len();

        // Gravity and movement.
        let mut idx: usize = 0;
        while idx < n
            invariant
                old(self).wf(),
                self.bounds == old(self).bounds,
                self.gravity == old(self).gravity,
                self.restitution == old(self).restitution,
                self.max_boxes == old(self).max_boxes,
                self.next_id == old(self).next_id,
                self.time == old(self).time,
                g == old(self).gravity,
                e == old(self).restitution,
                bounds == old(self).bounds,
                s0 == old(self).boxes@,
                1 <= dt <= SUBSTEP_DT,
                n == self.boxes@.len(),
                n == s0.len(),
                0 <= idx <= n,
                forall|k: int| 0 <= k < idx ==> self.boxes@[k] == spec_integrate(s0[k], g, dt),
                forall|k: int| idx <= k < n ==> self.boxes@[k] == s0[k],
                forall|k: int|
                    0 <= k < idx ==> (#[trigger] self.boxes@[k]).wf() && -(COORD_LIMIT + 20_000 as int)
                        <= self.boxes@[k].pos.x <= COORD_LIMIT + 20_000 && -(COORD_LIMIT
                        + 20_000 as int) <= self.boxes@[k].pos.y <= COORD_LIMIT + 20_000,
            decreases n - idx,
        {
            let b = self.boxes[idx];
            proof {
                lemma_placed_in_range(s0[idx as int], bounds);
            }
            let nb = integrate(b, g, dt);
            self.boxes.set(idx, nb);
            idx += 1;
        }
        proof {
            assert(self.boxes@ =~= s0.map_values(|b: SimBox| spec_integrate(b, g, dt)));
        }
        let ghost s1 = self.boxes@;

        // Walls.
        let mut idx: usize = 0;
        while idx < n
            invariant
                old(self).wf(),
                self.bounds == old(self).bounds,
                self.gravity == old(self).gravity,
                self.restitution == old(self).restitution,
                self.max_boxes == old(self).max_boxes,
                self.next_id == old(self).next_id,
                self.time == old(self).time,
                g == old(self).gravity,
                e == old(self).restitution,
                bounds == old(self).bounds,
                s0 == old(self).boxes@,
                s1 == s0.map_values(|b: SimBox| spec_integrate(b, g, dt)),
                n == self.boxes@.len(),
                n == s1.len(),
                0 <= idx <= n,
                forall|k: int|
                    0 <= k < n ==> (#[trigger] s1[k]).wf() && -(COORD_LIMIT + 20_000 as int)
                        <= s1[k].pos.x <= COORD_LIMIT + 20_000 && -(COORD_LIMIT + 20_000 as int)
                        <= s1[k].pos.y <= COORD_LIMIT + 20_000,
                forall|k: int| 0 <= k < idx ==> self.boxes@[k] == spec_wall(s1[k], bounds, e as int),
                forall|k: int| idx <= k < n ==> self.boxes@[k] == s1[k],
                forall|k: int|
                    0 <= k < idx ==> (#[trigger] self.boxes@[k]).wf() && placed_in(
                        self.boxes@[k],
                        bounds,
                    ),
            decreases n - idx,
        {
            let b = self.boxes[idx];
            let nb = resolve_wall(b, bounds, e);
            self.boxes.set(idx, nb);
            idx += 1;
        }
        proof {
            assert(self.boxes@ =~= s1.map_values(|b: SimBox| spec_wall(b, bounds, e as int)));
        }
        let ghost s2 = self.boxes@;

        // Pairs, in ascending order.
        let mut i: usize = 0;
        while i + 1 < n
            invariant
                old(self).wf(),
                self.bounds == old(self).bounds,
                self.gravity == old(self).gravity,
                self.restitution == old(self).restitution,
                self.max_boxes == old(self).max_boxes,
                self.next_id == old(self).next_id,
                self.time == old(self).time,
                e == old(self).restitution,
                bounds == old(self).bounds,
                n == self.boxes@.len(),
                n == s2.len(),
                n <= BOX_COUNT_LIMIT,
                0 <= i <= n,
                spec_pairs_from(s2, e as int, 0, 1) == spec_pairs_from(
                    self.boxes@,
                    e as int,
                    i as int,
                    i as int + 1,
                ),
                forall|k: int| 0 <= k < n ==> (#[trigger] self.boxes@[k]).wf(),
                forall|k: int|
                    0 <= k < n ==> (#[trigger] self.boxes@[k]).id == s2[k].id && self.boxes@[k].half
                        == s2[k].half && self.boxes@[k].mass == s2[k].mass,
                forall|k: int|
                    0 <= k < n ==> iabs((#[trigger] self.boxes@[k]).pos.x as int) <= COORD_LIMIT + 2
                        * (EXTENT_LIMIT as int) * ((i as int) * (n as int) + i as int + 1) && iabs(
                        self.boxes@[k].pos.y as int,
                    ) <= COORD_LIMIT + 2 * (EXTENT_LIMIT as int) * ((i as int) * (n as int)
                        + i as int + 1),
            decreases n - i,
        {
            let mut j: usize = i + 1;
            while j < n
                invariant
                    old(self).wf(),
                    self.bounds == old(self).bounds,
                    self.gravity == old(self).gravity,
                    self.restitution == old(self).restitution,
                    self.max_boxes == old(self).max_boxes,
                    self.next_id == old(self).next_id,
                    self.time == old(self).time,
                    e == old(self).restitution,
                    bounds == old(self).bounds,
                    n == self.boxes@.len(),
                    n == s2.len(),
                    n <= BOX_COUNT_LIMIT,
                    0 <= i,
                    i + 1 < n,
                    i + 1 <= j <= n,
                    spec_pairs_from(s2, e as int, 0, 1) == spec_pairs_from(
                        self.boxes@,
                        e as int,
                        i as int,
                        j as int,
                    ),
                    forall|k: int| 0 <= k < n ==> (#[trigger] self.boxes@[k]).wf(),
                    forall|k: int|
                        0 <= k < n ==> (#[trigger] self.boxes@[k]).id == s2[k].id
                            && self.boxes@[k].half == s2[k].half && self.boxes@[k].mass
                            == s2[k].mass,
                    forall|k: int|
                        0 <= k < n ==> iabs((#[trigger] self.boxes@[k]).pos.x as int) <= COORD_LIMIT
                            + 2 * (EXTENT_LIMIT as int) * ((i as int) * (n as int) + j as int)
                            && iabs(self.boxes@[k].pos.y as int) <= COORD_LIMIT + 2 * (
                        EXTENT_LIMIT as int) * ((i as int) * (n as int) + j as int),
                decreases n - j,
            {
                let ghost pre = self.boxes@;
                proof {
                    assert((i as int) * (n as int) + j as int <= 4160) by (nonlinear_arith)
                        requires
                            0 <= i as int,
                            i as int + 1 < n as int,
                            i as int + 1 <= j as int <= n as int,
                            n as int <= 64,
                    ;
                }
                let a = self.boxes[i];
                let bb = self.boxes[j];
                let t = resolve_pair(a, bb, e);
                self.boxes.set(i, t.0);
                self.boxes.set(j, t.1);
                proof {
                    assert(self.boxes@ == spec_pair_update(pre, e as int, i as int, j as int));
                    assert(spec_pairs_from(pre, e as int, i as int, j as int) == spec_pairs_from(
                        self.boxes@,
                        e as int,
                        i as int,
                        j as int + 1,
                    ));
                }
                j += 1;
            }
            proof {
                assert(spec_pairs_from(self.boxes@, e as int, i as int, n as int)
                    == spec_pairs_from(self.boxes@, e as int, i as int + 1, i as int + 2));
                let ci = (i as int) * (n as int) + (n as int);
                let co = (i as int + 1) * (n as int) + (i as int + 1) + 1;
                assert(0 <= ci && ci <= co) by (nonlinear_arith)
                    requires
                        0 <= i as int,
                        0 <= n as int,
                        ci == (i as int) * (n as int) + (n as int),
                        co == (i as int + 1) * (n as int) + (i as int + 1) + 1,
                ;
                assert(2 * (EXTENT_LIMIT as int) * ci <= 2 * (EXTENT_LIMIT as int) * co)
                    by (nonlinear_arith)
                    requires
                        0 <= ci <= co,
                ;
            }
            i += 1;
        }
        proof {
            assert(spec_pairs_from(s2, e as int, 0, 1) == self.boxes@);
        }
        let ghost s3 = self.boxes@;

        // Containment restoration.
        let mut idx: usize = 0;
        while idx < n
            invariant
                old(self).wf(),
                self.bounds == old(self).bounds,
                self.gravity == old(self).gravity,
                self.restitution == old(self).restitution,
                self.max_boxes == old(self).max_boxes,
                self.next_id == old(self).next_id,
                self.time == old(self).time,
                bounds == old(self).bounds,
                n == self.boxes@.len(),
                n == s3.len(),
                0 <= idx <= n,
                forall|k: int| 0 <= k < n ==> (#[trigger] s3[k]).wf(),
                forall|k: int| 0 <= k < idx ==> self.boxes@[k] == spec_settle(s3[k], bounds),
                forall|k: int| idx <= k < n ==> self.boxes@[k] == s3[k],
                forall|k: int|
                    0 <= k < idx ==> (#[trigger] self.boxes@[k]).wf() && placed_in(
                        self.boxes@[k],
                        bounds,
                    ),
            decreases n - idx,
        {
            let b = self.boxes[idx];
            let nb = settle_box(b, bounds);
            self.boxes.set(idx, nb);
            idx += 1;
        }
        proof {
            assert(self.boxes@ =~= s3.map_values(|b: SimBox| spec_settle(b, bounds)));
            assert(self.boxes@ == spec_substep_seq(s0, g, e as int, bounds, dt));
            // Ids are untouched by every pass, so their strict order and
            // bound carry over from the starting state.
            assert forall|k: int| 0 <= k < n implies (#[trigger] self.boxes@[k]).id == s0[k].id by {
                assert(s1[k] == spec_integrate(s0[k], g, dt));
                assert(s2[k] == spec_wall(s1[k], bounds, e as int));
            }
        }
    }

    /// Advance the simulation by exactly `dt` milliseconds, splitting it
    /// into near-equal substeps of at most `SUBSTEP_DT` so a large `dt`
    /// (a dropped frame) cannot tunnel boxes through geometry. The whole
    /// resulting state is a mathematical function of the starting state
    /// and `dt` — there is no hidden nondeterminism — and every box ends
    /// the step inside the viewport.
    pub fn step(&mut self, dt: i64)
        requires
            old(self).wf(),
            0 <= dt <= DT_LIMIT,
        ensures
            final(self).wf(),
            final(self).boxes@ == spec_step_seq(
                old(self).boxes@,
                old(self).gravity,
                old(self).restitution as int,
                old(self).bounds,
                dt as int,
            ),
            final(self).time == spec_time_after(old(self).time as int, dt as int),
            old(self).time <= final(self).time,
            final(self).bounds == old(self).bounds,
            final(self).gravity == old(self).gravity,
            final(self).restitution == old(self).restitution,
            final(self).max_boxes == old(self).max_boxes,
            final(self).next_id == old(self).next_id,
            final(self).boxes@.len() == old(self).boxes@.len(),
            forall|i: int|
                0 <= i < final(self).boxes@.len() ==> placed_in(
                    #[trigger] final(self).boxes@[i],
                    old(self).bounds,
                ),
    {
        proof {
            lemma_substep_plan(dt as int);
        }
        let n_steps: i64 = if dt == 0 {
            0
        } else {
            (dt - 1) / SUBSTEP_DT + 1
        };
        let base: i64 = if n_steps > 0 {
            dt / n_steps
        } else {
            0
        };
        let extra: i64 = if n_steps > 0 {
            dt % n_steps
        } else {
            0
        };
        let mut k: i64 = 0;
        while k < n_steps
            invariant
                old(self).wf(),
                0 <= dt <= DT_LIMIT,
                n_steps == spec_substep_count(dt as int),
                n_steps > 0 ==> base == dt as int / (n_steps as int) && extra == dt as int % (
                n_steps as int),
                0 <= k <= n_steps,
                self.wf(),
                self.boxes@ == spec_steps_upto(
                    old(self).boxes@,
                    old(self).gravity,
                    old(self).restitution as int,
                    old(self).bounds,
                    dt as int,
                    k as int,
                ),
                self.bounds == old(self).bounds,
                self.gravity == old(self).gravity,
                self.restitution == old(self).restitution,
                self.max_boxes == old(self).max_boxes,
                self.next_id == old(self).next_id,
                self.time == old(self).time,
                self.boxes@.len() == old(self).boxes@.len(),
            decreases n_steps - k,
        {
            let sdt: i64 = if k < extra {
                base + 1
            } else {
                base
            };
            proof {
                lemma_substep_plan(dt as int);
                assert(sdt == spec_sub_dt(dt as int, k as int));
                assert(1 <= spec_sub_dt(dt as int, k as int) <= SUBSTEP_DT);
            }
            self.substep(sdt);
            k += 1;
        }
        if self.time > i64::MAX - dt {
            self.time = i64::MAX;
        } else {
            self.time = self.time + dt;
        }
    }
}

/// Perfect elasticity, end to end: with no gravity and restitution 1, a
/// lone box that fits the viewport keeps the exact magnitude of each
/// velocity component through a whole substep. Bouncing between the walls
/// therefore preserves its speed indefinitely.
pub proof fn lemma_single_elastic_substep(s: Seq<SimBox>, g: Vec2, bounds: Rect, dt: i64)
    requires
        s.len() == 1,
        s[0].wf(),
        bounds.wf(),
        placed_in(s[0], bounds),
        2 * s[0].half.x <= bounds.max.x - bounds.min.x,
        2 * s[0].half.y <= bounds.max.y - bounds.min.y,
        g.x == 0,
        g.y == 0,
        1 <= dt <= SUBSTEP_DT,
    ensures
        spec_substep_seq(s, g, RESTITUTION_ONE as int, bounds, dt).len() == 1,
        iabs(spec_substep_seq(s, g, RESTITUTION_ONE as int, bounds, dt)[0].vel.x as int) == iabs(
            s[0].vel.x as int,
        ),
        iabs(spec_substep_seq(s, g, RESTITUTION_ONE as int, bounds, dt)[0].vel.y as int) == iabs(
            s[0].vel.y as int,
        ),
{
    let e = RESTITUTION_ONE as int;
    let b = s[0];
    lemma_placed_in_range(b, bounds);
    let bi = spec_integrate(b, g, dt);
    if b.mass != Mass::Immovable {
        lemma_scale_milli_bound(b.vel.x as int, dt as int, VEL_LIMIT as int, SUBSTEP_DT as int);
        lemma_scale_milli_bound(b.vel.y as int, dt as int, VEL_LIMIT as int, SUBSTEP_DT as int);
    }
    assert(bi.vel == b.vel);
    let s1 = s.map_values(|x: SimBox| spec_integrate(x, g, dt));
    assert(s1.len() == 1 && s1[0] == bi);
    let bw = spec_wall(bi, bounds, e);
    lemma_wall_energy(
        bi.pos.x as int,
        bi.vel.x as int,
        bi.half.x as int,
        bounds.min.x as int,
        bounds.max.x as int,
        e,
    );
    lemma_wall_energy(
        bi.pos.y as int,
        bi.vel.y as int,
        bi.half.y as int,
        bounds.min.y as int,
        bounds.max.y as int,
        e,
    );
    assert(iabs(bw.vel.x as int) == iabs(b.vel.x as int));
    assert(iabs(bw.vel.y as int) == iabs(b.vel.y as int));
    let s2 = s1.map_values(|x: SimBox| spec_wall(x, bounds, e));
    assert(s2.len() == 1 && s2[0] == bw);
    assert(spec_pairs_from(s2, e, 0, 1) == s2);
    let out = spec_substep_seq(s, g, e, bounds, dt);
    assert(out.len() == 1 && out[0] == spec_settle(bw, bounds));
    assert(out[0].vel == bw.vel);
}

/// Determinism: stepping is a mathematical function of the observable
/// world state. Two worlds holding equal box sequences under the same
/// bounds, gravity and restitution step to equal box sequences — and since
/// `World::step` pins its result to `spec_step_seq`, two identically
/// constructed worlds fed identical call sequences stay identical.
pub proof fn lemma_step_deterministic(u: World, v: World, dt: int)
    requires
        u.boxes@ == v.boxes@,
        u.gravity == v.gravity,
        u.restitution == v.restitution,
        u.bounds == v.bounds,
    ensures
        spec_step_seq(u.boxes@, u.gravity, u.restitution as int, u.bounds, dt) == spec_step_seq(
            v.boxes@,
            v.gravity,
            v.restitution as int,
            v.bounds,
            dt,
        ),
{
}

} // verus!
