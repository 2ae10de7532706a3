//! The tween engine: time-stepped interpolations that animate tile
//! position, scale and the displayed score.
//!
//! Time is counted in integer units chosen by the caller (the shell uses
//! microseconds); positions and scales are fixed-point integers. Eased
//! progress is handed in as parts per million of the way from start to end,
//! so the reparameterization curves themselves — plain floating-point
//! formulas — stay with the renderer while every completion policy, loop,
//! bounce, swap and snap is decided here.

use vstd::prelude::*;

use crate::merge::sat_add;

verus! {

/// The named reparameterization curves applied to normalized progress.
#[derive(Clone, Copy, PartialEq, Eq, Structural, Debug)]
pub enum Easing {
    EaseInCirc,
    EaseInOutCirc,
    EaseOutBack,
    EaseOutBounce,
}

impl Default for Easing {
    fn default() -> (r: Easing)
        ensures
            r == Easing::EaseOutBack,
    {
        Easing::EaseOutBack
    }
}

/// Eased progress equal to the start of a tween, in parts per million.
pub const PPM_UNIT: u64 = 1_000_000;

/// The largest eased progress a curve may report: overshooting curves may
/// pass the end before settling, up to twice the distance.
pub const PPM_MAX: u64 = 2_000_000;

/// Positions and scales stay within this fixed-point range, so that an
/// overshooting interpolation still fits the type.
pub const POS_LIMIT: i64 = 100_000_000_000_000_000;

/// A fixed-point point in space (the third coordinate carries the layer).
#[derive(Clone, Copy, PartialEq, Eq, Structural, Debug)]
pub struct Position {
    pub x: i64,
    pub y: i64,
    pub z: i64,
}

/// What one tick did to one tween.
#[derive(Clone, Copy, PartialEq, Eq, Structural, Debug)]
pub enum TweenStep {
    /// Interpolation has not begun (a numeric chase inside its delay).
    Pending,
    /// In flight: the tick's progress is num/den of the duration, ready for
    /// an easing curve.
    Running { num: u64, den: u64 },
    /// Complete: the value snaps exactly to the end and the engine drops
    /// the tween.
    Finished,
}

/// Linear interpolation from a to b by ppm parts per million, in exact
/// integer arithmetic (truncating toward a).
pub open spec fn lerp(a: int, b: int, ppm: int) -> int {
    if b >= a {
        a + (b - a) * ppm / 1_000_000
    } else {
        a - (a - b) * ppm / 1_000_000
    }
}

/// At zero progress the interpolation sits at the start; at one million
/// parts per million it reaches the end exactly.
pub proof fn lemma_lerp_endpoints(a: int, b: int)
    ensures
        lerp(a, b, 0) == a,
        lerp(a, b, 1_000_000) == b,
{
    if b >= a {
        vstd::arithmetic::div_mod::lemma_div_by_multiple(b - a, 1_000_000);
    } else {
        vstd::arithmetic::div_mod::lemma_div_by_multiple(a - b, 1_000_000);
    }
}

/// Scaling a distance by at most k million parts per million keeps it
/// between zero and k times the distance.
proof fn lemma_scale_bound(diff: int, ppm: int, k: int)
    requires
        0 <= diff,
        0 <= k,
        0 <= ppm <= k * 1_000_000,
    ensures
        0 <= (diff * ppm) / 1_000_000 <= k * diff,
{
    vstd::arithmetic::mul::lemma_mul_inequality(ppm, k * 1_000_000, diff);
    assert((k * 1_000_000) * diff == 1_000_000 * (k * diff)) by (nonlinear_arith);
    assert(diff * ppm == ppm * diff) by (nonlinear_arith);
    vstd::arithmetic::div_mod::lemma_div_is_ordered(diff * ppm, 1_000_000 * (k * diff), 1_000_000);
    vstd::arithmetic::div_mod::lemma_div_multiples_vanish(k * diff, 1_000_000);
    vstd::arithmetic::mul::lemma_mul_nonnegative(diff, ppm);
    vstd::arithmetic::div_mod::lemma_div_is_ordered(0, diff * ppm, 1_000_000);
}

/// One interpolated fixed-point coordinate.
fn lerp_axis(a: i64, b: i64, eased_ppm: u64) -> (r: i64)
    requires
        -POS_LIMIT <= a <= POS_LIMIT,
        -POS_LIMIT <= b <= POS_LIMIT,
        eased_ppm <= PPM_MAX,
    ensures
        r == lerp(a as int, b as int, eased_ppm as int),
{
    proof {
        if b >= a {
            lemma_scale_bound(b - a, eased_ppm as int, 2);
        } else {
            lemma_scale_bound(a - b, eased_ppm as int, 2);
        }
    }
    if b >= a {
        let diff = (b - a) as u64;
        let scaled = (((diff as u128) * (eased_ppm as u128)) / 1_000_000) as u64;
        a + (scaled as i64)
    } else {
        let diff = (a - b) as u64;
        let scaled = (((diff as u128) * (eased_ppm as u128)) / 1_000_000) as u64;
        a - (scaled as i64)
    }
}

/// A position tween: moves an entity from start to end over `duration`
/// time units, optionally wrapping around `loop_count` more times and
/// swapping direction (bounce) at each wrap.
#[derive(Clone, Copy, PartialEq, Eq, Structural, Debug)]
pub struct MoveTo {
    pub elapsed_time: u64,
    pub duration: u64,
    pub loop_count: u32,
    pub bounce: bool,
    pub start_position: Position,
    pub end_position: Position,
    pub ease: Easing,
}

/// The coordinates lie inside the fixed-point range.
pub open spec fn pos_in_limit(p: Position) -> bool {
    &&& -POS_LIMIT <= p.x <= POS_LIMIT
    &&& -POS_LIMIT <= p.y <= POS_LIMIT
    &&& -POS_LIMIT <= p.z <= POS_LIMIT
}

impl MoveTo {
    /// A tween always runs for at least one time unit.
    pub open spec fn wf(&self) -> bool {
        self.duration > 0
    }

    /// Whether the tween outlives a tick of `delta`: it does unless the
    /// elapsed time passes the duration with no loops left.
    pub open spec fn spec_survives(self, delta: u64) -> bool {
        sat_add(self.elapsed_time, delta) < self.duration || self.loop_count > 0
    }

    /// The state one tick later. On completion with loops left, the elapsed
    /// time wraps (it continues from the remainder, not from zero), one
    /// loop is spent, and a bouncing tween swaps start and end in place.
    pub open spec fn spec_tick(self, delta: u64) -> MoveTo {
        let e = sat_add(self.elapsed_time, delta);
        if e >= self.duration && self.loop_count > 0 {
            MoveTo {
                elapsed_time: ((e as int) % (self.duration as int)) as u64,
                duration: self.duration,
                loop_count: (self.loop_count - 1) as u32,
                bounce: self.bounce,
                start_position: if self.bounce {
                    self.end_position
                } else {
                    self.start_position
                },
                end_position: if self.bounce {
                    self.start_position
                } else {
                    self.end_position
                },
                ease: self.ease,
            }
        } else {
            MoveTo {
                elapsed_time: e,
                duration: self.duration,
                loop_count: self.loop_count,
                bounce: self.bounce,
                start_position: self.start_position,
                end_position: self.end_position,
                ease: self.ease,
            }
        }
    }

    /// What a tick of `delta` reports: Finished on completion with no loop
    /// left, otherwise the progress of this frame, capped at the duration.
    pub open spec fn spec_step(self, delta: u64) -> TweenStep {
        let e = sat_add(self.elapsed_time, delta);
        if e >= self.duration && self.loop_count == 0 {
            TweenStep::Finished
        } else {
            TweenStep::Running {
                num: if e >= self.duration {
                    self.duration
                } else {
                    e
                },
                den: self.duration,
            }
        }
    }

    /// Advances the tween by `delta` time units.
    pub fn tick(&mut self, delta: u64) -> (r: TweenStep)
        requires
            old(self).wf(),
        ensures
            final(self).wf(),
            *final(self) == old(self).spec_tick(delta),
            r == old(self).spec_step(delta),
    {
        self.elapsed_time = self.elapsed_time.saturating_add(delta);
        if self.elapsed_time >= self.duration {
            if self.loop_count > 0 {
                self.loop_count = self.loop_count - 1;
                self.elapsed_time = self.elapsed_time % self.duration;
                if self.bounce {
                    let end = self.end_position;
                    self.end_position = self.start_position;
                    self.start_position = end;
                }
                TweenStep::Running { num: self.duration, den: self.duration }
            } else {
                TweenStep::Finished
            }
        } else {
            TweenStep::Running { num: self.elapsed_time, den: self.duration }
        }
    }

    /// The position at a given eased progress, for the renderer to apply
    /// while the tween is in flight.
    pub fn sample(&self, eased_ppm: u64) -> (p: Position)
        requires
            pos_in_limit(self.start_position),
            pos_in_limit(self.end_position),
            eased_ppm <= PPM_MAX,
        ensures
            p.x == lerp(self.start_position.x as int, self.end_position.x as int, eased_ppm as int),
            p.y == lerp(self.start_position.y as int, self.end_position.y as int, eased_ppm as int),
            p.z == lerp(self.start_position.z as int, self.end_position.z as int, eased_ppm as int),
    {
        Position {
            x: lerp_axis(self.start_position.x, self.end_position.x, eased_ppm),
            y: lerp_axis(self.start_position.y, self.end_position.y, eased_ppm),
            z: lerp_axis(self.start_position.z, self.end_position.z, eased_ppm),
        }
    }
}

/// A scale tween: moves a scalar scale factor from start to end, either
/// once (clamp and remove) or looping forever.
#[derive(Clone, Copy, PartialEq, Eq, Structural, Debug)]
pub struct ScaleTo {
    pub elapsed_time: u64,
    pub duration: u64,
    pub looping: bool,
    pub start_scale: i64,
    pub end_scale: i64,
    pub ease: Easing,
}

impl ScaleTo {
    pub open spec fn wf(&self) -> bool {
        self.duration > 0
    }

    /// A looping scale tween never leaves the active set.
    pub open spec fn spec_survives(self, delta: u64) -> bool {
        sat_add(self.elapsed_time, delta) < self.duration || self.looping
    }

    pub open spec fn spec_tick(self, delta: u64) -> ScaleTo {
        let e = sat_add(self.elapsed_time, delta);
        ScaleTo {
            elapsed_time: if e >= self.duration && self.looping {
                ((e as int) % (self.duration as int)) as u64
            } else {
                e
            },
            duration: self.duration,
            looping: self.looping,
            start_scale: self.start_scale,
            end_scale: self.end_scale,
            ease: self.ease,
        }
    }

    pub open spec fn spec_step(self, delta: u64) -> TweenStep {
        let e = sat_add(self.elapsed_time, delta);
        if e >= self.duration && !self.looping {
            TweenStep::Finished
        } else {
            TweenStep::Running {
                num: if e >= self.duration {
                    self.duration
                } else {
                    e
                },
                den: self.duration,
            }
        }
    }

    /// Advances the tween by `delta` time units.
    pub fn tick(&mut self, delta: u64) -> (r: TweenStep)
        requires
            old(self).wf(),
        ensures
            final(self).wf(),
            *final(self) == old(self).spec_tick(delta),
            r == old(self).spec_step(delta),
    {
        self.elapsed_time = self.elapsed_time.saturating_add(delta);
        if self.elapsed_time >= self.duration {
            if self.looping {
                self.elapsed_time = self.elapsed_time % self.duration;
                TweenStep::Running { num: self.duration, den: self.duration }
            } else {
                TweenStep::Finished
            }
        } else {
            TweenStep::Running { num: self.elapsed_time, den: self.duration }
        }
    }

    /// The scale factor at a given eased progress.
    pub fn sample(&self, eased_ppm: u64) -> (r: i64)
        requires
            -POS_LIMIT <= self.start_scale <= POS_LIMIT,
            -POS_LIMIT <= self.end_scale <= POS_LIMIT,
            eased_ppm <= PPM_MAX,
        ensures
            r == lerp(self.start_scale as int, self.end_scale as int, eased_ppm as int),
    {
        lerp_axis(self.start_scale, self.end_scale, eased_ppm)
    }
}

/// A numeric chase: the displayed number runs from start to end after an
/// initial delay, and `cur_number` is readable every tick. Before the
/// delay the current value stays at the start; on completion it snaps to
/// the end and the tween is dropped.
#[derive(Clone, Copy, PartialEq, Eq, Structural, Debug)]
pub struct ChaseNumber {
    pub elapsed_time: u64,
    pub duration: u64,
    pub delay: u64,
    pub start_number: u64,
    pub end_number: u64,
    pub cur_number: u64,
    pub ease: Easing,
}

impl ChaseNumber {
    pub open spec fn wf(&self) -> bool {
        self.duration > 0
    }

    /// Interpolation ends one delay plus one duration after the start.
    pub open spec fn spec_finish_at(self) -> u64 {
        sat_add(self.delay, self.duration)
    }

    pub open spec fn spec_survives(self, delta: u64) -> bool {
        sat_add(self.elapsed_time, delta) < self.spec_finish_at()
    }

    pub open spec fn spec_tick(self, delta: u64) -> ChaseNumber {
        let e = sat_add(self.elapsed_time, delta);
        ChaseNumber {
            elapsed_time: e,
            duration: self.duration,
            delay: self.delay,
            start_number: self.start_number,
            end_number: self.end_number,
            cur_number: if e < self.delay {
                self.start_number
            } else if e >= self.spec_finish_at() {
                self.end_number
            } else {
                self.cur_number
            },
            ease: self.ease,
        }
    }

    pub open spec fn spec_step(self, delta: u64) -> TweenStep {
        let e = sat_add(self.elapsed_time, delta);
        if e < self.delay {
            TweenStep::Pending
        } else if e >= self.spec_finish_at() {
            TweenStep::Finished
        } else {
            TweenStep::Running { num: (e - self.delay) as u64, den: self.duration }
        }
    }

    /// Advances the chase by `delta` time units.
    pub fn tick(&mut self, delta: u64) -> (r: TweenStep)
        requires
            old(self).wf(),
        ensures
            final(self).wf(),
            *final(self) == old(self).spec_tick(delta),
            r == old(self).spec_step(delta),
    {
        self.elapsed_time = self.elapsed_time.saturating_add(delta);
        let finish_at = self.delay.saturating_add(self.duration);
        if self.elapsed_time < self.delay {
            self.cur_number = self.start_number;
            TweenStep::Pending
        } else if self.elapsed_time >= finish_at {
            self.cur_number = self.end_number;
            TweenStep::Finished
        } else {
            TweenStep::Running { num: self.elapsed_time - self.delay, den: self.duration }
        }
    }

    /// Writes the displayed number for a given eased progress. Chasing
    /// never overshoots, so the progress stays within one unit and the
    /// current value stays between start and end.
    pub fn apply_eased(&mut self, eased_ppm: u64)
        requires
            eased_ppm <= PPM_UNIT,
        ensures
            final(self).cur_number == lerp(
                old(self).start_number as int,
                old(self).end_number as int,
                eased_ppm as int,
            ),
            final(self).elapsed_time == old(self).elapsed_time,
            final(self).duration == old(self).duration,
            final(self).delay == old(self).delay,
            final(self).start_number == old(self).start_number,
            final(self).end_number == old(self).end_number,
            final(self).ease == old(self).ease,
    {
        let a = self.start_number;
        let b = self.end_number;
        if b >= a {
            proof {
                lemma_scale_bound((b - a) as int, eased_ppm as int, 1);
            }
            let diff = b - a;
            let scaled = (((diff as u128) * (eased_ppm as u128)) / 1_000_000) as u64;
            self.cur_number = a + scaled;
        } else {
            proof {
                lemma_scale_bound((a - b) as int, eased_ppm as int, 1);
            }
            let diff = a - b;
            let scaled = (((diff as u128) * (eased_ppm as u128)) / 1_000_000) as u64;
            self.cur_number = a - scaled;
        }
    }
}

/// The active set with every tween of the given entity dropped.
pub open spec fn without_move_to(s: Seq<(u64, MoveTo)>, entity: u64) -> Seq<(u64, MoveTo)>
    decreases s.len(),
{
    if s.len() == 0 {
        Seq::empty()
    } else {
        let rest = without_move_to(s.drop_last(), entity);
        if s.last().0 == entity {
            rest
        } else {
            rest.push(s.last())
        }
    }
}

/// The active set one tick later: every tween advanced, finished ones gone.
pub open spec fn ticked_moves(s: Seq<(u64, MoveTo)>, delta: u64) -> Seq<(u64, MoveTo)>
    decreases s.len(),
{
    if s.len() == 0 {
        Seq::empty()
    } else {
        let rest = ticked_moves(s.drop_last(), delta);
        if s.last().1.spec_survives(delta) {
            rest.push((s.last().0, s.last().1.spec_tick(delta)))
        } else {
            rest
        }
    }
}

/// The entities whose position tween finished this tick, each with the end
/// position its value snaps to exactly.
pub open spec fn finished_moves(s: Seq<(u64, MoveTo)>, delta: u64) -> Seq<(u64, Position)>
    decreases s.len(),
{
    if s.len() == 0 {
        Seq::empty()
    } else {
        let rest = finished_moves(s.drop_last(), delta);
        if s.last().1.spec_survives(delta) {
            rest
        } else {
            rest.push((s.last().0, s.last().1.end_position))
        }
    }
}

pub open spec fn without_scale_to(s: Seq<(u64, ScaleTo)>, entity: u64) -> Seq<(u64, ScaleTo)>
    decreases s.len(),
{
    if s.len() == 0 {
        Seq::empty()
    } else {
        let rest = without_scale_to(s.drop_last(), entity);
        if s.last().0 == entity {
            rest
        } else {
            rest.push(s.last())
        }
    }
}

pub open spec fn ticked_scales(s: Seq<(u64, ScaleTo)>, delta: u64) -> Seq<(u64, ScaleTo)>
    decreases s.len(),
{
    if s.len() == 0 {
        Seq::empty()
    } else {
        let rest = ticked_scales(s.drop_last(), delta);
        if s.last().1.spec_survives(delta) {
            rest.push((s.last().0, s.last().1.spec_tick(delta)))
        } else {
            rest
        }
    }
}

pub open spec fn finished_scales(s: Seq<(u64, ScaleTo)>, delta: u64) -> Seq<(u64, i64)>
    decreases s.len(),
{
    if s.len() == 0 {
        Seq::empty()
    } else {
        let rest = finished_scales(s.drop_last(), delta);
        if s.last().1.spec_survives(delta) {
            rest
        } else {
            rest.push((s.last().0, s.last().1.end_scale))
        }
    }
}

pub open spec fn without_chase(s: Seq<(u64, ChaseNumber)>, entity: u64) -> Seq<(u64, ChaseNumber)>
    decreases s.len(),
{
    if s.len() == 0 {
        Seq::empty()
    } else {
        let rest = without_chase(s.drop_last(), entity);
        if s.last().0 == entity {
            rest
        } else {
            rest.push(s.last())
        }
    }
}

pub open spec fn ticked_chases(s: Seq<(u64, ChaseNumber)>, delta: u64) -> Seq<(u64, ChaseNumber)>
    decreases s.len(),
{
    if s.len() == 0 {
        Seq::empty()
    } else {
        let rest = ticked_chases(s.drop_last(), delta);
        if s.last().1.spec_survives(delta) {
            rest.push((s.last().0, s.last().1.spec_tick(delta)))
        } else {
            rest
        }
    }
}

pub open spec fn finished_chases(s: Seq<(u64, ChaseNumber)>, delta: u64) -> Seq<(u64, u64)>
    decreases s.len(),
{
    if s.len() == 0 {
        Seq::empty()
    } else {
        let rest = finished_chases(s.drop_last(), delta);
        if s.last().1.spec_survives(delta) {
            rest
        } else {
            rest.push((s.last().0, s.last().1.end_number))
        }
    }
}

/// The single active set of tweens, keyed by the animated entity and
/// advanced once per frame. A finished tween leaves the set the tick it
/// completes; looping and bouncing ones persist and reset.
pub struct TweenEngine {
    pub moves: Vec<(u64, MoveTo)>,
    pub scales: Vec<(u64, ScaleTo)>,
    pub chases: Vec<(u64, ChaseNumber)>,
}

impl TweenEngine {
    /// Every active tween has a positive duration.
    pub open spec fn wf(&self) -> bool {
        &&& forall|i: int| 0 <= i < self.moves@.len() ==> (#[trigger] self.moves@[i]).1.wf()
        &&& forall|i: int| 0 <= i < self.scales@.len() ==> (#[trigger] self.scales@[i]).1.wf()
        &&& forall|i: int| 0 <= i < self.chases@.len() ==> (#[trigger] self.chases@[i]).1.wf()
    }

    /// An empty active set.
    pub fn new() -> (e: TweenEngine)
        ensures
            e.wf(),
            e.moves@ == Seq::<(u64, MoveTo)>::empty(),
            e.scales@ == Seq::<(u64, ScaleTo)>::empty(),
            e.chases@ == Seq::<(u64, ChaseNumber)>::empty(),
    {
        TweenEngine { moves: Vec::new(), scales: Vec::new(), chases: Vec::new() }
    }

    /// Attaches a position tween to an entity, replacing any it had.
    pub fn add_move_to(&mut self, entity: u64, tween: MoveTo)
        requires
            old(self).wf(),
            tween.wf(),
        ensures
            final(self).wf(),
            final(self).moves@ == without_move_to(old(self).moves@, entity).push((entity, tween)),
            final(self).scales@ == old(self).scales@,
            final(self).chases@ == old(self).chases@,
    {
        let ghost orig = self.moves@;
        let mut kept: Vec<(u64, MoveTo)> = Vec::new();
        let mut i: usize = 0;
        while i < self.moves.len()
            invariant
                i <= orig.len(),
                self.moves@ == orig,
                kept@ == without_move_to(orig.take(i as int), entity),
            decreases orig.len() - i,
        {
            let p = self.moves[i];
            proof {
                assert(orig.take(i + 1).drop_last() =~= orig.take(i as int));
                assert(orig.take(i + 1).last() == p);
            }
            if p.0 != entity {
                kept.push(p);
            }
            i = i + 1;
        }
        proof {
            assert(orig.take(orig.len() as int) =~= orig);
        }
        kept.push((entity, tween));
        self.moves = kept;
        proof {
            lemma_without_move_to_wf(orig, entity);
        }
    }

    /// Attaches a scale tween to an entity, replacing any it had.
    pub fn add_scale_to(&mut self, entity: u64, tween: ScaleTo)
        requires
            old(self).wf(),
            tween.wf(),
        ensures
            final(self).wf(),
            final(self).scales@ == without_scale_to(old(self).scales@, entity).push(
                (entity, tween),
            ),
            final(self).moves@ == old(self).moves@,
            final(self).chases@ == old(self).chases@,
    {
        let ghost orig = self.scales@;
        let mut kept: Vec<(u64, ScaleTo)> = Vec::new();
        let mut i: usize = 0;
        while i < self.scales.len()
            invariant
                i <= orig.len(),
                self.scales@ == orig,
                kept@ == without_scale_to(orig.take(i as int), entity),
            decreases orig.len() - i,
        {
            let p = self.scales[i];
            proof {
                assert(orig.take(i + 1).drop_last() =~= orig.take(i as int));
                assert(orig.take(i + 1).last() == p);
            }
            if p.0 != entity {
                kept.push(p);
            }
            i = i + 1;
        }
        proof {
            assert(orig.take(orig.len() as int) =~= orig);
        }
        kept.push((entity, tween));
        self.scales = kept;
        proof {
            lemma_without_scale_to_wf(orig, entity);
        }
    }

    /// Attaches a numeric chase to an entity, replacing any it had.
    pub fn add_chase_number(&mut self, entity: u64, tween: ChaseNumber)
        requires
            old(self).wf(),
            tween.wf(),
        ensures
            final(self).wf(),
            final(self).chases@ == without_chase(old(self).chases@, entity).push((entity, tween)),
            final(self).moves@ == old(self).moves@,
            final(self).scales@ == old(self).scales@,
    {
        let ghost orig = self.chases@;
        let mut kept: Vec<(u64, ChaseNumber)> = Vec::new();
        let mut i: usize = 0;
        while i < self.chases.len()
            invariant
                i <= orig.len(),
                self.chases@ == orig,
                kept@ == without_chase(orig.take(i as int), entity),
            decreases orig.len() - i,
        {
            let p = self.chases[i];
            proof {
                assert(orig.take(i + 1).drop_last() =~= orig.take(i as int));
                assert(orig.take(i + 1).last() == p);
            }
            if p.0 != entity {
                kept.push(p);
            }
            i = i + 1;
        }
        proof {
            assert(orig.take(orig.len() as int) =~= orig);
        }
        kept.push((entity, tween));
        self.chases = kept;
        proof {
            lemma_without_chase_wf(orig, entity);
        }
    }

    /// Advances every position tween by `delta`, dropping the finished
    /// ones. Returns, per finished tween, the entity and the end position
    /// its value snaps to exactly.
    pub fn update_move_to(&mut self, delta: u64) -> (snaps: Vec<(u64, Position)>)
        requires
            old(self).wf(),
        ensures
            final(self).wf(),
            final(self).moves@ == ticked_moves(old(self).moves@, delta),
            snaps@ == finished_moves(old(self).moves@, delta),
            final(self).scales@ == old(self).scales@,
            final(self).chases@ == old(self).chases@,
    {
        let ghost orig = self.moves@;
        let mut kept: Vec<(u64, MoveTo)> = Vec::new();
        let mut snaps: Vec<(u64, Position)> = Vec::new();
        let mut i: usize = 0;
        while i < self.moves.len()
            invariant
                i <= orig.len(),
                self.moves@ == orig,
                forall|j: int| 0 <= j < orig.len() ==> (#[trigger] orig[j]).1.wf(),
                kept@ == ticked_moves(orig.take(i as int), delta),
                snaps@ == finished_moves(orig.take(i as int), delta),
                forall|j: int| 0 <= j < kept@.len() ==> (#[trigger] kept@[j]).1.wf(),
            decreases orig.len() - i,
        {
            let p = self.moves[i];
            proof {
                assert(orig.take(i + 1).drop_last() =~= orig.take(i as int));
                assert(orig.take(i + 1).last() == p);
            }
            let mut t = p.1;
            let step = t.tick(delta);
            if matches!(step, TweenStep::Finished) {
                snaps.push((p.0, t.end_position));
                proof {
                    assert(!p.1.spec_survives(delta));
                    assert(t.end_position == p.1.end_position);
                }
            } else {
                kept.push((p.0, t));
                proof {
                    assert(p.1.spec_survives(delta));
                }
            }
            i = i + 1;
        }
        proof {
            assert(orig.take(orig.len() as int) =~= orig);
        }
        self.moves = kept;
        snaps
    }

    /// Advances every scale tween by `delta`, dropping the finished ones.
    /// Returns, per finished tween, the entity and the exact end scale.
    pub fn update_scale_to(&mut self, delta: u64) -> (snaps: Vec<(u64, i64)>)
        requires
            old(self).wf(),
        ensures
            final(self).wf(),
            final(self).scales@ == ticked_scales(old(self).scales@, delta),
            snaps@ == finished_scales(old(self).scales@, delta),
            final(self).moves@ == old(self).moves@,
            final(self).chases@ == old(self).chases@,
    {
        let ghost orig = self.scales@;
        let mut kept: Vec<(u64, ScaleTo)> = Vec::new();
        let mut snaps: Vec<(u64, i64)> = Vec::new();
        let mut i: usize = 0;
        while i < self.scales.len()
            invariant
                i <= orig.len(),
                self.scales@ == orig,
                forall|j: int| 0 <= j < orig.len() ==> (#[trigger] orig[j]).1.wf(),
                kept@ == ticked_scales(orig.take(i as int), delta),
                snaps@ == finished_scales(orig.take(i as int), delta),
                forall|j: int| 0 <= j < kept@.len() ==> (#[trigger] kept@[j]).1.wf(),
            decreases orig.len() - i,
        {
            let p = self.scales[i];
            proof {
                assert(orig.take(i + 1).drop_last() =~= orig.take(i as int));
                assert(orig.take(i + 1).last() == p);
            }
            let mut t = p.1;
            let step = t.tick(delta);
            if matches!(step, TweenStep::Finished) {
                snaps.push((p.0, t.end_scale));
            } else {
                kept.push((p.0, t));
            }
            i = i + 1;
        }
        proof {
            assert(orig.take(orig.len() as int) =~= orig);
        }
        self.scales = kept;
        snaps
    }

    /// Advances every numeric chase by `delta`, dropping the finished ones.
    /// Returns, per finished chase, the entity and the exact end number.
    pub fn update_chase_numbers(&mut self, delta: u64) -> (snaps: Vec<(u64, u64)>)
        requires
            old(self).wf(),
        ensures
            final(self).wf(),
            final(self).chases@ == ticked_chases(old(self).chases@, delta),
            snaps@ == finished_chases(old(self).chases@, delta),
            final(self).moves@ == old(self).moves@,
            final(self).scales@ == old(self).scales@,
    {
        let ghost orig = self.chases@;
        let mut kept: Vec<(u64, ChaseNumber)> = Vec::new();
        let mut snaps: Vec<(u64, u64)> = Vec::new();
        let mut i: usize = 0;
        while i < self.chases.len()
            invariant
                i <= orig.len(),
                self.chases@ == orig,
                forall|j: int| 0 <= j < orig.len() ==> (#[trigger] orig[j]).1.wf(),
                kept@ == ticked_chases(orig.take(i as int), delta),
                snaps@ == finished_chases(orig.take(i as int), delta),
                forall|j: int| 0 <= j < kept@.len() ==> (#[trigger] kept@[j]).1.wf(),
            decreases orig.len() - i,
        {
            let p = self.chases[i];
            proof {
                assert(orig.take(i + 1).drop_last() =~= orig.take(i as int));
                assert(orig.take(i + 1).last() == p);
            }
            let mut t = p.1;
            let step = t.tick(delta);
            if matches!(step, TweenStep::Finished) {
                snaps.push((p.0, t.end_number));
            } else {
                kept.push((p.0, t));
            }
            i = i + 1;
        }
        proof {
            assert(orig.take(orig.len() as int) =~= orig);
        }
        self.chases = kept;
        snaps
    }

    /// Whether the entity has an active position tween.
    pub fn has_move_to(&self, entity: u64) -> (r: bool)
        ensures
            r == exists|i: int|
                0 <= i < self.moves@.len() && (#[trigger] self.moves@[i]).0 == entity,
    {
        let mut i: usize = 0;
        while i < self.moves.len()
            invariant
                i <= self.moves@.len(),
                forall|j: int| 0 <= j < i ==> (#[trigger] self.moves@[j]).0 != entity,
            decreases self.moves@.len() - i,
        {
            if self.moves[i].0 == entity {
                return true;
            }
            i = i + 1;
        }
        false
    }

    /// Whether the entity has an active scale tween.
    pub fn has_scale_to(&self, entity: u64) -> (r: bool)
        ensures
            r == exists|i: int|
                0 <= i < self.scales@.len() && (#[trigger] self.scales@[i]).0 == entity,
    {
        let mut i: usize = 0;
        while i < self.scales.len()
            invariant
                i <= self.scales@.len(),
                forall|j: int| 0 <= j < i ==> (#[trigger] self.scales@[j]).0 != entity,
            decreases self.scales@.len() - i,
        {
            if self.scales[i].0 == entity {
                return true;
            }
            i = i + 1;
        }
        false
    }

    /// Whether the entity has an active numeric chase.
    pub fn has_chase_number(&self, entity: u64) -> (r: bool)
        ensures
            r == exists|i: int|
                0 <= i < self.chases@.len() && (#[trigger] self.chases@[i]).0 == entity,
    {
        let mut i: usize = 0;
        while i < self.chases.len()
            invariant
                i <= self.chases@.len(),
                forall|j: int| 0 <= j < i ==> (#[trigger] self.chases@[j]).0 != entity,
            decreases self.chases@.len() - i,
        {
            if self.chases[i].0 == entity {
                return true;
            }
            i = i + 1;
        }
        false
    }

    /// Cancels an entity's tweens (as when its tile despawns): they simply
    /// leave the active set, with no completion step.
    pub fn remove_entity(&mut self, entity: u64)
        requires
            old(self).wf(),
        ensures
            final(self).wf(),
            final(self).moves@ == without_move_to(old(self).moves@, entity),
            final(self).scales@ == without_scale_to(old(self).scales@, entity),
            final(self).chases@ == without_chase(old(self).chases@, entity),
    {
        let ghost om = self.moves@;
        let ghost os = self.scales@;
        let ghost oc = self.chases@;
        let mut kept_m: Vec<(u64, MoveTo)> = Vec::new();
        let mut i: usize = 0;
        while i < self.moves.len()
            invariant
                i <= om.len(),
                self.moves@ == om,
                kept_m@ == without_move_to(om.take(i as int), entity),
            decreases om.len() - i,
        {
            let p = self.moves[i];
            proof {
                assert(om.take(i + 1).drop_last() =~= om.take(i as int));
                assert(om.take(i + 1).last() == p);
            }
            if p.0 != entity {
                kept_m.push(p);
            }
            i = i + 1;
        }
        let mut kept_s: Vec<(u64, ScaleTo)> = Vec::new();
        let mut j: usize = 0;
        while j < self.scales.len()
            invariant
                j <= os.len(),
                self.scales@ == os,
                self.moves@ == om,
                kept_s@ == without_scale_to(os.take(j as int), entity),
            decreases os.len() - j,
        {
            let p = self.scales[j];
            proof {
                assert(os.take(j + 1).drop_last() =~= os.take(j as int));
                assert(os.take(j + 1).last() == p);
            }
            if p.0 != entity {
                kept_s.push(p);
            }
            j = j + 1;
        }
        let mut kept_c: Vec<(u64, ChaseNumber)> = Vec::new();
        let mut k: usize = 0;
        while k < self.chases.len()
            invariant
                k <= oc.len(),
                self.chases@ == oc,
                self.moves@ == om,
                self.scales@ == os,
                kept_c@ == without_chase(oc.take(k as int), entity),
            decreases oc.len() - k,
        {
            let p = self.chases[k];
            proof {
                assert(oc.take(k + 1).drop_last() =~= oc.take(k as int));
                assert(oc.take(k + 1).last() == p);
            }
            if p.0 != entity {
                kept_c.push(p);
            }
            k = k + 1;
        }
        proof {
            assert(om.take(om.len() as int) =~= om);
            assert(os.take(os.len() as int) =~= os);
            assert(oc.take(oc.len() as int) =~= oc);
        }
        self.moves = kept_m;
        self.scales = kept_s;
        self.chases = kept_c;
        proof {
            lemma_without_move_to_wf(om, entity);
            lemma_without_scale_to_wf(os, entity);
            lemma_without_chase_wf(oc, entity);
        }
    }
}

/// Dropping an entity's tweens keeps the rest well formed.
proof fn lemma_without_move_to_wf(s: Seq<(u64, MoveTo)>, entity: u64)
    requires
        forall|i: int| 0 <= i < s.len() ==> (#[trigger] s[i]).1.wf(),
    ensures
        forall|i: int|
            0 <= i < without_move_to(s, entity).len() ==> (#[trigger] without_move_to(
                s,
                entity,
            )[i]).1.wf(),
    decreases s.len(),
{
    if s.len() > 0 {
        let dropped = s.drop_last();
        assert forall|j: int| 0 <= j < dropped.len() implies (#[trigger] dropped[j]).1.wf() by {
            assert(dropped[j] == s[j]);
        }
        lemma_without_move_to_wf(s.drop_last(), entity);
        let rest = without_move_to(s.drop_last(), entity);
        assert forall|i: int|
            0 <= i < without_move_to(s, entity).len() implies (#[trigger] without_move_to(s, entity)[i]).1.wf() by {
            if s.last().0 == entity {
                assert(without_move_to(s, entity)[i] == rest[i]);
            } else {
                if i < rest.len() {
                    assert(without_move_to(s, entity)[i] == rest[i]);
                } else {
                    assert(without_move_to(s, entity)[i] == s.last());
                    assert(s[s.len() - 1].1.wf());
                }
            }
        }
    }
}

proof fn lemma_without_scale_to_wf(s: Seq<(u64, ScaleTo)>, entity: u64)
    requires
        forall|i: int| 0 <= i < s.len() ==> (#[trigger] s[i]).1.wf(),
    ensures
        forall|i: int|
            0 <= i < without_scale_to(s, entity).len() ==> (#[trigger] without_scale_to(
                s,
                entity,
            )[i]).1.wf(),
    decreases s.len(),
{
    if s.len() > 0 {
        let dropped = s.drop_last();
        assert forall|j: int| 0 <= j < dropped.len() implies (#[trigger] dropped[j]).1.wf() by {
            assert(dropped[j] == s[j]);
        }
        lemma_without_scale_to_wf(s.drop_last(), entity);
        let rest = without_scale_to(s.drop_last(), entity);
        assert forall|i: int|
            0 <= i < without_scale_to(s, entity).len() implies (#[trigger] without_scale_to(s, entity)[i]).1.wf() by {
            if s.last().0 == entity {
                assert(without_scale_to(s, entity)[i] == rest[i]);
            } else {
                if i < rest.len() {
                    assert(without_scale_to(s, entity)[i] == rest[i]);
                } else {
                    assert(without_scale_to(s, entity)[i] == s.last());
                    assert(s[s.len() - 1].1.wf());
                }
            }
        }
    }
}

proof fn lemma_without_chase_wf(s: Seq<(u64, ChaseNumber)>, entity: u64)
    requires
        forall|i: int| 0 <= i < s.len() ==> (#[trigger] s[i]).1.wf(),
    ensures
        forall|i: int|
            0 <= i < without_chase(s, entity).len() ==> (#[trigger] without_chase(
                s,
                entity,
            )[i]).1.wf(),
    decreases s.len(),
{
    if s.len() > 0 {
        let dropped = s.drop_last();
        assert forall|j: int| 0 <= j < dropped.len() implies (#[trigger] dropped[j]).1.wf() by {
            assert(dropped[j] == s[j]);
        }
        lemma_without_chase_wf(s.drop_last(), entity);
        let rest = without_chase(s.drop_last(), entity);
        assert forall|i: int|
            0 <= i < without_chase(s, entity).len() implies (#[trigger] without_chase(s, entity)[i]).1.wf() by {
            if s.last().0 == entity {
                assert(without_chase(s, entity)[i] == rest[i]);
            } else {
                if i < rest.len() {
                    assert(without_chase(s, entity)[i] == rest[i]);
                } else {
                    assert(without_chase(s, entity)[i] == s.last());
                    assert(s[s.len() - 1].1.wf());
                }
            }
        }
    }
}

} // verus!
