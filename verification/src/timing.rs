//! Beat positions and the beat-to-time conversion under a piecewise tempo
//! map.
//!
//! A beat position is the rational number `measure + numerator/denominator`.
//! Positions are quantized to integer millionths of a beat ("units");
//! tempo is kept in thousandths of beats per minute; absolute time in
//! microseconds.  One unit at tempo `bpm` thousandths lasts
//! `60e9 / (1e6 * bpm) = 60_000 / bpm` microseconds, so a span of `du`
//! units lasts `du * 60_000 / bpm` microseconds, rounded down.  The walk
//! accumulates signed time, since a breakpoint list need not be
//! chronological; magnitudes saturate at `u64::MAX`, and a final time
//! before the chart's start is clamped to 0, which stored unsigned
//! times force.

use vstd::prelude::*;

verus! {

/// Millionths of a beat per whole beat.
pub const UNITS_PER_BEAT: u64 = 1_000_000;

/// Microseconds per minute, divided by `UNITS_PER_BEAT`: the factor that
/// turns `units / bpm_thousandths` into microseconds.
pub const MICROS_FACTOR: u64 = 60_000;

/// A beat position `measure + numerator/denominator`.
#[derive(Debug, Clone, Copy, PartialEq, Eq, Structural)]
pub struct Beat {
    pub measure: i32,
    pub numer: i32,
    pub denom: i32,
}

/// A tempo breakpoint: from `beat` (resolved to absolute time `time`)
/// onwards the tempo is `bpm` thousandths of beats per minute.
#[derive(Debug, Clone, Copy, PartialEq, Eq, Structural)]
pub struct BPMChange {
    /// Absolute time of the breakpoint, microseconds.
    pub time: u64,
    /// Tempo from this breakpoint on, thousandths of beats per minute.
    pub bpm: u64,
    /// Beat position of the breakpoint.
    pub beat: Beat,
}

/// Saturation of a mathematical integer at `u64::MAX`.
pub open spec fn sat64(x: int) -> int {
    if x > u64::MAX as int {
        u64::MAX as int
    } else {
        x
    }
}

/// Clamp of a mathematical integer into the signed range the walker
/// accumulates in: magnitude at most `u64::MAX`.
pub open spec fn sat_signed(x: int) -> int {
    if x > u64::MAX as int {
        u64::MAX as int
    } else if x < -(u64::MAX as int) {
        -(u64::MAX as int)
    } else {
        x
    }
}

/// A beat is usable when its parts are non-negative and its denominator
/// positive; every beat stored in a chart satisfies this.
pub open spec fn beat_valid(b: Beat) -> bool {
    0 <= b.measure && 0 <= b.numer && 1 <= b.denom
}

/// Position of a beat in millionths of a beat, rounded down and saturated;
/// 0 for an unusable beat.
pub open spec fn beat_units_spec(b: Beat) -> int {
    if beat_valid(b) {
        sat64((b.measure * b.denom + b.numer) * (UNITS_PER_BEAT as int) / (b.denom as int))
    } else {
        0
    }
}

/// Duration in microseconds of a span of `du` units at tempo `bpm`
/// thousandths, rounded down and saturated; 0 at a non-positive tempo.
pub open spec fn seg_micros_spec(du: int, bpm: int) -> int {
    if bpm <= 0 {
        0
    } else {
        sat64(du * (MICROS_FACTOR as int) / bpm)
    }
}

/// Signed duration in microseconds of a span of `du` units at tempo
/// `bpm` thousandths.  The span is negative when a breakpoint lies
/// before the current position, and then the elapsed time is taken back
/// again; the magnitude rounds down and saturates at `u64::MAX`.
pub open spec fn seg_signed_spec(du: int, bpm: int) -> int {
    if bpm <= 0 {
        0
    } else if du >= 0 {
        sat64(du * (MICROS_FACTOR as int) / bpm)
    } else {
        -sat64((-du) * (MICROS_FACTOR as int) / bpm)
    }
}

/// Walks the breakpoints of `changes` in list order, starting at position
/// `cur` units with tempo `bpm` and accumulated time `acc`: a breakpoint
/// at or before `target` advances the position and switches the tempo —
/// backwards when its beat lies before the current position, which takes
/// the elapsed time back again; the first breakpoint beyond `target`
/// stops the walk.  The remainder up to `target` runs at the last tempo
/// in effect.
pub open spec fn walk_from(
    changes: Seq<BPMChange>,
    target: int,
    cur: int,
    bpm: int,
    acc: int,
) -> int
    decreases changes.len(),
{
    if changes.len() == 0 {
        sat_signed(acc + seg_signed_spec(target - cur, bpm))
    } else {
        let c = changes[0];
        let cu = beat_units_spec(c.beat);
        if cu <= target {
            walk_from(
                changes.drop_first(),
                target,
                cu,
                c.bpm as int,
                sat_signed(acc + seg_signed_spec(cu - cur, bpm)),
            )
        } else {
            sat_signed(acc + seg_signed_spec(target - cur, bpm))
        }
    }
}

/// Absolute time in microseconds of `target` under the breakpoints of
/// `changes`, walked in list order, starting from position 0 at tempo
/// `default_bpm`; a walk that ends before the chart's start is clamped
/// to time 0, which stored unsigned times force.
pub open spec fn beat_time_spec(changes: Seq<BPMChange>, target: Beat, default_bpm: int) -> int {
    let t = walk_from(changes, beat_units_spec(target), 0, default_bpm, 0);
    if t < 0 {
        0
    } else {
        t
    }
}

/// Position of a beat in millionths of a beat.
pub fn beat_units(b: &Beat) -> (r: u64)
    ensures
        r as int == beat_units_spec(*b),
{
    if b.measure < 0 || b.numer < 0 || b.denom < 1 {
        return 0u64;
    }
    let m = b.measure as u128;
    let n = b.numer as u128;
    let d = b.denom as u128;
    assert((m as int) * (d as int) <= 0x7fffffff * 0x7fffffff) by (nonlinear_arith)
        requires
            m as int <= 0x7fffffff,
            d as int <= 0x7fffffff,
            0 <= m as int,
            0 <= d as int,
    ;
    let whole: u128 = m * d + n;
    assert((whole as int) * 1_000_000 <= (0x7fffffff * 0x7fffffff + 0x7fffffff) * 1_000_000)
        by (nonlinear_arith)
        requires
            0 <= whole as int <= 0x7fffffff * 0x7fffffff + 0x7fffffff,
    ;
    let units: u128 = whole * (UNITS_PER_BEAT as u128) / d;
    proof {
        assert(units as int <= (whole as int) * 1_000_000) by (nonlinear_arith)
            requires
                d as int >= 1,
                0 <= whole as int,
                units as int == (whole as int) * 1_000_000 / (d as int),
        ;
    }
    if units > u64::MAX as u128 {
        u64::MAX
    } else {
        units as u64
    }
}

/// Duration in microseconds of `du` units at tempo `bpm` thousandths.
pub fn seg_micros(du: u64, bpm: u64) -> (r: u64)
    ensures
        r as int == seg_micros_spec(du as int, bpm as int),
{
    if bpm == 0 {
        return 0u64;
    }
    proof {
        assert((du as int) * (MICROS_FACTOR as int) <= (u64::MAX as int) * 60_000)
            by (nonlinear_arith)
            requires
                0 <= du as int <= u64::MAX as int,
        ;
    }
    let prod: u128 = (du as u128) * (MICROS_FACTOR as u128);
    let q: u128 = prod / (bpm as u128);
    proof {
        assert(q as int <= prod as int) by (nonlinear_arith)
            requires
                bpm as int >= 1,
                0 <= prod as int,
                q as int == prod as int / (bpm as int),
        ;
    }
    if q > u64::MAX as u128 {
        u64::MAX
    } else {
        q as u64
    }
}

/// One signed accumulation step of the walk: the clamped sum of `acc`
/// and the signed duration of the span from `from` to `to`.
fn walk_step(acc: i128, from: u64, to: u64, bpm: u64) -> (r: i128)
    requires
        -(u64::MAX as i128) <= acc <= u64::MAX as i128,
    ensures
        r as int == sat_signed(acc as int + seg_signed_spec(to as int - from as int, bpm as int)),
        -(u64::MAX as i128) <= r <= u64::MAX as i128,
{
    let d: i128 = if to >= from {
        seg_micros(to - from, bpm) as i128
    } else {
        -(seg_micros(from - to, bpm) as i128)
    };
    let s: i128 = acc + d;
    if s > u64::MAX as i128 {
        u64::MAX as i128
    } else if s < -(u64::MAX as i128) {
        -(u64::MAX as i128)
    } else {
        s
    }
}

/// Absolute time of `target` under `changes`, walked in list order from
/// position 0 at tempo `default_bpm`: the order-dependent conversion used
/// both while ingesting a chart and by the chart-level query.
pub fn beat_to_time_with_bpm_changes(changes: &Vec<BPMChange>, target: &Beat, default_bpm: u64) -> (t: u64)
    ensures
        t as int == beat_time_spec(changes@, *target, default_bpm as int),
{
    let target_u = beat_units(target);
    proof {
        assert(changes@.skip(0) =~= changes@);
    }
    let mut cur: u64 = 0;
    let mut bpm: u64 = default_bpm;
    let mut acc: i128 = 0;
    let mut i: usize = 0;
    loop
        invariant
            i <= changes@.len(),
            target_u as int == beat_units_spec(*target),
            -(u64::MAX as i128) <= acc <= u64::MAX as i128,
            walk_from(changes@.skip(i as int), target_u as int, cur as int, bpm as int, acc as int)
                == walk_from(changes@, target_u as int, 0, default_bpm as int, 0),
        decreases changes@.len() - i,
    {
        if i == changes.len() {
            let total = walk_step(acc, cur, target_u, bpm);
            proof {
                assert(changes@.skip(i as int) =~= Seq::<BPMChange>::empty());
            }
            if total < 0 {
                return 0u64;
            }
            return total as u64;
        }
        let c = changes[i];
        let cu = beat_units(&c.beat);
        proof {
            assert(changes@.skip(i as int).drop_first() =~= changes@.skip(i as int + 1));
            assert(changes@.skip(i as int)[0] == changes@[i as int]);
        }
        if cu <= target_u {
            acc = walk_step(acc, cur, cu, bpm);
            cur = cu;
            bpm = c.bpm;
            i = i + 1;
        } else {
            let total = walk_step(acc, cur, target_u, bpm);
            if total < 0 {
                return 0u64;
            }
            return total as u64;
        }
    }
}

} // verus!

