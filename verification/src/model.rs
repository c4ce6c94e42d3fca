//! The in-memory representation of a parsed chart, and its derived
//! queries: total duration, note-density histogram, tempo lookup, and the
//! chart-level beat-to-time conversion.

use vstd::prelude::*;
use crate::timing::{Beat, BPMChange, beat_time_spec, beat_to_time_with_bpm_changes, sat64};
use crate::json::JsonValue;

verus! {

/// Kind of a note.
#[derive(Debug, Clone, Copy, PartialEq, Eq, Structural)]
pub enum NoteType {
    Tap,
    Hold,
    Slide,
    Chain,
}

/// Chart header data.
#[derive(Debug, Clone)]
pub struct ChartMetadata {
    pub title: String,
    pub title_original: Option<String>,
    pub artist: String,
    pub artist_original: Option<String>,
    pub creator: String,
    pub version: String,
    pub background: Option<String>,
    pub audio: Option<String>,
    /// Audio offset, milliseconds.
    pub audio_offset: i32,
    /// Preview start, microseconds.
    pub preview_time: Option<u64>,
    /// Base tempo, thousandths of beats per minute.
    pub bpm: u64,
    pub id: Option<u64>,
    /// Coarse key-count category.
    pub mode: u8,
    /// Exact track count.
    pub columns: u8,
}

/// A meter breakpoint.
#[derive(Debug, Clone, Copy, PartialEq, Eq, Structural)]
pub struct TimeSignature {
    /// Absolute time, microseconds.
    pub time: u64,
    pub numerator: u8,
    pub denominator: u8,
    pub beat: Beat,
}

/// A scroll-speed breakpoint.
#[derive(Debug, Clone, Copy, PartialEq, Eq, Structural)]
pub struct SpeedChange {
    /// Absolute time, microseconds.
    pub time: u64,
    /// Speed multiplier, thousandths.
    pub speed: i64,
    pub beat: Beat,
}

/// One note.
#[derive(Debug, Clone)]
pub struct Note {
    pub id: u64,
    /// Start, microseconds.
    pub start_time: u64,
    /// End, microseconds; held notes only.
    pub end_time: Option<u64>,
    pub column: u8,
    pub note_type: NoteType,
    pub beat: Beat,
    pub sound: Option<String>,
    pub volume: Option<u8>,
}

/// A generic time-stamped side-channel event.
#[derive(Debug)]
pub struct ChartEvent {
    /// Absolute time, microseconds.
    pub time: u64,
    pub event_type: String,
    pub data: JsonValue,
}

/// A parsed chart: header plus the four timelines and the note list,
/// and an open key-value bag of format-specific extension data.
#[derive(Debug)]
pub struct Chart {
    pub metadata: ChartMetadata,
    pub bpm_changes: Vec<BPMChange>,
    pub time_signatures: Vec<TimeSignature>,
    pub speed_changes: Vec<SpeedChange>,
    pub notes: Vec<Note>,
    pub effects: Vec<ChartEvent>,
    pub custom_data: Vec<(String, JsonValue)>,
}

/// The time a note occupies up to: its end time where it has one, else
/// its start time.
pub open spec fn note_final_time(n: Note) -> int {
    match n.end_time {
        Some(e) => e as int,
        None => n.start_time as int,
    }
}

/// Maximum of all notes' final times; 0 with no notes.
pub open spec fn duration_spec(notes: Seq<Note>) -> int
    decreases notes.len(),
{
    if notes.len() == 0 {
        0
    } else {
        let rest = duration_spec(notes.drop_last());
        let last = note_final_time(notes.last());
        if last >= rest {
            last
        } else {
            rest
        }
    }
}

/// Tempo in effect at time `t`: walks the breakpoints in list order,
/// taking each whose time is at or before `t`, and stops at the first
/// one beyond it.
pub open spec fn bpm_at_spec(changes: Seq<BPMChange>, t: int, cur: int) -> int
    decreases changes.len(),
{
    if changes.len() == 0 {
        cur
    } else if changes[0].time <= t {
        bpm_at_spec(changes.drop_first(), t, changes[0].bpm as int)
    } else {
        cur
    }
}

/// Number of notes of `notes` whose start time falls in window `w` of
/// width `window` microseconds.
pub open spec fn window_count_spec(notes: Seq<Note>, w: int, window: int) -> int
    decreases notes.len(),
{
    if notes.len() == 0 {
        0
    } else {
        window_count_spec(notes.drop_last(), w, window) + (if notes.last().start_time as int
            / window == w {
            1int
        } else {
            0int
        })
    }
}

/// Number of windows of the histogram: one more than the duration
/// divided by the window, rounded up, so a duration past the last full
/// window still gets its own slot and one trailing window follows.
pub open spec fn window_total_spec(notes: Seq<Note>, window: int) -> int {
    sat64((duration_spec(notes) + window - 1) / window + 1)
}

/// Milli-notes per second in window `w`.
pub open spec fn density_spec(notes: Seq<Note>, w: int, window: int) -> int {
    sat64(window_count_spec(notes, w, window) * 1_000_000_000 / window)
}

/// Ascending by the `time` field.
pub open spec fn bpm_changes_sorted(l: Seq<BPMChange>) -> bool {
    forall|i: int, j: int| 0 <= i <= j < l.len() ==> l[i].time <= l[j].time
}

/// Ascending by the `time` field.
pub open spec fn time_signatures_sorted(l: Seq<TimeSignature>) -> bool {
    forall|i: int, j: int| 0 <= i <= j < l.len() ==> l[i].time <= l[j].time
}

/// Ascending by the `time` field.
pub open spec fn speed_changes_sorted(l: Seq<SpeedChange>) -> bool {
    forall|i: int, j: int| 0 <= i <= j < l.len() ==> l[i].time <= l[j].time
}

/// Ascending by the `time` field.
pub open spec fn events_sorted(l: Seq<ChartEvent>) -> bool {
    forall|i: int, j: int| 0 <= i <= j < l.len() ==> l[i].time <= l[j].time
}

/// Ascending by start time.
pub open spec fn notes_sorted(l: Seq<Note>) -> bool {
    forall|i: int, j: int| 0 <= i <= j < l.len() ==> l[i].start_time <= l[j].start_time
}

/// A note carries an end time only when held, and then not before its
/// start.
pub open spec fn note_wf(n: Note) -> bool {
    match n.end_time {
        Some(e) => n.note_type == NoteType::Hold && n.start_time <= e,
        None => true,
    }
}

/// What the parser establishes of every chart it returns: all four
/// timelines and the note list ascending by time, notes well-formed,
/// and a positive base tempo.
pub open spec fn chart_wf(c: Chart) -> bool {
    &&& bpm_changes_sorted(c.bpm_changes@)
    &&& time_signatures_sorted(c.time_signatures@)
    &&& speed_changes_sorted(c.speed_changes@)
    &&& events_sorted(c.effects@)
    &&& notes_sorted(c.notes@)
    &&& forall|i: int| 0 <= i < c.notes@.len() ==> note_wf(#[trigger] c.notes@[i])
    &&& c.metadata.bpm >= 1
}

impl Chart {
    /// An empty chart around the given header.
    pub fn new(metadata: ChartMetadata) -> (c: Chart)
        ensures
            c.metadata == metadata,
            c.bpm_changes@.len() == 0,
            c.time_signatures@.len() == 0,
            c.speed_changes@.len() == 0,
            c.notes@.len() == 0,
            c.effects@.len() == 0,
            c.custom_data@.len() == 0,
    {
        Chart {
            metadata,
            bpm_changes: Vec::new(),
            time_signatures: Vec::new(),
            speed_changes: Vec::new(),
            notes: Vec::new(),
            effects: Vec::new(),
            custom_data: Vec::new(),
        }
    }

    /// Total duration in microseconds: the largest end (or start) time
    /// of any note; 0 with no notes.
    pub fn duration(&self) -> (d: u64)
        ensures
            d as int == duration_spec(self.notes@),
    {
        let mut d: u64 = 0;
        let mut i: usize = 0;
        proof {
            assert(self.notes@.take(0) =~= Seq::<Note>::empty());
        }
        while i < self.notes.len()
            invariant
                i <= self.notes@.len(),
                d as int == duration_spec(self.notes@.take(i as int)),
            decreases self.notes@.len() - i,
        {
            let n = &self.notes[i];
            let t = match n.end_time {
                Some(e) => e,
                None => n.start_time,
            };
            if t >= d {
                d = t;
            }
            proof {
                assert(self.notes@.take(i as int + 1).drop_last() =~= self.notes@.take(i as int));
                assert(self.notes@.take(i as int + 1).last() == self.notes@[i as int]);
            }
            i = i + 1;
        }
        proof {
            assert(self.notes@.take(self.notes@.len() as int) =~= self.notes@);
        }
        d
    }

    /// How many notes the chart has.
    pub fn total_notes(&self) -> (n: usize)
        ensures
            n == self.notes@.len(),
    {
        self.notes.len()
    }

    /// Tempo in effect at time `time` (microseconds), in thousandths of
    /// beats per minute: the last breakpoint at or before `time` taken in
    /// list order, else the base tempo.
    pub fn get_bpm_at_time(&self, time: u64) -> (bpm: u64)
        ensures
            bpm as int == bpm_at_spec(self.bpm_changes@, time as int, self.metadata.bpm as int),
    {
        let mut cur: u64 = self.metadata.bpm;
        let mut i: usize = 0;
        proof {
            assert(self.bpm_changes@.skip(0) =~= self.bpm_changes@);
        }
        loop
            invariant
                i <= self.bpm_changes@.len(),
                bpm_at_spec(self.bpm_changes@, time as int, self.metadata.bpm as int)
                    == bpm_at_spec(self.bpm_changes@.skip(i as int), time as int, cur as int),
            decreases self.bpm_changes@.len() - i,
        {
            if i == self.bpm_changes.len() {
                proof {
                    assert(self.bpm_changes@.skip(i as int) =~= Seq::<BPMChange>::empty());
                }
                return cur;
            }
            let c = &self.bpm_changes[i];
            proof {
                assert(self.bpm_changes@.skip(i as int).drop_first() =~= self.bpm_changes@.skip(
                    i as int + 1,
                ));
                assert(self.bpm_changes@.skip(i as int)[0] == self.bpm_changes@[i as int]);
            }
            if c.time <= time {
                cur = c.bpm;
                i = i + 1;
            } else {
                return cur;
            }
        }
    }

    /// Absolute time of a beat under this chart's own breakpoint list,
    /// walked in list order from the base tempo: the same conversion the
    /// parser uses while ingesting, so both agree on every beat.
    pub fn beat_to_time(&self, beat: &Beat) -> (t: u64)
        ensures
            t as int == beat_time_spec(self.bpm_changes@, *beat, self.metadata.bpm as int),
    {
        beat_to_time_with_bpm_changes(&self.bpm_changes, beat, self.metadata.bpm)
    }

    /// Note-density histogram over windows of `window_us` microseconds,
    /// in thousandths of notes per second; empty when the chart has no
    /// notes or the window is empty.  A note whose start lies beyond the
    /// last window (possible only when an end time lies before a start
    /// time) is not counted.
    pub fn get_note_density(&self, window_us: u64) -> (r: Vec<u64>)
        ensures
            (self.notes@.len() == 0 || window_us == 0) ==> r@.len() == 0,
            self.notes@.len() > 0 && window_us > 0 ==> {
                &&& r@.len() == window_total_spec(self.notes@, window_us as int)
                    || (window_total_spec(self.notes@, window_us as int) > usize::MAX
                        && r@.len() == usize::MAX)
                &&& forall|w: int|
                    0 <= w < r@.len() ==> r@[w] as int == density_spec(
                        self.notes@,
                        w,
                        window_us as int,
                    )
            },
    {
        if self.notes.len() == 0 || window_us == 0 {
            return Vec::new();
        }
        let dur = self.duration();
        let total_wide: u128 = ((dur as u128) + (window_us as u128) - 1) / (window_us as u128)
            + 1;
        proof {
            assert(total_wide as int == (dur as int + window_us as int - 1) / (
            window_us as int) + 1);
        }
        let nw: usize = if total_wide > usize::MAX as u128 {
            usize::MAX
        } else {
            total_wide as usize
        };
        let mut counts: Vec<u64> = Vec::new();
        let mut k: usize = 0;
        while k < nw
            invariant
                counts@.len() == k <= nw,
                forall|w: int| 0 <= w < k ==> counts@[w] == 0,
            decreases nw - k,
        {
            counts.push(0);
            k = k + 1;
        }
        let mut i: usize = 0;
        proof {
            assert(self.notes@.take(0) =~= Seq::<Note>::empty());
        }
        while i < self.notes.len()
            invariant
                i <= self.notes@.len(),
                counts@.len() == nw,
                window_us >= 1,
                forall|w: int|
                    0 <= w < nw ==> counts@[w] as int == window_count_spec(
                        self.notes@.take(i as int),
                        w,
                        window_us as int,
                    ),
                forall|w: int| 0 <= w < nw ==> counts@[w] <= i,
            decreases self.notes@.len() - i,
        {
            let idx_wide = self.notes[i].start_time / window_us;
            proof {
                assert(self.notes@.take(i as int + 1).drop_last() =~= self.notes@.take(i as int));
                assert(self.notes@.take(i as int + 1).last() == self.notes@[i as int]);
            }
            if idx_wide < nw as u64 {
                let idx = idx_wide as usize;
                let c = counts[idx];
                counts.set(idx, c + 1);
            }
            i = i + 1;
        }
        proof {
            assert(self.notes@.take(self.notes@.len() as int) =~= self.notes@);
        }
        let mut r: Vec<u64> = Vec::new();
        let mut j: usize = 0;
        while j < nw
            invariant
                j <= nw,
                counts@.len() == nw,
                window_us >= 1,
                r@.len() == j,
                forall|w: int|
                    0 <= w < nw ==> counts@[w] as int == window_count_spec(
                        self.notes@,
                        w,
                        window_us as int,
                    ),
                forall|w: int|
                    0 <= w < j ==> r@[w] as int == density_spec(self.notes@, w, window_us as int),
            decreases nw - j,
        {
            let c = counts[j];
            let prod: u128 = (c as u128) * 1_000_000_000u128;
            let q: u128 = prod / (window_us as u128);
            let d: u64 = if q > u64::MAX as u128 {
                u64::MAX
            } else {
                q as u64
            };
            r.push(d);
            j = j + 1;
        }
        r
    }
}

} // verus!
