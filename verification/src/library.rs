//! The library index: per-chart summaries with identity, difficulty
//! level, tags and play statistics, and the merge, search and lookup
//! operations over them.

use vstd::prelude::*;
use vstd::utf8::{valid_utf8, decode_utf8};
use crate::model::{Chart, Note, NoteType, duration_spec};
use crate::text::{dec_str, u64_to_string};
use crate::timing::sat64;
use crate::identity::{generate_chart_id, chart_id_spec, identity_spec};
use crate::parser::{
    sort_by_time_key, lemma_map_multiset, extract_spec, effects_fold, primary_changes,
    base_bpm_spec, SortKey,
};
use crate::json::spec_parse_json;
use crate::error::CoreError;

verus! {

/// The non-negative integer square root: the unique `r` with
/// `r*r <= x < (r+1)*(r+1)`.
pub open spec fn isqrt_spec(x: int) -> int {
    choose|r: int| 0 <= r && #[trigger] (r * r) <= x && x < (r + 1) * (r + 1)
}

proof fn lemma_isqrt_unique(x: int, r1: int, r2: int)
    requires
        0 <= r1,
        r1 * r1 <= x,
        x < (r1 + 1) * (r1 + 1),
        0 <= r2,
        r2 * r2 <= x,
        x < (r2 + 1) * (r2 + 1),
    ensures
        r1 == r2,
{
    assert(r1 == r2) by (nonlinear_arith)
        requires
            0 <= r1,
            r1 * r1 <= x,
            x < (r1 + 1) * (r1 + 1),
            0 <= r2,
            r2 * r2 <= x,
            x < (r2 + 1) * (r2 + 1),
    ;
}

/// The integer square root.
fn isqrt64(x: u64) -> (r: u64)
    ensures
        r as int == isqrt_spec(x as int),
        r as int * r as int <= x as int,
        (x as int) < (r as int + 1) * (r as int + 1),
{
    let mut lo: u64 = 0;
    let mut hi: u64 = 4294967296;
    proof {
        assert((4294967296 as int) * (4294967296 as int) > u64::MAX as int) by (nonlinear_arith);
    }
    while lo + 1 < hi
        invariant
            lo < hi <= 4294967296,
            (lo as int) * (lo as int) <= x as int,
            (x as int) < (hi as int) * (hi as int),
        decreases hi - lo,
    {
        let mid = lo + (hi - lo) / 2;
        proof {
            assert((mid as int) * (mid as int) < 0x10000000000000000 * 0x10000000000000000)
                by (nonlinear_arith)
                requires
                    0 <= mid as int,
                    (mid as int) < 0x10000000000000000,
            ;
        }
        let sq: u128 = (mid as u128) * (mid as u128);
        if sq <= x as u128 {
            lo = mid;
        } else {
            hi = mid;
        }
    }
    proof {
        assert(hi == lo + 1);
        lemma_isqrt_unique(x as int, lo as int, isqrt_spec(x as int));
    }
    lo
}

/// How many notes are holds.
pub open spec fn holds_count(notes: Seq<Note>) -> int
    decreases notes.len(),
{
    if notes.len() == 0 {
        0
    } else {
        holds_count(notes.drop_last()) + (if notes.last().note_type == NoteType::Hold {
            1int
        } else {
            0int
        })
    }
}

/// How many notes are holds.
pub fn count_holds(chart: &Chart) -> (r: usize)
    ensures
        r as int == holds_count(chart.notes@),
        r <= chart.notes@.len(),
{
    let mut r: usize = 0;
    let mut i: usize = 0;
    proof {
        assert(chart.notes@.take(0) =~= Seq::<Note>::empty());
    }
    while i < chart.notes.len()
        invariant
            i <= chart.notes@.len(),
            r as int == holds_count(chart.notes@.take(i as int)),
            r <= i,
        decreases chart.notes@.len() - i,
    {
        proof {
            assert(chart.notes@.take(i as int + 1).drop_last() =~= chart.notes@.take(i as int));
            assert(chart.notes@.take(i as int + 1).last() == chart.notes@[i as int]);
        }
        let is_hold = match chart.notes[i].note_type {
            NoteType::Hold => true,
            _ => false,
        };
        if is_hold {
            r = r + 1;
        }
        i = i + 1;
    }
    proof {
        assert(chart.notes@.take(chart.notes@.len() as int) =~= chart.notes@);
    }
    r
}

/// The difficulty heuristic, in thousandths of a second and thousandths
/// of a tempo unit: `density` is notes per second (thousandths), the
/// base is `20 * sqrt(density * tempo / 5000)` and the hold bonus is
/// five times the hold fraction, both in thousandths of a level; the sum
/// is clamped to `[1, 30]` levels and rounded to the nearest level.
pub open spec fn difficulty_level_spec(count: int, dur_us: int, bpm: int, holds: int) -> int {
    let maxdur = if dur_us >= 1_000_000 {
        dur_us
    } else {
        1_000_000
    };
    let dm = sat64(count * 1_000_000_000 / maxdur);
    let x = sat64(dm * bpm / 5000);
    let base = 20 * isqrt_spec(x);
    let maxcount = if count >= 1 {
        count
    } else {
        1
    };
    let bonus = holds * 5000 / maxcount;
    let lm = base + bonus;
    let clamped = if lm < 1000 {
        1000
    } else if lm > 30000 {
        30000
    } else {
        lm
    };
    (clamped + 500) / 1000
}

/// The difficulty level of a chart, always within 1 to 30.
pub fn calculate_difficulty_level(chart: &Chart) -> (r: u8)
    ensures
        r as int == difficulty_level_spec(
            chart.notes@.len() as int,
            duration_spec(chart.notes@),
            chart.metadata.bpm as int,
            holds_count(chart.notes@),
        ),
        1 <= r <= 30,
{
    let count = chart.total_notes();
    let dur = chart.duration();
    let holds = count_holds(chart);
    let maxdur: u64 = if dur >= 1_000_000 {
        dur
    } else {
        1_000_000
    };
    let dmw: u128 = (count as u128) * 1_000_000_000u128 / (maxdur as u128);
    proof {
        assert((count as int) * 1_000_000_000 <= (u64::MAX as int) * 1_000_000_000)
            by (nonlinear_arith)
            requires
                0 <= count as int <= u64::MAX as int,
        ;
        assert(dmw as int <= (count as int) * 1_000_000_000) by (nonlinear_arith)
            requires
                maxdur as int >= 1,
                0 <= (count as int) * 1_000_000_000,
                dmw as int == (count as int) * 1_000_000_000 / (maxdur as int),
        ;
    }
    let dm: u64 = if dmw > u64::MAX as u128 {
        u64::MAX
    } else {
        dmw as u64
    };
    proof {
        assert((dm as int) * (chart.metadata.bpm as int) < 0x10000000000000000
            * 0x10000000000000000) by (nonlinear_arith)
            requires
                0 <= dm as int,
                (dm as int) < 0x10000000000000000,
                0 <= chart.metadata.bpm as int,
                (chart.metadata.bpm as int) < 0x10000000000000000,
        ;
    }
    let xw: u128 = (dm as u128) * (chart.metadata.bpm as u128) / 5000u128;
    proof {
        assert(xw as int <= (dm as int) * (chart.metadata.bpm as int)) by (nonlinear_arith)
            requires
                0 <= (dm as int) * (chart.metadata.bpm as int),
                xw as int == (dm as int) * (chart.metadata.bpm as int) / 5000,
        ;
    }
    let x: u64 = if xw > u64::MAX as u128 {
        u64::MAX
    } else {
        xw as u64
    };
    let isq = isqrt64(x);
    proof {
        assert(isq as int * isq as int <= u64::MAX as int);
        assert(isq as int <= 4294967296) by (nonlinear_arith)
            requires
                0 <= isq as int,
                isq as int * isq as int <= u64::MAX as int,
        ;
    }
    let base: u64 = 20 * isq;
    let maxcount: usize = if count >= 1 {
        count
    } else {
        1
    };
    let bonusw: u128 = (holds as u128) * 5000u128 / (maxcount as u128);
    proof {
        assert((holds as int) * 5000 <= (u64::MAX as int) * 5000) by (nonlinear_arith)
            requires
                0 <= holds as int <= u64::MAX as int,
        ;
        assert(bonusw as int <= 5000) by (nonlinear_arith)
            requires
                holds as int <= maxcount as int,
                maxcount as int >= 1,
                bonusw as int == (holds as int) * 5000 / (maxcount as int),
                0 <= holds as int,
        ;
    }
    let bonus: u64 = bonusw as u64;
    let lm: u64 = base + bonus;
    let clamped: u64 = if lm < 1000 {
        1000
    } else if lm > 30000 {
        30000
    } else {
        lm
    };
    let level: u64 = (clamped + 500) / 1000;
    level as u8
}

/// The tag list of a chart: one mode tag, then tempo, length and
/// hold-share tags where their thresholds are met.
pub open spec fn tags_spec(mode: u8, columns: u8, bpm: int, count: int, holds: int) -> Seq<
    Seq<char>,
> {
    let mode_tag = if mode == 0 {
        "4k"@
    } else if mode == 1 {
        "5k"@
    } else if mode == 2 {
        "6k"@
    } else if mode == 3 {
        "7k"@
    } else if mode == 4 {
        "8k"@
    } else {
        dec_str(columns as int) + "k"@
    };
    let bpm_tags: Seq<Seq<char>> = if bpm >= 180_000 {
        seq!["high-bpm"@]
    } else if bpm <= 100_000 {
        seq!["low-bpm"@]
    } else {
        Seq::empty()
    };
    let len_tags: Seq<Seq<char>> = if count >= 1000 {
        seq!["long"@]
    } else if count <= 100 {
        seq!["short"@]
    } else {
        Seq::empty()
    };
    let hold_tags: Seq<Seq<char>> = if holds * 10 > count * 3 {
        seq!["hold-heavy"@]
    } else {
        Seq::empty()
    };
    seq![mode_tag] + bpm_tags + len_tags + hold_tags
}

/// View of a tag list.
pub open spec fn tag_views(ts: Seq<String>) -> Seq<Seq<char>> {
    Seq::new(
        ts.len(),
        |i: int|
            if 0 <= i < ts.len() {
                ts[i]@
            } else {
                Seq::empty()
            },
    )
}

/// The descriptive tags of a chart.
pub fn generate_tags(chart: &Chart) -> (r: Vec<String>)
    ensures
        tag_views(r@) == tags_spec(
            chart.metadata.mode,
            chart.metadata.columns,
            chart.metadata.bpm as int,
            chart.notes@.len() as int,
            holds_count(chart.notes@),
        ),
{
    let mut tags: Vec<String> = Vec::new();
    let mode = chart.metadata.mode;
    if mode == 0 {
        tags.push(String::from_str("4k"));
    } else if mode == 1 {
        tags.push(String::from_str("5k"));
    } else if mode == 2 {
        tags.push(String::from_str("6k"));
    } else if mode == 3 {
        tags.push(String::from_str("7k"));
    } else if mode == 4 {
        tags.push(String::from_str("8k"));
    } else {
        let mut t = u64_to_string(chart.metadata.columns as u64);
        t.append("k");
        tags.push(t);
    }
    let bpm = chart.metadata.bpm;
    if bpm >= 180_000 {
        tags.push(String::from_str("high-bpm"));
    } else if bpm <= 100_000 {
        tags.push(String::from_str("low-bpm"));
    }
    let count = chart.total_notes();
    if count >= 1000 {
        tags.push(String::from_str("long"));
    } else if count <= 100 {
        tags.push(String::from_str("short"));
    }
    let holds = count_holds(chart);
    proof {
        assert(chart.notes@.len() <= usize::MAX);
    }
    let hold_heavy: bool = {
        let hw: u128 = (holds as u128) * 10;
        let cw: u128 = (count as u128) * 3;
        hw > cw
    };
    if hold_heavy {
        tags.push(String::from_str("hold-heavy"));
    }
    proof {
        assert(tag_views(tags@) =~= tags_spec(
            chart.metadata.mode,
            chart.metadata.columns,
            chart.metadata.bpm as int,
            chart.notes@.len() as int,
            holds_count(chart.notes@),
        ));
    }
    tags
}

/// What lower-casing returns for the given characters; a function of
/// the characters alone.
pub uninterp spec fn lower_of(s: Seq<char>) -> Seq<char>;

/// Relies on std's `str::to_lowercase`: the result depends on the
/// characters alone.
#[verifier::external_body]
fn lowercase(s: &str) -> (r: String)
    ensures
        r@ == lower_of(s@),
{
    s.to_lowercase()
}

/// `needle` occurs contiguously inside `hay`.
pub open spec fn is_substring(needle: Seq<char>, hay: Seq<char>) -> bool {
    exists|i: int|
        0 <= i && i + needle.len() <= hay.len() && #[trigger] hay.subrange(i, i + needle.len())
            == needle
}

/// Whether `needle` occurs contiguously inside `hay`.
fn chars_contain(hay: &Vec<char>, needle: &Vec<char>) -> (r: bool)
    ensures
        r == is_substring(needle@, hay@),
{
    if needle.len() > hay.len() {
        proof {
            assert(!is_substring(needle@, hay@));
        }
        return false;
    }
    if needle.len() == 0 {
        proof {
            assert(hay@.subrange(0int, 0int + needle@.len() as int) =~= needle@);
            assert(is_substring(needle@, hay@));
        }
        return true;
    }
    let hn = hay.len();
    let mut i: usize = 0;
    let last = hay.len() - needle.len();
    while i <= last
        invariant
            hay@.len() == hn,
            needle@.len() >= 1,
            hay@.len() >= needle@.len(),
            last == hay@.len() - needle@.len(),
            i <= last + 1,
            forall|k: int|
                0 <= k < i ==> #[trigger] hay@.subrange(k, k + needle@.len() as int) != needle@,
        decreases last + 1 - i,
    {
        let mut j: usize = 0;
        let mut ok = true;
        while j < needle.len()
            invariant
                hay@.len() == hn,
                i + needle@.len() <= hay@.len(),
                j <= needle@.len(),
                ok <==> hay@.subrange(i as int, i as int + j as int) =~= needle@.subrange(
                    0,
                    j as int,
                ),
            decreases needle@.len() - j,
        {
            if !ok {
                proof {
                    assert(hay@.subrange(i as int, i as int + j as int + 1).subrange(
                        0,
                        j as int,
                    ) =~= hay@.subrange(i as int, i as int + j as int));
                    assert(needle@.subrange(0, j as int + 1).subrange(0, j as int) =~= needle@
                        .subrange(0, j as int));
                }
            } else {
                proof {
                    assert(hay@.subrange(i as int, i as int + j as int + 1).drop_last() =~= hay@
                        .subrange(i as int, i as int + j as int));
                    assert(needle@.subrange(0, j as int + 1).drop_last() =~= needle@.subrange(
                        0,
                        j as int,
                    ));
                    assert(hay@.subrange(i as int, i as int + j as int + 1).last() == hay@[i as int
                        + j as int]);
                    assert(needle@.subrange(0, j as int + 1).last() == needle@[j as int]);
                }
            }
            if hay[i + j] != needle[j] {
                ok = false;
            }
            j = j + 1;
        }
        if ok {
            proof {
                assert(needle@.subrange(0, needle@.len() as int) =~= needle@);
                assert(hay@.subrange(i as int, i as int + needle@.len() as int) =~= needle@);
            }
            return true;
        }
        proof {
            assert(needle@.subrange(0, needle@.len() as int) =~= needle@);
        }
        i = i + 1;
    }
    proof {
        assert forall|k: int|
            0 <= k && k + needle@.len() <= hay@.len() implies #[trigger] hay@.subrange(
            k,
            k + needle@.len() as int,
        ) != needle@ by {
            assert(k < i);
        }
    }
    false
}

/// A preview window.
#[derive(Debug, Clone, Copy, PartialEq, Eq, Structural)]
pub struct ChartPreview {
    /// Start of the preview, microseconds.
    pub start_time: u64,
    /// Length of the preview, microseconds.
    pub duration: u64,
}

/// One parsed variant of a chart, as the library summarizes it.
#[derive(Debug, Clone)]
pub struct ChartDifficulty {
    pub name: String,
    pub level: u8,
    pub note_count: usize,
    /// Total duration, microseconds.
    pub duration: u64,
    pub file_path: String,
    pub mode: u8,
    pub columns: u8,
    pub preview: Option<ChartPreview>,
}

/// Mathematical form of a difficulty record.
#[verifier::ext_equal]
pub struct DiffV {
    pub name: Seq<char>,
    pub level: u8,
    pub note_count: int,
    pub duration: u64,
    pub file_path: Seq<char>,
    pub mode: u8,
    pub columns: u8,
    pub preview: Option<ChartPreview>,
}

/// View of a difficulty record.
pub open spec fn diff_view(d: ChartDifficulty) -> DiffV {
    DiffV {
        name: d.name@,
        level: d.level,
        note_count: d.note_count as int,
        duration: d.duration,
        file_path: d.file_path@,
        mode: d.mode,
        columns: d.columns,
        preview: d.preview,
    }
}

/// View of a difficulty list.
pub open spec fn diffs_views(ds: Seq<ChartDifficulty>) -> Seq<DiffV> {
    Seq::new(
        ds.len(),
        |i: int|
            if 0 <= i < ds.len() {
                diff_view(ds[i])
            } else {
                DiffV {
                    name: Seq::empty(),
                    level: 0,
                    note_count: 0,
                    duration: 0,
                    file_path: Seq::empty(),
                    mode: 0,
                    columns: 0,
                    preview: None,
                }
            },
    )
}

impl SortKey for ChartDifficulty {
    open spec fn tkey(&self) -> int {
        self.level as int
    }

    fn key(&self) -> (k: u64)
        ensures
            k as int == self.tkey(),
    {
        self.level as u64
    }
}

/// A library entry: one identity with its variants, resolved resources
/// and play statistics.
#[derive(Debug, Clone)]
pub struct ChartInfo {
    pub id: String,
    pub title: String,
    pub artist: String,
    pub creator: String,
    pub version: String,
    /// Base tempo, thousandths of beats per minute.
    pub bpm: u64,
    pub difficulties: Vec<ChartDifficulty>,
    pub audio_path: Option<String>,
    pub background_path: Option<String>,
    pub source_file: String,
    /// Import time, milliseconds since the epoch.
    pub import_date: i64,
    pub play_count: u32,
    /// Last play time, milliseconds since the epoch.
    pub last_played: Option<i64>,
    /// Rating, thousandths of a star, at most 5000.
    pub rating: Option<u32>,
    pub tags: Vec<String>,
}

/// Mathematical form of a library entry.
#[verifier::ext_equal]
pub struct InfoV {
    pub id: Seq<char>,
    pub title: Seq<char>,
    pub artist: Seq<char>,
    pub creator: Seq<char>,
    pub version: Seq<char>,
    pub bpm: u64,
    pub difficulties: Seq<DiffV>,
    pub audio_path: Option<Seq<char>>,
    pub background_path: Option<Seq<char>>,
    pub source_file: Seq<char>,
    pub import_date: i64,
    pub play_count: u32,
    pub last_played: Option<i64>,
    pub rating: Option<u32>,
    pub tags: Seq<Seq<char>>,
}

/// View of a library entry.
pub open spec fn info_view(i: ChartInfo) -> InfoV {
    InfoV {
        id: i.id@,
        title: i.title@,
        artist: i.artist@,
        creator: i.creator@,
        version: i.version@,
        bpm: i.bpm,
        difficulties: diffs_views(i.difficulties@),
        audio_path: match i.audio_path {
            Some(s) => Some(s@),
            None => None,
        },
        background_path: match i.background_path {
            Some(s) => Some(s@),
            None => None,
        },
        source_file: i.source_file@,
        import_date: i.import_date,
        play_count: i.play_count,
        last_played: i.last_played,
        rating: i.rating,
        tags: tag_views(i.tags@),
    }
}

/// The persisted root: the entries, a last-update stamp and a format
/// version.
#[derive(Debug)]
pub struct ChartIndex {
    pub charts: Vec<ChartInfo>,
    /// Milliseconds since the epoch.
    pub last_update: i64,
    pub version: u32,
}

/// No two entries share an identity.
pub open spec fn index_wf(idx: ChartIndex) -> bool {
    forall|i: int, j: int|
        0 <= i < j < idx.charts@.len() ==> (#[trigger] idx.charts@[i].id@) != (
        #[trigger] idx.charts@[j].id@)
}

/// First entry with the given identity.
pub open spec fn find_id(charts: Seq<ChartInfo>, id: Seq<char>) -> Option<int>
    decreases charts.len(),
{
    if charts.len() == 0 {
        None
    } else if charts[0].id@ == id {
        Some(0int)
    } else {
        match find_id(charts.drop_first(), id) {
            Some(k) => Some(k + 1),
            None => None,
        }
    }
}

pub proof fn lemma_find_id_props(charts: Seq<ChartInfo>, id: Seq<char>)
    ensures
        (match find_id(charts, id) {
            Some(k) => 0 <= k < charts.len() && charts[k].id@ == id && (forall|j: int|
                0 <= j < k ==> (#[trigger] charts[j].id@) != id),
            None => forall|j: int| 0 <= j < charts.len() ==> (#[trigger] charts[j].id@) != id,
        }),
    decreases charts.len(),
{
    if charts.len() > 0 {
        lemma_find_id_props(charts.drop_first(), id);
        assert(forall|j: int|
            1 <= j < charts.len() ==> charts.drop_first()[j - 1] == #[trigger] charts[j]);
    }
}

/// A copy of an optional string.
fn clone_opt_string(o: &Option<String>) -> (r: Option<String>)
    ensures
        (match (r, o) {
            (Some(a), Some(b)) => a@ == b@,
            (None, None) => true,
            _ => false,
        }),
{
    match o {
        Some(s) => Some(s.clone()),
        None => None,
    }
}

/// A copy of a difficulty record with the same mathematical form.
fn clone_diff(d: &ChartDifficulty) -> (r: ChartDifficulty)
    ensures
        diff_view(r) == diff_view(*d),
{
    ChartDifficulty {
        name: d.name.clone(),
        level: d.level,
        note_count: d.note_count,
        duration: d.duration,
        file_path: d.file_path.clone(),
        mode: d.mode,
        columns: d.columns,
        preview: d.preview,
    }
}

/// A copy of a difficulty list with the same mathematical form.
fn clone_diffs(v: &Vec<ChartDifficulty>) -> (r: Vec<ChartDifficulty>)
    ensures
        diffs_views(r@) == diffs_views(v@),
{
    let mut r: Vec<ChartDifficulty> = Vec::new();
    let mut i: usize = 0;
    while i < v.len()
        invariant
            i <= v@.len(),
            r@.len() == i,
            forall|k: int| 0 <= k < i ==> diff_view(#[trigger] r@[k]) == diff_view(v@[k]),
        decreases v@.len() - i,
    {
        r.push(clone_diff(&v[i]));
        i = i + 1;
    }
    proof {
        assert(diffs_views(r@) =~= diffs_views(v@));
    }
    r
}

/// A copy of a tag list with the same mathematical form.
fn clone_tags(v: &Vec<String>) -> (r: Vec<String>)
    ensures
        tag_views(r@) == tag_views(v@),
{
    let mut r: Vec<String> = Vec::new();
    let mut i: usize = 0;
    while i < v.len()
        invariant
            i <= v@.len(),
            r@.len() == i,
            forall|k: int| 0 <= k < i ==> (#[trigger] r@[k])@ == v@[k]@,
        decreases v@.len() - i,
    {
        r.push(v[i].clone());
        i = i + 1;
    }
    proof {
        assert(tag_views(r@) =~= tag_views(v@));
    }
    r
}

/// A copy of a library entry with the same mathematical form.
fn clone_info(i: &ChartInfo) -> (r: ChartInfo)
    ensures
        info_view(r) == info_view(*i),
{
    ChartInfo {
        id: i.id.clone(),
        title: i.title.clone(),
        artist: i.artist.clone(),
        creator: i.creator.clone(),
        version: i.version.clone(),
        bpm: i.bpm,
        difficulties: clone_diffs(&i.difficulties),
        audio_path: clone_opt_string(&i.audio_path),
        background_path: clone_opt_string(&i.background_path),
        source_file: i.source_file.clone(),
        import_date: i.import_date,
        play_count: i.play_count,
        last_played: i.last_played,
        rating: i.rating,
        tags: clone_tags(&i.tags),
    }
}

/// View of an entry list.
pub open spec fn infos_views(cs: Seq<ChartInfo>) -> Seq<InfoV> {
    Seq::new(
        cs.len(),
        |i: int|
            if 0 <= i < cs.len() {
                info_view(cs[i])
            } else {
                InfoV {
                    id: Seq::empty(),
                    title: Seq::empty(),
                    artist: Seq::empty(),
                    creator: Seq::empty(),
                    version: Seq::empty(),
                    bpm: 0,
                    difficulties: Seq::empty(),
                    audio_path: None,
                    background_path: None,
                    source_file: Seq::empty(),
                    import_date: 0,
                    play_count: 0,
                    last_played: None,
                    rating: None,
                    tags: Seq::empty(),
                }
            },
    )
}

/// Case-insensitivity of search, as far as the case folding itself
/// reaches: two queries whose lower-casings agree match exactly the same
/// entries.  (That a query matches like its own lower-cased form would
/// need the idempotence of case folding, which nothing here states of
/// the outside function.)
pub proof fn lemma_search_query_folded(charts: Seq<InfoV>, q1: Seq<char>, q2: Seq<char>)
    requires
        lower_of(q1) == lower_of(q2),
    ensures
        charts.filter(matches_pred(lower_of(q1))) == charts.filter(matches_pred(lower_of(q2))),
{
}

/// The search predicate for a lower-cased query.
pub open spec fn matches_pred(ql: Seq<char>) -> spec_fn(InfoV) -> bool {
    |iv: InfoV| info_matches(iv, ql)
}

/// First difficulty of the list with the given name.
pub open spec fn find_diff(ds: Seq<DiffV>, name: Seq<char>) -> Option<int>
    decreases ds.len(),
{
    if ds.len() == 0 {
        None
    } else if ds[0].name == name {
        Some(0int)
    } else {
        match find_diff(ds.drop_first(), name) {
            Some(k) => Some(k + 1),
            None => None,
        }
    }
}

/// Position of the first difficulty with the given name, if any.
pub fn find_difficulty(info: &ChartInfo, name: &str) -> (r: Option<usize>)
    ensures
        (match r {
            Some(p) => p < info.difficulties@.len() && find_diff(
                diffs_views(info.difficulties@),
                name@,
            ) == Some(p as int),
            None => find_diff(diffs_views(info.difficulties@), name@) is None,
        }),
{
    let key = String::from_str(name);
    let mut i: usize = 0;
    let ghost dv = diffs_views(info.difficulties@);
    proof {
        assert(dv.skip(0) =~= dv);
    }
    loop
        invariant
            i <= info.difficulties@.len(),
            dv == diffs_views(info.difficulties@),
            key@ == name@,
            find_diff(dv, name@) == (match find_diff(dv.skip(i as int), name@) {
                Some(k) => Some(k + i),
                None => None::<int>,
            }),
        decreases info.difficulties@.len() - i,
    {
        if i == info.difficulties.len() {
            proof {
                assert(dv.skip(i as int) =~= Seq::<DiffV>::empty());
            }
            return None;
        }
        proof {
            assert(dv.skip(i as int).drop_first() =~= dv.skip(i as int + 1));
            assert(dv.skip(i as int)[0] == dv[i as int]);
            assert(dv[i as int] == diff_view(info.difficulties@[i as int]));
        }
        if info.difficulties[i].name.eq(&key) {
            return Some(i);
        }
        i = i + 1;
    }
}

/// Whether an entry matches a lower-cased query: the query occurs in its
/// lower-cased title, artist or creator, or inside one of its tags.
pub open spec fn info_matches(iv: InfoV, ql: Seq<char>) -> bool {
    ||| is_substring(ql, lower_of(iv.title))
    ||| is_substring(ql, lower_of(iv.artist))
    ||| is_substring(ql, lower_of(iv.creator))
    ||| exists|t: int| 0 <= t < iv.tags.len() && is_substring(ql, #[trigger] iv.tags[t])
}

/// Whether `needle` occurs inside the lower-casing of `s`.
fn lower_contains(s: &String, needle: &Vec<char>) -> (r: bool)
    ensures
        r == is_substring(needle@, lower_of(s@)),
{
    let low = lowercase(s.as_str());
    let cs = crate::parser::collect_chars(low.as_str());
    chars_contain(&cs, needle)
}

impl ChartIndex {
    /// An empty index.
    pub fn new(now_ms: i64) -> (idx: ChartIndex)
        ensures
            idx.charts@.len() == 0,
            idx.last_update == now_ms,
            idx.version == 1,
            index_wf(idx),
    {
        ChartIndex { charts: Vec::new(), last_update: now_ms, version: 1 }
    }

    /// Stamps a fresh last-update time; nothing else changes.
    pub fn stamp(&mut self, now_ms: i64)
        ensures
            final(self).charts == old(self).charts,
            final(self).last_update == now_ms,
            final(self).version == old(self).version,
    {
        self.last_update = now_ms;
    }

    /// Position of the entry with the given identity.
    fn find_pos(&self, id: &String) -> (r: Option<usize>)
        ensures
            (match r {
                Some(p) => p < self.charts@.len() && find_id(self.charts@, id@) == Some(p as int),
                None => find_id(self.charts@, id@) is None,
            }),
    {
        let mut i: usize = 0;
        proof {
            assert(self.charts@.skip(0) =~= self.charts@);
        }
        loop
            invariant
                i <= self.charts@.len(),
                find_id(self.charts@, id@) == (match find_id(
                    self.charts@.skip(i as int),
                    id@,
                ) {
                    Some(k) => Some(k + i),
                    None => None::<int>,
                }),
            decreases self.charts@.len() - i,
        {
            if i == self.charts.len() {
                proof {
                    assert(self.charts@.skip(i as int) =~= Seq::<ChartInfo>::empty());
                }
                return None;
            }
            proof {
                assert(self.charts@.skip(i as int).drop_first() =~= self.charts@.skip(
                    i as int + 1,
                ));
                assert(self.charts@.skip(i as int)[0] == self.charts@[i as int]);
            }
            if self.charts[i].id.eq(id) {
                return Some(i);
            }
            i = i + 1;
        }
    }

    /// Every entry, copied.
    pub fn get_all_charts(&self) -> (r: Vec<ChartInfo>)
        ensures
            infos_views(r@) == infos_views(self.charts@),
    {
        let mut r: Vec<ChartInfo> = Vec::new();
        let mut i: usize = 0;
        while i < self.charts.len()
            invariant
                i <= self.charts@.len(),
                r@.len() == i,
                forall|k: int|
                    0 <= k < i ==> info_view(#[trigger] r@[k]) == info_view(self.charts@[k]),
            decreases self.charts@.len() - i,
        {
            r.push(clone_info(&self.charts[i]));
            i = i + 1;
        }
        proof {
            assert(infos_views(r@) =~= infos_views(self.charts@));
        }
        r
    }

    /// The entry with the given identity, copied.
    pub fn get_chart_by_id(&self, id: &str) -> (r: Option<ChartInfo>)
        ensures
            (match (r, find_id(self.charts@, id@)) {
                (Some(info), Some(k)) => info_view(info) == info_view(self.charts@[k]),
                (None, None) => true,
                _ => false,
            }),
    {
        let key = String::from_str(id);
        match self.find_pos(&key) {
            Some(p) => Some(clone_info(&self.charts[p])),
            None => None,
        }
    }

    /// The entries matching the query, case-insensitively, against
    /// title, artist, creator and tags, in index order.
    pub fn search_charts(&self, query: &str) -> (r: Vec<ChartInfo>)
        ensures
            infos_views(r@) == infos_views(self.charts@).filter(matches_pred(lower_of(query@))),
    {
        let ghost pred = matches_pred(lower_of(query@));
        let ql = lowercase(query);
        let qchars = crate::parser::collect_chars(ql.as_str());
        let mut r: Vec<ChartInfo> = Vec::new();
        let mut i: usize = 0;
        proof {
            reveal(Seq::filter);
            assert(infos_views(self.charts@).take(0) =~= Seq::<InfoV>::empty());
            assert(infos_views(r@) =~= Seq::<InfoV>::empty());
        }
        while i < self.charts.len()
            invariant
                i <= self.charts@.len(),
                qchars@ == lower_of(query@),
                pred == matches_pred(lower_of(query@)),
                infos_views(r@) == infos_views(self.charts@).take(i as int).filter(pred),
            decreases self.charts@.len() - i,
        {
            let info = &self.charts[i];
            let m_title = lower_contains(&info.title, &qchars);
            let m_artist = lower_contains(&info.artist, &qchars);
            let m_creator = lower_contains(&info.creator, &qchars);
            let mut m = m_title || m_artist || m_creator;
            if !m {
                let mut t: usize = 0;
                while t < info.tags.len()
                    invariant
                        t <= info.tags@.len(),
                        qchars@ == lower_of(query@),
                        !m ==> forall|k: int|
                            0 <= k < t ==> !is_substring(qchars@, (#[trigger] info.tags@[k])@),
                        m ==> exists|k: int|
                            0 <= k < info.tags@.len() && is_substring(
                                qchars@,
                                (#[trigger] info.tags@[k])@,
                            ),
                    decreases info.tags@.len() - t,
                {
                    if !m {
                        let tc = crate::parser::collect_chars(info.tags[t].as_str());
                        if chars_contain(&tc, &qchars) {
                            m = true;
                        }
                    }
                    t = t + 1;
                }
            }
            proof {
                let iv = info_view(self.charts@[i as int]);
                assert(forall|k: int|
                    0 <= k < iv.tags.len() ==> #[trigger] iv.tags[k] == info.tags@[k]@);
                if m && !m_title && !m_artist && !m_creator {
                    let k = choose|k: int|
                        0 <= k < info.tags@.len() && is_substring(
                            qchars@,
                            (#[trigger] info.tags@[k])@,
                        );
                    assert(iv.tags[k] == info.tags@[k]@);
                    assert(is_substring(lower_of(query@), iv.tags[k]));
                }
                assert(m == info_matches(iv, lower_of(query@)));
                assert(infos_views(self.charts@).take(i as int + 1).drop_last()
                    =~= infos_views(self.charts@).take(i as int));
                assert(infos_views(self.charts@).take(i as int + 1).last() == iv);
            }
            if m {
                let ghost r_old = r@;
                r.push(clone_info(info));
                proof {
                    assert(infos_views(r@) =~= infos_views(r_old).push(
                        info_view(self.charts@[i as int]),
                    ));
                }
            }
            proof {
                reveal(Seq::filter);
                let tv = infos_views(self.charts@).take(i as int + 1);
                assert(tv.len() == i + 1);
                assert(tv.drop_last() =~= infos_views(self.charts@).take(i as int));
                assert(tv.drop_last().filter(pred) == infos_views(self.charts@).take(
                    i as int,
                ).filter(pred));
                assert(pred(tv.last()) == m);
                if m {
                    assert(tv.filter(pred) =~= tv.drop_last().filter(pred).push(tv.last()));
                } else {
                    assert(tv.filter(pred) =~= tv.drop_last().filter(pred));
                }
                assert(infos_views(r@) =~= tv.filter(pred));
            }
            i = i + 1;
        }
        proof {
            assert(infos_views(self.charts@).take(self.charts@.len() as int) =~= infos_views(
                self.charts@,
            ));
        }
        r
    }

    /// Removes the entry with the given identity, handing it back.
    /// A missing identity changes nothing and is no error.
    pub fn delete_chart(&mut self, id: &str) -> (r: Option<ChartInfo>)
        ensures
            (match (r, find_id(old(self).charts@, id@)) {
                (Some(info), Some(k)) => {
                    &&& final(self).charts@ == old(self).charts@.remove(k)
                    &&& info_view(info) == info_view(old(self).charts@[k])
                },
                (None, None) => final(self).charts@ == old(self).charts@,
                _ => false,
            }),
            final(self).last_update == old(self).last_update,
            final(self).version == old(self).version,
            index_wf(*old(self)) ==> index_wf(*final(self)),
    {
        let key = String::from_str(id);
        proof {
            lemma_find_id_props(self.charts@, key@);
        }
        match self.find_pos(&key) {
            None => None,
            Some(p) => {
                let info = self.charts.remove(p);
                proof {
                    let oldc = old(self).charts@;
                    assert forall|i: int, j: int|
                        0 <= i < j < final(self).charts@.len() && index_wf(*old(self)) implies (
                    #[trigger] final(self).charts@[i].id@) != (
                    #[trigger] final(self).charts@[j].id@) by {
                        oldc.remove_ensures(p as int);
                    }
                }
                Some(info)
            },
        }
    }

    /// Counts one play now: the entry's play count grows by one
    /// (saturating) and its last-played time is stamped.  A missing
    /// identity changes nothing.
    pub fn record_play(&mut self, id: &str, now_ms: i64)
        ensures
            (match find_id(old(self).charts@, id@) {
                Some(k) => {
                    &&& final(self).charts@.len() == old(self).charts@.len()
                    &&& (forall|j: int|
                        0 <= j < old(self).charts@.len() && j != k ==> final(self).charts@[j]
                            == old(self).charts@[j])
                    &&& ({
                        let oldv = info_view(old(self).charts@[k]);
                        let newv = info_view(final(self).charts@[k]);
                        &&& newv == InfoV {
                            play_count: (if oldv.play_count < u32::MAX {
                                (oldv.play_count + 1) as u32
                            } else {
                                u32::MAX
                            }),
                            last_played: Some(now_ms),
                            ..oldv
                        }
                    })
                },
                None => final(self).charts@ == old(self).charts@,
            }),
            final(self).last_update == old(self).last_update,
            final(self).version == old(self).version,
            index_wf(*old(self)) ==> index_wf(*final(self)),
    {
        let key = String::from_str(id);
        proof {
            lemma_find_id_props(self.charts@, key@);
        }
        match self.find_pos(&key) {
            None => {},
            Some(p) => {
                let ghost oldc = self.charts@;
                let mut info = self.charts.remove(p);
                if info.play_count < u32::MAX {
                    info.play_count = info.play_count + 1;
                }
                info.last_played = Some(now_ms);
                self.charts.insert(p, info);
                proof {
                    assert(forall|j: int|
                        0 <= j < oldc.len() && j != p as int ==> final(self).charts@[j] == oldc[j]);
                    assert(info_view(final(self).charts@[p as int]) =~= InfoV {
                        play_count: (if info_view(oldc[p as int]).play_count < u32::MAX {
                            (info_view(oldc[p as int]).play_count + 1) as u32
                        } else {
                            u32::MAX
                        }),
                        last_played: Some(now_ms),
                        ..info_view(oldc[p as int])
                    });
                    assert forall|i: int, j: int|
                        0 <= i < j < final(self).charts@.len() && index_wf(*old(self)) implies (
                    #[trigger] final(self).charts@[i].id@) != (
                    #[trigger] final(self).charts@[j].id@) by {}
                }
            },
        }
    }

    /// Sets the rating, clamped to at most five stars (5000 thousandths).
    /// A missing identity changes nothing.
    pub fn set_rating(&mut self, id: &str, rating_milli: u32)
        ensures
            (match find_id(old(self).charts@, id@) {
                Some(k) => {
                    &&& final(self).charts@.len() == old(self).charts@.len()
                    &&& (forall|j: int|
                        0 <= j < old(self).charts@.len() && j != k ==> final(self).charts@[j]
                            == old(self).charts@[j])
                    &&& ({
                        let oldv = info_view(old(self).charts@[k]);
                        let newv = info_view(final(self).charts@[k]);
                        &&& newv == InfoV {
                            rating: Some(
                                if rating_milli <= 5000 {
                                    rating_milli
                                } else {
                                    5000
                                },
                            ),
                            ..oldv
                        }
                    })
                },
                None => final(self).charts@ == old(self).charts@,
            }),
            final(self).last_update == old(self).last_update,
            final(self).version == old(self).version,
            index_wf(*old(self)) ==> index_wf(*final(self)),
    {
        let key = String::from_str(id);
        proof {
            lemma_find_id_props(self.charts@, key@);
        }
        match self.find_pos(&key) {
            None => {},
            Some(p) => {
                let ghost oldc = self.charts@;
                let mut info = self.charts.remove(p);
                info.rating = Some(
                    if rating_milli <= 5000 {
                        rating_milli
                    } else {
                        5000
                    },
                );
                self.charts.insert(p, info);
                proof {
                    assert(forall|j: int|
                        0 <= j < oldc.len() && j != p as int ==> final(self).charts@[j] == oldc[j]);
                    assert(info_view(final(self).charts@[p as int]) =~= InfoV {
                        rating: Some(
                            if rating_milli <= 5000 {
                                rating_milli
                            } else {
                                5000u32
                            },
                        ),
                        ..info_view(oldc[p as int])
                    });
                    assert forall|i: int, j: int|
                        0 <= i < j < final(self).charts@.len() && index_wf(*old(self)) implies (
                    #[trigger] final(self).charts@[i].id@) != (
                    #[trigger] final(self).charts@[j].id@) by {}
                }
            },
        }
    }
}

/// The difficulty record that one parsed chart denotes.
pub open spec fn new_diff_spec(c: Chart, file_path: Seq<char>) -> DiffV {
    DiffV {
        name: c.metadata.version@,
        level: difficulty_level_spec(
            c.notes@.len() as int,
            duration_spec(c.notes@),
            c.metadata.bpm as int,
            holds_count(c.notes@),
        ) as u8,
        note_count: c.notes@.len() as int,
        duration: duration_spec(c.notes@) as u64,
        file_path,
        mode: c.metadata.mode,
        columns: c.metadata.columns,
        preview: match c.metadata.preview_time {
            Some(t) => Some(ChartPreview { start_time: t, duration: 30_000_000 }),
            None => None,
        },
    }
}

/// A re-import into an existing entry: the new difficulty joins the
/// list, which is re-sorted ascending by level; the play statistics are
/// reset; everything else stays.
pub open spec fn merged_entry_rel(oldv: InfoV, newv: InfoV, dv: DiffV) -> bool {
    &&& newv == InfoV {
        difficulties: newv.difficulties,
        play_count: 0u32,
        last_played: None,
        ..oldv
    }
    &&& newv.difficulties.to_multiset() == oldv.difficulties.push(dv).to_multiset()
    &&& forall|i: int, j: int|
        0 <= i <= j < newv.difficulties.len() ==> (#[trigger] newv.difficulties[i].level) <= (
        #[trigger] newv.difficulties[j].level)
}

/// A first import: one fresh entry carrying the chart's header, the one
/// difficulty, the computed tags, and cleared statistics.
pub open spec fn new_entry_rel(
    c: Chart,
    idv: Seq<char>,
    dv: DiffV,
    source: Seq<char>,
    now_ms: i64,
    v: InfoV,
) -> bool {
    &&& v.id == idv
    &&& v.title == c.metadata.title@
    &&& v.artist == c.metadata.artist@
    &&& v.creator == c.metadata.creator@
    &&& v.version == c.metadata.version@
    &&& v.bpm == c.metadata.bpm
    &&& v.difficulties == seq![dv]
    &&& v.audio_path == (match c.metadata.audio {
        Some(s) => Some(s@),
        None => None::<Seq<char>>,
    })
    &&& v.background_path == (match c.metadata.background {
        Some(s) => Some(s@),
        None => None::<Seq<char>>,
    })
    &&& v.source_file == source
    &&& v.import_date == now_ms
    &&& v.play_count == 0
    &&& v.last_played is None
    &&& v.rating is None
    &&& v.tags == tags_spec(
        c.metadata.mode,
        c.metadata.columns,
        c.metadata.bpm as int,
        c.notes@.len() as int,
        holds_count(c.notes@),
    )
}

impl ChartIndex {
    /// Merges one parsed chart into the index: an entry with the same
    /// identity gains the new difficulty (re-sorted by level, play
    /// statistics reset); otherwise a fresh entry is appended.  Returns
    /// a copy of the affected entry.  No identity ever appears twice.
    pub fn add_parsed_chart(
        &mut self,
        chart: &Chart,
        file_path: String,
        source_file: String,
        now_ms: i64,
    ) -> (r: ChartInfo)
        ensures
            ({
                let idv = chart_id_spec(*chart);
                let dv = new_diff_spec(*chart, file_path@);
                match find_id(old(self).charts@, idv) {
                    Some(k) => {
                        &&& final(self).charts@.len() == old(self).charts@.len()
                        &&& (forall|j: int|
                            0 <= j < old(self).charts@.len() && j != k ==> final(self).charts@[j]
                                == old(self).charts@[j])
                        &&& merged_entry_rel(
                            info_view(old(self).charts@[k]),
                            info_view(final(self).charts@[k]),
                            dv,
                        )
                        &&& info_view(r) == info_view(final(self).charts@[k])
                    },
                    None => {
                        &&& final(self).charts@.len() == old(self).charts@.len() + 1
                        &&& (forall|j: int|
                            0 <= j < old(self).charts@.len() ==> final(self).charts@[j] == old(
                                self,
                            ).charts@[j])
                        &&& new_entry_rel(
                            *chart,
                            idv,
                            dv,
                            source_file@,
                            now_ms,
                            info_view(final(self).charts@[old(self).charts@.len() as int]),
                        )
                        &&& info_view(r) == info_view(
                            final(self).charts@[old(self).charts@.len() as int],
                        )
                    },
                }
            }),
            final(self).last_update == old(self).last_update,
            final(self).version == old(self).version,
            index_wf(*old(self)) ==> index_wf(*final(self)),
    {
        let id = generate_chart_id(chart);
        let level = calculate_difficulty_level(chart);
        let note_count = chart.total_notes();
        let duration = chart.duration();
        let preview = match chart.metadata.preview_time {
            Some(t) => Some(ChartPreview { start_time: t, duration: 30_000_000 }),
            None => None,
        };
        let diff = ChartDifficulty {
            name: chart.metadata.version.clone(),
            level,
            note_count,
            duration,
            file_path,
            mode: chart.metadata.mode,
            columns: chart.metadata.columns,
            preview,
        };
        proof {
            assert(diff_view(diff) =~= new_diff_spec(*chart, diff.file_path@));
            lemma_find_id_props(self.charts@, id@);
        }
        match self.find_pos(&id) {
            Some(p) => {
                let ghost oldc = self.charts@;
                let info = self.charts.remove(p);
                let ChartInfo {
                    id: iid,
                    title,
                    artist,
                    creator,
                    version,
                    bpm,
                    difficulties,
                    audio_path,
                    background_path,
                    source_file: sf,
                    import_date,
                    play_count: _,
                    last_played: _,
                    rating,
                    tags,
                } = info;
                let ghost old_diffs = difficulties@;
                let mut d2 = difficulties;
                d2.push(diff);
                let ghost pushed = d2@;
                let sorted = sort_by_time_key(d2);
                proof {
                    let f = |d: ChartDifficulty| diff_view(d);
                    lemma_map_multiset(sorted@, pushed, f);
                    assert(diffs_views(sorted@) =~= sorted@.map_values(f));
                    assert(diffs_views(pushed) =~= pushed.map_values(f));
                    assert(diffs_views(pushed) =~= diffs_views(old_diffs).push(diff_view(diff)));
                    broadcast use vstd::seq_lib::group_to_multiset_ensures;

                    assert(diffs_views(sorted@).to_multiset() == diffs_views(old_diffs).push(
                        diff_view(diff),
                    ).to_multiset());
                }
                let info2 = ChartInfo {
                    id: iid,
                    title,
                    artist,
                    creator,
                    version,
                    bpm,
                    difficulties: sorted,
                    audio_path,
                    background_path,
                    source_file: sf,
                    import_date,
                    play_count: 0,
                    last_played: None,
                    rating,
                    tags,
                };
                self.charts.insert(p, info2);
                let r = clone_info(&self.charts[p]);
                proof {
                    assert(forall|j: int|
                        0 <= j < oldc.len() && j != p as int ==> final(self).charts@[j] == oldc[j]);
                    let oldv = info_view(oldc[p as int]);
                    let newv = info_view(final(self).charts@[p as int]);
                    assert(newv =~= InfoV {
                        difficulties: newv.difficulties,
                        play_count: 0u32,
                        last_played: None,
                        ..oldv
                    });
                    let fd = final(self).charts@[p as int].difficulties@;
                    assert forall|i: int, j: int|
                        0 <= i <= j < newv.difficulties.len() implies (
                    #[trigger] newv.difficulties[i].level) <= (
                    #[trigger] newv.difficulties[j].level) by {
                        assert(fd[i].tkey() <= fd[j].tkey());
                    }
                    assert(merged_entry_rel(oldv, newv, new_diff_spec(*chart, diff.file_path@)));
                    assert forall|i: int, j: int|
                        0 <= i < j < final(self).charts@.len() && index_wf(*old(self)) implies (
                    #[trigger] final(self).charts@[i].id@) != (
                    #[trigger] final(self).charts@[j].id@) by {}
                }
                r
            },
            None => {
                let tags = generate_tags(chart);
                let info = ChartInfo {
                    id,
                    title: chart.metadata.title.clone(),
                    artist: chart.metadata.artist.clone(),
                    creator: chart.metadata.creator.clone(),
                    version: chart.metadata.version.clone(),
                    bpm: chart.metadata.bpm,
                    difficulties: vec![diff],
                    audio_path: clone_opt_string(&chart.metadata.audio),
                    background_path: clone_opt_string(&chart.metadata.background),
                    source_file,
                    import_date: now_ms,
                    play_count: 0,
                    last_played: None,
                    rating: None,
                    tags,
                };
                proof {
                    assert(diffs_views(info.difficulties@) =~= seq![
                        new_diff_spec(*chart, info.difficulties@[0].file_path@),
                    ]);
                }
                let ghost oldc = self.charts@;
                self.charts.push(info);
                let r = clone_info(&self.charts[self.charts.len() - 1]);
                proof {
                    assert(final(self).charts@[oldc.len() as int] == final(self).charts@.last());
                    assert(new_entry_rel(
                        *chart,
                        chart_id_spec(*chart),
                        new_diff_spec(
                            *chart,
                            final(self).charts@.last().difficulties@[0].file_path@,
                        ),
                        final(self).charts@.last().source_file@,
                        now_ms,
                        info_view(final(self).charts@.last()),
                    ));
                    assert forall|i: int, j: int|
                        0 <= i < j < final(self).charts@.len() && index_wf(*old(self)) implies (
                    #[trigger] final(self).charts@[i].id@) != (
                    #[trigger] final(self).charts@[j].id@) by {}
                }
                r
            },
        }
    }
}

/// Whether the given bytes hold a chart that parses and converts.
pub open spec fn chart_parses(bytes: Seq<u8>) -> bool {
    &&& valid_utf8(bytes)
    &&& (match spec_parse_json(decode_utf8(bytes)) {
        Some(doc) => (match extract_spec(doc) {
            Some(d) => effects_fold(d.effects, primary_changes(d.time), base_bpm_spec(d.time))
                is Some,
            None => false,
        }),
        None => false,
    })
}

/// How many of the given files hold a chart that parses.
pub open spec fn count_parsable(fs: Seq<(String, Vec<u8>)>) -> int
    decreases fs.len(),
{
    if fs.len() == 0 {
        0
    } else {
        count_parsable(fs.drop_last()) + (if chart_parses(fs.last().1@) {
            1int
        } else {
            0int
        })
    }
}

/// The identity that the chart in a parsable file carries: a function
/// of the four header fields its document holds.
pub open spec fn file_identity(bytes: Seq<u8>) -> Seq<char>
    recommends
        chart_parses(bytes),
{
    match spec_parse_json(decode_utf8(bytes)) {
        Some(doc) => (match extract_spec(doc) {
            Some(d) => identity_spec(d.meta.title, d.meta.artist, d.meta.creator, d.meta.version),
            None => Seq::empty(),
        }),
        None => Seq::empty(),
    }
}

/// The identities of the parsable files, in file order.
pub open spec fn parsable_ids(fs: Seq<(String, Vec<u8>)>) -> Seq<Seq<char>>
    decreases fs.len(),
{
    if fs.len() == 0 {
        Seq::empty()
    } else {
        parsable_ids(fs.drop_last()) + (if chart_parses(fs.last().1@) {
            seq![file_identity(fs.last().1@)]
        } else {
            Seq::<Seq<char>>::empty()
        })
    }
}

pub proof fn lemma_parsable_ids_len(fs: Seq<(String, Vec<u8>)>)
    ensures
        parsable_ids(fs).len() == count_parsable(fs),
    decreases fs.len(),
{
    if fs.len() > 0 {
        lemma_parsable_ids_len(fs.drop_last());
    }
}

proof fn lemma_id_present(charts: Seq<ChartInfo>, x: Seq<char>, m: int)
    requires
        0 <= m < charts.len(),
        charts[m].id@ == x,
    ensures
        find_id(charts, x) is Some,
{
    lemma_find_id_props(charts, x);
}

impl ChartIndex {
    /// Imports every file of a staged bundle: each is parsed
    /// independently, a failure skips that file only, and each parsed
    /// chart merges into the index.  Returns one entry copy per parsed
    /// file: as many as the files that parse.
    pub fn import_chart_files(
        &mut self,
        files: &Vec<(String, Vec<u8>)>,
        source_file: &str,
        now_ms: i64,
    ) -> (r: Vec<ChartInfo>)
        ensures
            r@.len() == count_parsable(files@),
            forall|j: int|
                0 <= j < r@.len() ==> info_view(#[trigger] r@[j]).id == parsable_ids(files@)[j],
            forall|j: int|
                0 <= j < parsable_ids(files@).len() ==> find_id(
                    final(self).charts@,
                    #[trigger] parsable_ids(files@)[j],
                ) is Some,
            forall|q: int|
                0 <= q < old(self).charts@.len() ==> find_id(
                    final(self).charts@,
                    (#[trigger] old(self).charts@[q]).id@,
                ) is Some,
            final(self).last_update == old(self).last_update,
            final(self).version == old(self).version,
            index_wf(*old(self)) ==> index_wf(*final(self)),
    {
        let mut r: Vec<ChartInfo> = Vec::new();
        let mut i: usize = 0;
        proof {
            assert(files@.take(0) =~= Seq::<(String, Vec<u8>)>::empty());
            lemma_parsable_ids_len(files@);
            assert forall|q: int|
                0 <= q < self.charts@.len() implies find_id(
                self.charts@,
                (#[trigger] self.charts@[q]).id@,
            ) is Some by {
                lemma_id_present(self.charts@, self.charts@[q].id@, q);
            }
        }
        while i < files.len()
            invariant
                i <= files@.len(),
                r@.len() == count_parsable(files@.take(i as int)),
                forall|j: int|
                    0 <= j < r@.len() ==> info_view(#[trigger] r@[j]).id == parsable_ids(
                        files@.take(i as int),
                    )[j],
                forall|j: int|
                    0 <= j < parsable_ids(files@.take(i as int)).len() ==> find_id(
                        self.charts@,
                        #[trigger] parsable_ids(files@.take(i as int))[j],
                    ) is Some,
                forall|q: int|
                    0 <= q < old(self).charts@.len() ==> find_id(
                        self.charts@,
                        (#[trigger] old(self).charts@[q]).id@,
                    ) is Some,
                self.last_update == old(self).last_update,
                self.version == old(self).version,
                index_wf(*old(self)) ==> index_wf(*self),
            decreases files@.len() - i,
        {
            proof {
                assert(files@.take(i as int + 1).drop_last() =~= files@.take(i as int));
                assert(files@.take(i as int + 1).last() == files@[i as int]);
                lemma_parsable_ids_len(files@.take(i as int));
                lemma_parsable_ids_len(files@.take(i as int + 1));
            }
            match crate::parser::MalodyParser::parse_from_bytes(files[i].1.as_slice()) {
                Ok(chart) => {
                    let ghost pre = self.charts@;
                    let ghost idv = chart_id_spec(chart);
                    proof {
                        assert(chart_parses(files@[i as int].1@));
                        assert(idv == file_identity(files@[i as int].1@));
                        assert(parsable_ids(files@.take(i as int + 1)) =~= parsable_ids(
                            files@.take(i as int),
                        ).push(idv));
                    }
                    let info = self.add_parsed_chart(
                        &chart,
                        files[i].0.clone(),
                        String::from_str(source_file),
                        now_ms,
                    );
                    proof {
                        lemma_find_id_props(pre, idv);
                        // whatever the merge did, every identity that was
                        // present stays present, and the new one is present
                        assert forall|x: Seq<char>|
                            find_id(pre, x) is Some implies find_id(self.charts@, x) is Some by {
                            lemma_find_id_props(pre, x);
                            let k0 = find_id(pre, x)->0;
                            match find_id(pre, idv) {
                                Some(k) => {
                                    if k0 != k {
                                        assert(self.charts@[k0] == pre[k0]);
                                    } else {
                                        assert(info_view(self.charts@[k]).id == info_view(
                                            pre[k],
                                        ).id);
                                        assert(self.charts@[k].id@ == pre[k].id@);
                                    }
                                },
                                None => {
                                    assert(self.charts@[k0] == pre[k0]);
                                },
                            }
                            lemma_id_present(self.charts@, x, k0);
                        }
                        match find_id(pre, idv) {
                            Some(k) => {
                                assert(info_view(self.charts@[k]).id == info_view(pre[k]).id);
                                assert(self.charts@[k].id@ == idv);
                                lemma_id_present(self.charts@, idv, k);
                            },
                            None => {
                                assert(self.charts@[pre.len() as int].id@ == idv);
                                lemma_id_present(self.charts@, idv, pre.len() as int);
                            },
                        }
                        assert(info_view(info).id == idv);
                    }
                    r.push(info);
                },
                Err(_) => {
                    proof {
                        assert(!chart_parses(files@[i as int].1@));
                        assert(parsable_ids(files@.take(i as int + 1)) =~= parsable_ids(
                            files@.take(i as int),
                        ));
                    }
                },
            }
            i = i + 1;
        }
        proof {
            assert(files@.take(files@.len() as int) =~= files@);
        }
        r
    }
}

} // verus!
