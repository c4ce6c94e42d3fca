//! The chart format reader: from JSON text to a [`Chart`], via a typed
//! intermediate schema and the beat-to-time conversion of [`crate::timing`].
//!
//! The reconciliation order is load-bearing and mirrored exactly by the
//! spec functions here: the primary tempo list is resolved first, each
//! entry against the entries before it; then the generic effect list,
//! each entry against the combined list accumulated so far; then the
//! notes against the full list; finally every timeline is sorted by
//! absolute time.

use vstd::prelude::*;
use vstd::arithmetic::div_mod::lemma_div_denominator;
use vstd::string::StrSliceExecFns;
use vstd::utf8::{valid_utf8, decode_utf8};
use crate::error::CoreError;
use crate::json::{JsonNum, JsonValue, JVal, jv, arr_view, obj_view, parse_json_chars, push_char,
    spec_parse_json};
use crate::timing::{Beat, BPMChange, sat64, beat_time_spec, beat_to_time_with_bpm_changes};
use crate::model::{
    Chart, ChartMetadata, ChartEvent, Note, NoteType, TimeSignature, SpeedChange, chart_wf,
    note_wf,
};
use crate::text::{dec_str, u64_to_string, push_u64_dec};

verus! {

/// Ten to the power `e`.
pub open spec fn pow10(e: nat) -> int
    decreases e,
{
    if e == 0 {
        1
    } else {
        10 * pow10((e - 1) as nat)
    }
}

proof fn lemma_pow10_pos(e: nat)
    ensures
        pow10(e) >= 1,
    decreases e,
{
    if e > 0 {
        lemma_pow10_pos((e - 1) as nat);
    }
}

/// Magnitude of the decimal `mant * 10^exp`, rounded towards zero.
pub open spec fn mag_spec(mant: int, exp: int) -> int {
    if exp >= 0 {
        mant * pow10(exp as nat)
    } else {
        mant / pow10((-exp) as nat)
    }
}

/// A number taken as thousandths, non-negative: `None` for a negative
/// value, else the magnitude in thousandths saturated at `u64::MAX`.
pub open spec fn num_milli_u64_spec(neg: bool, mant: int, exp: int) -> Option<int> {
    if neg && mant != 0 {
        None
    } else {
        Some(sat64(mag_spec(mant, exp + 3)))
    }
}

/// A number taken as signed thousandths, the magnitude saturated at
/// `i64::MAX`.
pub open spec fn num_milli_i64_spec(neg: bool, mant: int, exp: int) -> int {
    let m = sat64(mag_spec(mant, exp + 3));
    let m2 = if m > i64::MAX as int {
        i64::MAX as int
    } else {
        m
    };
    if neg {
        -m2
    } else {
        m2
    }
}

/// A number truncated to a whole count: 0 for a negative value, else the
/// magnitude saturated at `u64::MAX`.
pub open spec fn num_trunc_u64_spec(neg: bool, mant: int, exp: int) -> int {
    if neg && mant != 0 {
        0
    } else {
        sat64(mag_spec(mant, exp))
    }
}

/// A number taken as an exact integer: only a plain integer token (no
/// fraction digits, no exponent) qualifies.
pub open spec fn num_int_spec(neg: bool, mant: int, exp: int) -> Option<int> {
    if exp == 0 {
        Some(
            if neg {
                -mant
            } else {
                mant
            },
        )
    } else {
        None
    }
}

proof fn lemma_pow10_mono(a: nat, b: nat)
    requires
        a <= b,
    ensures
        pow10(a) <= pow10(b),
    decreases b,
{
    lemma_pow10_pos(a);
    if a < b {
        lemma_pow10_mono(a, (b - 1) as nat);
        lemma_pow10_pos((b - 1) as nat);
    }
}

proof fn lemma_pow10_20()
    ensures
        pow10(20) > u64::MAX as int,
{
    assert(pow10(0) == 1);
    assert(pow10(1) == 10);
    assert(pow10(2) == 100);
    assert(pow10(3) == 1000);
    assert(pow10(4) == 10000);
    assert(pow10(5) == 100000);
    assert(pow10(6) == 1000000);
    assert(pow10(7) == 10000000);
    assert(pow10(8) == 100000000);
    assert(pow10(9) == 1000000000);
    assert(pow10(10) == 10000000000);
    assert(pow10(11) == 100000000000);
    assert(pow10(12) == 1000000000000);
    assert(pow10(13) == 10000000000000);
    assert(pow10(14) == 100000000000000);
    assert(pow10(15) == 1000000000000000);
    assert(pow10(16) == 10000000000000000);
    assert(pow10(17) == 100000000000000000);
    assert(pow10(18) == 1000000000000000000);
    assert(pow10(19) == 10000000000000000000);
    assert(pow10(20) == 100000000000000000000);
}

/// Magnitude of `mant * 10^exp`, rounded towards zero and saturated at
/// `u64::MAX`.
fn scale_mag(mant: u64, exp: i32) -> (r: u64)
    ensures
        r as int == sat64(mag_spec(mant as int, exp as int)),
{
    if exp >= 0 {
        if exp >= 20 {
            proof {
                lemma_pow10_20();
                lemma_pow10_mono(20, exp as nat);
                if mant == 0 {
                    assert(mant as int * pow10(exp as nat) == 0) by (nonlinear_arith)
                        requires
                            mant as int == 0,
                    ;
                } else {
                    assert(mant as int * pow10(exp as nat) >= pow10(exp as nat))
                        by (nonlinear_arith)
                        requires
                            mant as int >= 1,
                            pow10(exp as nat) >= 0,
                    ;
                }
            }
            if mant == 0 {
                return 0u64;
            }
            return u64::MAX;
        }
        let mut m: u64 = mant;
        let mut k: i32 = 0;
        while k < exp
            invariant
                0 <= k <= exp,
                m as int == sat64(mant as int * pow10(k as nat)),
            decreases exp - k,
        {
            proof {
                lemma_pow10_pos(k as nat);
                assert(pow10((k + 1) as nat) == 10 * pow10(k as nat));
                assert(mant as int * (10 * pow10(k as nat)) == (mant as int * pow10(k as nat))
                    * 10) by (nonlinear_arith);
                assert(mant as int * pow10(k as nat) >= 0) by (nonlinear_arith)
                    requires
                        mant as int >= 0,
                        pow10(k as nat) >= 1,
                ;
            }
            if m > u64::MAX / 10 {
                proof {
                    assert((mant as int * pow10(k as nat)) * 10 > u64::MAX as int)
                        by (nonlinear_arith)
                        requires
                            mant as int * pow10(k as nat) > (u64::MAX / 10) as int,
                    ;
                }
                m = u64::MAX;
            } else {
                m = m * 10;
            }
            k = k + 1;
        }
        m
    } else {
        if exp <= -20 {
            proof {
                lemma_pow10_20();
                lemma_pow10_mono(20, (-(exp as int)) as nat);
                assert(mant as int / pow10((-(exp as int)) as nat) == 0) by (nonlinear_arith)
                    requires
                        0 <= mant as int,
                        (mant as int) < pow10((-(exp as int)) as nat),
                ;
            }
            return 0u64;
        }
        let e: i32 = -exp;
        let mut m: u64 = mant;
        let mut k: i32 = 0;
        while k < e
            invariant
                0 <= k <= e,
                m as int == mant as int / pow10(k as nat),
            decreases e - k,
        {
            proof {
                lemma_pow10_pos(k as nat);
                lemma_div_denominator(mant as int, pow10(k as nat), 10);
                assert(pow10((k + 1) as nat) == 10 * pow10(k as nat));
            }
            m = m / 10;
            k = k + 1;
        }
        proof {
            lemma_pow10_pos(e as nat);
            assert(mant as int / pow10(e as nat) <= mant as int) by (nonlinear_arith)
                requires
                    pow10(e as nat) >= 1,
                    mant as int >= 0,
            ;
        }
        m
    }
}

/// A number taken as thousandths, non-negative.
fn num_milli_u64(n: &JsonNum) -> (r: Option<u64>)
    ensures
        (match r {
            Some(v) => num_milli_u64_spec(n.neg, n.mant as int, n.exp as int) == Some(v as int),
            None => num_milli_u64_spec(n.neg, n.mant as int, n.exp as int) is None,
        }),
{
    if n.neg && n.mant != 0 {
        return None;
    }
    if n.exp > i32::MAX - 3 {
        proof {
            lemma_pow10_20();
            lemma_pow10_mono(20, (n.exp as int + 3) as nat);
            assert(n.mant as int * pow10((n.exp as int + 3) as nat) >= pow10(
                (n.exp as int + 3) as nat,
            ) || n.mant == 0) by (nonlinear_arith)
                requires
                    n.mant as int >= 0,
                    pow10((n.exp as int + 3) as nat) >= 0,
            ;
            assert(n.mant == 0 ==> n.mant as int * pow10((n.exp as int + 3) as nat) == 0)
                by (nonlinear_arith);
        }
        if n.mant == 0 {
            proof {
                assert(num_milli_u64_spec(n.neg, n.mant as int, n.exp as int) == Some(0int));
            }
            return Some(0u64);
        }
        proof {
            assert(num_milli_u64_spec(n.neg, n.mant as int, n.exp as int) == Some(
                u64::MAX as int,
            ));
        }
        return Some(u64::MAX);
    }
    let v = scale_mag(n.mant, n.exp + 3);
    proof {
        assert(num_milli_u64_spec(n.neg, n.mant as int, n.exp as int) == Some(v as int));
    }
    Some(v)
}

/// A number taken as signed thousandths.
fn num_milli_i64(n: &JsonNum) -> (r: i64)
    ensures
        r as int == num_milli_i64_spec(n.neg, n.mant as int, n.exp as int),
{
    let mag: u64 = if n.exp > i32::MAX - 3 {
        proof {
            lemma_pow10_20();
            lemma_pow10_mono(20, (n.exp as int + 3) as nat);
            assert(n.mant as int * pow10((n.exp as int + 3) as nat) >= pow10(
                (n.exp as int + 3) as nat,
            ) || n.mant == 0) by (nonlinear_arith)
                requires
                    n.mant as int >= 0,
                    pow10((n.exp as int + 3) as nat) >= 0,
            ;
            assert(n.mant == 0 ==> n.mant as int * pow10((n.exp as int + 3) as nat) == 0)
                by (nonlinear_arith);
        }
        if n.mant == 0 {
            0u64
        } else {
            u64::MAX
        }
    } else {
        scale_mag(n.mant, n.exp + 3)
    };
    let m2: i64 = if mag > i64::MAX as u64 {
        i64::MAX
    } else {
        mag as i64
    };
    let r: i64 = if n.neg {
        -m2
    } else {
        m2
    };
    proof {
        assert(mag as int == sat64(mag_spec(n.mant as int, n.exp as int + 3)));
        assert(r as int == num_milli_i64_spec(n.neg, n.mant as int, n.exp as int));
    }
    r
}

/// A number truncated to a whole count.
fn num_trunc_u64(n: &JsonNum) -> (r: u64)
    ensures
        r as int == num_trunc_u64_spec(n.neg, n.mant as int, n.exp as int),
{
    if n.neg && n.mant != 0 {
        return 0u64;
    }
    scale_mag(n.mant, n.exp)
}

/// A number taken as an exact integer, within `[lo, hi]`.
fn num_int_in(n: &JsonNum, lo: i64, hi: i64) -> (r: Option<i64>)
    requires
        i64::MIN < lo <= hi,
    ensures
        (match r {
            Some(v) => {
                &&& num_int_spec(n.neg, n.mant as int, n.exp as int) == Some(v as int)
                &&& lo <= v <= hi
            },
            None => (match num_int_spec(n.neg, n.mant as int, n.exp as int) {
                Some(v) => !(lo as int <= v <= hi as int),
                None => true,
            }),
        }),
{
    if n.exp != 0 {
        return None;
    }
    if n.neg && n.mant != 0 {
        if n.mant > i64::MAX as u64 {
            // more negative than any i64; certainly below `lo`
            proof {
                assert(-(n.mant as int) <= i64::MIN as int);
            }
            return None;
        }
        let v: i64 = -(n.mant as i64);
        if lo <= v && v <= hi {
            Some(v)
        } else {
            None
        }
    } else {
        if n.mant > i64::MAX as u64 {
            return None;
        }
        let v: i64 = n.mant as i64;
        if lo <= v && v <= hi {
            Some(v)
        } else {
            None
        }
    }
}

/// A number taken as an exact non-negative integer.
fn num_int_u64(n: &JsonNum) -> (r: Option<u64>)
    ensures
        (match r {
            Some(v) => num_int_spec(n.neg, n.mant as int, n.exp as int) == Some(v as int),
            None => (match num_int_spec(n.neg, n.mant as int, n.exp as int) {
                Some(v) => v < 0,
                None => true,
            }),
        }),
{
    if n.exp != 0 {
        return None;
    }
    if n.neg && n.mant != 0 {
        return None;
    }
    Some(n.mant)
}

/// Last-match lookup among an object's members: the JSON reader keeps
/// later duplicate keys, so a repeated key means its last value.
pub open spec fn obj_get(ms: Seq<(Seq<char>, JVal)>, key: Seq<char>) -> Option<JVal>
    decreases ms.len(),
{
    if ms.len() == 0 {
        None
    } else if ms.last().0 == key {
        Some(ms.last().1)
    } else {
        obj_get(ms.drop_last(), key)
    }
}

/// A node taken as a string.
pub open spec fn jstr(v: JVal) -> Option<Seq<char>> {
    match v {
        JVal::Str(s) => Some(s),
        _ => None,
    }
}

/// A node taken as an exact integer.
pub open spec fn jint(v: JVal) -> Option<int> {
    match v {
        JVal::Num { neg, mant, exp } => num_int_spec(neg, mant, exp),
        _ => None,
    }
}

/// A required string field: the member must exist and hold a string.
pub open spec fn req_str_field(ms: Seq<(Seq<char>, JVal)>, key: Seq<char>) -> Option<Seq<char>> {
    match obj_get(ms, key) {
        Some(v) => jstr(v),
        None => None,
    }
}

/// An optional string field: absent or null stands for `None`; a present
/// member must hold a string.
pub open spec fn opt_str_field(ms: Seq<(Seq<char>, JVal)>, key: Seq<char>) -> Option<
    Option<Seq<char>>,
> {
    match obj_get(ms, key) {
        None => Some(None),
        Some(JVal::Null) => Some(None),
        Some(v) => match jstr(v) {
            Some(s) => Some(Some(s)),
            None => None,
        },
    }
}

/// A required integer field within `[lo, hi]`.
pub open spec fn req_int_field(ms: Seq<(Seq<char>, JVal)>, key: Seq<char>, lo: int, hi: int) -> Option<int> {
    match obj_get(ms, key) {
        Some(v) => match jint(v) {
            Some(n) => if lo <= n <= hi {
                Some(n)
            } else {
                None
            },
            None => None,
        },
        None => None,
    }
}

/// An optional integer field within `[lo, hi]`; absent or null stands
/// for `None`.
pub open spec fn opt_int_field(ms: Seq<(Seq<char>, JVal)>, key: Seq<char>, lo: int, hi: int) -> Option<
    Option<int>,
> {
    match obj_get(ms, key) {
        None => Some(None),
        Some(JVal::Null) => Some(None),
        Some(v) => match jint(v) {
            Some(n) => if lo <= n <= hi {
                Some(Some(n))
            } else {
                None
            },
            None => None,
        },
    }
}

/// Finds the member that last-match lookup names.
pub fn obj_member<'a>(members: &'a Vec<(String, JsonValue)>, key: &String) -> (r: Option<
    &'a JsonValue,
>)
    ensures
        (match r {
            Some(v) => obj_get(obj_view(members@), key@) == Some(jv(*v)),
            None => obj_get(obj_view(members@), key@) is None,
        }),
{
    let mut i: usize = members.len();
    proof {
        assert(obj_view(members@).take(members@.len() as int) =~= obj_view(members@));
    }
    loop
        invariant
            i <= members@.len(),
            obj_get(obj_view(members@), key@) == obj_get(
                obj_view(members@).take(i as int),
                key@,
            ),
        decreases i,
    {
        if i == 0 {
            return None;
        }
        i = i - 1;
        proof {
            assert(obj_view(members@).take(i as int + 1).last() == obj_view(members@)[i as int]);
            assert(obj_view(members@).take(i as int + 1).drop_last() =~= obj_view(
                members@,
            ).take(i as int));
        }
        if members[i].0.eq(key) {
            return Some(&members[i].1);
        }
    }
}

/// A copy of a parsed node with the same mathematical form.
#[verifier::loop_isolation(false)]
fn clone_json(v: &JsonValue) -> (r: JsonValue)
    ensures
        jv(r) == jv(*v),
    decreases *v,
{
    match v {
        JsonValue::Null => JsonValue::Null,
        JsonValue::Bool(b) => JsonValue::Bool(*b),
        JsonValue::Num(n) => JsonValue::Num(*n),
        JsonValue::Str(s) => JsonValue::Str(s.clone()),
        JsonValue::Arr(items) => {
            let mut out: Vec<JsonValue> = Vec::new();
            let mut i: usize = 0;
            while i < items.len()
                invariant
                    i <= items@.len(),
                    out@.len() == i,
                    forall|k: int| 0 <= k < i ==> jv(out@[k]) == jv(items@[k]),
                decreases items@.len() - i,
            {
                let c = clone_json(&items[i]);
                out.push(c);
                i = i + 1;
            }
            proof {
                assert(arr_view(out@) =~= arr_view(items@));
            }
            JsonValue::Arr(out)
        },
        JsonValue::Obj(members) => {
            let mut out: Vec<(String, JsonValue)> = Vec::new();
            let mut i: usize = 0;
            while i < members.len()
                invariant
                    i <= members@.len(),
                    out@.len() == i,
                    forall|k: int|
                        0 <= k < i ==> out@[k].0@ == members@[k].0@ && jv(out@[k].1) == jv(
                            members@[k].1,
                        ),
                decreases members@.len() - i,
            {
                let c = clone_json(&members[i].1);
                let k = members[i].0.clone();
                out.push((k, c));
                i = i + 1;
            }
            proof {
                assert(obj_view(out@) =~= obj_view(members@));
            }
            JsonValue::Obj(out)
        },
    }
}

/// One entry of the primary tempo list of the schema.
#[derive(Debug, Clone, Copy, PartialEq, Eq, Structural)]
pub struct RawTimePoint {
    pub beat: Beat,
    /// Tempo, thousandths of beats per minute; always positive.
    pub bpm: u64,
}

/// One entry of the generic effect list of the schema.
#[derive(Debug, Clone, Copy, PartialEq, Eq, Structural)]
pub struct RawEffect {
    pub beat: Beat,
    pub etype: u8,
    pub value: JsonNum,
}

/// One entry of the note list of the schema.
#[derive(Debug, Clone)]
pub struct RawNote {
    pub beat: Beat,
    pub column: u8,
    pub sound: Option<String>,
    pub vol: Option<u8>,
    pub offset: Option<i32>,
    pub ntype: Option<u8>,
    pub end: Option<Beat>,
}

/// Mathematical form of a note entry.
pub struct RawNoteV {
    pub beat: Beat,
    pub column: u8,
    pub sound: Option<Seq<char>>,
    pub vol: Option<u8>,
    pub offset: Option<i32>,
    pub ntype: Option<u8>,
    pub end: Option<Beat>,
}

/// View of a note entry.
pub open spec fn raw_note_view(n: RawNote) -> RawNoteV {
    RawNoteV {
        beat: n.beat,
        column: n.column,
        sound: match n.sound {
            Some(s) => Some(s@),
            None => None,
        },
        vol: n.vol,
        offset: n.offset,
        ntype: n.ntype,
        end: n.end,
    }
}

/// View of a note list.
pub open spec fn raw_notes_view(ns: Seq<RawNote>) -> Seq<RawNoteV> {
    Seq::new(
        ns.len(),
        |i: int|
            if 0 <= i < ns.len() {
                raw_note_view(ns[i])
            } else {
                RawNoteV {
                    beat: Beat { measure: 0, numer: 0, denom: 1 },
                    column: 0,
                    sound: None,
                    vol: None,
                    offset: None,
                    ntype: None,
                    end: None,
                }
            },
    )
}

/// The header part of the schema, typed.
pub struct MetaV {
    pub title: Seq<char>,
    pub title_org: Option<Seq<char>>,
    pub artist: Seq<char>,
    pub artist_org: Option<Seq<char>>,
    pub creator: Seq<char>,
    pub version: Seq<char>,
    pub background: Option<Seq<char>>,
    pub id: Option<int>,
    pub mode: u8,
    pub columns: u8,
}

/// The whole schema document, typed: the mathematical form of what the
/// reader accepts.
pub struct RawDocV {
    pub meta: MetaV,
    pub time: Seq<RawTimePoint>,
    pub effects: Seq<RawEffect>,
    pub notes: Seq<RawNoteV>,
    pub extra: Seq<(Seq<char>, JVal)>,
}

/// The typed schema document.
#[derive(Debug)]
pub struct RawDoc {
    pub title: String,
    pub title_org: Option<String>,
    pub artist: String,
    pub artist_org: Option<String>,
    pub creator: String,
    pub version: String,
    pub background: Option<String>,
    pub id: Option<u64>,
    pub mode: u8,
    pub columns: u8,
    pub time: Vec<RawTimePoint>,
    pub effects: Vec<RawEffect>,
    pub notes: Vec<RawNote>,
    pub extra: Vec<(String, JsonValue)>,
}

/// View of the typed schema document.
pub open spec fn raw_doc_view(d: RawDoc) -> RawDocV {
    RawDocV {
        meta: MetaV {
            title: d.title@,
            title_org: match d.title_org {
                Some(s) => Some(s@),
                None => None,
            },
            artist: d.artist@,
            artist_org: match d.artist_org {
                Some(s) => Some(s@),
                None => None,
            },
            creator: d.creator@,
            version: d.version@,
            background: match d.background {
                Some(s) => Some(s@),
                None => None,
            },
            id: match d.id {
                Some(n) => Some(n as int),
                None => None,
            },
            mode: d.mode,
            columns: d.columns,
        },
        time: d.time@,
        effects: d.effects@,
        notes: raw_notes_view(d.notes@),
        extra: obj_view(d.extra@),
    }
}

/// An optional non-negative integer field of up to 64 bits; absent or
/// null stands for `None`.
pub open spec fn opt_u64_field(ms: Seq<(Seq<char>, JVal)>, key: Seq<char>) -> Option<Option<int>> {
    opt_int_field(ms, key, 0, u64::MAX as int)
}

/// A beat triple `[measure, numerator, denominator]`.
pub open spec fn beat_of(v: JVal) -> Option<Beat> {
    match v {
        JVal::Arr(items) => {
            if items.len() == 3 {
                match (jint(items[0]), jint(items[1]), jint(items[2])) {
                    (Some(m), Some(n), Some(d)) => {
                        if i32::MIN <= m <= i32::MAX && i32::MIN <= n <= i32::MAX && i32::MIN <= d
                            <= i32::MAX {
                            Some(Beat { measure: m as i32, numer: n as i32, denom: d as i32 })
                        } else {
                            None
                        }
                    },
                    _ => None,
                }
            } else {
                None
            }
        },
        _ => None,
    }
}

/// An optional beat field; absent or null stands for `None`.
pub open spec fn opt_beat_field(ms: Seq<(Seq<char>, JVal)>, key: Seq<char>) -> Option<Option<Beat>> {
    match obj_get(ms, key) {
        None => Some(None),
        Some(JVal::Null) => Some(None),
        Some(v) => match beat_of(v) {
            Some(b) => Some(Some(b)),
            None => None,
        },
    }
}

/// One primary tempo entry: a beat and a positive tempo.
pub open spec fn tp_of(v: JVal) -> Option<RawTimePoint> {
    match v {
        JVal::Obj(ms) => {
            let b = match obj_get(ms, "beat"@) {
                Some(bv) => beat_of(bv),
                None => None,
            };
            let bpm = match obj_get(ms, "bpm"@) {
                Some(JVal::Num { neg, mant, exp }) => num_milli_u64_spec(neg, mant, exp),
                _ => None,
            };
            match (b, bpm) {
                (Some(beat), Some(m)) => {
                    if 1 <= m {
                        Some(RawTimePoint { beat, bpm: m as u64 })
                    } else {
                        None
                    }
                },
                _ => None,
            }
        },
        _ => None,
    }
}

/// One effect entry: a beat, a type code and a numeric value.
pub open spec fn eff_of(v: JVal) -> Option<RawEffect> {
    match v {
        JVal::Obj(ms) => {
            let b = match obj_get(ms, "beat"@) {
                Some(bv) => beat_of(bv),
                None => None,
            };
            let t = req_int_field(ms, "type"@, 0, 255);
            let val = match obj_get(ms, "value"@) {
                Some(JVal::Num { neg, mant, exp }) => {
                    if 0 <= mant <= u64::MAX as int && i32::MIN <= exp <= i32::MAX {
                        Some(JsonNum { neg, mant: mant as u64, exp: exp as i32 })
                    } else {
                        None
                    }
                },
                _ => None,
            };
            match (b, t, val) {
                (Some(beat), Some(tv), Some(value)) => Some(
                    RawEffect { beat, etype: tv as u8, value },
                ),
                _ => None,
            }
        },
        _ => None,
    }
}

/// One note entry.
pub open spec fn note_of(v: JVal) -> Option<RawNoteV> {
    match v {
        JVal::Obj(ms) => {
            let b = match obj_get(ms, "beat"@) {
                Some(bv) => beat_of(bv),
                None => None,
            };
            let col = req_int_field(ms, "column"@, 0, 255);
            let sound = opt_str_field(ms, "sound"@);
            let vol = opt_int_field(ms, "vol"@, 0, 255);
            let offset = opt_int_field(ms, "offset"@, i32::MIN as int, i32::MAX as int);
            let ntype = opt_int_field(ms, "type"@, 0, 255);
            let end = opt_beat_field(ms, "end"@);
            match (b, col, sound) {
                (Some(beat), Some(c), Some(snd)) => {
                    match (vol, offset, ntype, end) {
                        (Some(vv), Some(ov), Some(tv), Some(ev)) => Some(
                            RawNoteV {
                                beat,
                                column: c as u8,
                                sound: snd,
                                vol: match vv {
                                    Some(x) => Some(x as u8),
                                    None => None,
                                },
                                offset: match ov {
                                    Some(x) => Some(x as i32),
                                    None => None,
                                },
                                ntype: match tv {
                                    Some(x) => Some(x as u8),
                                    None => None,
                                },
                                end: ev,
                            },
                        ),
                        _ => None,
                    }
                },
                _ => None,
            }
        },
        _ => None,
    }
}

/// The primary tempo list.
pub open spec fn tps_of(items: Seq<JVal>) -> Option<Seq<RawTimePoint>>
    decreases items.len(),
{
    if items.len() == 0 {
        Some(Seq::empty())
    } else {
        match (tps_of(items.drop_last()), tp_of(items.last())) {
            (Some(s), Some(t)) => Some(s.push(t)),
            _ => None,
        }
    }
}

/// The effect list.
pub open spec fn effs_of(items: Seq<JVal>) -> Option<Seq<RawEffect>>
    decreases items.len(),
{
    if items.len() == 0 {
        Some(Seq::empty())
    } else {
        match (effs_of(items.drop_last()), eff_of(items.last())) {
            (Some(s), Some(t)) => Some(s.push(t)),
            _ => None,
        }
    }
}

/// The note list.
pub open spec fn notes_of(items: Seq<JVal>) -> Option<Seq<RawNoteV>>
    decreases items.len(),
{
    if items.len() == 0 {
        Some(Seq::empty())
    } else {
        match (notes_of(items.drop_last()), note_of(items.last())) {
            (Some(s), Some(t)) => Some(s.push(t)),
            _ => None,
        }
    }
}

/// The track count: the `mode_ext.column` field where the schema has
/// one, else 4.
pub open spec fn columns_of(ms: Seq<(Seq<char>, JVal)>) -> Option<u8> {
    match obj_get(ms, "mode_ext"@) {
        None => Some(4),
        Some(JVal::Null) => Some(4),
        Some(JVal::Obj(mx)) => {
            let col = req_int_field(mx, "column"@, 0, 255);
            let bb = opt_int_field(mx, "bar_begin"@, i32::MIN as int, i32::MAX as int);
            match (col, bb) {
                (Some(c), Some(_)) => Some(c as u8),
                _ => None,
            }
        },
        Some(_) => None,
    }
}

/// The header: every declared field present with its declared type, the
/// nested song object included.
pub open spec fn meta_of(ms: Seq<(Seq<char>, JVal)>) -> Option<MetaV> {
    let ver = opt_int_field(ms, "$ver"@, i32::MIN as int, i32::MAX as int);
    let mtime = opt_u64_field(ms, "time"@);
    let creator = req_str_field(ms, "creator"@);
    let background = opt_str_field(ms, "background"@);
    let version = req_str_field(ms, "version"@);
    let id = opt_u64_field(ms, "id"@);
    let mode = req_int_field(ms, "mode"@, 0, 255);
    let columns = columns_of(ms);
    match obj_get(ms, "song"@) {
        Some(JVal::Obj(song)) => {
            let title = req_str_field(song, "title"@);
            let artist = req_str_field(song, "artist"@);
            let title_org = opt_str_field(song, "titleorg"@);
            let artist_org = opt_str_field(song, "artistorg"@);
            let song_id = opt_u64_field(song, "id"@);
            if ver is Some && mtime is Some && creator is Some && background is Some && version
                is Some && id is Some && mode is Some && columns is Some && title is Some && artist
                is Some && title_org is Some && artist_org is Some && song_id is Some {
                Some(
                    MetaV {
                        title: title->0,
                        title_org: title_org->0,
                        artist: artist->0,
                        artist_org: artist_org->0,
                        creator: creator->0,
                        version: version->0,
                        background: background->0,
                        id: id->0,
                        mode: (mode->0) as u8,
                        columns: columns->0,
                    },
                )
            } else {
                None
            }
        },
        _ => None,
    }
}

/// What the reader accepts: an object with a valid header and the three
/// entry lists, plus the open `extra` object.
pub open spec fn extract_spec(doc: JVal) -> Option<RawDocV> {
    match doc {
        JVal::Obj(ms) => {
            let meta = match obj_get(ms, "meta"@) {
                Some(JVal::Obj(mm)) => meta_of(mm),
                _ => None,
            };
            let time = match obj_get(ms, "time"@) {
                Some(JVal::Arr(ts)) => tps_of(ts),
                _ => None,
            };
            let effects = match obj_get(ms, "effect"@) {
                Some(JVal::Arr(es)) => effs_of(es),
                _ => None,
            };
            let notes = match obj_get(ms, "note"@) {
                Some(JVal::Arr(nss)) => notes_of(nss),
                _ => None,
            };
            let extra = match obj_get(ms, "extra"@) {
                None => Some(Seq::<(Seq<char>, JVal)>::empty()),
                Some(JVal::Null) => Some(Seq::<(Seq<char>, JVal)>::empty()),
                Some(JVal::Obj(e)) => Some(e),
                Some(_) => None,
            };
            match (meta, time, effects, notes, extra) {
                (Some(m), Some(t), Some(e), Some(n), Some(x)) => Some(
                    RawDocV { meta: m, time: t, effects: e, notes: n, extra: x },
                ),
                _ => None,
            }
        },
        _ => None,
    }
}

/// A required string field.
fn get_req_str(ms: &Vec<(String, JsonValue)>, key: &String) -> (r: Option<String>)
    ensures
        (match r {
            Some(s) => req_str_field(obj_view(ms@), key@) == Some(s@),
            None => req_str_field(obj_view(ms@), key@) is None,
        }),
{
    match obj_member(ms, key) {
        Some(JsonValue::Str(s)) => Some(s.clone()),
        _ => None,
    }
}

/// An optional string field.
fn get_opt_str(ms: &Vec<(String, JsonValue)>, key: &String) -> (r: Option<Option<String>>)
    ensures
        (match r {
            Some(Some(s)) => opt_str_field(obj_view(ms@), key@) == Some(Some(s@)),
            Some(None) => opt_str_field(obj_view(ms@), key@) == Some(None::<Seq<char>>),
            None => opt_str_field(obj_view(ms@), key@) is None,
        }),
{
    match obj_member(ms, key) {
        None => Some(None),
        Some(JsonValue::Null) => Some(None),
        Some(JsonValue::Str(s)) => Some(Some(s.clone())),
        Some(_) => None,
    }
}

/// A required integer field within `[lo, hi]`.
fn get_req_int(ms: &Vec<(String, JsonValue)>, key: &String, lo: i64, hi: i64) -> (r: Option<i64>)
    requires
        i64::MIN < lo <= hi,
    ensures
        (match r {
            Some(n) => req_int_field(obj_view(ms@), key@, lo as int, hi as int) == Some(n as int),
            None => req_int_field(obj_view(ms@), key@, lo as int, hi as int) is None,
        }),
{
    match obj_member(ms, key) {
        Some(JsonValue::Num(n)) => num_int_in(n, lo, hi),
        _ => None,
    }
}

/// An optional integer field within `[lo, hi]`.
fn get_opt_int(ms: &Vec<(String, JsonValue)>, key: &String, lo: i64, hi: i64) -> (r: Option<
    Option<i64>,
>)
    requires
        i64::MIN < lo <= hi,
    ensures
        (match r {
            Some(Some(n)) => opt_int_field(obj_view(ms@), key@, lo as int, hi as int) == Some(
                Some(n as int),
            ),
            Some(None) => opt_int_field(obj_view(ms@), key@, lo as int, hi as int) == Some(
                None::<int>,
            ),
            None => opt_int_field(obj_view(ms@), key@, lo as int, hi as int) is None,
        }),
{
    match obj_member(ms, key) {
        None => Some(None),
        Some(JsonValue::Null) => Some(None),
        Some(JsonValue::Num(n)) => match num_int_in(n, lo, hi) {
            Some(v) => Some(Some(v)),
            None => None,
        },
        Some(_) => None,
    }
}

/// An optional non-negative 64-bit integer field.
fn get_opt_u64(ms: &Vec<(String, JsonValue)>, key: &String) -> (r: Option<Option<u64>>)
    ensures
        (match r {
            Some(Some(n)) => opt_u64_field(obj_view(ms@), key@) == Some(Some(n as int)),
            Some(None) => opt_u64_field(obj_view(ms@), key@) == Some(None::<int>),
            None => opt_u64_field(obj_view(ms@), key@) is None,
        }),
{
    match obj_member(ms, key) {
        None => Some(None),
        Some(JsonValue::Null) => Some(None),
        Some(JsonValue::Num(n)) => match num_int_u64(n) {
            Some(v) => Some(Some(v)),
            None => None,
        },
        Some(_) => None,
    }
}

/// A beat triple.
fn get_beat_val(v: &JsonValue) -> (r: Option<Beat>)
    ensures
        (match r {
            Some(b) => beat_of(jv(*v)) == Some(b),
            None => beat_of(jv(*v)) is None,
        }),
{
    match v {
        JsonValue::Arr(items) => {
            if items.len() != 3 {
                return None;
            }
            let m = match &items[0] {
                JsonValue::Num(n) => num_int_in(n, i32::MIN as i64, i32::MAX as i64),
                _ => None,
            };
            proof {
                assert(arr_view(items@)[0] == jv(items@[0]));
                assert(arr_view(items@)[1] == jv(items@[1]));
                assert(arr_view(items@)[2] == jv(items@[2]));
            }
            let m = match m {
                Some(x) => x,
                None => {
                    return None;
                },
            };
            let n = match &items[1] {
                JsonValue::Num(n) => num_int_in(n, i32::MIN as i64, i32::MAX as i64),
                _ => None,
            };
            let n = match n {
                Some(x) => x,
                None => {
                    return None;
                },
            };
            let d = match &items[2] {
                JsonValue::Num(n) => num_int_in(n, i32::MIN as i64, i32::MAX as i64),
                _ => None,
            };
            let d = match d {
                Some(x) => x,
                None => {
                    return None;
                },
            };
            Some(Beat { measure: m as i32, numer: n as i32, denom: d as i32 })
        },
        _ => None,
    }
}

/// An optional beat field.
fn get_opt_beat(ms: &Vec<(String, JsonValue)>, key: &String) -> (r: Option<Option<Beat>>)
    ensures
        (match r {
            Some(Some(b)) => opt_beat_field(obj_view(ms@), key@) == Some(Some(b)),
            Some(None) => opt_beat_field(obj_view(ms@), key@) == Some(None::<Beat>),
            None => opt_beat_field(obj_view(ms@), key@) is None,
        }),
{
    match obj_member(ms, key) {
        None => Some(None),
        Some(JsonValue::Null) => Some(None),
        Some(v) => match get_beat_val(v) {
            Some(b) => Some(Some(b)),
            None => None,
        },
    }
}

/// One primary tempo entry.
fn extract_tp(v: &JsonValue) -> (r: Option<RawTimePoint>)
    ensures
        (match r {
            Some(t) => tp_of(jv(*v)) == Some(t),
            None => tp_of(jv(*v)) is None,
        }),
{
    match v {
        JsonValue::Obj(ms) => {
            let beat_key = String::from_str("beat");
            let bpm_key = String::from_str("bpm");
            let b = match obj_member(ms, &beat_key) {
                Some(bv) => get_beat_val(bv),
                None => None,
            };
            let bpm = match obj_member(ms, &bpm_key) {
                Some(JsonValue::Num(n)) => num_milli_u64(n),
                _ => None,
            };
            match (b, bpm) {
                (Some(beat), Some(m)) => {
                    if 1 <= m {
                        Some(RawTimePoint { beat, bpm: m })
                    } else {
                        None
                    }
                },
                _ => None,
            }
        },
        _ => None,
    }
}

/// One effect entry.
fn extract_eff(v: &JsonValue) -> (r: Option<RawEffect>)
    ensures
        (match r {
            Some(t) => eff_of(jv(*v)) == Some(t),
            None => eff_of(jv(*v)) is None,
        }),
{
    match v {
        JsonValue::Obj(ms) => {
            let beat_key = String::from_str("beat");
            let type_key = String::from_str("type");
            let value_key = String::from_str("value");
            let b = match obj_member(ms, &beat_key) {
                Some(bv) => get_beat_val(bv),
                None => None,
            };
            let t = get_req_int(ms, &type_key, 0, 255);
            let val = match obj_member(ms, &value_key) {
                Some(JsonValue::Num(n)) => Some(*n),
                _ => None,
            };
            match (b, t, val) {
                (Some(beat), Some(tv), Some(value)) => Some(
                    RawEffect { beat, etype: tv as u8, value },
                ),
                _ => None,
            }
        },
        _ => None,
    }
}

/// One note entry.
fn extract_note(v: &JsonValue) -> (r: Option<RawNote>)
    ensures
        (match r {
            Some(n) => note_of(jv(*v)) == Some(raw_note_view(n)),
            None => note_of(jv(*v)) is None,
        }),
{
    match v {
        JsonValue::Obj(ms) => {
            let beat_key = String::from_str("beat");
            let column_key = String::from_str("column");
            let sound_key = String::from_str("sound");
            let vol_key = String::from_str("vol");
            let offset_key = String::from_str("offset");
            let type_key = String::from_str("type");
            let end_key = String::from_str("end");
            let b = match obj_member(ms, &beat_key) {
                Some(bv) => get_beat_val(bv),
                None => None,
            };
            let col = get_req_int(ms, &column_key, 0, 255);
            let sound = get_opt_str(ms, &sound_key);
            let vol = get_opt_int(ms, &vol_key, 0, 255);
            let offset = get_opt_int(ms, &offset_key, i32::MIN as i64, i32::MAX as i64);
            let ntype = get_opt_int(ms, &type_key, 0, 255);
            let end = get_opt_beat(ms, &end_key);
            let b = match b {
                Some(x) => x,
                None => {
                    return None;
                },
            };
            let col = match col {
                Some(x) => x,
                None => {
                    return None;
                },
            };
            let sound = match sound {
                Some(x) => x,
                None => {
                    return None;
                },
            };
            let vol = match vol {
                Some(x) => x,
                None => {
                    return None;
                },
            };
            let offset = match offset {
                Some(x) => x,
                None => {
                    return None;
                },
            };
            let ntype = match ntype {
                Some(x) => x,
                None => {
                    return None;
                },
            };
            let end = match end {
                Some(x) => x,
                None => {
                    return None;
                },
            };
            Some(
                RawNote {
                    beat: b,
                    column: col as u8,
                    sound,
                    vol: match vol {
                        Some(x) => Some(x as u8),
                        None => None,
                    },
                    offset: match offset {
                        Some(x) => Some(x as i32),
                        None => None,
                    },
                    ntype: match ntype {
                        Some(x) => Some(x as u8),
                        None => None,
                    },
                    end,
                },
            )
        },
        _ => None,
    }
}

/// The primary tempo list.
fn extract_tps(items: &Vec<JsonValue>) -> (r: Option<Vec<RawTimePoint>>)
    ensures
        (match r {
            Some(ts) => tps_of(arr_view(items@)) == Some(ts@),
            None => tps_of(arr_view(items@)) is None,
        }),
{
    let mut out: Vec<RawTimePoint> = Vec::new();
    let mut i: usize = 0;
    proof {
        assert(arr_view(items@).take(0) =~= Seq::<JVal>::empty());
    }
    while i < items.len()
        invariant
            i <= items@.len(),
            tps_of(arr_view(items@).take(i as int)) == Some(out@),
        decreases items@.len() - i,
    {
        proof {
            assert(arr_view(items@).take(i as int + 1).drop_last() =~= arr_view(items@).take(
                i as int,
            ));
            assert(arr_view(items@).take(i as int + 1).last() == jv(items@[i as int]));
        }
        match extract_tp(&items[i]) {
            Some(t) => {
                out.push(t);
            },
            None => {
                proof {
                    lemma_list_of_prefix_none_tps(arr_view(items@), i as int + 1);
                }
                return None;
            },
        }
        i = i + 1;
    }
    proof {
        assert(arr_view(items@).take(items@.len() as int) =~= arr_view(items@));
    }
    Some(out)
}

/// The effect list.
fn extract_effs(items: &Vec<JsonValue>) -> (r: Option<Vec<RawEffect>>)
    ensures
        (match r {
            Some(ts) => effs_of(arr_view(items@)) == Some(ts@),
            None => effs_of(arr_view(items@)) is None,
        }),
{
    let mut out: Vec<RawEffect> = Vec::new();
    let mut i: usize = 0;
    proof {
        assert(arr_view(items@).take(0) =~= Seq::<JVal>::empty());
    }
    while i < items.len()
        invariant
            i <= items@.len(),
            effs_of(arr_view(items@).take(i as int)) == Some(out@),
        decreases items@.len() - i,
    {
        proof {
            assert(arr_view(items@).take(i as int + 1).drop_last() =~= arr_view(items@).take(
                i as int,
            ));
            assert(arr_view(items@).take(i as int + 1).last() == jv(items@[i as int]));
        }
        match extract_eff(&items[i]) {
            Some(t) => {
                out.push(t);
            },
            None => {
                proof {
                    lemma_list_of_prefix_none_effs(arr_view(items@), i as int + 1);
                }
                return None;
            },
        }
        i = i + 1;
    }
    proof {
        assert(arr_view(items@).take(items@.len() as int) =~= arr_view(items@));
    }
    Some(out)
}

/// The note list.
fn extract_notes(items: &Vec<JsonValue>) -> (r: Option<Vec<RawNote>>)
    ensures
        (match r {
            Some(ns) => notes_of(arr_view(items@)) == Some(raw_notes_view(ns@)),
            None => notes_of(arr_view(items@)) is None,
        }),
{
    let mut out: Vec<RawNote> = Vec::new();
    let mut i: usize = 0;
    proof {
        assert(arr_view(items@).take(0) =~= Seq::<JVal>::empty());
        assert(raw_notes_view(out@) =~= Seq::<RawNoteV>::empty());
    }
    while i < items.len()
        invariant
            i <= items@.len(),
            notes_of(arr_view(items@).take(i as int)) == Some(raw_notes_view(out@)),
        decreases items@.len() - i,
    {
        proof {
            assert(arr_view(items@).take(i as int + 1).drop_last() =~= arr_view(items@).take(
                i as int,
            ));
            assert(arr_view(items@).take(i as int + 1).last() == jv(items@[i as int]));
        }
        match extract_note(&items[i]) {
            Some(t) => {
                proof {
                    assert(raw_notes_view(out@.push(t)) =~= raw_notes_view(out@).push(
                        raw_note_view(t),
                    ));
                }
                out.push(t);
            },
            None => {
                proof {
                    lemma_list_of_prefix_none_notes(arr_view(items@), i as int + 1);
                }
                return None;
            },
        }
        i = i + 1;
    }
    proof {
        assert(arr_view(items@).take(items@.len() as int) =~= arr_view(items@));
    }
    Some(out)
}

proof fn lemma_list_of_prefix_none_tps(items: Seq<JVal>, k: int)
    requires
        0 <= k <= items.len(),
        tps_of(items.take(k)) is None,
    ensures
        tps_of(items) is None,
    decreases items.len() - k,
{
    if k < items.len() {
        assert(items.take(k + 1).drop_last() =~= items.take(k));
        lemma_list_of_prefix_none_tps(items, k + 1);
    } else {
        assert(items.take(k) =~= items);
    }
}

proof fn lemma_list_of_prefix_none_effs(items: Seq<JVal>, k: int)
    requires
        0 <= k <= items.len(),
        effs_of(items.take(k)) is None,
    ensures
        effs_of(items) is None,
    decreases items.len() - k,
{
    if k < items.len() {
        assert(items.take(k + 1).drop_last() =~= items.take(k));
        lemma_list_of_prefix_none_effs(items, k + 1);
    } else {
        assert(items.take(k) =~= items);
    }
}

proof fn lemma_list_of_prefix_none_notes(items: Seq<JVal>, k: int)
    requires
        0 <= k <= items.len(),
        notes_of(items.take(k)) is None,
    ensures
        notes_of(items) is None,
    decreases items.len() - k,
{
    if k < items.len() {
        assert(items.take(k + 1).drop_last() =~= items.take(k));
        lemma_list_of_prefix_none_notes(items, k + 1);
    } else {
        assert(items.take(k) =~= items);
    }
}

/// The typed schema from a parsed document; `None` where the schema is
/// not met.
fn extract_doc(v: &JsonValue) -> (r: Option<RawDoc>)
    ensures
        (match r {
            Some(d) => extract_spec(jv(*v)) == Some(raw_doc_view(d)),
            None => extract_spec(jv(*v)) is None,
        }),
{
    let ms = match v {
        JsonValue::Obj(ms) => ms,
        _ => {
            return None;
        },
    };
    let meta_key = String::from_str("meta");
    let time_key = String::from_str("time");
    let effect_key = String::from_str("effect");
    let note_key = String::from_str("note");
    let extra_key = String::from_str("extra");
    let song_key = String::from_str("song");
    let mode_ext_key = String::from_str("mode_ext");

    let mm = match obj_member(ms, &meta_key) {
        Some(JsonValue::Obj(mm)) => mm,
        _ => {
            return None;
        },
    };
    // header fields
    let ver_key = String::from_str("$ver");
    let mtime_key = String::from_str("time");
    let creator_key = String::from_str("creator");
    let background_key = String::from_str("background");
    let version_key = String::from_str("version");
    let id_key = String::from_str("id");
    let mode_key = String::from_str("mode");
    let ver = get_opt_int(mm, &ver_key, i32::MIN as i64, i32::MAX as i64);
    let mtime = get_opt_u64(mm, &mtime_key);
    let creator = get_req_str(mm, &creator_key);
    let background = get_opt_str(mm, &background_key);
    let version = get_req_str(mm, &version_key);
    let id = get_opt_u64(mm, &id_key);
    let mode = get_req_int(mm, &mode_key, 0, 255);
    // track count
    let columns: Option<u8> = match obj_member(mm, &mode_ext_key) {
        None => Some(4),
        Some(JsonValue::Null) => Some(4),
        Some(JsonValue::Obj(mx)) => {
            let column_key = String::from_str("column");
            let bar_begin_key = String::from_str("bar_begin");
            let col = get_req_int(mx, &column_key, 0, 255);
            let bb = get_opt_int(mx, &bar_begin_key, i32::MIN as i64, i32::MAX as i64);
            match (col, bb) {
                (Some(c), Some(_)) => Some(c as u8),
                _ => None,
            }
        },
        Some(_) => None,
    };
    // song
    let song = match obj_member(mm, &song_key) {
        Some(JsonValue::Obj(song)) => song,
        _ => {
            return None;
        },
    };
    let title_key = String::from_str("title");
    let artist_key = String::from_str("artist");
    let titleorg_key = String::from_str("titleorg");
    let artistorg_key = String::from_str("artistorg");
    let title = get_req_str(song, &title_key);
    let artist = get_req_str(song, &artist_key);
    let title_org = get_opt_str(song, &titleorg_key);
    let artist_org = get_opt_str(song, &artistorg_key);
    let song_id = get_opt_u64(song, &id_key);
    let ver = match ver {
        Some(x) => x,
        None => {
            return None;
        },
    };
    let _ = ver;
    let mtime = match mtime {
        Some(x) => x,
        None => {
            return None;
        },
    };
    let _ = mtime;
    let creator = match creator {
        Some(x) => x,
        None => {
            return None;
        },
    };
    let background = match background {
        Some(x) => x,
        None => {
            return None;
        },
    };
    let version = match version {
        Some(x) => x,
        None => {
            return None;
        },
    };
    let id = match id {
        Some(x) => x,
        None => {
            return None;
        },
    };
    let mode = match mode {
        Some(x) => x,
        None => {
            return None;
        },
    };
    let columns = match columns {
        Some(x) => x,
        None => {
            return None;
        },
    };
    let title = match title {
        Some(x) => x,
        None => {
            return None;
        },
    };
    let artist = match artist {
        Some(x) => x,
        None => {
            return None;
        },
    };
    let title_org = match title_org {
        Some(x) => x,
        None => {
            return None;
        },
    };
    let artist_org = match artist_org {
        Some(x) => x,
        None => {
            return None;
        },
    };
    let song_id = match song_id {
        Some(x) => x,
        None => {
            return None;
        },
    };
    let _ = song_id;
    // the three entry lists
    let time = match obj_member(ms, &time_key) {
        Some(JsonValue::Arr(ts)) => extract_tps(ts),
        _ => {
            return None;
        },
    };
    let time = match time {
        Some(x) => x,
        None => {
            return None;
        },
    };
    let effects = match obj_member(ms, &effect_key) {
        Some(JsonValue::Arr(es)) => extract_effs(es),
        _ => {
            return None;
        },
    };
    let effects = match effects {
        Some(x) => x,
        None => {
            return None;
        },
    };
    let notes = match obj_member(ms, &note_key) {
        Some(JsonValue::Arr(nss)) => extract_notes(nss),
        _ => {
            return None;
        },
    };
    let notes = match notes {
        Some(x) => x,
        None => {
            return None;
        },
    };
    let extra: Vec<(String, JsonValue)> = match obj_member(ms, &extra_key) {
        None => {
            let e: Vec<(String, JsonValue)> = Vec::new();
            proof {
                assert(obj_view(e@) =~= Seq::<(Seq<char>, JVal)>::empty());
            }
            e
        },
        Some(JsonValue::Null) => {
            let e: Vec<(String, JsonValue)> = Vec::new();
            proof {
                assert(obj_view(e@) =~= Seq::<(Seq<char>, JVal)>::empty());
            }
            e
        },
        Some(JsonValue::Obj(e)) => clone_json_obj(e),
        Some(_) => {
            return None;
        },
    };
    let d = RawDoc {
        title,
        title_org,
        artist,
        artist_org,
        creator,
        version,
        background,
        id,
        mode: mode as u8,
        columns,
        time,
        effects,
        notes,
        extra,
    };
    proof {
        assert(extract_spec(jv(*v)) == Some(raw_doc_view(d)));
    }
    Some(d)
}

/// A copy of an object's members with the same mathematical form.
fn clone_json_obj(members: &Vec<(String, JsonValue)>) -> (r: Vec<(String, JsonValue)>)
    ensures
        obj_view(r@) == obj_view(members@),
{
    let mut out: Vec<(String, JsonValue)> = Vec::new();
    let mut i: usize = 0;
    while i < members.len()
        invariant
            i <= members@.len(),
            out@.len() == i,
            forall|k: int|
                0 <= k < i ==> out@[k].0@ == members@[k].0@ && jv(out@[k].1) == jv(members@[k].1),
        decreases members@.len() - i,
    {
        let c = clone_json(&members[i].1);
        let k = members[i].0.clone();
        out.push((k, c));
        i = i + 1;
    }
    proof {
        assert(obj_view(out@) =~= obj_view(members@));
    }
    out
}

/// The base tempo: the first primary entry's, else 120 beats per minute.
pub open spec fn base_bpm_spec(tps: Seq<RawTimePoint>) -> int {
    if tps.len() == 0 {
        120_000
    } else {
        tps[0].bpm as int
    }
}

/// The primary breakpoint list, in file order: each entry's absolute
/// time is computed against only the entries before it in the file,
/// walked in that order, starting from the base tempo.
pub open spec fn primary_changes(tps: Seq<RawTimePoint>) -> Seq<BPMChange>
    decreases tps.len(),
{
    if tps.len() == 0 {
        Seq::empty()
    } else {
        let prev = primary_changes(tps.drop_last());
        let tp = tps.last();
        prev.push(
            BPMChange {
                time: beat_time_spec(prev, tp.beat, base_bpm_spec(tps)) as u64,
                bpm: tp.bpm,
                beat: tp.beat,
            },
        )
    }
}

/// Mathematical form of a generic chart event.
pub struct EventV {
    pub time: u64,
    pub tag: Seq<char>,
    pub data: JVal,
}

/// View of a generic chart event.
pub open spec fn event_view(e: ChartEvent) -> EventV {
    EventV { time: e.time, tag: e.event_type@, data: jv(e.data) }
}

/// View of an event list.
pub open spec fn events_views(es: Seq<ChartEvent>) -> Seq<EventV> {
    Seq::new(
        es.len(),
        |i: int|
            if 0 <= i < es.len() {
                event_view(es[i])
            } else {
                EventV { time: 0, tag: Seq::empty(), data: JVal::Null }
            },
    )
}

/// Mathematical form of a note.
pub struct NoteV {
    pub id: u64,
    pub start_time: u64,
    pub end_time: Option<u64>,
    pub column: u8,
    pub ntype: NoteType,
    pub beat: Beat,
    pub sound: Option<Seq<char>>,
    pub volume: Option<u8>,
}

/// View of a note.
pub open spec fn note_view(n: Note) -> NoteV {
    NoteV {
        id: n.id,
        start_time: n.start_time,
        end_time: n.end_time,
        column: n.column,
        ntype: n.note_type,
        beat: n.beat,
        sound: match n.sound {
            Some(s) => Some(s@),
            None => None,
        },
        volume: n.volume,
    }
}

/// View of a note list.
pub open spec fn notes_views(ns: Seq<Note>) -> Seq<NoteV> {
    Seq::new(
        ns.len(),
        |i: int|
            if 0 <= i < ns.len() {
                note_view(ns[i])
            } else {
                NoteV {
                    id: 0,
                    start_time: 0,
                    end_time: None,
                    column: 0,
                    ntype: NoteType::Tap,
                    beat: Beat { measure: 0, numer: 0, denom: 1 },
                    sound: None,
                    volume: None,
                }
            },
    )
}

/// The four timelines accumulated while walking the effect list.
pub struct TimelinesV {
    pub bpms: Seq<BPMChange>,
    pub sigs: Seq<TimeSignature>,
    pub speeds: Seq<SpeedChange>,
    pub events: Seq<EventV>,
}

/// Walks the effect list in file order over the growing combined
/// breakpoint list: a type-1 effect appends a tempo breakpoint (its
/// value must be a positive tempo), type 2 a meter breakpoint whose
/// packed value holds numerator and denominator in its low two bytes,
/// type 3 a speed breakpoint, and any other type a generic event tagged
/// by its type code.  Each entry's absolute time is resolved against the
/// breakpoints accumulated before it.
pub open spec fn effects_fold(effs: Seq<RawEffect>, init: Seq<BPMChange>, base: int) -> Option<
    TimelinesV,
>
    decreases effs.len(),
{
    if effs.len() == 0 {
        Some(TimelinesV { bpms: init, sigs: Seq::empty(), speeds: Seq::empty(), events: Seq::empty() })
    } else {
        match effects_fold(effs.drop_last(), init, base) {
            None => None,
            Some(prev) => {
                let e = effs.last();
                let t = beat_time_spec(prev.bpms, e.beat, base) as u64;
                if e.etype == 1 {
                    match num_milli_u64_spec(e.value.neg, e.value.mant as int, e.value.exp as int) {
                        Some(m) => {
                            if 1 <= m {
                                Some(
                                    TimelinesV {
                                        bpms: prev.bpms.push(
                                            BPMChange { time: t, bpm: m as u64, beat: e.beat },
                                        ),
                                        sigs: prev.sigs,
                                        speeds: prev.speeds,
                                        events: prev.events,
                                    },
                                )
                            } else {
                                None
                            }
                        },
                        None => None,
                    }
                } else if e.etype == 2 {
                    let packed = num_trunc_u64_spec(
                        e.value.neg,
                        e.value.mant as int,
                        e.value.exp as int,
                    );
                    Some(
                        TimelinesV {
                            bpms: prev.bpms,
                            sigs: prev.sigs.push(
                                TimeSignature {
                                    time: t,
                                    numerator: (packed % 256) as u8,
                                    denominator: ((packed / 256) % 256) as u8,
                                    beat: e.beat,
                                },
                            ),
                            speeds: prev.speeds,
                            events: prev.events,
                        },
                    )
                } else if e.etype == 3 {
                    Some(
                        TimelinesV {
                            bpms: prev.bpms,
                            sigs: prev.sigs,
                            speeds: prev.speeds.push(
                                SpeedChange {
                                    time: t,
                                    speed: num_milli_i64_spec(
                                        e.value.neg,
                                        e.value.mant as int,
                                        e.value.exp as int,
                                    ) as i64,
                                    beat: e.beat,
                                },
                            ),
                            events: prev.events,
                        },
                    )
                } else {
                    Some(
                        TimelinesV {
                            bpms: prev.bpms,
                            sigs: prev.sigs,
                            speeds: prev.speeds,
                            events: prev.events.push(
                                EventV {
                                    time: t,
                                    tag: "malody_effect_"@ + dec_str(e.etype as int),
                                    data: JVal::Obj(
                                        seq![
                                            (
                                                "value"@,
                                                JVal::Num {
                                                    neg: e.value.neg,
                                                    mant: e.value.mant as int,
                                                    exp: e.value.exp as int,
                                                },
                                            ),
                                        ],
                                    ),
                                },
                            ),
                        },
                    )
                }
            },
        }
    }
}

/// What the note walk produces: the notes kept, the primary audio
/// reference and its offset if the first note was one, and the custom
/// sound references by note ordinal.
pub struct NotesOutV {
    pub notes: Seq<NoteV>,
    pub audio: Option<Seq<char>>,
    pub audio_offset: i32,
    pub files: Seq<(int, Seq<char>)>,
}

/// The note-type code mapping: unset or 0 is a tap, 1 a hold, 2 a
/// slide, 3 a chain; anything else falls back to a tap.
pub open spec fn ntype_spec(t: Option<u8>) -> NoteType {
    match t {
        Some(1u8) => NoteType::Hold,
        Some(2u8) => NoteType::Slide,
        Some(3u8) => NoteType::Chain,
        _ => NoteType::Tap,
    }
}

/// Walks the note list in file order against the full breakpoint list.
/// The first note overall, when tap-typed on column 0 with a sound
/// reference, is the audio-reference pseudo-note: it is not kept, and
/// its sound and offset name the chart's primary audio.  Any other
/// note's sound reference is recorded by ordinal.  An end beat counts
/// only for hold notes, and never before the start.
pub open spec fn notes_fold(raws: Seq<RawNoteV>, bpms: Seq<BPMChange>, base: int) -> NotesOutV
    decreases raws.len(),
{
    if raws.len() == 0 {
        NotesOutV { notes: Seq::empty(), audio: None, audio_offset: 0, files: Seq::empty() }
    } else {
        let prev = notes_fold(raws.drop_last(), bpms, base);
        let i = raws.len() - 1;
        let rn = raws.last();
        let nt = ntype_spec(rn.ntype);
        let start = beat_time_spec(bpms, rn.beat, base) as u64;
        if i == 0 && nt == NoteType::Tap && rn.column == 0 && rn.sound is Some {
            NotesOutV {
                notes: prev.notes,
                audio: Some(rn.sound->0),
                audio_offset: match rn.offset {
                    Some(o) => o,
                    None => 0,
                },
                files: prev.files,
            }
        } else {
            let files2 = if rn.sound is Some {
                prev.files.push((i, rn.sound->0))
            } else {
                prev.files
            };
            let end = if nt == NoteType::Hold {
                match rn.end {
                    Some(eb) => {
                        let te = beat_time_spec(bpms, eb, base) as u64;
                        Some(
                            if te >= start {
                                te
                            } else {
                                start
                            },
                        )
                    },
                    None => None,
                }
            } else {
                None
            };
            NotesOutV {
                notes: prev.notes.push(
                    NoteV {
                        id: i as u64,
                        start_time: start,
                        end_time: end,
                        column: rn.column,
                        ntype: nt,
                        beat: rn.beat,
                        sound: rn.sound,
                        volume: rn.vol,
                    },
                ),
                audio: prev.audio,
                audio_offset: prev.audio_offset,
                files: files2,
            }
        }
    }
}

/// The members of the reconstructed note-ordinal to sound-file object.
pub open spec fn files_members(files: Seq<(int, Seq<char>)>) -> Seq<(Seq<char>, JVal)> {
    Seq::new(
        files.len(),
        |k: int|
            if 0 <= k < files.len() {
                (dec_str(files[k].0), JVal::Str(files[k].1))
            } else {
                (Seq::empty(), JVal::Null)
            },
    )
}

/// The primary breakpoint list and the base tempo.
fn build_primary(tps: &Vec<RawTimePoint>) -> (r: (Vec<BPMChange>, u64))
    ensures
        r.0@ == primary_changes(tps@),
        r.1 as int == base_bpm_spec(tps@),
{
    let base: u64 = if tps.len() == 0 {
        120_000
    } else {
        tps[0].bpm
    };
    let mut out: Vec<BPMChange> = Vec::new();
    let mut i: usize = 0;
    proof {
        assert(tps@.take(0) =~= Seq::<RawTimePoint>::empty());
    }
    while i < tps.len()
        invariant
            i <= tps@.len(),
            base as int == base_bpm_spec(tps@),
            tps@.len() > 0 ==> base == tps@[0].bpm,
            out@ == primary_changes(tps@.take(i as int)),
        decreases tps@.len() - i,
    {
        let tp = tps[i];
        let t = beat_to_time_with_bpm_changes(&out, &tp.beat, base);
        proof {
            assert(tps@.take(i as int + 1).drop_last() =~= tps@.take(i as int));
            assert(tps@.take(i as int + 1).last() == tps@[i as int]);
            assert(tps@.take(i as int + 1)[0] == tps@[0]);
        }
        out.push(BPMChange { time: t, bpm: tp.bpm, beat: tp.beat });
        i = i + 1;
    }
    proof {
        assert(tps@.take(tps@.len() as int) =~= tps@);
    }
    (out, base)
}

proof fn lemma_effects_fold_prefix_none(effs: Seq<RawEffect>, init: Seq<BPMChange>, base: int, k: int)
    requires
        0 <= k <= effs.len(),
        effects_fold(effs.take(k), init, base) is None,
    ensures
        effects_fold(effs, init, base) is None,
    decreases effs.len() - k,
{
    if k < effs.len() {
        assert(effs.take(k + 1).drop_last() =~= effs.take(k));
        lemma_effects_fold_prefix_none(effs, init, base, k + 1);
    } else {
        assert(effs.take(k) =~= effs);
    }
}

/// The four timelines from the effect list, walked in file order over
/// the growing combined breakpoint list.
fn build_timelines(effs: &Vec<RawEffect>, primary: &Vec<BPMChange>, base: u64) -> (r: Result<
    (Vec<BPMChange>, Vec<TimeSignature>, Vec<SpeedChange>, Vec<ChartEvent>),
    CoreError,
>)
    ensures
        (match r {
            Ok(t) => effects_fold(effs@, primary@, base as int) == Some(
                TimelinesV { bpms: t.0@, sigs: t.1@, speeds: t.2@, events: events_views(t.3@) },
            ),
            Err(e) => effects_fold(effs@, primary@, base as int) is None && e matches
                CoreError::Parse(_),
        }),
{
    let mut bpms: Vec<BPMChange> = Vec::new();
    let mut j: usize = 0;
    while j < primary.len()
        invariant
            j <= primary@.len(),
            bpms@ == primary@.take(j as int),
        decreases primary@.len() - j,
    {
        bpms.push(primary[j]);
        proof {
            assert(primary@.take(j as int + 1) =~= primary@.take(j as int).push(
                primary@[j as int],
            ));
        }
        j = j + 1;
    }
    proof {
        assert(primary@.take(primary@.len() as int) =~= primary@);
    }
    let mut sigs: Vec<TimeSignature> = Vec::new();
    let mut speeds: Vec<SpeedChange> = Vec::new();
    let mut events: Vec<ChartEvent> = Vec::new();
    let mut i: usize = 0;
    proof {
        assert(effs@.take(0) =~= Seq::<RawEffect>::empty());
        assert(events_views(events@) =~= Seq::<EventV>::empty());
    }
    while i < effs.len()
        invariant
            i <= effs@.len(),
            effects_fold(effs@.take(i as int), primary@, base as int) == Some(
                TimelinesV {
                    bpms: bpms@,
                    sigs: sigs@,
                    speeds: speeds@,
                    events: events_views(events@),
                },
            ),
        decreases effs@.len() - i,
    {
        let e = effs[i];
        let t = beat_to_time_with_bpm_changes(&bpms, &e.beat, base);
        proof {
            assert(effs@.take(i as int + 1).drop_last() =~= effs@.take(i as int));
            assert(effs@.take(i as int + 1).last() == effs@[i as int]);
        }
        if e.etype == 1 {
            match num_milli_u64(&e.value) {
                Some(m) => {
                    if m >= 1 {
                        bpms.push(BPMChange { time: t, bpm: m, beat: e.beat });
                    } else {
                        proof {
                            assert(effects_fold(effs@.take(i as int + 1), primary@, base as int)
                                is None);
                            lemma_effects_fold_prefix_none(effs@, primary@, base as int, i as int + 1);
                        }
                        return Err(
                            CoreError::Parse(String::from_str("effect tempo is not positive")),
                        );
                    }
                },
                None => {
                    proof {
                        assert(effects_fold(effs@.take(i as int + 1), primary@, base as int) is None);
                        lemma_effects_fold_prefix_none(effs@, primary@, base as int, i as int + 1);
                    }
                    return Err(CoreError::Parse(String::from_str("effect tempo is negative")));
                },
            }
        } else if e.etype == 2 {
            let packed = num_trunc_u64(&e.value);
            let numerator = (packed % 256) as u8;
            let denominator = ((packed / 256) % 256) as u8;
            sigs.push(TimeSignature { time: t, numerator, denominator, beat: e.beat });
        } else if e.etype == 3 {
            let s = num_milli_i64(&e.value);
            speeds.push(SpeedChange { time: t, speed: s, beat: e.beat });
        } else {
            let mut tag = String::from_str("malody_effect_");
            push_u64_dec(&mut tag, e.etype as u64);
            let data = JsonValue::Obj(
                vec![(String::from_str("value"), JsonValue::Num(e.value))],
            );
            let ev = ChartEvent { time: t, event_type: tag, data };
            proof {
                assert(events_views(events@.push(ev)) =~= events_views(events@).push(
                    event_view(ev),
                ));
                assert(obj_view(ev.data->Obj_0@) =~= seq![
                    (
                        "value"@,
                        JVal::Num {
                            neg: e.value.neg,
                            mant: e.value.mant as int,
                            exp: e.value.exp as int,
                        },
                    ),
                ]);
            }
            events.push(ev);
        }
        proof {
            assert(events_views(events@) =~= events_views(events@));
        }
        i = i + 1;
    }
    proof {
        assert(effs@.take(effs@.len() as int) =~= effs@);
    }
    Ok((bpms, sigs, speeds, events))
}

/// The note list, the audio reference and the per-ordinal sound files,
/// from the raw notes walked in file order against the full breakpoint
/// list.
fn build_notes(raws: &Vec<RawNote>, bpms: &Vec<BPMChange>, base: u64) -> (r: (
    Vec<Note>,
    Option<String>,
    i32,
    Vec<(String, JsonValue)>,
))
    ensures
        ({
            let no = notes_fold(raw_notes_view(raws@), bpms@, base as int);
            &&& notes_views(r.0@) == no.notes
            &&& (match r.1 {
                Some(s) => no.audio == Some(s@),
                None => no.audio is None,
            })
            &&& r.2 == no.audio_offset
            &&& obj_view(r.3@) == files_members(no.files)
            &&& r.3@.len() == no.files.len()
        }),
{
    let mut notes: Vec<Note> = Vec::new();
    let mut audio: Option<String> = None;
    let mut audio_offset: i32 = 0;
    let mut files: Vec<(String, JsonValue)> = Vec::new();
    let mut i: usize = 0;
    proof {
        assert(raw_notes_view(raws@).take(0) =~= Seq::<RawNoteV>::empty());
        assert(notes_views(notes@) =~= Seq::<NoteV>::empty());
        assert(obj_view(files@) =~= Seq::<(Seq<char>, JVal)>::empty());
        assert(files_members(Seq::<(int, Seq<char>)>::empty()) =~= Seq::<(Seq<char>, JVal)>::empty());
    }
    while i < raws.len()
        invariant
            i <= raws@.len(),
            ({
                let no = notes_fold(raw_notes_view(raws@).take(i as int), bpms@, base as int);
                &&& notes_views(notes@) == no.notes
                &&& (match audio {
                    Some(ref s) => no.audio == Some(s@),
                    None => no.audio is None,
                })
                &&& audio_offset == no.audio_offset
                &&& obj_view(files@) == files_members(no.files)
                &&& files@.len() == no.files.len()
            }),
        decreases raws@.len() - i,
    {
        let rn = &raws[i];
        proof {
            assert(raw_notes_view(raws@).take(i as int + 1).drop_last() =~= raw_notes_view(
                raws@,
            ).take(i as int));
            assert(raw_notes_view(raws@).take(i as int + 1).last() == raw_note_view(
                raws@[i as int],
            ));
        }
        let nt: NoteType = match rn.ntype {
            Some(1u8) => NoteType::Hold,
            Some(2u8) => NoteType::Slide,
            Some(3u8) => NoteType::Chain,
            _ => NoteType::Tap,
        };
        let start = beat_to_time_with_bpm_changes(bpms, &rn.beat, base);
        let has_sound = match &rn.sound {
            Some(_) => true,
            None => false,
        };
        if i == 0 && has_sound && rn.column == 0 && (match nt {
            NoteType::Tap => true,
            _ => false,
        }) {
            audio = match &rn.sound {
                Some(s) => Some(s.clone()),
                None => None,
            };
            audio_offset = match rn.offset {
                Some(o) => o,
                None => 0,
            };
        } else {
            if has_sound {
                let key = u64_to_string(i as u64);
                let sv = match &rn.sound {
                    Some(s) => s.clone(),
                    None => String::new(),
                };
                let ghost old_files = files@;
                let ghost no_prev = notes_fold(
                    raw_notes_view(raws@).take(i as int),
                    bpms@,
                    base as int,
                );
                proof {
                    assert(key@ == dec_str(i as int));
                    assert(sv@ == raw_note_view(raws@[i as int]).sound->0);
                }
                files.push((key, JsonValue::Str(sv)));
                proof {
                    let ghost newf = no_prev.files.push(
                        (i as int, raw_note_view(raws@[i as int]).sound->0),
                    );
                    assert(obj_view(files@).len() == files_members(newf).len());
                    assert forall|k: int| 0 <= k < obj_view(files@).len() implies obj_view(
                        files@,
                    )[k] == files_members(newf)[k] by {
                        if k < old_files.len() {
                            assert(files@[k] == old_files[k]);
                            assert(obj_view(files@)[k] == obj_view(old_files)[k]);
                            assert(files_members(newf)[k] == files_members(no_prev.files)[k]);
                        } else {
                            assert(files@[k] == (key, JsonValue::Str(sv)));
                            assert(newf[k] == (i as int, raw_note_view(raws@[i as int]).sound->0));
                        }
                    }
                    assert(obj_view(files@) =~= files_members(newf));
                }
            }
            let end: Option<u64> = match nt {
                NoteType::Hold => match &rn.end {
                    Some(eb) => {
                        let te = beat_to_time_with_bpm_changes(bpms, eb, base);
                        Some(
                            if te >= start {
                                te
                            } else {
                                start
                            },
                        )
                    },
                    None => None,
                },
                _ => None,
            };
            let note = Note {
                id: i as u64,
                start_time: start,
                end_time: end,
                column: rn.column,
                note_type: nt,
                beat: rn.beat,
                sound: match &rn.sound {
                    Some(s) => Some(s.clone()),
                    None => None,
                },
                volume: rn.vol,
            };
            proof {
                assert(notes_views(notes@.push(note)) =~= notes_views(notes@).push(
                    note_view(note),
                ));
            }
            notes.push(note);
        }
        i = i + 1;
    }
    proof {
        assert(raw_notes_view(raws@).take(raws@.len() as int) =~= raw_notes_view(raws@));
    }
    (notes, audio, audio_offset, files)
}

/// The sort key of a timeline entry: its absolute time.
pub trait SortKey: Sized {
    spec fn tkey(&self) -> int;

    fn key(&self) -> (k: u64)
        ensures
            k as int == self.tkey(),
    ;
}

impl SortKey for BPMChange {
    open spec fn tkey(&self) -> int {
        self.time as int
    }

    fn key(&self) -> (k: u64)
        ensures
            k as int == self.tkey(),
    {
        self.time
    }
}

impl SortKey for TimeSignature {
    open spec fn tkey(&self) -> int {
        self.time as int
    }

    fn key(&self) -> (k: u64)
        ensures
            k as int == self.tkey(),
    {
        self.time
    }
}

impl SortKey for SpeedChange {
    open spec fn tkey(&self) -> int {
        self.time as int
    }

    fn key(&self) -> (k: u64)
        ensures
            k as int == self.tkey(),
    {
        self.time
    }
}

impl SortKey for Note {
    open spec fn tkey(&self) -> int {
        self.start_time as int
    }

    fn key(&self) -> (k: u64)
        ensures
            k as int == self.tkey(),
    {
        self.start_time
    }
}

impl SortKey for ChartEvent {
    open spec fn tkey(&self) -> int {
        self.time as int
    }

    fn key(&self) -> (k: u64)
        ensures
            k as int == self.tkey(),
    {
        self.time
    }
}

/// Ascending by sort key.
pub open spec fn sorted_by_tkey<T: SortKey>(s: Seq<T>) -> bool {
    forall|i: int, j: int| 0 <= i <= j < s.len() ==> #[trigger] s[i].tkey() <= #[trigger] s[j].tkey()
}

/// Insertion sort by absolute time: the result holds exactly the input's
/// entries, ascending by time.  Entries with equal times keep no
/// particular relative order.
pub fn sort_by_time_key<T: SortKey>(input: Vec<T>) -> (r: Vec<T>)
    ensures
        r@.to_multiset() == input@.to_multiset(),
        sorted_by_tkey(r@),
        r@.len() == input@.len(),
{
    broadcast use vstd::seq_lib::group_to_multiset_ensures;

    let ghost orig = input@;
    let mut rest = input;
    let mut out: Vec<T> = Vec::new();
    let mut i: usize = 0;
    let n_init = rest.len();
    proof {
        assert(orig.len() == n_init as int);
        assert(orig.skip(0) =~= orig);
        assert(out@ =~= orig.take(0));
    }
    while rest.len() > 0
        invariant
            i <= orig.len(),
            orig.len() <= usize::MAX,
            rest@ == orig.skip(i as int),
            out@.len() == i,
            out@.to_multiset() == orig.take(i as int).to_multiset(),
            sorted_by_tkey(out@),
        decreases rest@.len(),
    {
        proof {
            assert(orig.skip(i as int)[0] == orig[i as int]);
        }
        let x = rest.remove(0);
        proof {
            assert(rest@ =~= orig.skip(i as int + 1));
            assert(orig.take(i as int + 1) =~= orig.take(i as int).push(orig[i as int]));
        }
        let xk = x.key();
        let mut pos: usize = 0;
        while pos < out.len() && out[pos].key() <= xk
            invariant
                pos <= out@.len(),
                forall|k: int| 0 <= k < pos ==> #[trigger] out@[k].tkey() <= x.tkey(),
                xk as int == x.tkey(),
            decreases out@.len() - pos,
        {
            pos = pos + 1;
        }
        let ghost old_out = out@;
        out.insert(pos, x);
        proof {
            old_out.insert_ensures(pos as int, x);
            let ghost aa = old_out.subrange(0, pos as int);
            let ghost bb = old_out.subrange(pos as int, old_out.len() as int);
            assert(out@ =~= aa.push(x) + bb);
            vstd::seq_lib::lemma_multiset_commutative(aa.push(x), bb);
            vstd::seq_lib::lemma_multiset_commutative(aa, bb);
            aa.to_multiset_ensures();
            orig.take(i as int).to_multiset_ensures();
            assert(aa.push(x).to_multiset() =~= aa.to_multiset().insert(x));
            assert(old_out =~= aa + bb);
            assert(out@.to_multiset() =~= old_out.to_multiset().insert(x));
            assert(orig.take(i as int + 1).to_multiset() =~= orig.take(
                i as int,
            ).to_multiset().insert(orig[i as int]));
            assert(out@.to_multiset() =~= orig.take(i as int + 1).to_multiset());
            assert forall|a: int, b: int|
                0 <= a <= b < out@.len() implies #[trigger] out@[a].tkey()
                <= #[trigger] out@[b].tkey() by {
                if b < pos {
                } else if a > pos {
                    assert(out@[a] == old_out[a - 1]);
                    assert(out@[b] == old_out[b - 1]);
                } else if a < pos && b == pos {
                    assert(out@[a] == old_out[a]);
                    assert(out@[b] == x);
                } else if a == pos && b > pos {
                    assert(out@[a] == x);
                    assert(out@[b] == old_out[b - 1]);
                    assert(pos < old_out.len() + 1);
                    assert(old_out[pos as int].tkey() > x.tkey() || pos as int >= old_out.len());
                    assert(old_out[pos as int].tkey() <= old_out[b - 1].tkey() || pos as int
                        >= old_out.len());
                } else if a < pos && b > pos {
                    assert(out@[a] == old_out[a]);
                    assert(out@[b] == old_out[b - 1]);
                    assert(old_out[pos as int].tkey() > x.tkey() || pos as int >= old_out.len());
                }
            }
        }
        i = i + 1;
    }
    proof {
        assert(orig.take(orig.len() as int) =~= orig);
        assert(rest@.len() == 0);
    }
    out
}

/// Two lists with the same entries have the same entries under any
/// per-entry view.
pub proof fn lemma_map_multiset<A, B>(s1: Seq<A>, s2: Seq<A>, f: spec_fn(A) -> B)
    requires
        s1.to_multiset() == s2.to_multiset(),
    ensures
        s1.map_values(f).to_multiset() == s2.map_values(f).to_multiset(),
    decreases s1.len(),
{
    broadcast use vstd::seq_lib::group_to_multiset_ensures;

    s1.to_multiset_ensures();
    s2.to_multiset_ensures();
    if s1.len() == 0 {
        assert(s2.len() == 0);
        assert(s1.map_values(f) =~= s2.map_values(f));
    } else {
        let x = s1.last();
        let s1p = s1.drop_last();
        s1p.to_multiset_ensures();
        assert(s1 =~= s1p.push(x));
        assert(s1.to_multiset() =~= s1p.to_multiset().insert(x));
        assert(s2.to_multiset().count(x) > 0);
        assert(s2.contains(x));
        let j = choose|j: int| 0 <= j < s2.len() && s2[j] == x;
        let s2p = s2.remove(j);
        s2p.to_multiset_ensures();
        assert(s2p.to_multiset() =~= s2.to_multiset().remove(x));
        assert(s1p.to_multiset() =~= s1.to_multiset().remove(x));
        assert(s1p.to_multiset() == s2p.to_multiset());
        lemma_map_multiset(s1p, s2p, f);
        s1p.map_values(f).to_multiset_ensures();
        s2.map_values(f).to_multiset_ensures();
        assert(s1.map_values(f) =~= s1p.map_values(f).push(f(x)));
        assert(s1.map_values(f).to_multiset() =~= s1p.map_values(f).to_multiset().insert(f(x)));
        s2.remove_ensures(j);
        assert(s2p.map_values(f) =~= s2.map_values(f).remove(j));
        assert(s2.map_values(f)[j] == f(x));
        assert(s2.map_values(f).remove(j).to_multiset() =~= s2.map_values(f).to_multiset().remove(
            f(x),
        ));
        assert(s2.map_values(f).to_multiset().count(f(x)) > 0);
        assert(s1.map_values(f).to_multiset() =~= s2.map_values(f).to_multiset());
    }
}

/// Well-formedness of a note's mathematical form: an end time only on a
/// hold, never before the start.
pub open spec fn notev_wf(n: NoteV) -> bool {
    match n.end_time {
        Some(e) => n.ntype == NoteType::Hold && n.start_time <= e,
        None => true,
    }
}

proof fn lemma_notes_fold_wf(raws: Seq<RawNoteV>, bpms: Seq<BPMChange>, base: int)
    ensures
        forall|k: int|
            0 <= k < notes_fold(raws, bpms, base).notes.len() ==> notev_wf(
                #[trigger] notes_fold(raws, bpms, base).notes[k],
            ),
    decreases raws.len(),
{
    if raws.len() > 0 {
        lemma_notes_fold_wf(raws.drop_last(), bpms, base);
    }
}

proof fn lemma_tps_of_pos(items: Seq<JVal>)
    ensures
        (match tps_of(items) {
            Some(s) => forall|k: int| 0 <= k < s.len() ==> (#[trigger] s[k].bpm) >= 1,
            None => true,
        }),
    decreases items.len(),
{
    if items.len() > 0 {
        lemma_tps_of_pos(items.drop_last());
    }
}

/// How a converted chart relates to the typed document it came from:
/// the breakpoint lists are built in the ingestion order, every
/// timeline is then sorted by time, the header carries the document's
/// fields with the detected audio reference, and the extension data
/// holds the document's open object followed by the reconstructed
/// ordinal-to-sound table when any note carried one.
pub open spec fn chart_from_doc_rel(d: RawDocV, r: Result<Chart, CoreError>) -> bool {
    let base = base_bpm_spec(d.time);
    let tls = effects_fold(d.effects, primary_changes(d.time), base);
    &&& (r is Ok <==> tls is Some)
    &&& (match r {
        Err(e) => e matches CoreError::Parse(_),
        Ok(_) => true,
    })
    &&& (match r {
        Ok(c) => {
            let t = tls->0;
            let no = notes_fold(d.notes, t.bpms, base);
            &&& c.metadata.title@ == d.meta.title
            &&& (match (c.metadata.title_original, d.meta.title_org) {
                (Some(a), Some(b)) => a@ == b,
                (None, None) => true,
                _ => false,
            })
            &&& c.metadata.artist@ == d.meta.artist
            &&& (match (c.metadata.artist_original, d.meta.artist_org) {
                (Some(a), Some(b)) => a@ == b,
                (None, None) => true,
                _ => false,
            })
            &&& c.metadata.creator@ == d.meta.creator
            &&& c.metadata.version@ == d.meta.version
            &&& (match (c.metadata.background, d.meta.background) {
                (Some(a), Some(b)) => a@ == b,
                (None, None) => true,
                _ => false,
            })
            &&& (match (c.metadata.id, d.meta.id) {
                (Some(a), Some(b)) => a as int == b,
                (None, None) => true,
                _ => false,
            })
            &&& c.metadata.mode == d.meta.mode
            &&& c.metadata.columns == d.meta.columns
            &&& c.metadata.bpm as int == base
            &&& (match (c.metadata.audio, no.audio) {
                (Some(a), Some(b)) => a@ == b,
                (None, None) => true,
                _ => false,
            })
            &&& c.metadata.audio_offset == no.audio_offset
            &&& c.metadata.preview_time is None
            &&& c.bpm_changes@.to_multiset() == t.bpms.to_multiset()
            &&& c.time_signatures@.to_multiset() == t.sigs.to_multiset()
            &&& c.speed_changes@.to_multiset() == t.speeds.to_multiset()
            &&& notes_views(c.notes@).to_multiset() == no.notes.to_multiset()
            &&& events_views(c.effects@).to_multiset() == t.events.to_multiset()
            &&& obj_view(c.custom_data@) == d.extra + (if no.files.len() > 0 {
                seq![("audio_files"@, JVal::Obj(files_members(no.files)))]
            } else {
                Seq::<(Seq<char>, JVal)>::empty()
            })
            &&& chart_wf(c)
        },
        Err(_) => true,
    })
}

/// A chart from the typed schema document.
fn convert_doc(raw: RawDoc) -> (r: Result<Chart, CoreError>)
    requires
        forall|k: int| 0 <= k < raw.time@.len() ==> (#[trigger] raw.time@[k].bpm) >= 1,
    ensures
        chart_from_doc_rel(raw_doc_view(raw), r),
{
    let ghost dv = raw_doc_view(raw);
    let (primary, base) = build_primary(&raw.time);
    let tl = match build_timelines(&raw.effects, &primary, base) {
        Ok(t) => t,
        Err(e) => {
            return Err(e);
        },
    };
    let (bpms2, sigs, speeds, events) = tl;
    let (notes, audio, audio_offset, files) = build_notes(&raw.notes, &bpms2, base);
    proof {
        assert(base as int >= 1);
    }
    let metadata = ChartMetadata {
        title: raw.title,
        title_original: raw.title_org,
        artist: raw.artist,
        artist_original: raw.artist_org,
        creator: raw.creator,
        version: raw.version,
        background: raw.background,
        audio,
        audio_offset,
        preview_time: None,
        bpm: base,
        id: raw.id,
        mode: raw.mode,
        columns: raw.columns,
    };
    let mut custom_data = raw.extra;
    let ghost extra0 = custom_data@;
    let files_empty = files.len() == 0;
    if !files_empty {
        let key = String::from_str("audio_files");
        custom_data.push((key, JsonValue::Obj(files)));
        proof {
            assert(obj_view(custom_data@) =~= obj_view(extra0) + seq![
                (
                    "audio_files"@,
                    JVal::Obj(
                        files_members(notes_fold(dv.notes, bpms2@, base as int).files),
                    ),
                ),
            ]);
        }
    } else {
        proof {
            assert(obj_view(custom_data@) =~= obj_view(extra0)
                + Seq::<(Seq<char>, JVal)>::empty());
        }
    }
    let ghost bpms_pre = bpms2@;
    let ghost sigs_pre = sigs@;
    let ghost speeds_pre = speeds@;
    let ghost notes_pre = notes@;
    let ghost events_pre = events@;
    let bpm_changes = sort_by_time_key(bpms2);
    let time_signatures = sort_by_time_key(sigs);
    let speed_changes = sort_by_time_key(speeds);
    let notes_sorted = sort_by_time_key(notes);
    let effects_sorted = sort_by_time_key(events);
    proof {
        broadcast use vstd::seq_lib::group_to_multiset_ensures;

        let nview = |n: Note| note_view(n);
        let eview = |e: ChartEvent| event_view(e);
        lemma_map_multiset(notes_sorted@, notes_pre, nview);
        lemma_map_multiset(effects_sorted@, events_pre, eview);
        assert(notes_views(notes_sorted@) =~= notes_sorted@.map_values(nview));
        assert(notes_views(notes_pre) =~= notes_pre.map_values(nview));
        assert(events_views(effects_sorted@) =~= effects_sorted@.map_values(eview));
        assert(events_views(events_pre) =~= events_pre.map_values(eview));
        let no = notes_fold(dv.notes, bpms_pre, base as int);
        lemma_notes_fold_wf(dv.notes, bpms_pre, base as int);
        notes_views(notes_sorted@).to_multiset_ensures();
        no.notes.to_multiset_ensures();
        assert forall|i: int| 0 <= i < notes_sorted@.len() implies note_wf(
            #[trigger] notes_sorted@[i],
        ) by {
            assert(notes_views(notes_sorted@)[i] == note_view(notes_sorted@[i]));
            assert(notes_views(notes_sorted@).contains(note_view(notes_sorted@[i])));
            assert(no.notes.to_multiset().count(note_view(notes_sorted@[i])) > 0);
            assert(no.notes.contains(note_view(notes_sorted@[i])));
            let k = choose|k: int|
                0 <= k < no.notes.len() && no.notes[k] == note_view(notes_sorted@[i]);
            assert(notev_wf(no.notes[k]));
        }
    }
    let chart = Chart {
        metadata,
        bpm_changes,
        time_signatures,
        speed_changes,
        notes: notes_sorted,
        effects: effects_sorted,
        custom_data,
    };
    proof {
        assert forall|i: int, j: int|
            0 <= i <= j < chart.bpm_changes@.len() implies chart.bpm_changes@[i].time
            <= chart.bpm_changes@[j].time by {
            assert(chart.bpm_changes@[i].tkey() <= chart.bpm_changes@[j].tkey());
        }
        assert forall|i: int, j: int|
            0 <= i <= j < chart.time_signatures@.len() implies chart.time_signatures@[i].time
            <= chart.time_signatures@[j].time by {
            assert(chart.time_signatures@[i].tkey() <= chart.time_signatures@[j].tkey());
        }
        assert forall|i: int, j: int|
            0 <= i <= j < chart.speed_changes@.len() implies chart.speed_changes@[i].time
            <= chart.speed_changes@[j].time by {
            assert(chart.speed_changes@[i].tkey() <= chart.speed_changes@[j].tkey());
        }
        assert forall|i: int, j: int|
            0 <= i <= j < chart.effects@.len() implies chart.effects@[i].time
            <= chart.effects@[j].time by {
            assert(chart.effects@[i].tkey() <= chart.effects@[j].tkey());
        }
        assert forall|i: int, j: int|
            0 <= i <= j < chart.notes@.len() implies chart.notes@[i].start_time
            <= chart.notes@[j].start_time by {
            assert(chart.notes@[i].tkey() <= chart.notes@[j].tkey());
        }
        assert(chart_wf(chart));
        assert(chart_from_doc_rel(dv, Ok::<Chart, CoreError>(chart)));
    }
    Ok(chart)
}

/// How a parse result relates to the characters given: a malformed
/// document or one that misses the schema fails with a parse error; a
/// valid one converts as [`chart_from_doc_rel`] says.
pub open spec fn parse_result_rel(s: Seq<char>, r: Result<Chart, CoreError>) -> bool {
    match spec_parse_json(s) {
        None => (match r {
            Err(e) => e matches CoreError::Parse(_),
            Ok(_) => false,
        }),
        Some(doc) => (match extract_spec(doc) {
            None => (match r {
                Err(e) => e matches CoreError::Parse(_),
                Ok(_) => false,
            }),
            Some(d) => chart_from_doc_rel(d, r),
        }),
    }
}

/// The characters of a string, in order.
pub fn collect_chars(s: &str) -> (r: Vec<char>)
    ensures
        r@ == s@,
{
    let n = s.unicode_len();
    let mut r: Vec<char> = Vec::new();
    let mut i: usize = 0;
    proof {
        assert(s@.take(0) =~= Seq::<char>::empty());
    }
    while i < n
        invariant
            i <= n,
            n == s@.len(),
            r@ == s@.take(i as int),
        decreases n - i,
    {
        let c = s.get_char(i);
        r.push(c);
        proof {
            assert(s@.take(i as int + 1) =~= s@.take(i as int).push(s@[i as int]));
        }
        i = i + 1;
    }
    proof {
        assert(s@.take(s@.len() as int) =~= s@);
    }
    r
}

/// Relies on std's `str::from_utf8`: it succeeds exactly on a valid
/// UTF-8 encoding and returns the characters that the bytes encode.
#[verifier::external_body]
fn bytes_to_str(bytes: &[u8]) -> (r: Option<&str>)
    ensures
        r is Some <==> valid_utf8(bytes@),
        (match r {
            Some(s) => s@ == decode_utf8(bytes@),
            None => true,
        }),
{
    match core::str::from_utf8(bytes) {
        Ok(s) => Some(s),
        Err(_) => None,
    }
}

/// The chart format reader.
pub struct MalodyParser;

impl MalodyParser {
    /// A chart from its JSON text.
    pub fn parse_from_str(json_str: &str) -> (r: Result<Chart, CoreError>)
        ensures
            parse_result_rel(json_str@, r),
    {
        let cs = collect_chars(json_str);
        match parse_json_chars(&cs) {
            None => Err(CoreError::Parse(String::from_str("chart text is not a well-formed JSON document"))),
            Some(v) => match extract_doc(&v) {
                None => Err(CoreError::Parse(String::from_str("chart document does not meet the chart schema"))),
                Some(raw) => {
                    proof {
                        let doc = spec_parse_json(cs@)->0;
                        if doc is Obj {
                            match obj_get(doc->Obj_0, "time"@) {
                                Some(JVal::Arr(ts)) => {
                                    lemma_tps_of_pos(ts);
                                },
                                _ => {},
                            }
                        }
                    }
                    convert_doc(raw)
                },
            },
        }
    }

    /// A chart from raw bytes, which must hold valid UTF-8 text.
    pub fn parse_from_bytes(bytes: &[u8]) -> (r: Result<Chart, CoreError>)
        ensures
            !valid_utf8(bytes@) ==> (match r {
                Err(e) => e matches CoreError::Parse(_),
                Ok(_) => false,
            }),
            valid_utf8(bytes@) ==> parse_result_rel(decode_utf8(bytes@), r),
    {
        match bytes_to_str(bytes) {
            None => Err(CoreError::Parse(String::from_str("invalid text encoding"))),
            Some(s) => MalodyParser::parse_from_str(s),
        }
    }
}

} // verus!
