//! A small JSON reader for the chart text format and the persisted index.
//!
//! The grammar is stated once, as the spec-mode parser `spec_parse_json`
//! over a sequence of characters; the executable parser is proved to
//! return exactly what the spec parser says, through the deep view
//! [`jv`] that maps parsed trees to their mathematical form [`JVal`].
//!
//! Numbers are kept as exact decimal triples `(neg, mant, exp)` standing
//! for `(-1)^neg * mant * 10^exp`; a mantissa beyond `u64::MAX` or an
//! exponent beyond four digits is rejected rather than rounded.  String
//! escapes cover the named ones and `\u`, surrogate pairs included; a
//! lone surrogate is rejected.

use vstd::prelude::*;
use vstd::utf8::is_scalar;

verus! {

/// An exact decimal number `(-1)^neg * mant * 10^exp`.
#[derive(Debug, Clone, Copy, PartialEq, Eq, Structural)]
pub struct JsonNum {
    pub neg: bool,
    pub mant: u64,
    pub exp: i32,
}

/// A parsed JSON document node.
#[derive(Debug)]
pub enum JsonValue {
    Null,
    Bool(bool),
    Num(JsonNum),
    Str(String),
    Arr(Vec<JsonValue>),
    Obj(Vec<(String, JsonValue)>),
}

/// The mathematical form of a JSON node.
pub enum JVal {
    Null,
    Bool(bool),
    Num { neg: bool, mant: int, exp: int },
    Str(Seq<char>),
    Arr(Seq<JVal>),
    Obj(Seq<(Seq<char>, JVal)>),
}

/// Deep view of a parsed node.
pub open spec fn jv(v: JsonValue) -> JVal
    decreases v,
{
    match v {
        JsonValue::Null => JVal::Null,
        JsonValue::Bool(b) => JVal::Bool(b),
        JsonValue::Num(n) => JVal::Num { neg: n.neg, mant: n.mant as int, exp: n.exp as int },
        JsonValue::Str(s) => JVal::Str(s@),
        JsonValue::Arr(items) => JVal::Arr(arr_view(items@)),
        JsonValue::Obj(members) => JVal::Obj(obj_view(members@)),
    }
}

/// Deep view of a sequence of parsed nodes.
pub open spec fn arr_view(items: Seq<JsonValue>) -> Seq<JVal>
    decreases items,
{
    Seq::new(
        items.len(),
        |i: int|
            if 0 <= i < items.len() {
                jv(items[i])
            } else {
                JVal::Null
            },
    )
}

/// Deep view of a sequence of parsed members.
pub open spec fn obj_view(members: Seq<(String, JsonValue)>) -> Seq<(Seq<char>, JVal)>
    decreases members,
{
    Seq::new(
        members.len(),
        |i: int|
            if 0 <= i < members.len() {
                (members[i].0@, jv(members[i].1))
            } else {
                (Seq::empty(), JVal::Null)
            },
    )
}

/// JSON whitespace.
pub open spec fn is_ws(c: char) -> bool {
    c == ' ' || c == '\n' || c == '\r' || c == '\t'
}

/// A decimal digit.
pub open spec fn is_digit(c: char) -> bool {
    0x30 <= (c as u32) && (c as u32) <= 0x39
}

/// First position at or after `pos` holding no whitespace.
pub open spec fn spec_skip_ws(s: Seq<char>, pos: int) -> int
    decreases s.len() - pos when 0 <= pos <= s.len()
{
    if pos < s.len() && is_ws(s[pos]) {
        spec_skip_ws(s, pos + 1)
    } else {
        pos
    }
}

/// What a named string escape character stands for; `None` for an
/// escape the reader does not accept (`\u` is handled separately).
pub open spec fn spec_escape(c: char) -> Option<char> {
    if c == '"' {
        Some('"')
    } else if c == '\\' {
        Some('\\')
    } else if c == '/' {
        Some('/')
    } else if c == 'n' {
        Some('\n')
    } else if c == 't' {
        Some('\t')
    } else if c == 'r' {
        Some('\r')
    } else if c == 'b' {
        Some('\u{8}')
    } else if c == 'f' {
        Some('\u{c}')
    } else {
        None
    }
}

/// Value of one hexadecimal digit character, upper or lower case.
pub open spec fn hex_digit_val(c: char) -> Option<int> {
    let u = c as u32;
    if 0x30 <= u && u <= 0x39 {
        Some(u - 0x30)
    } else if 0x61 <= u && u <= 0x66 {
        Some(u - 0x61 + 10)
    } else if 0x41 <= u && u <= 0x46 {
        Some(u - 0x41 + 10)
    } else {
        None
    }
}

/// Value of the four hexadecimal digits at `pos`, if they are there.
pub open spec fn hex4(s: Seq<char>, pos: int) -> Option<int> {
    if pos + 4 <= s.len() {
        match (hex_digit_val(s[pos]), hex_digit_val(s[pos + 1]), hex_digit_val(s[pos + 2]),
        hex_digit_val(s[pos + 3])) {
            (Some(a), Some(b), Some(c), Some(d)) => Some(a * 4096 + b * 256 + c * 16 + d),
            _ => None,
        }
    } else {
        None
    }
}

/// Body of a string, from after the opening quote to after the closing
/// quote.  Raw control characters and unaccepted escapes fail.  A `\u`
/// escape names a character by four hex digits; a high surrogate must be
/// followed by a `\u` low surrogate, the pair naming one supplementary
/// character; a lone surrogate fails.
pub open spec fn spec_str_body(s: Seq<char>, pos: int, acc: Seq<char>) -> Option<(Seq<char>, int)>
    decreases s.len() - pos when 0 <= pos <= s.len()
{
    if pos >= s.len() {
        None
    } else {
        let c = s[pos];
        if c == '"' {
            Some((acc, pos + 1))
        } else if c == '\\' {
            if pos + 1 >= s.len() {
                None
            } else if s[pos + 1] == 'u' {
                match hex4(s, pos + 2) {
                    None => None,
                    Some(v) => {
                        if 0xD800 <= v && v < 0xDC00 {
                            if pos + 8 <= s.len() && s[pos + 6] == '\\' && s[pos + 7] == 'u' {
                                match hex4(s, pos + 8) {
                                    None => None,
                                    Some(v2) => {
                                        if 0xDC00 <= v2 && v2 < 0xE000 {
                                            spec_str_body(
                                                s,
                                                pos + 12,
                                                acc.push(
                                                    ((0x10000 + (v - 0xD800) * 0x400 + (v2
                                                        - 0xDC00)) as u32) as char,
                                                ),
                                            )
                                        } else {
                                            None
                                        }
                                    },
                                }
                            } else {
                                None
                            }
                        } else if 0xDC00 <= v && v < 0xE000 {
                            None
                        } else {
                            spec_str_body(s, pos + 6, acc.push((v as u32) as char))
                        }
                    },
                }
            } else {
                match spec_escape(s[pos + 1]) {
                    Some(e) => spec_str_body(s, pos + 2, acc.push(e)),
                    None => None,
                }
            }
        } else if (c as u32) < 0x20 {
            None
        } else {
            spec_str_body(s, pos + 1, acc.push(c))
        }
    }
}

/// Relies on std's `char::from_u32`: for every Unicode scalar value it
/// returns the character with that code.
#[verifier::external_body]
fn char_from_scalar(v: u32) -> (c: char)
    requires
        is_scalar(v),
    ensures
        c as u32 == v,
{
    char::from_u32(v).unwrap()
}

/// Value of one hexadecimal digit character.
fn hex_val(c: char) -> (r: Option<u8>)
    ensures
        (match r {
            Some(v) => hex_digit_val(c) == Some(v as int) && v < 16,
            None => hex_digit_val(c) is None,
        }),
{
    let u = c as u32;
    if 0x30 <= u && u <= 0x39 {
        Some((u - 0x30) as u8)
    } else if 0x61 <= u && u <= 0x66 {
        Some((u - 0x61 + 10) as u8)
    } else if 0x41 <= u && u <= 0x46 {
        Some((u - 0x41 + 10) as u8)
    } else {
        None
    }
}

/// Value of the four hexadecimal digits at `pos`, if they are there.
fn hex4_at(cs: &Vec<char>, pos: usize) -> (r: Option<u32>)
    requires
        pos <= cs@.len(),
    ensures
        (match r {
            Some(v) => hex4(cs@, pos as int) == Some(v as int) && v <= 0xFFFF,
            None => hex4(cs@, pos as int) is None,
        }),
{
    if cs.len() - pos < 4 {
        return None;
    }
    let a = match hex_val(cs[pos]) {
        Some(x) => x,
        None => {
            return None;
        },
    };
    let b = match hex_val(cs[pos + 1]) {
        Some(x) => x,
        None => {
            return None;
        },
    };
    let c = match hex_val(cs[pos + 2]) {
        Some(x) => x,
        None => {
            return None;
        },
    };
    let d = match hex_val(cs[pos + 3]) {
        Some(x) => x,
        None => {
            return None;
        },
    };
    Some((a as u32) * 4096 + (b as u32) * 256 + (c as u32) * 16 + (d as u32))
}

/// A quoted string starting exactly at `pos`.
pub open spec fn spec_parse_string(s: Seq<char>, pos: int) -> Option<(Seq<char>, int)> {
    if 0 <= pos < s.len() && s[pos] == '"' {
        spec_str_body(s, pos + 1, Seq::empty())
    } else {
        None
    }
}

/// A run of digits folded onto `mant`; fails on a mantissa overflow.
/// Returns the mantissa, the position after the run and how many digits
/// it held.
pub open spec fn spec_digits(s: Seq<char>, pos: int, mant: int) -> Option<(int, int, int)>
    decreases s.len() - pos when 0 <= pos <= s.len()
{
    if pos < s.len() && is_digit(s[pos]) {
        let m = mant * 10 + (s[pos] as u32 as int - 0x30);
        if m > u64::MAX as int {
            None
        } else {
            match spec_digits(s, pos + 1, m) {
                Some((m2, p2, k)) => Some((m2, p2, k + 1)),
                None => None,
            }
        }
    } else {
        Some((mant, pos, 0))
    }
}

/// A number starting exactly at `pos`: optional minus, an integer part
/// without a superfluous leading zero, an optional fraction, an optional
/// exponent of at most four digits.
pub open spec fn spec_parse_number(s: Seq<char>, pos: int) -> Option<(JVal, int)> {
    let (neg, p0) = if pos < s.len() && s[pos] == '-' {
        (true, pos + 1)
    } else {
        (false, pos)
    };
    if !(0 <= p0 < s.len() && is_digit(s[p0])) {
        None
    } else if s[p0] == '0' && p0 + 1 < s.len() && is_digit(s[p0 + 1]) {
        None
    } else {
        match spec_digits(s, p0, 0) {
            None => None,
            Some((mant, p1, _)) => {
                let frac = if p1 < s.len() && s[p1] == '.' {
                    if p1 + 1 < s.len() && is_digit(s[p1 + 1]) {
                        spec_digits(s, p1 + 1, mant)
                    } else {
                        None
                    }
                } else {
                    Some((mant, p1, 0))
                };
                match frac {
                    None => None,
                    Some((mant2, p2, fdigits)) => spec_number_exp(s, p2, neg, mant2, fdigits),
                }
            },
        }
    }
}

/// The optional exponent part, applied to a mantissa carrying `fdigits`
/// fraction digits.
pub open spec fn spec_number_exp(
    s: Seq<char>,
    pos: int,
    neg: bool,
    mant: int,
    fdigits: int,
) -> Option<(JVal, int)> {
    if !(0 <= fdigits <= 9999) {
        None
    } else if pos < s.len() && (s[pos] == 'e' || s[pos] == 'E') {
        let (eneg, p0) = if pos + 1 < s.len() && (s[pos + 1] == '-' || s[pos + 1] == '+') {
            (s[pos + 1] == '-', pos + 2)
        } else {
            (false, pos + 1)
        };
        if !(0 <= p0 < s.len() && is_digit(s[p0])) {
            None
        } else {
            match spec_digits(s, p0, 0) {
                None => None,
                Some((e, p1, _)) => {
                    if e > 9999 {
                        None
                    } else {
                        let exp = (if eneg { -e } else { e }) - fdigits;
                        Some((JVal::Num { neg, mant, exp }, p1))
                    }
                },
            }
        }
    } else {
        Some((JVal::Num { neg, mant, exp: -fdigits }, pos))
    }
}

/// A value, after any leading whitespace: an object, array, string,
/// number, `true`, `false` or `null`.
pub open spec fn spec_parse_value(s: Seq<char>, pos: int) -> Option<(JVal, int)>
    decreases s.len() - pos, 0int when 0 <= pos <= s.len()
{
    if pos >= s.len() {
        None
    } else if is_ws(s[pos]) {
        spec_parse_value(s, pos + 1)
    } else {
        let c = s[pos];
        if c == '{' {
            spec_obj_items(s, pos + 1, Seq::empty(), true)
        } else if c == '[' {
            spec_arr_items(s, pos + 1, Seq::empty(), true)
        } else if c == '"' {
            match spec_parse_string(s, pos) {
                Some((cs, p)) => Some((JVal::Str(cs), p)),
                None => None,
            }
        } else if c == 't' {
            if pos + 4 <= s.len() && s[pos + 1] == 'r' && s[pos + 2] == 'u' && s[pos + 3] == 'e' {
                Some((JVal::Bool(true), pos + 4))
            } else {
                None
            }
        } else if c == 'f' {
            if pos + 5 <= s.len() && s[pos + 1] == 'a' && s[pos + 2] == 'l' && s[pos + 3] == 's'
                && s[pos + 4] == 'e' {
                Some((JVal::Bool(false), pos + 5))
            } else {
                None
            }
        } else if c == 'n' {
            if pos + 4 <= s.len() && s[pos + 1] == 'u' && s[pos + 2] == 'l' && s[pos + 3] == 'l' {
                Some((JVal::Null, pos + 4))
            } else {
                None
            }
        } else if c == '-' || is_digit(c) {
            spec_parse_number(s, pos)
        } else {
            None
        }
    }
}

/// The items of an array, from after `[` (or after a comma, with
/// `first` false), to after `]`.
pub open spec fn spec_arr_items(
    s: Seq<char>,
    pos: int,
    acc: Seq<JVal>,
    first: bool,
) -> Option<(JVal, int)>
    decreases s.len() - pos, 2int when 0 <= pos <= s.len()
{
    if pos >= s.len() {
        None
    } else if is_ws(s[pos]) {
        spec_arr_items(s, pos + 1, acc, first)
    } else if first && s[pos] == ']' {
        Some((JVal::Arr(acc), pos + 1))
    } else {
        match spec_parse_value(s, pos) {
            None => None,
            Some((v, p1)) => {
                if !(pos < p1 <= s.len()) {
                    None
                } else {
                    spec_arr_rest(s, p1, acc.push(v))
                }
            },
        }
    }
}

/// After an array item: a comma continues the items, a bracket closes.
pub open spec fn spec_arr_rest(s: Seq<char>, pos: int, acc: Seq<JVal>) -> Option<(JVal, int)>
    decreases s.len() - pos, 1int when 0 <= pos <= s.len()
{
    if pos >= s.len() {
        None
    } else if is_ws(s[pos]) {
        spec_arr_rest(s, pos + 1, acc)
    } else if s[pos] == ']' {
        Some((JVal::Arr(acc), pos + 1))
    } else if s[pos] == ',' {
        spec_arr_items(s, pos + 1, acc, false)
    } else {
        None
    }
}

/// The members of an object, from after `{` (or after a comma, with
/// `first` false), to after `}`.
pub open spec fn spec_obj_items(
    s: Seq<char>,
    pos: int,
    acc: Seq<(Seq<char>, JVal)>,
    first: bool,
) -> Option<(JVal, int)>
    decreases s.len() - pos, 2int when 0 <= pos <= s.len()
{
    if pos >= s.len() {
        None
    } else if is_ws(s[pos]) {
        spec_obj_items(s, pos + 1, acc, first)
    } else if first && s[pos] == '}' {
        Some((JVal::Obj(acc), pos + 1))
    } else if s[pos] == '"' {
        match spec_parse_string(s, pos) {
            None => None,
            Some((key, p1)) => {
                if !(pos < p1 <= s.len()) {
                    None
                } else {
                    let p2 = spec_skip_ws(s, p1);
                    if p2 < s.len() && s[p2] == ':' {
                        if !(pos < p2 + 1 <= s.len()) {
                            None
                        } else {
                            match spec_parse_value(s, p2 + 1) {
                                None => None,
                                Some((v, p3)) => {
                                    if !(p2 + 1 <= p3 <= s.len()) {
                                        None
                                    } else {
                                        spec_obj_rest(s, p3, acc.push((key, v)))
                                    }
                                },
                            }
                        }
                    } else {
                        None
                    }
                }
            },
        }
    } else {
        None
    }
}

/// After an object member: a comma continues the members, a brace closes.
pub open spec fn spec_obj_rest(
    s: Seq<char>,
    pos: int,
    acc: Seq<(Seq<char>, JVal)>,
) -> Option<(JVal, int)>
    decreases s.len() - pos, 1int when 0 <= pos <= s.len()
{
    if pos >= s.len() {
        None
    } else if is_ws(s[pos]) {
        spec_obj_rest(s, pos + 1, acc)
    } else if s[pos] == '}' {
        Some((JVal::Obj(acc), pos + 1))
    } else if s[pos] == ',' {
        spec_obj_items(s, pos + 1, acc, false)
    } else {
        None
    }
}

/// A whole document: one value with nothing but whitespace after it.
pub open spec fn spec_parse_json(s: Seq<char>) -> Option<JVal> {
    match spec_parse_value(s, 0) {
        None => None,
        Some((v, p)) => {
            if 0 <= p <= s.len() && spec_skip_ws(s, p) == s.len() {
                Some(v)
            } else {
                None
            }
        },
    }
}

/// Relies on std's `String::push`: appends exactly the one character to
/// the end of the string.
#[verifier::external_body]
pub(crate) fn push_char(s: &mut String, c: char)
    ensures
        final(s)@ == old(s)@.push(c),
{
    s.push(c);
}

/// Builds the string holding exactly the given characters.
pub fn chars_to_string(v: &Vec<char>) -> (s: String)
    ensures
        s@ == v@,
{
    let mut s = String::new();
    let mut i: usize = 0;
    while i < v.len()
        invariant
            i <= v@.len(),
            s@ =~= v@.take(i as int),
        decreases v@.len() - i,
    {
        push_char(&mut s, v[i]);
        proof {
            assert(v@.take(i as int + 1) =~= v@.take(i as int).push(v@[i as int]));
        }
        i = i + 1;
    }
    proof {
        assert(v@.take(v@.len() as int) =~= v@);
    }
    s
}

/// First position at or after `pos` holding no whitespace.
fn skip_ws(cs: &Vec<char>, pos: usize) -> (r: usize)
    requires
        pos <= cs@.len(),
    ensures
        r as int == spec_skip_ws(cs@, pos as int),
        pos <= r <= cs@.len(),
        r < cs@.len() ==> !is_ws(cs@[r as int]),
{
    let mut p = pos;
    loop
        invariant
            pos <= p <= cs@.len(),
            spec_skip_ws(cs@, pos as int) == spec_skip_ws(cs@, p as int),
        decreases cs@.len() - p,
    {
        if p == cs.len() {
            return p;
        }
        let c = cs[p];
        if c == ' ' || c == '\n' || c == '\r' || c == '\t' {
            p = p + 1;
        } else {
            return p;
        }
    }
}

proof fn lemma_value_skip_ws(s: Seq<char>, pos: int)
    requires
        0 <= pos <= s.len(),
    ensures
        spec_parse_value(s, pos) == spec_parse_value(s, spec_skip_ws(s, pos)),
    decreases s.len() - pos,
{
    if pos < s.len() && is_ws(s[pos]) {
        lemma_value_skip_ws(s, pos + 1);
    }
}

proof fn lemma_arr_items_skip_ws(s: Seq<char>, pos: int, acc: Seq<JVal>, first: bool)
    requires
        0 <= pos <= s.len(),
    ensures
        spec_arr_items(s, pos, acc, first) == spec_arr_items(s, spec_skip_ws(s, pos), acc, first),
    decreases s.len() - pos,
{
    if pos < s.len() && is_ws(s[pos]) {
        lemma_arr_items_skip_ws(s, pos + 1, acc, first);
    }
}

proof fn lemma_arr_rest_skip_ws(s: Seq<char>, pos: int, acc: Seq<JVal>)
    requires
        0 <= pos <= s.len(),
    ensures
        spec_arr_rest(s, pos, acc) == spec_arr_rest(s, spec_skip_ws(s, pos), acc),
    decreases s.len() - pos,
{
    if pos < s.len() && is_ws(s[pos]) {
        lemma_arr_rest_skip_ws(s, pos + 1, acc);
    }
}

proof fn lemma_obj_items_skip_ws(s: Seq<char>, pos: int, acc: Seq<(Seq<char>, JVal)>, first: bool)
    requires
        0 <= pos <= s.len(),
    ensures
        spec_obj_items(s, pos, acc, first) == spec_obj_items(s, spec_skip_ws(s, pos), acc, first),
    decreases s.len() - pos,
{
    if pos < s.len() && is_ws(s[pos]) {
        lemma_obj_items_skip_ws(s, pos + 1, acc, first);
    }
}

proof fn lemma_obj_rest_skip_ws(s: Seq<char>, pos: int, acc: Seq<(Seq<char>, JVal)>)
    requires
        0 <= pos <= s.len(),
    ensures
        spec_obj_rest(s, pos, acc) == spec_obj_rest(s, spec_skip_ws(s, pos), acc),
    decreases s.len() - pos,
{
    if pos < s.len() && is_ws(s[pos]) {
        lemma_obj_rest_skip_ws(s, pos + 1, acc);
    }
}

/// A quoted string starting exactly at `pos`.
fn parse_string_at(cs: &Vec<char>, pos: usize) -> (r: Option<(String, usize)>)
    requires
        pos <= cs@.len(),
    ensures
        r is None ==> spec_parse_string(cs@, pos as int) is None,
        r matches Some(sp) ==> spec_parse_string(cs@, pos as int) == Some((sp.0@, sp.1 as int))
            && pos < sp.1 <= cs@.len(),
{
    if pos == cs.len() {
        return None;
    }
    if cs[pos] != '"' {
        return None;
    }
    let mut acc: Vec<char> = Vec::new();
    let mut p = pos + 1;
    loop
        invariant
            pos < cs@.len(),
            cs@[pos as int] == '"',
            pos + 1 <= p <= cs@.len(),
            spec_str_body(cs@, pos as int + 1, Seq::empty()) == spec_str_body(
                cs@,
                p as int,
                acc@,
            ),
        decreases cs@.len() - p,
    {
        if p == cs.len() {
            return None;
        }
        let c = cs[p];
        if c == '"' {
            let s = chars_to_string(&acc);
            return Some((s, p + 1));
        } else if c == '\\' {
            if p + 1 == cs.len() {
                return None;
            }
            let e = cs[p + 1];
            if e == 'u' {
                let v = match hex4_at(cs, p + 2) {
                    Some(v) => v,
                    None => {
                        return None;
                    },
                };
                if 0xD800 <= v && v < 0xDC00 {
                    if !(cs.len() - p >= 8 && cs[p + 6] == '\\' && cs[p + 7] == 'u') {
                        return None;
                    }
                    let v2 = match hex4_at(cs, p + 8) {
                        Some(v2) => v2,
                        None => {
                            return None;
                        },
                    };
                    if !(0xDC00 <= v2 && v2 < 0xE000) {
                        return None;
                    }
                    let scalar: u32 = 0x10000 + (v - 0xD800) * 0x400 + (v2 - 0xDC00);
                    let ec = char_from_scalar(scalar);
                    proof {
                        vstd::utf8::char_u32_cast(ec, scalar);
                    }
                    acc.push(ec);
                    p = p + 12;
                } else if 0xDC00 <= v && v < 0xE000 {
                    return None;
                } else {
                    let ec = char_from_scalar(v);
                    proof {
                        vstd::utf8::char_u32_cast(ec, v);
                    }
                    acc.push(ec);
                    p = p + 6;
                }
            } else {
                let ec: char;
                if e == '"' {
                    ec = '"';
                } else if e == '\\' {
                    ec = '\\';
                } else if e == '/' {
                    ec = '/';
                } else if e == 'n' {
                    ec = '\n';
                } else if e == 't' {
                    ec = '\t';
                } else if e == 'r' {
                    ec = '\r';
                } else if e == 'b' {
                    ec = '\u{8}';
                } else if e == 'f' {
                    ec = '\u{c}';
                } else {
                    return None;
                }
                acc.push(ec);
                p = p + 2;
            }
        } else if (c as u32) < 0x20 {
            return None;
        } else {
            acc.push(c);
            p = p + 1;
        }
    }
}

proof fn lemma_digits_bounds(s: Seq<char>, pos: int, m: int)
    requires
        0 <= pos <= s.len(),
    ensures
        spec_digits(s, pos, m) matches Some(t) ==> pos <= t.1 <= s.len(),
    decreases s.len() - pos,
{
    if pos < s.len() && is_digit(s[pos]) {
        let m2 = m * 10 + (s[pos] as u32 as int - 0x30);
        if m2 <= u64::MAX as int {
            lemma_digits_bounds(s, pos + 1, m2);
        }
    }
}

/// A run of digits folded onto `mant`.
fn run_digits(cs: &Vec<char>, pos: usize, mant: u64) -> (r: Option<(u64, usize, usize)>)
    requires
        pos <= cs@.len(),
    ensures
        r is None ==> spec_digits(cs@, pos as int, mant as int) is None,
        r matches Some(t) ==> spec_digits(cs@, pos as int, mant as int) == Some(
            (t.0 as int, t.1 as int, t.2 as int),
        ) && pos <= t.1 <= cs@.len() && t.2 == t.1 - pos,
{
    let mut m = mant;
    let mut p = pos;
    loop
        invariant
            pos <= p <= cs@.len(),
            spec_digits(cs@, pos as int, mant as int) == (match spec_digits(
                cs@,
                p as int,
                m as int,
            ) {
                Some((m2, p2, k)) => Some((m2, p2, k + (p - pos))),
                None => None::<(int, int, int)>,
            }),
        decreases cs@.len() - p,
    {
        if p == cs.len() {
            return Some((m, p, p - pos));
        }
        let c = cs[p];
        let cu = c as u32;
        if 0x30 <= cu && cu <= 0x39 {
            let d = (cu - 0x30) as u64;
            let m2: u128 = (m as u128) * 10 + (d as u128);
            if m2 > u64::MAX as u128 {
                return None;
            }
            m = m2 as u64;
            p = p + 1;
        } else {
            return Some((m, p, p - pos));
        }
    }
}

/// A number starting exactly at `pos`.
fn parse_number_at(cs: &Vec<char>, pos: usize) -> (r: Option<(JsonNum, usize)>)
    requires
        pos <= cs@.len(),
    ensures
        r is None ==> spec_parse_number(cs@, pos as int) is None,
        r matches Some(np) ==> spec_parse_number(cs@, pos as int) == Some(
            (JVal::Num { neg: np.0.neg, mant: np.0.mant as int, exp: np.0.exp as int }, np.1 as int),
        ) && pos < np.1 <= cs@.len(),
{
    let mut p0 = pos;
    let mut neg = false;
    if pos < cs.len() && cs[pos] == '-' {
        neg = true;
        p0 = pos + 1;
    }
    if p0 == cs.len() {
        return None;
    }
    let ch0 = cs[p0];
    let c0 = ch0 as u32;
    if !(0x30 <= c0 && c0 <= 0x39) {
        return None;
    }
    if ch0 == '0' && cs.len() - p0 > 1 {
        let c1 = cs[p0 + 1] as u32;
        if 0x30 <= c1 && c1 <= 0x39 {
            return None;
        }
    }
    let (mant, p1, _k) = match run_digits(cs, p0, 0) {
        None => {
            return None;
        },
        Some(t) => t,
    };
    proof {
        lemma_digits_bounds(cs@, p0 as int + 1, (cs@[p0 as int] as u32 as int) - 0x30);
    }
    let mut mant2 = mant;
    let mut p2 = p1;
    let mut fdigits: usize = 0;
    if p1 < cs.len() && cs[p1] == '.' {
        if !(cs.len() - p1 > 1) {
            return None;
        }
        let cf = cs[p1 + 1] as u32;
        if !(0x30 <= cf && cf <= 0x39) {
            return None;
        }
        match run_digits(cs, p1 + 1, mant) {
            None => {
                return None;
            },
            Some(t) => {
                mant2 = t.0;
                p2 = t.1;
                fdigits = t.2;
            },
        }
    }
    if fdigits > 9999 {
        return None;
    }
    let fd = fdigits as i32;
    if p2 < cs.len() && (cs[p2] == 'e' || cs[p2] == 'E') {
        let mut eneg = false;
        let mut p3 = p2 + 1;
        if cs.len() - p2 > 1 && (cs[p2 + 1] == '-' || cs[p2 + 1] == '+') {
            eneg = cs[p2 + 1] == '-';
            p3 = p2 + 2;
        }
        if p3 == cs.len() {
            return None;
        }
        let ce = cs[p3] as u32;
        if !(0x30 <= ce && ce <= 0x39) {
            return None;
        }
        match run_digits(cs, p3, 0) {
            None => None,
            Some(t) => {
                if t.0 > 9999 {
                    return None;
                }
                let e = t.0 as i32;
                let exp: i32 = (if eneg {
                    -e
                } else {
                    e
                }) - fd;
                Some((JsonNum { neg, mant: mant2, exp }, t.1))
            },
        }
    } else {
        Some((JsonNum { neg, mant: mant2, exp: -fd }, p2))
    }
}

/// A value, after any leading whitespace.
pub fn parse_value(cs: &Vec<char>, pos: usize) -> (r: Option<(JsonValue, usize)>)
    requires
        pos <= cs@.len(),
    ensures
        r is None ==> spec_parse_value(cs@, pos as int) is None,
        r matches Some(vp) ==> spec_parse_value(cs@, pos as int) == Some(
            (jv(vp.0), vp.1 as int),
        ) && pos < vp.1 <= cs@.len(),
    decreases cs@.len() - pos, 0int,
{
    let p = skip_ws(cs, pos);
    proof {
        lemma_value_skip_ws(cs@, pos as int);
    }
    if p == cs.len() {
        return None;
    }
    let c = cs[p];
    if c == '{' {
        parse_obj_body(cs, p + 1)
    } else if c == '[' {
        parse_arr_body(cs, p + 1)
    } else if c == '"' {
        match parse_string_at(cs, p) {
            None => None,
            Some((s, p1)) => Some((JsonValue::Str(s), p1)),
        }
    } else if c == 't' {
        if cs.len() - p >= 4 && cs[p + 1] == 'r' && cs[p + 2] == 'u' && cs[p + 3] == 'e' {
            Some((JsonValue::Bool(true), p + 4))
        } else {
            None
        }
    } else if c == 'f' {
        if cs.len() - p >= 5 && cs[p + 1] == 'a' && cs[p + 2] == 'l' && cs[p + 3] == 's' && cs[p
            + 4] == 'e' {
            Some((JsonValue::Bool(false), p + 5))
        } else {
            None
        }
    } else if c == 'n' {
        if cs.len() - p >= 4 && cs[p + 1] == 'u' && cs[p + 2] == 'l' && cs[p + 3] == 'l' {
            Some((JsonValue::Null, p + 4))
        } else {
            None
        }
    } else {
        let cu = c as u32;
        if c == '-' || (0x30 <= cu && cu <= 0x39) {
            match parse_number_at(cs, p) {
                None => None,
                Some((n, p1)) => Some((JsonValue::Num(n), p1)),
            }
        } else {
            None
        }
    }
}

/// The items of an array, from after `[` to after `]`.
fn parse_arr_body(cs: &Vec<char>, pos: usize) -> (r: Option<(JsonValue, usize)>)
    requires
        pos <= cs@.len(),
    ensures
        r is None ==> spec_arr_items(cs@, pos as int, Seq::empty(), true) is None,
        r matches Some(vp) ==> spec_arr_items(cs@, pos as int, Seq::empty(), true) == Some(
            (jv(vp.0), vp.1 as int),
        ) && pos <= vp.1 <= cs@.len(),
    decreases cs@.len() - pos, 1int,
{
    let mut acc: Vec<JsonValue> = Vec::new();
    let mut first = true;
    let mut p = pos;
    proof {
        assert(arr_view(acc@) =~= Seq::<JVal>::empty());
    }
    loop
        invariant
            pos <= p <= cs@.len(),
            spec_arr_items(cs@, pos as int, Seq::empty(), true) == spec_arr_items(
                cs@,
                p as int,
                arr_view(acc@),
                first,
            ),
        decreases cs@.len() - p,
    {
        let pw = skip_ws(cs, p);
        proof {
            lemma_arr_items_skip_ws(cs@, p as int, arr_view(acc@), first);
        }
        if pw == cs.len() {
            return None;
        }
        if first && cs[pw] == ']' {
            return Some((JsonValue::Arr(acc), pw + 1));
        }
        match parse_value(cs, pw) {
            None => {
                return None;
            },
            Some((v, p1)) => {
                proof {
                    assert(arr_view(acc@.push(v)) =~= arr_view(acc@).push(jv(v)));
                }
                acc.push(v);
                let pr = skip_ws(cs, p1);
                proof {
                    lemma_arr_rest_skip_ws(cs@, p1 as int, arr_view(acc@));
                }
                if pr == cs.len() {
                    return None;
                }
                let c2 = cs[pr];
                if c2 == ']' {
                    return Some((JsonValue::Arr(acc), pr + 1));
                } else if c2 == ',' {
                    p = pr + 1;
                    first = false;
                } else {
                    return None;
                }
            },
        }
    }
}

/// The members of an object, from after `{` to after `}`.
fn parse_obj_body(cs: &Vec<char>, pos: usize) -> (r: Option<(JsonValue, usize)>)
    requires
        pos <= cs@.len(),
    ensures
        r is None ==> spec_obj_items(cs@, pos as int, Seq::empty(), true) is None,
        r matches Some(vp) ==> spec_obj_items(cs@, pos as int, Seq::empty(), true) == Some(
            (jv(vp.0), vp.1 as int),
        ) && pos <= vp.1 <= cs@.len(),
    decreases cs@.len() - pos, 1int,
{
    let mut acc: Vec<(String, JsonValue)> = Vec::new();
    let mut first = true;
    let mut p = pos;
    proof {
        assert(obj_view(acc@) =~= Seq::<(Seq<char>, JVal)>::empty());
    }
    loop
        invariant
            pos <= p <= cs@.len(),
            spec_obj_items(cs@, pos as int, Seq::empty(), true) == spec_obj_items(
                cs@,
                p as int,
                obj_view(acc@),
                first,
            ),
        decreases cs@.len() - p,
    {
        let pw = skip_ws(cs, p);
        proof {
            lemma_obj_items_skip_ws(cs@, p as int, obj_view(acc@), first);
        }
        if pw == cs.len() {
            return None;
        }
        if first && cs[pw] == '}' {
            return Some((JsonValue::Obj(acc), pw + 1));
        }
        if cs[pw] != '"' {
            return None;
        }
        match parse_string_at(cs, pw) {
            None => {
                return None;
            },
            Some((key, p1)) => {
                let p2 = skip_ws(cs, p1);
                if p2 == cs.len() {
                    return None;
                }
                if cs[p2] != ':' {
                    return None;
                }
                match parse_value(cs, p2 + 1) {
                    None => {
                        return None;
                    },
                    Some((v, p3)) => {
                        proof {
                            assert(obj_view(acc@.push((key, v))) =~= obj_view(acc@).push(
                                (key@, jv(v)),
                            ));
                        }
                        acc.push((key, v));
                        let pr = skip_ws(cs, p3);
                        proof {
                            lemma_obj_rest_skip_ws(cs@, p3 as int, obj_view(acc@));
                        }
                        if pr == cs.len() {
                            return None;
                        }
                        let c2 = cs[pr];
                        if c2 == '}' {
                            return Some((JsonValue::Obj(acc), pr + 1));
                        } else if c2 == ',' {
                            p = pr + 1;
                            first = false;
                        } else {
                            return None;
                        }
                    },
                }
            },
        }
    }
}

/// A whole document over characters.
pub fn parse_json_chars(cs: &Vec<char>) -> (r: Option<JsonValue>)
    ensures
        r is None ==> spec_parse_json(cs@) is None,
        r matches Some(v) ==> spec_parse_json(cs@) == Some(jv(v)),
{
    match parse_value(cs, 0) {
        None => None,
        Some((v, p)) => {
            let pw = skip_ws(cs, p);
            if pw == cs.len() {
                Some(v)
            } else {
                None
            }
        },
    }
}

} // verus!
