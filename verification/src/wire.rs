//! The wire format of the write endpoint: a JSON object whose members are
//! drawn from the eight sensor field names, each with a JSON number value.
//! Fields may appear in any order; a repeated field keeps its last value; a
//! field that does not appear defaults to the zero token. Anything else —
//! string escapes in keys, unknown keys, non-number values, trailing input —
//! is rejected. These choices are deliberate: the payload is exactly the
//! eight expected numeric fields, so keys are matched literally (never
//! unescaped), and a repeated field, which names no ninth thing, keeps its
//! last value rather than failing.
//!
//! The grammar is stated by spec functions (`spec_parse_reading` and its
//! helpers); `parse_reading` is the executable parser, proved to return
//! exactly what the grammar says on every input.

use vstd::prelude::*;
use crate::reading::{
    field_of, with_field, zero_input, zero_token, InputReading, InputReadingView, SensorField,
    DIGIT_ZERO,
};

verus! {

pub const QUOTE: u8 = 34;
pub const COMMA: u8 = 44;
pub const MINUS: u8 = 45;
pub const PLUS: u8 = 43;
pub const DOT: u8 = 46;
pub const COLON: u8 = 58;
pub const BACKSLASH: u8 = 92;
pub const LBRACE: u8 = 123;
pub const RBRACE: u8 = 125;
pub const LOWER_E: u8 = 101;
pub const UPPER_E: u8 = 69;

/// JSON insignificant whitespace.
pub open spec fn is_ws(b: u8) -> bool {
    b == 32 || b == 9 || b == 10 || b == 13
}

/// ASCII decimal digit.
pub open spec fn is_digit(b: u8) -> bool {
    48 <= b && b <= 57
}

/// Index of the first byte at or after `i` that is not whitespace.
pub open spec fn spec_skip_ws(s: Seq<u8>, i: int) -> int
    decreases s.len() - i,
    when 0 <= i
{
    if i < s.len() && is_ws(s[i]) {
        spec_skip_ws(s, i + 1)
    } else {
        i
    }
}

pub proof fn lemma_skip_ws_bounds(s: Seq<u8>, i: int)
    requires
        0 <= i <= s.len(),
    ensures
        i <= spec_skip_ws(s, i) <= s.len(),
    decreases s.len() - i,
{
    if i < s.len() && is_ws(s[i]) {
        lemma_skip_ws_bounds(s, i + 1);
    }
}

fn skip_ws(s: &[u8], i: usize) -> (r: usize)
    requires
        i <= s@.len(),
    ensures
        r == spec_skip_ws(s@, i as int),
        i <= r <= s@.len(),
    decreases s@.len() - i,
{
    if i < s.len() {
        let b = s[i];
        if b == 32 || b == 9 || b == 10 || b == 13 {
            return skip_ws(s, i + 1);
        }
    }
    i
}

/// Index of the first byte at or after `i` that is not a digit.
pub open spec fn spec_scan_digits(s: Seq<u8>, i: int) -> int
    decreases s.len() - i,
    when 0 <= i
{
    if i < s.len() && is_digit(s[i]) {
        spec_scan_digits(s, i + 1)
    } else {
        i
    }
}

pub proof fn lemma_scan_digits_bounds(s: Seq<u8>, i: int)
    requires
        0 <= i <= s.len(),
    ensures
        i <= spec_scan_digits(s, i) <= s.len(),
    decreases s.len() - i,
{
    if i < s.len() && is_digit(s[i]) {
        lemma_scan_digits_bounds(s, i + 1);
    }
}

fn scan_digits(s: &[u8], i: usize) -> (r: usize)
    requires
        i <= s@.len(),
    ensures
        r == spec_scan_digits(s@, i as int),
        i <= r <= s@.len(),
    decreases s@.len() - i,
{
    if i < s.len() {
        let b = s[i];
        if 48 <= b && b <= 57 {
            return scan_digits(s, i + 1);
        }
    }
    i
}

/// End of an optional fraction part starting at `k`: either there is no dot
/// at `k`, or the dot must be followed by at least one digit.
pub open spec fn spec_scan_frac(s: Seq<u8>, k: int) -> Option<int> {
    if k < s.len() && s[k] == DOT {
        if k + 1 < s.len() && is_digit(s[k + 1]) {
            Some(spec_scan_digits(s, k + 1))
        } else {
            None
        }
    } else {
        Some(k)
    }
}

/// End of an optional exponent part starting at `k`.
pub open spec fn spec_scan_exp(s: Seq<u8>, k: int) -> Option<int> {
    if k < s.len() && (s[k] == LOWER_E || s[k] == UPPER_E) {
        let p = if k + 1 < s.len() && (s[k + 1] == PLUS || s[k + 1] == MINUS) {
            k + 2
        } else {
            k + 1
        };
        if p < s.len() && is_digit(s[p]) {
            Some(spec_scan_digits(s, p))
        } else {
            None
        }
    } else {
        Some(k)
    }
}

/// End of a JSON number starting at `i`: an optional minus sign, an integer
/// part (a lone `0`, or digits led by a nonzero one — maximal-munch scanning
/// makes a leading zero followed by more digits fall out as a parse error at
/// the caller), an optional fraction and an optional exponent.
pub open spec fn spec_scan_number(s: Seq<u8>, i: int) -> Option<int> {
    let j = if i < s.len() && s[i] == MINUS {
        i + 1
    } else {
        i
    };
    if j < s.len() && is_digit(s[j]) {
        let k = if s[j] == DIGIT_ZERO {
            j + 1
        } else {
            spec_scan_digits(s, j)
        };
        match spec_scan_frac(s, k) {
            Some(k2) => spec_scan_exp(s, k2),
            None => None,
        }
    } else {
        None
    }
}

pub proof fn lemma_scan_frac_bounds(s: Seq<u8>, k: int)
    requires
        0 <= k <= s.len(),
    ensures
        spec_scan_frac(s, k) matches Some(k2) ==> k <= k2 <= s.len(),
{
    if k < s.len() && s[k] == DOT {
        if k + 1 < s.len() && is_digit(s[k + 1]) {
            lemma_scan_digits_bounds(s, k + 1);
        }
    }
}

pub proof fn lemma_scan_exp_bounds(s: Seq<u8>, k: int)
    requires
        0 <= k <= s.len(),
    ensures
        spec_scan_exp(s, k) matches Some(e) ==> k <= e <= s.len(),
{
    if k < s.len() && (s[k] == LOWER_E || s[k] == UPPER_E) {
        let p = if k + 1 < s.len() && (s[k + 1] == PLUS || s[k + 1] == MINUS) {
            k + 2
        } else {
            k + 1
        };
        if p < s.len() && is_digit(s[p]) {
            lemma_scan_digits_bounds(s, p);
        }
    }
}

pub proof fn lemma_scan_number_bounds(s: Seq<u8>, i: int)
    requires
        0 <= i <= s.len(),
    ensures
        spec_scan_number(s, i) matches Some(e) ==> i < e <= s.len(),
{
    let j = if i < s.len() && s[i] == MINUS {
        i + 1
    } else {
        i
    };
    if j < s.len() && is_digit(s[j]) {
        lemma_scan_digits_bounds(s, j + 1);
        let k = if s[j] == DIGIT_ZERO {
            j + 1
        } else {
            spec_scan_digits(s, j)
        };
        assert(j + 1 <= k <= s.len()) by {
            if s[j] != DIGIT_ZERO {
                assert(spec_scan_digits(s, j) == spec_scan_digits(s, j + 1));
            }
        }
        lemma_scan_frac_bounds(s, k);
        match spec_scan_frac(s, k) {
            Some(k2) => {
                lemma_scan_exp_bounds(s, k2);
            }
            None => {}
        }
    }
}

fn scan_number(s: &[u8], i: usize) -> (r: Option<usize>)
    requires
        i <= s@.len(),
    ensures
        match r {
            Some(e) => spec_scan_number(s@, i as int) == Some(e as int) && i < e <= s@.len(),
            None => spec_scan_number(s@, i as int) is None,
        },
{
    let j = if i < s.len() && s[i] == MINUS {
        i + 1
    } else {
        i
    };
    if j < s.len() && 48 <= s[j] && s[j] <= 57 {
        let k = if s[j] == DIGIT_ZERO {
            j + 1
        } else {
            scan_digits(s, j)
        };
        proof {
            if s@[j as int] != DIGIT_ZERO {
                assert(spec_scan_digits(s@, j as int) == spec_scan_digits(s@, j + 1));
                lemma_scan_digits_bounds(s@, j + 1);
            }
        }
        let k2 = if k < s.len() && s[k] == DOT {
            if k + 1 < s.len() && 48 <= s[k + 1] && s[k + 1] <= 57 {
                scan_digits(s, k + 1)
            } else {
                return None;
            }
        } else {
            k
        };
        let e = if k2 < s.len() && (s[k2] == LOWER_E || s[k2] == UPPER_E) {
            let p = if k2 + 1 < s.len() && (s[k2 + 1] == PLUS || s[k2 + 1] == MINUS) {
                k2 + 2
            } else {
                k2 + 1
            };
            if p < s.len() && 48 <= s[p] && s[p] <= 57 {
                scan_digits(s, p)
            } else {
                return None;
            }
        } else {
            k2
        };
        Some(e)
    } else {
        None
    }
}

proof fn lemma_scan_digits_shift(s: Seq<u8>, v: int, e2: int, i: int)
    requires
        0 <= v <= i <= e2 <= s.len(),
        spec_scan_digits(s, i) <= e2,
    ensures
        spec_scan_digits(s.subrange(v, e2), i - v) == spec_scan_digits(s, i) - v,
    decreases e2 - i,
{
    let t = s.subrange(v, e2);
    if i < e2 && is_digit(s[i]) {
        assert(t[i - v] == s[i]);
        assert(spec_scan_digits(s, i) == spec_scan_digits(s, i + 1));
        lemma_scan_digits_shift(s, v, e2, i + 1);
        assert(spec_scan_digits(t, i - v) == spec_scan_digits(t, i - v + 1));
    } else if i == e2 {
        if i < s.len() && is_digit(s[i]) {
            lemma_scan_digits_bounds(s, i + 1);
            assert(false);
        }
        assert(spec_scan_digits(t, i - v) == i - v);
    } else {
        assert(t[i - v] == s[i]);
        assert(spec_scan_digits(t, i - v) == i - v);
    }
}

proof fn lemma_scan_frac_shift(s: Seq<u8>, v: int, e2: int, k: int, k2: int)
    requires
        0 <= v <= k <= e2 <= s.len(),
        spec_scan_frac(s, k) == Some(k2),
        k2 <= e2,
    ensures
        spec_scan_frac(s.subrange(v, e2), k - v) == Some(k2 - v),
{
    let t = s.subrange(v, e2);
    if k < s.len() && s[k] == DOT {
        lemma_scan_digits_bounds(s, k + 2);
        assert(spec_scan_digits(s, k + 1) == spec_scan_digits(s, k + 2));
        if k == e2 {
            assert(false);
        }
        assert(t[k - v] == s[k]);
        assert(t[k + 1 - v] == s[k + 1]);
        lemma_scan_digits_shift(s, v, e2, k + 1);
    } else {
        if k < e2 {
            assert(t[k - v] == s[k]);
        }
    }
}

proof fn lemma_scan_exp_shift(s: Seq<u8>, v: int, e2: int, k2: int, e: int)
    requires
        0 <= v <= k2 <= e2 <= s.len(),
        spec_scan_exp(s, k2) == Some(e),
        e <= e2,
    ensures
        spec_scan_exp(s.subrange(v, e2), k2 - v) == Some(e - v),
{
    let t = s.subrange(v, e2);
    if k2 < s.len() && (s[k2] == LOWER_E || s[k2] == UPPER_E) {
        let p = if k2 + 1 < s.len() && (s[k2 + 1] == PLUS || s[k2 + 1] == MINUS) {
            k2 + 2
        } else {
            k2 + 1
        };
        lemma_scan_digits_bounds(s, p + 1);
        assert(spec_scan_digits(s, p) == spec_scan_digits(s, p + 1));
        assert(p < e2);
        assert(t[k2 - v] == s[k2]);
        assert(t[k2 + 1 - v] == s[k2 + 1]);
        assert(t[p - v] == s[p]);
        lemma_scan_digits_shift(s, v, e2, p);
    } else {
        if k2 < e2 {
            assert(t[k2 - v] == s[k2]);
        }
    }
}

/// A number scanned out of a larger input is, on its own, one whole number
/// token: the grammar of a number does not depend on what surrounds it.
proof fn lemma_scan_number_token(s: Seq<u8>, v: int, e2: int)
    requires
        0 <= v <= s.len(),
        spec_scan_number(s, v) == Some(e2),
    ensures
        is_number_token(s.subrange(v, e2)),
{
    lemma_scan_number_bounds(s, v);
    let t = s.subrange(v, e2);
    let j = if v < s.len() && s[v] == MINUS {
        v + 1
    } else {
        v
    };
    let k = if s[j] == DIGIT_ZERO {
        j + 1
    } else {
        spec_scan_digits(s, j)
    };
    assert(j + 1 <= k <= s.len()) by {
        if s[j] != DIGIT_ZERO {
            assert(spec_scan_digits(s, j) == spec_scan_digits(s, j + 1));
            lemma_scan_digits_bounds(s, j + 1);
        }
    }
    lemma_scan_frac_bounds(s, k);
    match spec_scan_frac(s, k) {
        Some(k2) => {
            lemma_scan_exp_bounds(s, k2);
            assert(spec_scan_exp(s, k2) == Some(e2));
            if s[j] != DIGIT_ZERO {
                lemma_scan_digits_shift(s, v, e2, j);
            }
            lemma_scan_frac_shift(s, v, e2, k, k2);
            lemma_scan_exp_shift(s, v, e2, k2, e2);
            assert(t[0] == s[v]);
            assert(t[j - v] == s[j]);
            assert(spec_scan_number(t, 0) == Some(e2 - v));
        }
        None => {
            assert(false);
        }
    }
}

/// A standalone byte string is one whole JSON number.
pub open spec fn is_number_token(t: Seq<u8>) -> bool {
    spec_scan_number(t, 0) == Some(t.len() as int)
}

/// Executable check that a byte string is one whole JSON number.
pub fn check_number_token(t: &[u8]) -> (r: bool)
    ensures
        r == is_number_token(t@),
{
    match scan_number(t, 0) {
        Some(e) => e == t.len(),
        None => false,
    }
}

/// Index of the closing quote of a key that starts right at `i`; keys with
/// escapes are rejected, and so is a key that never closes.
pub open spec fn spec_scan_key(s: Seq<u8>, i: int) -> Option<int>
    decreases s.len() - i,
    when 0 <= i
{
    if i < s.len() {
        if s[i] == QUOTE {
            Some(i)
        } else if s[i] == BACKSLASH {
            None
        } else {
            spec_scan_key(s, i + 1)
        }
    } else {
        None
    }
}

pub proof fn lemma_scan_key_bounds(s: Seq<u8>, i: int)
    requires
        0 <= i <= s.len(),
    ensures
        spec_scan_key(s, i) matches Some(e) ==> i <= e < s.len(),
    decreases s.len() - i,
{
    if i < s.len() && s[i] != QUOTE && s[i] != BACKSLASH {
        lemma_scan_key_bounds(s, i + 1);
    }
}

fn scan_key(s: &[u8], i: usize) -> (r: Option<usize>)
    requires
        i <= s@.len(),
    ensures
        match r {
            Some(e) => spec_scan_key(s@, i as int) == Some(e as int) && i <= e < s@.len(),
            None => spec_scan_key(s@, i as int) is None,
        },
    decreases s@.len() - i,
{
    if i < s.len() {
        let b = s[i];
        if b == QUOTE {
            Some(i)
        } else if b == BACKSLASH {
            None
        } else {
            scan_key(s, i + 1)
        }
    } else {
        None
    }
}

/// The bytes of one field's JSON key.
pub open spec fn spec_key(f: SensorField) -> Seq<u8> {
    match f {
        SensorField::Pm1p0 => seq![112u8, 109u8, 49u8, 112u8, 48u8],
        SensorField::Pm2p5 => seq![112u8, 109u8, 50u8, 112u8, 53u8],
        SensorField::Pm4p0 => seq![112u8, 109u8, 52u8, 112u8, 48u8],
        SensorField::Pm10p0 => seq![112u8, 109u8, 49u8, 48u8, 112u8, 48u8],
        SensorField::Temp => seq![116u8, 101u8, 109u8, 112u8],
        SensorField::Humid => seq![104u8, 117u8, 109u8, 105u8, 100u8],
        SensorField::Voc => seq![118u8, 111u8, 99u8],
        SensorField::Nox => seq![110u8, 111u8, 120u8],
    }
}

/// Which field a key names, if any.
pub open spec fn spec_key_field(k: Seq<u8>) -> Option<SensorField> {
    if k == spec_key(SensorField::Pm1p0) {
        Some(SensorField::Pm1p0)
    } else if k == spec_key(SensorField::Pm2p5) {
        Some(SensorField::Pm2p5)
    } else if k == spec_key(SensorField::Pm4p0) {
        Some(SensorField::Pm4p0)
    } else if k == spec_key(SensorField::Pm10p0) {
        Some(SensorField::Pm10p0)
    } else if k == spec_key(SensorField::Temp) {
        Some(SensorField::Temp)
    } else if k == spec_key(SensorField::Humid) {
        Some(SensorField::Humid)
    } else if k == spec_key(SensorField::Voc) {
        Some(SensorField::Voc)
    } else if k == spec_key(SensorField::Nox) {
        Some(SensorField::Nox)
    } else {
        None
    }
}

/// The bytes of one field's JSON key, as a vector.
fn key_bytes(f: SensorField) -> (r: Vec<u8>)
    ensures
        r@ == spec_key(f),
{
    let mut v: Vec<u8> = Vec::new();
    match f {
        SensorField::Pm1p0 => {
            v.push(112);
            v.push(109);
            v.push(49);
            v.push(112);
            v.push(48);
        }
        SensorField::Pm2p5 => {
            v.push(112);
            v.push(109);
            v.push(50);
            v.push(112);
            v.push(53);
        }
        SensorField::Pm4p0 => {
            v.push(112);
            v.push(109);
            v.push(52);
            v.push(112);
            v.push(48);
        }
        SensorField::Pm10p0 => {
            v.push(112);
            v.push(109);
            v.push(49);
            v.push(48);
            v.push(112);
            v.push(48);
        }
        SensorField::Temp => {
            v.push(116);
            v.push(101);
            v.push(109);
            v.push(112);
        }
        SensorField::Humid => {
            v.push(104);
            v.push(117);
            v.push(109);
            v.push(105);
            v.push(100);
        }
        SensorField::Voc => {
            v.push(118);
            v.push(111);
            v.push(99);
        }
        SensorField::Nox => {
            v.push(110);
            v.push(111);
            v.push(120);
        }
    }
    proof {
        assert(v@ =~= spec_key(f));
    }
    v
}

/// Byte-for-byte equality of two byte strings.
fn eq_bytes(a: &[u8], b: &[u8]) -> (r: bool)
    ensures
        r == (a@ == b@),
{
    if a.len() != b.len() {
        return false;
    }
    let mut i: usize = 0;
    while i < a.len()
        invariant
            i <= a@.len(),
            a@.len() == b@.len(),
            forall|j: int| 0 <= j < i ==> a@[j] == b@[j],
        decreases a@.len() - i,
    {
        if a[i] != b[i] {
            return false;
        }
        i += 1;
    }
    proof {
        assert(a@ =~= b@);
    }
    true
}

/// Which field a key names, if any.
fn key_field_of(k: &[u8]) -> (r: Option<SensorField>)
    ensures
        r == spec_key_field(k@),
{
    let kb = key_bytes(SensorField::Pm1p0);
    if eq_bytes(k, kb.as_slice()) {
        return Some(SensorField::Pm1p0);
    }
    let kb = key_bytes(SensorField::Pm2p5);
    if eq_bytes(k, kb.as_slice()) {
        return Some(SensorField::Pm2p5);
    }
    let kb = key_bytes(SensorField::Pm4p0);
    if eq_bytes(k, kb.as_slice()) {
        return Some(SensorField::Pm4p0);
    }
    let kb = key_bytes(SensorField::Pm10p0);
    if eq_bytes(k, kb.as_slice()) {
        return Some(SensorField::Pm10p0);
    }
    let kb = key_bytes(SensorField::Temp);
    if eq_bytes(k, kb.as_slice()) {
        return Some(SensorField::Temp);
    }
    let kb = key_bytes(SensorField::Humid);
    if eq_bytes(k, kb.as_slice()) {
        return Some(SensorField::Humid);
    }
    let kb = key_bytes(SensorField::Voc);
    if eq_bytes(k, kb.as_slice()) {
        return Some(SensorField::Voc);
    }
    let kb = key_bytes(SensorField::Nox);
    if eq_bytes(k, kb.as_slice()) {
        return Some(SensorField::Nox);
    }
    None
}

/// The bytes of `s` from `a` (inclusive) to `b` (exclusive).
fn copy_range(s: &[u8], a: usize, b: usize) -> (r: Vec<u8>)
    requires
        a <= b <= s@.len(),
    ensures
        r@ == s@.subrange(a as int, b as int),
{
    let mut r: Vec<u8> = Vec::new();
    let mut i: usize = a;
    while i < b
        invariant
            a <= i <= b <= s@.len(),
            r@ == s@.subrange(a as int, i as int),
        decreases b - i,
    {
        r.push(s[i]);
        proof {
            assert(r@ =~= s@.subrange(a as int, (i + 1) as int));
        }
        i += 1;
    }
    r
}

/// The member list of the payload object, entered at the opening quote of a
/// key, folded over an accumulator that starts at the all-zero reading.
pub open spec fn spec_members(s: Seq<u8>, i: int, acc: InputReadingView) -> Option<InputReadingView>
    decreases s.len() - i,
    when 0 <= i
    via lemma_members_decreases
{
    if i < s.len() && s[i] == QUOTE {
        match spec_scan_key(s, i + 1) {
            Some(e) => match spec_key_field(s.subrange(i + 1, e)) {
                Some(f) => {
                    let c = spec_skip_ws(s, e + 1);
                    if c < s.len() && s[c] == COLON {
                        let v = spec_skip_ws(s, c + 1);
                        match spec_scan_number(s, v) {
                            Some(e2) => {
                                let acc2 = with_field(acc, f, s.subrange(v, e2));
                                let t = spec_skip_ws(s, e2);
                                if t < s.len() && s[t] == COMMA {
                                    spec_members(s, spec_skip_ws(s, t + 1), acc2)
                                } else if t < s.len() && s[t] == RBRACE {
                                    if spec_skip_ws(s, t + 1) == s.len() {
                                        Some(acc2)
                                    } else {
                                        None
                                    }
                                } else {
                                    None
                                }
                            }
                            None => None,
                        }
                    } else {
                        None
                    }
                }
                None => None,
            },
            None => None,
        }
    } else {
        None
    }
}

#[via_fn]
proof fn lemma_members_decreases(s: Seq<u8>, i: int, acc: InputReadingView) {
    if 0 <= i && i < s.len() && s[i] == QUOTE {
        lemma_scan_key_bounds(s, i + 1);
        match spec_scan_key(s, i + 1) {
            Some(e) => {
                lemma_skip_ws_bounds(s, e + 1);
                let c = spec_skip_ws(s, e + 1);
                if c < s.len() {
                    lemma_skip_ws_bounds(s, c + 1);
                    let v = spec_skip_ws(s, c + 1);
                    lemma_scan_number_bounds(s, v);
                    match spec_scan_number(s, v) {
                        Some(e2) => {
                            lemma_skip_ws_bounds(s, e2);
                            let t = spec_skip_ws(s, e2);
                            if t < s.len() {
                                lemma_skip_ws_bounds(s, t + 1);
                            }
                        }
                        None => {}
                    }
                }
            }
            None => {}
        }
    }
}

/// The whole payload grammar: optional whitespace, an object of sensor
/// members (possibly empty), optional trailing whitespace, end of input.
/// `None` is a malformed payload.
pub open spec fn spec_parse_reading(s: Seq<u8>) -> Option<InputReadingView> {
    let i = spec_skip_ws(s, 0);
    if i < s.len() && s[i] == LBRACE {
        let j = spec_skip_ws(s, i + 1);
        if j < s.len() && s[j] == RBRACE {
            if spec_skip_ws(s, j + 1) == s.len() {
                Some(zero_input())
            } else {
                None
            }
        } else {
            spec_members(s, j, zero_input())
        }
    } else {
        None
    }
}

/// A malformed payload. The write endpoint answers it with a client error
/// and touches the store not at all.
#[derive(Clone, Copy, PartialEq, Eq, Structural, Debug)]
pub enum ParseError {
    Malformed,
}

fn parse_members(s: &[u8], i: usize, acc: InputReading) -> (r: Option<InputReading>)
    requires
        i <= s@.len(),
    ensures
        match r {
            Some(out) => spec_members(s@, i as int, acc@) == Some(out@),
            None => spec_members(s@, i as int, acc@) is None,
        },
    decreases s@.len() - i,
{
    if !(i < s.len() && s[i] == QUOTE) {
        return None;
    }
    let e = match scan_key(s, i + 1) {
        Some(e) => e,
        None => {
            return None;
        }
    };
    let key = copy_range(s, i + 1, e);
    let f = match key_field_of(key.as_slice()) {
        Some(f) => f,
        None => {
            return None;
        }
    };
    let c = skip_ws(s, e + 1);
    if !(c < s.len() && s[c] == COLON) {
        return None;
    }
    let v = skip_ws(s, c + 1);
    let e2 = match scan_number(s, v) {
        Some(e2) => e2,
        None => {
            return None;
        }
    };
    let tok = copy_range(s, v, e2);
    let acc2 = acc.set_field(f, tok);
    let t = skip_ws(s, e2);
    if t < s.len() && s[t] == COMMA {
        let n = skip_ws(s, t + 1);
        parse_members(s, n, acc2)
    } else if t < s.len() && s[t] == RBRACE {
        if skip_ws(s, t + 1) == s.len() {
            Some(acc2)
        } else {
            None
        }
    } else {
        None
    }
}

/// Parse the body of a write request. The result is exactly what the grammar
/// `spec_parse_reading` gives: `Ok` on precisely the well-formed payloads,
/// with every present field at its (last) given token and every absent field
/// at the zero token; `Err` on precisely the malformed ones.
pub fn parse_reading(s: &[u8]) -> (r: Result<InputReading, ParseError>)
    ensures
        match r {
            Ok(ir) => spec_parse_reading(s@) == Some(ir@),
            Err(_) => spec_parse_reading(s@) is None,
        },
{
    let i = skip_ws(s, 0);
    if !(i < s.len() && s[i] == LBRACE) {
        return Err(ParseError::Malformed);
    }
    let j = skip_ws(s, i + 1);
    if j < s.len() && s[j] == RBRACE {
        if skip_ws(s, j + 1) == s.len() {
            Ok(InputReading::default())
        } else {
            Err(ParseError::Malformed)
        }
    } else {
        match parse_members(s, j, InputReading::default()) {
            Some(ir) => Ok(ir),
            None => Err(ParseError::Malformed),
        }
    }
}

/// The key of field `f` occurs nowhere in `s` as a contiguous run of bytes.
pub open spec fn key_absent(s: Seq<u8>, f: SensorField) -> bool {
    forall|a: int|
        0 <= a && a + spec_key(f).len() <= s.len() ==> #[trigger] s.subrange(
            a,
            a + spec_key(f).len(),
        ) != spec_key(f)
}

proof fn lemma_members_missing_field(s: Seq<u8>, i: int, acc: InputReadingView, f: SensorField)
    requires
        0 <= i,
        key_absent(s, f),
    ensures
        spec_members(s, i, acc) matches Some(out) ==> field_of(out, f) == field_of(acc, f),
    decreases s.len() - i,
{
    if i < s.len() && s[i] == QUOTE {
        lemma_scan_key_bounds(s, i + 1);
        match spec_scan_key(s, i + 1) {
            Some(e) => {
                let key = s.subrange(i + 1, e);
                match spec_key_field(key) {
                    Some(g) => {
                        if g == f {
                            assert(key == spec_key(f));
                            assert(e == i + 1 + spec_key(f).len());
                            assert(s.subrange(i + 1, i + 1 + spec_key(f).len()) == spec_key(f));
                            assert(false);
                        }
                        lemma_skip_ws_bounds(s, e + 1);
                        let c = spec_skip_ws(s, e + 1);
                        if c < s.len() && s[c] == COLON {
                            lemma_skip_ws_bounds(s, c + 1);
                            let v = spec_skip_ws(s, c + 1);
                            lemma_scan_number_bounds(s, v);
                            match spec_scan_number(s, v) {
                                Some(e2) => {
                                    let acc2 = with_field(acc, g, s.subrange(v, e2));
                                    assert(field_of(acc2, f) == field_of(acc, f));
                                    lemma_skip_ws_bounds(s, e2);
                                    let t = spec_skip_ws(s, e2);
                                    if t < s.len() && s[t] == COMMA {
                                        lemma_skip_ws_bounds(s, t + 1);
                                        lemma_members_missing_field(
                                            s,
                                            spec_skip_ws(s, t + 1),
                                            acc2,
                                            f,
                                        );
                                    }
                                }
                                None => {}
                            }
                        }
                    }
                    None => {}
                }
            }
            None => {}
        }
    }
}

/// The zero token is a whole JSON number.
pub proof fn lemma_zero_token_is_number()
    ensures
        is_number_token(zero_token()),
{
    let t = zero_token();
    assert(t.len() == 1);
    assert(t[0] == 48);
    assert(spec_scan_number(t, 0) == Some(1int));
}

proof fn lemma_members_fields_are_tokens(s: Seq<u8>, i: int, acc: InputReadingView)
    requires
        0 <= i,
        forall|f: SensorField| is_number_token(#[trigger] field_of(acc, f)),
    ensures
        spec_members(s, i, acc) matches Some(out) ==> forall|f: SensorField|
            is_number_token(#[trigger] field_of(out, f)),
    decreases s.len() - i,
{
    if i < s.len() && s[i] == QUOTE {
        lemma_scan_key_bounds(s, i + 1);
        match spec_scan_key(s, i + 1) {
            Some(e) => {
                match spec_key_field(s.subrange(i + 1, e)) {
                    Some(g) => {
                        lemma_skip_ws_bounds(s, e + 1);
                        let c = spec_skip_ws(s, e + 1);
                        if c < s.len() && s[c] == COLON {
                            lemma_skip_ws_bounds(s, c + 1);
                            let v = spec_skip_ws(s, c + 1);
                            lemma_scan_number_bounds(s, v);
                            match spec_scan_number(s, v) {
                                Some(e2) => {
                                    lemma_scan_number_token(s, v, e2);
                                    let acc2 = with_field(acc, g, s.subrange(v, e2));
                                    assert forall|f: SensorField|
                                        is_number_token(#[trigger] field_of(acc2, f)) by {
                                        if f == g {
                                            assert(field_of(acc2, f) == s.subrange(v, e2));
                                        } else {
                                            assert(field_of(acc2, f) == field_of(acc, f));
                                        }
                                    }
                                    lemma_skip_ws_bounds(s, e2);
                                    let t = spec_skip_ws(s, e2);
                                    if t < s.len() && s[t] == COMMA {
                                        lemma_skip_ws_bounds(s, t + 1);
                                        lemma_members_fields_are_tokens(
                                            s,
                                            spec_skip_ws(s, t + 1),
                                            acc2,
                                        );
                                    }
                                }
                                None => {}
                            }
                        }
                    }
                    None => {}
                }
            }
            None => {}
        }
    }
}

/// Law: every field of an accepted payload comes out of the parse holding a
/// whole JSON number token — what goes on to the store write is never a
/// fragment of the input.
pub proof fn lemma_parse_fields_are_tokens(s: Seq<u8>, v: InputReadingView)
    requires
        spec_parse_reading(s) == Some(v),
    ensures
        forall|f: SensorField| is_number_token(#[trigger] field_of(v, f)),
{
    lemma_zero_token_is_number();
    assert(forall|f: SensorField| is_number_token(#[trigger] field_of(zero_input(), f)));
    lemma_skip_ws_bounds(s, 0);
    let i = spec_skip_ws(s, 0);
    if i < s.len() && s[i] == LBRACE {
        lemma_skip_ws_bounds(s, i + 1);
        let j = spec_skip_ws(s, i + 1);
        if j < s.len() && s[j] == RBRACE {
            assert(v == zero_input());
            assert forall|f: SensorField| is_number_token(#[trigger] field_of(v, f)) by {
                assert(is_number_token(field_of(zero_input(), f)));
            }
        } else {
            lemma_members_fields_are_tokens(s, j, zero_input());
            assert(spec_members(s, j, zero_input()) == Some(v));
            assert forall|f: SensorField| is_number_token(#[trigger] field_of(v, f)) by {
                assert(spec_members(s, j, zero_input()) matches Some(out) ==> is_number_token(
                    field_of(out, f),
                ));
            }
        }
    }
}

/// Law: a field whose key occurs nowhere in an accepted payload comes out of
/// the parse holding exactly the zero token — absent fields default to zero.
pub proof fn lemma_missing_field_defaults_to_zero(s: Seq<u8>, f: SensorField)
    requires
        key_absent(s, f),
    ensures
        spec_parse_reading(s) matches Some(v) ==> field_of(v, f) == zero_token(),
{
    lemma_skip_ws_bounds(s, 0);
    let i = spec_skip_ws(s, 0);
    if i < s.len() && s[i] == LBRACE {
        lemma_skip_ws_bounds(s, i + 1);
        let j = spec_skip_ws(s, i + 1);
        if !(j < s.len() && s[j] == RBRACE) {
            lemma_members_missing_field(s, j, zero_input(), f);
        }
    }
}

} // verus!
