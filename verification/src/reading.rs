//! The reading model: the wire-level input record (no timestamp) and the
//! canonical timestamped record, with the one-way conversion between them.
//!
//! Each of the eight sensor fields is held as the bytes of its JSON number
//! token; a missing field defaults to the token `0`.

use vstd::prelude::*;

verus! {

/// ASCII digit zero, the default token for an absent field.
pub const DIGIT_ZERO: u8 = 48;

/// The token an absent field defaults to: the single digit `0`.
pub open spec fn zero_token() -> Seq<u8> {
    seq![DIGIT_ZERO]
}

/// The eight sensor fields of one reading, in wire order.
#[derive(Clone, Copy, PartialEq, Eq, Structural, Debug)]
pub enum SensorField {
    Pm1p0,
    Pm2p5,
    Pm4p0,
    Pm10p0,
    Temp,
    Humid,
    Voc,
    Nox,
}

/// Mathematical view of an input reading: one number token per field.
#[verifier::ext_equal]
pub struct InputReadingView {
    pub pm1p0: Seq<u8>,
    pub pm2p5: Seq<u8>,
    pub pm4p0: Seq<u8>,
    pub pm10p0: Seq<u8>,
    pub temp: Seq<u8>,
    pub humid: Seq<u8>,
    pub voc: Seq<u8>,
    pub nox: Seq<u8>,
}

/// The wire-format sensor payload: eight number tokens, no timestamp.
pub struct InputReading {
    pub pm1p0: Vec<u8>,
    pub pm2p5: Vec<u8>,
    pub pm4p0: Vec<u8>,
    pub pm10p0: Vec<u8>,
    pub temp: Vec<u8>,
    pub humid: Vec<u8>,
    pub voc: Vec<u8>,
    pub nox: Vec<u8>,
}

impl View for InputReading {
    type V = InputReadingView;

    open spec fn view(&self) -> InputReadingView {
        InputReadingView {
            pm1p0: self.pm1p0@,
            pm2p5: self.pm2p5@,
            pm4p0: self.pm4p0@,
            pm10p0: self.pm10p0@,
            temp: self.temp@,
            humid: self.humid@,
            voc: self.voc@,
            nox: self.nox@,
        }
    }
}

/// The token a view holds for one field.
pub open spec fn field_of(v: InputReadingView, f: SensorField) -> Seq<u8> {
    match f {
        SensorField::Pm1p0 => v.pm1p0,
        SensorField::Pm2p5 => v.pm2p5,
        SensorField::Pm4p0 => v.pm4p0,
        SensorField::Pm10p0 => v.pm10p0,
        SensorField::Temp => v.temp,
        SensorField::Humid => v.humid,
        SensorField::Voc => v.voc,
        SensorField::Nox => v.nox,
    }
}

/// The view with one field replaced by a new token.
pub open spec fn with_field(v: InputReadingView, f: SensorField, tok: Seq<u8>) -> InputReadingView {
    match f {
        SensorField::Pm1p0 => InputReadingView { pm1p0: tok, ..v },
        SensorField::Pm2p5 => InputReadingView { pm2p5: tok, ..v },
        SensorField::Pm4p0 => InputReadingView { pm4p0: tok, ..v },
        SensorField::Pm10p0 => InputReadingView { pm10p0: tok, ..v },
        SensorField::Temp => InputReadingView { temp: tok, ..v },
        SensorField::Humid => InputReadingView { humid: tok, ..v },
        SensorField::Voc => InputReadingView { voc: tok, ..v },
        SensorField::Nox => InputReadingView { nox: tok, ..v },
    }
}

/// The all-default input: every field at the zero token.
pub open spec fn zero_input() -> InputReadingView {
    InputReadingView {
        pm1p0: zero_token(),
        pm2p5: zero_token(),
        pm4p0: zero_token(),
        pm10p0: zero_token(),
        temp: zero_token(),
        humid: zero_token(),
        voc: zero_token(),
        nox: zero_token(),
    }
}

impl InputReading {
    /// Replace one field's token, leaving the others untouched.
    pub fn set_field(self, f: SensorField, tok: Vec<u8>) -> (r: InputReading)
        ensures
            r@ == with_field(self@, f, tok@),
    {
        let mut r = self;
        match f {
            SensorField::Pm1p0 => r.pm1p0 = tok,
            SensorField::Pm2p5 => r.pm2p5 = tok,
            SensorField::Pm4p0 => r.pm4p0 = tok,
            SensorField::Pm10p0 => r.pm10p0 = tok,
            SensorField::Temp => r.temp = tok,
            SensorField::Humid => r.humid = tok,
            SensorField::Voc => r.voc = tok,
            SensorField::Nox => r.nox = tok,
        }
        proof {
            assert(r@ =~= with_field(self@, f, tok@));
        }
        r
    }
}

impl Default for InputReading {
    /// The all-zero input reading.
    fn default() -> (r: InputReading)
        ensures
            r@ == zero_input(),
    {
        let r = InputReading {
            pm1p0: zero_token_vec(),
            pm2p5: zero_token_vec(),
            pm4p0: zero_token_vec(),
            pm10p0: zero_token_vec(),
            temp: zero_token_vec(),
            humid: zero_token_vec(),
            voc: zero_token_vec(),
            nox: zero_token_vec(),
        };
        proof {
            assert(r@ =~= zero_input());
        }
        r
    }
}

/// A one-byte vector holding the zero token.
pub fn zero_token_vec() -> (r: Vec<u8>)
    ensures
        r@ == zero_token(),
{
    let mut r: Vec<u8> = Vec::new();
    r.push(DIGIT_ZERO);
    proof {
        assert(r@ =~= zero_token());
    }
    r
}

/// Mathematical view of a canonical reading: the input fields plus the
/// server-assigned timestamp in milliseconds since the Unix epoch.
#[verifier::ext_equal]
pub struct ReadingView {
    pub time_ms: i64,
    pub input: InputReadingView,
}

/// The canonical record: the eight fields plus the server-assigned timestamp,
/// in milliseconds since the Unix epoch.
pub struct Reading {
    pub time_ms: i64,
    pub pm1p0: Vec<u8>,
    pub pm2p5: Vec<u8>,
    pub pm4p0: Vec<u8>,
    pub pm10p0: Vec<u8>,
    pub temp: Vec<u8>,
    pub humid: Vec<u8>,
    pub voc: Vec<u8>,
    pub nox: Vec<u8>,
}

impl View for Reading {
    type V = ReadingView;

    open spec fn view(&self) -> ReadingView {
        ReadingView {
            time_ms: self.time_ms,
            input: InputReadingView {
                pm1p0: self.pm1p0@,
                pm2p5: self.pm2p5@,
                pm4p0: self.pm4p0@,
                pm10p0: self.pm10p0@,
                temp: self.temp@,
                humid: self.humid@,
                voc: self.voc@,
                nox: self.nox@,
            },
        }
    }
}

/// Stamp an input reading with the given instant: every field is carried over
/// unchanged and `time_ms` is exactly the instant given.
pub fn convert_at(input: InputReading, time_ms: i64) -> (r: Reading)
    ensures
        r@.input == input@,
        r@.time_ms == time_ms,
{
    let r = Reading {
        time_ms,
        pm1p0: input.pm1p0,
        pm2p5: input.pm2p5,
        pm4p0: input.pm4p0,
        pm10p0: input.pm10p0,
        temp: input.temp,
        humid: input.humid,
        voc: input.voc,
        nox: input.nox,
    };
    proof {
        assert(r@.input =~= input@);
    }
    r
}

/// Stamp an input reading with the current wall-clock time. Conversion never
/// fails and never alters a field; only the timestamp is added.
pub fn convert(input: InputReading) -> (r: Reading)
    ensures
        r@.input == input@,
{
    let now = crate::clock::now_millis();
    convert_at(input, now)
}

impl Default for Reading {
    /// The default reading: every field at the zero token, the timestamp at
    /// the epoch sentinel. Used once at startup as a connectivity probe.
    fn default() -> (r: Reading)
        ensures
            r@.input == zero_input(),
            r@.time_ms == 0,
    {
        let input = InputReading::default();
        convert_at(input, 0)
    }
}

} // verus!
