//! The service side of the pipeline: the fixed texts of the HTTP surface,
//! the translation of a reading into a store write operation, and the mapping
//! of store outcomes to HTTP status codes.

use vstd::prelude::*;
use crate::reading::{zero_input, InputReadingView, Reading, ReadingView};
use crate::wire::is_number_token;

verus! {

/// A single-point write operation: one timestamped reading destined for a
/// named measurement series.
pub struct WriteOp {
    pub measurement: &'static str,
    pub reading: Reading,
}

/// Mathematical view of a write operation.
#[verifier::ext_equal]
pub struct WriteOpView {
    pub measurement: Seq<char>,
    pub reading: ReadingView,
}

impl View for WriteOp {
    type V = WriteOpView;

    open spec fn view(&self) -> WriteOpView {
        WriteOpView { measurement: self.measurement@, reading: self.reading@ }
    }
}

/// Every field of an input holds a whole JSON number token.
pub open spec fn input_wf(v: InputReadingView) -> bool {
    &&& is_number_token(v.pm1p0)
    &&& is_number_token(v.pm2p5)
    &&& is_number_token(v.pm4p0)
    &&& is_number_token(v.pm10p0)
    &&& is_number_token(v.temp)
    &&& is_number_token(v.humid)
    &&& is_number_token(v.voc)
    &&& is_number_token(v.nox)
}

/// A write operation is well-formed when it targets the fixed series and
/// every field value is a whole number token.
pub open spec fn write_wf(v: WriteOpView) -> bool {
    v.measurement == "sensor"@ && input_wf(v.reading.input)
}

/// The fixed series name every reading is written to.
pub fn measurement_name() -> (r: &'static str)
    ensures
        r@ == "sensor"@,
{
    "sensor"
}

/// Build the single-point write operation for a reading: the reading itself,
/// unchanged, aimed at the fixed series.
pub fn build_write(reading: Reading) -> (op: WriteOp)
    ensures
        op@.measurement == "sensor"@,
        op@.reading == reading@,
{
    WriteOp { measurement: measurement_name(), reading }
}

impl WriteOp {
    /// Executable check of the field half of well-formedness: every field
    /// holds a whole number token. (The series name is pinned to `"sensor"`
    /// by `build_write`'s contract.)
    pub fn fields_well_formed(&self) -> (r: bool)
        ensures
            r == input_wf(self@.reading.input),
    {
        crate::wire::check_number_token(self.reading.pm1p0.as_slice())
            && crate::wire::check_number_token(self.reading.pm2p5.as_slice())
            && crate::wire::check_number_token(self.reading.pm4p0.as_slice())
            && crate::wire::check_number_token(self.reading.pm10p0.as_slice())
            && crate::wire::check_number_token(self.reading.temp.as_slice())
            && crate::wire::check_number_token(self.reading.humid.as_slice())
            && crate::wire::check_number_token(self.reading.voc.as_slice())
            && crate::wire::check_number_token(self.reading.nox.as_slice())
    }
}

/// Law: the startup probe — the default all-zero reading, aimed at the fixed
/// series — is a well-formed write operation, so the probe can never fail on
/// the shape of its own data.
pub proof fn lemma_probe_write_wf(op: WriteOpView)
    requires
        op.measurement == "sensor"@,
        op.reading.input == zero_input(),
    ensures
        write_wf(op),
{
    crate::wire::lemma_zero_token_is_number();
}

/// Law: a write operation built for any accepted payload is well-formed —
/// what reaches the store is always the fixed series name and eight whole
/// number tokens.
pub proof fn lemma_accepted_write_wf(s: Seq<u8>, v: InputReadingView, op: WriteOpView)
    requires
        crate::wire::spec_parse_reading(s) == Some(v),
        op.measurement == "sensor"@,
        op.reading.input == v,
    ensures
        write_wf(op),
{
    crate::wire::lemma_parse_fields_are_tokens(s, v);
    assert(is_number_token(crate::reading::field_of(v, crate::reading::SensorField::Pm1p0)));
    assert(is_number_token(crate::reading::field_of(v, crate::reading::SensorField::Pm2p5)));
    assert(is_number_token(crate::reading::field_of(v, crate::reading::SensorField::Pm4p0)));
    assert(is_number_token(crate::reading::field_of(v, crate::reading::SensorField::Pm10p0)));
    assert(is_number_token(crate::reading::field_of(v, crate::reading::SensorField::Temp)));
    assert(is_number_token(crate::reading::field_of(v, crate::reading::SensorField::Humid)));
    assert(is_number_token(crate::reading::field_of(v, crate::reading::SensorField::Voc)));
    assert(is_number_token(crate::reading::field_of(v, crate::reading::SensorField::Nox)));
}

/// Law: the write path keeps concurrent requests apart at the data level.
/// Each operation is fixed by its own request's fields and stamped instant
/// (the contracts of `convert_at` and `build_write` say so), and operations
/// stamped at different instants are distinct points. Whether concurrently
/// assigned stamps differ is the clock's affair, of which the library
/// promises nothing.
pub proof fn lemma_distinct_instants_give_distinct_points(a: WriteOpView, b: WriteOpView)
    requires
        a.reading.time_ms != b.reading.time_ms,
    ensures
        a != b,
{
}

/// The info text of the liveness endpoint. It depends on nothing, in
/// particular not on the store.
pub fn info_text() -> (r: &'static str)
    ensures
        r@ == "This is a backend data-collector. Head to the InfluxDB login to see the data."@,
{
    "This is a backend data-collector. Head to the InfluxDB login to see the data."
}

/// The unfiltered select used by the startup read probe.
pub fn probe_query_text() -> (r: &'static str)
    ensures
        r@ == "SELECT * FROM SENSOR"@,
{
    "SELECT * FROM SENSOR"
}

/// HTTP status for the outcome of the store write: 201 Created on success,
/// 500 Internal Server Error on any store failure. The store's own error is
/// for the log, never for the caller.
pub fn write_status(store_ok: bool) -> (r: u16)
    ensures
        store_ok ==> r == 201,
        !store_ok ==> r == 500,
{
    if store_ok {
        201
    } else {
        500
    }
}

/// HTTP status for a body that does not parse: 400 Bad Request. No store
/// interaction takes place for such a request.
pub fn malformed_status() -> (r: u16)
    ensures
        r == 400,
{
    400
}

/// HTTP status of the liveness endpoint: always 200.
pub fn info_status() -> (r: u16)
    ensures
        r == 200,
{
    200
}

} // verus!
