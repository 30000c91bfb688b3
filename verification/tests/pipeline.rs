use influxdb::{Query, Timestamp, WriteQuery};

use collector::reading::{convert, convert_at, InputReading, Reading};
use collector::service::{
    build_write, info_status, info_text, malformed_status, measurement_name, probe_query_text,
    write_status, WriteOp,
};
use collector::wire::parse_reading;

fn tok(s: &str) -> Vec<u8> {
    s.as_bytes().to_vec()
}

fn token_value(bytes: &[u8]) -> f32 {
    std::str::from_utf8(bytes)
        .ok()
        .and_then(|s| s.parse::<f32>().ok())
        .unwrap_or(0.0)
}

fn to_influx_query(op: &WriteOp) -> WriteQuery {
    let millis = if op.reading.time_ms <= 0 {
        0u128
    } else {
        op.reading.time_ms as u128
    };
    WriteQuery::new(Timestamp::Milliseconds(millis), op.measurement)
        .add_field("pm1p0", token_value(&op.reading.pm1p0))
        .add_field("pm2p5", token_value(&op.reading.pm2p5))
        .add_field("pm4p0", token_value(&op.reading.pm4p0))
        .add_field("pm10p0", token_value(&op.reading.pm10p0))
        .add_field("temp", token_value(&op.reading.temp))
        .add_field("humid", token_value(&op.reading.humid))
        .add_field("voc", token_value(&op.reading.voc))
        .add_field("nox", token_value(&op.reading.nox))
}

#[test]
fn convert_copies_fields_and_stamps_wall_clock_time() {
    let input = InputReading {
        pm1p0: tok("1.2"),
        pm2p5: tok("3.4"),
        pm4p0: tok("5.6"),
        pm10p0: tok("7.8"),
        temp: tok("22.5"),
        humid: tok("40.0"),
        voc: tok("10.0"),
        nox: tok("5.0"),
    };
    let before = chrono::Utc::now().timestamp_millis();
    let r = convert(input);
    let after = chrono::Utc::now().timestamp_millis();
    assert_eq!(r.pm1p0, tok("1.2"));
    assert_eq!(r.pm2p5, tok("3.4"));
    assert_eq!(r.pm4p0, tok("5.6"));
    assert_eq!(r.pm10p0, tok("7.8"));
    assert_eq!(r.temp, tok("22.5"));
    assert_eq!(r.humid, tok("40.0"));
    assert_eq!(r.voc, tok("10.0"));
    assert_eq!(r.nox, tok("5.0"));
    assert!(before <= r.time_ms && r.time_ms <= after);
}

#[test]
fn convert_at_uses_exactly_the_given_instant() {
    let r = convert_at(InputReading::default(), 1234567);
    assert_eq!(r.time_ms, 1234567);
    assert_eq!(r.pm1p0, tok("0"));
}

#[test]
fn default_reading_is_the_epoch_zero_probe() {
    let r = Reading::default();
    assert_eq!(r.time_ms, 0);
    assert_eq!(r.pm1p0, tok("0"));
    assert_eq!(r.pm2p5, tok("0"));
    assert_eq!(r.pm4p0, tok("0"));
    assert_eq!(r.pm10p0, tok("0"));
    assert_eq!(r.temp, tok("0"));
    assert_eq!(r.humid, tok("0"));
    assert_eq!(r.voc, tok("0"));
    assert_eq!(r.nox, tok("0"));
}

#[test]
fn probe_write_is_well_formed_for_the_store() {
    let op = build_write(Reading::default());
    assert_eq!(op.measurement, "sensor");
    assert!(op.fields_well_formed());
    let q = to_influx_query(&op);
    assert!(q.build().is_ok());
}

#[test]
fn full_payload_yields_one_created_write() {
    let body = "{\"pm1p0\":1.2,\"pm2p5\":3.4,\"pm4p0\":5.6,\"pm10p0\":7.8,\"temp\":22.5,\"humid\":40.0,\"voc\":10.0,\"nox\":5.0}";
    let input = parse_reading(body.as_bytes()).expect("well-formed payload parses");
    let op = build_write(convert(input));
    assert_eq!(op.measurement, "sensor");
    assert!(op.fields_well_formed());
    assert!(to_influx_query(&op).build().is_ok());
    assert_eq!(write_status(true), 201);
}

#[test]
fn store_failure_maps_to_internal_error() {
    assert_eq!(write_status(false), 500);
}

#[test]
fn malformed_body_maps_to_bad_request() {
    assert_eq!(malformed_status(), 400);
}

#[test]
fn info_endpoint_is_fixed_and_store_free() {
    assert_eq!(info_status(), 200);
    assert_eq!(
        info_text(),
        "This is a backend data-collector. Head to the InfluxDB login to see the data."
    );
}

#[test]
fn probe_query_is_the_unfiltered_select() {
    assert_eq!(probe_query_text(), "SELECT * FROM SENSOR");
    assert_eq!(measurement_name(), "sensor");
}

#[test]
fn sequential_submissions_keep_distinct_ops() {
    let mut ops: Vec<WriteOp> = Vec::new();
    for i in 0..5u32 {
        let body = format!("{{\"voc\":{}}}", i);
        let input = parse_reading(body.as_bytes()).expect("payload parses");
        ops.push(build_write(convert(input)));
    }
    for i in 0..5usize {
        assert_eq!(ops[i].reading.voc, tok(&i.to_string()));
        if i > 0 {
            // The wall clock may be adjusted between calls; allow a small
            // backward step rather than flake on it.
            assert!(ops[i - 1].reading.time_ms <= ops[i].reading.time_ms + 1000);
        }
    }
}
