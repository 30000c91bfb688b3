use collector::reading::InputReading;
use collector::wire::parse_reading;

fn tok(s: &str) -> Vec<u8> {
    s.as_bytes().to_vec()
}

fn parse(s: &str) -> Result<InputReading, collector::wire::ParseError> {
    parse_reading(s.as_bytes())
}

#[test]
fn empty_object_gives_all_zero_fields() {
    let r = parse("{}").expect("empty object is a valid payload");
    assert_eq!(r.pm1p0, tok("0"));
    assert_eq!(r.pm2p5, tok("0"));
    assert_eq!(r.pm4p0, tok("0"));
    assert_eq!(r.pm10p0, tok("0"));
    assert_eq!(r.temp, tok("0"));
    assert_eq!(r.humid, tok("0"));
    assert_eq!(r.voc, tok("0"));
    assert_eq!(r.nox, tok("0"));
}

#[test]
fn missing_fields_default_to_zero() {
    let r = parse("{\"temp\":22.5}").expect("single-field payload parses");
    assert_eq!(r.temp, tok("22.5"));
    assert_eq!(r.pm1p0, tok("0"));
    assert_eq!(r.pm2p5, tok("0"));
    assert_eq!(r.pm4p0, tok("0"));
    assert_eq!(r.pm10p0, tok("0"));
    assert_eq!(r.humid, tok("0"));
    assert_eq!(r.voc, tok("0"));
    assert_eq!(r.nox, tok("0"));
}

#[test]
fn full_payload_parses_field_for_field() {
    let body = "{\"pm1p0\":1.2,\"pm2p5\":3.4,\"pm4p0\":5.6,\"pm10p0\":7.8,\"temp\":22.5,\"humid\":40.0,\"voc\":10.0,\"nox\":5.0}";
    let r = parse(body).expect("full payload parses");
    assert_eq!(r.pm1p0, tok("1.2"));
    assert_eq!(r.pm2p5, tok("3.4"));
    assert_eq!(r.pm4p0, tok("5.6"));
    assert_eq!(r.pm10p0, tok("7.8"));
    assert_eq!(r.temp, tok("22.5"));
    assert_eq!(r.humid, tok("40.0"));
    assert_eq!(r.voc, tok("10.0"));
    assert_eq!(r.nox, tok("5.0"));
}

#[test]
fn whitespace_and_signs_are_accepted() {
    let r = parse(" { \"nox\" :\t-1.5e-3 ,\n\"voc\": 0 } ").expect("spaced payload parses");
    assert_eq!(r.nox, tok("-1.5e-3"));
    assert_eq!(r.voc, tok("0"));
}

#[test]
fn exponent_forms_are_accepted() {
    let r = parse("{\"pm1p0\":2E+10,\"pm2p5\":3e5,\"pm4p0\":-0.25}").expect("exponents parse");
    assert_eq!(r.pm1p0, tok("2E+10"));
    assert_eq!(r.pm2p5, tok("3e5"));
    assert_eq!(r.pm4p0, tok("-0.25"));
}

#[test]
fn repeated_field_keeps_the_last_value() {
    let r = parse("{\"voc\":1,\"voc\":2}").expect("repeated field parses");
    assert_eq!(r.voc, tok("2"));
}

#[test]
fn token_values_round_trip_through_float_parsing() {
    let r = parse("{\"humid\":40.5}").expect("payload parses");
    let v: f32 = String::from_utf8(r.humid).unwrap().parse().unwrap();
    assert_eq!(v.to_bits(), 40.5f32.to_bits());
}

#[test]
fn non_object_bodies_are_rejected() {
    assert!(parse("").is_err());
    assert!(parse("[]").is_err());
    assert!(parse("42").is_err());
    assert!(parse("null").is_err());
    assert!(parse("\"x\"").is_err());
}

#[test]
fn malformed_objects_are_rejected() {
    assert!(parse("{").is_err());
    assert!(parse("{\"voc\"}").is_err());
    assert!(parse("{\"voc\":}").is_err());
    assert!(parse("{\"voc\":1,}").is_err());
    assert!(parse("{\"voc\":1").is_err());
    assert!(parse("{voc:1}").is_err());
}

#[test]
fn unknown_keys_are_rejected() {
    assert!(parse("{\"pressure\":1.0}").is_err());
    assert!(parse("{\"temp\":1.0,\"x\":2}").is_err());
}

#[test]
fn escaped_keys_are_rejected() {
    assert!(parse("{\"te\\u006dp\":1.0}").is_err());
}

#[test]
fn bad_number_tokens_are_rejected() {
    assert!(parse("{\"voc\":.5}").is_err());
    assert!(parse("{\"voc\":01}").is_err());
    assert!(parse("{\"voc\":1.}").is_err());
    assert!(parse("{\"voc\":1e}").is_err());
    assert!(parse("{\"voc\":+1}").is_err());
    assert!(parse("{\"voc\":NaN}").is_err());
    assert!(parse("{\"voc\":\"1\"}").is_err());
}

#[test]
fn trailing_input_is_rejected() {
    assert!(parse("{} x").is_err());
    assert!(parse("{\"voc\":1} {}").is_err());
}
