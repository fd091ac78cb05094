use dvb::{DvbTime, ParseError};

#[test]
fn create_and_reparse() {
    let now = DvbTime::now();
    let encoded = now.encode();
    let parsed = DvbTime::from_str(&encoded).unwrap();
    assert_eq!(parsed.epoch_seconds, now.epoch_seconds);
    assert_eq!(parsed.offset_seconds, now.offset_seconds);
    assert_eq!(parsed.offset_negative, now.offset_negative);
}

#[test]
fn negative_offset() {
    let dvb = "/Date(155581260000-0000)/";
    let parsed = DvbTime::from_str(dvb);
    assert!(parsed.is_ok());
}

#[test]
fn negative_zero_offset_reencodes_byte_identically() {
    // the wire sign of a zero offset is kept, so a `-0000` timestamp
    // re-encodes exactly as it arrived
    let first = DvbTime::from_str("/Date(155581260000-0000)/").unwrap();
    assert_eq!(first.epoch_seconds, 155581260);
    assert_eq!(first.offset_seconds, 0);
    assert!(first.offset_negative);
    let encoded = first.encode();
    assert_eq!(encoded, "/Date(155581260000-0000)/");
    let second = DvbTime::from_str(&encoded).unwrap();
    assert_eq!(second, first);

    let plus = DvbTime::from_str("/Date(155581260000+0000)/").unwrap();
    assert!(!plus.offset_negative);
    assert_eq!(plus.encode(), "/Date(155581260000+0000)/");
}

#[test]
fn decode_reads_milliseconds_when_the_run_ends_in_zeros() {
    let t = DvbTime::from_str("/Date(1609459200000+0100)/").unwrap();
    assert_eq!(t.epoch_seconds, 1609459200);
    assert_eq!(t.offset_seconds, 3600);
    assert_eq!(t.encode(), "/Date(1609459200000+0100)/");
}

#[test]
fn decode_reads_seconds_when_the_run_does_not_end_in_zeros() {
    let t = DvbTime::from_str("/Date(123+0000)/").unwrap();
    assert_eq!(t.epoch_seconds, 123);
    let t = DvbTime::from_str("/Date(123000+0000)/").unwrap();
    assert_eq!(t.epoch_seconds, 123);
}

#[test]
fn each_sample_offset_survives_an_encode_decode_cycle() {
    for m in [-90i32, -60, 0, 60, 90, 480] {
        let t = DvbTime { epoch_seconds: 1000, offset_seconds: m * 60, offset_negative: m < 0 };
        let back = DvbTime::from_str(&t.encode()).unwrap();
        assert_eq!(back.offset_seconds, m * 60);
        assert_eq!(back.epoch_seconds, 1000);
    }
}

#[test]
fn negative_ninety_minutes_formats_as_one_hour_thirty() {
    let t = DvbTime { epoch_seconds: 0, offset_seconds: -90 * 60, offset_negative: true };
    assert_eq!(t.encode(), "/Date(0000-0130)/");
}

#[test]
fn empty_digit_run_is_an_integer_error() {
    assert_eq!(DvbTime::from_str("/Date(+0100)/").unwrap_err(), ParseError::IntegerParse);
}

#[test]
fn overlong_digit_run_is_an_integer_error() {
    let r = DvbTime::from_str("/Date(99999999999999999999+0000)/");
    assert_eq!(r.unwrap_err(), ParseError::IntegerParse);
}

#[test]
fn text_outside_the_grammar_is_a_format_error() {
    assert_eq!(DvbTime::from_str("nothing").unwrap_err(), ParseError::Format);
    assert_eq!(DvbTime::from_str("/Date(123*0100)/").unwrap_err(), ParseError::Format);
    assert_eq!(DvbTime::from_str("/Date(123+010)/").unwrap_err(), ParseError::Format);
}

#[test]
fn out_of_range_offset_fields_are_accepted_verbatim() {
    // upstream leniency: two-digit fields are taken as given, not range
    // checked, so ninety-nine hours decodes
    let t = DvbTime::from_str("/Date(0+9900)/").unwrap();
    assert_eq!(t.offset_seconds, 99 * 3600);
}

#[test]
fn trailing_text_after_the_closing_slash_is_tolerated() {
    let t = DvbTime::from_str("/Date(123+0000)/ and more").unwrap();
    assert_eq!(t.epoch_seconds, 123);
}

#[test]
fn wait_counts_whole_minutes_toward_zero() {
    let t = DvbTime { epoch_seconds: 600, offset_seconds: 0, offset_negative: false };
    assert_eq!(t.wait_from(0), "10min");
    assert_eq!(t.wait_from(541), "0min");
    assert_eq!(t.wait_from(659), "0min");
    assert_eq!(t.wait_from(720), "-2min");
}

#[test]
fn wait_always_ends_with_the_minute_suffix() {
    let soon = DvbTime::in_n_minutes(10);
    assert!(soon.wait().ends_with("min"));
}

#[test]
fn in_n_minutes_lies_ahead_of_now() {
    let soon = DvbTime::in_n_minutes(10);
    let now = DvbTime::now();
    assert!(soon.epoch_seconds > now.epoch_seconds + 500);
    assert!(soon.epoch_seconds <= now.epoch_seconds + 600);
}

#[test]
fn to_time_reads_the_local_clock() {
    let t = DvbTime { epoch_seconds: 1609459200, offset_seconds: 3600, offset_negative: false };
    assert_eq!(t.to_time(), "01:00:00");
    let before_epoch = DvbTime { epoch_seconds: -1, offset_seconds: 0, offset_negative: false };
    assert_eq!(before_epoch.to_time(), "23:59:59");
}

#[test]
fn to_rfc3339_prints_the_calendar_form() {
    let t = DvbTime::from_str("/Date(1609459200000+0100)/").unwrap();
    assert_eq!(t.to_rfc3339(), "2021-01-01T01:00:00+01:00");
}
