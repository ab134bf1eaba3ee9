use aeroplot::datasource::{is_blank_line, parse_data_line, pacing_delay_ms, AccData, Data, MagData};
use aeroplot::fixed::{parse_fixed, parse_u64};

#[test]
fn parse_u64_reads_plain_numbers() {
    assert_eq!(parse_u64(b"0"), Some(0));
    assert_eq!(parse_u64(b"123"), Some(123));
    assert_eq!(parse_u64(b"999999999999999999"), Some(999999999999999999));
}

#[test]
fn parse_u64_rejects_malformed_input() {
    assert_eq!(parse_u64(b""), None);
    assert_eq!(parse_u64(b"12a"), None);
    assert_eq!(parse_u64(b"-1"), None);
    assert_eq!(parse_u64(b"1 2"), None);
    // nineteen digits are past the accepted width
    assert_eq!(parse_u64(b"1000000000000000000"), None);
}

#[test]
fn parse_fixed_reads_integers() {
    assert_eq!(parse_fixed(b"2"), Some(2000000));
    assert_eq!(parse_fixed(b"0"), Some(0));
    assert_eq!(parse_fixed(b"-7"), Some(-7000000));
}

#[test]
fn parse_fixed_reads_fractions() {
    assert_eq!(parse_fixed(b"1.5"), Some(1500000));
    assert_eq!(parse_fixed(b"-1.5"), Some(-1500000));
    assert_eq!(parse_fixed(b"0.000001"), Some(1));
    assert_eq!(parse_fixed(b"-0.25"), Some(-250000));
    assert_eq!(parse_fixed(b"12.000000"), Some(12000000));
}

#[test]
fn parse_fixed_covers_the_full_width() {
    assert_eq!(parse_fixed(b"999999999999.999999"), Some(999999999999999999));
    assert_eq!(
        parse_fixed(b"-999999999999.999999"),
        Some(-999999999999999999)
    );
}

#[test]
fn parse_fixed_rejects_malformed_input() {
    assert_eq!(parse_fixed(b""), None);
    assert_eq!(parse_fixed(b"-"), None);
    assert_eq!(parse_fixed(b".5"), None);
    assert_eq!(parse_fixed(b"1."), None);
    assert_eq!(parse_fixed(b"+1"), None);
    assert_eq!(parse_fixed(b"1.2.3"), None);
    assert_eq!(parse_fixed(b"1,2"), None);
    // seven fraction digits are past the accepted precision
    assert_eq!(parse_fixed(b"1.2345678"), None);
    // thirteen integer digits are past the accepted width
    assert_eq!(parse_fixed(b"1234567890123"), None);
}

#[test]
fn parse_data_line_reads_a_record() {
    let r = parse_data_line(b"100,1.5,2,3,0.25,-1,0");
    assert_eq!(
        r,
        Some(Data {
            timestamp: 100,
            acc: AccData { x: 1500000, y: 2000000, z: 3000000 },
            mag: MagData { x: 250000, y: -1000000, z: 0 },
        })
    );
}

#[test]
fn parse_data_line_trims_whitespace() {
    let r = parse_data_line(b"  17,1,2,3,4,5,6 \r\n");
    assert_eq!(
        r,
        Some(Data {
            timestamp: 17,
            acc: AccData { x: 1000000, y: 2000000, z: 3000000 },
            mag: MagData { x: 4000000, y: 5000000, z: 6000000 },
        })
    );
}

#[test]
fn parse_data_line_ignores_extra_fields() {
    let r = parse_data_line(b"1,1,1,1,1,1,1,garbage,9");
    assert!(r.is_some());
    assert_eq!(r.unwrap().timestamp, 1);
}

#[test]
fn parse_data_line_rejects_short_lines() {
    assert_eq!(parse_data_line(b""), None);
    assert_eq!(parse_data_line(b"1,2,3"), None);
    assert_eq!(parse_data_line(b"1,2,3,4,5,6"), None);
}

#[test]
fn parse_data_line_rejects_bad_fields() {
    // a malformed timestamp
    assert_eq!(parse_data_line(b"x,1,2,3,4,5,6"), None);
    // a malformed value
    assert_eq!(parse_data_line(b"1,1,2,three,4,5,6"), None);
    // whitespace inside a field
    assert_eq!(parse_data_line(b"1, 2,3,4,5,6,7"), None);
    // an empty field
    assert_eq!(parse_data_line(b"1,,3,4,5,6,7"), None);
}

#[test]
fn pacing_waits_by_timestamp_delta() {
    assert_eq!(pacing_delay_ms(0, 500), 0);
    assert_eq!(pacing_delay_ms(100, 600), 500);
    assert_eq!(pacing_delay_ms(100, 100), 0);
}

#[test]
fn default_data_is_all_zero() {
    let d = Data::default();
    assert_eq!(d.timestamp, 0);
    assert_eq!(d.acc, AccData { x: 0, y: 0, z: 0 });
    assert_eq!(d.mag, MagData { x: 0, y: 0, z: 0 });
}

#[test]
fn blank_lines_are_skipped_by_replay() {
    assert!(is_blank_line(b""));
    assert!(is_blank_line(b"   \r\n"));
    assert!(is_blank_line(b"\t"));
    assert!(!is_blank_line(b"1,2,3,4,5,6,7"));
    assert!(!is_blank_line(b" x "));
}
