use weightlog::numeric::{check_float_literal, parse_float};
use weightlog::record::{Entry, ParseError};
use weightlog::line::parse_timestamp;
use weightlog::scan::{scan_field, FieldSpan, ScanError};

#[test]
fn float_literal_grammar_accepts() {
    for text in [
        "72.3", "80", "+1.5", "-0.25", ".5", "5.", "1e5", "1E5", "1e+5", "1.25e-3", "inf",
        "Inf", "INF", "infinity", "Infinity", "nan", "NaN", "-inf", "+NaN",
    ] {
        assert!(check_float_literal(text.as_bytes()), "rejected {text}");
        assert_eq!(
            text.parse::<f32>().is_ok(),
            true,
            "grammar disagrees with the platform parser on {text}"
        );
    }
}

#[test]
fn float_literal_grammar_rejects() {
    for text in [
        "", ".", "+", "-", "abc", "1.2.3", "1e", "e5", "--1", "1f", "0x10", "1 2", " 1", "1 ",
        "in", "na", "infinit", "1e5.5",
    ] {
        assert!(!check_float_literal(text.as_bytes()), "accepted {text:?}");
        assert_eq!(
            text.parse::<f32>().is_ok(),
            false,
            "grammar disagrees with the platform parser on {text:?}"
        );
    }
}

#[test]
fn parse_float_reads_field() {
    let mut target: Vec<u8> = b"0".to_vec();
    let line = b"2021-02-10,80,5";
    let r = parse_float(line, &mut target, 11);
    assert_eq!(r, Ok(14));
    assert_eq!(target, b"80".to_vec());
}

#[test]
fn parse_float_reads_to_end_of_line() {
    let mut target: Vec<u8> = b"0".to_vec();
    let line = b"x,72.3";
    let r = parse_float(line, &mut target, 2);
    assert_eq!(r, Ok(6));
    assert_eq!(target, b"72.3".to_vec());
}

#[test]
fn parse_float_errors() {
    let mut target: Vec<u8> = b"0".to_vec();
    assert_eq!(
        parse_float(b"x,", &mut target, 2),
        Err(ParseError::EmptyField)
    );
    assert_eq!(target, b"0".to_vec());
    assert_eq!(
        parse_float(b"x,oops", &mut target, 2),
        Err(ParseError::ValueUnparsable(b"oops".to_vec()))
    );
    assert_eq!(target, b"0".to_vec());
}

#[test]
fn parse_timestamp_errors() {
    let mut e = Entry::new();
    assert_eq!(parse_timestamp(b"", &mut e), Err(ParseError::EmptyLine));
    assert_eq!(
        parse_timestamp(b"2021-01-05 08:00:00", &mut e),
        Err(ParseError::FieldNotFound)
    );
    assert_eq!(parse_timestamp(b",1", &mut e), Err(ParseError::EmptyField));
    assert_eq!(
        parse_timestamp(b"2021-13-05 08:00:00,1", &mut e),
        Err(ParseError::TimestampUnparsable(b"2021-13-05 08:00:00".to_vec()))
    );
    assert_eq!(e.weight, b"0".to_vec());
    assert_eq!(e.raw_timestamp, 0);
}

#[test]
fn parse_timestamp_fills_entry() {
    let mut e = Entry::new();
    let r = parse_timestamp(b"2021-01-05 08:00:00,72.3", &mut e);
    assert_eq!(r, Ok(20));
    assert_eq!(
        (e.timestamp.year, e.timestamp.month, e.timestamp.day),
        (2021, 1, 5)
    );
    assert_eq!(e.raw_timestamp, 1609833600000);
    assert_eq!(e.weight, b"0".to_vec());
}

#[test]
fn scan_field_plain() {
    assert_eq!(
        scan_field(b"abc,def", 0),
        Ok(FieldSpan { start: 0, end: 3, next: 4 })
    );
    assert_eq!(
        scan_field(b"abc,def,gh", 4),
        Ok(FieldSpan { start: 4, end: 7, next: 8 })
    );
}

#[test]
fn scan_field_quoted_shifts_offsets() {
    assert_eq!(
        scan_field(b"\"abc\",def", 0),
        Ok(FieldSpan { start: 1, end: 4, next: 6 })
    );
}

#[test]
fn scan_field_errors() {
    assert_eq!(scan_field(b"abc", 0), Err(ScanError::FieldNotFound));
    assert_eq!(scan_field(b",abc", 0), Err(ScanError::EmptyField));
    assert_eq!(scan_field(b"\",abc", 0), Err(ScanError::EmptyField));
    assert_eq!(scan_field(b"\"a,bc", 0), Err(ScanError::EmptyField));
    assert_eq!(scan_field(b"", 0), Err(ScanError::FieldNotFound));
}

#[test]
fn entry_new_is_epoch_default() {
    let e = Entry::new();
    assert_eq!(e.timestamp.year, 1970);
    assert_eq!(e.timestamp.month, 1);
    assert_eq!(e.timestamp.day, 1);
    assert_eq!(e.weight, b"0".to_vec());
    assert_eq!(e.raw_timestamp, 0);
}
