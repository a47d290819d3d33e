use chrono::{NaiveDate, NaiveDateTime};
use weightlog::datetime::{parse_date, parse_datetime, WeightDateTime};

fn chrono_millis(y: i32, m: u32, d: u32, h: u32, mi: u32, s: u32) -> i64 {
    NaiveDate::from_ymd_opt(y, m, d)
        .unwrap()
        .and_hms_opt(h, mi, s)
        .unwrap()
        .and_utc()
        .timestamp_millis()
}

#[test]
fn epoch_millis_matches_chrono() {
    let samples: &[(u16, u8, u8, u8, u8, u8)] = &[
        (1970, 1, 1, 0, 0, 0),
        (1970, 1, 2, 0, 0, 0),
        (1999, 12, 31, 23, 59, 59),
        (2000, 2, 29, 12, 30, 45),
        (2020, 2, 29, 0, 0, 0),
        (2021, 1, 5, 8, 0, 0),
        (2021, 2, 10, 0, 0, 0),
        (2100, 3, 1, 6, 7, 8),
        (1900, 3, 1, 1, 2, 3),
        (1600, 2, 29, 0, 0, 0),
        (9999, 12, 31, 23, 59, 59),
        (1, 1, 1, 0, 0, 0),
    ];
    for &(y, m, d, h, mi, s) in samples {
        let dt = WeightDateTime::new(y, m, d, h, mi, s);
        assert_eq!(
            dt.epoch_millis(),
            chrono_millis(y as i32, m as u32, d as u32, h as u32, mi as u32, s as u32),
            "mismatch for {y}-{m}-{d} {h}:{mi}:{s}"
        );
    }
}

#[test]
fn epoch_millis_exact_value() {
    let dt = WeightDateTime::new(2021, 1, 5, 8, 0, 0);
    assert_eq!(dt.epoch_millis(), 1609833600000);
    assert_eq!(dt.raw_epoch_millis(), 1609833600000u64);
}

#[test]
fn raw_epoch_millis_wraps_before_epoch() {
    let dt = WeightDateTime::new(1969, 12, 31, 23, 59, 59);
    assert_eq!(dt.epoch_millis(), -1000);
    assert_eq!(dt.raw_epoch_millis(), (-1000i64) as u64);
}

#[test]
fn parse_then_format_round_trips() {
    for text in [
        "2021-01-05 08:00:00",
        "1970-01-01 00:00:00",
        "2020-02-29 23:59:59",
        "0001-12-31 01:02:03",
        "9999-01-01 10:20:30",
    ] {
        let dt = parse_datetime(text.as_bytes()).expect("should parse");
        assert_eq!(dt.format(), text.as_bytes().to_vec());
    }
}

#[test]
fn parse_datetime_matches_chrono_acceptance() {
    let candidates = [
        "2021-01-05 08:00:00",
        "2021-02-29 08:00:00",
        "2021-00-01 08:00:00",
        "2021-01-00 08:00:00",
        "2021-01-05 24:00:00",
        "2021-01-05 08:60:00",
        "2020-02-29 00:00:00",
        "1900-02-29 00:00:00",
        "2000-02-29 00:00:00",
        "2021-04-31 00:00:00",
        "2021-12-31 23:59:59",
    ];
    for text in candidates {
        let ours = parse_datetime(text.as_bytes());
        let theirs = NaiveDateTime::parse_from_str(text, "%Y-%m-%d %H:%M:%S");
        assert_eq!(
            ours.is_some(),
            theirs.is_ok(),
            "acceptance mismatch for {text}"
        );
    }
}

#[test]
fn parse_datetime_rejects_wrong_shapes() {
    for text in [
        "",
        "2021-01-05",
        "2021-01-05  08:00:00",
        "2021/01/05 08:00:00",
        "2021-01-05 08:00:0",
        "2021-01-05 08:00:000",
        "21-01-05 08:00:00",
        "2021-1-5 08:00:00",
        "aaaa-01-05 08:00:00",
    ] {
        assert!(parse_datetime(text.as_bytes()).is_none(), "accepted {text:?}");
    }
}

#[test]
fn parse_date_normalizes_to_midnight() {
    let dt = parse_date(b"2021-02-10").expect("should parse");
    assert_eq!((dt.year, dt.month, dt.day), (2021, 2, 10));
    assert_eq!((dt.hour, dt.minute, dt.second), (0, 0, 0));
    assert!(parse_date(b"2021-02-29").is_none());
    assert!(parse_date(b"2021-02-10 ").is_none());
    assert!(parse_date(b"2020-02-29").is_some());
}

#[test]
fn cmp_orders_by_instant() {
    let a = WeightDateTime::new(2021, 1, 5, 8, 0, 0);
    let b = WeightDateTime::new(2021, 1, 5, 8, 0, 1);
    let c = WeightDateTime::new(2020, 12, 31, 23, 59, 59);
    assert_eq!(a.cmp(&b), std::cmp::Ordering::Less);
    assert_eq!(b.cmp(&a), std::cmp::Ordering::Greater);
    assert_eq!(a.cmp(&a), std::cmp::Ordering::Equal);
    assert_eq!(c.cmp(&a), std::cmp::Ordering::Less);
}
