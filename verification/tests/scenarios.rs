use weightlog::ingest::parse_file;
use weightlog::line::{parse_line, LineOutcome};
use weightlog::record::{Entry, ParseError};

fn lines_of(input: &[&str]) -> Vec<Vec<u8>> {
    input.iter().map(|s| s.as_bytes().to_vec()).collect()
}

fn weight_f32(e: &Entry) -> f32 {
    String::from_utf8(e.weight.clone()).unwrap().parse::<f32>().unwrap()
}

#[test]
fn two_quoted_records_sorted() {
    let lines = lines_of(&["\"2021-01-05 08:00:00\",72.3", "\"2021-01-04 08:00:00\",71.9"]);
    let (records, diags) = parse_file(&lines);
    assert_eq!(records.len(), 2);
    assert_eq!(diags.len(), 0);
    assert_eq!(records[0].timestamp.day, 4);
    assert_eq!(records[1].timestamp.day, 5);
    assert_eq!(weight_f32(&records[0]), 71.9);
    assert_eq!(weight_f32(&records[1]), 72.3);
    assert!(records[0].raw_timestamp < records[1].raw_timestamp);
}

#[test]
fn date_only_with_decimal_comma() {
    let lines = lines_of(&["2021-02-10,80,5"]);
    let (records, diags) = parse_file(&lines);
    assert_eq!(records.len(), 1);
    assert_eq!(diags.len(), 0);
    let r = &records[0];
    assert_eq!(
        (r.timestamp.year, r.timestamp.month, r.timestamp.day),
        (2021, 2, 10)
    );
    assert_eq!(
        (r.timestamp.hour, r.timestamp.minute, r.timestamp.second),
        (0, 0, 0)
    );
    assert_eq!(weight_f32(r), 80.0);
}

#[test]
fn header_line_suppressed() {
    let lines = lines_of(&[
        "date,weight",
        "2021-01-05 08:00:00,70.1",
        "2021-01-06 08:00:00,70.2",
    ]);
    let (records, diags) = parse_file(&lines);
    assert_eq!(records.len(), 2);
    assert_eq!(diags.len(), 0);
}

#[test]
fn rejection_beyond_header_window_reported() {
    let lines = lines_of(&[
        "2021-01-01 00:00:00,1",
        "2021-01-02 00:00:00,2",
        "2021-01-03 00:00:00,3",
        "not a timestamp,4",
    ]);
    let (records, diags) = parse_file(&lines);
    assert_eq!(records.len(), 3);
    assert_eq!(diags.len(), 1);
    assert_eq!(diags[0].line_index, 3);
    assert_eq!(diags[0].line, b"not a timestamp,4".to_vec());
    assert_eq!(
        diags[0].error,
        ParseError::TimestampUnparsable(b"not a timestamp".to_vec())
    );
}

#[test]
fn rejection_inside_header_window_silent() {
    let lines = lines_of(&["2021-01-01 00:00:00,1", "not a timestamp,4"]);
    let (records, diags) = parse_file(&lines);
    assert_eq!(records.len(), 1);
    assert_eq!(diags.len(), 0);
}

#[test]
fn empty_first_field_always_rejected() {
    for input in [",72.3", "\",72.3", ""] {
        let lines = lines_of(&[
            "2021-01-01 00:00:00,1",
            "2021-01-02 00:00:00,2",
            "2021-01-03 00:00:00,3",
            input,
        ]);
        let (records, diags) = parse_file(&lines);
        assert_eq!(records.len(), 3);
        assert_eq!(diags.len(), 1);
        let lines = lines_of(&[input, "2021-01-02 00:00:00,2"]);
        let (records, diags) = parse_file(&lines);
        assert_eq!(records.len(), 1);
        assert_eq!(diags.len(), 0);
    }
}

#[test]
fn bad_value_keeps_record_with_zero_weight() {
    let lines = lines_of(&["2021-01-05 08:00:00,oops"]);
    let (records, diags) = parse_file(&lines);
    assert_eq!(records.len(), 1);
    assert_eq!(diags.len(), 0);
    assert_eq!(records[0].weight, b"0".to_vec());
    assert_eq!(weight_f32(&records[0]), 0.0);
    assert_eq!(records[0].timestamp.hour, 8);
}

#[test]
fn missing_value_separator_reads_to_end_of_line() {
    match parse_line(b"2021-01-05 08:00:00,72.3") {
        LineOutcome::Accepted(e) => assert_eq!(e.weight, b"72.3".to_vec()),
        LineOutcome::Rejected(_) => panic!("line should be accepted"),
    }
}

#[test]
fn trailing_fields_ignored() {
    match parse_line(b"2021-01-05 08:00:00,72.3,extra,fields") {
        LineOutcome::Accepted(e) => assert_eq!(e.weight, b"72.3".to_vec()),
        LineOutcome::Rejected(_) => panic!("line should be accepted"),
    }
}

#[test]
fn duplicate_instants_both_kept() {
    let lines = lines_of(&["2021-01-05 08:00:00,72.3", "2021-01-05 08:00:00,71.9"]);
    let (records, diags) = parse_file(&lines);
    assert_eq!(records.len(), 2);
    assert_eq!(diags.len(), 0);
    assert_eq!(records[0].raw_timestamp, records[1].raw_timestamp);
}

#[test]
fn sorted_across_many_lines() {
    let lines = lines_of(&[
        "2021-03-01 12:00:00,3",
        "2021-01-01 12:00:00,1",
        "2022-02-01 12:00:00,4",
        "2021-01-01 11:59:59,0",
        "2021-02-01 12:00:00,2",
    ]);
    let (records, diags) = parse_file(&lines);
    assert_eq!(records.len(), 5);
    assert_eq!(diags.len(), 0);
    for w in records.windows(2) {
        assert!(w[0].raw_timestamp <= w[1].raw_timestamp);
    }
    let weights: Vec<f32> = records.iter().map(weight_f32).collect();
    assert_eq!(weights, vec![0.0, 1.0, 2.0, 3.0, 4.0]);
}
