//! The line parser: timestamp decoding and the per-line accept/reject
//! policy.

use vstd::prelude::*;
use crate::datetime::{WeightDateTime, epoch_millis_of, spec_parse_date, spec_parse_datetime,
    valid_datetime, wrap_u64, parse_date, parse_datetime};
use crate::numeric::{spec_parse_value, parse_float};
use crate::record::{Entry, EntryModel, ParseError, ParseErrorModel, default_entry_model};
use crate::scan::{FieldSpan, ScanError, scan_field, spec_scan_field};
use vstd::slice::slice_to_vec;

verus! {

/// The weight text a record keeps when the value field is unusable.
pub open spec fn default_weight() -> Seq<u8> {
    seq![48u8]
}

/// What decoding the first field as a timestamp yields: the instant,
/// its unsigned millisecond key, and the offset to resume scanning.
///
/// The field is tried as `YYYY-MM-DD HH:MM:SS` first and, failing
/// that, as `YYYY-MM-DD` normalized to midnight.  A zero-length line
/// fails before any shape is tried.
pub open spec fn spec_parse_timestamp(line: Seq<u8>) -> Result<
    (WeightDateTime, u64, int),
    ParseErrorModel,
> {
    if line.len() == 0 {
        Err(ParseErrorModel::EmptyLine)
    } else {
        match spec_scan_field(line, 0) {
            Err(ScanError::FieldNotFound) => Err(ParseErrorModel::FieldNotFound),
            Err(ScanError::EmptyField) => Err(ParseErrorModel::EmptyField),
            Ok(span) => {
                let content = line.subrange(span.start as int, span.end as int);
                if spec_parse_datetime(content) is Some {
                    let dt = spec_parse_datetime(content)->Some_0;
                    Ok((dt, wrap_u64(epoch_millis_of(dt)), span.next as int))
                } else if spec_parse_date(content) is Some {
                    let dt = spec_parse_date(content)->Some_0;
                    Ok((dt, wrap_u64(epoch_millis_of(dt)), span.next as int))
                } else {
                    Err(ParseErrorModel::TimestampUnparsable(content))
                }
            },
        }
    }
}

/// Decodes the first field of `line` into `entry`'s instant and epoch
/// key; the weight is left untouched.  Returns the offset to resume
/// scanning, or the error that rejects the line.
pub fn parse_timestamp(line: &[u8], entry: &mut Entry) -> (r: Result<usize, ParseError>)
    ensures
        match spec_parse_timestamp(line@) {
            Ok((dt, raw, next)) => {
                &&& r matches Ok(n) && n == next
                &&& final(entry)@ == (EntryModel {
                    timestamp: dt,
                    raw_timestamp: raw,
                    weight: old(entry)@.weight,
                })
                &&& valid_datetime(dt)
                &&& next <= line@.len()
            },
            Err(e) => r matches Err(pe) && pe@ == e && final(entry)@ == old(entry)@,
        },
{
    if line.len() == 0 {
        return Err(ParseError::EmptyLine);
    }
    match scan_field(line, 0) {
        Err(ScanError::FieldNotFound) => Err(ParseError::FieldNotFound),
        Err(ScanError::EmptyField) => Err(ParseError::EmptyField),
        Ok(span) => {
            let content = vstd::slice::slice_subrange(line, span.start, span.end);
            if let Some(dt) = parse_datetime(content) {
                entry.timestamp = dt;
                entry.raw_timestamp = dt.raw_epoch_millis();
                Ok(span.next)
            } else if let Some(dt) = parse_date(content) {
                entry.timestamp = dt;
                entry.raw_timestamp = dt.raw_epoch_millis();
                Ok(span.next)
            } else {
                Err(ParseError::TimestampUnparsable(slice_to_vec(content)))
            }
        },
    }
}

/// The terminal state of one line.
#[derive(Clone, Debug)]
pub enum LineOutcome {
    Accepted(Entry),
    Rejected(ParseError),
}

/// Mathematical model of a `LineOutcome`.
pub ghost enum LineModel {
    Accepted(EntryModel),
    Rejected(ParseErrorModel),
}

impl View for LineOutcome {
    type V = LineModel;

    open spec fn view(&self) -> LineModel {
        match self {
            LineOutcome::Accepted(e) => LineModel::Accepted(e@),
            LineOutcome::Rejected(e) => LineModel::Rejected(e@),
        }
    }
}

/// What one line comes to: a record, or the error that rejects it.
///
/// A timestamp failure rejects the line.  A value failure does not:
/// the record is kept with the default zero weight.  This asymmetry is
/// a deliberate recovery policy, not an oversight.
pub open spec fn line_model(line: Seq<u8>) -> LineModel {
    match spec_parse_timestamp(line) {
        Err(e) => LineModel::Rejected(e),
        Ok((dt, raw, next)) => {
            let weight = match spec_parse_value(line, next) {
                Ok((text, _)) => text,
                Err(_) => default_weight(),
            };
            LineModel::Accepted(EntryModel { timestamp: dt, weight, raw_timestamp: raw })
        },
    }
}

/// Runs the timestamp and numeric decoders over one line and
/// classifies it.
pub fn parse_line(line: &[u8]) -> (r: LineOutcome)
    ensures
        r@ == line_model(line@),
{
    let mut entry = Entry::new();
    match parse_timestamp(line, &mut entry) {
        Err(e) => LineOutcome::Rejected(e),
        Ok(next) => {
            let mut weight = entry.weight;
            let value_result = parse_float(line, &mut weight, next);
            entry.weight = weight;
            if value_result.is_err() {
                // a bad value is tolerated: the record keeps its
                // default weight
            }
            LineOutcome::Accepted(entry)
        },
    }
}

/// An accepted record always carries a real calendar instant whose
/// epoch key is derived from it.
pub proof fn lemma_accepted_entry_consistent(line: Seq<u8>)
    requires
        line_model(line) is Accepted,
    ensures
        valid_datetime(line_model(line)->Accepted_0.timestamp),
        line_model(line)->Accepted_0.raw_timestamp == wrap_u64(
            epoch_millis_of(line_model(line)->Accepted_0.timestamp),
        ),
{
}

/// A line whose first field is empty is rejected, whatever its index:
/// this covers the zero-length line and a first field with no content
/// before its separator.
pub proof fn lemma_empty_first_field_rejected(line: Seq<u8>)
    requires
        line.len() == 0 || spec_scan_field(line, 0) == Err::<FieldSpan, ScanError>(
            ScanError::EmptyField,
        ),
    ensures
        line_model(line) is Rejected,
{
}

/// A line with a usable timestamp but an unusable value field is still
/// accepted, with the default zero weight and the decoded instant.
pub proof fn lemma_value_error_tolerated(line: Seq<u8>)
    requires
        spec_parse_timestamp(line) is Ok,
        spec_parse_value(line, spec_parse_timestamp(line)->Ok_0.2) is Err,
    ensures
        line_model(line) is Accepted,
        line_model(line)->Accepted_0.weight == default_weight(),
        line_model(line)->Accepted_0.timestamp == spec_parse_timestamp(line)->Ok_0.0,
{
}

} // verus!
