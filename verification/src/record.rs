//! The record type the parser produces, its mathematical model, and
//! the error and diagnostic kinds of the pipeline.

use vstd::prelude::*;
use crate::datetime::WeightDateTime;

verus! {

/// One parsed measurement: an instant, its derived millisecond epoch
/// key, and the validated text of the weight value.
///
/// The weight is carried as the exact float-literal text of the input
/// (or `0` when the value field could not be parsed); consumers turn it
/// into a machine float outside the verified core.
#[derive(Clone, Debug)]
pub struct Entry {
    pub timestamp: WeightDateTime,
    pub weight: Vec<u8>,
    pub raw_timestamp: u64,
}

/// Mathematical model of an `Entry`.
pub ghost struct EntryModel {
    pub timestamp: WeightDateTime,
    pub weight: Seq<u8>,
    pub raw_timestamp: u64,
}

impl View for Entry {
    type V = EntryModel;

    open spec fn view(&self) -> EntryModel {
        EntryModel {
            timestamp: self.timestamp,
            weight: self.weight@,
            raw_timestamp: self.raw_timestamp,
        }
    }
}

/// The reference instant every fresh record starts from.
pub open spec fn epoch_datetime() -> WeightDateTime {
    WeightDateTime { year: 1970, month: 1, day: 1, hour: 0, minute: 0, second: 0 }
}

/// A fresh record before any decoder ran: the reference instant, a
/// zero weight and a zero epoch key.
pub open spec fn default_entry_model() -> EntryModel {
    EntryModel { timestamp: epoch_datetime(), weight: seq![48u8], raw_timestamp: 0 }
}

impl Entry {
    /// Builds the fresh record the decoders then fill.
    pub fn new() -> (r: Entry)
        ensures
            r@ == default_entry_model(),
    {
        let e = Entry {
            timestamp: WeightDateTime { year: 1970, month: 1, day: 1, hour: 0, minute: 0, second: 0 },
            weight: vec![48u8],
            raw_timestamp: 0,
        };
        proof {
            assert(e.weight@ =~= seq![48u8]);
        }
        e
    }
}

/// Why a line or a field was not usable.
#[derive(Clone, PartialEq, Eq, Debug)]
pub enum ParseError {
    /// The line has no bytes at all.
    EmptyLine,
    /// A field's content, after quote adjustment, is empty.
    EmptyField,
    /// No separator follows the field's start offset.
    FieldNotFound,
    /// The first field matches neither accepted timestamp shape; carries
    /// the field text.
    TimestampUnparsable(Vec<u8>),
    /// The value field is not a float literal; carries the field text.
    ValueUnparsable(Vec<u8>),
}

/// Mathematical model of a `ParseError`.
pub ghost enum ParseErrorModel {
    EmptyLine,
    EmptyField,
    FieldNotFound,
    TimestampUnparsable(Seq<u8>),
    ValueUnparsable(Seq<u8>),
}

impl View for ParseError {
    type V = ParseErrorModel;

    open spec fn view(&self) -> ParseErrorModel {
        match self {
            ParseError::EmptyLine => ParseErrorModel::EmptyLine,
            ParseError::EmptyField => ParseErrorModel::EmptyField,
            ParseError::FieldNotFound => ParseErrorModel::FieldNotFound,
            ParseError::TimestampUnparsable(t) => ParseErrorModel::TimestampUnparsable(t@),
            ParseError::ValueUnparsable(t) => ParseErrorModel::ValueUnparsable(t@),
        }
    }
}

/// A reported parse failure: the zero-based index of the line, the
/// line's bytes, and what went wrong.
#[derive(Clone, Debug)]
pub struct Diagnostic {
    pub line_index: usize,
    pub line: Vec<u8>,
    pub error: ParseError,
}

/// Mathematical model of a `Diagnostic`.
pub ghost struct DiagnosticModel {
    pub line_index: int,
    pub line: Seq<u8>,
    pub error: ParseErrorModel,
}

impl View for Diagnostic {
    type V = DiagnosticModel;

    open spec fn view(&self) -> DiagnosticModel {
        DiagnosticModel { line_index: self.line_index as int, line: self.line@, error: self.error@ }
    }
}

} // verus!
