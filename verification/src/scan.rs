//! The field scanner: locates the next separator-bounded field of a
//! line, honoring an optional leading quote on the field.

use vstd::prelude::*;

verus! {

/// ASCII byte value of the fixed field separator.
pub const SEPARATOR: u8 = 44;

/// ASCII byte value of the optional field quote.
pub const QUOTE: u8 = 34;

/// Why a field could not be scanned.
#[derive(Clone, Copy, PartialEq, Eq, Structural, Debug)]
pub enum ScanError {
    /// No separator occurs at or after the start offset.
    FieldNotFound,
    /// The portion before the separator, after quote adjustment, is
    /// empty.
    EmptyField,
}

/// The byte range of a scanned field: its content is
/// `line[start..end]`, and scanning resumes at `next`, just past the
/// separator.
#[derive(Clone, Copy, PartialEq, Eq, Structural, Debug)]
pub struct FieldSpan {
    pub start: usize,
    pub end: usize,
    pub next: usize,
}

/// Position of the first separator at or after `from`.
pub open spec fn spec_find_separator(line: Seq<u8>, from: int) -> Option<int>
    decreases line.len() - from,
{
    if from < 0 || from >= line.len() {
        None
    } else if line[from] == SEPARATOR {
        Some(from)
    } else {
        spec_find_separator(line, from + 1)
    }
}

/// A found separator lies in the line, at or after `from`, and nothing
/// before it is a separator.
pub proof fn lemma_find_separator(line: Seq<u8>, from: int)
    requires
        0 <= from,
    ensures
        match spec_find_separator(line, from) {
            Some(p) => from <= p < line.len() && line[p] == SEPARATOR && forall|j: int|
                from <= j < p ==> line[j] != SEPARATOR,
            None => forall|j: int| from <= j < line.len() ==> line[j] != SEPARATOR,
        },
    decreases line.len() - from,
{
    if from < line.len() && line[from] != SEPARATOR {
        lemma_find_separator(line, from + 1);
    }
}

/// What scanning a field from `start` yields.
pub open spec fn spec_scan_field(line: Seq<u8>, start: int) -> Result<FieldSpan, ScanError> {
    let quoted = start < line.len() && line[start] == QUOTE;
    let content_start = if quoted {
        start + 1
    } else {
        start
    };
    match spec_find_separator(line, content_start) {
        None => Err(ScanError::FieldNotFound),
        Some(p) => {
            let content_end = if quoted {
                p - 1
            } else {
                p
            };
            if content_end <= content_start {
                Err(ScanError::EmptyField)
            } else {
                Ok(
                    FieldSpan {
                        start: content_start as usize,
                        end: content_end as usize,
                        next: (p + 1) as usize,
                    },
                )
            }
        },
    }
}

/// Finds the first separator at or after `from`.
pub fn find_separator(line: &[u8], from: usize) -> (r: Option<usize>)
    requires
        from <= line@.len(),
    ensures
        r == match spec_find_separator(line@, from as int) {
            Some(p) => Some(p as usize),
            None => None::<usize>,
        },
{
    let mut i = from;
    while i < line.len()
        invariant
            from <= i <= line@.len(),
            spec_find_separator(line@, from as int) == spec_find_separator(line@, i as int),
        decreases line@.len() - i,
    {
        if line[i] == SEPARATOR {
            return Some(i);
        }
        i = i + 1;
    }
    None
}

/// Scans the next field of `line` from offset `start`.
///
/// If the byte at `start` is the quote, the field's content begins one
/// position later and the byte just before the separator (the closing
/// quote) is excluded; the returned resume offset still points past the
/// separator.  Quote detection inspects that single byte only: no
/// matching closing quote is checked, and a separator inside quoted
/// content still ends the field.
pub fn scan_field(line: &[u8], start: usize) -> (r: Result<FieldSpan, ScanError>)
    requires
        start <= line@.len(),
    ensures
        r == spec_scan_field(line@, start as int),
        r matches Ok(span) ==> start <= span.start && span.start < span.end && span.end
            < span.next && span.next <= line@.len(),
{
    let quoted = start < line.len() && line[start] == QUOTE;
    let content_start = if quoted {
        start + 1
    } else {
        start
    };
    match find_separator(line, content_start) {
        None => Err(ScanError::FieldNotFound),
        Some(p) => {
            proof {
                lemma_find_separator(line@, content_start as int);
            }
            let content_end = if quoted {
                p - 1
            } else {
                p
            };
            if content_end <= content_start {
                Err(ScanError::EmptyField)
            } else {
                Ok(FieldSpan { start: content_start, end: content_end, next: p + 1 })
            }
        },
    }
}

} // verus!
