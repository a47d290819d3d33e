//! The numeric decoder: recognizes float literals and decodes the
//! value field of a line, tolerating a decimal comma.

use vstd::prelude::*;
use crate::datetime::is_digit;
use crate::datetime::is_digit_exec;
use crate::record::ParseError;
use crate::record::ParseErrorModel;
use crate::scan::SEPARATOR;
use crate::scan::find_separator;
use crate::scan::spec_find_separator;
use vstd::slice::slice_subrange;
use vstd::slice::slice_to_vec;

verus! {

/// ASCII byte values of the grammar's punctuation.
pub const PLUS: u8 = 43;

pub const MINUS: u8 = 45;

pub const DOT: u8 = 46;

pub const LOWER_E: u8 = 101;

pub const UPPER_E: u8 = 69;

/// ASCII lower-casing of a single byte.
pub open spec fn lower(b: u8) -> u8 {
    if 65 <= b && b <= 90 {
        (b + 32) as u8
    } else {
        b
    }
}

/// Every byte of `s` is an ASCII digit.
pub open spec fn all_digits(s: Seq<u8>) -> bool {
    forall|i: int| 0 <= i < s.len() ==> is_digit(#[trigger] s[i])
}

/// Position of the first occurrence of `a` or `b` at or after `from`.
pub open spec fn spec_find_either(s: Seq<u8>, from: int, a: u8, b: u8) -> Option<int>
    decreases s.len() - from,
{
    if from < 0 || from >= s.len() {
        None
    } else if s[from] == a || s[from] == b {
        Some(from)
    } else {
        spec_find_either(s, from + 1, a, b)
    }
}

/// A found byte lies in `s` and nothing before it matches.
pub proof fn lemma_find_either(s: Seq<u8>, from: int, a: u8, b: u8)
    requires
        0 <= from,
    ensures
        match spec_find_either(s, from, a, b) {
            Some(p) => from <= p < s.len() && (s[p] == a || s[p] == b) && forall|j: int|
                from <= j < p ==> s[j] != a && s[j] != b,
            None => forall|j: int| from <= j < s.len() ==> s[j] != a && s[j] != b,
        },
    decreases s.len() - from,
{
    if from < s.len() && s[from] != a && s[from] != b {
        lemma_find_either(s, from + 1, a, b);
    }
}

/// Case-insensitive `inf`, `infinity` or `nan`, the special values the
/// float grammar names.
pub open spec fn is_special_value(t: Seq<u8>) -> bool {
    ||| (t.len() == 3 && lower(t[0]) == 105 && lower(t[1]) == 110 && lower(t[2]) == 102)
    ||| (t.len() == 8 && lower(t[0]) == 105 && lower(t[1]) == 110 && lower(t[2]) == 102 && lower(
        t[3],
    ) == 105 && lower(t[4]) == 110 && lower(t[5]) == 105 && lower(t[6]) == 116 && lower(t[7])
        == 121)
    ||| (t.len() == 3 && lower(t[0]) == 110 && lower(t[1]) == 97 && lower(t[2]) == 110)
}

/// Digits with at most one decimal point and at least one digit.
pub open spec fn is_mantissa(t: Seq<u8>) -> bool {
    match spec_find_either(t, 0, DOT, DOT) {
        None => t.len() > 0 && all_digits(t),
        Some(j) => t.len() > 1 && all_digits(t.subrange(0, j)) && all_digits(
            t.subrange(j + 1, t.len() as int),
        ),
    }
}

/// An optional sign followed by at least one digit, the exponent's
/// tail.
pub open spec fn is_exp_digits(u: Seq<u8>) -> bool {
    if u.len() > 0 && (u[0] == PLUS || u[0] == MINUS) {
        u.len() > 1 && all_digits(u.subrange(1, u.len() as int))
    } else {
        u.len() > 0 && all_digits(u)
    }
}

/// A mantissa with an optional `e`/`E` exponent.
pub open spec fn is_number(t: Seq<u8>) -> bool {
    match spec_find_either(t, 0, LOWER_E, UPPER_E) {
        None => is_mantissa(t),
        Some(k) => is_mantissa(t.subrange(0, k)) && is_exp_digits(t.subrange(k + 1, t.len() as int)),
    }
}

/// The float-literal grammar: an optional sign, then a special value
/// or a number.
pub open spec fn is_float_literal(s: Seq<u8>) -> bool {
    if s.len() > 0 && (s[0] == PLUS || s[0] == MINUS) {
        is_special_value(s.subrange(1, s.len() as int)) || is_number(s.subrange(1, s.len() as int))
    } else {
        is_special_value(s) || is_number(s)
    }
}

/// Executable lower-casing of a byte.
fn lower_exec(b: u8) -> (r: u8)
    ensures
        r == lower(b),
{
    if 65 <= b && b <= 90 {
        b + 32
    } else {
        b
    }
}

/// Executable digit check over a whole slice.
fn all_digits_exec(t: &[u8]) -> (r: bool)
    ensures
        r == all_digits(t@),
{
    let mut i: usize = 0;
    while i < t.len()
        invariant
            i <= t@.len(),
            forall|j: int| 0 <= j < i ==> is_digit(#[trigger] t@[j]),
        decreases t@.len() - i,
    {
        if !is_digit_exec(t[i]) {
            return false;
        }
        i = i + 1;
    }
    true
}

/// Executable search for the first of two bytes.
fn find_either(t: &[u8], from: usize, a: u8, b: u8) -> (r: Option<usize>)
    requires
        from <= t@.len(),
    ensures
        r == match spec_find_either(t@, from as int, a, b) {
            Some(p) => Some(p as usize),
            None => None::<usize>,
        },
{
    let mut i = from;
    while i < t.len()
        invariant
            from <= i <= t@.len(),
            spec_find_either(t@, from as int, a, b) == spec_find_either(t@, i as int, a, b),
        decreases t@.len() - i,
    {
        if t[i] == a || t[i] == b {
            return Some(i);
        }
        i = i + 1;
    }
    None
}

/// Executable special-value check.
fn is_special_exec(t: &[u8]) -> (r: bool)
    ensures
        r == is_special_value(t@),
{
    if t.len() == 3 {
        (lower_exec(t[0]) == 105 && lower_exec(t[1]) == 110 && lower_exec(t[2]) == 102)
            || (lower_exec(t[0]) == 110 && lower_exec(t[1]) == 97 && lower_exec(t[2]) == 110)
    } else if t.len() == 8 {
        lower_exec(t[0]) == 105 && lower_exec(t[1]) == 110 && lower_exec(t[2]) == 102 && lower_exec(
            t[3],
        ) == 105 && lower_exec(t[4]) == 110 && lower_exec(t[5]) == 105 && lower_exec(t[6]) == 116
            && lower_exec(t[7]) == 121
    } else {
        false
    }
}

/// Executable mantissa check.
fn is_mantissa_exec(t: &[u8]) -> (r: bool)
    ensures
        r == is_mantissa(t@),
{
    let n = t.len();
    match find_either(t, 0, DOT, DOT) {
        None => n > 0 && all_digits_exec(t),
        Some(j) => {
            proof {
                lemma_find_either(t@, 0, DOT, DOT);
            }
            n > 1 && all_digits_exec(slice_subrange(t, 0, j)) && all_digits_exec(
                slice_subrange(t, j + 1, n),
            )
        },
    }
}

/// Executable exponent-tail check.
fn is_exp_digits_exec(u: &[u8]) -> (r: bool)
    ensures
        r == is_exp_digits(u@),
{
    if u.len() > 0 && (u[0] == PLUS || u[0] == MINUS) {
        u.len() > 1 && all_digits_exec(slice_subrange(u, 1, u.len()))
    } else {
        u.len() > 0 && all_digits_exec(u)
    }
}

/// Executable number check.
fn is_number_exec(t: &[u8]) -> (r: bool)
    ensures
        r == is_number(t@),
{
    let n = t.len();
    match find_either(t, 0, LOWER_E, UPPER_E) {
        None => is_mantissa_exec(t),
        Some(k) => {
            proof {
                lemma_find_either(t@, 0, LOWER_E, UPPER_E);
            }
            is_mantissa_exec(slice_subrange(t, 0, k)) && is_exp_digits_exec(
                slice_subrange(t, k + 1, n),
            )
        },
    }
}

/// Executable float-literal check.
pub fn check_float_literal(s: &[u8]) -> (r: bool)
    ensures
        r == is_float_literal(s@),
{
    if s.len() > 0 && (s[0] == PLUS || s[0] == MINUS) {
        let t = slice_subrange(s, 1, s.len());
        is_special_exec(t) || is_number_exec(t)
    } else {
        is_special_exec(s) || is_number_exec(s)
    }
}

/// What decoding the value field from `start` yields: the accepted
/// literal text and the offset past the field, or the error.
///
/// The field runs to the first separator, or to the end of the line
/// when none follows.  A comma inside the field after its first byte is
/// read as a decimal separator: the field is truncated there and only
/// the part before it is kept.
pub open spec fn spec_parse_value(line: Seq<u8>, start: int) -> Result<
    (Seq<u8>, int),
    ParseErrorModel,
> {
    let end = match spec_find_separator(line, start) {
        Some(p) => p,
        None => line.len() as int,
    };
    let next = match spec_find_separator(line, start) {
        Some(p) => p + 1,
        None => line.len() as int,
    };
    let content = line.subrange(start, end);
    if content.len() == 0 {
        Err(ParseErrorModel::EmptyField)
    } else {
        let cut = match spec_find_either(content, 0, SEPARATOR, SEPARATOR) {
            Some(j) => if j > 0 {
                content.subrange(0, j)
            } else {
                content
            },
            None => content,
        };
        if is_float_literal(cut) {
            Ok((cut, next))
        } else {
            Err(ParseErrorModel::ValueUnparsable(content))
        }
    }
}

/// Decodes the value field of `line` from offset `start` into
/// `target`.
///
/// On success `target` holds the literal text and the offset past the
/// field is returned; on failure `target` is left as it was and the
/// error says why.
pub fn parse_float(line: &[u8], target: &mut Vec<u8>, start: usize) -> (r: Result<
    usize,
    ParseError,
>)
    requires
        start <= line@.len(),
    ensures
        match spec_parse_value(line@, start as int) {
            Ok((text, next)) => r matches Ok(n) && n == next && final(target)@ == text,
            Err(e) => r matches Err(pe) && pe@ == e && final(target)@ == old(target)@,
        },
{
    let n = line.len();
    let (end, next) = match find_separator(line, start) {
        Some(p) => {
            proof {
                crate::scan::lemma_find_separator(line@, start as int);
            }
            (p, p + 1)
        },
        None => (n, n),
    };
    let content = slice_subrange(line, start, end);
    if content.len() == 0 {
        return Err(ParseError::EmptyField);
    }
    let cut = match find_either(content, 0, SEPARATOR, SEPARATOR) {
        Some(j) => {
            proof {
                lemma_find_either(content@, 0, SEPARATOR, SEPARATOR);
            }
            if j > 0 {
                slice_subrange(content, 0, j)
            } else {
                content
            }
        },
        None => content,
    };
    if check_float_literal(cut) {
        *target = slice_to_vec(cut);
        Ok(next)
    } else {
        Err(ParseError::ValueUnparsable(slice_to_vec(content)))
    }
}

} // verus!
