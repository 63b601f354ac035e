//! The move provider's parsing side: the decision program's standard
//! output must have the exact shape `(<int>, <int>)`, optionally
//! surrounded by whitespace. Every other output is classified as a
//! distinct, recoverable parse failure.

use crate::text::digits_to_usize;
use crate::text::digits_val;
use crate::text::scan_digits;
use crate::text::scan_ws;
use crate::text::skip_digits;
use crate::text::skip_ws;
use vstd::prelude::*;

verus! {

/// Why a move attempt produced no coordinate. None of these touches
/// the grid: a failed attempt leaves the session exactly as it was.
#[derive(Debug, Copy, Clone, PartialEq, Eq, Structural)]
pub enum MoveParseError {
    /// The output was empty, or whitespace only.
    Empty,
    /// A required `(`, `,` or `)` is missing.
    MissingDelimiter,
    /// A coordinate field is absent (a delimiter stands where digits
    /// should).
    MissingField,
    /// A coordinate field holds something other than digits.
    NonNumeric,
    /// A coordinate does not fit the machine's address range.
    Overflow,
    /// Text follows the closing parenthesis.
    TrailingInput,
}

/// How a whole move attempt failed.
#[derive(Debug, Copy, Clone, PartialEq, Eq, Structural)]
pub enum MoveFailure {
    /// The decision program could not be spawned.
    Spawn,
    /// The decision program produced no usable output stream.
    NoOutput,
    /// The program ran but its output did not parse.
    Parse(MoveParseError),
    /// The wall-clock budget expired before the program answered.
    Timeout,
}

/// What the grammar `ws* '(' ws* digits ws* ',' ws* digits ws* ')' ws*`
/// denotes on `s`: the two coordinates, or the first failure met.
pub open spec fn parse_move_spec(s: Seq<char>) -> Result<(int, int), MoveParseError> {
    let i0 = skip_ws(s, 0);
    if i0 >= s.len() {
        Err(MoveParseError::Empty)
    } else if s[i0] != '(' {
        Err(MoveParseError::MissingDelimiter)
    } else {
        let i1 = skip_ws(s, i0 + 1);
        let i2 = skip_digits(s, i1);
        if i2 == i1 {
            if i1 < s.len() && (s[i1] == ',' || s[i1] == ')') {
                Err(MoveParseError::MissingField)
            } else {
                Err(MoveParseError::NonNumeric)
            }
        } else {
            let x = digits_val(s, i1, i2);
            let i3 = skip_ws(s, i2);
            if i3 >= s.len() || s[i3] != ',' {
                Err(MoveParseError::MissingDelimiter)
            } else {
                let i4 = skip_ws(s, i3 + 1);
                let i5 = skip_digits(s, i4);
                if i5 == i4 {
                    if i4 < s.len() && s[i4] == ')' {
                        Err(MoveParseError::MissingField)
                    } else {
                        Err(MoveParseError::NonNumeric)
                    }
                } else {
                    let y = digits_val(s, i4, i5);
                    let i6 = skip_ws(s, i5);
                    if i6 >= s.len() || s[i6] != ')' {
                        Err(MoveParseError::MissingDelimiter)
                    } else if skip_ws(s, i6 + 1) < s.len() {
                        Err(MoveParseError::TrailingInput)
                    } else if x > usize::MAX || y > usize::MAX {
                        Err(MoveParseError::Overflow)
                    } else {
                        Ok((x, y))
                    }
                }
            }
        }
    }
}

/// Parse the decision program's output into a coordinate pair, exactly
/// as `parse_move_spec` reads it.
pub fn parse_move_output(output: &str) -> (r: Result<(usize, usize), MoveParseError>)
    ensures
        (match parse_move_spec(output@) {
            Ok(c) => r matches Ok(v) && v.0 as int == c.0 && v.1 as int == c.1,
            Err(e) => r matches Err(e2) && e2 == e,
        }),
{
    let len = output.unicode_len();
    let i0 = scan_ws(output, 0);
    if i0 >= len {
        return Err(MoveParseError::Empty);
    }
    if output.get_char(i0) != '(' {
        return Err(MoveParseError::MissingDelimiter);
    }
    let i1 = scan_ws(output, i0 + 1);
    let i2 = scan_digits(output, i1);
    if i2 == i1 {
        if i1 < len {
            let c = output.get_char(i1);
            if c == ',' || c == ')' {
                return Err(MoveParseError::MissingField);
            }
        }
        return Err(MoveParseError::NonNumeric);
    }
    let i3 = scan_ws(output, i2);
    if i3 >= len || output.get_char(i3) != ',' {
        return Err(MoveParseError::MissingDelimiter);
    }
    let i4 = scan_ws(output, i3 + 1);
    let i5 = scan_digits(output, i4);
    if i5 == i4 {
        if i4 < len && output.get_char(i4) == ')' {
            return Err(MoveParseError::MissingField);
        }
        return Err(MoveParseError::NonNumeric);
    }
    let i6 = scan_ws(output, i5);
    if i6 >= len || output.get_char(i6) != ')' {
        return Err(MoveParseError::MissingDelimiter);
    }
    if scan_ws(output, i6 + 1) < len {
        return Err(MoveParseError::TrailingInput);
    }
    let x = digits_to_usize(output, i1, i2);
    let y = digits_to_usize(output, i4, i5);
    match (x, y) {
        (Some(xv), Some(yv)) => Ok((xv, yv)),
        _ => Err(MoveParseError::Overflow),
    }
}

} // verus!
