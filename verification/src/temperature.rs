//! Reading a temperature from the text of a thermal zone's attribute.

use crate::decimal::{
    decimal_digits, is_digit, lemma_digits_write_value, lemma_parse_of_digits, parse_range,
    parse_u64,
};
use crate::text::{chars_of, is_whitespace, lemma_trimmed_of_padded, trim_bounds, trimmed};
use vstd::prelude::*;

verus! {

/// How many raw units of the attribute make one degree.
pub const MILLIDEGREES_PER_DEGREE: u64 = 1000;

/// Why no temperature could be had from a thermal zone.
#[derive(Clone, Copy, Debug, PartialEq, Eq, Structural)]
pub enum ReadError {
    /// The attribute could not be read.
    Io,
    /// The attribute's text is not an unsigned number that fits in 64 bits.
    Parse,
}

/// The temperature in whole degrees that the attribute text `raw` reports:
/// the number it writes in thousandths of a degree, white space around it
/// ignored, divided by a thousand and rounded down.
pub open spec fn degrees_of(raw: Seq<char>) -> Result<u64, ReadError> {
    match parse_u64(trimmed(raw)) {
        Some(millidegrees) => Ok(millidegrees / MILLIDEGREES_PER_DEGREE),
        None => Err(ReadError::Parse),
    }
}

/// The outcome of one reading, where `contents` is the attribute's text or
/// `None` when reading it failed.
pub open spec fn reading_of(contents: Option<Seq<char>>) -> Result<u64, ReadError> {
    match contents {
        Some(raw) => degrees_of(raw),
        None => Err(ReadError::Io),
    }
}

/// Turns the text of the temperature attribute into whole degrees.
pub fn parse_millidegrees(raw: &str) -> (degrees: Result<u64, ReadError>)
    ensures
        degrees == degrees_of(raw@),
{
    let chars = chars_of(raw);
    let (start, end) = trim_bounds(&chars);
    match parse_range(&chars, start, end) {
        Some(millidegrees) => Ok(millidegrees / MILLIDEGREES_PER_DEGREE),
        None => Err(ReadError::Parse),
    }
}

/// The temperature of a thermal zone in whole degrees, from what reading its
/// temperature attribute gave: the text, or `None` when the read failed.
pub fn get_thermal_zone_temp(contents: Option<&str>) -> (degrees: Result<u64, ReadError>)
    ensures
        degrees == reading_of(
            match contents {
                Some(raw) => Some(raw@),
                None => None,
            },
        ),
{
    match contents {
        Some(raw) => parse_millidegrees(raw),
        None => Err(ReadError::Io),
    }
}

/// A text that writes the number `m` in decimal digits, with or without
/// white space around it, reads as `m / 1000` degrees, rounded down.
pub proof fn lemma_reading_of_number(m: nat, before: Seq<char>, after: Seq<char>)
    requires
        m <= u64::MAX,
        forall|i: int| 0 <= i < before.len() ==> is_whitespace(#[trigger] before[i]),
        forall|i: int| 0 <= i < after.len() ==> is_whitespace(#[trigger] after[i]),
    ensures
        degrees_of(before + decimal_digits(m) + after) == Ok::<u64, ReadError>((m / 1000) as u64),
{
    let digits = decimal_digits(m);
    lemma_digits_write_value(m);
    lemma_parse_of_digits(m);
    assert(is_digit(digits.first()));
    assert(is_digit(digits.last()));
    lemma_trimmed_of_padded(before, digits, after);
}

} // verus!
