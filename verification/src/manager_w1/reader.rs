//! Reading the text that the 1-wire driver exposes for one thermometer.
//!
//! The driver writes a line or two that hold `t=` and, behind it, the
//! temperature as a code: a count of millidegrees. The code is read as a
//! number in decimal notation and taken by its whole part. What stands behind
//! a decimal point is less than a millidegree, and cannot change the tenth
//! of a degree that the reading is rounded to.

use vstd::prelude::*;
use crate::manager_w1::errors::W1Error;
use crate::manager_w1::errors::W1ErrorKind;
use crate::rounding::lemma_round_is_nearest;
use crate::rounding::lemma_round_of_multiple;
use crate::rounding::round_div;
use crate::rounding::round_half_away;
use crate::rounding::MILLIS_PER_TENTH;
use crate::number::parse_whole;
use crate::number::whole_in_64_bits;
use crate::text::chars_of;
use crate::text::trim;
use crate::text::trim_bounds;

verus! {

/// How the driver's code becomes a temperature.
#[derive(Clone, Copy, PartialEq, Eq, Structural, Debug)]
pub enum Decode {
    /// The code counts millidegrees.
    Millidegrees,
    /// The code counts millidegrees, and the reading is the code rounded to
    /// a tenth of a degree.
    RoundedTenths,
}

/// The marker `t=` stands at position `i` of `data`.
pub open spec fn marker_at(data: Seq<char>, i: int) -> bool {
    0 <= i && i + 2 <= data.len() && data[i] == 't' && data[i + 1] == '='
}

/// Position `i` is where the first marker of `data` stands.
pub open spec fn first_marker_at(data: Seq<char>, i: int) -> bool {
    marker_at(data, i) && forall|j: int| 0 <= j < i ==> !marker_at(data, j)
}

/// What follows the first marker of `data`, if `data` holds a marker.
pub open spec fn after_marker(data: Seq<char>) -> Option<Seq<char>> {
    if exists|i: int| first_marker_at(data, i) {
        Some(data.skip((choose|i: int| first_marker_at(data, i)) + 2))
    } else {
        None
    }
}

/// The reading in millidegrees that a code stands for.
pub open spec fn decoded(decode: Decode, code: int) -> int {
    match decode {
        Decode::Millidegrees => code,
        Decode::RoundedTenths => round_half_away(code, MILLIS_PER_TENTH as int)
            * MILLIS_PER_TENTH,
    }
}

/// The raw reading in millidegrees that `data` holds, or why it holds none:
/// no marker, or no number with a whole part of 64 bits behind the first
/// marker once the whitespace around it is gone.
pub open spec fn raw_reading(decode: Decode, data: Seq<char>) -> Result<int, W1ErrorKind> {
    match after_marker(data) {
        None => Err(W1ErrorKind::CorruptSource),
        Some(rest) => match whole_in_64_bits(trim(rest)) {
            None => Err(W1ErrorKind::Parse),
            Some(code) => Ok(decoded(decode, code)),
        },
    }
}

/// The message that goes with a failed reading of `data`: the whole content
/// where the marker is missing, the text behind the marker where it is no
/// number.
pub open spec fn reading_failure(data: Seq<char>) -> Seq<char> {
    match after_marker(data) {
        None => "corrupt w1 file: "@ + data,
        Some(rest) => "invalid temperature code: "@ + trim(rest),
    }
}

/// There is one first marker at most.
pub proof fn lemma_first_marker_is_unique(data: Seq<char>, i: int, j: int)
    requires
        first_marker_at(data, i),
        first_marker_at(data, j),
    ensures
        i == j,
{
}

/// Whatever the decoding, a code gives the same reading once it is rounded
/// to a tenth of a degree: the two conventions differ in the raw reading
/// only.
pub proof fn law_rounding_hides_decoding(code: int)
    ensures
        round_half_away(decoded(Decode::RoundedTenths, code), MILLIS_PER_TENTH as int)
            == round_half_away(decoded(Decode::Millidegrees, code), MILLIS_PER_TENTH as int),
{
    lemma_round_of_multiple(round_half_away(code, 100), 100);
}

/// Finds the first marker of `chars`.
pub(crate) fn find_marker(chars: &Vec<char>) -> (position: Option<usize>)
    ensures
        match position {
            Some(i) => first_marker_at(chars@, i as int) && after_marker(chars@) == Some(
                chars@.skip(i + 2),
            ),
            None => after_marker(chars@) is None,
        },
{
    let count = chars.len();
    if count < 2 {
        return None;
    }
    let mut i: usize = 0;
    while i < count - 1
        invariant
            count == chars.len(),
            count >= 2,
            i <= count - 1,
            forall|j: int| 0 <= j < i ==> !marker_at(chars@, j),
        decreases count - i,
    {
        if chars[i] == 't' && chars[i + 1] == '=' {
            proof {
                assert(first_marker_at(chars@, i as int));
                let chosen = choose|k: int| first_marker_at(chars@, k);
                lemma_first_marker_is_unique(chars@, chosen, i as int);
            }
            return Some(i);
        }
        i = i + 1;
    }
    None
}

/// Turns a code into a reading in millidegrees.
pub fn decode_code(decode: Decode, code: i64) -> (milli: i64)
    ensures
        milli == decoded(decode, code as int),
{
    match decode {
        Decode::Millidegrees => code,
        Decode::RoundedTenths => {
            let tenths = round_div(code as i128, MILLIS_PER_TENTH);
            proof {
                lemma_round_is_nearest(code as int, 100);
            }
            (tenths * 100) as i64
        },
    }
}

/// Reads the content of a driver file: the raw reading in millidegrees, or
/// the failure with its message.
pub fn read(decode: Decode, data: &str) -> (result: Result<i64, W1Error>)
    ensures
        match result {
            Ok(milli) => raw_reading(decode, data@) == Ok::<int, W1ErrorKind>(milli as int),
            Err(e) => raw_reading(decode, data@) == Err::<int, W1ErrorKind>(e.kind)
                && e.message@ == reading_failure(data@),
        },
{
    let chars = chars_of(data);
    let position = match find_marker(&chars) {
        Some(position) => position,
        None => {
            return Err(
                W1Error {
                    kind: W1ErrorKind::CorruptSource,
                    message: String::from_str("corrupt w1 file: ").concat(data),
                },
            );
        },
    };
    let (start, end) = trim_bounds(&chars, position + 2);
    match parse_whole(&chars, start, end) {
        Some(code) => Ok(decode_code(decode, code)),
        None => Err(
            W1Error {
                kind: W1ErrorKind::Parse,
                message: String::from_str("invalid temperature code: ").concat(
                    data.substring_char(start, end),
                ),
            },
        ),
    }
}

} // verus!
