//! Decoders for the string-encoded values of a `zone-status` reply: flags,
//! counters, and the choice among them that gives every field a number.

use vstd::prelude::*;
use vstd::utf8::is_ascii_chars;
use crate::duration::{
    all_digits, decimal_value, duration_of, is_digit, knot_time_parse,
    lemma_unsigned_has_no_duration, scan_number,
};
use crate::text::{ascii_bytes, str_eq};

verus! {

/// The value exported for a field that no decoder accepts.
pub const UNKNOWN: i64 = -1;

/// The boolean that a flag token stands for, if it is one of the six tokens
/// the daemon uses.
pub open spec fn bool_of(text: Seq<char>) -> Option<bool> {
    if text == "yes"@ || text == "freezing"@ || text == "open"@ {
        Some(true)
    } else if text == "no"@ || text == "thawing"@ || text == "none"@ {
        Some(false)
    } else {
        None
    }
}

/// Decodes a flag token: `yes`, `freezing` and `open` are true; `no`,
/// `thawing` and `none` are false; any other text has no boolean reading.
pub fn knot_bool_parse(value: &str) -> (flag: Option<bool>)
    ensures
        flag == bool_of(value@),
{
    if str_eq(value, "yes") || str_eq(value, "freezing") || str_eq(value, "open") {
        Some(true)
    } else if str_eq(value, "no") || str_eq(value, "thawing") || str_eq(value, "none") {
        Some(false)
    } else {
        None
    }
}

/// Whether a text starts with a sign.
pub open spec fn signed(text: Seq<char>) -> bool {
    text.len() > 0 && (text[0] == '+' || text[0] == '-')
}

/// The digits of a counter text: what stands behind its sign, if it has one.
pub open spec fn counter_digits(text: Seq<char>) -> Seq<char> {
    if signed(text) {
        text.skip(1)
    } else {
        text
    }
}

/// The integer that a counter text denotes: an optional sign, then decimal
/// digits, one at least and nothing else, with a value that fits in 64 bits.
pub open spec fn counter_of(text: Seq<char>) -> Option<i64> {
    let digits = counter_digits(text);
    let magnitude = decimal_value(digits) as int;
    let number = if text.len() > 0 && text[0] == '-' {
        -magnitude
    } else {
        magnitude
    };
    if digits.len() > 0 && all_digits(digits) && i64::MIN <= number <= i64::MAX {
        Some(number as i64)
    } else {
        None
    }
}

/// Decodes a plain counter, such as a zone serial, as a base-10 integer.
pub fn knot_counter_parse(value: &str) -> (number: Option<i64>)
    ensures
        number == counter_of(value@),
{
    let bytes = match ascii_bytes(value) {
        Some(bytes) => bytes,
        None => {
            proof {
                lemma_counter_is_ascii(value@);
            }
            return None;
        },
    };
    let ghost text = value@;
    if bytes.len() == 0 {
        return None;
    }
    let negative = bytes[0] == 45;
    let start: usize = if negative || bytes[0] == 43 {
        1
    } else {
        0
    };
    let (end, magnitude) = scan_number(bytes, start, Ghost(text));
    proof {
        let digits = counter_digits(text);
        if end < bytes.len() {
            assert(digits[end - start] == text[end as int]);
        } else {
            assert(digits =~= text.subrange(start as int, end as int));
        }
    }
    if end == start || end < bytes.len() {
        return None;
    }
    match magnitude {
        Some(m) => {
            if m <= 9223372036854775807 {
                let n: i64 = m as i64;
                if negative {
                    Some(-n)
                } else {
                    Some(n)
                }
            } else if negative && m == 9223372036854775808 {
                Some(i64::MIN)
            } else {
                None
            }
        },
        None => None,
    }
}

proof fn lemma_counter_is_ascii(text: Seq<char>)
    requires
        !is_ascii_chars(text),
    ensures
        counter_of(text) is None,
{
    let digits = counter_digits(text);
    if digits.len() > 0 && all_digits(digits) {
        assert forall|i: int| 0 <= i < text.len() implies '\0' <= #[trigger] text[i] <= '\u{7f}' by {
            if signed(text) && i > 0 {
                assert(is_digit(digits[i - 1]));
            }
        }
    }
}

/// The number of a duration as an observation: its seconds where they fit in
/// a signed 64-bit value.
pub open spec fn duration_observation(text: Seq<char>) -> Option<i64> {
    match duration_of(text) {
        Some(seconds) => if seconds <= i64::MAX {
            Some(seconds as i64)
        } else {
            None
        },
        None => None,
    }
}

/// The number of a flag as an observation: 1 for true, 0 for false.
pub open spec fn flag_observation(text: Seq<char>) -> Option<i64> {
    match bool_of(text) {
        Some(flag) => Some(if flag { 1i64 } else { 0i64 }),
        None => None,
    }
}

/// The observation that a text of unknown encoding stands for: what the first
/// of the counter, the flag and the duration decoder yields that accepts the
/// text, and the sentinel if none does.
pub open spec fn observation_of(text: Seq<char>) -> i64 {
    if counter_of(text) is Some {
        counter_of(text).unwrap()
    } else if flag_observation(text) is Some {
        flag_observation(text).unwrap()
    } else if duration_observation(text) is Some {
        duration_observation(text).unwrap()
    } else {
        UNKNOWN
    }
}

fn flag_number(value: &str) -> (number: Option<i64>)
    ensures
        number == flag_observation(value@),
{
    match knot_bool_parse(value) {
        Some(true) => Some(1),
        Some(false) => Some(0),
        None => None,
    }
}

fn duration_number(value: &str) -> (number: Option<i64>)
    ensures
        number == duration_observation(value@),
{
    match knot_time_parse(value) {
        Some(seconds) => if seconds <= 9223372036854775807 {
            Some(seconds as i64)
        } else {
            None
        },
        None => None,
    }
}

/// Gives a field of unknown encoding its number: the integer it spells, else
/// 1 or 0 for a flag token, else the seconds of a duration, else -1. A field
/// that cannot be decoded never fails the caller.
pub fn parse(value: &str) -> (number: i64)
    ensures
        number == observation_of(value@),
{
    if let Some(number) = knot_counter_parse(value) {
        return number;
    }
    if let Some(number) = flag_number(value) {
        return number;
    }
    if let Some(number) = duration_number(value) {
        return number;
    }
    UNKNOWN
}

/// The encodings that a field of the reply can have.
#[derive(Clone, Copy, Debug, PartialEq, Eq, Structural)]
pub enum Decoder {
    /// A base-10 integer.
    Counter,
    /// The time until an event.
    Duration,
    /// One of the flag tokens.
    Flag,
}

/// The observation that `text` stands for under one decoder: its number, or
/// the sentinel where the decoder does not accept the text.
pub open spec fn decoded(decoder: Decoder, text: Seq<char>) -> i64 {
    let number = match decoder {
        Decoder::Counter => counter_of(text),
        Decoder::Duration => duration_observation(text),
        Decoder::Flag => flag_observation(text),
    };
    match number {
        Some(n) => n,
        None => UNKNOWN,
    }
}

/// Decodes a field with the decoder chosen for it. A text that the decoder
/// does not accept yields -1.
pub fn decode(decoder: Decoder, value: &str) -> (number: i64)
    ensures
        number == decoded(decoder, value@),
{
    let number = match decoder {
        Decoder::Counter => knot_counter_parse(value),
        Decoder::Duration => duration_number(value),
        Decoder::Flag => flag_number(value),
    };
    match number {
        Some(n) => n,
        None => UNKNOWN,
    }
}

/// A duration field whose text does not start with the sign, and is not
/// the literal `0`, is exported as the sentinel. The state words of an
/// event, such as `not scheduled`, are such texts.
pub proof fn lemma_unsigned_duration_is_unknown(text: Seq<char>)
    requires
        text.len() == 0 || text[0] != '+',
        text != seq!['0'],
    ensures
        duration_of(text) is None,
        decoded(Decoder::Duration, text) == UNKNOWN,
{
    lemma_unsigned_has_no_duration(text);
}

} // verus!
