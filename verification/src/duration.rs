//! Relative durations as the daemon prints them for scheduled events:
//! a `+` sign followed by pairs of a decimal integer and a unit letter, such
//! as `+6D23h37m28s`.
//!
//! The grammar is stated over the parts that a text is written from. The
//! decoder scans the bytes from the left; the scan is shown to accept exactly
//! the texts of the grammar and to find the parts they were written from.

use vstd::prelude::*;
use vstd::utf8::is_ascii_chars;
use crate::text::{ascii_bytes, bytes_match, str_eq};

verus! {

/// One pair of a duration text: the digits of its integer and its unit letter.
pub struct DurationPart {
    pub digits: Seq<char>,
    pub unit: char,
}

pub open spec fn is_digit(c: char) -> bool {
    '0' <= c <= '9'
}

pub open spec fn digit_value(c: char) -> nat {
    (c as int - '0' as int) as nat
}

/// The seconds that one unit letter stands for: a year has 365 days and a
/// month 30.
pub open spec fn unit_seconds(c: char) -> Option<nat> {
    if c == 'Y' {
        Some(31536000)
    } else if c == 'M' {
        Some(2592000)
    } else if c == 'D' {
        Some(86400)
    } else if c == 'h' {
        Some(3600)
    } else if c == 'm' {
        Some(60)
    } else if c == 's' {
        Some(1)
    } else {
        None
    }
}

pub open spec fn all_digits(digits: Seq<char>) -> bool {
    forall|i: int| 0 <= i < digits.len() ==> is_digit(#[trigger] digits[i])
}

/// The number that a run of decimal digits denotes.
pub open spec fn decimal_value(digits: Seq<char>) -> nat
    decreases digits.len(),
{
    if digits.len() == 0 {
        0
    } else {
        decimal_value(digits.drop_last()) * 10 + digit_value(digits.last())
    }
}

impl DurationPart {
    /// At least one digit, digits only, and a unit letter of the table.
    pub open spec fn valid(self) -> bool {
        &&& self.digits.len() > 0
        &&& all_digits(self.digits)
        &&& unit_seconds(self.unit) is Some
    }

    pub open spec fn text(self) -> Seq<char> {
        self.digits.push(self.unit)
    }

    pub open spec fn seconds(self) -> nat {
        decimal_value(self.digits) * unit_seconds(self.unit).unwrap()
    }
}

pub open spec fn parts_valid(parts: Seq<DurationPart>) -> bool {
    forall|i: int| 0 <= i < parts.len() ==> (#[trigger] parts[i]).valid()
}

/// The parts written one after the other, with nothing between them.
pub open spec fn parts_text(parts: Seq<DurationPart>) -> Seq<char>
    decreases parts.len(),
{
    if parts.len() == 0 {
        Seq::empty()
    } else {
        parts[0].text() + parts_text(parts.drop_first())
    }
}

/// The sum of the parts, each integer weighted by its unit.
pub open spec fn parts_seconds(parts: Seq<DurationPart>) -> nat
    decreases parts.len(),
{
    if parts.len() == 0 {
        0
    } else {
        parts[0].seconds() + parts_seconds(parts.drop_first())
    }
}

/// The text of a duration: the sign, then the parts.
pub open spec fn duration_text(parts: Seq<DurationPart>) -> Seq<char> {
    seq!['+'] + parts_text(parts)
}

/// `text` is the duration written from `parts`: one part at least, each valid.
pub open spec fn written_from(text: Seq<char>, parts: Seq<DurationPart>) -> bool {
    &&& parts.len() > 0
    &&& parts_valid(parts)
    &&& text == duration_text(parts)
}

/// What a duration field decodes to. The literal `0` is zero seconds. A text
/// of the grammar is the weighted sum of its parts where that fits in 64
/// bits. Every other text has no value.
pub open spec fn duration_of(text: Seq<char>) -> Option<u64> {
    if text == seq!['0'] {
        Some(0u64)
    } else if exists|parts: Seq<DurationPart>| written_from(text, parts) {
        let parts = choose|parts: Seq<DurationPart>| written_from(text, parts);
        if parts_seconds(parts) <= u64::MAX {
            Some(parts_seconds(parts) as u64)
        } else {
            None
        }
    } else {
        None
    }
}

/// The length of the run of digits that `s` starts with.
pub closed spec fn digit_run(s: Seq<char>) -> nat
    decreases s.len(),
{
    if s.len() > 0 && is_digit(s[0]) {
        1 + digit_run(s.drop_first())
    } else {
        0
    }
}

/// The parts that a scan from the left finds in `s`, if `s` is made of
/// valid parts and nothing else.
pub closed spec fn scan_parts(s: Seq<char>) -> Option<Seq<DurationPart>>
    decreases s.len(),
{
    if s.len() == 0 {
        Some(Seq::empty())
    } else {
        let n = digit_run(s) as int;
        if n == 0 || n >= s.len() || unit_seconds(s[n]) is None {
            None
        } else {
            match scan_parts(s.skip(n + 1)) {
                Some(rest) => Some(seq![DurationPart { digits: s.take(n), unit: s[n] }] + rest),
                None => None,
            }
        }
    }
}

proof fn lemma_digit_run_bounds(s: Seq<char>)
    ensures
        digit_run(s) <= s.len(),
        all_digits(s.take(digit_run(s) as int)),
        digit_run(s) < s.len() ==> !is_digit(s[digit_run(s) as int]),
    decreases s.len(),
{
    if s.len() > 0 && is_digit(s[0]) {
        let t = s.drop_first();
        lemma_digit_run_bounds(t);
        let n = digit_run(s) as int;
        assert forall|i: int| 0 <= i < n implies is_digit(#[trigger] s.take(n)[i]) by {
            if i > 0 {
                assert(s.take(n)[i] == t.take(n - 1)[i - 1]);
            }
        }
    }
}

/// A run of `n` digits that ends the text or stands before another character
/// is the run that the text starts with.
proof fn lemma_digit_run_is(s: Seq<char>, n: int)
    requires
        0 <= n <= s.len(),
        forall|i: int| 0 <= i < n ==> is_digit(#[trigger] s[i]),
        n < s.len() ==> !is_digit(s[n]),
    ensures
        digit_run(s) == n,
    decreases s.len(),
{
    if n > 0 {
        let t = s.drop_first();
        assert forall|i: int| 0 <= i < n - 1 implies is_digit(#[trigger] t[i]) by {}
        lemma_digit_run_is(t, n - 1);
    }
}

/// The sum over a sequence with one more part at its end.
pub proof fn lemma_parts_seconds_push(parts: Seq<DurationPart>, part: DurationPart)
    ensures
        parts_seconds(parts.push(part)) == parts_seconds(parts) + part.seconds(),
    decreases parts.len(),
{
    let whole = parts.push(part);
    if parts.len() == 0 {
        assert(parts_seconds(whole) == part.seconds() + parts_seconds(whole.drop_first()));
    } else {
        assert(whole.drop_first() =~= parts.drop_first().push(part));
        lemma_parts_seconds_push(parts.drop_first(), part);
    }
}

/// What the scan finds is valid and spells the text that was scanned.
proof fn lemma_scan_sound(s: Seq<char>)
    requires
        scan_parts(s) is Some,
    ensures
        parts_valid(scan_parts(s).unwrap()),
        parts_text(scan_parts(s).unwrap()) == s,
        s.len() > 0 ==> scan_parts(s).unwrap().len() > 0,
    decreases s.len(),
{
    if s.len() > 0 {
        let n = digit_run(s) as int;
        let tail = s.skip(n + 1);
        lemma_digit_run_bounds(s);
        lemma_scan_sound(tail);
        let first = DurationPart { digits: s.take(n), unit: s[n] };
        let rest = scan_parts(tail).unwrap();
        let parts = seq![first] + rest;
        assert(parts.drop_first() =~= rest);
        assert forall|i: int| 0 <= i < parts.len() implies (#[trigger] parts[i]).valid() by {}
    }
}

/// The scan finds the parts that a text was written from.
proof fn lemma_scan_complete(parts: Seq<DurationPart>)
    requires
        parts_valid(parts),
    ensures
        scan_parts(parts_text(parts)) == Some(parts),
    decreases parts.len(),
{
    let s = parts_text(parts);
    if parts.len() > 0 {
        let first = parts[0];
        let rest = parts.drop_first();
        assert forall|i: int| 0 <= i < rest.len() implies (#[trigger] rest[i]).valid() by {}
        lemma_scan_complete(rest);
        let n = first.digits.len() as int;
        assert forall|i: int| 0 <= i < n implies is_digit(#[trigger] s[i]) by {}
        lemma_digit_run_is(s, n);
        assert(s.take(n) =~= first.digits);
        assert(s.skip(n + 1) =~= parts_text(rest));
    }
}

/// A text is written from one sequence of valid parts at most.
pub proof fn lemma_parts_unique(a: Seq<DurationPart>, b: Seq<DurationPart>)
    requires
        parts_valid(a),
        parts_valid(b),
        parts_text(a) == parts_text(b),
    ensures
        a == b,
{
    lemma_scan_complete(a);
    lemma_scan_complete(b);
}

/// How the scan of the text behind the sign decides what a text decodes to.
proof fn lemma_duration_by_scan(text: Seq<char>)
    requires
        text.len() > 0,
        text[0] == '+',
    ensures
        duration_of(text) == match scan_parts(text.skip(1)) {
            Some(parts) => if parts.len() > 0 && parts_seconds(parts) <= u64::MAX {
                Some(parts_seconds(parts) as u64)
            } else {
                None
            },
            None => None,
        },
{
    let body = text.skip(1);
    assert(text =~= seq!['+'] + body);
    if exists|parts: Seq<DurationPart>| written_from(text, parts) {
        let parts = choose|parts: Seq<DurationPart>| written_from(text, parts);
        assert(body =~= parts_text(parts));
        lemma_scan_complete(parts);
    } else {
        if scan_parts(body) is Some {
            let parts = scan_parts(body).unwrap();
            lemma_scan_sound(body);
            if parts.len() > 0 {
                assert(written_from(text, parts));
            }
        }
    }
}

/// A text that does not start with the sign decodes to nothing, unless it is
/// the literal `0`.
pub proof fn lemma_unsigned_has_no_duration(text: Seq<char>)
    requires
        text.len() == 0 || text[0] != '+',
        text != seq!['0'],
    ensures
        duration_of(text) is None,
{
}

/// A text of the grammar decodes to the weighted sum of the parts it was
/// written from, whatever their order and however often a unit occurs, as
/// long as the sum fits in 64 bits.
pub proof fn lemma_duration_of_parts(parts: Seq<DurationPart>)
    requires
        parts.len() > 0,
        parts_valid(parts),
    ensures
        duration_of(duration_text(parts)) == if parts_seconds(parts) <= u64::MAX {
            Some(parts_seconds(parts) as u64)
        } else {
            None::<u64>
        },
{
    let text = duration_text(parts);
    assert(text.skip(1) =~= parts_text(parts));
    lemma_scan_complete(parts);
    lemma_duration_by_scan(text);
}

proof fn lemma_parts_seconds_remove(parts: Seq<DurationPart>, i: int)
    requires
        0 <= i < parts.len(),
    ensures
        parts_seconds(parts) == parts[i].seconds() + parts_seconds(parts.remove(i)),
    decreases parts.len(),
{
    if i > 0 {
        let without = parts.remove(i);
        assert(without.drop_first() =~= parts.drop_first().remove(i - 1));
        lemma_parts_seconds_remove(parts.drop_first(), i - 1);
    }
}

/// The weighted sum does not depend on the order of the parts.
pub proof fn lemma_seconds_order_independent(a: Seq<DurationPart>, b: Seq<DurationPart>)
    requires
        a.to_multiset() == b.to_multiset(),
    ensures
        parts_seconds(a) == parts_seconds(b),
    decreases a.len(),
{
    a.to_multiset_ensures();
    b.to_multiset_ensures();
    if a.len() > 0 {
        let first = a[0];
        assert(b.to_multiset().count(first) > 0);
        let k = choose|k: int| 0 <= k < b.len() && b[k] == first;
        lemma_seconds_order_independent(a.remove(0), b.remove(k));
        lemma_parts_seconds_remove(a, 0);
        lemma_parts_seconds_remove(b, k);
    }
}

/// Two duration texts written from the same parts, in whatever order and
/// with whatever units repeated, decode to the same value.
pub proof fn lemma_duration_order_independent(a: Seq<DurationPart>, b: Seq<DurationPart>)
    requires
        a.len() > 0,
        parts_valid(a),
        a.to_multiset() == b.to_multiset(),
    ensures
        written_from(duration_text(b), b),
        duration_of(duration_text(a)) == duration_of(duration_text(b)),
{
    a.to_multiset_ensures();
    b.to_multiset_ensures();
    assert forall|i: int| 0 <= i < b.len() implies (#[trigger] b[i]).valid() by {
        assert(a.to_multiset().count(b[i]) > 0);
    }
    lemma_seconds_order_independent(a, b);
    lemma_duration_of_parts(a);
    lemma_duration_of_parts(b);
}

/// The weighted sum of two runs of parts written one after the other is the
/// sum of the two: a unit that occurs again adds to the total.
pub proof fn lemma_seconds_additive(a: Seq<DurationPart>, b: Seq<DurationPart>)
    ensures
        parts_seconds(a + b) == parts_seconds(a) + parts_seconds(b),
    decreases b.len(),
{
    if b.len() > 0 {
        let init = b.drop_last();
        assert(b =~= init.push(b.last()));
        lemma_seconds_additive(a, init);
        lemma_parts_seconds_push(a + init, b.last());
        lemma_parts_seconds_push(init, b.last());
    }
}

/// A text with a character outside ASCII is no duration.
proof fn lemma_duration_is_ascii(text: Seq<char>)
    requires
        duration_of(text) is Some,
    ensures
        is_ascii_chars(text),
{
    if text != seq!['0'] {
        let parts = choose|parts: Seq<DurationPart>| written_from(text, parts);
        lemma_parts_text_ascii(parts);
    }
}

proof fn lemma_parts_text_ascii(parts: Seq<DurationPart>)
    requires
        parts_valid(parts),
    ensures
        is_ascii_chars(parts_text(parts)),
        is_ascii_chars(duration_text(parts)),
    decreases parts.len(),
{
    if parts.len() > 0 {
        let rest = parts.drop_first();
        assert forall|i: int| 0 <= i < rest.len() implies (#[trigger] rest[i]).valid() by {}
        lemma_parts_text_ascii(rest);
        let first = parts[0];
        assert forall|i: int| 0 <= i < first.text().len() implies '\0' <= #[trigger] first.text()[i]
            <= '\u{7f}' by {}
    }
}

/// The seconds of the unit letter that a byte stands for.
fn unit_scale(byte: u8, Ghost(letter): Ghost<char>) -> (scale: Option<u64>)
    requires
        letter as int == byte as int,
    ensures
        scale is Some <==> unit_seconds(letter) is Some,
        scale matches Some(n) ==> n == unit_seconds(letter).unwrap(),
{
    if byte == 89 {
        Some(31536000)
    } else if byte == 77 {
        Some(2592000)
    } else if byte == 68 {
        Some(86400)
    } else if byte == 104 {
        Some(3600)
    } else if byte == 109 {
        Some(60)
    } else if byte == 115 {
        Some(1)
    } else {
        None
    }
}

/// Reads the run of digits that starts at `start`. Returns where the run
/// ends, and its number unless that exceeds 64 bits.
pub(crate) fn scan_number(bytes: &[u8], start: usize, Ghost(text): Ghost<Seq<char>>) -> (found: (
    usize,
    Option<u64>,
))
    requires
        bytes_match(bytes@, text),
        start <= bytes@.len(),
    ensures
        start <= found.0 <= bytes@.len(),
        all_digits(text.subrange(start as int, found.0 as int)),
        found.0 < bytes@.len() ==> !is_digit(text[found.0 as int]),
        found.1 == if decimal_value(text.subrange(start as int, found.0 as int)) <= u64::MAX {
            Some(decimal_value(text.subrange(start as int, found.0 as int)) as u64)
        } else {
            None::<u64>
        },
{
    let mut end: usize = start;
    let mut number: Option<u64> = Some(0);
    while end < bytes.len() && 48 <= bytes[end] && bytes[end] <= 57
        invariant
            bytes_match(bytes@, text),
            start <= end <= bytes@.len(),
            all_digits(text.subrange(start as int, end as int)),
            number == if decimal_value(text.subrange(start as int, end as int)) <= u64::MAX {
                Some(decimal_value(text.subrange(start as int, end as int)) as u64)
            } else {
                None::<u64>
            },
        decreases bytes@.len() - end,
    {
        let digit: u64 = (bytes[end] - 48) as u64;
        proof {
            let before = text.subrange(start as int, end as int);
            let after = text.subrange(start as int, end as int + 1);
            assert(after.drop_last() =~= before);
            assert forall|i: int| 0 <= i < after.len() implies is_digit(#[trigger] after[i]) by {}
        }
        number = match number {
            Some(n) => match n.checked_mul(10) {
                Some(tens) => tens.checked_add(digit),
                None => None,
            },
            None => None,
        };
        end += 1;
    }
    (end, number)
}

/// Decodes the time until a scheduled event, in seconds.
///
/// The literal `0` is zero. Any other text must be a `+` sign followed by one
/// or more pairs of a decimal integer and one of the unit letters `Y`, `M`,
/// `D`, `h`, `m`, `s`, with nothing between or after them; its value is the
/// sum of the integers, each weighted by the seconds of its unit. A text that
/// is not of this form has no value: the state words `running`,
/// `not scheduled`, `frozen` and `pending` among them. Nor has a text whose
/// sum does not fit in 64 bits.
pub fn knot_time_parse(value: &str) -> (seconds: Option<u64>)
    ensures
        seconds == duration_of(value@),
{
    if str_eq(value, "0") {
        proof {
            reveal_strlit("0");
            assert(value@ =~= seq!['0']);
        }
        return Some(0);
    }
    proof {
        reveal_strlit("0");
        assert("0"@ =~= seq!['0']);
    }
    let bytes = match ascii_bytes(value) {
        Some(bytes) => bytes,
        None => {
            proof {
                if duration_of(value@) is Some {
                    lemma_duration_is_ascii(value@);
                }
            }
            return None;
        },
    };
    if bytes.len() == 0 || bytes[0] != 43 {
        proof {
            lemma_unsigned_has_no_duration(value@);
        }
        return None;
    }
    let ghost text = value@;
    let mut at: usize = 1;
    let mut total: Option<u64> = Some(0);
    let ghost mut done: Seq<DurationPart> = Seq::empty();
    proof {
        lemma_duration_by_scan(text);
    }
    while at < bytes.len()
        invariant
            text == value@,
            bytes_match(bytes@, text),
            1 <= at <= bytes@.len(),
            scan_parts(text.skip(1)) == match scan_parts(text.skip(at as int)) {
                Some(rest) => Some(done + rest),
                None => None,
            },
            at > 1 ==> done.len() > 0,
            total == if parts_seconds(done) <= u64::MAX {
                Some(parts_seconds(done) as u64)
            } else {
                None::<u64>
            },
            duration_of(text) == match scan_parts(text.skip(1)) {
                Some(parts) => if parts.len() > 0 && parts_seconds(parts) <= u64::MAX {
                    Some(parts_seconds(parts) as u64)
                } else {
                    None
                },
                None => None,
            },
        decreases bytes@.len() - at,
    {
        let ghost suffix = text.skip(at as int);
        let (end, number) = scan_number(bytes, at, Ghost(text));
        proof {
            let n = end - at;
            assert forall|i: int| 0 <= i < n implies is_digit(#[trigger] suffix[i]) by {}
            lemma_digit_run_is(suffix, n);
        }
        if end == at || end == bytes.len() {
            return None;
        }
        let scale = match unit_scale(bytes[end], Ghost(text[end as int])) {
            Some(scale) => scale,
            None => {
                return None;
            },
        };
        proof {
            let n = end - at;
            let part = DurationPart { digits: suffix.take(n), unit: suffix[n] };
            assert(suffix.take(n) =~= text.subrange(at as int, end as int));
            assert(suffix.skip(n + 1) =~= text.skip(end as int + 1));
            lemma_parts_seconds_push(done, part);
            if decimal_value(part.digits) > u64::MAX {
                assert(decimal_value(part.digits) * scale >= decimal_value(part.digits))
                    by (nonlinear_arith)
                    requires
                        scale >= 1,
                ;
            }
            done = done.push(part);
        }
        total = match (total, number) {
            (Some(sum), Some(n)) => match n.checked_mul(scale) {
                Some(term) => sum.checked_add(term),
                None => None,
            },
            _ => None,
        };
        at = end + 1;
    }
    if at == 1 {
        None
    } else {
        total
    }
}

} // verus!
