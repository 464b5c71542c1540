//! Metric names: how the label of a field, as the daemon prints it, becomes
//! a name that is safe to export.

use vstd::prelude::*;
use vstd::utf8::is_ascii_chars;
use crate::text::{lowercase, lowercase_text, push_char};

verus! {

/// The lower-case form of an ASCII letter; any other character is kept.
pub open spec fn ascii_lower(c: char) -> char {
    if 'A' <= c <= 'Z' {
        ((c as u8 + 32) as u8) as char
    } else {
        c
    }
}

/// The lower-case form of a text. A text of ASCII characters is lowered
/// letter by letter; for any other text the standard library decides.
pub open spec fn lowered(text: Seq<char>) -> Seq<char> {
    if is_ascii_chars(text) {
        Seq::new(text.len(), |i: int| ascii_lower(text[i]))
    } else {
        lowercase_text(text)
    }
}

/// Whether a character separates the words of a label.
pub open spec fn is_separator(c: char) -> bool {
    c == ' ' || c == '/' || c == '-'
}

/// A text with an underscore for each separator.
pub open spec fn underscored(text: Seq<char>) -> Seq<char> {
    Seq::new(text.len(), |i: int| if is_separator(text[i]) { '_' } else { text[i] })
}

/// A text with an underscore for each space and slash, and without its
/// hyphens.
pub open spec fn compacted(text: Seq<char>) -> Seq<char>
    decreases text.len(),
{
    if text.len() == 0 {
        Seq::empty()
    } else if text.last() == '-' {
        compacted(text.drop_last())
    } else if text.last() == ' ' || text.last() == '/' {
        compacted(text.drop_last()).push('_')
    } else {
        compacted(text.drop_last()).push(text.last())
    }
}

/// The metric name of a label: lower case, with an underscore for each
/// space, slash and hyphen.
pub open spec fn normalized(label: Seq<char>) -> Seq<char> {
    underscored(lowered(label))
}

/// The compact metric name of a label: lower case, with an underscore for
/// each space and slash, and without hyphens.
pub open spec fn normalized_name(label: Seq<char>) -> Seq<char> {
    compacted(lowered(label))
}

fn lower_char(c: char) -> (lower: char)
    ensures
        lower == ascii_lower(c),
{
    if 'A' <= c && c <= 'Z' {
        (c as u8 + 32) as char
    } else {
        c
    }
}

/// The lower-case form of a text.
pub fn lower(text: &str) -> (out: String)
    ensures
        out@ == lowered(text@),
{
    if !text.is_ascii() {
        return lowercase(text);
    }
    let mut out = String::new();
    for c in it: text.chars()
        invariant
            it.seq() == text@,
            out@ == Seq::new(it.index() as nat, |i: int| ascii_lower(text@[i])),
    {
        push_char(&mut out, lower_char(c));
    }
    out
}

/// Writes an underscore for each space, slash and hyphen of a text.
pub fn underscore(text: &str) -> (out: String)
    ensures
        out@ == underscored(text@),
{
    let mut out = String::new();
    for c in it: text.chars()
        invariant
            it.seq() == text@,
            out@ == underscored(text@.take(it.index() as int)),
    {
        if c == ' ' || c == '/' || c == '-' {
            push_char(&mut out, '_');
        } else {
            push_char(&mut out, c);
        }
    }
    out
}

/// Writes an underscore for each space and slash of a text, and leaves its
/// hyphens out.
pub fn compact(text: &str) -> (out: String)
    ensures
        out@ == compacted(text@),
{
    let mut out = String::new();
    for c in it: text.chars()
        invariant
            it.seq() == text@,
            out@ == compacted(text@.take(it.index() as int)),
    {
        assert(text@.take(it.index() as int + 1).drop_last() =~= text@.take(it.index() as int));
        if c == ' ' || c == '/' {
            push_char(&mut out, '_');
        } else if c != '-' {
            push_char(&mut out, c);
        }
    }
    assert(text@.take(text@.len() as int) =~= text@);
    out
}

/// Derives the name of a metric from the label of a field: the label in
/// lower case, with an underscore for each space, slash and hyphen.
pub fn normalize(key: &str) -> (name: String)
    ensures
        name@ == normalized(key@),
{
    let lower = lower(key);
    underscore(lower.as_str())
}

/// Derives the compact name of a metric from the label of a field: the
/// label in lower case, with an underscore for each space and slash, and
/// without hyphens, so that `re-sign` becomes `resign`.
pub fn normalize_name(name: &str) -> (metric: String)
    ensures
        metric@ == normalized_name(name@),
{
    let lower = lower(name);
    compact(lower.as_str())
}

} // verus!
