//! Display widths of characters and texts.

use crate::numbers;
use crate::text::chars_of;
use unicode_width::{UnicodeWidthChar, UnicodeWidthStr};
use vstd::prelude::*;
use vstd::string::*;

verus! {

/// The columns that `unicode_width` gives a character; control characters have none.
pub uninterp spec fn char_columns(c: char) -> Option<usize>;

/// Calls `unicode_width::UnicodeWidthChar::width`. Printable ASCII characters take
/// one column, and the control characters, and only they, have no width; for other
/// characters the result is the crate's table, named by `char_columns`.
#[verifier::external_body]
pub(crate) fn char_width(c: char) -> (r: Option<usize>)
    ensures
        r == char_columns(c),
        ' ' <= c && c <= '~' ==> r == Some(1usize),
        r is None <==> c < ' ' || ('\u{7f}' <= c && c < '\u{a0}'),
{
    UnicodeWidthChar::width(c)
}

/// The columns that `unicode_width` gives a text, which may differ from the sum
/// over its characters.
pub uninterp spec fn text_columns(text: Seq<char>) -> usize;

/// Calls `unicode_width::UnicodeWidthStr::width`, whose result `text_columns` names.
#[verifier::external_body]
pub(crate) fn text_width(text: &str) -> (r: usize)
    ensures
        r == text_columns(text@),
{
    UnicodeWidthStr::width(text)
}

/// The columns of a character; none for a control character.
pub open spec fn columns(c: char) -> usize {
    match char_columns(c) {
        Some(width) => width,
        None => 0,
    }
}

/// The cells that a character covers for selection: at least one.
pub open spec fn cells(c: char) -> usize {
    numbers::greater(columns(c), 1)
}

/// The columns of the characters of a text, one after the other.
pub open spec fn total_columns(text: Seq<char>) -> usize
    decreases text.len(),
{
    if text.len() == 0 {
        0
    } else {
        numbers::sat_add(total_columns(text.drop_last()), columns(text.last()))
    }
}

/// The columns of a character.
pub fn columns_of(c: char) -> (r: usize)
    ensures
        r == columns(c),
{
    match char_width(c) {
        Some(width) => width,
        None => 0,
    }
}

/// The columns of the characters of a text.
pub fn total_columns_of(text: &str) -> (r: usize)
    ensures
        r == total_columns(text@),
{
    let chars = chars_of(text);
    let mut total: usize = 0;
    let mut i: usize = 0;
    assert(chars@.take(0) =~= Seq::empty());
    while i < chars.len()
        invariant
            i <= chars@.len(),
            total == total_columns(chars@.take(i as int)),
        decreases chars@.len() - i,
    {
        assert(chars@.take(i + 1).drop_last() =~= chars@.take(i as int));
        total = total.saturating_add(columns_of(chars[i]));
        i = i + 1;
    }
    assert(chars@.take(i as int) =~= chars@);
    total
}

/// How many characters of a label come before an ellipsis: as many as take fewer
/// columns than there are.
pub open spec fn kept_count(label: Seq<char>, max_width: usize, width: usize) -> nat
    decreases label.len(),
{
    if label.len() == 0 || numbers::sat_add(width, columns(label[0])) >= max_width {
        0
    } else {
        1 + kept_count(label.skip(1), max_width, numbers::sat_add(width, columns(label[0])))
    }
}

/// A label cut to a width: unchanged where it fits, else its beginning and an ellipsis.
pub open spec fn truncated(label: Seq<char>, max_width: usize) -> Seq<char> {
    if total_columns(label) <= max_width {
        label
    } else if max_width <= 1 {
        "…"@
    } else {
        label.take(kept_count(label, max_width, 0) as int).push('…')
    }
}

/// Cuts a label to a width.
pub fn truncate_label(label: &str, max_width: usize) -> (r: String)
    ensures
        r@ == truncated(label@, max_width),
{
    if total_columns_of(label) <= max_width {
        return label.to_owned();
    }
    if max_width <= 1 {
        return "…".to_owned();
    }
    let chars = chars_of(label);
    let mut output = String::new();
    let mut width: usize = 0;
    let mut i: usize = 0;
    assert(chars@.skip(0) =~= chars@);
    assert(chars@.take(0) =~= output@);
    while i < chars.len() && width.saturating_add(columns_of(chars[i])) < max_width
        invariant
            i <= chars@.len(),
            output@ == chars@.take(i as int),
            kept_count(chars@, max_width, 0) == i + kept_count(
                chars@.skip(i as int),
                max_width,
                width,
            ),
        decreases chars@.len() - i,
    {
        let c = chars[i];
        assert(chars@.skip(i as int).skip(1) =~= chars@.skip(i + 1));
        output.push(c);
        assert(chars@.take(i + 1) =~= chars@.take(i as int).push(c));
        width = width.saturating_add(columns_of(c));
        i = i + 1;
    }
    output.push('…');
    output
}

} // verus!
