//! Text helpers: characters, decimal numbers, trimming, searching and encoding.

use vstd::prelude::*;
use vstd::string::*;
use vstd::utf8::*;

verus! {

// ---------------------------------------------------------------------------
// Standard library functions used on strings
// ---------------------------------------------------------------------------

/// `String::push` appends one character.
pub assume_specification[ String::push ](s: &mut String, c: char)
    ensures
        final(s)@ == old(s)@.push(c),
;

/// `String::pop` removes the last character and returns it, or returns `None`
/// and leaves an empty string as it is.
pub assume_specification[ String::pop ](s: &mut String) -> (r: Option<char>)
    ensures
        old(s)@.len() == 0 ==> r is None && final(s)@ == old(s)@,
        old(s)@.len() > 0 ==> r == Some(old(s)@.last()) && final(s)@ == old(s)@.drop_last(),
;

/// `String::clear` removes all contents.
pub assume_specification[ String::clear ](s: &mut String)
    ensures
        final(s)@ == Seq::<char>::empty(),
;

/// What `String::from_utf8_lossy` makes of a byte sequence.
pub uninterp spec fn utf8_lossy(bytes: Seq<u8>) -> Seq<char>;

/// Calls `String::from_utf8_lossy`. On valid UTF-8 the result is the decoded
/// text; how invalid bytes are replaced is named by `utf8_lossy`.
#[verifier::external_body]
pub(crate) fn lossy_text(bytes: &[u8]) -> (r: String)
    ensures
        r@ == utf8_lossy(bytes@),
        valid_utf8(bytes@) ==> r@ == decode_utf8(bytes@),
{
    String::from_utf8_lossy(bytes).into_owned()
}

/// Calls `std::str::from_utf8`, which succeeds exactly on valid UTF-8 and then
/// gives the decoded text.
#[verifier::external_body]
pub(crate) fn utf8_text(bytes: &[u8]) -> (r: Option<String>)
    ensures
        r is Some <==> valid_utf8(bytes@),
        r matches Some(text) ==> text@ == decode_utf8(bytes@),
{
    std::str::from_utf8(bytes).ok().map(|text| text.to_owned())
}

/// What `str::to_lowercase` makes of a text.
pub uninterp spec fn unicode_lowercase(text: Seq<char>) -> Seq<char>;

/// Calls `str::to_lowercase`, the Unicode lower-case mapping named by
/// `unicode_lowercase`.
#[verifier::external_body]
pub(crate) fn lowercase(text: &str) -> (r: String)
    ensures
        r@ == unicode_lowercase(text@),
{
    text.to_lowercase()
}

// ---------------------------------------------------------------------------
// Characters and plain copies
// ---------------------------------------------------------------------------

/// The characters of a text, as a vector.
pub fn chars_of(text: &str) -> (r: Vec<char>)
    ensures
        r@ == text@,
{
    let mut r: Vec<char> = Vec::new();
    for c in it: text.chars()
        invariant
            r@ == text@.take(it.index() as int),
            it.seq() == text@,
    {
        r.push(c);
        assert(text@.take(it.index() + 1) == text@.take(it.index() as int).push(c));
    }
    assert(text@.take(text@.len() as int) == text@);
    r
}

/// The text made of the characters from `from` up to `to`.
pub fn text_between(chars: &Vec<char>, from: usize, to: usize) -> (r: String)
    requires
        from <= to <= chars@.len(),
    ensures
        r@ == chars@.subrange(from as int, to as int),
{
    let mut r = String::new();
    let mut i: usize = from;
    while i < to
        invariant
            from <= i <= to <= chars@.len(),
            r@ == chars@.subrange(from as int, i as int),
        decreases to - i,
    {
        r.push(chars[i]);
        i = i + 1;
        assert(chars@.subrange(from as int, i as int) == chars@.subrange(
            from as int,
            i - 1,
        ).push(chars@[i - 1]));
    }
    r
}

/// Whether two texts hold the same characters.
pub fn same_text(a: &str, b: &str) -> (r: bool)
    ensures
        r == (a@ == b@),
{
    let left = chars_of(a);
    let right = chars_of(b);
    if left.len() != right.len() {
        return false;
    }
    let mut i: usize = 0;
    while i < left.len()
        invariant
            left@ == a@,
            right@ == b@,
            left@.len() == right@.len(),
            i <= left@.len(),
            forall|j: int| 0 <= j < i ==> left@[j] == right@[j],
        decreases left@.len() - i,
    {
        if left[i] != right[i] {
            assert(a@[i as int] != b@[i as int]);
            return false;
        }
        i = i + 1;
    }
    assert(left@ =~= right@);
    true
}

// ---------------------------------------------------------------------------
// ASCII case and substrings
// ---------------------------------------------------------------------------

/// The ASCII lower-case form of a character; other characters stay as they are.
pub open spec fn ascii_lower(c: char) -> char {
    if 'A' <= c && c <= 'Z' {
        ((c as u8) + 32) as char
    } else {
        c
    }
}

/// A text with every ASCII letter in lower case.
pub open spec fn ascii_lowercase_text(text: Seq<char>) -> Seq<char> {
    text.map_values(|c: char| ascii_lower(c))
}

/// Lower-cases the ASCII letters of a text.
pub fn ascii_lowercase(text: &str) -> (r: String)
    ensures
        r@ == ascii_lowercase_text(text@),
{
    let mut r = String::new();
    for c in it: text.chars()
        invariant
            it.seq() == text@,
            r@ == ascii_lowercase_text(text@.take(it.index() as int)),
    {
        let lower = if 'A' <= c && c <= 'Z' {
            ((c as u8) + 32) as char
        } else {
            c
        };
        r.push(lower);
        assert(r@ =~= ascii_lowercase_text(text@.take(it.index() + 1)));
    }
    assert(text@.take(text@.len() as int) == text@);
    r
}

/// `needle` occurs in `text` at position `at`.
pub open spec fn occurs_at(text: Seq<char>, needle: Seq<char>, at: int) -> bool {
    &&& 0 <= at
    &&& at + needle.len() <= text.len()
    &&& text.subrange(at, at + needle.len()) == needle
}

/// `needle` occurs somewhere in `text`.
pub open spec fn has_substring(text: Seq<char>, needle: Seq<char>) -> bool {
    exists|at: int| occurs_at(text, needle, at)
}

/// Whether `needle` occurs in `text`; the empty text occurs everywhere.
pub fn contains_text(text: &str, needle: &str) -> (r: bool)
    ensures
        r == has_substring(text@, needle@),
{
    let hay = chars_of(text);
    let pin = chars_of(needle);
    if pin.len() > hay.len() {
        return false;
    }
    let total: usize = hay.len();
    let last: usize = total - pin.len();
    let mut at: usize = 0;
    while at <= last
        invariant
            hay@ == text@,
            pin@ == needle@,
            total == hay@.len(),
            last + pin@.len() == total,
            at <= last + 1,
            forall|k: int| 0 <= k < at ==> !occurs_at(hay@, pin@, k),
        decreases last + 1 - at,
    {
        let mut i: usize = 0;
        while i < pin.len() && hay[at + i] == pin[i]
            invariant
                at <= last,
                total == hay@.len(),
                last + pin@.len() == total,
                i <= pin@.len(),
                forall|j: int| 0 <= j < i ==> hay@[at + j] == pin@[j],
            decreases pin@.len() - i,
        {
            i = i + 1;
        }
        if i == pin.len() {
            assert(hay@.subrange(at as int, at + pin@.len()) =~= pin@);
            assert(occurs_at(hay@, pin@, at as int));
            return true;
        }
        assert(!occurs_at(hay@, pin@, at as int)) by {
            if occurs_at(hay@, pin@, at as int) {
                assert(hay@.subrange(at as int, at + pin@.len())[i as int] == pin@[i as int]);
            }
        }
        if at == last {
            return false;
        }
        at = at + 1;
    }
    false
}

// ---------------------------------------------------------------------------
// Decimal numbers
// ---------------------------------------------------------------------------

/// The decimal digit of a number below ten.
pub open spec fn digit_char(d: nat) -> char {
    (48 + d) as char
}

/// The decimal notation of a number, without leading zeros.
pub open spec fn decimal(n: nat) -> Seq<char>
    decreases n,
{
    if n < 10 {
        seq![digit_char(n)]
    } else {
        decimal(n / 10).push(digit_char(n % 10))
    }
}

/// Writes a number in decimal.
pub fn long_decimal_text(n: u64) -> (r: String)
    ensures
        r@ == decimal(n as nat),
    decreases n,
{
    if n < 10 {
        let mut r = String::new();
        r.push((48 + n as u8) as char);
        assert(r@ =~= decimal(n as nat));
        r
    } else {
        let mut r = long_decimal_text(n / 10);
        r.push((48 + (n % 10) as u8) as char);
        r
    }
}

/// Writes a number in decimal.
pub fn decimal_text(n: usize) -> (r: String)
    ensures
        r@ == decimal(n as nat),
{
    long_decimal_text(n as u64)
}

/// The number of digits of a line count; a count of zero is written as one digit.
pub open spec fn digits_of(n: nat) -> nat {
    decimal(if n == 0 { 1 } else { n }).len()
}

pub proof fn lemma_decimal_length(n: nat)
    ensures
        1 <= decimal(n).len(),
        decimal(n).len() <= n + 1,
        n >= 1 ==> decimal(n).len() <= n,
    decreases n,
{
    if n >= 10 {
        lemma_decimal_length(n / 10);
    }
}

/// The width of the widest line number of a text with `value` lines.
pub fn decimal_width(value: usize) -> (r: usize)
    ensures
        r == digits_of(value as nat),
        1 <= r,
        value >= 1 ==> r <= value,
{
    let shown: usize = if value == 0 { 1 } else { value };
    let mut rest: usize = shown;
    let mut r: usize = 1;
    proof {
        lemma_decimal_length(shown as nat);
    }
    while rest >= 10
        invariant
            decimal(shown as nat).len() == decimal(rest as nat).len() + r - 1,
            r <= shown,
            shown <= usize::MAX,
            decimal(shown as nat).len() <= shown,
        decreases rest,
    {
        proof {
            lemma_decimal_length((rest / 10) as nat);
        }
        rest = rest / 10;
        r = r + 1;
    }
    r
}

/// A text of `n` spaces.
pub open spec fn blanks(n: nat) -> Seq<char> {
    Seq::new(n, |i: int| ' ')
}

/// A text of `n` spaces.
pub fn spaces(n: usize) -> (r: String)
    ensures
        r@ == blanks(n as nat),
{
    let mut r = String::new();
    let mut i: usize = 0;
    while i < n
        invariant
            i <= n,
            r@ == blanks(i as nat),
        decreases n - i,
    {
        r.push(' ');
        i = i + 1;
        assert(r@ =~= blanks(i as nat));
    }
    assert(r@ =~= blanks(n as nat));
    r
}

/// A number in decimal, with spaces in front up to the given width.
pub open spec fn right_aligned(n: nat, width: nat) -> Seq<char> {
    let digits = decimal(n);
    blanks(if digits.len() < width { (width - digits.len()) as nat } else { 0 }) + digits
}

/// Writes a number in decimal, filled up with leading spaces to `width`.
pub fn aligned_number(n: usize, width: usize) -> (r: String)
    ensures
        r@ == right_aligned(n as nat, width as nat),
{
    let digits = decimal_text(n);
    let length: usize = digits.as_str().unicode_len();
    let mut r = spaces(width.saturating_sub(length));
    r.append(digits.as_str());
    r
}

/// Why a text is not a number of the wanted type.
#[derive(Clone, Copy, Debug, PartialEq, Eq, Structural)]
pub enum NumberError {
    Empty,
    InvalidDigit,
    TooLarge,
}

impl NumberError {
    /// What is wrong, in words.
    pub open spec fn text(self) -> Seq<char> {
        match self {
            NumberError::Empty => "cannot parse integer from empty string"@,
            NumberError::InvalidDigit => "invalid digit found in string"@,
            NumberError::TooLarge => "number too large to fit in target type"@,
        }
    }

    pub fn message(self) -> (r: String)
        ensures
            r@ == self.text(),
    {
        match self {
            NumberError::Empty => "cannot parse integer from empty string".to_owned(),
            NumberError::InvalidDigit => "invalid digit found in string".to_owned(),
            NumberError::TooLarge => "number too large to fit in target type".to_owned(),
        }
    }
}

/// The value of a run of decimal digits, read from the left; the first digit
/// that cannot be taken decides the error.
pub open spec fn digits_value(digits: Seq<char>, limit: nat) -> Result<nat, NumberError>
    decreases digits.len(),
{
    if digits.len() == 0 {
        Ok(0)
    } else {
        match digits_value(digits.drop_last(), limit) {
            Err(error) => Err(error),
            Ok(value) => {
                let c = digits.last();
                if !('0' <= c && c <= '9') {
                    Err(NumberError::InvalidDigit)
                } else if value * 10 + (c as nat - 48) > limit {
                    Err(NumberError::TooLarge)
                } else {
                    Ok((value * 10 + (c as nat - 48)) as nat)
                }
            },
        }
    }
}

/// An unsigned decimal number with an optional plus sign.
pub open spec fn number_value(text: Seq<char>, limit: nat) -> Result<nat, NumberError> {
    if text.len() == 0 {
        Err(NumberError::Empty)
    } else if text.len() == 1 && text[0] == '+' {
        Err(NumberError::InvalidDigit)
    } else if text[0] == '+' {
        digits_value(text.skip(1), limit)
    } else {
        digits_value(text, limit)
    }
}

proof fn lemma_digits_error_stays(digits: Seq<char>, limit: nat, n: int)
    requires
        0 <= n <= digits.len(),
        digits_value(digits.take(n), limit) is Err,
    ensures
        digits_value(digits, limit) == digits_value(digits.take(n), limit),
    decreases digits.len(),
{
    if n < digits.len() {
        assert(digits.drop_last().take(n) =~= digits.take(n));
        lemma_digits_error_stays(digits.drop_last(), limit, n);
    } else {
        assert(digits.take(n) =~= digits);
    }
}

/// Reads an unsigned decimal number that is at most `limit`.
pub fn parse_number(text: &str, limit: u64) -> (r: Result<u64, NumberError>)
    ensures
        match number_value(text@, limit as nat) {
            Ok(value) => r == Ok::<u64, NumberError>(value as u64) && value <= limit,
            Err(error) => r == Err::<u64, NumberError>(error),
        },
{
    let chars = chars_of(text);
    if chars.len() == 0 {
        return Err(NumberError::Empty);
    }
    if chars.len() == 1 && chars[0] == '+' {
        return Err(NumberError::InvalidDigit);
    }
    let from: usize = if chars[0] == '+' { 1 } else { 0 };
    let ghost digits = chars@.skip(from as int);
    assert(chars@.skip(0) =~= chars@);
    let mut value: u64 = 0;
    let mut i: usize = from;
    while i < chars.len()
        invariant
            from <= i <= chars@.len(),
            chars@ == text@,
            digits == chars@.skip(from as int),
            digits_value(digits, limit as nat) == number_value(text@, limit as nat),
            digits_value(digits.take(i - from), limit as nat) == Ok::<nat, NumberError>(
                value as nat,
            ),
            value <= limit,
        decreases chars@.len() - i,
    {
        let c = chars[i];
        let ghost prefix = digits.take(i - from + 1);
        assert(prefix.drop_last() =~= digits.take(i - from));
        assert(prefix.last() == c);
        if c < '0' || c > '9' {
            proof {
                lemma_digits_error_stays(digits, limit as nat, i - from + 1);
            }
            return Err(NumberError::InvalidDigit);
        }
        let digit: u64 = (c as u64) - 48;
        let next: u128 = (value as u128) * 10 + (digit as u128);
        if next > limit as u128 {
            proof {
                lemma_digits_error_stays(digits, limit as nat, i - from + 1);
            }
            return Err(NumberError::TooLarge);
        }
        value = next as u64;
        i = i + 1;
    }
    assert(digits.take(i - from) =~= digits);
    Ok(value)
}

} // verus!
