//! What holds of texts that are cut, searched, written and read as numbers.

use crate::lines;
use crate::numbers;
use crate::text;
use crate::text::NumberError;
use vstd::prelude::*;

verus! {

/// No character of a text is a space.
pub open spec fn unspaced(s: Seq<char>) -> bool {
    forall|i: int| 0 <= i < s.len() ==> !lines::is_space(#[trigger] s[i])
}

/// Every character of a text is a space.
pub open spec fn blank(s: Seq<char>) -> bool {
    forall|i: int| 0 <= i < s.len() ==> lines::is_space(#[trigger] s[i])
}

proof fn lemma_word_length(word: Seq<char>, rest: Seq<char>)
    requires
        unspaced(word),
        rest.len() == 0 || lines::is_space(rest[0]),
    ensures
        lines::word_length(word + rest) == word.len(),
    decreases word.len(),
{
    if word.len() == 0 {
        assert(word + rest =~= rest);
    } else {
        assert((word + rest)[0] == word[0]);
        assert((word + rest).skip(1) =~= word.skip(1) + rest);
        lemma_word_length(word.skip(1), rest);
    }
}

/// The first word of a text is what stands before its first space, and the others are the
/// words behind it; a space before the first word changes nothing.
pub proof fn words_are_cut_at_spaces(word: Seq<char>, rest: Seq<char>, space: char)
    requires
        unspaced(word),
        rest.len() == 0 || lines::is_space(rest[0]),
        lines::is_space(space),
    ensures
        word.len() > 0 ==> lines::words(word + rest) == seq![word] + lines::words(rest),
        lines::words(seq![space] + rest) == lines::words(rest),
        lines::words(Seq::<char>::empty()).len() == 0,
{
    if word.len() > 0 {
        let s = word + rest;
        lemma_word_length(word, rest);
        assert(s[0] == word[0]);
        assert(s.take(word.len() as int) =~= word);
        assert(s.skip(word.len() as int) =~= rest);
    }
    assert((seq![space] + rest).skip(1) =~= rest);
}

/// The words of a text hold no space and are not empty.
pub proof fn words_hold_no_space(s: Seq<char>)
    ensures
        forall|i: int|
            0 <= i < lines::words(s).len() ==> (#[trigger] lines::words(s)[i]).len() > 0
                && unspaced(lines::words(s)[i]),
    decreases s.len(),
{
    if s.len() > 0 {
        if lines::is_space(s[0]) {
            words_hold_no_space(s.skip(1));
            assert(lines::words(s) == lines::words(s.skip(1)));
        } else {
            let n = lines::word_length(s);
            lines::lemma_word_length_bounded(s);
            lemma_word_unspaced(s);
            words_hold_no_space(s.skip(n as int));
            let word = s.take(n as int);
            let rest = lines::words(s.skip(n as int));
            assert(lines::words(s) =~= seq![word] + rest);
            assert forall|i: int| 0 <= i < lines::words(s).len() implies (
            #[trigger] lines::words(s)[i]).len() > 0 && unspaced(lines::words(s)[i]) by {
                if i == 0 {
                    assert(lines::words(s)[0] == word);
                } else {
                    assert(lines::words(s)[i] == rest[i - 1]);
                }
            }
        }
    }
}

proof fn lemma_word_unspaced(s: Seq<char>)
    ensures
        lines::word_length(s) <= s.len(),
        unspaced(s.take(lines::word_length(s) as int)),
    decreases s.len(),
{
    lines::lemma_word_length_bounded(s);
    if s.len() > 0 && !lines::is_space(s[0]) {
        lemma_word_unspaced(s.skip(1));
        let n = lines::word_length(s) as int;
        assert forall|i: int| 0 <= i < n implies !lines::is_space(#[trigger] s.take(n)[i]) by {
            if i > 0 {
                assert(s.skip(1).take(n - 1)[i - 1] == s[i]);
            }
        }
    }
}

/// Trimming takes away the spaces before and behind a text and nothing else.
pub proof fn trimming_takes_the_outer_spaces(before: Seq<char>, s: Seq<char>, behind: Seq<char>)
    requires
        blank(before),
        blank(behind),
        s.len() > 0 ==> !lines::is_space(s[0]) && !lines::is_space(s.last()),
    ensures
        lines::trimmed(before + s + behind) == s,
    decreases before.len() + behind.len(),
{
    if before.len() > 0 {
        trimming_takes_the_outer_spaces(before.skip(1), s, behind);
        let whole = before + s + behind;
        assert(whole[0] == before[0]);
        assert(whole.skip(1) =~= before.skip(1) + s + behind);
    } else if behind.len() > 0 {
        let whole = before + s + behind;
        if s.len() > 0 {
            assert(whole[0] == s[0]);
            lemma_trimmed_end(s, behind);
            assert(whole =~= s + behind);
        } else {
            assert(whole =~= behind);
            lemma_blank_trimmed(behind);
            assert(lines::trimmed(whole) =~= s);
        }
    } else {
        assert(before + s + behind =~= s);
    }
}

proof fn lemma_trimmed_end(s: Seq<char>, behind: Seq<char>)
    requires
        blank(behind),
        s.len() > 0,
        !lines::is_space(s.last()),
    ensures
        lines::trimmed_end(s + behind) == s,
    decreases behind.len(),
{
    if behind.len() == 0 {
        assert(s + behind =~= s);
    } else {
        assert((s + behind).last() == behind.last());
        assert((s + behind).drop_last() =~= s + behind.drop_last());
        lemma_trimmed_end(s, behind.drop_last());
    }
}

proof fn lemma_blank_trimmed(s: Seq<char>)
    requires
        blank(s),
    ensures
        lines::trimmed_start(s).len() == 0,
        lines::trimmed(s).len() == 0,
    decreases s.len(),
{
    if s.len() > 0 {
        lemma_blank_trimmed(s.skip(1));
    }
}

/// A text begins with another if and only if it is the other with something behind it.
pub proof fn prefixes_are_what_texts_begin_with(s: Seq<char>, prefix: Seq<char>, rest: Seq<char>)
    ensures
        lines::starts_with(prefix + rest, prefix),
        lines::starts_with(s, prefix) ==> s == prefix + s.skip(prefix.len() as int),
{
    assert((prefix + rest).take(prefix.len() as int) =~= prefix);
    if lines::starts_with(s, prefix) {
        assert(s =~= s.take(prefix.len() as int) + s.skip(prefix.len() as int));
    }
}

/// A text holds another if and only if it is the other with something before and behind it.
pub proof fn texts_hold_what_stands_in_them(s: Seq<char>, needle: Seq<char>)
    ensures
        text::has_substring(s, needle) <==> exists|before: Seq<char>, behind: Seq<char>|
            s == #[trigger] (before + needle + behind),
        text::has_substring(s, Seq::empty()),
        text::has_substring(s, s),
{
    assert(s.subrange(0, 0) =~= Seq::<char>::empty());
    assert(text::occurs_at(s, Seq::empty(), 0));
    assert(s.subrange(0, s.len() as int) =~= s);
    assert(text::occurs_at(s, s, 0));
    if text::has_substring(s, needle) {
        let at = choose|at: int| text::occurs_at(s, needle, at);
        let before = s.take(at);
        let behind = s.skip(at + needle.len());
        assert(s =~= before + s.subrange(at, at + needle.len()) + behind);
        assert(s == before + needle + behind);
    }
    if exists|before: Seq<char>, behind: Seq<char>| s == #[trigger] (before + needle + behind) {
        let (before, behind) = choose|before: Seq<char>, behind: Seq<char>|
            s == #[trigger] (before + needle + behind);
        assert(s.subrange(before.len() as int, (before.len() + needle.len()) as int) =~= needle);
        assert(text::occurs_at(s, needle, before.len() as int));
    }
}

/// Of the characters of a text only `A` to `Z` are turned, each into its small letter.
pub proof fn only_capitals_are_lowered(s: Seq<char>, i: int)
    requires
        0 <= i < s.len(),
    ensures
        text::ascii_lowercase_text(s).len() == s.len(),
        !(65 <= s[i] as int <= 90) ==> text::ascii_lowercase_text(s)[i] == s[i],
        65 <= s[i] as int <= 90 ==> text::ascii_lowercase_text(s)[i] as int == s[i] as int + 32,
        text::ascii_lowercase_text(text::ascii_lowercase_text(s)) == text::ascii_lowercase_text(s),
{
    let low = text::ascii_lowercase_text(s);
    assert forall|k: int| 0 <= k < s.len() implies text::ascii_lowercase_text(low)[k]
        == #[trigger] low[k] by {
        let c = s[k];
        if 'A' <= c && c <= 'Z' {
            assert(((c as u8) + 32) as char as int == c as int + 32);
        }
    }
    assert(text::ascii_lowercase_text(low) =~= low);
}

// ---------------------------------------------------------------------------
// Numbers
// ---------------------------------------------------------------------------

/// Every character of a text is a digit.
pub open spec fn digits_only(s: Seq<char>) -> bool {
    forall|i: int| 0 <= i < s.len() ==> '0' <= #[trigger] s[i] && s[i] <= '9'
}

/// A number is written in digits, without a zero in front of others.
pub proof fn numbers_are_written_in_digits(n: nat)
    ensures
        digits_only(text::decimal(n)),
        text::decimal(n).len() > 0,
        n > 0 ==> text::decimal(n)[0] != '0',
    decreases n,
{
    text::lemma_decimal_length(n);
    if n >= 10 {
        numbers_are_written_in_digits(n / 10);
        assert(n % 10 < 10);
        let front = text::decimal(n / 10);
        assert forall|i: int| 0 <= i < text::decimal(n).len() implies '0' <= #[trigger] text::decimal(
            n,
        )[i] && text::decimal(n)[i] <= '9' by {
            if i < front.len() {
                assert(text::decimal(n)[i] == front[i]);
            }
        }
        assert(text::decimal(n)[0] == front[0]);
    }
}

proof fn lemma_digits_read_back(n: nat, limit: nat)
    ensures
        text::digits_value(text::decimal(n), limit) == if n <= limit {
            Ok::<nat, NumberError>(n)
        } else {
            Err(NumberError::TooLarge)
        },
    decreases n,
{
    let s = text::decimal(n);
    if n < 10 {
        assert(s.drop_last() =~= Seq::empty());
        assert(text::digits_value(s.drop_last(), limit) == Ok::<nat, NumberError>(0));
    } else {
        lemma_digits_read_back(n / 10, limit);
        assert(s.drop_last() =~= text::decimal(n / 10));
        assert(n == (n / 10) * 10 + n % 10);
        assert(s.last() == text::digit_char(n % 10));
        assert(n % 10 < 10);
    }
}

/// A number that was written is read back, with or without a plus sign in front of it, as
/// long as it is within the limit.
pub proof fn written_numbers_are_read_back(n: nat, limit: nat)
    ensures
        ({
            let read = if n <= limit {
                Ok::<nat, NumberError>(n)
            } else {
                Err(NumberError::TooLarge)
            };
            &&& text::number_value(text::decimal(n), limit) == read
            &&& text::number_value(seq!['+'] + text::decimal(n), limit) == read
        }),
{
    lemma_digits_read_back(n, limit);
    numbers_are_written_in_digits(n);
    let s = text::decimal(n);
    assert(s[0] != '+');
    let plus = seq!['+'] + s;
    assert(plus.skip(1) =~= s);
    assert(plus[0] == '+');
}

/// Two numbers are written alike only if they are the same.
pub proof fn numbers_are_told_apart(a: nat, b: nat)
    requires
        text::decimal(a) == text::decimal(b),
    ensures
        a == b,
{
    written_numbers_are_read_back(a, a + b);
    written_numbers_are_read_back(b, a + b);
}

proof fn lemma_read_digits(s: Seq<char>, limit: nat)
    ensures
        text::digits_value(s, limit) is Ok ==> digits_only(s) && text::digits_value(s, limit)->Ok_0
            <= limit,
        digits_only(s) ==> text::digits_value(s, limit) != Err::<nat, NumberError>(
            NumberError::InvalidDigit,
        ),
    decreases s.len(),
{
    if s.len() > 0 {
        lemma_read_digits(s.drop_last(), limit);
        if digits_only(s) {
            assert(digits_only(s.drop_last()));
            assert('0' <= s[s.len() - 1] && s[s.len() - 1] <= '9');
        }
        if text::digits_value(s, limit) is Ok {
            assert forall|i: int| 0 <= i < s.len() implies '0' <= #[trigger] s[i] && s[i]
                <= '9' by {
                if i < s.len() - 1 {
                    assert(s.drop_last()[i] == s[i]);
                }
            }
        }
    }
}

/// Only digits, with or without a plus sign in front of them, are read as a number, and no
/// number above the limit is read.
pub proof fn only_digits_are_read(s: Seq<char>, limit: nat)
    ensures
        text::number_value(s, limit) matches Ok(n) ==> {
            &&& n <= limit
            &&& s.len() > 0
            &&& digits_only(s) || (s.len() > 1 && s[0] == '+' && digits_only(s.skip(1)))
        },
        s.len() > 0 && digits_only(s) ==> text::number_value(s, limit) != Err::<nat, NumberError>(
            NumberError::InvalidDigit,
        ),
        s.len() == 0 ==> text::number_value(s, limit) == Err::<nat, NumberError>(
            NumberError::Empty,
        ),
{
    lemma_read_digits(s, limit);
    if s.len() > 0 {
        lemma_read_digits(s.skip(1), limit);
    }
}

/// A number is set at the right of its cell behind blanks, and never cut.
pub proof fn numbers_are_set_at_the_right(n: nat, width: nat)
    ensures
        ({
            let cell = text::right_aligned(n, width);
            let digits = text::decimal(n);
            &&& cell.len() >= width && cell.len() >= digits.len()
            &&& cell.len() == width || cell.len() == digits.len()
            &&& cell.skip(cell.len() - digits.len()) == digits
            &&& forall|i: int| 0 <= i < cell.len() - digits.len() ==> #[trigger] cell[i] == ' '
        }),
{
    let cell = text::right_aligned(n, width);
    let digits = text::decimal(n);
    assert(cell.skip(cell.len() - digits.len()) =~= digits);
}

/// Sums and products stop at the greatest number, differences at zero.
pub proof fn counts_stop_at_their_limits(a: usize, b: usize, c: u16, d: u16, n: u64)
    ensures
        numbers::sat_add(a, b) == a + b || (a + b > usize::MAX && numbers::sat_add(a, b)
            == usize::MAX),
        numbers::sat_sub(a, b) == a - b || (a < b && numbers::sat_sub(a, b) == 0),
        numbers::sat_mul(a, b) == a * b || (a * b > usize::MAX && numbers::sat_mul(a, b)
            == usize::MAX),
        numbers::sat_add16(c, d) == c + d || (c + d > u16::MAX && numbers::sat_add16(c, d)
            == u16::MAX),
        numbers::sat_sub16(c, d) == c - d || (c < d && numbers::sat_sub16(c, d) == 0),
        numbers::next_of(n) == n + 1 || (n == u64::MAX && numbers::next_of(n) == n),
        numbers::clipped16(a) == a || (a > u16::MAX && numbers::clipped16(a) == u16::MAX),
{
}

/// The lesser and the greater of two numbers are the two, in order; a step forth and back
/// ends where it began unless it meets a limit.
pub proof fn numbers_are_ordered(a: usize, b: usize, delta: int)
    ensures
        numbers::lesser(a, b) <= a && numbers::lesser(a, b) <= b,
        numbers::greater(a, b) >= a && numbers::greater(a, b) >= b,
        numbers::lesser(a, b) + numbers::greater(a, b) == a + b,
        0 <= a + delta <= usize::MAX ==> numbers::stepped(a, delta) == a + delta,
        a + delta < 0 ==> numbers::stepped(a, delta) == 0,
        a + delta > usize::MAX ==> numbers::stepped(a, delta) == usize::MAX,
{
}

} // verus!
