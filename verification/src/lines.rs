//! Cutting texts and byte strings into fields, words and lines.

use crate::text::{chars_of, text_between};
use vstd::prelude::*;
use vstd::string::*;

verus! {

/// A text element by element view of a vector of texts.
pub open spec fn texts(v: Seq<String>) -> Seq<Seq<char>> {
    v.map_values(|s: String| s@)
}

/// An element by element view of a vector of byte strings.
pub open spec fn byte_strings(v: Seq<Vec<u8>>) -> Seq<Seq<u8>> {
    v.map_values(|s: Vec<u8>| s@)
}

// ---------------------------------------------------------------------------
// Fields between separators
// ---------------------------------------------------------------------------

/// The fields between separators: one more than there are separators.
pub open spec fn fields<T>(s: Seq<T>, separator: T) -> Seq<Seq<T>>
    decreases s.len(),
{
    if s.len() == 0 {
        seq![Seq::empty()]
    } else {
        let before = fields(s.drop_last(), separator);
        if s.last() == separator {
            before.push(Seq::empty())
        } else {
            before.drop_last().push(before.last().push(s.last()))
        }
    }
}

pub proof fn lemma_fields_nonempty<T>(s: Seq<T>, separator: T)
    ensures
        fields(s, separator).len() >= 1,
    decreases s.len(),
{
    if s.len() > 0 {
        lemma_fields_nonempty(s.drop_last(), separator);
    }
}

/// What stands on both sides of a separator is cut on its own.
pub proof fn lemma_fields_around<T>(a: Seq<T>, b: Seq<T>, separator: T)
    ensures
        fields(a.push(separator) + b, separator) == fields(a, separator) + fields(b, separator),
    decreases b.len(),
{
    let whole = a.push(separator) + b;
    if b.len() == 0 {
        assert(whole =~= a.push(separator));
        assert(a.push(separator).drop_last() =~= a);
        assert(fields(a, separator).push(Seq::empty()) =~= fields(a, separator) + seq![
            Seq::<T>::empty(),
        ]);
    } else {
        let left = fields(a, separator);
        let right = fields(b.drop_last(), separator);
        lemma_fields_around(a, b.drop_last(), separator);
        lemma_fields_nonempty(b.drop_last(), separator);
        assert(whole.drop_last() =~= a.push(separator) + b.drop_last());
        assert(whole.last() == b.last());
        if b.last() == separator {
            assert((left + right).push(Seq::empty()) =~= left + right.push(Seq::empty()));
        } else {
            assert((left + right).last() == right.last());
            assert((left + right).drop_last() =~= left + right.drop_last());
            assert((left + right.drop_last()).push(right.last().push(b.last())) =~= left
                + right.drop_last().push(right.last().push(b.last())));
        }
    }
}

/// What holds no separator is one field.
pub proof fn lemma_one_field<T>(s: Seq<T>, separator: T)
    requires
        !s.contains(separator),
    ensures
        fields(s, separator) == seq![s],
    decreases s.len(),
{
    if s.len() == 0 {
        assert(s =~= Seq::empty());
    } else {
        let front = s.drop_last();
        assert forall|i: int| 0 <= i < front.len() implies front[i] != separator by {
            assert(s.contains(s[i]));
        }
        assert(s.contains(s.last()));
        lemma_one_field(front, separator);
        assert(front.push(s.last()) =~= s);
        assert(fields(front, separator).drop_last().push(s) =~= seq![s]);
    }
}

/// Fields, each of them followed by a separator.
pub open spec fn terminated<T>(all: Seq<Seq<T>>, separator: T) -> Seq<T>
    decreases all.len(),
{
    if all.len() == 0 {
        Seq::empty()
    } else {
        all[0].push(separator) + terminated(all.skip(1), separator)
    }
}

/// Fields that were written one after the other are written on their own.
pub proof fn lemma_terminated_parts<T>(a: Seq<Seq<T>>, b: Seq<Seq<T>>, separator: T)
    ensures
        terminated(a + b, separator) == terminated(a, separator) + terminated(b, separator),
    decreases a.len(),
{
    if a.len() == 0 {
        assert(a + b =~= b);
        assert(Seq::<T>::empty() + terminated(b, separator) =~= terminated(b, separator));
    } else {
        lemma_terminated_parts(a.skip(1), b, separator);
        assert((a + b).skip(1) =~= a.skip(1) + b);
        assert((a + b)[0] == a[0]);
        let head = a[0].push(separator);
        assert(head + (terminated(a.skip(1), separator) + terminated(b, separator)) =~= (head
            + terminated(a.skip(1), separator)) + terminated(b, separator));
    }
}

/// Cutting gives back the fields that were written, and an empty one behind the last
/// separator.
pub proof fn fields_are_cut_as_they_were_written<T>(all: Seq<Seq<T>>, separator: T)
    requires
        forall|i: int| 0 <= i < all.len() ==> !(#[trigger] all[i]).contains(separator),
    ensures
        fields(terminated(all, separator), separator) == all.push(Seq::empty()),
    decreases all.len(),
{
    if all.len() == 0 {
        assert(all.push(Seq::empty()) =~= seq![Seq::<T>::empty()]);
    } else {
        let rest = all.skip(1);
        assert forall|i: int| 0 <= i < rest.len() implies !(#[trigger] rest[i]).contains(
            separator,
        ) by {
            assert(rest[i] == all[i + 1]);
        }
        fields_are_cut_as_they_were_written(rest, separator);
        lemma_fields_around(all[0], terminated(rest, separator), separator);
        lemma_one_field(all[0], separator);
        assert(seq![all[0]] + rest.push(Seq::empty()) =~= all.push(Seq::empty()));
    }
}

/// Cuts a byte string at every separator.
pub fn split_bytes(bytes: &[u8], separator: u8) -> (r: Vec<Vec<u8>>)
    ensures
        byte_strings(r@) == fields(bytes@, separator),
{
    let mut done: Vec<Vec<u8>> = Vec::new();
    let mut current: Vec<u8> = Vec::new();
    let mut i: usize = 0;
    proof {
        assert(bytes@.take(0) =~= Seq::<u8>::empty());
        assert(byte_strings(done@).push(current@) =~= fields(bytes@.take(0), separator));
    }
    while i < bytes.len()
        invariant
            i <= bytes@.len(),
            byte_strings(done@).push(current@) == fields(bytes@.take(i as int), separator),
        decreases bytes@.len() - i,
    {
        let byte: u8 = bytes[i];
        let ghost before = byte_strings(done@).push(current@);
        let ghost taken = bytes@.take(i + 1);
        assert(taken.drop_last() =~= bytes@.take(i as int));
        assert(taken.last() == byte);
        assert(before.drop_last() =~= byte_strings(done@));
        if byte == separator {
            done.push(current);
            current = Vec::new();
            assert(byte_strings(done@).push(current@) =~= before.push(Seq::empty()));
        } else {
            current.push(byte);
            assert(byte_strings(done@).push(current@) =~= before.drop_last().push(
                before.last().push(byte),
            ));
        }
        i = i + 1;
    }
    assert(bytes@.take(i as int) =~= bytes@);
    let ghost whole = byte_strings(done@).push(current@);
    done.push(current);
    assert(byte_strings(done@) =~= whole);
    done
}

/// Cuts a text at every separator.
pub fn split_text(text: &str, separator: char) -> (r: Vec<String>)
    ensures
        texts(r@) == fields(text@, separator),
{
    let chars = chars_of(text);
    let mut done: Vec<String> = Vec::new();
    let mut current = String::new();
    let mut i: usize = 0;
    proof {
        assert(chars@.take(0) =~= Seq::<char>::empty());
        assert(texts(done@).push(current@) =~= fields(chars@.take(0), separator));
    }
    while i < chars.len()
        invariant
            i <= chars@.len(),
            texts(done@).push(current@) == fields(chars@.take(i as int), separator),
        decreases chars@.len() - i,
    {
        let c = chars[i];
        let ghost before = texts(done@).push(current@);
        let ghost taken = chars@.take(i + 1);
        assert(taken.drop_last() =~= chars@.take(i as int));
        assert(taken.last() == c);
        assert(before.drop_last() =~= texts(done@));
        if c == separator {
            done.push(current);
            current = String::new();
            assert(texts(done@).push(current@) =~= before.push(Seq::empty()));
        } else {
            current.push(c);
            assert(texts(done@).push(current@) =~= before.drop_last().push(
                before.last().push(c),
            ));
        }
        i = i + 1;
    }
    assert(chars@.take(i as int) =~= chars@);
    let ghost whole = texts(done@).push(current@);
    done.push(current);
    assert(texts(done@) =~= whole);
    done
}

// ---------------------------------------------------------------------------
// White space
// ---------------------------------------------------------------------------

/// The characters with the Unicode property `White_Space`.
pub open spec fn is_space(c: char) -> bool {
    let n = c as u32;
    (9 <= n && n <= 13) || n == 0x20 || n == 0x85 || n == 0xa0 || n == 0x1680 || (0x2000 <= n
        && n <= 0x200a) || n == 0x2028 || n == 0x2029 || n == 0x202f || n == 0x205f || n == 0x3000
}

/// Whether a character is white space.
pub fn is_white_space(c: char) -> (r: bool)
    ensures
        r == is_space(c),
{
    let n: u32 = c as u32;
    (9 <= n && n <= 13) || n == 0x20 || n == 0x85 || n == 0xa0 || n == 0x1680 || (0x2000 <= n
        && n <= 0x200a) || n == 0x2028 || n == 0x2029 || n == 0x202f || n == 0x205f || n == 0x3000
}

/// A text without its leading white space.
pub open spec fn trimmed_start(s: Seq<char>) -> Seq<char>
    decreases s.len(),
{
    if s.len() > 0 && is_space(s[0]) {
        trimmed_start(s.skip(1))
    } else {
        s
    }
}

/// A text without its trailing white space.
pub open spec fn trimmed_end(s: Seq<char>) -> Seq<char>
    decreases s.len(),
{
    if s.len() > 0 && is_space(s.last()) {
        trimmed_end(s.drop_last())
    } else {
        s
    }
}

/// A text without white space at either end.
pub open spec fn trimmed(s: Seq<char>) -> Seq<char> {
    trimmed_end(trimmed_start(s))
}

/// Trimming makes no text longer.
pub proof fn lemma_trimmed_length(s: Seq<char>)
    ensures
        trimmed(s).len() <= s.len(),
{
    lemma_trimmed_start_length(s);
    lemma_trimmed_end_length(trimmed_start(s));
}

proof fn lemma_trimmed_start_length(s: Seq<char>)
    ensures
        trimmed_start(s).len() <= s.len(),
    decreases s.len(),
{
    if s.len() > 0 && is_space(s[0]) {
        lemma_trimmed_start_length(s.skip(1));
    }
}

proof fn lemma_trimmed_end_length(s: Seq<char>)
    ensures
        trimmed_end(s).len() <= s.len(),
    decreases s.len(),
{
    if s.len() > 0 && is_space(s.last()) {
        lemma_trimmed_end_length(s.drop_last());
    }
}

/// Removes white space from both ends of a text.
pub fn trim(text: &str) -> (r: String)
    ensures
        r@ == trimmed(text@),
{
    let chars = chars_of(text);
    let mut from: usize = 0;
    assert(chars@.skip(0) =~= chars@);
    while from < chars.len() && is_white_space(chars[from])
        invariant
            from <= chars@.len(),
            trimmed_start(chars@.skip(from as int)) == trimmed_start(chars@),
        decreases chars@.len() - from,
    {
        assert(chars@.skip(from as int).skip(1) =~= chars@.skip(from + 1));
        from = from + 1;
    }
    let ghost rest = chars@.skip(from as int);
    assert(rest == trimmed_start(chars@));
    let mut to: usize = chars.len();
    assert(chars@.subrange(from as int, to as int) =~= rest);
    while to > from && is_white_space(chars[to - 1])
        invariant
            from <= to <= chars@.len(),
            rest == chars@.skip(from as int),
            trimmed_end(chars@.subrange(from as int, to as int)) == trimmed_end(rest),
        decreases to,
    {
        assert(chars@.subrange(from as int, to as int).drop_last() =~= chars@.subrange(
            from as int,
            to - 1,
        ));
        to = to - 1;
    }
    text_between(&chars, from, to)
}

/// The length of the longest prefix without white space.
pub open spec fn word_length(s: Seq<char>) -> nat
    decreases s.len(),
{
    if s.len() == 0 || is_space(s[0]) {
        0
    } else {
        1 + word_length(s.skip(1))
    }
}

/// The runs of characters between white space, in order.
pub open spec fn words(s: Seq<char>) -> Seq<Seq<char>>
    decreases s.len(),
{
    if s.len() == 0 {
        Seq::empty()
    } else if is_space(s[0]) {
        words(s.skip(1))
    } else {
        let n = word_length(s);
        if n > s.len() {
            Seq::empty()
        } else {
            seq![s.take(n as int)] + words(s.skip(n as int))
        }
    }
}

pub proof fn lemma_word_length_bounded(s: Seq<char>)
    ensures
        word_length(s) <= s.len(),
    decreases s.len(),
{
    if s.len() > 0 && !is_space(s[0]) {
        lemma_word_length_bounded(s.skip(1));
    }
}

/// Cuts a text at its white space.
pub fn split_words(text: &str) -> (r: Vec<String>)
    ensures
        texts(r@) == words(text@),
{
    let chars = chars_of(text);
    let mut done: Vec<String> = Vec::new();
    let mut i: usize = 0;
    assert(chars@.skip(0) =~= chars@);
    assert(texts(done@) + words(chars@.skip(0)) =~= words(chars@));
    while i < chars.len()
        invariant
            i <= chars@.len(),
            texts(done@) + words(chars@.skip(i as int)) == words(chars@),
        decreases chars@.len() - i,
    {
        let ghost rest = chars@.skip(i as int);
        if is_white_space(chars[i]) {
            assert(rest.skip(1) =~= chars@.skip(i + 1));
            i = i + 1;
        } else {
            let from: usize = i;
            let ghost head = texts(done@);
            let mut to: usize = i;
            while to < chars.len() && !is_white_space(chars[to])
                invariant
                    from <= to <= chars@.len(),
                    rest == chars@.skip(from as int),
                    word_length(rest) == (to - from) + word_length(chars@.skip(to as int)),
                decreases chars@.len() - to,
            {
                assert(chars@.skip(to as int).skip(1) =~= chars@.skip(to + 1));
                to = to + 1;
            }
            let ghost n = word_length(rest);
            assert(n == to - from);
            assert(n >= 1) by {
                assert(rest[0] == chars@[from as int]);
            }
            let word = text_between(&chars, from, to);
            assert(word@ =~= rest.take(n as int));
            assert(rest.skip(n as int) =~= chars@.skip(to as int));
            done.push(word);
            assert(texts(done@) + words(chars@.skip(to as int)) =~= head + words(rest));
            i = to;
        }
    }
    assert(words(chars@.skip(i as int)) =~= Seq::empty());
    assert(texts(done@) =~= words(chars@));
    done
}

// ---------------------------------------------------------------------------
// Lines
// ---------------------------------------------------------------------------

/// The lines of a text, each with the line feed that ends it.
pub open spec fn line_pieces(s: Seq<char>) -> Seq<Seq<char>>
    decreases s.len(),
{
    if s.len() == 0 {
        Seq::empty()
    } else {
        let before = line_pieces(s.drop_last());
        if s.len() == 1 || s[s.len() - 2] == '\n' {
            before.push(seq![s.last()])
        } else {
            before.drop_last().push(before.last().push(s.last()))
        }
    }
}

/// Cuts a text after every line feed.
pub fn lines_with_endings(text: &str) -> (r: Vec<String>)
    ensures
        texts(r@) == line_pieces(text@),
{
    let chars = chars_of(text);
    let mut done: Vec<String> = Vec::new();
    let mut current = String::new();
    let mut open: bool = false;
    let mut i: usize = 0;
    assert(chars@.take(0) =~= Seq::<char>::empty());
    assert(texts(done@) =~= line_pieces(chars@.take(0)));
    while i < chars.len()
        invariant
            i <= chars@.len(),
            open == (i > 0 && chars@[i - 1] != '\n'),
            !open ==> current@.len() == 0 && texts(done@) == line_pieces(chars@.take(i as int)),
            open ==> texts(done@).push(current@) == line_pieces(chars@.take(i as int)),
        decreases chars@.len() - i,
    {
        let c = chars[i];
        let ghost taken = chars@.take(i + 1);
        assert(taken.drop_last() =~= chars@.take(i as int));
        assert(taken.last() == c);
        let ghost before = line_pieces(chars@.take(i as int));
        let ghost head = texts(done@);
        let ghost old_current = current@;
        current.push(c);
        proof {
            if open {
                assert(before.drop_last() =~= head);
                assert(head.push(current@) =~= before.drop_last().push(before.last().push(c)));
            } else {
                assert(current@ =~= seq![c]);
                assert(head.push(current@) =~= before.push(seq![c]));
            }
            assert(head.push(current@) == line_pieces(taken));
        }
        if c == '\n' {
            let ghost whole = head.push(current@);
            done.push(current);
            assert(texts(done@) =~= whole);
            current = String::new();
            open = false;
        } else {
            open = true;
        }
        i = i + 1;
    }
    assert(chars@.take(i as int) =~= chars@);
    if open {
        let ghost whole = texts(done@).push(current@);
        done.push(current);
        assert(texts(done@) =~= whole);
    }
    done
}

/// A text without the carriage returns and line feeds at its end.
pub open spec fn without_line_end(s: Seq<char>) -> Seq<char>
    decreases s.len(),
{
    if s.len() > 0 && (s.last() == '\n' || s.last() == '\r') {
        without_line_end(s.drop_last())
    } else {
        s
    }
}

/// Removes the carriage returns and line feeds at the end of a text.
pub fn trim_line_end(text: &str) -> (r: String)
    ensures
        r@ == without_line_end(text@),
{
    let chars = chars_of(text);
    let mut to: usize = chars.len();
    assert(chars@.subrange(0, to as int) =~= chars@);
    while to > 0 && (chars[to - 1] == '\n' || chars[to - 1] == '\r')
        invariant
            to <= chars@.len(),
            without_line_end(chars@.subrange(0, to as int)) == without_line_end(chars@),
        decreases to,
    {
        assert(chars@.subrange(0, to as int).drop_last() =~= chars@.subrange(0, to - 1));
        to = to - 1;
    }
    text_between(&chars, 0, to)
}

/// One line without the line feed, or carriage return and line feed, that ends it.
pub open spec fn bare_line(piece: Seq<char>) -> Seq<char> {
    if piece.len() > 0 && piece.last() == '\n' {
        let rest = piece.drop_last();
        if rest.len() > 0 && rest.last() == '\r' {
            rest.drop_last()
        } else {
            rest
        }
    } else {
        piece
    }
}

/// The lines of a text without their ends.
pub open spec fn bare_lines(s: Seq<char>) -> Seq<Seq<char>> {
    line_pieces(s).map_values(|piece: Seq<char>| bare_line(piece))
}

/// Cuts a text into lines without their ends.
pub fn text_lines(text: &str) -> (r: Vec<String>)
    ensures
        texts(r@) == bare_lines(text@),
{
    let pieces = lines_with_endings(text);
    let mut r: Vec<String> = Vec::new();
    let mut i: usize = 0;
    while i < pieces.len()
        invariant
            i <= pieces@.len(),
            texts(pieces@) == line_pieces(text@),
            texts(r@) =~= bare_lines(text@).take(i as int),
        decreases pieces@.len() - i,
    {
        let chars = chars_of(pieces[i].as_str());
        let mut to: usize = chars.len();
        if to > 0 && chars[to - 1] == '\n' {
            to = to - 1;
            if to > 0 && chars[to - 1] == '\r' {
                to = to - 1;
            }
        }
        let line = text_between(&chars, 0, to);
        assert(texts(pieces@)[i as int] == chars@);
        assert(line@ =~= bare_line(chars@));
        let ghost before = texts(r@);
        let ghost all = bare_lines(text@);
        assert(all[i as int] == line@);
        r.push(line);
        assert(texts(r@) =~= before.push(line@));
        assert(all.take(i + 1) =~= all.take(i as int).push(all[i as int]));
        i = i + 1;
    }
    assert(bare_lines(text@).take(i as int) =~= bare_lines(text@));
    r
}

/// A text begins with a prefix.
pub open spec fn starts_with(s: Seq<char>, prefix: Seq<char>) -> bool {
    prefix.len() <= s.len() && s.take(prefix.len() as int) == prefix
}

/// What follows a prefix, if the text begins with it.
pub fn strip_prefix(text: &str, prefix: &str) -> (r: Option<String>)
    ensures
        r is Some <==> starts_with(text@, prefix@),
        r matches Some(rest) ==> rest@ == text@.skip(prefix@.len() as int),
{
    let chars = chars_of(text);
    let head = chars_of(prefix);
    if head.len() > chars.len() {
        return None;
    }
    let mut i: usize = 0;
    while i < head.len()
        invariant
            i <= head@.len() <= chars@.len(),
            chars@ == text@,
            head@ == prefix@,
            forall|j: int| 0 <= j < i ==> chars@[j] == head@[j],
        decreases head@.len() - i,
    {
        if chars[i] != head[i] {
            proof {
                if starts_with(text@, prefix@) {
                    assert(text@.take(prefix@.len() as int)[i as int] == prefix@[i as int]);
                }
            }
            return None;
        }
        i = i + 1;
    }
    assert(text@.take(prefix@.len() as int) =~= prefix@);
    let rest = text_between(&chars, head.len(), chars.len());
    assert(rest@ =~= text@.skip(prefix@.len() as int));
    Some(rest)
}

/// Whether a byte string holds a zero byte, as text does not.
pub fn holds_zero(bytes: &[u8]) -> (r: bool)
    ensures
        r == bytes@.contains(0),
{
    let mut i: usize = 0;
    while i < bytes.len()
        invariant
            i <= bytes@.len(),
            forall|j: int| 0 <= j < i ==> bytes@[j] != 0,
        decreases bytes@.len() - i,
    {
        if bytes[i] == 0 {
            assert(bytes@[i as int] == 0);
            return true;
        }
        i = i + 1;
    }
    false
}

} // verus!
