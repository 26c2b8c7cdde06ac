//! What a reader of a diff can rely on.

use crate::diff;
use crate::diff::{DiffLineKind, DiffLineModel, Span};
use crate::laws::texts;
use crate::lines;
use crate::text;
use vstd::prelude::*;

verus! {

/// A line of a diff is a line of the old file.
pub open spec fn is_old(kind: DiffLineKind) -> bool {
    kind == DiffLineKind::Deletion || kind == DiffLineKind::Context
}

/// A line of a diff is a line of the new file.
pub open spec fn is_new(kind: DiffLineKind) -> bool {
    kind == DiffLineKind::Addition || kind == DiffLineKind::Context
}

/// How many of the lines from one place up to another are lines of the old file.
pub open spec fn old_between(all: Seq<DiffLineModel>, from: int, to: int) -> nat
    decreases to - from,
{
    if to <= from {
        0
    } else {
        old_between(all, from, to - 1) + if is_old(all[to - 1].kind) {
            1nat
        } else {
            0nat
        }
    }
}

/// How many of the lines from one place up to another are lines of the new file.
pub open spec fn new_between(all: Seq<DiffLineModel>, from: int, to: int) -> nat
    decreases to - from,
{
    if to <= from {
        0
    } else {
        new_between(all, from, to - 1) + if is_new(all[to - 1].kind) {
            1nat
        } else {
            0nat
        }
    }
}

proof fn lemma_between_of_prefix(all: Seq<DiffLineModel>, n: int, from: int, to: int)
    requires
        0 <= from,
        to <= n <= all.len(),
    ensures
        old_between(all.take(n), from, to) == old_between(all, from, to),
        new_between(all.take(n), from, to) == new_between(all, from, to),
    decreases to - from,
{
    if to > from {
        lemma_between_of_prefix(all, n, from, to - 1);
    }
}

/// The lines of the first lines of a diff are the first lines of the diff, and the line
/// behind them is read where they end.
proof fn lemma_prefix_read(all: Seq<Seq<char>>, n: int)
    requires
        0 <= n <= all.len(),
    ensures
        diff::read_lines(all).0.len() == all.len(),
        diff::read_lines(all.take(n)).0 == diff::read_lines(all).0.take(n),
        n < all.len() ==> diff::read_lines(all).0[n] == diff::read_line(
            all[n],
            diff::read_lines(all.take(n)).1,
        ).0,
    decreases all.len(),
{
    if n == all.len() {
        assert(all.take(n) =~= all);
        if n > 0 {
            lemma_prefix_read(all.drop_last(), n - 1);
        }
        assert(diff::read_lines(all).0.take(n) =~= diff::read_lines(all).0);
    } else {
        lemma_prefix_read(all.drop_last(), n);
        assert(all.drop_last().take(n) =~= all.take(n));
        let before = diff::read_lines(all.drop_last()).0;
        assert(diff::read_lines(all).0.take(n) =~= before.take(n));
        if n == all.len() - 1 {
            assert(all.take(n) =~= all.drop_last());
        }
    }
}

/// At most the greatest number that there is room for.
pub open spec fn at_most_usize(n: int) -> int {
    if n <= usize::MAX {
        n
    } else {
        usize::MAX as int
    }
}

/// Where the reader stands behind the lines of a hunk.
proof fn lemma_reader_in_hunk(all: Seq<Seq<char>>, h: int)
    requires
        0 <= h < all.len(),
        diff::read_lines(all).0[h].kind == DiffLineKind::Hunk,
        forall|j: int|
            h < j < all.len() ==> (#[trigger] diff::read_lines(all).0[j]).kind
                != DiffLineKind::Hunk,
    ensures
        diff::hunk_of(all[h]) is Some,
        ({
            let (old, new) = diff::hunk_of(all[h])->0;
            let r = diff::read_lines(all).0;
            let at = diff::read_lines(all).1;
            let n = old_between(r, h + 1, all.len() as int);
            let m = new_between(r, h + 1, all.len() as int);
            &&& at.old.start == at_most_usize(old.start + n)
            &&& at.new.start == at_most_usize(new.start + m)
            &&& at.old.length == if n <= old.length { old.length - n } else { 0 }
            &&& at.new.length == if m <= new.length { new.length - m } else { 0 }
        }),
    decreases all.len(),
{
    let r = diff::read_lines(all).0;
    let last = all.len() - 1;
    lemma_prefix_read(all, last);
    assert(all.take(last) =~= all.drop_last());
    let before = diff::read_lines(all.drop_last());
    assert(before.0 =~= r.take(last));
    if h < last {
        assert(all.drop_last()[h] == all[h]);
        assert forall|j: int| h < j < last implies (#[trigger] before.0[j]).kind
            != DiffLineKind::Hunk by {
            assert(before.0[j] == r[j]);
        }
        assert(before.0[h] == r[h]);
        lemma_reader_in_hunk(all.drop_last(), h);
        lemma_between_of_prefix(r, last, h + 1, last);
        assert(r[last].kind != DiffLineKind::Hunk);
    }
}

/// Before the first hunk the reader counts no lines.
proof fn lemma_reader_before_hunks(all: Seq<Seq<char>>)
    requires
        forall|j: int|
            0 <= j < all.len() ==> (#[trigger] diff::read_lines(all).0[j]).kind
                != DiffLineKind::Hunk,
    ensures
        diff::read_lines(all).1.old.length == 0,
        diff::read_lines(all).1.new.length == 0,
    decreases all.len(),
{
    if all.len() > 0 {
        let last = all.len() - 1;
        lemma_prefix_read(all, last);
        assert(all.take(last) =~= all.drop_last());
        let r = diff::read_lines(all).0;
        let before = diff::read_lines(all.drop_last()).0;
        assert forall|j: int| 0 <= j < last implies (#[trigger] before[j]).kind
            != DiffLineKind::Hunk by {
            assert(before[j] == r[j]);
        }
        lemma_reader_before_hunks(all.drop_last());
        assert(r[last].kind != DiffLineKind::Hunk);
    }
}

/// A line of a diff belongs to the hunk whose header is at `h`: no header stands between
/// them.
pub open spec fn of_hunk(r: Seq<DiffLineModel>, h: int, i: int) -> bool {
    &&& 0 <= h < i < r.len()
    &&& r[h].kind == DiffLineKind::Hunk
    &&& forall|j: int| h < j <= i ==> (#[trigger] r[j]).kind != DiffLineKind::Hunk
}

/// Within a hunk `@@ -a,b +c,d @@` an added or unchanged line has the number `c` plus the
/// count of the added and unchanged lines before it in that hunk, a deleted or unchanged
/// line has the number `a` plus the count of the deleted and unchanged lines before it, and
/// no line has another number.
pub proof fn hunks_number_their_lines(source: Seq<char>, h: int, i: int)
    requires
        of_hunk(diff::unified_diff(source), h, i),
    ensures
        ({
            let r = diff::unified_diff(source);
            let (old, new) = diff::hunk_of(r[h].text)->0;
            &&& diff::hunk_of(r[h].text) is Some
            &&& r[i].old_line matches Some(n) ==> n == at_most_usize(
                old.start + old_between(r, h + 1, i),
            )
            &&& r[i].new_line matches Some(n) ==> n == at_most_usize(
                new.start + new_between(r, h + 1, i),
            )
            &&& r[i].old_line is Some <==> is_old(r[i].kind)
            &&& r[i].new_line is Some <==> is_new(r[i].kind)
            &&& r[h].old_line is None && r[h].new_line is None
        }),
{
    let all = lines::bare_lines(source);
    let r = diff::unified_diff(source);
    diff::diff_keeps_every_line(source);
    lemma_prefix_read(all, i);
    lemma_prefix_read(all, h);
    let part = all.take(i);
    let q = diff::read_lines(part).0;
    assert(q =~= r.take(i));
    assert forall|j: int| h < j < i implies (#[trigger] q[j]).kind != DiffLineKind::Hunk by {
        assert(q[j] == r[j]);
    }
    assert(q[h] == r[h]);
    lemma_reader_in_hunk(part, h);
    lemma_between_of_prefix(r, i, h + 1, i);
    assert(part[h] == all[h]);
    assert(r[h].text == all[h]);
}

/// As long as a hunk lacks lines of the old or of the new file, a line is added, deleted,
/// a notice or unchanged by its first character alone, whatever else it holds.
pub proof fn first_characters_tell_the_lines_of_a_hunk(source: Seq<char>, h: int, i: int)
    requires
        0 <= h < i < diff::unified_diff(source).len(),
        diff::unified_diff(source)[h].kind == DiffLineKind::Hunk,
        forall|j: int|
            h < j < i ==> (#[trigger] diff::unified_diff(source)[j]).kind != DiffLineKind::Hunk,
        ({
            let r = diff::unified_diff(source);
            let (old, new) = diff::hunk_of(r[h].text)->0;
            old_between(r, h + 1, i) < old.length || new_between(r, h + 1, i) < new.length
        }),
    ensures
        ({
            let r = diff::unified_diff(source);
            let line = lines::bare_lines(source)[i];
            let begins = |c: char| line.len() > 0 && line[0] == c;
            &&& r[i].text == line
            &&& r[i].kind == DiffLineKind::Addition <==> begins('+')
            &&& r[i].kind == DiffLineKind::Deletion <==> begins('-')
            &&& r[i].kind == DiffLineKind::Notice <==> begins('\\')
            &&& r[i].kind == DiffLineKind::Context <==> !begins('+') && !begins('-') && !begins('\\')
        }),
{
    let all = lines::bare_lines(source);
    let r = diff::unified_diff(source);
    diff::diff_keeps_every_line(source);
    lemma_prefix_read(all, i);
    lemma_prefix_read(all, h);
    let part = all.take(i);
    let q = diff::read_lines(part).0;
    assert(q =~= r.take(i));
    assert forall|j: int| h < j < i implies (#[trigger] q[j]).kind != DiffLineKind::Hunk by {
        assert(q[j] == r[j]);
    }
    assert(q[h] == r[h]);
    assert(part[h] == all[h]);
    assert(r[h].text == all[h]);
    lemma_reader_in_hunk(part, h);
    lemma_between_of_prefix(r, i, h + 1, i);
}

/// Behind the last line that a hunk announces, a line is the header of the next hunk, a
/// notice or a header, and has no number.
pub proof fn hunks_end_where_they_announce(source: Seq<char>, h: int, i: int)
    requires
        0 <= h < i < diff::unified_diff(source).len(),
        diff::unified_diff(source)[h].kind == DiffLineKind::Hunk,
        forall|j: int|
            h < j < i ==> (#[trigger] diff::unified_diff(source)[j]).kind != DiffLineKind::Hunk,
        ({
            let r = diff::unified_diff(source);
            let (old, new) = diff::hunk_of(r[h].text)->0;
            old_between(r, h + 1, i) >= old.length && new_between(r, h + 1, i) >= new.length
        }),
    ensures
        stands_outside(diff::unified_diff(source)[i], lines::bare_lines(source)[i]),
{
    let all = lines::bare_lines(source);
    let r = diff::unified_diff(source);
    diff::diff_keeps_every_line(source);
    lemma_prefix_read(all, i);
    lemma_prefix_read(all, h);
    let part = all.take(i);
    let q = diff::read_lines(part).0;
    assert(q =~= r.take(i));
    assert forall|j: int| h < j < i implies (#[trigger] q[j]).kind != DiffLineKind::Hunk by {
        assert(q[j] == r[j]);
    }
    assert(q[h] == r[h]);
    assert(part[h] == all[h]);
    assert(r[h].text == all[h]);
    lemma_reader_in_hunk(part, h);
    lemma_between_of_prefix(r, i, h + 1, i);
}

/// A line outside of all hunks: a hunk header, a notice or a header, without a number.
pub open spec fn stands_outside(shown: DiffLineModel, line: Seq<char>) -> bool {
    &&& shown.text == line
    &&& shown.old_line is None
    &&& shown.new_line is None
    &&& shown.kind == DiffLineKind::Hunk <==> diff::hunk_of(line) is Some
    &&& shown.kind == DiffLineKind::Notice <==> diff::hunk_of(line) is None && line.len() > 0
        && line[0] == '\\'
    &&& shown.kind == DiffLineKind::Header <==> diff::hunk_of(line) is None && !(line.len() > 0
        && line[0] == '\\')
}

/// Before the first hunk no line is added, deleted or unchanged.
pub proof fn diffs_open_with_headers(source: Seq<char>, i: int)
    requires
        0 <= i < diff::unified_diff(source).len(),
        forall|j: int|
            0 <= j < i ==> (#[trigger] diff::unified_diff(source)[j]).kind != DiffLineKind::Hunk,
    ensures
        stands_outside(diff::unified_diff(source)[i], lines::bare_lines(source)[i]),
{
    let all = lines::bare_lines(source);
    let r = diff::unified_diff(source);
    diff::diff_keeps_every_line(source);
    lemma_prefix_read(all, i);
    let q = diff::read_lines(all.take(i)).0;
    assert(q =~= r.take(i));
    assert forall|j: int| 0 <= j < i implies (#[trigger] q[j]).kind != DiffLineKind::Hunk by {
        assert(q[j] == r[j]);
    }
    lemma_reader_before_hunks(all.take(i));
}

/// The counts of a diff are the counts of its parts, an added line is one addition, a
/// deleted line one deletion, and no other line counts.
pub proof fn counts_add_up(a: Seq<DiffLineModel>, b: Seq<DiffLineModel>, line: DiffLineModel)
    ensures
        diff::stats_of(a + b).0 == diff::stats_of(a).0 + diff::stats_of(b).0,
        diff::stats_of(a + b).1 == diff::stats_of(a).1 + diff::stats_of(b).1,
        diff::stats_of(seq![line]).0 == if line.kind == DiffLineKind::Addition {
            1nat
        } else {
            0nat
        },
        diff::stats_of(seq![line]).1 == if line.kind == DiffLineKind::Deletion {
            1nat
        } else {
            0nat
        },
    decreases b.len(),
{
    assert(seq![line].drop_last() =~= Seq::empty());
    assert(diff::stats_of(Seq::<DiffLineModel>::empty()) == (0nat, 0nat));
    if b.len() == 0 {
        assert(a + b =~= a);
    } else {
        counts_add_up(a, b.drop_last(), line);
        assert((a + b).drop_last() =~= a + b.drop_last());
        assert((a + b).last() == b.last());
    }
}

/// One side of a hunk header: where it begins, and how many lines it has. A length of one
/// may be left out.
pub open spec fn side_text(side: Span, short: bool) -> Seq<char> {
    if short {
        text::decimal(side.start as nat)
    } else {
        text::decimal(side.start as nat).push(',') + text::decimal(side.length as nat)
    }
}

/// The header of a hunk: `@@ -a,b +c,d @@`, with or without something behind it.
pub open spec fn header_text(
    old: Span,
    old_short: bool,
    new: Span,
    new_short: bool,
    tail: Seq<char>,
) -> Seq<char> {
    seq!['@', '@', ' ', '-'] + side_text(old, old_short) + seq![' ', '+'] + side_text(
        new,
        new_short,
    ) + seq![' ', '@', '@'] + tail
}

proof fn lemma_side_text(side: Span, short: bool, sign: char)
    requires
        short ==> side.length == 1,
        sign == '-' || sign == '+',
    ensures
        diff::span_of(side_text(side, short)) == Some(side),
        texts::unspaced(seq![sign] + side_text(side, short)),
{
    let a = text::decimal(side.start as nat);
    let b = text::decimal(side.length as nat);
    texts::numbers_are_written_in_digits(side.start as nat);
    texts::numbers_are_written_in_digits(side.length as nat);
    texts::written_numbers_are_read_back(side.start as nat, usize::MAX as nat);
    texts::written_numbers_are_read_back(side.length as nat, usize::MAX as nat);
    lines::lemma_one_field(a, ',');
    lines::lemma_one_field(b, ',');
    lines::lemma_fields_around(a, b, ',');
    assert(diff::small_number(a) == Some(side.start));
    assert(diff::small_number(b) == Some(side.length));
    let parts = lines::fields(side_text(side, short), ',');
    if !short {
        assert(parts =~= seq![a, b]);
    }
    let s = seq![sign] + side_text(side, short);
    assert forall|i: int| 0 <= i < s.len() implies !lines::is_space(#[trigger] s[i]) by {
        if i > 0 {
            let c = side_text(side, short)[i - 1];
            assert(s[i] == c);
            if i - 1 < a.len() {
                assert(c == a[i - 1]);
            } else if i - 1 > a.len() {
                assert(c == b[i - 2 - a.len()]);
            } else {
                assert(c == ',');
            }
        }
    }
}

/// The header `@@ -a,b +c,d @@` announces `b` lines of the old file from line `a` on and
/// `d` lines of the new file from line `c` on, whatever stands behind it. Where a length is
/// left out it is one.
pub proof fn hunk_headers_say_their_lines(
    old: Span,
    old_short: bool,
    new: Span,
    new_short: bool,
    tail: Seq<char>,
)
    requires
        old_short ==> old.length == 1,
        new_short ==> new.length == 1,
        tail.len() == 0 || tail[0] == ' ',
    ensures
        diff::hunk_of(header_text(old, old_short, new, new_short, tail)) == Some((old, new)),
{
    reveal_strlit("@@");
    reveal_strlit("-");
    reveal_strlit("+");
    let line = header_text(old, old_short, new, new_short, tail);
    let mark = seq!['@', '@'];
    let minus = seq!['-'] + side_text(old, old_short);
    let plus = seq!['+'] + side_text(new, new_short);
    lemma_side_text(old, old_short, '-');
    lemma_side_text(new, new_short, '+');
    assert(texts::unspaced(mark));
    lemma_four_words(mark, minus, plus, mark, tail);
    assert(line =~= mark + seq![' '] + minus + seq![' '] + plus + seq![' '] + mark + tail);
    let parts = lines::words(line);
    assert(mark =~= "@@"@);
    assert(minus.take(1) =~= "-"@);
    assert(plus.take(1) =~= "+"@);
    assert(minus.skip(1) =~= side_text(old, old_short));
    assert(plus.skip(1) =~= side_text(new, new_short));
}

proof fn lemma_four_words(
    a: Seq<char>,
    b: Seq<char>,
    c: Seq<char>,
    d: Seq<char>,
    tail: Seq<char>,
)
    requires
        a.len() > 0 && b.len() > 0 && c.len() > 0 && d.len() > 0,
        texts::unspaced(a) && texts::unspaced(b) && texts::unspaced(c) && texts::unspaced(d),
        tail.len() == 0 || tail[0] == ' ',
    ensures
        ({
            let parts = lines::words(
                a + seq![' '] + b + seq![' '] + c + seq![' '] + d + tail,
            );
            &&& parts.len() >= 4
            &&& parts[0] == a
            &&& parts[1] == b
            &&& parts[2] == c
            &&& parts[3] == d
        }),
{
    let space = seq![' '];
    let third = d + tail;
    let second = c + (space + third);
    let first = b + (space + second);
    texts::words_are_cut_at_spaces(d, tail, ' ');
    texts::words_are_cut_at_spaces(c, space + third, ' ');
    texts::words_are_cut_at_spaces(b, space + second, ' ');
    texts::words_are_cut_at_spaces(a, space + first, ' ');
    lemma_leading_space(third);
    lemma_leading_space(second);
    lemma_leading_space(first);
    assert(a + space + b + space + c + space + d + tail =~= a + (space + first));
}

proof fn lemma_leading_space(s: Seq<char>)
    ensures
        lines::words(seq![' '] + s) == lines::words(s),
{
    assert((seq![' '] + s).skip(1) =~= s);
}

/// A line that does not open with the marks of a hunk header is none.
pub proof fn other_lines_are_no_hunk_headers(line: Seq<char>)
    ensures
        diff::hunk_of(line) is Some ==> {
            let parts = lines::words(line);
            &&& parts.len() >= 4
            &&& parts[0] == seq!['@', '@'] && parts[3] == seq!['@', '@']
            &&& parts[1].len() > 1 && parts[1][0] == '-'
            &&& parts[2].len() > 1 && parts[2][0] == '+'
        },
{
    reveal_strlit("@@");
    reveal_strlit("-");
    reveal_strlit("+");
    if diff::hunk_of(line) is Some {
        let parts = lines::words(line);
        assert(parts[0] =~= seq!['@', '@']);
        assert(parts[3] =~= seq!['@', '@']);
        assert(parts[1].take(1)[0] == '-');
        assert(parts[2].take(1)[0] == '+');
        lemma_empty_side();
        if parts[1].len() == 1 {
            assert(parts[1].skip(1) =~= Seq::empty());
        }
        if parts[2].len() == 1 {
            assert(parts[2].skip(1) =~= Seq::empty());
        }
    }
}

proof fn lemma_empty_side()
    ensures
        diff::span_of(Seq::empty()) is None,
{
    lines::lemma_one_field(Seq::<char>::empty(), ',');
}

} // verus!
