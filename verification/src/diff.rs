//! Unified diffs, line by line.

use crate::lines;
use crate::lines::{split_text, split_words, strip_prefix, text_lines};
use crate::numbers;
use crate::text;
use crate::text::{chars_of, parse_number, same_text};
use vstd::prelude::*;
use vstd::string::*;

verus! {

/// What a line of a diff is.
#[derive(Clone, Copy, Debug, PartialEq, Eq, Structural)]
pub enum DiffLineKind {
    Header,
    Hunk,
    Addition,
    Deletion,
    Context,
    Notice,
}

/// A line of a diff with its line numbers in the old and the new file.
#[derive(Debug, PartialEq, Eq)]
pub struct DiffLine {
    pub kind: DiffLineKind,
    pub text: String,
    pub old_line: Option<usize>,
    pub new_line: Option<usize>,
}

#[verifier::ext_equal]
pub struct DiffLineModel {
    pub kind: DiffLineKind,
    pub text: Seq<char>,
    pub old_line: Option<usize>,
    pub new_line: Option<usize>,
}

impl DeepView for DiffLine {
    type V = DiffLineModel;

    open spec fn deep_view(&self) -> DiffLineModel {
        DiffLineModel {
            kind: self.kind,
            text: self.text@,
            old_line: self.old_line,
            new_line: self.new_line,
        }
    }
}

impl Clone for DiffLine {
    fn clone(&self) -> (r: DiffLine)
        ensures
            r.deep_view() == self.deep_view(),
    {
        DiffLine {
            kind: self.kind,
            text: self.text.clone(),
            old_line: self.old_line,
            new_line: self.new_line,
        }
    }
}

/// How many lines were added and how many deleted.
pub open spec fn stats_of(all: Seq<DiffLineModel>) -> (nat, nat)
    decreases all.len(),
{
    if all.len() == 0 {
        (0, 0)
    } else {
        let before = stats_of(all.drop_last());
        match all.last().kind {
            DiffLineKind::Addition => (before.0 + 1, before.1),
            DiffLineKind::Deletion => (before.0, before.1 + 1),
            _ => before,
        }
    }
}

/// No more lines are counted than there are.
pub proof fn lemma_stats_bounded(all: Seq<DiffLineModel>)
    ensures
        stats_of(all).0 + stats_of(all).1 <= all.len(),
    decreases all.len(),
{
    if all.len() > 0 {
        lemma_stats_bounded(all.drop_last());
    }
}

/// Counts the added and the deleted lines.
pub fn diff_stats(all: &Vec<DiffLine>) -> (r: (usize, usize))
    ensures
        r.0 == stats_of(all.deep_view()).0,
        r.1 == stats_of(all.deep_view()).1,
{
    let mut additions: usize = 0;
    let mut deletions: usize = 0;
    let mut i: usize = 0;
    let ghost model = all.deep_view();
    assert(model.take(0) =~= Seq::empty());
    while i < all.len()
        invariant
            i <= all@.len(),
            model == all.deep_view(),
            additions + deletions <= i,
            additions == stats_of(model.take(i as int)).0,
            deletions == stats_of(model.take(i as int)).1,
        decreases all@.len() - i,
    {
        assert(model.take(i + 1).drop_last() =~= model.take(i as int));
        assert(model.take(i + 1).last() == all@[i as int].deep_view());
        match all[i].kind {
            DiffLineKind::Addition => {
                additions = additions + 1;
            },
            DiffLineKind::Deletion => {
                deletions = deletions + 1;
            },
            _ => {},
        }
        i = i + 1;
    }
    assert(model.take(i as int) =~= model);
    (additions, deletions)
}

// ---------------------------------------------------------------------------
// Reading a unified diff
// ---------------------------------------------------------------------------

/// The start and the length of one side of a hunk.
#[derive(Clone, Copy, Debug, PartialEq, Eq, Structural)]
pub struct Span {
    pub start: usize,
    pub length: usize,
}

/// A number that fits in `usize`.
pub open spec fn small_number(s: Seq<char>) -> Option<usize> {
    match text::number_value(s, usize::MAX as nat) {
        Ok(value) => Some(value as usize),
        Err(_) => None,
    }
}

/// A start, or a start and a length after a comma; the length is one where it is left out.
pub open spec fn span_of(s: Seq<char>) -> Option<Span> {
    let parts = lines::fields(s, ',');
    if parts.len() == 1 {
        match small_number(parts[0]) {
            Some(start) => Some(Span { start, length: 1 }),
            None => None,
        }
    } else if parts.len() == 2 {
        match (small_number(parts[0]), small_number(parts[1])) {
            (Some(start), Some(length)) => Some(Span { start, length }),
            _ => None,
        }
    } else {
        None
    }
}

/// The two sides of a hunk header: `@@ -start,length +start,length @@`.
pub open spec fn hunk_of(line: Seq<char>) -> Option<(Span, Span)> {
    let parts = lines::words(line);
    if parts.len() >= 4 && parts[0] == "@@"@ && parts[3] == "@@"@ && lines::starts_with(
        parts[1],
        "-"@,
    ) && lines::starts_with(parts[2], "+"@) {
        match (span_of(parts[1].skip("-"@.len() as int)), span_of(
            parts[2].skip("+"@.len() as int),
        )) {
            (Some(old), Some(new)) => Some((old, new)),
            _ => None,
        }
    } else {
        None
    }
}

/// Where a reader of a diff stands: the next line numbers and how many lines of
/// each side the current hunk still has.
#[derive(Clone, Copy, Debug, PartialEq, Eq, Structural)]
pub struct Reader {
    pub old: Span,
    pub new: Span,
}

pub open spec fn reader_at_start() -> Reader {
    Reader { old: Span { start: 0, length: 0 }, new: Span { start: 0, length: 0 } }
}

/// One line of a side was read.
pub open spec fn past(side: Span) -> Span {
    Span { start: numbers::sat_add(side.start, 1), length: numbers::sat_sub(side.length, 1) }
}

/// A line of a diff, and where the reader stands after it.
pub open spec fn read_line(line: Seq<char>, at: Reader) -> (DiffLineModel, Reader) {
    let plain = DiffLineModel { kind: DiffLineKind::Header, text: line, old_line: None, new_line: None };
    let first = if line.len() > 0 { line[0] } else { ' ' };
    if at.old.length == 0 && at.new.length == 0 {
        match hunk_of(line) {
            Some(sides) => (
                DiffLineModel { kind: DiffLineKind::Hunk, ..plain },
                Reader { old: sides.0, new: sides.1 },
            ),
            None => if first == '\\' {
                (DiffLineModel { kind: DiffLineKind::Notice, ..plain }, at)
            } else {
                (plain, at)
            },
        }
    } else if first == '+' {
        (
            DiffLineModel {
                kind: DiffLineKind::Addition,
                new_line: Some(at.new.start),
                ..plain
            },
            Reader { new: past(at.new), ..at },
        )
    } else if first == '-' {
        (
            DiffLineModel {
                kind: DiffLineKind::Deletion,
                old_line: Some(at.old.start),
                ..plain
            },
            Reader { old: past(at.old), ..at },
        )
    } else if first == '\\' {
        (DiffLineModel { kind: DiffLineKind::Notice, ..plain }, at)
    } else {
        (
            DiffLineModel {
                kind: DiffLineKind::Context,
                old_line: Some(at.old.start),
                new_line: Some(at.new.start),
                ..plain
            },
            Reader { old: past(at.old), new: past(at.new) },
        )
    }
}

/// The lines of a diff, and where the reader stands after them.
pub open spec fn read_lines(all: Seq<Seq<char>>) -> (Seq<DiffLineModel>, Reader)
    decreases all.len(),
{
    if all.len() == 0 {
        (Seq::empty(), reader_at_start())
    } else {
        let before = read_lines(all.drop_last());
        let next = read_line(all.last(), before.1);
        (before.0.push(next.0), next.1)
    }
}

/// The lines of a unified diff.
pub open spec fn unified_diff(source: Seq<char>) -> Seq<DiffLineModel> {
    read_lines(lines::bare_lines(source)).0
}

fn parse_span(source: &str) -> (r: Option<Span>)
    ensures
        r == span_of(source@),
{
    let parts = split_text(source, ',');
    let ghost pieces = lines::fields(source@, ',');
    assert(parts@.len() == pieces.len());
    if parts.len() == 1 {
        assert(parts@[0]@ == pieces[0]);
        match parse_number(parts[0].as_str(), usize::MAX as u64) {
            Ok(start) => Some(Span { start: start as usize, length: 1 }),
            Err(_) => None,
        }
    } else if parts.len() == 2 {
        assert(parts@[0]@ == pieces[0]);
        assert(parts@[1]@ == pieces[1]);
        match parse_number(parts[0].as_str(), usize::MAX as u64) {
            Ok(start) => match parse_number(parts[1].as_str(), usize::MAX as u64) {
                Ok(length) => Some(Span { start: start as usize, length: length as usize }),
                Err(_) => None,
            },
            Err(_) => None,
        }
    } else {
        None
    }
}

fn parse_hunk(line: &str) -> (r: Option<(Span, Span)>)
    ensures
        r == hunk_of(line@),
{
    let parts = split_words(line);
    let ghost pieces = lines::words(line@);
    assert(parts@.len() == pieces.len());
    if parts.len() < 4 {
        return None;
    }
    assert(parts@[0]@ == pieces[0]);
    assert(parts@[1]@ == pieces[1]);
    assert(parts@[2]@ == pieces[2]);
    assert(parts@[3]@ == pieces[3]);
    if !same_text(parts[0].as_str(), "@@") || !same_text(parts[3].as_str(), "@@") {
        return None;
    }
    let old = match strip_prefix(parts[1].as_str(), "-") {
        Some(rest) => parse_span(rest.as_str()),
        None => {
            return None;
        },
    };
    let new = match strip_prefix(parts[2].as_str(), "+") {
        Some(rest) => parse_span(rest.as_str()),
        None => {
            return None;
        },
    };
    match (old, new) {
        (Some(old), Some(new)) => Some((old, new)),
        _ => None,
    }
}

fn step_past(side: Span) -> (r: Span)
    ensures
        r == past(side),
{
    Span { start: side.start.saturating_add(1), length: side.length.saturating_sub(1) }
}

/// Reads one line of a diff.
pub fn parse_diff_line(line: String, at: Reader) -> (r: (DiffLine, Reader))
    ensures
        r.0.deep_view() == read_line(line@, at).0,
        r.1 == read_line(line@, at).1,
{
    let chars = chars_of(line.as_str());
    let first: char = if chars.len() > 0 { chars[0] } else { ' ' };
    if at.old.length == 0 && at.new.length == 0 {
        match parse_hunk(line.as_str()) {
            Some(sides) => (
                DiffLine { kind: DiffLineKind::Hunk, text: line, old_line: None, new_line: None },
                Reader { old: sides.0, new: sides.1 },
            ),
            None => {
                let kind = if first == '\\' {
                    DiffLineKind::Notice
                } else {
                    DiffLineKind::Header
                };
                (DiffLine { kind, text: line, old_line: None, new_line: None }, at)
            },
        }
    } else if first == '+' {
        (
            DiffLine {
                kind: DiffLineKind::Addition,
                text: line,
                old_line: None,
                new_line: Some(at.new.start),
            },
            Reader { old: at.old, new: step_past(at.new) },
        )
    } else if first == '-' {
        (
            DiffLine {
                kind: DiffLineKind::Deletion,
                text: line,
                old_line: Some(at.old.start),
                new_line: None,
            },
            Reader { old: step_past(at.old), new: at.new },
        )
    } else if first == '\\' {
        (DiffLine { kind: DiffLineKind::Notice, text: line, old_line: None, new_line: None }, at)
    } else {
        (
            DiffLine {
                kind: DiffLineKind::Context,
                text: line,
                old_line: Some(at.old.start),
                new_line: Some(at.new.start),
            },
            Reader { old: step_past(at.old), new: step_past(at.new) },
        )
    }
}

/// Reads a unified diff.
pub fn parse_unified_diff(source: &str) -> (r: Vec<DiffLine>)
    ensures
        r.deep_view() == unified_diff(source@),
{
    let all = text_lines(source);
    let ghost pieces = lines::bare_lines(source@);
    let mut at = Reader { old: Span { start: 0, length: 0 }, new: Span { start: 0, length: 0 } };
    let mut r: Vec<DiffLine> = Vec::new();
    let mut i: usize = 0;
    assert(pieces.take(0) =~= Seq::empty());
    assert(r.deep_view() =~= Seq::empty());
    while i < all.len()
        invariant
            i <= all@.len(),
            lines::texts(all@) == pieces,
            r.deep_view() == read_lines(pieces.take(i as int)).0,
            at == read_lines(pieces.take(i as int)).1,
        decreases all@.len() - i,
    {
        let ghost before = r.deep_view();
        assert(pieces.take(i + 1).drop_last() =~= pieces.take(i as int));
        assert(pieces.take(i + 1).last() == all@[i as int]@);
        let (line, next) = parse_diff_line(all[i].clone(), at);
        at = next;
        r.push(line);
        assert(r.deep_view() =~= before.push(line.deep_view()));
        i = i + 1;
    }
    assert(pieces.take(i as int) =~= pieces);
    r
}

/// A diff has as many lines as its source.
pub proof fn diff_keeps_every_line(source: Seq<char>)
    ensures
        unified_diff(source).len() == lines::bare_lines(source).len(),
        forall|i: int|
            0 <= i < unified_diff(source).len() ==> (#[trigger] unified_diff(source)[i]).text
                == lines::bare_lines(source)[i],
{
    lemma_read_lines(lines::bare_lines(source));
}

proof fn lemma_read_lines(all: Seq<Seq<char>>)
    ensures
        read_lines(all).0.len() == all.len(),
        forall|i: int| 0 <= i < all.len() ==> (#[trigger] read_lines(all).0[i]).text == all[i],
    decreases all.len(),
{
    if all.len() > 0 {
        lemma_read_lines(all.drop_last());
    }
}

} // verus!
