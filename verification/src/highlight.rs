//! Syntax highlighting in bounded chunks.

use crate::lines;
use crate::lines::{lines_with_endings, trim_line_end};
use crate::path;
use crate::path::FilePath;
use crate::source::{ColoredModel, ColoredSpan};
use crate::style;
use crate::style::{terminal_color, Color};
use crate::text;
use crate::text::{ascii_lowercase, same_text};
use syntect::easy::HighlightLines;
use syntect::highlighting::Theme;
use syntect::parsing::{SyntaxReference, SyntaxSet};
use vstd::prelude::*;
use vstd::string::*;
use vstd::utf8::*;

verus! {

/// Whether the terminal shows any color, by what `COLORTERM` says.
pub fn supports_true_color(colorterm: Option<&str>) -> (r: bool)
    ensures
        r == (colorterm matches Some(v) && (v@ == "truecolor"@ || v@ == "24bit"@)),
{
    match colorterm {
        Some(value) => same_text(value, "truecolor") || same_text(value, "24bit"),
        None => false,
    }
}

/// The lines that are highlighted before they are handed on.
pub const HIGHLIGHT_CHUNK_LINES: usize = 256;

/// `syntect::parsing::SyntaxSet`: a collection of syntaxes.
#[verifier::external_type_specification]
#[verifier::external_body]
pub struct ExSyntaxSet(SyntaxSet);

/// `syntect::parsing::SyntaxReference`: one syntax of a set.
#[verifier::external_type_specification]
#[verifier::external_body]
pub struct ExSyntaxReference(SyntaxReference);

/// `syntect::highlighting::Theme`: the colors of a theme.
#[verifier::external_type_specification]
#[verifier::external_body]
pub struct ExTheme(Theme);

/// `syntect::easy::HighlightLines`: a highlighter that is fed line by line.
#[verifier::external_type_specification]
#[verifier::external_body]
pub struct ExHighlightLines<'a>(HighlightLines<'a>);

/// A set is the one that comes with `syntect`. Its syntaxes have the context to begin with,
/// and their patterns can be compiled; of a set that was built by hand neither is known.
pub uninterp spec fn bundled(set: SyntaxSet) -> bool;

/// Calls `SyntaxSet::load_defaults_newlines`: the set that comes with the crate, for lines
/// with their ends.
#[verifier::external_body]
fn load_bundled() -> (r: SyntaxSet)
    ensures
        bundled(r),
{
    SyntaxSet::load_defaults_newlines()
}

/// The syntaxes to highlight with.
pub fn bundled_syntaxes() -> (r: SyntaxSet)
    ensures
        bundled(r),
{
    load_bundled()
}

/// The syntaxes that a set holds.
pub uninterp spec fn syntaxes_of(set: SyntaxSet) -> Set<SyntaxReference>;

/// The syntax of a set that a token or a name stands for.
pub uninterp spec fn syntax_of_token(set: SyntaxSet, token: Seq<char>) -> Option<SyntaxReference>;

/// Calls `SyntaxSet::find_syntax_by_token`, which looks in the set for a syntax with
/// the token as a file extension and then for one with the token as its name.
#[verifier::external_body]
pub(crate) fn find_by_token<'a>(set: &'a SyntaxSet, token: &str) -> (r: Option<&'a SyntaxReference>)
    ensures
        match r {
            Some(syntax) => syntax_of_token(*set, token@) == Some(*syntax) && syntaxes_of(
                *set,
            ).contains(*syntax),
            None => syntax_of_token(*set, token@) is None,
        },
{
    set.find_syntax_by_token(token)
}

/// The syntax of a set that has a name.
pub uninterp spec fn syntax_of_name(set: SyntaxSet, name: Seq<char>) -> Option<SyntaxReference>;

/// Calls `SyntaxSet::find_syntax_by_name`, which looks in the set for a syntax of
/// exactly that name.
#[verifier::external_body]
pub(crate) fn find_by_name<'a>(set: &'a SyntaxSet, name: &str) -> (r: Option<&'a SyntaxReference>)
    ensures
        match r {
            Some(syntax) => syntax_of_name(*set, name@) == Some(*syntax) && syntaxes_of(
                *set,
            ).contains(*syntax),
            None => syntax_of_name(*set, name@) is None,
        },
{
    set.find_syntax_by_name(name)
}

/// What a highlighter was made with, and the lines it was fed since, each with the
/// set of syntaxes that it was parsed with.
#[verifier::ext_equal]
pub struct Feed {
    pub syntax: SyntaxReference,
    pub theme: Theme,
    pub lines: Seq<(Seq<char>, SyntaxSet)>,
}

/// What a highlighter was made with and fed, which is all that its state comes from.
pub uninterp spec fn feed_of(highlighter: HighlightLines<'_>) -> Feed;

/// Calls `HighlightLines::new`: a highlighter for a syntax and a theme that was fed no
/// line. The call panics where the syntax has no context to begin with; those of the set
/// that comes with the crate have one.
#[verifier::external_body]
fn new_highlighter<'a>(syntax: &SyntaxReference, theme: &'a Theme) -> (r: HighlightLines<'a>)
    requires
        exists|set: SyntaxSet| bundled(set) && #[trigger] syntaxes_of(set).contains(*syntax),
    ensures
        feed_of(r) == (Feed { syntax: *syntax, theme: *theme, lines: Seq::empty() }),
{
    HighlightLines::new(syntax, theme)
}

/// The foreground color that a theme gives to text without a scope.
pub uninterp spec fn foreground_of(theme: Theme) -> Option<Rgba>;

/// Reads `Theme::settings.foreground`, named by `foreground_of`.
#[verifier::external_body]
fn theme_foreground(theme: &Theme) -> (r: Option<Rgba>)
    ensures
        r == foreground_of(*theme),
{
    theme.settings.foreground.map(|c| Rgba { red: c.r, green: c.g, blue: c.b, alpha: c.a })
}

/// A piece of a line with the foreground color that the theme gives it.
#[derive(Debug)]
pub struct ThemedPiece {
    pub text: String,
    pub color: Rgba,
}

/// A color of a theme.
#[derive(Clone, Copy, Debug, PartialEq, Eq, Structural)]
pub struct Rgba {
    pub red: u8,
    pub green: u8,
    pub blue: u8,
    pub alpha: u8,
}

#[verifier::ext_equal]
pub struct ThemedModel {
    pub text: Seq<char>,
    pub color: Rgba,
}

impl DeepView for ThemedPiece {
    type V = ThemedModel;

    open spec fn deep_view(&self) -> ThemedModel {
        ThemedModel { text: self.text@, color: self.color }
    }
}

/// The texts of pieces, one after the other.
pub open spec fn joined_pieces(pieces: Seq<ThemedModel>) -> Seq<char>
    decreases pieces.len(),
{
    if pieces.len() == 0 {
        Seq::empty()
    } else {
        joined_pieces(pieces.drop_last()) + pieces.last().text
    }
}

/// The pieces that a highlighter gives for the last line that it was fed, the state
/// being what the lines before left. It has none where that line cannot be parsed.
pub uninterp spec fn last_pieces(feed: Feed) -> Seq<ThemedModel>;

/// Calls `HighlightLines::highlight_line` with a set of syntaxes. The line joins what
/// the highlighter was fed, and the pieces, named by `last_pieces`, are consecutive
/// parts of the line from its beginning; a line that cannot be parsed gives none. The
/// set must hold the syntax of the highlighter, and be the one of the lines before. The
/// call panics where a pattern cannot be compiled; those of the set that comes with the
/// crate can.
#[verifier::external_body]
fn highlight_line<'a>(highlighter: &mut HighlightLines<'a>, line: &str, set: &SyntaxSet) -> (r: Vec<
    ThemedPiece,
>)
    requires
        bundled(*set),
        syntaxes_of(*set).contains(feed_of(*old(highlighter)).syntax),
        forall|i: int|
            0 <= i < feed_of(*old(highlighter)).lines.len() ==> (#[trigger] feed_of(
                *old(highlighter),
            ).lines[i]).1 == *set,
    ensures
        feed_of(*final(highlighter)) == (Feed {
            lines: feed_of(*old(highlighter)).lines.push((line@, *set)),
            ..feed_of(*old(highlighter))
        }),
        r.deep_view() == last_pieces(feed_of(*final(highlighter))),
        lines::starts_with(line@, joined_pieces(r.deep_view())),
{
    let pieces = highlighter.highlight_line(line, set).unwrap_or_default();
    pieces
        .into_iter()
        .map(|(style, text)| {
            let c = style.foreground;
            ThemedPiece { text: text.to_owned(), color: Rgba { red: c.r, green: c.g, blue: c.b, alpha: c.a } }
        })
        .collect()
}

// ---------------------------------------------------------------------------
// Which syntax
// ---------------------------------------------------------------------------

/// The extensions that are highlighted as JavaScript.
pub open spec fn javascript_family(p: Seq<u8>) -> bool {
    match path::extension(p) {
        Some(e) => valid_utf8(e) && {
            let lower = text::ascii_lowercase_text(decode_utf8(e));
            lower == "jsx"@ || lower == "tsx"@ || lower == "ts"@
        },
        None => false,
    }
}

/// Whether a file is highlighted as JavaScript.
pub fn is_javascript_family(p: &FilePath) -> (r: bool)
    ensures
        r == javascript_family(p@),
{
    match p.extension_text() {
        Some(extension) => {
            let lower = ascii_lowercase(extension.as_str());
            same_text(lower.as_str(), "jsx") || same_text(lower.as_str(), "tsx") || same_text(
                lower.as_str(),
                "ts",
            )
        },
        None => false,
    }
}

/// A first choice, or else the syntax for plain text.
pub open spec fn or_plain(
    set: SyntaxSet,
    choice: Option<SyntaxReference>,
) -> Option<SyntaxReference> {
    match choice {
        Some(syntax) => Some(syntax),
        None => syntax_of_name(set, "Plain Text"@),
    }
}

/// The syntax of a file: JavaScript for its family, else the one that was found for
/// the file itself, else plain text.
pub open spec fn chosen_syntax(
    set: SyntaxSet,
    relative: Seq<u8>,
    by_file: Option<SyntaxReference>,
) -> Option<SyntaxReference> {
    if javascript_family(relative) {
        or_plain(set, syntax_of_token(set, "JavaScript"@))
    } else {
        or_plain(set, by_file)
    }
}

/// Chooses the syntax of a file. `by_file` is what the set finds for the name and
/// the first line of the file. There is none where the set has not even a syntax
/// for plain text.
pub fn syntax_for_file<'a>(
    relative: &FilePath,
    by_file: Option<&'a SyntaxReference>,
    set: &'a SyntaxSet,
) -> (r: Option<&'a SyntaxReference>)
    requires
        by_file matches Some(syntax) ==> syntaxes_of(*set).contains(*syntax),
    ensures
        match r {
            Some(syntax) => {
                &&& chosen_syntax(
                    *set,
                    relative@,
                    match by_file {
                        Some(found) => Some(*found),
                        None => None,
                    },
                ) == Some(*syntax)
                &&& syntaxes_of(*set).contains(*syntax)
            },
            None => chosen_syntax(
                *set,
                relative@,
                match by_file {
                    Some(found) => Some(*found),
                    None => None,
                },
            ) is None,
        },
{
    let choice = if is_javascript_family(relative) {
        find_by_token(set, "JavaScript")
    } else {
        by_file
    };
    match choice {
        Some(syntax) => Some(syntax),
        None => find_by_name(set, "Plain Text"),
    }
}

// ---------------------------------------------------------------------------
// Lines in chunks
// ---------------------------------------------------------------------------

/// The terminal color of a piece: white for the default color of the theme.
pub open spec fn piece_color(
    color: Rgba,
    default_foreground: Option<Rgba>,
    true_color: bool,
) -> Color {
    if default_foreground == Some(color) {
        Color::White
    } else {
        style::shown_color(color.red, color.green, color.blue, true_color)
    }
}

/// The colored spans of a highlighted line.
pub open spec fn colored(
    pieces: Seq<ThemedModel>,
    default_foreground: Option<Rgba>,
    true_color: bool,
) -> Seq<ColoredModel> {
    pieces.map_values(
        |piece: ThemedModel|
            ColoredModel {
                text: lines::without_line_end(piece.text),
                foreground: piece_color(piece.color, default_foreground, true_color),
            },
    )
}

/// Turns the pieces of a highlighted line into spans.
pub fn colored_line(
    pieces: &Vec<ThemedPiece>,
    default_foreground: Option<Rgba>,
    true_color: bool,
) -> (r: Vec<ColoredSpan>)
    ensures
        r.deep_view() == colored(pieces.deep_view(), default_foreground, true_color),
{
    let ghost all = colored(pieces.deep_view(), default_foreground, true_color);
    let mut r: Vec<ColoredSpan> = Vec::new();
    let mut i: usize = 0;
    assert(r.deep_view() =~= all.take(0));
    while i < pieces.len()
        invariant
            i <= pieces@.len(),
            all == colored(pieces.deep_view(), default_foreground, true_color),
            r.deep_view() == all.take(i as int),
        decreases pieces@.len() - i,
    {
        let ghost before = r.deep_view();
        let color = pieces[i].color;
        let usual: bool = match default_foreground {
            Some(usual) => usual == color,
            None => false,
        };
        let span = ColoredSpan {
            text: trim_line_end(pieces[i].text.as_str()),
            foreground: if usual {
                Color::White
            } else {
                terminal_color(color.red, color.green, color.blue, true_color)
            },
        };
        assert(pieces.deep_view()[i as int] == pieces@[i as int].deep_view());
        assert(span.deep_view() == all[i as int]);
        r.push(span);
        assert(r.deep_view() =~= before.push(all[i as int]));
        assert(all.take(i + 1) =~= before.push(all[i as int]));
        i = i + 1;
    }
    assert(all.take(i as int) =~= all);
    r
}

/// Some highlighted lines: the first of them is line `start` of the file.
#[derive(Debug)]
pub struct HighlightChunk {
    pub start: usize,
    pub lines: Vec<Vec<ColoredSpan>>,
    pub complete: bool,
}

/// Which lines a chunk holds, and whether it is the last one.
#[verifier::ext_equal]
pub struct ChunkModel {
    pub start: int,
    pub lines: int,
    pub complete: bool,
}

impl HighlightChunk {
    /// The lines of the chunk.
    pub open spec fn extent(&self) -> ChunkModel {
        ChunkModel {
            start: self.start as int,
            lines: self.lines@.len() as int,
            complete: self.complete,
        }
    }
}

/// The chunk that begins at a line of a file: as many lines as a chunk holds, or all that
/// are left, and then it is the last one.
pub open spec fn chunk_at(total: nat, start: int) -> ChunkModel {
    let left = total - start;
    ChunkModel {
        start,
        lines: if left < HIGHLIGHT_CHUNK_LINES {
            left
        } else {
            HIGHLIGHT_CHUNK_LINES as int
        },
        complete: left <= HIGHLIGHT_CHUNK_LINES,
    }
}

/// A file that is being highlighted.
pub struct SourceHighlighter<'a> {
    lines: Vec<String>,
    at: usize,
    finished: bool,
    highlighter: HighlightLines<'a>,
    set: &'a SyntaxSet,
    default_foreground: Option<Rgba>,
    true_color: bool,
}

/// Lines, each with the set that it is parsed with.
pub open spec fn paired(all: Seq<Seq<char>>, set: SyntaxSet) -> Seq<(Seq<char>, SyntaxSet)> {
    all.map_values(|line: Seq<char>| (line, set))
}

/// How a text is highlighted.
#[verifier::ext_equal]
pub struct Highlighting {
    pub syntax: SyntaxReference,
    pub set: SyntaxSet,
    pub theme: Theme,
    pub true_color: bool,
}

impl Highlighting {
    /// A line of a text in color. Its colors depend on the lines before it.
    pub open spec fn colored_line(self, all: Seq<Seq<char>>, index: int) -> Seq<ColoredModel> {
        colored(
            last_pieces(
                Feed {
                    syntax: self.syntax,
                    theme: self.theme,
                    lines: paired(all.take(index + 1), self.set),
                },
            ),
            foreground_of(self.theme),
            self.true_color,
        )
    }
}

/// The spans show a part of a line, from its beginning, without its end.
pub open spec fn shows_part(
    spans: Seq<ColoredModel>,
    line: Seq<char>,
    default_foreground: Option<Rgba>,
    true_color: bool,
) -> bool {
    exists|pieces: Seq<ThemedModel>|
        lines::starts_with(line, #[trigger] joined_pieces(pieces)) && spans == colored(
            pieces,
            default_foreground,
            true_color,
        )
}

impl<'a> SourceHighlighter<'a> {
    /// The lines of the file with their ends.
    pub closed spec fn source_lines(&self) -> Seq<Seq<char>> {
        lines::texts(self.lines@)
    }

    /// How many lines were handed on.
    pub closed spec fn position(&self) -> nat {
        self.at as nat
    }

    /// Everything was handed on.
    pub closed spec fn is_finished(&self) -> bool {
        self.finished
    }

    /// How the file is highlighted.
    pub closed spec fn highlighting(&self) -> Highlighting {
        Highlighting {
            syntax: feed_of(self.highlighter).syntax,
            set: *self.set,
            theme: feed_of(self.highlighter).theme,
            true_color: self.true_color,
        }
    }

    pub closed spec fn well_formed(&self) -> bool {
        &&& self.at <= self.lines@.len()
        &&& self.finished ==> self.at == self.lines@.len()
        &&& !self.finished ==> self.at < self.lines@.len() || self.lines@.len() == 0
        &&& self.default_foreground == foreground_of(feed_of(self.highlighter).theme)
        &&& bundled(*self.set)
        &&& syntaxes_of(*self.set).contains(feed_of(self.highlighter).syntax)
        &&& feed_of(self.highlighter).lines == paired(
            self.source_lines().take(self.at as int),
            *self.set,
        )
    }

    /// Begins to highlight a text.
    pub fn new(
        text: &str,
        syntax: &SyntaxReference,
        set: &'a SyntaxSet,
        theme: &'a Theme,
        true_color: bool,
    ) -> (r: SourceHighlighter<'a>)
        requires
            bundled(*set),
            syntaxes_of(*set).contains(*syntax),
        ensures
            r.well_formed(),
            r.source_lines() == lines::line_pieces(text@),
            r.position() == 0,
            !r.is_finished(),
            r.highlighting() == (Highlighting {
                syntax: *syntax,
                set: *set,
                theme: *theme,
                true_color,
            }),
    {
        let r = SourceHighlighter {
            lines: lines_with_endings(text),
            at: 0,
            finished: false,
            highlighter: new_highlighter(syntax, theme),
            set,
            default_foreground: theme_foreground(theme),
            true_color,
        };
        assert(feed_of(r.highlighter).lines =~= paired(r.source_lines().take(0), *set));
        r
    }

    /// Highlights the next lines: at most 256, and all that are left when it is the
    /// last chunk. A text without lines gives one empty chunk.
    pub fn next_chunk(&mut self) -> (r: Option<HighlightChunk>)
        requires
            old(self).well_formed(),
        ensures
            final(self).well_formed(),
            final(self).source_lines() == old(self).source_lines(),
            final(self).highlighting() == old(self).highlighting(),
            r is None <==> old(self).is_finished(),
            r is None ==> final(self).position() == old(self).position()
                && final(self).is_finished(),
            r matches Some(chunk) ==> {
                let all = old(self).source_lines();
                let how = old(self).highlighting();
                &&& chunk.extent() == chunk_at(all.len(), old(self).position() as int)
                &&& final(self).position() == chunk.start + chunk.lines@.len()
                &&& final(self).is_finished() == chunk.complete
                &&& forall|i: int|
                    0 <= i < chunk.lines@.len() ==> {
                        let line = #[trigger] chunk.lines.deep_view()[i];
                        line == how.colored_line(all, chunk.start + i) && shows_part(
                            line,
                            all[chunk.start + i],
                            foreground_of(how.theme),
                            how.true_color,
                        )
                    }
            },
    {
        if self.finished {
            return None;
        }
        let start: usize = self.at;
        let total: usize = self.lines.len();
        let count: usize = if total - start < HIGHLIGHT_CHUNK_LINES {
            total - start
        } else {
            HIGHLIGHT_CHUNK_LINES
        };
        let mut chunk: Vec<Vec<ColoredSpan>> = Vec::new();
        let ghost all = self.source_lines();
        let ghost how = self.highlighting();
        while chunk.len() < count
            invariant
                chunk@.len() <= count,
                start + count <= total,
                total == all.len(),
                all == self.source_lines(),
                how == self.highlighting(),
                self.at == start,
                self.finished == old(self).finished,
                all == old(self).source_lines(),
                how == old(self).highlighting(),
                self.default_foreground == foreground_of(how.theme),
                bundled(how.set),
                syntaxes_of(how.set).contains(how.syntax),
                feed_of(self.highlighter).lines == paired(
                    all.take(start + chunk@.len()),
                    how.set,
                ),
                forall|i: int|
                    0 <= i < chunk@.len() ==> {
                        let line = #[trigger] chunk.deep_view()[i];
                        line == how.colored_line(all, start + i) && shows_part(
                            line,
                            all[start + i],
                            foreground_of(how.theme),
                            how.true_color,
                        )
                    },
            decreases count - chunk@.len(),
        {
            let n: usize = chunk.len();
            let line = self.lines[start + n].clone();
            assert(all[start + n] == line@);
            let ghost earlier = feed_of(self.highlighter);
            let pieces = highlight_line(&mut self.highlighter, line.as_str(), self.set);
            assert(paired(all.take(start + n + 1), how.set) =~= earlier.lines.push(
                (line@, how.set),
            ));
            let spans = colored_line(&pieces, self.default_foreground, self.true_color);
            let ghost model = spans.deep_view();
            proof {
                assert(feed_of(self.highlighter) == (Feed {
                    syntax: how.syntax,
                    theme: how.theme,
                    lines: paired(all.take(start + n + 1), how.set),
                }));
                assert(model == how.colored_line(all, start + n));
                assert(lines::starts_with(line@, joined_pieces(pieces.deep_view())));
                assert(shows_part(
                    model,
                    all[start + n],
                    foreground_of(how.theme),
                    how.true_color,
                ));
            }
            let ghost before = chunk.deep_view();
            chunk.push(spans);
            assert(chunk.deep_view() =~= before.push(model));
        }
        self.at = start + count;
        let complete: bool = self.at == total;
        self.finished = complete;
        Some(HighlightChunk { start, lines: chunk, complete })
    }
}

// ---------------------------------------------------------------------------
// Laws of the chunks
// ---------------------------------------------------------------------------

/// The chunks that a file with so many lines gives, one after the other from the first
/// line on. None follows the last one.
pub open spec fn given_in_turn(total: nat, chunks: Seq<ChunkModel>) -> bool
    decreases chunks.len(),
{
    if chunks.len() == 0 {
        true
    } else {
        let before = chunks.drop_last();
        &&& given_in_turn(total, before)
        &&& chunks.last() == chunk_at(
            total,
            if before.len() == 0 {
                0
            } else {
                before.last().start + before.last().lines
            },
        )
        &&& before.len() > 0 ==> !before.last().complete
    }
}

/// How many lines several chunks hold.
pub open spec fn lines_in(chunks: Seq<ChunkModel>) -> int
    decreases chunks.len(),
{
    if chunks.len() == 0 {
        0
    } else {
        lines_in(chunks.drop_last()) + chunks.last().lines
    }
}

/// The chunks of a file tile its lines in order: each begins where the ones before it end,
/// none is too long, and the one that reaches the last line, and it alone, is marked as
/// the last. A file without lines gives one empty chunk.
pub proof fn chunks_tile_the_lines(total: nat, chunks: Seq<ChunkModel>)
    requires
        given_in_turn(total, chunks),
    ensures
        forall|i: int|
            0 <= i < chunks.len() ==> {
                &&& (#[trigger] chunks[i]).start == lines_in(chunks.take(i))
                &&& 0 <= chunks[i].lines <= 256
                &&& chunks[i].complete ==> i == chunks.len() - 1
            },
        0 <= lines_in(chunks) <= total,
        chunks.len() > 0 ==> (chunks.last().complete <==> lines_in(chunks) == total),
        chunks.len() > 0 && total == 0 ==> chunks == seq![
            ChunkModel { start: 0, lines: 0, complete: true },
        ],
    decreases chunks.len(),
{
    if chunks.len() > 0 {
        let before = chunks.drop_last();
        chunks_tile_the_lines(total, before);
        assert(chunks.take(chunks.len() - 1) =~= before);
        if before.len() > 0 {
            assert(before[before.len() - 1].start == lines_in(before.take(before.len() - 1)));
            assert(before.take(before.len() - 1) =~= before.drop_last());
        }
        assert forall|i: int| 0 <= i < chunks.len() implies {
            &&& (#[trigger] chunks[i]).start == lines_in(chunks.take(i))
            &&& 0 <= chunks[i].lines <= 256
            &&& chunks[i].complete ==> i == chunks.len() - 1
        } by {
            if i < before.len() {
                assert(chunks[i] == before[i]);
                assert(chunks.take(i) =~= before.take(i));
                if i < before.len() - 1 {
                    assert(!before[i].complete);
                }
            }
        }
    }
}

/// The rest of the chunks of a file from a line on.
pub open spec fn chunks_from(total: nat, start: int) -> Seq<ChunkModel>
    decreases total - start,
{
    let chunk = chunk_at(total, start);
    if chunk.complete {
        seq![chunk]
    } else {
        seq![chunk] + chunks_from(total, start + chunk.lines)
    }
}

proof fn lemma_chunks_go_on(total: nat, chunks: Seq<ChunkModel>)
    requires
        given_in_turn(total, chunks),
        chunks.len() > 0 ==> !chunks.last().complete,
    ensures
        ({
            let whole = chunks + chunks_from(total, lines_in(chunks));
            &&& given_in_turn(total, whole)
            &&& whole.len() > 0
            &&& whole.last().complete
        }),
    decreases total - lines_in(chunks),
{
    chunks_tile_the_lines(total, chunks);
    let at = lines_in(chunks);
    let chunk = chunk_at(total, at);
    let more = chunks.push(chunk);
    assert(more.drop_last() =~= chunks);
    if chunks.len() > 0 {
        assert(chunks[chunks.len() - 1].start == lines_in(chunks.take(chunks.len() - 1)));
        assert(chunks.take(chunks.len() - 1) =~= chunks.drop_last());
    }
    assert(given_in_turn(total, more));
    if chunk.complete {
        assert(chunks + chunks_from(total, at) =~= more);
    } else {
        assert(lines_in(more) == at + chunk.lines);
        lemma_chunks_go_on(total, more);
        assert(chunks + chunks_from(total, at) =~= more + chunks_from(total, at + chunk.lines));
    }
}

/// Every file has a last chunk: asked again and again, the highlighter comes to the end,
/// and the chunks hold all lines.
pub proof fn chunks_come_to_an_end(total: nat)
    ensures
        given_in_turn(total, chunks_from(total, 0)),
        chunks_from(total, 0).len() > 0,
        chunks_from(total, 0).last().complete,
        lines_in(chunks_from(total, 0)) == total,
{
    lemma_chunks_go_on(total, Seq::empty());
    assert(Seq::<ChunkModel>::empty() + chunks_from(total, 0) =~= chunks_from(total, 0));
    chunks_tile_the_lines(total, chunks_from(total, 0));
}

} // verus!
