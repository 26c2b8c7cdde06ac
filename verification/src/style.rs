//! Colors, styles and styled pieces of text.

use crate::model::ChangeKind;
use crate::path;
use crate::path::FilePath;
use crate::text;
use crate::text::{ascii_lowercase, same_text};
use vstd::prelude::*;
use vstd::string::*;
use vstd::utf8::*;

verus! {

/// A terminal color.
#[derive(Clone, Copy, Debug, PartialEq, Eq, Structural)]
pub enum Color {
    Reset,
    White,
    Cyan,
    Yellow,
    DarkGray,
    Green,
    Magenta,
    Red,
    Rgb(u8, u8, u8),
    Indexed(u8),
}

/// How a piece of text is drawn; what is left out stays as it is.
#[derive(Clone, Copy, Debug, PartialEq, Eq, Structural)]
pub struct Style {
    pub fg: Option<Color>,
    pub bg: Option<Color>,
    pub bold: bool,
}

/// No style.
#[verifier::allow_in_spec]
pub fn plain() -> Style
    returns
        (Style { fg: None, bg: None, bold: false }),
{
    Style { fg: None, bg: None, bold: false }
}

/// A foreground color.
#[verifier::allow_in_spec]
pub fn colored(fg: Color) -> Style
    returns
        (Style { fg: Some(fg), bg: None, bold: false }),
{
    Style { fg: Some(fg), bg: None, bold: false }
}

/// A bold foreground color.
#[verifier::allow_in_spec]
pub fn bold(fg: Color) -> Style
    returns
        (Style { fg: Some(fg), bg: None, bold: true }),
{
    Style { fg: Some(fg), bg: None, bold: true }
}

/// A foreground and a background color.
#[verifier::allow_in_spec]
pub fn on(fg: Color, bg: Color) -> Style
    returns
        (Style { fg: Some(fg), bg: Some(bg), bold: false }),
{
    Style { fg: Some(fg), bg: Some(bg), bold: false }
}

/// A bold foreground color on a background.
#[verifier::allow_in_spec]
pub fn bold_on(fg: Color, bg: Color) -> Style
    returns
        (Style { fg: Some(fg), bg: Some(bg), bold: true }),
{
    Style { fg: Some(fg), bg: Some(bg), bold: true }
}

/// A background color.
#[verifier::allow_in_spec]
pub fn background(bg: Color) -> Style
    returns
        (Style { fg: None, bg: Some(bg), bold: false }),
{
    Style { fg: None, bg: Some(bg), bold: false }
}

#[verifier::allow_in_spec]
pub fn panel_style() -> Style
    returns
        (Style { fg: Some(Color::White), bg: Some(Color::Reset), bold: false }),
{
    Style { fg: Some(Color::White), bg: Some(Color::Reset), bold: false }
}

#[verifier::allow_in_spec]
pub fn panel_selection() -> Color
    returns
        Color::Rgb(56, 64, 78),
{
    Color::Rgb(56, 64, 78)
}

#[verifier::allow_in_spec]
pub fn diff_text() -> Color
    returns
        Color::Rgb(208, 220, 238),
{
    Color::Rgb(208, 220, 238)
}

#[verifier::allow_in_spec]
pub fn diff_line_number() -> Color
    returns
        Color::Rgb(105, 137, 177),
{
    Color::Rgb(105, 137, 177)
}

#[verifier::allow_in_spec]
pub fn diff_addition() -> Color
    returns
        Color::Rgb(105, 224, 150),
{
    Color::Rgb(105, 224, 150)
}

#[verifier::allow_in_spec]
pub fn diff_deletion() -> Color
    returns
        Color::Rgb(246, 120, 134),
{
    Color::Rgb(246, 120, 134)
}

#[verifier::allow_in_spec]
pub fn diff_hunk() -> Color
    returns
        Color::Rgb(149, 180, 224),
{
    Color::Rgb(149, 180, 224)
}

#[verifier::allow_in_spec]
pub fn diff_addition_background() -> Color
    returns
        Color::Rgb(12, 67, 48),
{
    Color::Rgb(12, 67, 48)
}

#[verifier::allow_in_spec]
pub fn diff_deletion_background() -> Color
    returns
        Color::Rgb(76, 31, 43),
{
    Color::Rgb(76, 31, 43)
}

/// A piece of text in one style.
#[derive(Debug)]
pub struct Piece {
    pub text: String,
    pub style: Style,
}

#[verifier::ext_equal]
pub struct PieceModel {
    pub text: Seq<char>,
    pub style: Style,
}

impl DeepView for Piece {
    type V = PieceModel;

    open spec fn deep_view(&self) -> PieceModel {
        PieceModel { text: self.text@, style: self.style }
    }
}

/// A styled piece.
pub open spec fn piece_of(text: Seq<char>, style: Style) -> PieceModel {
    PieceModel { text, style }
}

/// A styled piece.
pub fn piece(text: String, style: Style) -> (r: Piece)
    ensures
        r.deep_view() == piece_of(text@, style),
{
    Piece { text, style }
}

/// The text of a line of pieces.
pub open spec fn line_text(line: Seq<PieceModel>) -> Seq<char>
    decreases line.len(),
{
    if line.len() == 0 {
        Seq::empty()
    } else {
        line_text(line.drop_last()) + line.last().text
    }
}

/// A line with one more piece.
pub fn add_piece(line: &mut Vec<Piece>, text: String, style: Style)
    ensures
        final(line).deep_view() == old(line).deep_view().push(piece_of(text@, style)),
{
    let ghost before = line.deep_view();
    line.push(Piece { text, style });
    assert(line.deep_view() =~= before.push(piece_of(text@, style)));
}

/// A copy of a line.
pub fn copy_line(line: &Vec<Piece>) -> (r: Vec<Piece>)
    ensures
        r.deep_view() == line.deep_view(),
{
    let ghost all = line.deep_view();
    let mut r: Vec<Piece> = Vec::new();
    let mut i: usize = 0;
    assert(r.deep_view() =~= all.take(0));
    while i < line.len()
        invariant
            i <= line@.len(),
            all == line.deep_view(),
            r.deep_view() == all.take(i as int),
        decreases line@.len() - i,
    {
        assert(all[i as int] == line@[i as int].deep_view());
        add_piece(&mut r, line[i].text.clone(), line[i].style);
        assert(all.take(i + 1) =~= all.take(i as int).push(all[i as int]));
        i = i + 1;
    }
    assert(all.take(i as int) =~= all);
    r
}

// ---------------------------------------------------------------------------
// Marks of changes and languages
// ---------------------------------------------------------------------------

pub open spec fn kind_symbol(kind: ChangeKind) -> Seq<char> {
    match kind {
        ChangeKind::Added => "A"@,
        ChangeKind::Modified => "M"@,
        ChangeKind::Deleted => "D"@,
        ChangeKind::Renamed => "R"@,
    }
}

pub open spec fn kind_color(kind: ChangeKind) -> Color {
    match kind {
        ChangeKind::Added => Color::Green,
        ChangeKind::Modified => Color::Magenta,
        ChangeKind::Deleted => Color::Red,
        ChangeKind::Renamed => Color::Cyan,
    }
}

/// The letter and color of a kind of change.
pub fn change_symbol(kind: ChangeKind) -> (r: (&'static str, Color))
    ensures
        r.0@ == kind_symbol(kind),
        r.1 == kind_color(kind),
{
    match kind {
        ChangeKind::Added => ("A", Color::Green),
        ChangeKind::Modified => ("M", Color::Magenta),
        ChangeKind::Deleted => ("D", Color::Red),
        ChangeKind::Renamed => ("R", Color::Cyan),
    }
}

/// The badge of a language.
#[derive(Clone, Copy, Debug)]
pub struct FileIcon {
    pub glyph: &'static str,
    pub color: Color,
}

#[verifier::ext_equal]
pub struct IconModel {
    pub glyph: Seq<char>,
    pub color: Color,
}

impl DeepView for FileIcon {
    type V = IconModel;

    open spec fn deep_view(&self) -> IconModel {
        IconModel { glyph: self.glyph@, color: self.color }
    }
}

pub open spec fn badge(glyph: Seq<char>, red: u8, green: u8, blue: u8) -> Option<IconModel> {
    Some(IconModel { glyph, color: Color::Rgb(red, green, blue) })
}

/// The badge of a file extension in lower case.
pub open spec fn extension_icon(e: Seq<char>) -> Option<IconModel> {
    if e == "rs"@ {
        badge("RS"@, 222, 165, 132)
    } else if e == "ts"@ {
        badge("TS"@, 49, 120, 198)
    } else if e == "tsx"@ {
        badge("⚛"@, 97, 218, 251)
    } else if e == "js"@ || e == "jsx"@ || e == "mjs"@ || e == "cjs"@ {
        badge("JS"@, 247, 223, 30)
    } else if e == "py"@ || e == "pyw"@ {
        badge("PY"@, 55, 118, 171)
    } else if e == "go"@ {
        badge("GO"@, 0, 173, 216)
    } else if e == "rb"@ {
        badge("RB"@, 204, 52, 45)
    } else if e == "php"@ {
        badge("PH"@, 119, 123, 180)
    } else if e == "java"@ {
        badge("JV"@, 248, 152, 32)
    } else if e == "kt"@ || e == "kts"@ {
        badge("KT"@, 127, 82, 255)
    } else if e == "swift"@ {
        badge("SW"@, 240, 81, 56)
    } else if e == "c"@ {
        badge("C"@, 85, 132, 181)
    } else if e == "h"@ || e == "hpp"@ || e == "hh"@ {
        badge("C#"@, 101, 155, 211)
    } else if e == "cc"@ || e == "cpp"@ || e == "cxx"@ {
        badge("C+"@, 0, 89, 156)
    } else if e == "cs"@ {
        badge("C#"@, 104, 33, 122)
    } else if e == "html"@ || e == "htm"@ {
        badge("<>"@, 227, 76, 38)
    } else if e == "css"@ || e == "scss"@ || e == "sass"@ || e == "less"@ {
        badge("#."@, 38, 77, 228)
    } else if e == "json"@ || e == "jsonc"@ || e == "json5"@ {
        badge("{}"@, 240, 180, 41)
    } else if e == "toml"@ {
        badge("TM"@, 156, 39, 176)
    } else if e == "yaml"@ || e == "yml"@ {
        badge("YM"@, 203, 56, 55)
    } else if e == "md"@ || e == "mdx"@ {
        badge("MD"@, 83, 174, 85)
    } else if e == "sh"@ || e == "bash"@ || e == "zsh"@ || e == "fish"@ || e == "ps1"@ {
        badge("SH"@, 137, 180, 72)
    } else if e == "sql"@ {
        badge("DB"@, 0, 150, 136)
    } else {
        None
    }
}

/// The badge of a path: by name for container files, else by extension.
pub open spec fn icon_of(p: Seq<u8>) -> IconModel {
    let container = match path::file_name(p) {
        Some(name) => valid_utf8(name) && (decode_utf8(name) == "Dockerfile"@ || decode_utf8(name)
            == "Containerfile"@),
        None => false,
    };
    let fallback = IconModel { glyph: "··"@, color: Color::DarkGray };
    if container {
        badge("DO"@, 36, 150, 237)->0
    } else {
        match path::extension(p) {
            Some(e) => if valid_utf8(e) {
                match extension_icon(text::ascii_lowercase_text(decode_utf8(e))) {
                    Some(icon) => icon,
                    None => fallback,
                }
            } else {
                fallback
            },
            None => fallback,
        }
    }
}

fn file_icon_badge(glyph: &'static str, red: u8, green: u8, blue: u8) -> (r: Option<FileIcon>)
    ensures
        r.deep_view() == badge(glyph@, red, green, blue),
{
    Some(FileIcon { glyph, color: Color::Rgb(red, green, blue) })
}

/// The badge of a file extension in lower case.
pub fn file_icon_for_extension(e: &str) -> (r: Option<FileIcon>)
    ensures
        r.deep_view() == extension_icon(e@),
{
    if same_text(e, "rs") {
        file_icon_badge("RS", 222, 165, 132)
    } else if same_text(e, "ts") {
        file_icon_badge("TS", 49, 120, 198)
    } else if same_text(e, "tsx") {
        file_icon_badge("⚛", 97, 218, 251)
    } else if same_text(e, "js") || same_text(e, "jsx") || same_text(e, "mjs") || same_text(e, "cjs") {
        file_icon_badge("JS", 247, 223, 30)
    } else if same_text(e, "py") || same_text(e, "pyw") {
        file_icon_badge("PY", 55, 118, 171)
    } else if same_text(e, "go") {
        file_icon_badge("GO", 0, 173, 216)
    } else if same_text(e, "rb") {
        file_icon_badge("RB", 204, 52, 45)
    } else if same_text(e, "php") {
        file_icon_badge("PH", 119, 123, 180)
    } else if same_text(e, "java") {
        file_icon_badge("JV", 248, 152, 32)
    } else if same_text(e, "kt") || same_text(e, "kts") {
        file_icon_badge("KT", 127, 82, 255)
    } else if same_text(e, "swift") {
        file_icon_badge("SW", 240, 81, 56)
    } else if same_text(e, "c") {
        file_icon_badge("C", 85, 132, 181)
    } else if same_text(e, "h") || same_text(e, "hpp") || same_text(e, "hh") {
        file_icon_badge("C#", 101, 155, 211)
    } else if same_text(e, "cc") || same_text(e, "cpp") || same_text(e, "cxx") {
        file_icon_badge("C+", 0, 89, 156)
    } else if same_text(e, "cs") {
        file_icon_badge("C#", 104, 33, 122)
    } else if same_text(e, "html") || same_text(e, "htm") {
        file_icon_badge("<>", 227, 76, 38)
    } else if same_text(e, "css") || same_text(e, "scss") || same_text(e, "sass") || same_text(e, "less") {
        file_icon_badge("#.", 38, 77, 228)
    } else if same_text(e, "json") || same_text(e, "jsonc") || same_text(e, "json5") {
        file_icon_badge("{}", 240, 180, 41)
    } else if same_text(e, "toml") {
        file_icon_badge("TM", 156, 39, 176)
    } else if same_text(e, "yaml") || same_text(e, "yml") {
        file_icon_badge("YM", 203, 56, 55)
    } else if same_text(e, "md") || same_text(e, "mdx") {
        file_icon_badge("MD", 83, 174, 85)
    } else if same_text(e, "sh") || same_text(e, "bash") || same_text(e, "zsh") || same_text(e, "fish") || same_text(e, "ps1") {
        file_icon_badge("SH", 137, 180, 72)
    } else if same_text(e, "sql") {
        file_icon_badge("DB", 0, 150, 136)
    } else {
        None
    }
}

/// The badge of a path.
pub fn file_icon(p: &FilePath) -> (r: FileIcon)
    ensures
        r.deep_view() == icon_of(p@),
{
    if let Some(name) = p.file_name_text() {
        if same_text(name.as_str(), "Dockerfile") || same_text(name.as_str(), "Containerfile") {
            return FileIcon { glyph: "DO", color: Color::Rgb(36, 150, 237) };
        }
    }
    if let Some(extension) = p.extension_text() {
        if let Some(icon) = file_icon_for_extension(ascii_lowercase(extension.as_str()).as_str()) {
            return icon;
        }
    }
    FileIcon { glyph: "··", color: Color::DarkGray }
}

// ---------------------------------------------------------------------------
// Source colors
// ---------------------------------------------------------------------------

/// A color component made a quarter brighter, at most 255.
pub open spec fn brightened(value: u8) -> u8 {
    if value * 125 / 100 > 255 {
        255
    } else {
        (value * 125 / 100) as u8
    }
}

/// Makes a color component a quarter brighter.
pub fn brighten_code_component(value: u8) -> (r: u8)
    ensures
        r == brightened(value),
{
    let wide: u16 = (value as u16) * 125 / 100;
    if wide > 255 {
        255
    } else {
        wide as u8
    }
}

/// The nearest of the six levels of the color cube.
pub open spec fn cube_level(value: u8) -> int {
    (value * 5 + 127) / 255
}

/// The terminal color for a color of the theme: brightened, and on the color cube
/// where the terminal has no true color.
pub open spec fn shown_color(red: u8, green: u8, blue: u8, true_color: bool) -> Color {
    let (r, g, b) = (brightened(red), brightened(green), brightened(blue));
    if true_color {
        Color::Rgb(r, g, b)
    } else {
        Color::Indexed((16 + 36 * cube_level(r) + 6 * cube_level(g) + cube_level(b)) as u8)
    }
}

fn level(value: u8) -> (r: u8)
    ensures
        r == cube_level(value),
        r <= 5,
{
    (((value as u16) * 5 + 127) / 255) as u8
}

/// The terminal color for a color of the theme.
pub fn terminal_color(red: u8, green: u8, blue: u8, true_color: bool) -> (r: Color)
    ensures
        r == shown_color(red, green, blue, true_color),
{
    let r: u8 = brighten_code_component(red);
    let g: u8 = brighten_code_component(green);
    let b: u8 = brighten_code_component(blue);
    if true_color {
        Color::Rgb(r, g, b)
    } else {
        Color::Indexed(16 + 36 * level(r) + 6 * level(g) + level(b))
    }
}

} // verus!
