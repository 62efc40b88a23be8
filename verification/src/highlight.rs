//! The highlight adapter: a line of source text becomes styled ranges that
//! cover it, and styled ranges become text with terminal escape codes.

use crate::style::byte_len;
use crate::style::spans_of;
use crate::style::Color;
use crate::style::FontStyle;
use crate::style::Style;
use crate::style::StyledRange;
use crate::style::StyledSpan;
use crate::text::decimal;
use crate::util::RUST_EXTENSION;
use syntect::easy::HighlightLines;
use syntect::highlighting::Theme;
use syntect::highlighting::ThemeSet;
use syntect::parsing::SyntaxReference;
use syntect::parsing::SyntaxSet;
use syntect::util::as_24_bit_terminal_escaped;
use vstd::prelude::*;
use vstd::utf8::*;

verus! {

/// The state of the highlighter between two lines of one text.
#[verifier::external_type_specification]
#[verifier::external_body]
pub struct ExHighlightLines<'a>(HighlightLines<'a>);

/// A set of syntax definitions.
#[verifier::external_type_specification]
#[verifier::external_body]
pub struct ExSyntaxSet(SyntaxSet);

/// One syntax definition of a set.
#[verifier::external_type_specification]
#[verifier::external_body]
pub struct ExSyntaxReference(SyntaxReference);

/// A colour theme.
#[verifier::external_type_specification]
#[verifier::external_body]
pub struct ExTheme(Theme);

/// A set of colour themes, each under its name.
#[verifier::external_type_specification]
#[verifier::external_body]
pub struct ExThemeSet(ThemeSet);

/// The name of the colour theme of the output.
pub const THEME_NAME: &'static str = "base16-ocean.dark";

/// The texts of the spans, one behind the other.
pub open spec fn joined(spans: Seq<StyledSpan>) -> Seq<char>
    decreases spans.len(),
{
    if spans.len() == 0 {
        Seq::empty()
    } else {
        joined(spans.drop_last()) + spans.last().text
    }
}

/// The spans cover `line`: their texts, one behind the other, are the line,
/// and none of them is empty.
pub open spec fn covers(spans: Seq<StyledSpan>, line: Seq<char>) -> bool {
    &&& joined(spans) == line
    &&& forall|i: int| 0 <= i < spans.len() ==> (#[trigger] spans[i]).text.len() > 0
}

/// The escape code that sets a colour: `layer` is `38` for the foreground
/// and `48` for the background.
pub open spec fn color_code(layer: Seq<char>, color: Color) -> Seq<char> {
    "\x1b["@ + layer + ";2;"@ + decimal(color.r as nat) + ";"@ + decimal(color.g as nat) + ";"@
        + decimal(color.b as nat) + "m"@
}

/// One span as the terminal takes it: the code of its background, if asked
/// for, the code of its foreground, and its text.
pub open spec fn escaped_span(span: StyledSpan, background: bool) -> Seq<char> {
    (if background {
        color_code("48"@, span.style.background)
    } else {
        Seq::empty()
    }) + color_code("38"@, span.style.foreground) + span.text
}

/// The spans as the terminal takes them, one behind the other. No code
/// resets the colours at the end.
pub open spec fn escaped(spans: Seq<StyledSpan>, background: bool) -> Seq<char>
    decreases spans.len(),
{
    if spans.len() == 0 {
        Seq::empty()
    } else {
        escaped(spans.drop_last(), background) + escaped_span(spans.last(), background)
    }
}

/// The syntax definition and the colour theme that the search highlights
/// with. The syntax definition is one of `syntaxes`, because it was looked up
/// there.
pub struct Highlighter<'a> {
    syntaxes: &'a SyntaxSet,
    syntax: &'a SyntaxReference,
    theme: &'a Theme,
}

/// Highlights the lines of one text, each in the state that the lines before
/// it have left.
pub struct LineHighlighter<'a> {
    lines: HighlightLines<'a>,
    syntaxes: &'a SyntaxSet,
}

/// The file extensions that the syntax definitions of `set` name, all of
/// them together.
pub uninterp spec fn syntax_extensions(set: SyntaxSet) -> Set<Seq<char>>;

/// The names under which `set` holds a theme.
pub uninterp spec fn theme_names(set: ThemeSet) -> Set<Seq<char>>;

/// The two sets hold what the search highlights with: a syntax definition
/// for Rust sources, and the theme of the output under its name.
pub open spec fn can_highlight(syntaxes: SyntaxSet, themes: ThemeSet) -> bool {
    &&& syntax_extensions(syntaxes).contains(RUST_EXTENSION@)
    &&& theme_names(themes).contains(THEME_NAME@)
}

/// `SyntaxSet::find_syntax_by_extension`: a syntax definition of `set` that
/// names `extension` among its file extensions. There is one if and only if
/// a definition of the set names the extension; which one comes back where
/// several do is not said here.
#[verifier::external_body]
fn syntax_for_extension<'a>(set: &'a SyntaxSet, extension: &str) -> (syntax: Option<
    &'a SyntaxReference,
>)
    ensures
        syntax.is_some() == syntax_extensions(*set).contains(extension@),
{
    set.find_syntax_by_extension(extension)
}

/// The theme that `set` holds under `name`: a lookup in the map
/// `ThemeSet::themes`, which finds a theme if and only if `name` is one of
/// its keys.
#[verifier::external_body]
fn theme_named<'a>(set: &'a ThemeSet, name: &str) -> (theme: Option<&'a Theme>)
    ensures
        theme.is_some() == theme_names(*set).contains(name@),
{
    set.themes.get(name)
}

/// `HighlightLines::new`: the state in front of the first line of a text.
#[verifier::external_body]
fn start_lines<'a>(syntax: &SyntaxReference, theme: &'a Theme) -> (lines: HighlightLines<'a>) {
    HighlightLines::new(syntax, theme)
}

/// `HighlightLines::highlight`, each token handed out as a styled range with
/// a text of its own. The tokens of a line, one behind the other, make the
/// line, and the highlighter hands out no empty token. Which styles they have
/// is the theme's matter. A `LineHighlighter` holds the set that its syntax
/// definition was looked up in, which is what the call asks for.
#[verifier::external_body]
fn highlight_line(state: &mut LineHighlighter<'_>, line: &str) -> (ranges: Vec<StyledRange>)
    ensures
        covers(spans_of(ranges@), line@),
{
    state.lines.highlight(line, state.syntaxes).into_iter().map(|(style, text)| StyledRange {
        style: Style {
            foreground: Color { r: style.foreground.r, g: style.foreground.g, b: style.foreground.b, a: style.foreground.a },
            background: Color { r: style.background.r, g: style.background.g, b: style.background.b, a: style.background.a },
            font_style: FontStyle { bits: style.font_style.bits() },
        },
        text: text.to_string(),
    }).collect()
}

/// `as_24_bit_terminal_escaped`: for each range the escape code of its
/// background colour, if `background` is set, the escape code of its
/// foreground colour, and its text. Font styles leave no trace.
#[verifier::external_body]
fn terminal_escaped(ranges: &Vec<StyledRange>, background: bool) -> (text: String)
    ensures
        text@ == escaped(spans_of(ranges@), background),
{
    let styled: Vec<(syntect::highlighting::Style, &str)> = ranges.iter().map(|range| (syntect::highlighting::Style {
        foreground: syntect::highlighting::Color { r: range.style.foreground.r, g: range.style.foreground.g, b: range.style.foreground.b, a: range.style.foreground.a },
        background: syntect::highlighting::Color { r: range.style.background.r, g: range.style.background.g, b: range.style.background.b, a: range.style.background.a },
        font_style: syntect::highlighting::FontStyle::from_bits_truncate(range.style.font_style.bits),
    }, range.text.as_str())).collect();
    as_24_bit_terminal_escaped(&styled[..], background)
}

impl<'a> Highlighter<'a> {
    /// The set of syntax definitions that the highlighter works with.
    pub closed spec fn syntaxes(&self) -> SyntaxSet {
        *self.syntaxes
    }

    /// Looks up the syntax definition of Rust sources in `syntaxes` and the
    /// theme of the output in `themes`. There is a highlighter if and only if
    /// both are found, and it works with the set that its syntax definition
    /// was looked up in.
    pub fn new(syntaxes: &'a SyntaxSet, themes: &'a ThemeSet) -> (highlighter: Option<
        Highlighter<'a>,
    >)
        ensures
            highlighter.is_some() == can_highlight(*syntaxes, *themes),
            highlighter matches Some(found) ==> found.syntaxes() == *syntaxes,
    {
        match syntax_for_extension(syntaxes, RUST_EXTENSION) {
            Some(syntax) => match theme_named(themes, THEME_NAME) {
                Some(theme) => Some(Highlighter { syntaxes, syntax, theme }),
                None => None,
            },
            None => None,
        }
    }

    /// A highlighter in front of the first line of a text. It works with the
    /// set of syntax definitions that this highlighter works with.
    pub fn lines(&self) -> (state: LineHighlighter<'a>)
        ensures
            state.syntaxes() == self.syntaxes(),
    {
        LineHighlighter { lines: start_lines(self.syntax, self.theme), syntaxes: self.syntaxes }
    }
}

impl<'a> LineHighlighter<'a> {
    /// The set of syntax definitions that the lines are highlighted with.
    pub closed spec fn syntaxes(&self) -> SyntaxSet {
        *self.syntaxes
    }

    /// Highlights the next line of the text. The ranges cover the line.
    pub fn highlight(&mut self, line: &str) -> (ranges: Vec<StyledRange>)
        ensures
            covers(spans_of(ranges@), line@),
    {
        highlight_line(self, line)
    }
}

/// Writes styled ranges with the escape codes of their colours, backgrounds
/// included.
pub fn escape(ranges: &Vec<StyledRange>) -> (text: String)
    ensures
        text@ == escaped(spans_of(ranges@), true),
{
    terminal_escaped(ranges, true)
}

} // verus!
