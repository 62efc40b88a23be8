//! Colours and font styles of a piece of highlighted text.

use vstd::prelude::*;
use vstd::string::StringSliceAdditionalSpecFns;
use vstd::utf8::*;

verus! {

/// A colour with its transparency.
#[derive(Clone, Copy, Debug, PartialEq, Eq, Structural)]
pub struct Color {
    pub r: u8,
    pub g: u8,
    pub b: u8,
    pub a: u8,
}

/// A set of font styles, one bit each.
#[derive(Clone, Copy, Debug, PartialEq, Eq, Structural)]
pub struct FontStyle {
    pub bits: u8,
}

/// How a piece of text is shown.
#[derive(Clone, Copy, Debug, PartialEq, Eq, Structural)]
pub struct Style {
    pub foreground: Color,
    pub background: Color,
    pub font_style: FontStyle,
}

/// The bit of the bold font style.
pub const BOLD: u8 = 1;

/// The bit of the underlined font style.
pub const UNDERLINE: u8 = 2;

/// The bit of the italic font style.
pub const ITALIC: u8 = 4;

/// The foreground colour of an emphasised match.
pub open spec fn highlight_color() -> Color {
    Color { r: 255, g: 255, b: 80, a: 255 }
}

/// `style` with the emphasis of a match: bold and nothing else, in the
/// highlight colour, on the background it had.
pub open spec fn emphasized(style: Style) -> Style {
    Style {
        foreground: highlight_color(),
        background: style.background,
        font_style: FontStyle { bits: BOLD },
    }
}

impl Style {
    /// This style with the emphasis of a match.
    pub fn emphasize(self) -> (style: Style)
        ensures
            style == emphasized(self),
    {
        Style {
            foreground: Color { r: 255, g: 255, b: 80, a: 255 },
            background: self.background,
            font_style: FontStyle { bits: BOLD },
        }
    }
}

/// A styled range in the abstract: a style and the characters it applies to.
pub struct StyledSpan {
    pub style: Style,
    pub text: Seq<char>,
}

/// A piece of one line together with its style.
#[derive(Clone, Debug, PartialEq, Eq)]
pub struct StyledRange {
    pub style: Style,
    pub text: String,
}

impl View for StyledRange {
    type V = StyledSpan;

    open spec fn view(&self) -> StyledSpan {
        StyledSpan { style: self.style, text: self.text@ }
    }
}

/// The spans of a sequence of styled ranges.
pub open spec fn spans_of(ranges: Seq<StyledRange>) -> Seq<StyledSpan> {
    ranges.map_values(|range: StyledRange| range@)
}

/// The number of bytes that `text` takes in UTF-8.
pub open spec fn byte_len(text: Seq<char>) -> nat {
    encode_utf8(text).len()
}

impl StyledRange {
    /// The number of bytes of the text.
    pub fn len(&self) -> (n: usize)
        ensures
            n == byte_len(self.text@),
    {
        self.text.as_str().as_bytes().len()
    }
}

} // verus!
