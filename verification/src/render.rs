//! Rendering: the text of a construct becomes the text that the terminal
//! shows, line by line highlighted, with the matches of the pattern
//! emphasised and the escape codes of the colours in place.

use crate::highlight::covers;
use crate::highlight::escape;
use crate::highlight::escaped;
use crate::highlight::joined;
use crate::highlight::Highlighter;
use crate::matcher::regex_matches;
use crate::matcher::MatchRange;
use crate::matcher::Pattern;
use crate::overlay::boundary;
use crate::overlay::highlight_matches_in_line;
use crate::overlay::overlaid;
use crate::overlay::total_bytes;
use crate::span::line_table;
use crate::span::span_bytes;
use crate::span::lemma_boundary_in_prefix;
use crate::span::lemma_span_in_text;
use crate::span::lemma_table_shape;
use crate::span::ByteSpanTable;
use crate::style::byte_len;
use crate::style::spans_of;
use crate::style::StyledRange;
use crate::style::StyledSpan;
use crate::util::ItemType;
use vstd::prelude::*;
use vstd::string::StringExecFns;
use vstd::string::StringSliceAdditionalSpecFns;
use vstd::utf8::*;

verus! {

/// What ends a rendered text: the code that resets the colours, and a line
/// feed.
pub const RESET: &'static str = "\x1b[0m\n";

/// A construct that matched, ready to be written: its kind, its first and
/// last line, and its rendered text.
#[derive(Debug, PartialEq, Eq)]
pub struct RenderedResult {
    pub kind: ItemType,
    pub line_range: (usize, usize),
    pub text: String,
}

/// The lines of `text`, each with its line feed. A text without characters
/// has no line.
pub open spec fn lines_of(text: Seq<char>) -> Seq<Seq<char>> {
    let bytes = encode_utf8(text);
    let table = line_table(bytes);
    if bytes.len() == 0 {
        Seq::empty()
    } else {
        Seq::new(
            (table.len() - 1) as nat,
            |k: int| decode_utf8(span_bytes(table, bytes, k, k + 1)),
        )
    }
}

/// One line as the terminal takes it: the spans that the highlighter made of
/// it, with the matches of the pattern in that line laid over them.
pub open spec fn rendered_line(base: Seq<StyledSpan>, pattern: Seq<char>, line: Seq<char>) -> Seq<
    char,
> {
    escaped(overlaid(base, regex_matches(pattern, line)), true)
}

/// The first `count` lines as the terminal takes them, one behind the other.
pub open spec fn rendered_lines(
    base: Seq<Seq<StyledSpan>>,
    pattern: Seq<char>,
    lines: Seq<Seq<char>>,
    count: int,
) -> Seq<char>
    decreases count,
{
    if count <= 0 {
        Seq::empty()
    } else {
        rendered_lines(base, pattern, lines, count - 1) + rendered_line(
            base[count - 1],
            pattern,
            lines[count - 1],
        )
    }
}

/// `out` is `text` rendered from the spans `base`: for each line of `text`
/// there are spans that cover it, and `out` is these lines as the terminal
/// takes them, with the matches of `pattern` emphasised, and the reset
/// behind them.
pub open spec fn renders(
    base: Seq<Seq<StyledSpan>>,
    out: Seq<char>,
    text: Seq<char>,
    pattern: Seq<char>,
) -> bool {
    let lines = lines_of(text);
    &&& base.len() == lines.len()
    &&& forall|k: int| 0 <= k < lines.len() ==> covers(#[trigger] base[k], lines[k])
    &&& out == rendered_lines(base, pattern, lines, lines.len() as int) + RESET@
}

/// `out` is a rendering of `text`: whatever styles the highlighter chose,
/// they stand on spans that cover the lines of `text`, and the matches of
/// `pattern` are laid over them.
pub open spec fn is_rendering(out: Seq<char>, text: Seq<char>, pattern: Seq<char>) -> bool {
    exists|base: Seq<Seq<StyledSpan>>| renders(base, out, text, pattern)
}

/// The UTF-8 form of two texts, one behind the other, is the UTF-8 form of
/// the first with that of the second behind it.
pub proof fn lemma_encode_concat(a: Seq<char>, b: Seq<char>)
    ensures
        encode_utf8(a + b) == encode_utf8(a) + encode_utf8(b),
    decreases a.len(),
{
    if a.len() == 0 {
        assert(a + b =~= b);
        assert(encode_utf8(a) + encode_utf8(b) =~= encode_utf8(b));
    } else {
        lemma_encode_concat(a.drop_first(), b);
        assert((a + b).drop_first() =~= a.drop_first() + b);
        assert((a + b)[0] == a[0]);
        assert(encode_utf8(a + b) =~= encode_utf8(a) + encode_utf8(b));
    }
}

/// Spans that cover a line have the bytes of the line: their last boundary
/// is the length of the line, so that the offsets of a match in the line are
/// offsets among the boundaries.
pub proof fn lemma_cover_has_the_bytes_of_the_line(spans: Seq<StyledSpan>, line: Seq<char>)
    requires
        covers(spans, line),
    ensures
        total_bytes(spans) == byte_len(line),
{
    lemma_total_bytes_of_joined(spans);
}

/// Spans have as many bytes as their texts have together.
proof fn lemma_total_bytes_of_joined(spans: Seq<StyledSpan>)
    ensures
        total_bytes(spans) == byte_len(joined(spans)),
    decreases spans.len(),
{
    if spans.len() > 0 {
        let front = spans.drop_last();
        lemma_total_bytes_of_joined(front);
        lemma_boundary_of_prefix(spans, front, front.len() as int);
        lemma_encode_concat(joined(front), spans.last().text);
    }
}

/// A boundary depends on the spans in front of it alone.
proof fn lemma_boundary_of_prefix(a: Seq<StyledSpan>, b: Seq<StyledSpan>, i: int)
    requires
        0 <= i <= a.len(),
        i <= b.len(),
        forall|j: int| 0 <= j < i ==> a[j] == b[j],
    ensures
        boundary(a, i) == boundary(b, i),
    decreases i,
{
    if i > 0 {
        lemma_boundary_of_prefix(a, b, i - 1);
    }
}

/// The first lines of a rendering depend on the spans of those lines alone.
proof fn lemma_rendered_lines_of_prefix(
    a: Seq<Seq<StyledSpan>>,
    b: Seq<Seq<StyledSpan>>,
    pattern: Seq<char>,
    lines: Seq<Seq<char>>,
    count: int,
)
    requires
        0 <= count <= a.len(),
        count <= b.len(),
        forall|j: int| 0 <= j < count ==> a[j] == b[j],
    ensures
        rendered_lines(a, pattern, lines, count) == rendered_lines(b, pattern, lines, count),
    decreases count,
{
    if count > 0 {
        lemma_rendered_lines_of_prefix(a, b, pattern, lines, count - 1);
    }
}

/// The first `count` lines of a text, one behind the other, are the text up
/// to the end of the last of them.
proof fn lemma_lines_make_the_front(text: Seq<char>, count: int)
    requires
        encode_utf8(text).len() > 0,
        0 <= count <= lines_of(text).len(),
    ensures
        lines_of(text).take(count).flatten() == decode_utf8(
            encode_utf8(text).subrange(0, line_table(encode_utf8(text))[count]),
        ),
    decreases count,
{
    let bytes = encode_utf8(text);
    let table = line_table(bytes);
    let lines = lines_of(text);
    encode_utf8_valid_utf8(text);
    lemma_table_shape(bytes);
    if count == 0 {
        assert(lines.take(0) =~= Seq::<Seq<char>>::empty());
        assert(bytes.subrange(0, 0) =~= Seq::<u8>::empty());
        assert(valid_utf8(Seq::<u8>::empty()));
    } else {
        lemma_lines_make_the_front(text, count - 1);
        lemma_span_in_text(bytes, count - 1, count);
        lemma_boundary_in_prefix(bytes, table[count - 1], table[count]);
        let front = bytes.subrange(0, table[count]);
        decode_utf8_split(front, table[count - 1]);
        assert(front.subrange(0, table[count - 1]) =~= bytes.subrange(0, table[count - 1]));
        assert(front.subrange(table[count - 1], front.len() as int) =~= span_bytes(
            table,
            bytes,
            count - 1,
            count,
        ));
        assert(lines.take(count) =~= lines.take(count - 1).push(lines[count - 1]));
        lines.take(count - 1).lemma_flatten_push(lines[count - 1]);
    }
}

/// The lines of a text, one behind the other, are the text.
pub proof fn lemma_lines_make_the_text(text: Seq<char>)
    ensures
        lines_of(text).flatten() == text,
{
    let bytes = encode_utf8(text);
    let lines = lines_of(text);
    encode_utf8_valid_utf8(text);
    encode_utf8_decode_utf8(text);
    lemma_table_shape(bytes);
    if bytes.len() > 0 {
        lemma_lines_make_the_front(text, lines.len() as int);
        assert(lines.take(lines.len() as int) =~= lines);
        assert(bytes.subrange(0, bytes.len() as int) =~= bytes);
    }
}

/// The overlay leaves the text of a line as it is.
pub proof fn lemma_overlay_keeps_text(spans: Seq<StyledSpan>, matches: Seq<MatchRange>)
    ensures
        joined(overlaid(spans, matches)) == joined(spans),
{
    let over = overlaid(spans, matches);
    lemma_joined_of_texts(over, spans);
}

/// Spans with the same texts have the same text together.
proof fn lemma_joined_of_texts(a: Seq<StyledSpan>, b: Seq<StyledSpan>)
    requires
        a.len() == b.len(),
        forall|i: int| 0 <= i < a.len() ==> a[i].text == b[i].text,
    ensures
        joined(a) == joined(b),
    decreases a.len(),
{
    if a.len() > 0 {
        lemma_joined_of_texts(a.drop_last(), b.drop_last());
    }
}

/// A rendering holds the whole text: the spans that it is made of, line by
/// line one behind the other, spell the text, with or without the matches
/// laid over them.
pub proof fn lemma_rendering_holds_the_text(
    base: Seq<Seq<StyledSpan>>,
    out: Seq<char>,
    text: Seq<char>,
    pattern: Seq<char>,
)
    requires
        renders(base, out, text, pattern),
    ensures
        base.map_values(|spans: Seq<StyledSpan>| joined(spans)).flatten() == text,
        Seq::new(
            base.len(),
            |k: int| joined(overlaid(base[k], regex_matches(pattern, lines_of(text)[k]))),
        ).flatten() == text,
{
    let lines = lines_of(text);
    lemma_lines_make_the_text(text);
    assert(base.map_values(|spans: Seq<StyledSpan>| joined(spans)) =~= lines);
    assert forall|k: int| 0 <= k < base.len() implies joined(
        overlaid(base[k], regex_matches(pattern, lines[k])),
    ) == lines[k] by {
        lemma_overlay_keeps_text(base[k], regex_matches(pattern, lines[k]));
    }
    assert(Seq::new(
        base.len(),
        |k: int| joined(overlaid(base[k], regex_matches(pattern, lines[k]))),
    ) =~= lines);
}

/// Renders one line from the ranges that the highlighter made of it: lays
/// the matches over the ranges and writes them with their escape codes.
pub fn render_line(ranges: Vec<StyledRange>, matches: &Vec<MatchRange>) -> (out: String)
    ensures
        out@ == escaped(overlaid(spans_of(ranges@), matches@), true),
{
    let mut ranges = ranges;
    highlight_matches_in_line(&mut ranges, matches);
    escape(&ranges)
}

/// Renders `text`: each of its lines is highlighted in the state that the
/// lines before it left, the matches of `pattern` in that line are
/// emphasised, and the reset stands at the end.
pub fn render(text: &str, pattern: &Pattern, highlighter: &Highlighter) -> (out: String)
    ensures
        is_rendering(out@, text@, pattern@),
{
    let table = ByteSpanTable::new(text);
    let mut state = highlighter.lines();
    let mut out = String::new();
    let ghost mut base: Seq<Seq<StyledSpan>> = Seq::empty();
    let ghost lines = lines_of(text@);
    let count: usize = if text.as_bytes().len() == 0 {
        0
    } else {
        table.len() - 1
    };
    proof {
        lemma_table_shape(text.spec_bytes());
    }
    let mut k: usize = 0;
    while k < count
        invariant
            table@ == line_table(text.spec_bytes()),
            lines == lines_of(text@),
            count == lines.len(),
            count > 0 ==> count == table@.len() - 1,
            0 <= k <= count,
            base.len() == k,
            forall|j: int| 0 <= j < k ==> covers(#[trigger] base[j], lines[j]),
            out@ == rendered_lines(base, pattern@, lines, k as int),
        decreases count - k,
    {
        match table.slice(text, k, k + 1) {
            Some(line) => {
                let ranges = state.highlight(line);
                let matches = pattern.find_matches(line);
                let ghost spans = spans_of(ranges@);
                proof {
                    encode_utf8_decode_utf8(line@);
                    assert(line@ == lines[k as int]);
                    lemma_rendered_lines_of_prefix(base, base.push(spans), pattern@, lines, k as int);
                }
                let piece = render_line(ranges, &matches);
                out.append(piece.as_str());
                proof {
                    base = base.push(spans);
                }
            },
            None => {
                proof {
                    assert(false);
                }
            },
        }
        k += 1;
    }
    out.append(RESET);
    proof {
        assert(renders(base, out@, text@, pattern@));
    }
    out
}

/// The text of a construct as it is shown: the formatter's, where a
/// formatter was asked and gave one, else the text as it stands in the file.
pub fn formatted_or_plain(plain: &str, formatted: Option<String>) -> (shown: String)
    ensures
        shown@ == match formatted {
            Some(text) => text@,
            None => plain@,
        },
{
    match formatted {
        Some(text) => text,
        None => plain.to_owned(),
    }
}

} // verus!
