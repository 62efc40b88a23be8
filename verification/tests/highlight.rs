use rgrok::highlight::escape;
use rgrok::highlight::Highlighter;
use rgrok::style::Color;
use rgrok::style::FontStyle;
use rgrok::style::Style;
use rgrok::style::StyledRange;
use syntect::highlighting::ThemeSet;
use syntect::parsing::SyntaxSet;

fn styled(foreground: (u8, u8, u8), background: (u8, u8, u8), bits: u8, text: &str) -> StyledRange {
    StyledRange {
        style: Style {
            foreground: Color { r: foreground.0, g: foreground.1, b: foreground.2, a: 255 },
            background: Color { r: background.0, g: background.1, b: background.2, a: 255 },
            font_style: FontStyle { bits },
        },
        text: text.to_string(),
    }
}

#[test]
fn escape_writes_background_foreground_and_text() {
    let ranges = vec![styled((1, 2, 3), (4, 5, 6), 0, "ab")];
    assert_eq!(escape(&ranges), "\x1b[48;2;4;5;6m\x1b[38;2;1;2;3mab");
}

#[test]
fn escape_writes_the_ranges_one_behind_the_other() {
    let ranges = vec![
        styled((255, 255, 80), (0, 0, 0), 1, "fn"),
        styled((10, 200, 30), (43, 48, 59), 4, " é\n"),
    ];
    assert_eq!(
        escape(&ranges),
        "\x1b[48;2;0;0;0m\x1b[38;2;255;255;80mfn\x1b[48;2;43;48;59m\x1b[38;2;10;200;30m é\n"
    );
}

#[test]
fn escape_of_no_range_is_empty() {
    assert_eq!(escape(&vec![]), "");
}

#[test]
fn escape_leaves_font_styles_out() {
    let plain = vec![styled((1, 2, 3), (4, 5, 6), 0, "x")];
    let bold = vec![styled((1, 2, 3), (4, 5, 6), 1, "x")];
    assert_eq!(escape(&plain), escape(&bold));
}

#[test]
fn highlighter_is_found_in_the_default_sets() {
    let syntaxes = SyntaxSet::load_defaults_newlines();
    let themes = ThemeSet::load_defaults();
    assert!(Highlighter::new(&syntaxes, &themes).is_some());
}

#[test]
fn highlighter_needs_syntax_and_theme() {
    let syntaxes = SyntaxSet::load_defaults_newlines();
    let themes = ThemeSet::load_defaults();
    assert!(Highlighter::new(&SyntaxSet::new(), &themes).is_none());
    assert!(Highlighter::new(&syntaxes, &ThemeSet::new()).is_none());
}

#[test]
fn highlighted_ranges_cover_the_line() {
    let syntaxes = SyntaxSet::load_defaults_newlines();
    let themes = ThemeSet::load_defaults();
    let highlighter = Highlighter::new(&syntaxes, &themes).unwrap();
    let mut lines = highlighter.lines();
    for line in ["fn main() {\n", "    let s = \"é→\"; // note\n", "}\n", "\n", "/* open\n", "still */ x\n"] {
        let ranges = lines.highlight(line);
        let joined: String = ranges.iter().map(|range| range.text.as_str()).collect();
        assert_eq!(joined, line);
        assert!(ranges.iter().all(|range| !range.text.is_empty()));
        assert!(ranges.len() >= 1);
    }
}

#[test]
fn highlighter_tells_a_keyword_from_a_name() {
    let syntaxes = SyntaxSet::load_defaults_newlines();
    let themes = ThemeSet::load_defaults();
    let highlighter = Highlighter::new(&syntaxes, &themes).unwrap();
    let ranges = highlighter.lines().highlight("    let x = 1;\n");
    let texts: Vec<&str> = ranges.iter().map(|range| range.text.as_str()).collect();
    assert!(texts.contains(&"let"), "{:?}", texts);
    let keyword = ranges.iter().find(|range| range.text == "let").unwrap();
    assert_ne!(keyword.style, ranges[0].style);
}

#[test]
fn highlighter_looks_for_the_theme_by_its_name() {
    let syntaxes = SyntaxSet::load_defaults_newlines();
    let defaults = ThemeSet::load_defaults();
    let mut themes = ThemeSet::new();
    themes.themes.insert("another".to_string(), defaults.themes["base16-ocean.dark"].clone());
    assert!(Highlighter::new(&syntaxes, &themes).is_none());
    themes.themes.insert("base16-ocean.dark".to_string(), defaults.themes["InspiredGitHub"].clone());
    assert!(Highlighter::new(&syntaxes, &themes).is_some());
}
