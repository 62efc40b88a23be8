use rgrok::highlight::Highlighter;
use rgrok::matcher::Pattern;
use rgrok::output::Compositor;
use rgrok::output::Output;
use rgrok::output::TerminalPrinter;
use rgrok::output::Written;
use rgrok::parse::Construct;
use rgrok::render::RenderedResult;
use rgrok::search::grep_item;
use rgrok::search::grep_items;
use rgrok::search::is_rust_file;
use rgrok::search::rgrok_dir;
use rgrok::search::spans_known;
use rgrok::search::Args;
use rgrok::span::ByteSpanTable;
use rgrok::util::FileEntry;
use rgrok::util::ItemType;
use rgrok::util::ParsedFile;
use syntect::highlighting::ThemeSet;
use syntect::parsing::SyntaxSet;

fn without_codes(text: &str) -> String {
    let mut plain = String::new();
    let mut rest = text;
    while let Some(at) = rest.find("\x1b[") {
        plain.push_str(&rest[..at]);
        let end = rest[at..].find('m').unwrap();
        rest = &rest[at + end + 1..];
    }
    plain.push_str(rest);
    plain
}

fn entry(path: &str, is_dir: Option<bool>, extension: Option<&str>) -> FileEntry {
    FileEntry { path: path.to_string(), is_dir, extension: extension.map(|e| e.to_string()) }
}

fn source(path: &str, contents: &str) -> ParsedFile {
    ParsedFile { contents: contents.to_string(), dir_entry: entry(path, Some(false), Some("rs")) }
}

fn args(pattern: &str) -> Args {
    Args {
        regex: Pattern::new(pattern).unwrap(),
        path: ".".to_string(),
        parallel: false,
        output: Output::Null,
    }
}

fn shown(results: &[RenderedResult]) -> Vec<(ItemType, (usize, usize), String)> {
    results.iter().map(|r| (r.kind, r.line_range, without_codes(&r.text))).collect()
}

const TWO_ITEMS: &str = "fn alpha() {\n    let x = 1;\n}\n\nstruct Beta {\n    field: u8,\n}\n";

#[test]
fn rust_files_are_files_with_the_extension() {
    assert!(is_rust_file(&entry("a.rs", Some(false), Some("rs"))));
    assert!(!is_rust_file(&entry("a.rs", Some(true), Some("rs"))));
    assert!(!is_rust_file(&entry("a.rs", None, Some("rs"))));
    assert!(!is_rust_file(&entry("a.txt", Some(false), Some("txt"))));
    assert!(!is_rust_file(&entry("a", Some(false), None)));
    assert!(!is_rust_file(&entry("a.RS", Some(false), Some("RS"))));
    assert!(!is_rust_file(&entry("a.rs.bak", Some(false), Some("bak"))));
}

#[test]
fn grep_items_reports_the_constructs_that_match() {
    let syntaxes = SyntaxSet::load_defaults_newlines();
    let themes = ThemeSet::load_defaults();
    let highlighter = Highlighter::new(&syntaxes, &themes).unwrap();
    let file = source("a.rs", TWO_ITEMS);
    let found = grep_items(&file, &Pattern::new("let").unwrap(), &highlighter);
    assert_eq!(shown(&found), vec![(ItemType::Fn, (1, 3), "    let x = 1;\n}\n\n".to_string())]);
    assert!(found[0].text.contains("\x1b[38;2;255;255;80mlet"));
    assert!(found[0].text.ends_with("\x1b[0m\n"));
    let found = grep_items(&file, &Pattern::new("field").unwrap(), &highlighter);
    assert_eq!(shown(&found), vec![(ItemType::Struct, (5, 7), "    field: u8,\n}\n\n".to_string())]);
}

#[test]
fn grep_items_keeps_the_order_of_declaration() {
    let syntaxes = SyntaxSet::load_defaults_newlines();
    let themes = ThemeSet::load_defaults();
    let highlighter = Highlighter::new(&syntaxes, &themes).unwrap();
    let file = source("a.rs", TWO_ITEMS);
    let found = grep_items(&file, &Pattern::new("\\}").unwrap(), &highlighter);
    assert_eq!(
        shown(&found),
        vec![
            (ItemType::Fn, (1, 3), "    let x = 1;\n}\n\n".to_string()),
            (ItemType::Struct, (5, 7), "    field: u8,\n}\n\n".to_string()),
        ]
    );
}

#[test]
fn grep_items_tests_the_text_behind_the_first_line() {
    let syntaxes = SyntaxSet::load_defaults_newlines();
    let themes = ThemeSet::load_defaults();
    let highlighter = Highlighter::new(&syntaxes, &themes).unwrap();
    let file = source("a.rs", TWO_ITEMS);
    assert_eq!(grep_items(&file, &Pattern::new("alpha").unwrap(), &highlighter), vec![]);
    assert_eq!(grep_items(&file, &Pattern::new("nowhere").unwrap(), &highlighter), vec![]);
}

#[test]
fn grep_items_tests_the_whole_text_of_a_construct() {
    let syntaxes = SyntaxSet::load_defaults_newlines();
    let themes = ThemeSet::load_defaults();
    let highlighter = Highlighter::new(&syntaxes, &themes).unwrap();
    let file = source("a.rs", TWO_ITEMS);
    let found = grep_items(&file, &Pattern::new("1;\\n\\}").unwrap(), &highlighter);
    assert_eq!(shown(&found), vec![(ItemType::Fn, (1, 3), "    let x = 1;\n}\n\n".to_string())]);
    assert!(!found[0].text.contains("\x1b[38;2;255;255;80m"));
}

#[test]
fn construct_on_one_line_has_an_empty_text() {
    let syntaxes = SyntaxSet::load_defaults_newlines();
    let themes = ThemeSet::load_defaults();
    let highlighter = Highlighter::new(&syntaxes, &themes).unwrap();
    let file = source("a.rs", "struct A;\nstruct B;\n");
    assert_eq!(grep_items(&file, &Pattern::new("struct").unwrap(), &highlighter), vec![]);
    let found = grep_items(&file, &Pattern::new("^$").unwrap(), &highlighter);
    assert_eq!(
        found,
        vec![
            RenderedResult { kind: ItemType::Struct, line_range: (1, 1), text: "\x1b[0m\n".to_string() },
            RenderedResult { kind: ItemType::Struct, line_range: (2, 2), text: "\x1b[0m\n".to_string() },
        ]
    );
}

#[test]
fn file_that_does_not_parse_gives_nothing() {
    let syntaxes = SyntaxSet::load_defaults_newlines();
    let themes = ThemeSet::load_defaults();
    let highlighter = Highlighter::new(&syntaxes, &themes).unwrap();
    let broken = source("broken.rs", "fn alpha() {\n    let x = 1;\n");
    assert_eq!(grep_items(&broken, &Pattern::new("let").unwrap(), &highlighter), vec![]);
}

#[test]
fn broken_file_leaves_its_sibling_alone() {
    let syntaxes = SyntaxSet::load_defaults_newlines();
    let themes = ThemeSet::load_defaults();
    let highlighter = Highlighter::new(&syntaxes, &themes).unwrap();
    let files = vec![
        source("broken.rs", "fn alpha() {\n    let x = 1;\n"),
        source("good.rs", TWO_ITEMS),
        source("worse.rs", "let let let"),
    ];
    let found = rgrok_dir(&args("let"), &files, &highlighter);
    assert_eq!(shown(&found), vec![(ItemType::Fn, (1, 3), "    let x = 1;\n}\n\n".to_string())]);
}

#[test]
fn files_are_searched_in_the_order_of_the_walk() {
    let syntaxes = SyntaxSet::load_defaults_newlines();
    let themes = ThemeSet::load_defaults();
    let highlighter = Highlighter::new(&syntaxes, &themes).unwrap();
    let a = "fn a() {\n    hit_a();\n}\n";
    let b = "\nfn b() {\n    hit_b();\n}\n";
    let forth = vec![source("a.rs", a), source("b.rs", b)];
    let back = vec![source("b.rs", b), source("a.rs", a)];
    for _ in 0..3 {
        assert_eq!(
            shown(&rgrok_dir(&args("hit"), &forth, &highlighter)),
            vec![
                (ItemType::Fn, (1, 3), "    hit_a();\n}\n\n".to_string()),
                (ItemType::Fn, (2, 4), "    hit_b();\n}\n\n".to_string()),
            ]
        );
        assert_eq!(
            shown(&rgrok_dir(&args("hit"), &back, &highlighter)),
            vec![
                (ItemType::Fn, (2, 4), "    hit_b();\n}\n\n".to_string()),
                (ItemType::Fn, (1, 3), "    hit_a();\n}\n\n".to_string()),
            ]
        );
    }
}

#[test]
fn search_in_another_order_finds_the_same() {
    let syntaxes = SyntaxSet::load_defaults_newlines();
    let themes = ThemeSet::load_defaults();
    let highlighter = Highlighter::new(&syntaxes, &themes).unwrap();
    let a = "fn a() {\n    hit_a();\n}\nfn c() {\n    hit_c();\n}\n";
    let b = "\nfn b() {\n    hit_b();\n}\n";
    let forth = vec![source("a.rs", a), source("b.rs", b)];
    let back = vec![source("b.rs", b), source("a.rs", a)];
    let mut one = rgrok_dir(&args("hit"), &forth, &highlighter);
    let mut other = rgrok_dir(&args("hit"), &back, &highlighter);
    assert_eq!(one.len(), 3);
    one.sort_by(|x, y| x.text.cmp(&y.text));
    other.sort_by(|x, y| x.text.cmp(&y.text));
    assert_eq!(one, other);
}

#[test]
fn only_rust_files_are_searched() {
    let syntaxes = SyntaxSet::load_defaults_newlines();
    let themes = ThemeSet::load_defaults();
    let highlighter = Highlighter::new(&syntaxes, &themes).unwrap();
    let files = vec![
        ParsedFile { contents: TWO_ITEMS.to_string(), dir_entry: entry("a.txt", Some(false), Some("txt")) },
        ParsedFile { contents: TWO_ITEMS.to_string(), dir_entry: entry("dir.rs", Some(true), Some("rs")) },
        ParsedFile { contents: TWO_ITEMS.to_string(), dir_entry: entry("gone.rs", None, Some("rs")) },
    ];
    assert_eq!(rgrok_dir(&args("let"), &files, &highlighter), vec![]);
    assert_eq!(rgrok_dir(&args("let"), &vec![], &highlighter), vec![]);
}

#[test]
fn grep_item_cuts_tests_and_renders() {
    let syntaxes = SyntaxSet::load_defaults_newlines();
    let themes = ThemeSet::load_defaults();
    let highlighter = Highlighter::new(&syntaxes, &themes).unwrap();
    let table = ByteSpanTable::new(TWO_ITEMS);
    let pattern = Pattern::new("field").unwrap();
    let alpha = Construct { kind: ItemType::Fn, start_line: 1, end_line: 3 };
    let beta = Construct { kind: ItemType::Struct, start_line: 5, end_line: 7 };
    let nowhere = Construct { kind: ItemType::Mod, start_line: 5, end_line: 8 };
    assert_eq!(grep_item(TWO_ITEMS, &table, &alpha, &pattern, &highlighter), None);
    assert_eq!(grep_item(TWO_ITEMS, &table, &nowhere, &pattern, &highlighter), None);
    let found = grep_item(TWO_ITEMS, &table, &beta, &pattern, &highlighter).unwrap();
    assert_eq!(found.kind, ItemType::Struct);
    assert_eq!(found.line_range, (5, 7));
    assert_eq!(without_codes(&found.text), "    field: u8,\n}\n\n");
}

#[test]
fn spans_known_asks_for_lines_of_the_text() {
    let table = ByteSpanTable::new(TWO_ITEMS);
    assert_eq!(table.len(), 8);
    let good = vec![
        Construct { kind: ItemType::Fn, start_line: 1, end_line: 3 },
        Construct { kind: ItemType::Struct, start_line: 5, end_line: 7 },
    ];
    assert!(spans_known(&table, &good));
    assert!(spans_known(&table, &vec![]));
    let late = vec![good[0], Construct { kind: ItemType::Struct, start_line: 5, end_line: 8 }];
    assert!(!spans_known(&table, &late));
    let turned = vec![Construct { kind: ItemType::Struct, start_line: 4, end_line: 3 }, good[0]];
    assert!(!spans_known(&table, &turned));
}

#[test]
fn whole_search_into_the_discarding_output() {
    let syntaxes = SyntaxSet::load_defaults_newlines();
    let themes = ThemeSet::load_defaults();
    let highlighter = Highlighter::new(&syntaxes, &themes).unwrap();
    let given = args("let|field");
    let files = vec![source("a.rs", TWO_ITEMS), source("b.rs", TWO_ITEMS)];
    let printer = TerminalPrinter::new(given.output, (20, 5));
    let found = rgrok_dir(&given, &files, &highlighter);
    assert_eq!(found.len(), 4);
    for result in &found {
        let framed = printer.write_with(&result.text, (result.line_range, result.kind));
        assert!(framed.starts_with("--------------------\n"));
        assert!(framed.ends_with("\x1b[0m\n--------------------\n\n"));
        assert_eq!(printer.write(framed.as_bytes()), Written::Discarded(framed.len()));
        assert!(!printer.flush());
    }
}
