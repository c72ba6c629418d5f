use cjkfmt::check::check_one_file;
use cjkfmt::config::{Config, SpacingRule};
use cjkfmt::diagnostic::{format_diagnostic, Diagnostic};
use cjkfmt::format::format_one_file;
use cjkfmt::grammar::{grammar_from_path, Grammar};
use cjkfmt::lines::{LinesInclusive, LinesInclusiveExt};
use cjkfmt::position::Position;

fn config_with_width(max_width: u32) -> Config {
    let mut config = Config::default();
    config.max_width = max_width;
    config
}

fn lines_of(text: &str) -> Vec<String> {
    let mut it = text.lines_inclusive();
    let mut out = Vec::new();
    while let Some(line) = it.next() {
        out.push(line);
    }
    out
}

#[test]
fn lines_inclusive_terminators() {
    assert_eq!(lines_of(""), Vec::<String>::new());
    assert_eq!(lines_of("\rb"), vec!["\r", "b"]);
    assert_eq!(lines_of("\nb"), vec!["\n", "b"]);
    assert_eq!(lines_of("\r\nb"), vec!["\r\n", "b"]);
    assert_eq!(lines_of("a\n"), vec!["a\n"]);
    assert_eq!(lines_of("a\r"), vec!["a\r"]);
    assert_eq!(lines_of("a\r\n"), vec!["a\r\n"]);
    assert_eq!(lines_of("a"), vec!["a"]);
    assert_eq!(lines_of("a\nb"), vec!["a\n", "b"]);
    assert_eq!(lines_of("a\rb"), vec!["a\r", "b"]);
    assert_eq!(lines_of("a\r\nb"), vec!["a\r\n", "b"]);
    assert_eq!(lines_of("a\r亜"), vec!["a\r", "亜"]);
    assert_eq!(lines_of("a\n亜"), vec!["a\n", "亜"]);
}

#[test]
fn lines_inclusive_new_starts_at_beginning() {
    let mut it = LinesInclusive::new("x\ny");
    assert_eq!(it.next(), Some("x\n".to_string()));
    assert_eq!(it.next(), Some("y".to_string()));
    assert_eq!(it.next(), None);
}

#[test]
fn check_empty_input_no_diagnostics() {
    let config = Config::default();
    let diagnostics = check_one_file(&config, None, "").unwrap();
    assert!(diagnostics.is_empty());
}

#[test]
fn check_terminator_only_line_no_diagnostic() {
    let config = Config::default();
    assert!(check_one_file(&config, None, "\n").unwrap().is_empty());
    assert!(check_one_file(&config, None, "\r\n").unwrap().is_empty());
    assert!(check_one_file(&config, None, "\r").unwrap().is_empty());
}

#[test]
fn check_rejects_narrow_budget() {
    let config = config_with_width(1);
    assert!(check_one_file(&config, None, "abc").is_err());
    assert!(format_one_file(&config, "abc").is_err());
}

#[test]
fn check_two_long_lines() {
    // Two over-long lines yield two W001 diagnostics whose columns are
    // UTF-16 code-unit counts at the overflow grapheme.
    let config = config_with_width(4);
    let diagnostics = check_one_file(&config, Some("doc.md"), "ああああ\nいいい\n").unwrap();
    assert_eq!(diagnostics.len(), 2);
    assert_eq!(diagnostics[0].code, "W001");
    assert_eq!(diagnostics[0].filename.as_deref(), Some("doc.md"));
    assert_eq!(diagnostics[0].start, Position { line: 0, column: 2 });
    assert_eq!(diagnostics[0].end, Position { line: 0, column: 3 });
    assert_eq!(diagnostics[0].message, "Line length exceeds 4 characters");
    assert_eq!(diagnostics[1].code, "W001");
    assert_eq!(diagnostics[1].start, Position { line: 1, column: 2 });
    assert_eq!(diagnostics[1].end, Position { line: 1, column: 3 });
}

#[test]
fn check_utf16_columns_match_standard_encoding() {
    // Astral-plane ideographs take two UTF-16 units: the reported column
    // equals the standard encoding's unit count of the prefix.
    let config = config_with_width(2);
    let line = "𠀋𠀋";
    let diagnostics = check_one_file(&config, None, line).unwrap();
    assert_eq!(diagnostics.len(), 1);
    let prefix = "𠀋";
    let expected: u32 = prefix.encode_utf16().count() as u32;
    assert_eq!(diagnostics[0].start.column, expected);
    assert_eq!(expected, 2);
}

#[test]
fn check_spacing_diagnostics() {
    let mut config = Config::default();
    config.spacing.alphabets = SpacingRule::Require;
    let diagnostics = check_one_file(&config, None, "漢a\n").unwrap();
    assert_eq!(diagnostics.len(), 1);
    assert_eq!(diagnostics[0].code, "W002");
    assert_eq!(diagnostics[0].message, "Possible spacing position found");
    assert_eq!(diagnostics[0].start, Position { line: 0, column: 1 });
    assert_eq!(diagnostics[0].end, Position { line: 0, column: 2 });
}

#[test]
fn check_diagnostics_ordered_by_line() {
    let mut config = config_with_width(4);
    config.spacing.alphabets = SpacingRule::Require;
    let diagnostics = check_one_file(&config, None, "漢aいろはに\nほへと漢b\n").unwrap();
    for pair in diagnostics.windows(2) {
        assert!(pair[0].start.line <= pair[1].start.line);
    }
    assert!(diagnostics.len() >= 3);
}

#[test]
fn format_empty_input_empty_output() {
    let config = Config::default();
    assert_eq!(format_one_file(&config, "").unwrap(), "");
}

#[test]
fn format_splits_long_line() {
    let config = config_with_width(4);
    assert_eq!(format_one_file(&config, "ああああ").unwrap(), "ああ\nああ");
    assert_eq!(
        format_one_file(&config, "ああああ\nいい\n").unwrap(),
        "ああ\nああ\nいい\n"
    );
}

#[test]
fn format_kinsoku_split() {
    // The break falls between あ and 「 so that 」 does not start a line.
    let config = config_with_width(7);
    assert_eq!(format_one_file(&config, "あ「い」う").unwrap(), "あ\n「い」\nう");
}

#[test]
fn format_is_line_preserving() {
    // Removing the newlines the formatter inserted restores the input.
    let config = config_with_width(4);
    let inputs = ["ああああいいうう", "あfoo barい xyzzy", "「「ああああ"];
    for input in inputs {
        let output = format_one_file(&config, input).unwrap();
        let stripped: String = output.chars().filter(|c| *c != '\n').collect();
        assert_eq!(stripped, input, "input = {:?}", input);
    }
}

#[test]
fn format_generous_budget_is_identity() {
    let config = config_with_width(u32::MAX);
    let inputs = ["ああああいいうう\nあfoo barい\r\nx", "", "「「ああああ"];
    for input in inputs {
        assert_eq!(format_one_file(&config, input).unwrap(), input);
    }
}

#[test]
fn check_accepts_format_output() {
    // The check emits no line-length diagnostic on the formatter's output.
    let config = config_with_width(6);
    let inputs = ["ああああいいうう", "あfoo bar bazい", "あ「い」うえお"];
    for input in inputs {
        let formatted = format_one_file(&config, input).unwrap();
        let diagnostics = check_one_file(&config, None, &formatted).unwrap();
        for d in diagnostics {
            assert_ne!(d.code, "W001", "input = {:?}", input);
        }
    }
}

#[test]
fn format_diagnostic_plain_rendering() {
    let d = Diagnostic::new(
        Some("doc.md".to_string()),
        Position::new(1, 4),
        Position::new(1, 5),
        "W001".to_string(),
        "Line length exceeds 80 characters".to_string(),
    );
    assert_eq!(
        format_diagnostic(&d),
        "doc.md:2:5: W001 Line length exceeds 80 characters"
    );
    let stdin_diag = Diagnostic::new(
        None,
        Position::new(0, 0),
        Position::new(0, 1),
        "W002".to_string(),
        "Possible spacing position found".to_string(),
    );
    assert_eq!(
        format_diagnostic(&stdin_diag),
        "<stdin>:1:1: W002 Possible spacing position found"
    );
}

#[test]
fn grammar_detection() {
    assert_eq!(grammar_from_path("a/b.json"), Grammar::Json);
    assert_eq!(grammar_from_path("b.json"), Grammar::Json);
    assert_eq!(grammar_from_path("x.md"), Grammar::Markdown);
    assert_eq!(grammar_from_path("noext"), Grammar::Markdown);
    assert_eq!(grammar_from_path(".json"), Grammar::Markdown);
    assert_eq!(grammar_from_path("dir.json/file"), Grammar::Markdown);
    assert_eq!(grammar_from_path("a.JSON"), Grammar::Markdown);
}
