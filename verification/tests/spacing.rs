use cjkfmt::config::{Config, SpacingRule};
use cjkfmt::spacing::{char_type, search_possible_spacing_positions, CharType};

#[test]
fn test_char_type() {
    assert!(char_type('中') == CharType::Cjk);
    assert!(char_type('漢') == CharType::Cjk);
    assert!(char_type('a') == CharType::Latin);
    assert!(char_type('1') == CharType::Digit);
    assert!(char_type(' ') == CharType::Space);
}

#[test]
fn char_type_cjk_punctuation_is_other() {
    // Punctuation inside the CJK blocks is reclassified as Other; the
    // Unicode General Category lookup decides it, not the block alone.
    assert!(char_type('、') == CharType::Other);
    assert!(char_type('。') == CharType::Other);
    assert!(char_type('〜') == CharType::Other);
    assert!(char_type('あ') == CharType::Cjk);
    assert!(char_type('ア') == CharType::Cjk);
    assert!(char_type('한') == CharType::Cjk);
}

fn require_alphabets() -> Config {
    let mut config = Config::default();
    config.spacing.alphabets = SpacingRule::Require;
    config
}

#[test]
fn spacing_cjk_latin_boundary() {
    // The byte offset of the second character of the transition pair is
    // reported; a space between them silences the report.
    let config = require_alphabets();
    assert_eq!(search_possible_spacing_positions(&config, "漢a"), vec![3]);
    assert_eq!(
        search_possible_spacing_positions(&config, "漢 a"),
        Vec::<usize>::new()
    );
}

#[test]
fn spacing_both_directions() {
    let config = require_alphabets();
    assert_eq!(search_possible_spacing_positions(&config, "a漢"), vec![1]);
    assert_eq!(search_possible_spacing_positions(&config, "a漢b"), vec![1, 4]);
}

#[test]
fn spacing_digits_rule() {
    let mut config = Config::default();
    config.spacing.digits = SpacingRule::Require;
    assert_eq!(search_possible_spacing_positions(&config, "漢1"), vec![3]);
    // With the digits rule alone, letters raise nothing.
    assert_eq!(
        search_possible_spacing_positions(&config, "漢a"),
        Vec::<usize>::new()
    );
}

#[test]
fn spacing_ignore_by_default() {
    let config = Config::default();
    assert_eq!(
        search_possible_spacing_positions(&config, "漢a1あ"),
        Vec::<usize>::new()
    );
}

#[test]
fn spacing_offsets_increase_and_lie_on_codepoint_boundaries() {
    let mut config = require_alphabets();
    config.spacing.digits = SpacingRule::Require;
    let text = "a漢b九1x言あz";
    let offsets = search_possible_spacing_positions(&config, text);
    assert!(!offsets.is_empty());
    for pair in offsets.windows(2) {
        assert!(pair[0] < pair[1]);
    }
    for off in offsets {
        assert!(text.is_char_boundary(off));
    }
}

#[test]
fn spacing_empty_input() {
    let config = require_alphabets();
    assert_eq!(
        search_possible_spacing_positions(&config, ""),
        Vec::<usize>::new()
    );
}
