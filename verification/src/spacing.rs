//! The spacing analyzer: finds positions where the spacing between CJK
//! runs and Latin letters or ASCII digits should be edited.
use vstd::prelude::*;

verus! {

use crate::chars::utf8_len;
use crate::chars::char_utf8_len_x;
use crate::chars::lemma_utf8_len_take_step;
use crate::chars::lemma_utf8_len_split;
use crate::chars::lemma_utf8_len_ge_len;
use crate::chars::lemma_str_byte_len;
use crate::config::Config;
use crate::config::SpacingConfig;
use crate::config::SpacingRule;
use crate::graphemes::chars_vec;
use crate::graphemes::is_unicode_punctuation;
use crate::graphemes::is_punctuation_char;

/// The classes of characters the spacing rules distinguish.
#[derive(Clone, Copy, Debug, PartialEq, Eq, Structural)]
pub enum CharType {
    /// CJK ideographs, kana, bopomofo and hangul, punctuation excluded.
    Cjk,
    /// Latin letters, including the extended Latin blocks and combining
    /// diacritical marks.
    Latin,
    /// ASCII digits.
    Digit,
    /// The ASCII space and the line terminator characters.
    Space,
    /// Everything else, including CJK punctuation.
    Other,
}

/// Whether a character lies in one of the CJK blocks the analyzer reads
/// as ideographic or syllabic script.
pub open spec fn in_cjk_blocks(c: char) -> bool {
    let u = c as u32;
    ||| (0x4E00 <= u && u <= 0x9FFF)  // CJK Unified Ideographs
    ||| (0x3400 <= u && u <= 0x4DBF)  // Extension A
    ||| (0x20000 <= u && u <= 0x2A6DF)  // Extension B
    ||| (0x2A700 <= u && u <= 0x2B73F)  // Extension C
    ||| (0x2B740 <= u && u <= 0x2B81F)  // Extension D
    ||| (0x2B820 <= u && u <= 0x2CEAF)  // Extension E
    ||| (0x2CEB0 <= u && u <= 0x2EBEF)  // Extension F
    ||| (0x30000 <= u && u <= 0x3134F)  // Extension G
    ||| (0x31350 <= u && u <= 0x323AF)  // Extension H
    ||| (0x2EBF0 <= u && u <= 0x2EE5D)  // Extension I
    ||| (0x2E80 <= u && u <= 0x2EFF)  // CJK Radicals Supplement
    ||| (0x3000 <= u && u <= 0x303F)  // CJK Symbols and Punctuation
    ||| (0x3040 <= u && u <= 0x309F)  // Hiragana
    ||| (0x30A0 <= u && u <= 0x30FF)  // Katakana
    ||| (0x3100 <= u && u <= 0x312F)  // Bopomofo
    ||| (0xAC00 <= u && u <= 0xD7AF)  // Hangul Syllables
}

/// Whether a character lies in one of the Latin blocks, the ASCII
/// letters included.
pub open spec fn in_latin_blocks(c: char) -> bool {
    let u = c as u32;
    ||| (0x41 <= u && u <= 0x5A)  // A-Z
    ||| (0x61 <= u && u <= 0x7A)  // a-z
    ||| (0xC0 <= u && u <= 0xFF)  // Latin-1 Supplement letters
    ||| (0x100 <= u && u <= 0x17F)  // Latin Extended-A
    ||| (0x180 <= u && u <= 0x24F)  // Latin Extended-B
    ||| (0x1E00 <= u && u <= 0x1EFF)  // Latin Extended Additional
    ||| (0x250 <= u && u <= 0x2AF)  // IPA Extensions
    ||| (0x2B0 <= u && u <= 0x2FF)  // Spacing Modifier Letters
    ||| (0x300 <= u && u <= 0x36F)  // Combining Diacritical Marks
    ||| (0x1AB0 <= u && u <= 0x1AFF)  // Combining Diacritical Marks Extended
    ||| (0x1DC0 <= u && u <= 0x1DFF)  // Combining Diacritical Marks Supplement
    ||| (0x2C60 <= u && u <= 0x2C7F)  // Latin Extended-C
    ||| (0xA720 <= u && u <= 0xA7FF)  // Latin Extended-D
    ||| (0xAB30 <= u && u <= 0xAB6F)  // Latin Extended-E
    ||| (0x10780 <= u && u <= 0x107BF)  // Latin Extended-F
    ||| (0x1DF00 <= u && u <= 0x1DFFF)  // Latin Extended-G
}

/// The class of one character.  Punctuation inside the CJK blocks is
/// reclassified as `Other`.
pub open spec fn spec_char_type(c: char) -> CharType {
    if in_cjk_blocks(c) {
        if is_unicode_punctuation(c) {
            CharType::Other
        } else {
            CharType::Cjk
        }
    } else if in_latin_blocks(c) {
        CharType::Latin
    } else if 0x30 <= (c as u32) && (c as u32) <= 0x39 {
        CharType::Digit
    } else if c == ' ' || c == '\r' || c == '\n' {
        CharType::Space
    } else {
        CharType::Other
    }
}

/// Classifies one character.
pub fn char_type(c: char) -> (r: CharType)
    ensures
        r == spec_char_type(c),
{
    let u = c as u32;
    let cjk = (0x4E00 <= u && u <= 0x9FFF) || (0x3400 <= u && u <= 0x4DBF) || (0x20000 <= u && u
        <= 0x2A6DF) || (0x2A700 <= u && u <= 0x2B73F) || (0x2B740 <= u && u <= 0x2B81F) || (0x2B820
        <= u && u <= 0x2CEAF) || (0x2CEB0 <= u && u <= 0x2EBEF) || (0x30000 <= u && u <= 0x3134F)
        || (0x31350 <= u && u <= 0x323AF) || (0x2EBF0 <= u && u <= 0x2EE5D) || (0x2E80 <= u && u
        <= 0x2EFF) || (0x3000 <= u && u <= 0x303F) || (0x3040 <= u && u <= 0x309F) || (0x30A0 <= u
        && u <= 0x30FF) || (0x3100 <= u && u <= 0x312F) || (0xAC00 <= u && u <= 0xD7AF);
    if cjk {
        if is_punctuation_char(c) {
            CharType::Other
        } else {
            CharType::Cjk
        }
    } else {
        let latin = (0x41 <= u && u <= 0x5A) || (0x61 <= u && u <= 0x7A) || (0xC0 <= u && u <= 0xFF)
            || (0x100 <= u && u <= 0x17F) || (0x180 <= u && u <= 0x24F) || (0x1E00 <= u && u
            <= 0x1EFF) || (0x250 <= u && u <= 0x2AF) || (0x2B0 <= u && u <= 0x2FF) || (0x300 <= u
            && u <= 0x36F) || (0x1AB0 <= u && u <= 0x1AFF) || (0x1DC0 <= u && u <= 0x1DFF) || (
        0x2C60 <= u && u <= 0x2C7F) || (0xA720 <= u && u <= 0xA7FF) || (0xAB30 <= u && u <= 0xAB6F)
            || (0x10780 <= u && u <= 0x107BF) || (0x1DF00 <= u && u <= 0x1DFFF);
        if latin {
            CharType::Latin
        } else if 0x30 <= u && u <= 0x39 {
            CharType::Digit
        } else if c == ' ' || c == '\r' || c == '\n' {
            CharType::Space
        } else {
            CharType::Other
        }
    }
}

/// An edit the spacing rules may call for.
#[allow(dead_code)]
pub(crate) enum SpaceEdit {
    /// A space should be inserted.
    Add,
    /// A space should be removed.  Reserved: no rule emits it yet.
    Delete,
}

/// The spacing rule that governs a transition between two character
/// classes, if any does.
pub open spec fn spacing_rule_for(cfg: SpacingConfig, prev: CharType, curr: CharType) -> Option<
    SpacingRule,
> {
    if (prev is Cjk && curr is Digit) || (prev is Digit && curr is Cjk) {
        Option::Some(cfg.digits)
    } else if (prev is Cjk && curr is Latin) || (prev is Latin && curr is Cjk) {
        Option::Some(cfg.alphabets)
    } else {
        Option::None
    }
}

/// Whether a transition demands a spacing edit.
pub open spec fn spacing_emits(cfg: SpacingConfig, prev: CharType, curr: CharType) -> bool {
    spacing_rule_for(cfg, prev, curr) == Option::Some(SpacingRule::Require)
}

/// Evaluates the spacing rule between two adjacent characters.
pub(crate) fn evaluate_spacing(config: &Config, prev: CharType, curr: CharType) -> (r: Option<
    SpaceEdit,
>)
    requires
        spacing_rule_for(config.spacing, prev, curr) != Option::Some(SpacingRule::Prohibit),
    ensures
        (r is Some) == spacing_emits(config.spacing, prev, curr),
        r is Some ==> r->Some_0 is Add,
{
    match (prev, curr) {
        (CharType::Cjk, CharType::Digit) | (CharType::Digit, CharType::Cjk) => match config
            .spacing
            .digits {
            SpacingRule::Require => Some(SpaceEdit::Add),
            SpacingRule::Prohibit => vstd::pervasive::unreached(),
            SpacingRule::Ignore => None,
        },
        (CharType::Cjk, CharType::Latin) | (CharType::Latin, CharType::Cjk) => match config
            .spacing
            .alphabets {
            SpacingRule::Require => Some(SpaceEdit::Add),
            SpacingRule::Prohibit => vstd::pervasive::unreached(),
            SpacingRule::Ignore => None,
        },
        _ => None,
    }
}

/// The byte offsets, from position `i` on, whose transition demands a
/// spacing edit.
pub open spec fn spacing_positions_from(cfg: SpacingConfig, s: Seq<char>, i: int) -> Seq<int>
    decreases s.len() - i,
{
    if i < 1 || i >= s.len() {
        seq![]
    } else {
        let rest = spacing_positions_from(cfg, s, i + 1);
        if spacing_emits(cfg, spec_char_type(s[i - 1]), spec_char_type(s[i])) {
            seq![utf8_len(s.take(i))] + rest
        } else {
            rest
        }
    }
}

/// The byte offsets of a text whose transition demands a spacing edit.
/// Each offset is the start of the second character of its transition
/// pair.
pub open spec fn spec_spacing_positions(cfg: SpacingConfig, s: Seq<char>) -> Seq<int> {
    spacing_positions_from(cfg, s, 1)
}

/// Whether a byte offset falls on a boundary between the characters of
/// the sequence (its start and end included).
pub open spec fn is_codepoint_boundary(s: Seq<char>, off: int) -> bool {
    exists|m: int| 0 <= m <= s.len() && off == utf8_len(s.take(m))
}

/// The sequence of `usize` offsets, as mathematical integers.
pub open spec fn as_ints(v: Seq<usize>) -> Seq<int> {
    v.map_values(|x: usize| x as int)
}

/// Scans a text and returns the byte offsets at which the configured
/// spacing rules demand an edit: a strictly increasing sequence of
/// codepoint boundaries, each the start of the second character of a
/// CJK-to-Latin, Latin-to-CJK, CJK-to-digit or digit-to-CJK transition
/// whose governing rule is `Require`.
///
/// Configurations that select the reserved `Prohibit` rule are refused:
/// its behaviour is not implemented.
pub fn search_possible_spacing_positions(config: &Config, text: &str) -> (r: Vec<usize>)
    requires
        config.spacing.alphabets != SpacingRule::Prohibit,
        config.spacing.digits != SpacingRule::Prohibit,
    ensures
        as_ints(r@) == spec_spacing_positions(config.spacing, text@),
        forall|k1: int, k2: int| 0 <= k1 < k2 < r@.len() ==> r@[k1] < r@[k2],
        forall|k: int| 0 <= k < r@.len() ==> is_codepoint_boundary(text@, #[trigger] r@[k] as int),
    {
    let ghost cfg = config.spacing;
    let ghost s = text@;
    let total: usize = text.as_bytes().len();
    proof {
        broadcast use vstd::slice::axiom_spec_len;

        lemma_str_byte_len(text);
        assert(total as int == utf8_len(s));
    }
    let chars = chars_vec(text);
    let mut indices: Vec<usize> = Vec::new();
    if chars.len() == 0 {
        proof {
            assert(as_ints(indices@) =~= spec_spacing_positions(cfg, s));
        }
        return indices;
    }
    let mut prev = char_type(chars[0]);
    let mut off: usize = char_utf8_len_x(chars[0]);
    let mut i: usize = 1;
    proof {
        assert(s.take(0) =~= Seq::<char>::empty());
        lemma_utf8_len_take_step(s, 0);
        assert(off as int == utf8_len(s.take(1)));
        assert(as_ints(indices@) =~= Seq::<int>::empty());
        assert(as_ints(indices@) + spacing_positions_from(cfg, s, 1) =~= spec_spacing_positions(
            cfg,
            s,
        ));
    }
    while i < chars.len()
        invariant
            1 <= i <= chars@.len(),
            chars@ == s,
            total as int == utf8_len(s),
            cfg == config.spacing,
            cfg.alphabets != SpacingRule::Prohibit,
            cfg.digits != SpacingRule::Prohibit,
            prev == spec_char_type(s[i - 1]),
            off as int == utf8_len(s.take(i as int)),
            spec_spacing_positions(cfg, s) == as_ints(indices@) + spacing_positions_from(
                cfg,
                s,
                i as int,
            ),
            forall|k1: int, k2: int| 0 <= k1 < k2 < indices@.len() ==> indices@[k1] < indices@[k2],
            forall|k: int| 0 <= k < indices@.len() ==> (#[trigger] indices@[k] as int)
                < utf8_len(s.take(i as int)),
            forall|k: int| 0 <= k < indices@.len() ==> is_codepoint_boundary(
                s,
                #[trigger] indices@[k] as int,
            ),
        decreases chars@.len() - i,
    {
        let curr = char_type(chars[i]);
        let curr_c = chars[i];
        proof {
            lemma_utf8_len_take_step(s, i as int);
            lemma_utf8_len_split(s, i as int + 1);
            lemma_utf8_len_ge_len(s.skip(i as int + 1));
            crate::chars::lemma_char_utf8_len(s[i as int]);
        }
        match evaluate_spacing(config, prev, curr) {
            Some(_) => {
                proof {
                    assert(is_codepoint_boundary(s, off as int));
                    assert(as_ints(indices@.push(off)) =~= as_ints(indices@) + seq![off as int]);
                    assert(as_ints(indices@) + (seq![off as int] + spacing_positions_from(
                        cfg,
                        s,
                        i as int + 1,
                    )) =~= (as_ints(indices@) + seq![off as int]) + spacing_positions_from(
                        cfg,
                        s,
                        i as int + 1,
                    ));
                }
                indices.push(off);
            },
            None => {},
        }
        prev = curr;
        off = off + char_utf8_len_x(curr_c);
        i = i + 1;
    }
    proof {
        assert(spacing_positions_from(cfg, s, i as int) =~= Seq::<int>::empty());
        assert(as_ints(indices@) + Seq::<int>::empty() =~= as_ints(indices@));
        assert forall|k: int| 0 <= k < indices@.len() implies is_codepoint_boundary(
            s,
            indices@[k] as int,
        ) by {}
    }
    indices
}

} // verus!
