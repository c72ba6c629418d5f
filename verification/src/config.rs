//! Configuration for the formatter and the checks.
use vstd::prelude::*;

verus! {

/// How to count the width of characters in the East Asian Ambiguous
/// category (Unicode Standard Annex #11).
#[derive(Clone, Copy, Debug, PartialEq, Eq, Structural)]
pub enum AmbiguousWidth {
    /// Count ambiguous characters as one column.
    Narrow,
    /// Count ambiguous characters as two columns.
    Wide,
}

/// Rule for the spacing between full-width and half-width characters.
#[derive(Clone, Copy, Debug, PartialEq, Eq, Structural)]
pub enum SpacingRule {
    /// Require a space between full-width and half-width characters.
    Require,
    /// Prohibit spaces between full-width and half-width characters.
    ///
    /// Reserved: no behaviour is implemented for this rule, and the
    /// analyzer refuses configurations that select it.
    Prohibit,
    /// Do not care about spaces between full-width and half-width characters.
    Ignore,
}

/// Configuration for the spacing analysis.
#[derive(Clone, Copy, Debug, PartialEq, Eq, Structural)]
pub struct SpacingConfig {
    /// How to handle spaces between CJK runs and Latin letters.
    pub alphabets: SpacingRule,
    /// How to handle spaces between CJK runs and ASCII digits.
    pub digits: SpacingRule,
    /// Whether to treat full-width punctuation as full-width characters.
    ///
    /// Reserved: no behaviour is attached to this flag.
    pub punctuation_as_fullwidth: bool,
}

/// The configuration of one invocation.
#[derive(Clone, Copy, Debug, PartialEq, Eq, Structural)]
pub struct Config {
    /// How to count the width of East Asian Ambiguous characters.
    pub ambiguous_width: AmbiguousWidth,
    /// Maximum line width to allow, in display columns.
    pub max_width: u32,
    /// Rules for spacing between full-width and half-width characters.
    pub spacing: SpacingConfig,
}

impl Default for SpacingConfig {
    /// Both spacing rules default to `Ignore`.
    fn default() -> (r: Self)
        ensures
            r == (SpacingConfig {
                alphabets: SpacingRule::Ignore,
                digits: SpacingRule::Ignore,
                punctuation_as_fullwidth: false,
            }),
    {
        SpacingConfig {
            alphabets: SpacingRule::Ignore,
            digits: SpacingRule::Ignore,
            punctuation_as_fullwidth: false,
        }
    }
}

impl Default for Config {
    /// The default budget is 80 columns with ambiguous characters wide.
    fn default() -> (r: Self)
        ensures
            r == (Config {
                ambiguous_width: AmbiguousWidth::Wide,
                max_width: 80,
                spacing: SpacingConfig {
                    alphabets: SpacingRule::Ignore,
                    digits: SpacingRule::Ignore,
                    punctuation_as_fullwidth: false,
                },
            }),
    {
        Config {
            ambiguous_width: AmbiguousWidth::Wide,
            max_width: 80,
            spacing: SpacingConfig {
                alphabets: SpacingRule::Ignore,
                digits: SpacingRule::Ignore,
                punctuation_as_fullwidth: false,
            },
        }
    }
}

} // verus!
