//! UAX #14 line-break classes and the breakability test between two
//! grapheme clusters.
use vstd::prelude::*;
use unicode_linebreak::break_property;
use unicode_linebreak::BreakClass;

verus! {

/// The UAX #14 line-break classes the breaker distinguishes.  Every class
/// other than the five below is collapsed into `Other`.
#[derive(Clone, Copy, Debug, PartialEq, Eq, Structural)]
pub enum BreakCategory {
    /// Break opportunity after (BA).
    After,
    /// Break opportunity before (BB).
    Before,
    /// Break opportunity before and after (B2).
    BeforeAndAfter,
    /// Ordinary alphabetic and symbol character (AL).
    Alphabetic,
    /// Space (SP).
    Space,
    /// Any other class.
    Other,
}

/// The break category of a code point, as the UAX #14 tables give it.
pub uninterp spec fn break_category_of(c: char) -> BreakCategory;

/// Relies on `unicode_linebreak::break_property`: the UAX #14 line break
/// class of a code point, determined by the Unicode tables alone; the
/// classes the breaker does not distinguish are collapsed into `Other`.
#[verifier::external_body]
pub(crate) fn break_category(c: char) -> (r: BreakCategory)
    ensures
        r == break_category_of(c),
{
    match break_property(c as u32) {
        BreakClass::After => BreakCategory::After,
        BreakClass::Before => BreakCategory::Before,
        BreakClass::BeforeAndAfter => BreakCategory::BeforeAndAfter,
        BreakClass::Alphabetic => BreakCategory::Alphabetic,
        BreakClass::Space => BreakCategory::Space,
        _ => BreakCategory::Other,
    }
}

/// Whether UAX #14 allows a break between two adjacent grapheme clusters,
/// decided from the class of the last code point of the preceding cluster
/// and the class of the first code point of the following cluster.
pub open spec fn spec_breakable(preceding: Seq<char>, following: Seq<char>) -> bool
    recommends
        preceding.len() > 0,
        following.len() > 0,
{
    let pc = break_category_of(preceding.last());
    let fc = break_category_of(following.first());
    !(pc is After || fc is Before || pc is BeforeAndAfter || fc is BeforeAndAfter || (
    pc is Alphabetic && fc is Alphabetic) || fc is Space)
}

/// Checks whether a line break is allowed between the given grapheme
/// clusters.  This follows UAX #14 alone; kinsoku rules are applied by the
/// caller.
pub(crate) fn is_breakable(preceding: &Vec<char>, following: &Vec<char>) -> (r: bool)
    requires
        preceding@.len() > 0,
        following@.len() > 0,
    ensures
        r == spec_breakable(preceding@, following@),
{
    let pc = break_category(preceding[preceding.len() - 1]);
    let fc = break_category(following[0]);
    match (pc, fc) {
        (BreakCategory::After, _) => false,
        (_, BreakCategory::Before) => false,
        (BreakCategory::BeforeAndAfter, _) => false,
        (_, BreakCategory::BeforeAndAfter) => false,
        (BreakCategory::Alphabetic, BreakCategory::Alphabetic) => false,
        (_, BreakCategory::Space) => false,
        (_, _) => true,
    }
}

} // verus!
