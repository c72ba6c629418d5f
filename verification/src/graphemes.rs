//! Grapheme segmentation and display width, provided by outside Unicode
//! crates behind trusted wrappers, together with verified helpers over
//! grapheme vectors.
use vstd::prelude::*;
use unicode_segmentation::UnicodeSegmentation;
use unicode_width::UnicodeWidthStr;
use unicode_general_category::get_general_category;
use unicode_general_category::GeneralCategory;

verus! {

use crate::chars::utf8_len;
use crate::chars::utf16_len;
use crate::chars::char_utf8_len_x;
use crate::chars::char_utf16_len_x;
use crate::chars::lemma_utf8_len_take_step;
use crate::chars::lemma_utf8_len_split;
use crate::chars::lemma_utf8_len_ge_len;
use crate::chars::lemma_utf16_len_take_step;
use crate::chars::lemma_utf16_len_concat;
use crate::chars::lemma_utf16_len_bounds;
use crate::chars::vec_char_eq;

/// The extended grapheme clusters of a character sequence, in order, as
/// Unicode UAX #29 segments it.
pub uninterp spec fn grapheme_split(s: Seq<char>) -> Seq<Seq<char>>;

/// Relies on `unicode_segmentation::UnicodeSegmentation::graphemes`: the
/// extended grapheme clusters of a string, in order.  Their concatenation
/// is the original string, none of them is empty, and — per the UAX #29
/// rules GB3 to GB5 — a cluster holding a carriage return or a line feed
/// is exactly `"\r"`, `"\n"` or `"\r\n"`, and a cluster starting with a
/// line feed never follows one that is exactly a carriage return.
#[verifier::external_body]
pub(crate) fn split_graphemes(s: &str) -> (r: Vec<Vec<char>>)
    ensures
        r.deep_view() == grapheme_split(s@),
        r.deep_view().flatten() == s@,
        forall|i: int| 0 <= i < r.deep_view().len() ==> (#[trigger] r.deep_view()[i]).len() > 0,
        forall|i: int|
            0 <= i < r.deep_view().len() && ((#[trigger] r.deep_view()[i]).contains('\r')
                || r.deep_view()[i].contains('\n')) ==> (r.deep_view()[i] == seq!['\r']
                || r.deep_view()[i] == seq!['\n'] || r.deep_view()[i] == seq!['\r', '\n']),
        forall|i: int|
            1 <= i < r.deep_view().len() ==> !(r.deep_view()[i - 1] == seq!['\r'] && (
            #[trigger] r.deep_view()[i]).first() == '\n'),
{
    s.graphemes(true).map(|g| g.chars().collect()).collect()
}

/// The display width in columns of a grapheme cluster, with characters of
/// the East Asian Ambiguous category counted as two columns.
pub uninterp spec fn wide_width_of(g: Seq<char>) -> usize;

/// The display width in columns of a grapheme cluster, with characters of
/// the East Asian Ambiguous category counted as one column.
pub uninterp spec fn narrow_width_of(g: Seq<char>) -> usize;

/// Relies on `unicode_width::UnicodeWidthStr::width_cjk`: the displayed
/// width of a string in columns, with Ambiguous characters counted as two
/// columns; it depends on the characters alone.
#[verifier::external_body]
pub(crate) fn grapheme_width_wide(g: &Vec<char>) -> (r: usize)
    ensures
        r == wide_width_of(g@),
{
    let s: String = g.iter().collect();
    UnicodeWidthStr::width_cjk(s.as_str())
}

/// Relies on `unicode_width::UnicodeWidthStr::width`: the displayed width
/// of a string in columns, with Ambiguous characters counted as one
/// column; it depends on the characters alone.
#[verifier::external_body]
pub(crate) fn grapheme_width_narrow(g: &Vec<char>) -> (r: usize)
    ensures
        r == narrow_width_of(g@),
{
    let s: String = g.iter().collect();
    UnicodeWidthStr::width(s.as_str())
}

/// Whether the Unicode General Category of a character is one of the
/// punctuation categories (Pc, Pd, Pe, Pf, Pi, Po, Ps).
pub uninterp spec fn is_unicode_punctuation(c: char) -> bool;

/// Relies on `unicode_general_category::get_general_category`: the
/// Unicode General Category of a character, determined by the Unicode
/// tables alone; here it is read only as membership in the punctuation
/// categories.
#[verifier::external_body]
pub(crate) fn is_punctuation_char(c: char) -> (r: bool)
    ensures
        r == is_unicode_punctuation(c),
{
    match get_general_category(c) {
        GeneralCategory::ClosePunctuation => true,
        GeneralCategory::ConnectorPunctuation => true,
        GeneralCategory::DashPunctuation => true,
        GeneralCategory::FinalPunctuation => true,
        GeneralCategory::InitialPunctuation => true,
        GeneralCategory::OpenPunctuation => true,
        GeneralCategory::OtherPunctuation => true,
        _ => false,
    }
}

/// Relies on `str::chars`: the characters of a string slice, in order.
#[verifier::external_body]
pub(crate) fn chars_vec(s: &str) -> (r: Vec<char>)
    ensures
        r@ == s@,
{
    s.chars().collect()
}

/// Relies on `String`'s `FromIterator` implementation: collecting the
/// characters of a vector yields the string with exactly those characters.
#[verifier::external_body]
pub(crate) fn chars_to_string(v: &Vec<char>) -> (r: String)
    ensures
        r@ == v@,
{
    v.iter().collect()
}

/// The deep view of a vector of character vectors indexes to the views of
/// its elements.
pub proof fn lemma_deep_view_index(v: &Vec<Vec<char>>, i: int)
    requires
        0 <= i < v@.len(),
    ensures
        v.deep_view().len() == v@.len(),
        v.deep_view()[i] == v@[i]@,
{
}

/// The deep view of a character vector is its view.
pub proof fn lemma_vec_char_deep_view(v: &Vec<char>)
    ensures
        v.deep_view() == v@,
{
    assert(v.deep_view() =~= v@);
}

/// Computes the UTF-8 byte length of a character vector.
pub(crate) fn vec_utf8_len(g: &Vec<char>) -> (r: usize)
    requires
        utf8_len(g@) <= usize::MAX,
    ensures
        r as int == utf8_len(g@),
{
    let mut acc: usize = 0;
    let mut i: usize = 0;
    proof {
        assert(g@.take(0) =~= Seq::<char>::empty());
    }
    while i < g.len()
        invariant
            0 <= i <= g@.len(),
            utf8_len(g@) <= usize::MAX,
            acc as int == utf8_len(g@.take(i as int)),
        decreases g@.len() - i,
    {
        proof {
            lemma_utf8_len_take_step(g@, i as int);
            lemma_utf8_len_split(g@, i as int + 1);
            lemma_utf8_len_ge_len(g@.skip(i as int + 1));
        }
        acc = acc + char_utf8_len_x(g[i]);
        i = i + 1;
    }
    proof {
        assert(g@.take(g@.len() as int) =~= g@);
    }
    acc
}

/// Computes the UTF-16 length of a character vector.
pub(crate) fn vec_utf16_len(g: &Vec<char>) -> (r: usize)
    requires
        utf16_len(g@) <= usize::MAX,
    ensures
        r as int == utf16_len(g@),
{
    let mut acc: usize = 0;
    let mut i: usize = 0;
    proof {
        assert(g@.take(0) =~= Seq::<char>::empty());
    }
    while i < g.len()
        invariant
            0 <= i <= g@.len(),
            utf16_len(g@) <= usize::MAX,
            acc as int == utf16_len(g@.take(i as int)),
        decreases g@.len() - i,
    {
        proof {
            lemma_utf16_len_take_step(g@, i as int);
            assert(g@ =~= g@.take(i as int + 1) + g@.skip(i as int + 1));
            lemma_utf16_len_concat(g@.take(i as int + 1), g@.skip(i as int + 1));
            lemma_utf16_len_bounds(g@.skip(i as int + 1));
        }
        acc = acc + char_utf16_len_x(g[i]);
        i = i + 1;
    }
    proof {
        assert(g@.take(g@.len() as int) =~= g@);
    }
    acc
}

/// Tests whether a set of grapheme clusters holds the given cluster.
pub(crate) fn contains_grapheme(set: &Vec<Vec<char>>, g: &Vec<char>) -> (r: bool)
    ensures
        r == set.deep_view().contains(g@),
{
    let mut i: usize = 0;
    while i < set.len()
        invariant
            0 <= i <= set@.len(),
            forall|k: int| 0 <= k < i ==> set.deep_view()[k] != g@,
        decreases set@.len() - i,
    {
        proof {
            assert(set.deep_view()[i as int] == set@[i as int]@);
        }
        if vec_char_eq(&set[i], g) {
            proof {
                assert(set.deep_view()[i as int] == g@);
            }
            return true;
        }
        i = i + 1;
    }
    proof {
        assert forall|k: int| 0 <= k < set.deep_view().len() implies set.deep_view()[k] != g@ by {
        }
    }
    false
}

} // verus!
