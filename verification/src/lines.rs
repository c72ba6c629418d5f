//! Physical lines of a text, with their terminators retained.
//!
//! A line ends at the first `CRLF`, lone `CR` or lone `LF`; the
//! terminator stays at the end of the yielded line.  Trailing content
//! after the last terminator is yielded once without one, and empty input
//! yields nothing.
use vstd::prelude::*;

verus! {

use crate::graphemes::chars_vec;
use crate::graphemes::chars_to_string;

/// The end (exclusive, in characters) of the physical line whose scan
/// continues at position `i`: the position right after the first
/// terminator at or after `i`, or the text's end.
pub open spec fn first_line_end(s: Seq<char>, i: int) -> int
    decreases s.len() - i,
{
    if i < 0 || i >= s.len() {
        s.len() as int
    } else if s[i] == '\r' {
        if i + 1 < s.len() && s[i + 1] == '\n' {
            i + 2
        } else {
            i + 1
        }
    } else if s[i] == '\n' {
        i + 1
    } else {
        first_line_end(s, i + 1)
    }
}

/// The first line ends after the scan position and within the text.
pub proof fn lemma_first_line_end_bounds(s: Seq<char>, i: int)
    requires
        0 <= i < s.len(),
    ensures
        i < first_line_end(s, i) <= s.len(),
    decreases s.len() - i,
{
    if s[i] != '\r' && s[i] != '\n' {
        if i + 1 < s.len() {
            lemma_first_line_end_bounds(s, i + 1);
        } else {
            assert(first_line_end(s, i + 1) == s.len());
        }
    }
}

/// Scanning a suffix finds the same line end, shifted.
pub proof fn lemma_first_line_end_shift(s: Seq<char>, d: int, i: int)
    requires
        0 <= d <= i,
        i <= s.len(),
    ensures
        first_line_end(s, i) == d + first_line_end(s.skip(d), i - d),
    decreases s.len() - i,
{
    if i >= s.len() {
    } else if s[i] == '\r' || s[i] == '\n' {
    } else {
        lemma_first_line_end_shift(s, d, i + 1);
    }
}

/// The physical lines of a text, in order, terminators retained.
pub open spec fn line_split(s: Seq<char>) -> Seq<Seq<char>>
    decreases s.len(),
{
    if s.len() == 0 {
        seq![]
    } else {
        let e = first_line_end(s, 0);
        if 1 <= e <= s.len() {
            seq![s.take(e)] + line_split(s.skip(e))
        } else {
            seq![s]
        }
    }
}

/// A CRLF pair is consumed as one two-character terminator, never as a
/// CR line followed by an LF line.
pub proof fn lemma_crlf_one_terminator(s: Seq<char>)
    ensures
        (s.len() >= 2 && s[0] == '\r' && s[1] == '\n') ==> first_line_end(s, 0) == 2,
{
}

/// On non-empty input the split peels off exactly the first line.
pub proof fn lemma_line_split_first(s: Seq<char>)
    requires
        s.len() > 0,
    ensures
        line_split(s) == seq![s.take(first_line_end(s, 0))] + line_split(
            s.skip(first_line_end(s, 0)),
        ),
        line_split(s).len() >= 1,
        line_split(s)[0] == s.take(first_line_end(s, 0)),
{
    lemma_first_line_end_bounds(s, 0);
}

/// Concatenating the lines restores the text.
pub proof fn lemma_line_split_flatten(s: Seq<char>)
    ensures
        line_split(s).flatten() == s,
    decreases s.len(),
{
    if s.len() == 0 {
        assert(line_split(s) =~= Seq::<Seq<char>>::empty());
        assert(line_split(s).flatten() =~= s);
    } else {
        lemma_first_line_end_bounds(s, 0);
        let e = first_line_end(s, 0);
        lemma_line_split_flatten(s.skip(e));
        assert(line_split(s)[0] == s.take(e));
        assert(line_split(s).drop_first() =~= line_split(s.skip(e)));
        assert(line_split(s).flatten() == s.take(e) + line_split(s.skip(e)).flatten());
        assert(line_split(s).flatten() =~= s);
    }
}

/// A text has at most as many lines as characters, and every line is
/// non-empty and no longer than the text.
pub proof fn lemma_line_split_counts(s: Seq<char>)
    ensures
        line_split(s).len() <= s.len(),
        forall|i: int| 0 <= i < line_split(s).len() ==> 1 <= (#[trigger] line_split(s)[i]).len()
            <= s.len(),
    decreases s.len(),
{
    if s.len() > 0 {
        lemma_first_line_end_bounds(s, 0);
        let e = first_line_end(s, 0);
        lemma_line_split_counts(s.skip(e));
        assert forall|i: int| 0 <= i < line_split(s).len() implies 1 <= (
        #[trigger] line_split(s)[i]).len() <= s.len() by {
            if i == 0 {
                assert(line_split(s)[0] == s.take(e));
            } else {
                assert(line_split(s)[i] == line_split(s.skip(e))[i - 1]);
            }
        }
    }
}

/// Finds the end of the line that starts at `start`.
fn find_line_end(text: &Vec<char>, start: usize) -> (e: usize)
    requires
        start < text@.len(),
    ensures
        e as int == first_line_end(text@, start as int),
        start < e <= text@.len(),
{
    proof {
        lemma_first_line_end_bounds(text@, start as int);
    }
    let mut i: usize = start;
    while i < text.len()
        invariant
            start <= i <= text@.len(),
            first_line_end(text@, start as int) == first_line_end(text@, i as int),
        decreases text@.len() - i,
    {
        let c = text[i];
        if c == '\r' {
            if i + 1 < text.len() {
                if text[i + 1] == '\n' {
                    return i + 2;
                }
            }
            return i + 1;
        } else if c == '\n' {
            return i + 1;
        }
        i = i + 1;
    }
    text.len()
}

/// Copies the characters of the half-open range `[start, end)`.
pub(crate) fn copy_range(text: &Vec<char>, start: usize, end: usize) -> (r: Vec<char>)
    requires
        start <= end,
        end <= text@.len(),
    ensures
        r@ == text@.subrange(start as int, end as int),
{
    let mut r: Vec<char> = Vec::new();
    let mut i: usize = start;
    while i < end
        invariant
            start <= i <= end,
            end <= text@.len(),
            r@ == text@.subrange(start as int, i as int),
        decreases end - i,
    {
        r.push(text[i]);
        proof {
            assert(text@.subrange(start as int, i as int + 1) =~= text@.subrange(
                start as int,
                i as int,
            ).push(text@[i as int]));
        }
        i = i + 1;
    }
    r
}

/// Splits a whole text into its physical lines.
pub(crate) fn split_all_lines(text: &Vec<char>) -> (r: Vec<Vec<char>>)
    ensures
        r.deep_view() == line_split(text@),
{
    let mut out: Vec<Vec<char>> = Vec::new();
    let mut idx: usize = 0;
    proof {
        assert(out.deep_view() =~= Seq::<Seq<char>>::empty());
        assert(text@.skip(0) =~= text@);
        assert(line_split(text@) =~= out.deep_view() + line_split(text@.skip(0)));
    }
    while idx < text.len()
        invariant
            0 <= idx <= text@.len(),
            line_split(text@) == out.deep_view() + line_split(text@.skip(idx as int)),
        decreases text@.len() - idx,
    {
        let ghost rem = text@.skip(idx as int);
        let e = find_line_end(text, idx);
        let line = copy_range(text, idx, e);
        proof {
            lemma_first_line_end_shift(text@, idx as int, idx as int);
            lemma_line_split_first(rem);
            assert(rem.take(e as int - idx as int) =~= text@.subrange(idx as int, e as int));
            assert(rem.skip(e as int - idx as int) =~= text@.skip(e as int));
        }
        let ghost old_out = out.deep_view();
        let ghost linev = line@;
        proof {
            crate::graphemes::lemma_vec_char_deep_view(&line);
        }
        out.push(line);
        proof {
            assert(out.deep_view() =~= old_out + seq![linev]);
            assert(old_out + (seq![linev] + line_split(text@.skip(e as int))) =~= (old_out + seq![
                linev,
            ]) + line_split(text@.skip(e as int)));
        }
        idx = e;
    }
    proof {
        assert(text@.skip(text@.len() as int) =~= Seq::<char>::empty());
        assert(line_split(text@.skip(idx as int)) =~= Seq::<Seq<char>>::empty());
        assert(line_split(text@) =~= out.deep_view());
    }
    out
}

/// A lazy iterator over the physical lines of a text, line terminators
/// included.
///
/// The difference from iterating `str::lines` is that the terminators are
/// retained in the yielded lines.
pub struct LinesInclusive {
    text: Vec<char>,
    index: usize,
}

impl LinesInclusive {
    /// The characters of the underlying text.
    pub closed spec fn text_view(self) -> Seq<char> {
        self.text@
    }

    /// The current scan position, in characters.
    pub closed spec fn spec_index(self) -> int {
        self.index as int
    }

    /// The scan position stays within the text.
    pub open spec fn wf(self) -> bool {
        0 <= self.spec_index() <= self.text_view().len()
    }

    /// The characters not yet yielded.
    pub open spec fn remaining(self) -> Seq<char> {
        self.text_view().skip(self.spec_index())
    }

    /// Creates a new iterator over the lines of `text`.
    pub fn new(text: &str) -> (r: Self)
        ensures
            r.text_view() == text@,
            r.spec_index() == 0,
            r.wf(),
    {
        LinesInclusive { text: chars_vec(text), index: 0 }
    }

    /// Yields the next line, terminator included, or `None` at the end.
    pub fn next(&mut self) -> (r: Option<String>)
        requires
            old(self).wf(),
        ensures
            final(self).wf(),
            final(self).text_view() == old(self).text_view(),
            (match r {
                Option::Some(line) => {
                    &&& old(self).remaining().len() > 0
                    &&& line@.len() > 0
                    &&& line@ == line_split(old(self).remaining())[0]
                    &&& final(self).spec_index() == old(self).spec_index() + line@.len()
                    &&& line_split(old(self).remaining()) == seq![line@] + line_split(
                        final(self).remaining(),
                    )
                },
                Option::None => old(self).remaining().len() == 0 && *final(self) == *old(self),
            }),
    {
        if self.index >= self.text.len() {
            proof {
                assert(old(self).remaining().len() == 0);
            }
            return None;
        }
        let ghost rem = self.remaining();
        let e = find_line_end(&self.text, self.index);
        let line = copy_range(&self.text, self.index, e);
        proof {
            lemma_first_line_end_shift(self.text@, self.index as int, self.index as int);
            lemma_line_split_first(rem);
            assert(rem.take(e as int - self.index as int) =~= self.text@.subrange(
                self.index as int,
                e as int,
            ));
            assert(rem.skip(e as int - self.index as int) =~= self.text@.skip(e as int));
        }
        let s = chars_to_string(&line);
        self.index = e;
        Some(s)
    }
}

/// Extension trait that adds `lines_inclusive` to string types.
pub trait LinesInclusiveExt {
    /// The characters of the text to split.
    spec fn chars_view(&self) -> Seq<char>;

    /// Returns an iterator over the lines of the text, including the line
    /// endings.
    fn lines_inclusive(&self) -> (r: LinesInclusive)
        ensures
            r.text_view() == self.chars_view(),
            r.spec_index() == 0,
            r.wf(),
    ;
}

impl LinesInclusiveExt for str {
    open spec fn chars_view(&self) -> Seq<char> {
        self@
    }

    fn lines_inclusive(&self) -> (r: LinesInclusive) {
        LinesInclusive::new(self)
    }
}

} // verus!
