//! The line breaker: finds the next break point of one physical line
//! under an East Asian display-width budget, obeying the Japanese kinsoku
//! rules and UAX #14.
use vstd::prelude::*;

verus! {

use crate::breakclass::spec_breakable;
use crate::breakclass::is_breakable;
use crate::chars::utf8_len;
use crate::chars::lemma_utf8_len_ge_len;
use crate::chars::lemma_utf8_len_concat;
use crate::chars::lemma_utf8_len_encode;
use crate::chars::lemma_str_byte_len;
use crate::chars::lemma_encode_utf8_concat;
use crate::chars::lemma_encode_terminators;
use crate::chars::lemma_char_boundary_at_prefix;
use vstd::utf8::encode_utf8;
use vstd::utf8::is_char_boundary;
use crate::config::AmbiguousWidth;
use crate::errors::CjkfmtError;
use crate::graphemes::grapheme_split;
use crate::graphemes::split_graphemes;
use crate::graphemes::grapheme_width_wide;
use crate::graphemes::grapheme_width_narrow;
use crate::graphemes::wide_width_of;
use crate::graphemes::narrow_width_of;
use crate::graphemes::contains_grapheme;
use crate::graphemes::vec_utf8_len;
use crate::graphemes::lemma_deep_view_index;

/// A break point detected by [`LineBreaker::next_line_break`].
///
/// All offsets are byte offsets into the UTF-8 encoding of the line.
#[derive(Clone, Copy, Debug, PartialEq, Eq, Structural)]
pub enum BreakPoint {
    /// The line carries a terminator (`CR`, `LF` or `CRLF`) whose last
    /// byte ends at this offset.
    EndOfLine(usize),
    /// The line exceeds the width budget.
    ///
    /// - `overflow_pos`: byte offset of the first grapheme cluster whose
    ///   inclusion would exceed the budget.
    /// - `adjustment`: number of bytes to subtract from `overflow_pos` to
    ///   reach the acceptable break offset after kinsoku and UAX #14
    ///   backtracking.
    WrapPoint { overflow_pos: usize, adjustment: usize },
    /// The line ends, without a terminator, before the budget is spent;
    /// the offset is the line's byte length.
    EndOfText(usize),
}

/// The breaker's decision over the mathematical model of a line: the same
/// three outcomes as [`BreakPoint`], enriched with the grapheme indices
/// the decision came from.
pub enum SpecBreak {
    /// Terminator found: `end` is the byte offset past it, `gi` the index
    /// of the terminator grapheme.
    Eol { end: int, gi: int },
    /// Wrap found at the grapheme with index `gi` (byte offset `pos`);
    /// the break falls before the grapheme with index `cj`, which lies
    /// `adj` bytes to the left.
    Wrap { pos: int, adj: int, gi: int, cj: int },
    /// No terminator and no wrap: `end` is the line's byte length.
    Eot { end: int },
}

/// Total UTF-8 byte length of a sequence of grapheme clusters.
pub open spec fn gb_len(gs: Seq<Seq<char>>) -> int
    decreases gs.len(),
{
    if gs.len() == 0 {
        0
    } else {
        utf8_len(gs[0]) + gb_len(gs.drop_first())
    }
}

/// Byte offset of the grapheme cluster with index `i`.
pub open spec fn gb_off(gs: Seq<Seq<char>>, i: int) -> int {
    gb_len(gs.take(i))
}

/// Display width of one grapheme cluster under the ambiguous-width policy.
pub open spec fn grapheme_width(amb: AmbiguousWidth, g: Seq<char>) -> int {
    match amb {
        AmbiguousWidth::Wide => wide_width_of(g) as int,
        AmbiguousWidth::Narrow => narrow_width_of(g) as int,
    }
}

/// Total display width of a sequence of grapheme clusters.
pub open spec fn wsum(amb: AmbiguousWidth, gs: Seq<Seq<char>>) -> int
    decreases gs.len(),
{
    if gs.len() == 0 {
        0
    } else {
        grapheme_width(amb, gs[0]) + wsum(amb, gs.drop_first())
    }
}

/// Whether a grapheme cluster is a line terminator.
pub open spec fn is_eol_grapheme(g: Seq<char>) -> bool {
    g == seq!['\r'] || g == seq!['\n'] || g == seq!['\r', '\n']
}

/// Whether a byte offset falls on a boundary between grapheme clusters of
/// the sequence (its start and end included).
pub open spec fn is_grapheme_boundary(s: Seq<char>, off: int) -> bool {
    exists|j: int| 0 <= j <= grapheme_split(s).len() && off == gb_off(grapheme_split(s), j)
}

/// Byte length of grapheme sequences distributes over concatenation.
pub proof fn lemma_gb_len_concat(a: Seq<Seq<char>>, b: Seq<Seq<char>>)
    ensures
        gb_len(a + b) == gb_len(a) + gb_len(b),
    decreases a.len(),
{
    if a.len() == 0 {
        assert(a + b =~= b);
    } else {
        assert((a + b).drop_first() =~= a.drop_first() + b);
        assert((a + b)[0] == a[0]);
        lemma_gb_len_concat(a.drop_first(), b);
    }
}

/// Grapheme sequences have a non-negative byte length.
pub proof fn lemma_gb_len_nonneg(gs: Seq<Seq<char>>)
    ensures
        gb_len(gs) >= 0,
    decreases gs.len(),
{
    if gs.len() > 0 {
        lemma_utf8_len_ge_len(gs[0]);
        lemma_gb_len_nonneg(gs.drop_first());
    }
}

/// The offset of the next grapheme adds the current grapheme's length.
pub proof fn lemma_gb_off_step(gs: Seq<Seq<char>>, i: int)
    requires
        0 <= i < gs.len(),
    ensures
        gb_off(gs, i + 1) == gb_off(gs, i) + utf8_len(gs[i]),
{
    assert(gs.take(i + 1) =~= gs.take(i) + seq![gs[i]]);
    lemma_gb_len_concat(gs.take(i), seq![gs[i]]);
    assert(seq![gs[i]].drop_first() =~= Seq::<Seq<char>>::empty());
    assert(gb_len(Seq::<Seq<char>>::empty()) == 0);
    assert(gb_len(seq![gs[i]]) == utf8_len(gs[i]));
}

/// Grapheme offsets are monotone in the index.
pub proof fn lemma_gb_off_mono(gs: Seq<Seq<char>>, a: int, b: int)
    requires
        0 <= a <= b <= gs.len(),
    ensures
        gb_off(gs, a) <= gb_off(gs, b),
{
    assert(gs.take(b) =~= gs.take(a) + gs.take(b).skip(a));
    lemma_gb_len_concat(gs.take(a), gs.take(b).skip(a));
    lemma_gb_len_nonneg(gs.take(b).skip(a));
}

/// Every grapheme offset lies between zero and the total byte length.
pub proof fn lemma_gb_off_in_range(gs: Seq<Seq<char>>, a: int)
    requires
        0 <= a <= gs.len(),
    ensures
        0 <= gb_off(gs, a) <= gb_len(gs),
{
    assert(gs.take(0) =~= Seq::<Seq<char>>::empty());
    lemma_gb_off_mono(gs, 0, a);
    lemma_gb_off_mono(gs, a, gs.len() as int);
    assert(gs.take(gs.len() as int) =~= gs);
}

/// Character offset of the grapheme cluster with index `t`: the number
/// of characters in the clusters before it.
pub open spec fn gc_off(gs: Seq<Seq<char>>, t: int) -> int {
    gs.take(t).flatten().len() as int
}

/// The character offset of the next grapheme adds the current grapheme's
/// character count.
pub proof fn lemma_gc_off_step(gs: Seq<Seq<char>>, t: int)
    requires
        0 <= t < gs.len(),
    ensures
        gc_off(gs, t + 1) == gc_off(gs, t) + gs[t].len(),
{
    broadcast use Seq::lemma_flatten_push;

    assert(gs.take(t + 1) =~= gs.take(t).push(gs[t]));
}

/// Character offsets are monotone, and strictly so over non-empty
/// clusters.
pub proof fn lemma_gc_off_mono(gs: Seq<Seq<char>>, a: int, b: int)
    requires
        0 <= a <= b <= gs.len(),
        forall|t: int| 0 <= t < gs.len() ==> (#[trigger] gs[t]).len() > 0,
    ensures
        gc_off(gs, a) <= gc_off(gs, b),
        a < b ==> gc_off(gs, a) < gc_off(gs, b),
    decreases b - a,
{
    if a < b {
        lemma_gc_off_step(gs, a);
        lemma_gc_off_mono(gs, a + 1, b);
    }
}

/// At most one grapheme cluster starts at any character offset.
pub proof fn lemma_gc_off_unique(gs: Seq<Seq<char>>, t1: int, t2: int)
    requires
        0 <= t1 < gs.len(),
        0 <= t2 < gs.len(),
        forall|t: int| 0 <= t < gs.len() ==> (#[trigger] gs[t]).len() > 0,
        gc_off(gs, t1) == gc_off(gs, t2),
    ensures
        t1 == t2,
{
    if t1 < t2 {
        lemma_gc_off_mono(gs, t1, t2);
    } else if t2 < t1 {
        lemma_gc_off_mono(gs, t2, t1);
    }
}

/// The byte length of a grapheme sequence is the byte length of its
/// concatenation.
pub proof fn lemma_gb_len_flatten(gs: Seq<Seq<char>>)
    ensures
        gb_len(gs) == utf8_len(gs.flatten()),
    decreases gs.len(),
{
    if gs.len() == 0 {
        assert(gs.flatten() =~= Seq::<char>::empty());
    } else {
        assert(gs.flatten() == gs[0] + gs.drop_first().flatten());
        lemma_utf8_len_concat(gs[0], gs.drop_first().flatten());
        lemma_gb_len_flatten(gs.drop_first());
    }
}

/// A grapheme sequence splits into a prefix, one cluster, and a suffix.
pub proof fn lemma_flatten_split(gs: Seq<Seq<char>>, j: int)
    requires
        0 <= j <= gs.len(),
    ensures
        gs.flatten() == gs.take(j).flatten() + gs.skip(j).flatten(),
    decreases j,
{
    if j == 0 {
        assert(gs.take(0) =~= Seq::<Seq<char>>::empty());
        assert(gs.take(0).flatten() =~= Seq::<char>::empty());
        assert(gs.skip(0) =~= gs);
        assert(gs.flatten() =~= gs.take(0).flatten() + gs.skip(0).flatten());
    } else {
        let d = gs.drop_first();
        lemma_flatten_split(d, j - 1);
        assert(gs.take(j).drop_first() =~= d.take(j - 1));
        assert(gs.take(j)[0] == gs[0]);
        assert(gs.take(j).flatten() == gs[0] + d.take(j - 1).flatten());
        assert(gs.skip(j) =~= d.skip(j - 1));
        assert(gs.flatten() == gs[0] + d.flatten());
        assert(gs.flatten() =~= gs.take(j).flatten() + gs.skip(j).flatten());
    }
}

/// Extending a prefix of graphemes adds the width of the new cluster.
pub proof fn lemma_wsum_step(amb: AmbiguousWidth, gs: Seq<Seq<char>>, i: int)
    requires
        0 <= i < gs.len(),
    ensures
        wsum(amb, gs.take(i + 1)) == wsum(amb, gs.take(i)) + grapheme_width(amb, gs[i]),
{
    assert(gs.take(i + 1) =~= gs.take(i) + seq![gs[i]]);
    lemma_wsum_concat(amb, gs.take(i), seq![gs[i]]);
    assert(seq![gs[i]].drop_first() =~= Seq::<Seq<char>>::empty());
    assert(wsum(amb, Seq::<Seq<char>>::empty()) == 0);
    assert(wsum(amb, seq![gs[i]]) == grapheme_width(amb, gs[i]));
}

/// Width of grapheme sequences distributes over concatenation.
pub proof fn lemma_wsum_concat(amb: AmbiguousWidth, a: Seq<Seq<char>>, b: Seq<Seq<char>>)
    ensures
        wsum(amb, a + b) == wsum(amb, a) + wsum(amb, b),
    decreases a.len(),
{
    if a.len() == 0 {
        assert(a + b =~= b);
    } else {
        assert((a + b).drop_first() =~= a.drop_first() + b);
        assert((a + b)[0] == a[0]);
        lemma_wsum_concat(amb, a.drop_first(), b);
    }
}

/// The bytes ending at offset `n` of the UTF-8 encoding of `s` are
/// exactly one line terminator: `"\n"`, `"\r"`, or `"\r\n"`.
pub open spec fn eol_valid(s: Seq<char>, n: int) -> bool {
    let b = encode_utf8(s);
    &&& 1 <= n <= b.len()
    &&& (b.subrange(n - 1, n) == seq![10u8] || b.subrange(n - 1, n) == seq![13u8] || (n >= 2
        && b.subrange(n - 2, n) == seq![13u8, 10u8]))
}

/// The breaker's configuration as a mathematical value: the projections
/// of a [`LineBreaker`] that its decisions depend on.
pub struct BreakerModel {
    /// Maximum line width, in display columns.
    pub max_width: int,
    /// How East Asian Ambiguous characters are counted.
    pub ambiguous_width: AmbiguousWidth,
    /// Grapheme clusters prohibited at the start of a line.
    pub start_set: Seq<Seq<char>>,
    /// Grapheme clusters prohibited at the end of a line.
    pub end_set: Seq<Seq<char>>,
}

/// The grapheme cluster with index `k` overflowed the budget and the
/// breaker tolerated the overflow because no acceptable break existed to
/// its left.
pub open spec fn tolerated_overflow(bm: BreakerModel, gs: Seq<Seq<char>>, k: int) -> bool {
    &&& 0 <= k < gs.len()
    &&& wsum(bm.ambiguous_width, gs.take(k + 1)) > bm.max_width
    &&& bm.seek_cut(gs, k) is None
}

/// At a wrap on the cluster with index `gi`, the clusters before it fit
/// the budget — unless an earlier overflow had already been tolerated.
pub open spec fn wrap_width_ok(bm: BreakerModel, gs: Seq<Seq<char>>, gi: int) -> bool {
    ||| wsum(bm.ambiguous_width, gs.take(gi)) <= bm.max_width
    ||| exists|k: int| 0 <= k < gi && tolerated_overflow(bm, gs, k)
}

/// Where no earlier overflow was tolerated, the clusters before a wrap
/// fit the budget.
pub proof fn lemma_wrap_prefix_fits(bm: BreakerModel, gs: Seq<Seq<char>>, gi: int)
    ensures
        (wrap_width_ok(bm, gs, gi) && !(exists|k: int|
            0 <= k < gi && tolerated_overflow(bm, gs, k))) ==> wsum(bm.ambiguous_width, gs.take(gi))
            <= bm.max_width,
{
}

/// Relation between the walk's running column count and the widths of the
/// clusters already passed: the count is exact while the budget holds,
/// and pegged one column above the budget after a tolerated overflow.
spec fn acc_matches(bm: BreakerModel, gs: Seq<Seq<char>>, i: int, acc: int) -> bool {
    ||| (acc == wsum(bm.ambiguous_width, gs.take(i)) && acc <= bm.max_width)
    ||| (acc == bm.max_width + 1 && exists|k: int| 0 <= k < i && tolerated_overflow(bm, gs, k))
}

/// Finds a line break with adherence to the kinsoku rules.
///
/// Use [`LineBreaker::builder`] to create an instance.
#[derive(Debug)]
pub struct LineBreaker {
    max_width: u32,
    ambiguous_width: AmbiguousWidth,
    prohibited_start: Vec<Vec<char>>,
    prohibited_end: Vec<Vec<char>>,
}

/// Builds a [`LineBreaker`].
pub struct LineBreakerBuilder {
    line_breaker: LineBreaker,
}

impl LineBreaker {
    /// The configured maximum line width, in display columns.
    pub closed spec fn spec_max_width(self) -> u32 {
        self.max_width
    }

    /// The configured ambiguous-width policy.
    pub closed spec fn spec_ambiguous_width(self) -> AmbiguousWidth {
        self.ambiguous_width
    }

    /// The grapheme clusters prohibited at the start of a line.
    pub closed spec fn start_set(self) -> Seq<Seq<char>> {
        self.prohibited_start.deep_view()
    }

    /// The grapheme clusters prohibited at the end of a line.
    pub closed spec fn end_set(self) -> Seq<Seq<char>> {
        self.prohibited_end.deep_view()
    }

    /// A built breaker always has a width budget of at least two columns.
    pub open spec fn wf(self) -> bool {
        self.spec_max_width() >= 2
    }

    /// The breaker's configuration as a mathematical value.
    pub closed spec fn model(self) -> BreakerModel {
        BreakerModel {
            max_width: self.max_width as int,
            ambiguous_width: self.ambiguous_width,
            start_set: self.prohibited_start.deep_view(),
            end_set: self.prohibited_end.deep_view(),
        }
    }

    /// The break decision for a whole line.
    pub open spec fn spec_next_line_break(self, s: Seq<char>) -> SpecBreak {
        self.model().spec_next_line_break(s)
    }
}

impl BreakerModel {
    /// The backtrack decision: scanning left from the grapheme cluster
    /// with index `k - 1`, with the cluster at `k` as the overflowing
    /// follower, the index of the first cluster that may start the next
    /// line, or `None` when no acceptable break exists.
    ///
    /// Moving left is forced where UAX #14 forbids the break, where the
    /// preceding cluster must not end a line, or where the following
    /// cluster must not start one.
    pub open spec fn seek_cut(self, gs: Seq<Seq<char>>, k: int) -> Option<int>
        decreases k,
    {
        if k <= 0 {
            Option::None
        } else if !spec_breakable(gs[k - 1], gs[k]) || self.end_set.contains(gs[k - 1])
            || self.start_set.contains(gs[k]) {
            self.seek_cut(gs, k - 1)
        } else {
            Option::Some(k)
        }
    }

    /// The breaker's walk over the grapheme clusters of a line, starting
    /// at index `i` with `acc` columns already consumed.
    ///
    /// `acc` is capped at one column above the budget: once the budget is
    /// exceeded the walk only ever needs to know that fact, never the
    /// exact excess.
    pub open spec fn scan(self, gs: Seq<Seq<char>>, i: int, acc: int) -> SpecBreak
        decreases gs.len() - i,
    {
        if i < 0 || i >= gs.len() {
            SpecBreak::Eot { end: gb_len(gs) }
        } else {
            let g = gs[i];
            if is_eol_grapheme(g) {
                SpecBreak::Eol { end: gb_off(gs, i) + utf8_len(g), gi: i }
            } else {
                let w = grapheme_width(self.ambiguous_width, g);
                let mw = self.max_width;
                if acc + w > mw {
                    match self.seek_cut(gs, i) {
                        Option::Some(j) => SpecBreak::Wrap {
                            pos: gb_off(gs, i),
                            adj: gb_off(gs, i) - gb_off(gs, j),
                            gi: i,
                            cj: j,
                        },
                        Option::None => self.scan(gs, i + 1, mw + 1),
                    }
                } else {
                    self.scan(gs, i + 1, acc + w)
                }
            }
        }
    }

    /// The break decision for a whole line.
    pub open spec fn spec_next_line_break(self, s: Seq<char>) -> SpecBreak {
        self.scan(grapheme_split(s), 0, 0)
    }
}

/// The exec break point described by a model decision.
pub open spec fn as_break_point(b: SpecBreak) -> BreakPoint {
    match b {
        SpecBreak::Eol { end, .. } => BreakPoint::EndOfLine(end as usize),
        SpecBreak::Wrap { pos, adj, .. } => BreakPoint::WrapPoint {
            overflow_pos: pos as usize,
            adjustment: adj as usize,
        },
        SpecBreak::Eot { end } => BreakPoint::EndOfText(end as usize),
    }
}

/// The default grapheme clusters prohibited at the start of a line.
pub open spec fn default_prohibited_start() -> Seq<Seq<char>> {
    grapheme_split(
        ")]｝〕〉》」』】〙〗〟'\"｠»ヽヾーァィゥェォッャュョヮヵヶぁぃぅぇぉっゃゅょゎゕゖㇰㇱㇲㇳㇴㇵㇶㇷㇸㇹㇺㇻㇼㇽㇾㇿ々〻‐゠–〜？!‼⁇⁈⁉・、:;,。."@,
    )
}

/// The default grapheme clusters prohibited at the end of a line.
pub open spec fn default_prohibited_end() -> Seq<Seq<char>> {
    grapheme_split("([｛〔〈《「『【〘〖〝'\"｟«"@)
}

impl LineBreakerBuilder {
    /// The breaker as configured so far.
    pub closed spec fn inner(self) -> LineBreaker {
        self.line_breaker
    }

    /// Sets the maximum width of a line.
    ///
    /// The width is measured in display columns: fullwidth characters
    /// count two columns, halfwidth characters one.
    pub fn max_width(self, max_width: u32) -> (r: Self)
        ensures
            r.inner().spec_max_width() == max_width,
            r.inner().spec_ambiguous_width() == self.inner().spec_ambiguous_width(),
            r.inner().start_set() == self.inner().start_set(),
            r.inner().end_set() == self.inner().end_set(),
    {
        let LineBreaker { max_width: _, ambiguous_width, prohibited_start, prohibited_end } =
            self.line_breaker;
        LineBreakerBuilder {
            line_breaker: LineBreaker { max_width, ambiguous_width, prohibited_start, prohibited_end },
        }
    }

    /// Sets how characters of the East Asian Ambiguous category are
    /// counted.
    pub fn ambiguous_width(self, ambiguous_width: AmbiguousWidth) -> (r: Self)
        ensures
            r.inner().spec_max_width() == self.inner().spec_max_width(),
            r.inner().spec_ambiguous_width() == ambiguous_width,
            r.inner().start_set() == self.inner().start_set(),
            r.inner().end_set() == self.inner().end_set(),
    {
        let LineBreaker { max_width, ambiguous_width: _, prohibited_start, prohibited_end } =
            self.line_breaker;
        LineBreakerBuilder {
            line_breaker: LineBreaker { max_width, ambiguous_width, prohibited_start, prohibited_end },
        }
    }

    /// Replaces the set of grapheme clusters prohibited at the start of a
    /// line.
    fn prohibited_start(self, graphemes: &str) -> (r: Self)
        ensures
            r.inner().spec_max_width() == self.inner().spec_max_width(),
            r.inner().spec_ambiguous_width() == self.inner().spec_ambiguous_width(),
            r.inner().start_set() == grapheme_split(graphemes@),
            r.inner().end_set() == self.inner().end_set(),
    {
        let LineBreaker { max_width, ambiguous_width, prohibited_start: _, prohibited_end } =
            self.line_breaker;
        let prohibited_start = split_graphemes(graphemes);
        LineBreakerBuilder {
            line_breaker: LineBreaker { max_width, ambiguous_width, prohibited_start, prohibited_end },
        }
    }

    /// Replaces the set of grapheme clusters prohibited at the end of a
    /// line.
    fn prohibited_end(self, graphemes: &str) -> (r: Self)
        ensures
            r.inner().spec_max_width() == self.inner().spec_max_width(),
            r.inner().spec_ambiguous_width() == self.inner().spec_ambiguous_width(),
            r.inner().start_set() == self.inner().start_set(),
            r.inner().end_set() == grapheme_split(graphemes@),
    {
        let LineBreaker { max_width, ambiguous_width, prohibited_start, prohibited_end: _ } =
            self.line_breaker;
        let prohibited_end = split_graphemes(graphemes);
        LineBreakerBuilder {
            line_breaker: LineBreaker { max_width, ambiguous_width, prohibited_start, prohibited_end },
        }
    }

    /// Finishes building.  A width budget below two columns is rejected:
    /// no content could ever be placed before a break.
    pub fn build(self) -> (r: Result<LineBreaker, CjkfmtError>)
        ensures
            (match r {
                Result::Ok(b) => self.inner().spec_max_width() >= 2 && b == self.inner()
                    && b.wf(),
                Result::Err(e) => self.inner().spec_max_width() < 2 && e == (
                CjkfmtError::InvalidConfiguration { max_width: self.inner().spec_max_width() }),
            }),
    {
        if self.line_breaker.max_width < 2 {
            Err(CjkfmtError::InvalidConfiguration { max_width: self.line_breaker.max_width })
        } else {
            Ok(self.line_breaker)
        }
    }
}

impl LineBreaker {
    /// Builds a new [`LineBreaker`] with the default settings: a budget
    /// of 80 columns, ambiguous characters wide, and the Japanese kinsoku
    /// sets.
    pub fn builder() -> (r: LineBreakerBuilder)
        ensures
            r.inner().spec_max_width() == 80,
            r.inner().spec_ambiguous_width() == AmbiguousWidth::Wide,
            r.inner().start_set() == default_prohibited_start(),
            r.inner().end_set() == default_prohibited_end(),
    {
        LineBreakerBuilder {
            line_breaker: LineBreaker {
                max_width: 80,
                ambiguous_width: AmbiguousWidth::Wide,
                prohibited_start: Vec::new(),
                prohibited_end: Vec::new(),
            },
        }.prohibited_start(
            ")]｝〕〉》」』】〙〗〟'\"｠»ヽヾーァィゥェォッャュョヮヵヶぁぃぅぇぉっゃゅょゎゕゖㇰㇱㇲㇳㇴㇵㇶㇷㇸㇹㇺㇻㇼㇽㇾㇿ々〻‐゠–〜？!‼⁇⁈⁉・、:;,。.",
        ).prohibited_end("([｛〔〈《「『【〘〖〝'\"｟«")
    }

    /// Returns the maximum width of a line.
    pub fn max_width(&self) -> (r: u32)
        ensures
            r == self.spec_max_width(),
    {
        self.max_width
    }

    /// The display width of one grapheme cluster under the configured
    /// ambiguous-width policy.
    fn grapheme_width_x(&self, g: &Vec<char>) -> (r: usize)
        ensures
            r as int == grapheme_width(self.spec_ambiguous_width(), g@),
    {
        match self.ambiguous_width {
            AmbiguousWidth::Wide => grapheme_width_wide(g),
            AmbiguousWidth::Narrow => grapheme_width_narrow(g),
        }
    }
}

/// A terminator grapheme leaves exactly its own bytes at the end offset.
proof fn lemma_eol_bytes(s: Seq<char>, gs: Seq<Seq<char>>, i: int)
    requires
        gs.flatten() == s,
        0 <= i < gs.len(),
        is_eol_grapheme(gs[i]),
    ensures
        eol_valid(s, gb_off(gs, i) + utf8_len(gs[i])),
{
    let a = gs.take(i).flatten();
    let g = gs[i];
    let c = gs.skip(i + 1).flatten();
    lemma_flatten_split(gs, i);
    assert(gs.skip(i)[0] == gs[i]);
    assert(gs.skip(i).drop_first() =~= gs.skip(i + 1));
    assert(gs.skip(i).flatten() == g + c);
    assert(s == a + (g + c));
    lemma_encode_utf8_concat(a, g + c);
    lemma_encode_utf8_concat(g, c);
    lemma_utf8_len_encode(a);
    lemma_gb_len_flatten(gs.take(i));
    lemma_encode_terminators();
    let bytes = encode_utf8(s);
    assert(bytes =~= encode_utf8(a) + encode_utf8(g) + encode_utf8(c));
    let off = gb_off(gs, i);
    assert(off == encode_utf8(a).len());
    let n = off + utf8_len(g);
    if g == seq!['\r'] {
        assert(bytes.subrange(n - 1, n) =~= seq![13u8]);
    } else if g == seq!['\n'] {
        assert(bytes.subrange(n - 1, n) =~= seq![10u8]);
    } else {
        assert(g == seq!['\r', '\n']);
        assert(bytes.subrange(n - 2, n) =~= seq![13u8, 10u8]);
    }
}

/// The byte offset of any grapheme-cluster boundary is a character
/// boundary, and a boundary with at least one cluster before it is
/// strictly positive.
proof fn lemma_cut_boundary(s: Seq<char>, gs: Seq<Seq<char>>, cj: int)
    requires
        gs.flatten() == s,
        forall|t: int| 0 <= t < gs.len() ==> (#[trigger] gs[t]).len() > 0,
        1 <= cj <= gs.len(),
    ensures
        0 < gb_off(gs, cj),
        is_char_boundary(encode_utf8(s), gb_off(gs, cj)),
{
    let a = gs.take(cj).flatten();
    let m = a.len() as int;
    lemma_flatten_split(gs, cj);
    assert(s.take(m) =~= a);
    lemma_gb_len_flatten(gs.take(cj));
    assert(utf8_len(s.take(m)) == gb_off(gs, cj));
    lemma_char_boundary_at_prefix(s, m);
    assert(gs.take(0) =~= Seq::<Seq<char>>::empty());
    lemma_gb_off_step(gs, 0);
    lemma_gb_off_mono(gs, 1, cj);
    lemma_utf8_len_ge_len(gs[0]);
}

/// A line that is exactly one terminator splits into that single
/// cluster: the segmentation facts rule every other split out.
proof fn lemma_terminator_line_split(gsv: Seq<Seq<char>>, line: Seq<char>)
    requires
        gsv.flatten() == line,
        forall|t: int| 0 <= t < gsv.len() ==> (#[trigger] gsv[t]).len() > 0,
        forall|t: int| 1 <= t < gsv.len() ==> !(gsv[t - 1] == seq!['\r'] && (#[trigger] gsv[t]).first()
            == '\n'),
        is_eol_grapheme(line),
    ensures
        gsv == seq![line],
{
    assert(gsv.take(gsv.len() as int) =~= gsv);
    lemma_gc_off_mono_all(gsv);
    assert(gc_off(gsv, gsv.len() as int) == line.len());
    if gsv.len() == 0 {
        assert(gsv.flatten() =~= Seq::<char>::empty());
        assert(false);
    } else if gsv.len() == 1 {
        assert(gsv.flatten() == gsv[0] + gsv.drop_first().flatten());
        assert(gsv.drop_first() =~= Seq::<Seq<char>>::empty());
        assert(gsv.drop_first().flatten() =~= Seq::<char>::empty());
        assert(gsv[0] =~= line);
        assert(gsv =~= seq![line]);
    } else {
        assert(gc_off(gsv, 2) <= gc_off(gsv, gsv.len() as int)) by {
            lemma_gc_off_mono(gsv, 2, gsv.len() as int);
        }
        lemma_gc_off_step(gsv, 0);
        lemma_gc_off_step(gsv, 1);
        assert(gsv.take(0) =~= Seq::<Seq<char>>::empty());
        assert(gsv.take(0).flatten() =~= Seq::<char>::empty());
        assert(gsv[0].len() + gsv[1].len() <= line.len());
        assert(line.len() == 2);
        assert(gsv.len() == 2) by {
            if gsv.len() > 2 {
                lemma_gc_off_step(gsv, 2);
                lemma_gc_off_mono(gsv, 3, gsv.len() as int);
            }
        }
        assert(line == seq!['\r', '\n']);
        assert(gsv.flatten() == gsv[0] + gsv.drop_first().flatten());
        assert(gsv.drop_first() =~= seq![gsv[1]]);
        assert(gsv.drop_first().flatten() =~= gsv[1]);
        assert(gsv[0].len() == 1 && gsv[1].len() == 1);
        assert(gsv[0][0] == line[0] && gsv[1][0] == line[1]);
        assert(gsv[0] =~= seq!['\r']);
        assert(gsv[1].first() == '\n');
        assert(false);
    }
}

/// Character offsets never shrink, whole-sequence form.
proof fn lemma_gc_off_mono_all(gsv: Seq<Seq<char>>)
    requires
        forall|t: int| 0 <= t < gsv.len() ==> (#[trigger] gsv[t]).len() > 0,
    ensures
        forall|a: int, b: int| 0 <= a <= b <= gsv.len() ==> gc_off(gsv, a) <= gc_off(gsv, b),
{
    assert forall|a: int, b: int| 0 <= a <= b <= gsv.len() implies gc_off(gsv, a) <= gc_off(
        gsv,
        b,
    ) by {
        lemma_gc_off_mono(gsv, a, b);
    }
}

/// A successful backtrack names a cut strictly inside the prefix.
pub proof fn lemma_seek_cut_bounds(bm: BreakerModel, gs: Seq<Seq<char>>, k: int)
    ensures
        (match bm.seek_cut(gs, k) {
            Option::Some(j) => 1 <= j <= k,
            Option::None => true,
        }),
    decreases k,
{
    if k <= 0 {
    } else if !spec_breakable(gs[k - 1], gs[k]) || bm.end_set.contains(gs[k - 1])
        || bm.start_set.contains(gs[k]) {
        lemma_seek_cut_bounds(bm, gs, k - 1);
    }
}

impl LineBreaker {
    /// The number of bytes to seek back from the grapheme cluster with
    /// index `i` to reach an acceptable break, or `None` when the whole
    /// prefix forbids one.
    fn num_bytes_to_seek_back(&self, gs: &Vec<Vec<char>>, i: usize) -> (r: Option<usize>)
        requires
            (i as int) < gs.deep_view().len(),
            forall|t: int| 0 <= t < gs.deep_view().len() ==> (#[trigger] gs.deep_view()[t]).len()
                > 0,
            gb_len(gs.deep_view()) <= usize::MAX,
        ensures
            (match (r, self.model().seek_cut(gs.deep_view(), i as int)) {
                (Option::Some(rew), Option::Some(j)) => 1 <= j <= i && rew as int == gb_off(
                    gs.deep_view(),
                    i as int,
                ) - gb_off(gs.deep_view(), j),
                (Option::None, Option::None) => true,
                _ => false,
            }),
    {
        let ghost gsv = gs.deep_view();
        let mut k: usize = i;
        let mut rew: usize = 0;
        while k > 0
            invariant
                0 <= k <= i,
                (i as int) < gsv.len(),
                gsv == gs.deep_view(),
                forall|t: int| 0 <= t < gsv.len() ==> (#[trigger] gsv[t]).len() > 0,
                gb_len(gsv) <= usize::MAX,
                rew as int == gb_off(gsv, i as int) - gb_off(gsv, k as int),
                self.model().seek_cut(gsv, i as int) == self.model().seek_cut(gsv, k as int),
            decreases k,
        {
            proof {
                lemma_deep_view_index(gs, k as int - 1);
                lemma_deep_view_index(gs, k as int);
            }
            let p = &gs[k - 1];
            let f = &gs[k];
            let step = !is_breakable(p, f) || contains_grapheme(&self.prohibited_end, p)
                || contains_grapheme(&self.prohibited_start, f);
            if step {
                proof {
                    lemma_gb_off_step(gsv, k as int - 1);
                    lemma_gb_off_mono(gsv, k as int, i as int);
                    lemma_gb_off_in_range(gsv, k as int - 1);
                    lemma_gb_off_in_range(gsv, i as int);
                }
                let pl = vec_utf8_len(p);
                rew = rew + pl;
                k = k - 1;
            } else {
                proof {
                    assert(self.model().seek_cut(gsv, k as int) == Option::Some(k as int));
                    lemma_seek_cut_bounds(self.model(), gsv, i as int);
                }
                return Some(rew);
            }
        }
        None
    }
}

impl LineBreaker {
    /// Finds the next line break in the given line and returns it.
    ///
    /// `line` is one physical line; it may carry a trailing terminator.
    /// The returned offsets are byte offsets into its UTF-8 encoding.
    #[verifier::rlimit(60)]
    pub fn next_line_break(&self, line: &str) -> (r: BreakPoint)
        ensures
            r == as_break_point(self.spec_next_line_break(line@)),
            utf8_len(line@) <= usize::MAX,
            is_eol_grapheme(line@) ==> self.spec_next_line_break(line@) == (SpecBreak::Eol {
                end: utf8_len(line@),
                gi: 0,
            }),
            (match self.spec_next_line_break(line@) {
                SpecBreak::Eol { end, gi } => eol_valid(line@, end),
                SpecBreak::Wrap { pos, adj, gi, cj } => {
                    let gs = grapheme_split(line@);
                    &&& 0 <= adj && adj <= pos && pos < utf8_len(line@)
                    &&& 1 <= cj <= gi < gs.len()
                    &&& pos == gb_off(gs, gi)
                    &&& pos - adj == gb_off(gs, cj)
                    &&& 0 < pos - adj
                    &&& is_grapheme_boundary(line@, pos - adj)
                    &&& is_char_boundary(encode_utf8(line@), pos - adj)
                    &&& wrap_width_ok(self.model(), gs, gi)
                },
                SpecBreak::Eot { end } => end == utf8_len(line@),
            }),
    {
        let gs = split_graphemes(line);
        let ghost gsv = gs.deep_view();
        let total: usize = line.as_bytes().len();
        proof {
            broadcast use vstd::slice::axiom_spec_len;

            lemma_str_byte_len(line);
            lemma_gb_len_flatten(gsv);
            assert(gs.deep_view().flatten() == line@);
            assert(total as int == gb_len(gsv));
            assert(gsv.take(0) =~= Seq::<Seq<char>>::empty());
            assert(wsum(self.model().ambiguous_width, gsv.take(0)) == 0);
            if is_eol_grapheme(line@) {
                lemma_terminator_line_split(gsv, line@);
                assert(gb_off(gsv, 0) == 0);
                assert(self.model().scan(gsv, 0, 0) == (SpecBreak::Eol {
                    end: utf8_len(line@),
                    gi: 0,
                }));
            }
        }
        let mut i: usize = 0;
        let mut off: usize = 0;
        let mut acc: u64 = 0;
        let mw64: u64 = self.max_width as u64;
        while i < gs.len()
            invariant
                0 <= i <= gsv.len(),
                gsv == gs.deep_view(),
                gsv == grapheme_split(line@),
                gsv.flatten() == line@,
                forall|t: int| 0 <= t < gsv.len() ==> (#[trigger] gsv[t]).len() > 0,
                total as int == gb_len(gsv),
                gb_len(gsv) <= usize::MAX,
                utf8_len(line@) == gb_len(gsv),
                off as int == gb_off(gsv, i as int),
                mw64 == self.spec_max_width() as u64,
                acc <= mw64 + 1,
                acc_matches(self.model(), gsv, i as int, acc as int),
                self.model().scan(gsv, i as int, acc as int) == self.spec_next_line_break(line@),
                is_eol_grapheme(line@) ==> self.spec_next_line_break(line@) == (SpecBreak::Eol {
                    end: utf8_len(line@),
                    gi: 0,
                }),
            decreases gsv.len() - i,
        {
            proof {
                lemma_deep_view_index(&gs, i as int);
                lemma_gb_off_step(gsv, i as int);
                lemma_gb_off_in_range(gsv, i as int + 1);
                lemma_gb_off_in_range(gsv, i as int);
            }
            let g = &gs[i];
            if is_eol_grapheme_x(g) {
                let gl = vec_utf8_len(g);
                proof {
                    assert(self.model().scan(gsv, i as int, acc as int) == (SpecBreak::Eol {
                        end: gb_off(gsv, i as int) + utf8_len(gsv[i as int]),
                        gi: i as int,
                    }));
                    lemma_eol_bytes(line@, gsv, i as int);
                }
                return BreakPoint::EndOfLine(off + gl);
            }
            let w = self.grapheme_width_x(g);
            let over = if acc > mw64 {
                true
            } else {
                (w as u64) > mw64 - acc
            };
            proof {
                assert(over == (acc as int + w as int > self.spec_max_width() as int));
            }
            if over {
                match self.num_bytes_to_seek_back(&gs, i) {
                    Some(rew) => {
                        proof {
                            let j = self.model().seek_cut(gsv, i as int)->Some_0;
                            lemma_gb_off_mono(gsv, j, i as int);
                            lemma_gb_off_in_range(gsv, j);
                            assert(self.model().scan(gsv, i as int, acc as int) == (SpecBreak::Wrap {
                                pos: gb_off(gsv, i as int),
                                adj: gb_off(gsv, i as int) - gb_off(gsv, j),
                                gi: i as int,
                                cj: j,
                            }));
                            lemma_utf8_len_ge_len(gsv[i as int]);
                            lemma_cut_boundary(line@, gsv, j);
                            assert(gb_off(grapheme_split(line@), j) == gb_off(gsv, j));
                            assert(is_grapheme_boundary(line@, gb_off(gsv, j)));
                            assert(wrap_width_ok(self.model(), gsv, i as int));
                        }
                        return BreakPoint::WrapPoint { overflow_pos: off, adjustment: rew };
                    },
                    None => {
                        proof {
                            assert(self.model().scan(gsv, i as int, acc as int) == self.model()
                                .scan(gsv, i as int + 1, self.model().max_width + 1));
                            lemma_wsum_step(self.model().ambiguous_width, gsv, i as int);
                            if acc as int == wsum(self.model().ambiguous_width, gsv.take(i as int))
                                && acc <= mw64 {
                                assert(tolerated_overflow(self.model(), gsv, i as int));
                            } else {
                                let k0 = choose|k: int|
                                    0 <= k < i && tolerated_overflow(self.model(), gsv, k);
                                assert(0 <= k0 < i as int + 1 && tolerated_overflow(
                                    self.model(),
                                    gsv,
                                    k0,
                                ));
                            }
                            assert(acc_matches(self.model(), gsv, i as int + 1, mw64 as int + 1));
                        }
                        acc = mw64 + 1;
                    },
                }
            } else {
                proof {
                    assert(self.model().scan(gsv, i as int, acc as int) == self.model().scan(
                        gsv,
                        i as int + 1,
                        acc as int + w as int,
                    ));
                    lemma_wsum_step(self.model().ambiguous_width, gsv, i as int);
                    assert(acc_matches(self.model(), gsv, i as int + 1, acc as int + w as int));
                }
                acc = acc + (w as u64);
            }
            let gl = vec_utf8_len(g);
            off = off + gl;
            i = i + 1;
        }
        BreakPoint::EndOfText(total)
    }
}

/// The model's fields are the breaker's configuration projections.
pub proof fn lemma_model_fields(bk: LineBreaker)
    ensures
        bk.model().max_width == bk.spec_max_width() as int,
        bk.model().ambiguous_width == bk.spec_ambiguous_width(),
        bk.model().start_set == bk.start_set(),
        bk.model().end_set == bk.end_set(),
{
}

/// Width of grapheme sequences is never negative.
pub proof fn lemma_wsum_nonneg(amb: AmbiguousWidth, gs: Seq<Seq<char>>)
    ensures
        wsum(amb, gs) >= 0,
    decreases gs.len(),
{
    if gs.len() > 0 {
        lemma_wsum_nonneg(amb, gs.drop_first());
    }
}

/// The walk never wraps while the width of the remaining clusters still
/// fits into what is left of the budget.
proof fn lemma_scan_no_wrap(bm: BreakerModel, gs: Seq<Seq<char>>, i: int, acc: int)
    requires
        0 <= i <= gs.len(),
        acc + wsum(bm.ambiguous_width, gs.skip(i)) <= bm.max_width,
        wsum(bm.ambiguous_width, gs.skip(i)) >= 0,
    ensures
        !(bm.scan(gs, i, acc) is Wrap),
    decreases gs.len() - i,
{
    let amb = bm.ambiguous_width;
    if i < gs.len() && !is_eol_grapheme(gs[i]) {
        assert(gs.skip(i)[0] == gs[i]);
        assert(gs.skip(i).drop_first() =~= gs.skip(i + 1));
        lemma_wsum_nonneg(amb, gs.skip(i + 1));
        assert(wsum(amb, gs.skip(i)) == grapheme_width(amb, gs[i]) + wsum(amb, gs.skip(i + 1)));
        lemma_scan_no_wrap(bm, gs, i + 1, acc + grapheme_width(amb, gs[i]));
    }
}

/// A line whose total display width fits the budget is never wrapped.
pub proof fn lemma_fits_no_wrap(bm: BreakerModel, s: Seq<char>)
    requires
        wsum(bm.ambiguous_width, grapheme_split(s)) <= bm.max_width,
    ensures
        !(bm.spec_next_line_break(s) is Wrap),
{
    let gs = grapheme_split(s);
    assert(gs.skip(0) =~= gs);
    lemma_wsum_nonneg(bm.ambiguous_width, gs);
    lemma_scan_no_wrap(bm, gs, 0, 0);
}

/// Whether a grapheme cluster is a line terminator.
fn is_eol_grapheme_x(g: &Vec<char>) -> (r: bool)
    ensures
        r == is_eol_grapheme(g@),
{
    if g.len() == 1 {
        let r = g[0] == '\r' || g[0] == '\n';
        proof {
            if g@[0] == '\r' {
                assert(g@ =~= seq!['\r']);
            } else if g@[0] == '\n' {
                assert(g@ =~= seq!['\n']);
            }
        }
        r
    } else if g.len() == 2 {
        let r = g[0] == '\r' && g[1] == '\n';
        proof {
            if g@[0] == '\r' && g@[1] == '\n' {
                assert(g@ =~= seq!['\r', '\n']);
            }
        }
        r
    } else {
        false
    }
}

} // verus!
