//! The check driver: runs the line-length check and the spacing analyzer
//! over every physical line of a document and collects the diagnostics.
use vstd::prelude::*;

verus! {

use crate::chars::utf16_len;
use crate::chars::lemma_utf16_len_concat;
use crate::chars::lemma_utf16_len_bounds;
use crate::config::Config;
use crate::config::SpacingConfig;
use crate::config::SpacingRule;
use crate::diagnostic::Diagnostic;
use crate::diagnostic::DiagView;
use crate::diagnostic::views_of;
use crate::diagnostic::dec_digits;
use crate::diagnostic::push_dec;
use crate::diagnostic::push_all;
use crate::errors::CjkfmtError;
use crate::graphemes::grapheme_split;
use crate::graphemes::split_graphemes;
use crate::graphemes::chars_vec;
use crate::graphemes::chars_to_string;
use crate::graphemes::vec_utf8_len;
use crate::graphemes::vec_utf16_len;
use crate::graphemes::lemma_deep_view_index;
use crate::line_break::BreakPoint;
use crate::line_break::BreakerModel;
use crate::line_break::LineBreaker;
use crate::line_break::SpecBreak;
use crate::line_break::gb_off;
use crate::line_break::gc_off;
use crate::line_break::lemma_gb_off_step;
use crate::line_break::lemma_gb_off_mono;
use crate::line_break::lemma_gc_off_step;
use crate::line_break::lemma_gc_off_mono;
use crate::line_break::lemma_gc_off_unique;
use crate::line_break::lemma_flatten_split;
use crate::line_break::lemma_model_fields;
use crate::line_break::default_prohibited_start;
use crate::line_break::default_prohibited_end;
use crate::lines::line_split;
use crate::lines::lemma_line_split_counts;
use crate::lines::split_all_lines;
use crate::position::Position;
use crate::spacing::spacing_emits;
use crate::spacing::spec_char_type;
use crate::spacing::char_type;

/// The breaker that a configuration induces: its width budget and
/// ambiguous-width policy with the default kinsoku sets.
pub open spec fn config_model(c: Config) -> BreakerModel {
    BreakerModel {
        max_width: c.max_width as int,
        ambiguous_width: c.ambiguous_width,
        start_set: default_prohibited_start(),
        end_set: default_prohibited_end(),
    }
}

/// The view of an optional filename.
pub open spec fn file_view(f: Option<String>) -> Option<Seq<char>> {
    match f {
        Option::Some(s) => Option::Some(s@),
        Option::None => Option::None,
    }
}

/// The message of a line-length diagnostic for the given budget.
pub open spec fn w001_message(mw: int) -> Seq<char> {
    "Line length exceeds "@ + dec_digits(mw) + " characters"@
}

/// The line-length diagnostics of one line: one `W001` if the breaker
/// finds a wrap point, whose range starts at the UTF-16 column of the
/// overflowing grapheme cluster and spans that cluster.
pub open spec fn w001_views(bm: BreakerModel, fv: Option<Seq<char>>, li: int, line: Seq<char>) -> Seq<
    DiagView,
> {
    match bm.spec_next_line_break(line) {
        SpecBreak::Wrap { pos, adj, gi, cj } => {
            let gs = grapheme_split(line);
            let sc = utf16_len(gs.take(gi).flatten());
            seq![
                DiagView {
                    filename: fv,
                    start_line: li,
                    start_col: sc,
                    end_line: li,
                    end_col: sc + utf16_len(gs[gi]),
                    code: "W001"@,
                    message: w001_message(bm.max_width),
                },
            ]
        },
        _ => seq![],
    }
}

/// The character indices, from position `i` on, whose transition demands
/// a spacing edit.
pub open spec fn spacing_indices_from(cfg: SpacingConfig, s: Seq<char>, i: int) -> Seq<int>
    decreases s.len() - i,
{
    if i < 1 || i >= s.len() {
        seq![]
    } else {
        let rest = spacing_indices_from(cfg, s, i + 1);
        if spacing_emits(cfg, spec_char_type(s[i - 1]), spec_char_type(s[i])) {
            seq![i] + rest
        } else {
            rest
        }
    }
}

/// The UTF-16 length of the grapheme cluster that starts at character
/// offset `ci` of the line, or zero when none starts there.
pub open spec fn w002_grapheme_len(line: Seq<char>, ci: int) -> int {
    let gs = grapheme_split(line);
    if exists|t: int| 0 <= t < gs.len() && gc_off(gs, t) == ci {
        utf16_len(gs[choose|t: int| 0 <= t < gs.len() && gc_off(gs, t) == ci])
    } else {
        0
    }
}

/// The spacing diagnostic at character index `ci` of one line.
pub open spec fn w002_view(fv: Option<Seq<char>>, li: int, line: Seq<char>, ci: int) -> DiagView {
    let sc = utf16_len(line.take(ci));
    DiagView {
        filename: fv,
        start_line: li,
        start_col: sc,
        end_line: li,
        end_col: sc + w002_grapheme_len(line, ci),
        code: "W002"@,
        message: "Possible spacing position found"@,
    }
}

/// The spacing diagnostics of one line, in increasing column order.
pub open spec fn w002_views(cfg: SpacingConfig, fv: Option<Seq<char>>, li: int, line: Seq<
    char,
>) -> Seq<DiagView> {
    spacing_indices_from(cfg, line, 1).map_values(|ci: int| w002_view(fv, li, line, ci))
}

/// All diagnostics of one line: the line-length check first, then the
/// spacing analysis.
pub open spec fn spec_check_line(
    bm: BreakerModel,
    cfg: SpacingConfig,
    fv: Option<Seq<char>>,
    li: int,
    line: Seq<char>,
) -> Seq<DiagView> {
    w001_views(bm, fv, li, line) + w002_views(cfg, fv, li, line)
}

/// The diagnostics of the lines from index `i` on.
pub open spec fn check_lines_from(
    bm: BreakerModel,
    cfg: SpacingConfig,
    fv: Option<Seq<char>>,
    lines: Seq<Seq<char>>,
    i: int,
) -> Seq<DiagView>
    decreases lines.len() - i,
{
    if i < 0 || i >= lines.len() {
        seq![]
    } else {
        spec_check_line(bm, cfg, fv, i, lines[i]) + check_lines_from(bm, cfg, fv, lines, i + 1)
    }
}

/// All diagnostics of a document, line by line, in order.
pub open spec fn spec_check_file(
    bm: BreakerModel,
    cfg: SpacingConfig,
    fv: Option<Seq<char>>,
    content: Seq<char>,
) -> Seq<DiagView> {
    check_lines_from(bm, cfg, fv, line_split(content), 0)
}

/// Every diagnostic of one line carries that line's index.
proof fn lemma_check_line_start_lines(
    bm: BreakerModel,
    cfg: SpacingConfig,
    fv: Option<Seq<char>>,
    li: int,
    line: Seq<char>,
)
    ensures
        forall|k: int| 0 <= k < spec_check_line(bm, cfg, fv, li, line).len()
            ==> (#[trigger] spec_check_line(bm, cfg, fv, li, line)[k]).start_line == li,
{
    let w1 = w001_views(bm, fv, li, line);
    let w2 = w002_views(cfg, fv, li, line);
    assert(forall|k: int| 0 <= k < w1.len() ==> (#[trigger] w1[k]).start_line == li);
    assert forall|k: int| 0 <= k < w2.len() implies (#[trigger] w2[k]).start_line == li by {
        assert(w2[k] == w002_view(fv, li, line, spacing_indices_from(cfg, line, 1)[k]));
    }
    assert forall|k: int| 0 <= k < spec_check_line(bm, cfg, fv, li, line).len() implies (
    #[trigger] spec_check_line(bm, cfg, fv, li, line)[k]).start_line == li by {
        if k < w1.len() {
            assert(spec_check_line(bm, cfg, fv, li, line)[k] == w1[k]);
        } else {
            assert(spec_check_line(bm, cfg, fv, li, line)[k] == w2[k - w1.len()]);
        }
    }
}

/// Emitted character indices of one line grow strictly from left to
/// right and lie strictly inside the line.
proof fn lemma_spacing_indices_increase(cfg: SpacingConfig, s: Seq<char>, i: int)
    requires
        1 <= i,
    ensures
        forall|k: int| 0 <= k < spacing_indices_from(cfg, s, i).len() ==> i
            <= #[trigger] spacing_indices_from(cfg, s, i)[k] < s.len(),
        forall|k1: int, k2: int|
            0 <= k1 < k2 < spacing_indices_from(cfg, s, i).len()
                ==> #[trigger] spacing_indices_from(cfg, s, i)[k1]
                < #[trigger] spacing_indices_from(cfg, s, i)[k2],
    decreases s.len() - i,
{
    if 1 <= i < s.len() {
        lemma_spacing_indices_increase(cfg, s, i + 1);
        let rest = spacing_indices_from(cfg, s, i + 1);
        if spacing_emits(cfg, spec_char_type(s[i - 1]), spec_char_type(s[i])) {
            let here = spacing_indices_from(cfg, s, i);
            assert(here[0] == i);
            assert(forall|k: int| 1 <= k < here.len() ==> here[k] == rest[k - 1]);
        }
    }
}

/// Longer character prefixes take strictly more UTF-16 units.
proof fn lemma_utf16_take_strict(s: Seq<char>, a: int, b: int)
    requires
        0 <= a < b <= s.len(),
    ensures
        utf16_len(s.take(a)) < utf16_len(s.take(b)),
{
    assert(s.take(b) =~= s.take(a) + s.take(b).skip(a));
    lemma_utf16_len_concat(s.take(a), s.take(b).skip(a));
    lemma_utf16_len_bounds(s.take(b).skip(a));
}

/// The spacing diagnostics of one line carry strictly increasing start
/// columns: the analyzer walks the line left to right.
pub proof fn lemma_w002_columns_increase(
    cfg: SpacingConfig,
    fv: Option<Seq<char>>,
    li: int,
    line: Seq<char>,
)
    ensures
        forall|k1: int, k2: int|
            0 <= k1 < k2 < w002_views(cfg, fv, li, line).len() ==> (#[trigger] w002_views(
                cfg,
                fv,
                li,
                line,
            )[k1]).start_col < (#[trigger] w002_views(cfg, fv, li, line)[k2]).start_col,
{
    lemma_spacing_indices_increase(cfg, line, 1);
    let indices = spacing_indices_from(cfg, line, 1);
    let views = w002_views(cfg, fv, li, line);
    assert forall|k1: int, k2: int| 0 <= k1 < k2 < views.len() implies (
    #[trigger] views[k1]).start_col < (#[trigger] views[k2]).start_col by {
        assert(views[k1] == w002_view(fv, li, line, indices[k1]));
        assert(views[k2] == w002_view(fv, li, line, indices[k2]));
        lemma_utf16_take_strict(line, indices[k1], indices[k2]);
    }
}

/// Empty input yields no diagnostics.
pub proof fn lemma_empty_input_no_diagnostics(
    bm: BreakerModel,
    cfg: SpacingConfig,
    fv: Option<Seq<char>>,
)
    ensures
        spec_check_file(bm, cfg, fv, Seq::<char>::empty()) == Seq::<DiagView>::empty(),
{
    assert(line_split(Seq::<char>::empty()) =~= Seq::<Seq<char>>::empty());
    assert(check_lines_from(bm, cfg, fv, line_split(Seq::<char>::empty()), 0) =~= Seq::<
        DiagView,
    >::empty());
}

/// A line holding only a terminator draws no diagnostic: the breaker
/// reports the end of the line, and a terminator has no spacing
/// transition.
pub proof fn lemma_terminator_line_no_diagnostics(
    bm: BreakerModel,
    cfg: SpacingConfig,
    fv: Option<Seq<char>>,
    li: int,
    line: Seq<char>,
)
    ensures
        (crate::line_break::is_eol_grapheme(line) && bm.spec_next_line_break(line) is Eol)
            ==> spec_check_line(bm, cfg, fv, li, line) == Seq::<DiagView>::empty(),
{
    if crate::line_break::is_eol_grapheme(line) && bm.spec_next_line_break(line) is Eol {
        assert(w001_views(bm, fv, li, line) =~= Seq::<DiagView>::empty());
        if line == seq!['\r', '\n'] {
            assert(spec_char_type(line[0]) is Space);
            assert(spec_char_type(line[1]) is Space);
            assert(spacing_indices_from(cfg, line, 2) =~= Seq::<int>::empty());
            assert(spacing_indices_from(cfg, line, 1) =~= Seq::<int>::empty());
        } else {
            assert(line.len() == 1);
            assert(spacing_indices_from(cfg, line, 1) =~= Seq::<int>::empty());
        }
        assert(w002_views(cfg, fv, li, line) =~= Seq::<DiagView>::empty());
        assert(spec_check_line(bm, cfg, fv, li, line) =~= Seq::<DiagView>::empty());
    }
}

/// Clones an optional filename.
fn clone_filename(f: &Option<String>) -> (r: Option<String>)
    ensures
        file_view(r) == file_view(*f),
{
    match f {
        Some(s) => Some(s.clone()),
        None => None,
    }
}

/// Checks one line against the width budget, reporting a `W001` at the
/// overflowing grapheme cluster.
fn check_line_length(
    breaker: &LineBreaker,
    filename: &Option<String>,
    line_index: u32,
    line: &Vec<char>,
) -> (r: Option<Diagnostic>)
    requires
        utf16_len(line@) < u32::MAX,
    ensures
        (match r {
            Option::Some(d) => seq![d@] == w001_views(
                breaker.model(),
                file_view(*filename),
                line_index as int,
                line@,
            ),
            Option::None => w001_views(
                breaker.model(),
                file_view(*filename),
                line_index as int,
                line@,
            ) == Seq::<DiagView>::empty(),
        }),
{
    let line_str = chars_to_string(line);
    let ghost bm = breaker.model();
    match breaker.next_line_break(line_str.as_str()) {
        BreakPoint::WrapPoint { overflow_pos, adjustment: _ } => {
            let gs = split_graphemes(line_str.as_str());
            let ghost gsv = gs.deep_view();
            let ghost gi = bm.spec_next_line_break(line@)->Wrap_gi;
            proof {
                let sb = bm.spec_next_line_break(line@);
                assert(sb is Wrap);
                assert(overflow_pos as int == sb->Wrap_pos);
                assert(overflow_pos as int == gb_off(gsv, gi));
                assert(1 <= sb->Wrap_cj <= gi < gsv.len());
                assert(gsv.take(0) =~= Seq::<Seq<char>>::empty());
                assert(gsv.take(0).flatten() =~= Seq::<char>::empty());
                assert(utf16_len(Seq::<char>::empty()) == 0);
                lemma_utf16_len_bounds(line@);
            }
            let mut t: usize = 0;
            let mut boff: usize = 0;
            let mut cols: usize = 0;
            while boff < overflow_pos
                invariant
                    0 <= t <= gi < gsv.len(),
                    gsv == gs.deep_view(),
                    gsv == grapheme_split(line@),
                    gsv.flatten() == line@,
                    forall|q: int| 0 <= q < gsv.len() ==> (#[trigger] gsv[q]).len() > 0,
                    utf16_len(line@) < u32::MAX,
                    overflow_pos as int == gb_off(gsv, gi),
                    boff as int == gb_off(gsv, t as int),
                    cols as int == utf16_len(gsv.take(t as int).flatten()),
                    cols as int <= utf16_len(line@),
                decreases gi - t,
            {
                proof {
                    lemma_deep_view_index(&gs, t as int);
                    lemma_gb_off_step(gsv, t as int);
                    lemma_gb_off_mono(gsv, t as int + 1, gi);
                    crate::chars::lemma_utf8_len_ge_len(gsv[t as int]);
                    if t as int == gi {
                        assert(boff as int == gb_off(gsv, gi));
                        assert(false);
                    }
                    lemma_flatten_split(gsv, t as int + 1);
                    broadcast use Seq::lemma_flatten_push;

                    assert(gsv.take(t as int + 1) =~= gsv.take(t as int).push(gsv[t as int]));
                    lemma_utf16_len_concat(gsv.take(t as int).flatten(), gsv[t as int]);
                    lemma_utf16_len_concat(gsv.take(t as int + 1).flatten(), gsv.skip(
                        t as int + 1,
                    ).flatten());
                    lemma_utf16_len_bounds(gsv.skip(t as int + 1).flatten());
                    lemma_utf16_len_bounds(gsv[t as int]);
                }
                cols = cols + vec_utf16_len(&gs[t]);
                boff = boff + vec_utf8_len(&gs[t]);
                t = t + 1;
            }
            proof {
                lemma_gb_off_mono(gsv, t as int, gi);
                if (t as int) < gi {
                    lemma_gb_off_step(gsv, t as int);
                    crate::chars::lemma_utf8_len_ge_len(gsv[t as int]);
                    lemma_gb_off_mono(gsv, t as int + 1, gi);
                }
                assert(t as int == gi);
                lemma_deep_view_index(&gs, gi);
                lemma_flatten_split(gsv, gi);
                lemma_utf16_len_concat(gsv.take(gi).flatten(), gsv.skip(gi).flatten());
                assert(gsv.skip(gi)[0] == gsv[gi]);
                assert(gsv.skip(gi).drop_first() =~= gsv.skip(gi + 1));
                assert(gsv.skip(gi).flatten() == gsv[gi] + gsv.skip(gi + 1).flatten());
                lemma_utf16_len_concat(gsv[gi], gsv.skip(gi + 1).flatten());
                lemma_utf16_len_bounds(gsv.skip(gi + 1).flatten());
                lemma_utf16_len_bounds(gsv[gi]);
            }
            let el = vec_utf16_len(&gs[t]);
            let sc = cols as u32;
            let ec = sc + (el as u32);
            let mut msg: Vec<char> = Vec::new();
            let lead = chars_vec("Line length exceeds ");
            push_all(&mut msg, &lead);
            push_dec(breaker.max_width(), &mut msg);
            let tail = chars_vec(" characters");
            push_all(&mut msg, &tail);
            proof {
                crate::line_break::lemma_model_fields(*breaker);
                assert(msg@ =~= w001_message(bm.max_width));
            }
            let d = Diagnostic::new(
                clone_filename(filename),
                Position::new(line_index, sc),
                Position::new(line_index, ec),
                "W001".to_owned(),
                chars_to_string(&msg),
            );
            proof {
                assert(seq![d@] =~= w001_views(bm, file_view(*filename), line_index as int, line@));
            }
            Some(d)
        },
        BreakPoint::EndOfLine(_) => None,
        BreakPoint::EndOfText(_) => None,
    }
}

/// Runs the spacing analyzer over one line, reporting a `W002` at each
/// position where the configured rules demand an edit.
fn check_spacing(
    config: &Config,
    filename: &Option<String>,
    line_index: u32,
    line: &Vec<char>,
) -> (r: Vec<Diagnostic>)
    requires
        config.spacing.alphabets != SpacingRule::Prohibit,
        config.spacing.digits != SpacingRule::Prohibit,
        utf16_len(line@) < u32::MAX,
    ensures
        views_of(r@) == w002_views(
            config.spacing,
            file_view(*filename),
            line_index as int,
            line@,
        ),
{
    let ghost cfg = config.spacing;
    let ghost s = line@;
    let ghost fv = file_view(*filename);
    let ghost li = line_index as int;
    let mut out: Vec<Diagnostic> = Vec::new();
    if line.len() == 0 {
        proof {
            assert(views_of(out@) =~= w002_views(cfg, fv, li, s));
        }
        return out;
    }
    let line_str = chars_to_string(line);
    let gs = split_graphemes(line_str.as_str());
    let ghost gsv = gs.deep_view();
    let mut prev = char_type(line[0]);
    let mut cols: usize = vec_utf16_len_one(line[0]);
    let mut i: usize = 1;
    proof {
        assert(s.take(0) =~= Seq::<char>::empty());
        crate::chars::lemma_utf16_len_take_step(s, 0);
        assert(s =~= s.take(1) + s.skip(1));
        lemma_utf16_len_concat(s.take(1), s.skip(1));
        lemma_utf16_len_bounds(s.skip(1));
        assert(views_of(out@) =~= Seq::<DiagView>::empty());
        assert(w002_views(cfg, fv, li, s) =~= views_of(out@) + spacing_indices_from(
            cfg,
            s,
            1,
        ).map_values(|ci: int| w002_view(fv, li, s, ci)));
    }
    while i < line.len()
        invariant
            1 <= i <= s.len(),
            line@ == s,
            gsv == gs.deep_view(),
            gsv == grapheme_split(s),
            gsv.flatten() == s,
            forall|q: int| 0 <= q < gsv.len() ==> (#[trigger] gsv[q]).len() > 0,
            cfg == config.spacing,
            cfg.alphabets != SpacingRule::Prohibit,
            cfg.digits != SpacingRule::Prohibit,
            fv == file_view(*filename),
            li == line_index as int,
            utf16_len(s) < u32::MAX,
            prev == spec_char_type(s[i - 1]),
            cols as int == utf16_len(s.take(i as int)),
            cols as int <= utf16_len(s),
            w002_views(cfg, fv, li, s) == views_of(out@) + spacing_indices_from(
                cfg,
                s,
                i as int,
            ).map_values(|ci: int| w002_view(fv, li, s, ci)),
        decreases s.len() - i,
    {
        let curr = char_type(line[i]);
        proof {
            crate::chars::lemma_utf16_len_take_step(s, i as int);
            crate::chars::lemma_utf16_len_concat(s.take(i as int + 1), s.skip(i as int + 1));
            assert(s =~= s.take(i as int + 1) + s.skip(i as int + 1));
            lemma_utf16_len_bounds(s.skip(i as int + 1));
            lemma_utf16_len_bounds(s.take(i as int + 1));
        }
        let emit = match crate::spacing::evaluate_spacing(config, prev, curr) {
            Some(_) => true,
            None => false,
        };
        proof {
            assert(emit == spacing_emits(cfg, spec_char_type(s[i - 1]), spec_char_type(
                s[i as int],
            )));
        }
        if emit {
            let el = grapheme_len_at(&gs, line, i);
            let sc = cols as u32;
            let d = Diagnostic::new(
                clone_filename(filename),
                Position::new(line_index, sc),
                Position::new(line_index, sc + (el as u32)),
                "W002".to_owned(),
                "Possible spacing position found".to_owned(),
            );
            let ghost old_views = views_of(out@);
            out.push(d);
            proof {
                assert(views_of(out@) =~= old_views + seq![d@]);
                assert(d@ == w002_view(fv, li, s, i as int));
                assert(spacing_indices_from(cfg, s, i as int) =~= seq![i as int]
                    + spacing_indices_from(cfg, s, i as int + 1));
                assert((seq![i as int] + spacing_indices_from(cfg, s, i as int + 1)).map_values(
                    |ci: int| w002_view(fv, li, s, ci),
                ) =~= seq![w002_view(fv, li, s, i as int)] + spacing_indices_from(
                    cfg,
                    s,
                    i as int + 1,
                ).map_values(|ci: int| w002_view(fv, li, s, ci)));
                assert(old_views + (seq![d@] + spacing_indices_from(cfg, s, i as int + 1).map_values(
                    |ci: int| w002_view(fv, li, s, ci),
                )) =~= (old_views + seq![d@]) + spacing_indices_from(cfg, s, i as int + 1).map_values(
                    |ci: int| w002_view(fv, li, s, ci),
                ));
            }
        } else {
            proof {
                assert(spacing_indices_from(cfg, s, i as int) =~= spacing_indices_from(
                    cfg,
                    s,
                    i as int + 1,
                ));
            }
        }
        prev = curr;
        cols = cols + vec_utf16_len_one(line[i]);
        i = i + 1;
    }
    proof {
        assert(spacing_indices_from(cfg, s, i as int) =~= Seq::<int>::empty());
        assert(Seq::<int>::empty().map_values(|ci: int| w002_view(fv, li, s, ci)) =~= Seq::<
            DiagView,
        >::empty());
        assert(views_of(out@) + Seq::<DiagView>::empty() =~= views_of(out@));
    }
    out
}

/// The UTF-16 length of one character.
fn vec_utf16_len_one(c: char) -> (r: usize)
    ensures
        r as int == crate::chars::char_utf16_len(c),
{
    crate::chars::char_utf16_len_x(c)
}

/// The UTF-16 length of the grapheme cluster that starts at character
/// offset `ci` of the line, or zero when none starts there.
fn grapheme_len_at(gs: &Vec<Vec<char>>, line: &Vec<char>, ci: usize) -> (r: usize)
    requires
        gs.deep_view() == grapheme_split(line@),
        gs.deep_view().flatten() == line@,
        forall|q: int| 0 <= q < gs.deep_view().len() ==> (#[trigger] gs.deep_view()[q]).len() > 0,
        0 < ci < line@.len(),
        utf16_len(line@) < u32::MAX,
    ensures
        r as int == w002_grapheme_len(line@, ci as int),
        utf16_len(line@.take(ci as int)) + r as int <= utf16_len(line@),
{
    let ghost gsv = gs.deep_view();
    let line_len = line.len();
    let gs_len = gs.len();
    let mut t: usize = 0;
    let mut coff: usize = 0;
    proof {
        assert(gsv.len() == gs@.len());
        assert(gsv.take(0) =~= Seq::<Seq<char>>::empty());
        assert(gsv.take(0).flatten() =~= Seq::<char>::empty());
        assert(gsv.take(gsv.len() as int) =~= gsv);
        assert(gc_off(gsv, gsv.len() as int) == line@.len());
    }
    while coff < ci
        invariant
            0 <= t <= gsv.len(),
            gsv == gs.deep_view(),
            gsv.len() == gs@.len(),
            gsv == grapheme_split(line@),
            gsv.flatten() == line@,
            forall|q: int| 0 <= q < gsv.len() ==> (#[trigger] gsv[q]).len() > 0,
            0 < ci < line@.len(),
            line_len == line@.len(),
            gs_len == gs@.len(),
            coff as int == gc_off(gsv, t as int),
            coff as int <= line@.len(),
            gc_off(gsv, gsv.len() as int) == line@.len(),
            forall|q: int| 0 <= q < t ==> gc_off(gsv, q) < ci,
        decreases line@.len() - coff,
    {
        proof {
            if t as int == gsv.len() {
                assert(coff as int == line@.len());
                assert(false);
            }
            lemma_deep_view_index(gs, t as int);
            lemma_gc_off_step(gsv, t as int);
            lemma_gc_off_mono(gsv, t as int + 1, gsv.len() as int);
        }
        coff = coff + gs[t].len();
        t = t + 1;
    }
    if coff == ci && t < gs.len() {
        proof {
            lemma_deep_view_index(gs, t as int);
            assert(gc_off(gsv, t as int) == ci);
            assert(exists|q: int| 0 <= q < gsv.len() && gc_off(gsv, q) == ci as int);
            let t0 = choose|q: int| 0 <= q < gsv.len() && gc_off(gsv, q) == ci as int;
            lemma_gc_off_unique(gsv, t0, t as int);
            lemma_flatten_split(gsv, t as int);
            assert(gsv.skip(t as int)[0] == gsv[t as int]);
            assert(gsv.skip(t as int).drop_first() =~= gsv.skip(t as int + 1));
            assert(gsv.skip(t as int).flatten() == gsv[t as int] + gsv.skip(t as int + 1).flatten());
            assert(line@.take(ci as int) =~= gsv.take(t as int).flatten());
            lemma_utf16_len_concat(gsv.take(t as int).flatten(), gsv.skip(t as int).flatten());
            lemma_utf16_len_concat(gsv[t as int], gsv.skip(t as int + 1).flatten());
            lemma_utf16_len_bounds(gsv.take(t as int).flatten());
            lemma_utf16_len_bounds(gsv.skip(t as int + 1).flatten());
            lemma_utf16_len_bounds(gsv[t as int]);
        }
        vec_utf16_len(&gs[t])
    } else {
        proof {
            assert forall|q: int| 0 <= q < gsv.len() implies gc_off(gsv, q) != ci as int by {
                if q < t {
                } else {
                    lemma_gc_off_mono(gsv, t as int, q);
                }
            }
            assert(line@ =~= line@.take(ci as int) + line@.skip(ci as int));
            lemma_utf16_len_concat(line@.take(ci as int), line@.skip(ci as int));
            lemma_utf16_len_bounds(line@.skip(ci as int));
        }
        0
    }
}

impl Config {
    /// The breaker this configuration induces, with the default kinsoku
    /// sets.
    fn breaker(&self) -> (r: Result<LineBreaker, CjkfmtError>)
        ensures
            (match r {
                Result::Ok(b) => self.max_width >= 2 && b.model() == config_model(*self),
                Result::Err(e) => self.max_width < 2 && e == (CjkfmtError::InvalidConfiguration {
                    max_width: self.max_width,
                }),
            }),
    {
        let r = LineBreaker::builder().ambiguous_width(
            self.ambiguous_width,
        ).max_width(self.max_width).build();
        proof {
            match &r {
                Result::Ok(b) => {
                    lemma_model_fields(*b);
                    assert(b.model() == config_model(*self));
                },
                Result::Err(_) => {},
            }
        }
        r
    }
}

/// Checks one document: every physical line is held against the width
/// budget and scanned for spacing issues.  Diagnostics come out ordered
/// line by line, the `W001` of a line before its `W002`s.
pub fn check_one_file(config: &Config, filename: Option<&str>, content: &str) -> (r: Result<
    Vec<Diagnostic>,
    CjkfmtError,
>)
    requires
        content@.len() <= 0x7FFF_FFFF,
        config.spacing.alphabets != SpacingRule::Prohibit,
        config.spacing.digits != SpacingRule::Prohibit,
    ensures
        r is Ok <==> config.max_width >= 2,
        (match r {
            Result::Ok(ds) => {
                &&& views_of(ds@) == spec_check_file(
                    config_model(*config),
                    config.spacing,
                    (match filename {
                        Option::Some(f) => Option::Some(f@),
                        Option::None => Option::None,
                    }),
                    content@,
                )
                &&& forall|a: int, b: int|
                    0 <= a < b < ds@.len() ==> #[trigger] ds@[a]@.start_line
                        <= #[trigger] ds@[b]@.start_line
            },
            Result::Err(e) => e == (CjkfmtError::InvalidConfiguration {
                max_width: config.max_width,
            }),
        }),
{
    let breaker = match config.breaker() {
        Ok(b) => b,
        Err(e) => {
            return Err(e);
        },
    };
    let ghost bm = config_model(*config);
    let ghost cfg = config.spacing;
    let owned_filename: Option<String> = match filename {
        Some(f) => Some(f.to_owned()),
        None => None,
    };
    let ghost fv = file_view(owned_filename);
    let chars = chars_vec(content);
    let lines = split_all_lines(&chars);
    let ghost lsv = lines.deep_view();
    let mut diagnostics: Vec<Diagnostic> = Vec::new();
    let mut li: usize = 0;
    proof {
        lemma_line_split_counts(content@);
        assert(views_of(diagnostics@) =~= Seq::<DiagView>::empty());
        assert(spec_check_file(bm, cfg, fv, content@) =~= views_of(diagnostics@)
            + check_lines_from(bm, cfg, fv, lsv, 0));
    }
    while li < lines.len()
        invariant
            0 <= li <= lsv.len(),
            lsv == lines.deep_view(),
            lsv == line_split(content@),
            content@.len() <= 0x7FFF_FFFF,
            lsv.len() <= content@.len(),
            forall|q: int| 0 <= q < lsv.len() ==> 1 <= (#[trigger] lsv[q]).len()
                <= content@.len(),
            bm == config_model(*config),
            cfg == config.spacing,
            cfg.alphabets != SpacingRule::Prohibit,
            cfg.digits != SpacingRule::Prohibit,
            breaker.model() == bm,
            fv == file_view(owned_filename),
            spec_check_file(bm, cfg, fv, content@) == views_of(diagnostics@) + check_lines_from(
                bm,
                cfg,
                fv,
                lsv,
                li as int,
            ),
            forall|a: int| 0 <= a < diagnostics@.len() ==> #[trigger] diagnostics@[a]@.start_line
                < li as int,
            forall|a: int, b: int|
                0 <= a < b < diagnostics@.len() ==> #[trigger] diagnostics@[a]@.start_line
                    <= #[trigger] diagnostics@[b]@.start_line,
        decreases lsv.len() - li,
    {
        proof {
            lemma_deep_view_index(&lines, li as int);
            lemma_utf16_len_bounds(lsv[li as int]);
        }
        let line = &lines[li];
        let li32 = li as u32;
        let ghost old_views = views_of(diagnostics@);
        let ghost line_diags = spec_check_line(bm, cfg, fv, li as int, lsv[li as int]);
        match check_line_length(&breaker, &owned_filename, li32, line) {
            Some(d) => {
                diagnostics.push(d);
            },
            None => {},
        }
        let mut spacing_diags = check_spacing(config, &owned_filename, li32, line);
        let ghost mid = diagnostics@;
        let ghost spacing_seq = spacing_diags@;
        diagnostics.append(&mut spacing_diags);
        proof {
            assert(views_of(mid + spacing_seq) =~= views_of(mid) + views_of(spacing_seq));
            assert(views_of(diagnostics@) =~= old_views + line_diags);
            assert(check_lines_from(bm, cfg, fv, lsv, li as int) == line_diags + check_lines_from(
                bm,
                cfg,
                fv,
                lsv,
                li as int + 1,
            ));
            assert(old_views + (line_diags + check_lines_from(bm, cfg, fv, lsv, li as int + 1))
                =~= (old_views + line_diags) + check_lines_from(bm, cfg, fv, lsv, li as int + 1));
            lemma_check_line_start_lines(bm, cfg, fv, li as int, lsv[li as int]);
            assert forall|a: int| 0 <= a < diagnostics@.len() implies #[trigger] diagnostics@[a]@
                .start_line < li as int + 1 by {
                assert(diagnostics@[a]@ == views_of(diagnostics@)[a]);
                if a < old_views.len() {
                    assert(views_of(diagnostics@)[a] == old_views[a]);
                } else {
                    assert(views_of(diagnostics@)[a] == line_diags[a - old_views.len()]);
                }
            }
            assert forall|a: int, b: int| 0 <= a < b < diagnostics@.len() implies #[trigger] diagnostics@[a]@.start_line <= #[trigger] diagnostics@[b]@.start_line by {
                assert(diagnostics@[a]@ == views_of(diagnostics@)[a]);
                assert(diagnostics@[b]@ == views_of(diagnostics@)[b]);
                if b >= old_views.len() {
                    assert(views_of(diagnostics@)[b] == line_diags[b - old_views.len()]);
                    assert(diagnostics@[b]@.start_line == li as int);
                }
                if a >= old_views.len() {
                    assert(views_of(diagnostics@)[a] == line_diags[a - old_views.len()]);
                    assert(diagnostics@[a]@.start_line == li as int);
                }
                if a < old_views.len() && b < old_views.len() {
                    assert(views_of(diagnostics@)[a] == old_views[a]);
                    assert(views_of(diagnostics@)[b] == old_views[b]);
                }
            }
        }
        li = li + 1;
    }
    proof {
        assert(check_lines_from(bm, cfg, fv, lsv, li as int) =~= Seq::<DiagView>::empty());
        assert(views_of(diagnostics@) + Seq::<DiagView>::empty() =~= views_of(diagnostics@));
    }
    Ok(diagnostics)
}

} // verus!
