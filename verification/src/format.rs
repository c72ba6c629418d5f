//! The format driver: rewrites a document by splitting every over-long
//! line at the break offsets the line breaker finds.
use vstd::prelude::*;

verus! {

use crate::chars::utf8_len;
use crate::check::config_model;
use crate::config::Config;
use crate::errors::CjkfmtError;
use crate::graphemes::grapheme_split;
use crate::graphemes::split_graphemes;
use crate::graphemes::chars_vec;
use crate::graphemes::chars_to_string;
use crate::graphemes::vec_utf8_len;
use crate::graphemes::lemma_deep_view_index;
use crate::line_break::BreakPoint;
use crate::line_break::BreakerModel;
use crate::line_break::LineBreaker;
use crate::line_break::SpecBreak;
use crate::line_break::gb_off;
use crate::line_break::gc_off;
use crate::line_break::lemma_gb_off_step;
use crate::line_break::lemma_gb_off_mono;
use crate::line_break::lemma_gc_off_step;
use crate::line_break::lemma_gc_off_mono;
use crate::line_break::lemma_model_fields;
use crate::lines::line_split;
use crate::lines::lemma_line_split_flatten;
use crate::lines::split_all_lines;
use crate::lines::copy_range;
use crate::diagnostic::push_all;

/// The rewritten form of one physical line: while the breaker finds a
/// wrap, the part before the cut is emitted followed by an inserted
/// newline, and the rest of the line is rewritten in turn.  The cut is
/// the wrap's break offset, counted in characters.
///
/// The guard on the cut keeps the definition total; the driver proves
/// that a wrap's cut always lies strictly inside the line.
pub open spec fn spec_format_line(bm: BreakerModel, line: Seq<char>) -> Seq<char>
    decreases line.len(),
{
    match bm.spec_next_line_break(line) {
        SpecBreak::Wrap { pos, adj, gi, cj } => {
            let c = gc_off(grapheme_split(line), cj);
            if 1 <= c <= line.len() {
                line.take(c) + seq!['\n'] + spec_format_line(bm, line.skip(c))
            } else {
                line
            }
        },
        _ => line,
    }
}

/// [`spec_format_line`] with the inserted newlines removed: the same
/// recursion, emitting the pieces without the `'\n'` between them.
pub open spec fn format_residue(bm: BreakerModel, line: Seq<char>) -> Seq<char>
    decreases line.len(),
{
    match bm.spec_next_line_break(line) {
        SpecBreak::Wrap { pos, adj, gi, cj } => {
            let c = gc_off(grapheme_split(line), cj);
            if 1 <= c <= line.len() {
                line.take(c) + format_residue(bm, line.skip(c))
            } else {
                line
            }
        },
        _ => line,
    }
}

/// Removing the inserted newlines from a rewritten line restores the
/// line byte for byte: the rewrite only ever splits, never edits.
pub proof fn lemma_format_residue_identity(bm: BreakerModel, line: Seq<char>)
    ensures
        format_residue(bm, line) == line,
    decreases line.len(),
{
    match bm.spec_next_line_break(line) {
        SpecBreak::Wrap { pos, adj, gi, cj } => {
            let c = gc_off(grapheme_split(line), cj);
            if 1 <= c <= line.len() {
                lemma_format_residue_identity(bm, line.skip(c));
                assert(format_residue(bm, line) =~= line);
            }
        },
        _ => {},
    }
}

/// The rewritten forms of the lines from index `i` on, concatenated.
pub open spec fn format_lines_from(bm: BreakerModel, lines: Seq<Seq<char>>, i: int) -> Seq<char>
    decreases lines.len() - i,
{
    if i < 0 || i >= lines.len() {
        seq![]
    } else {
        spec_format_line(bm, lines[i]) + format_lines_from(bm, lines, i + 1)
    }
}

/// The rewritten form of a whole document, line by line.
pub open spec fn spec_format(bm: BreakerModel, content: Seq<char>) -> Seq<char> {
    format_lines_from(bm, line_split(content), 0)
}

/// The format driver is line-preserving: concatenating, for every line,
/// the rewritten output with its inserted newlines removed yields the
/// original document byte for byte.
pub proof fn lemma_format_preserves(bm: BreakerModel, content: Seq<char>)
    ensures
        Seq::new(
            line_split(content).len(),
            |i: int| format_residue(bm, line_split(content)[i]),
        ).flatten() == content,
{
    let lines = line_split(content);
    assert forall|i: int| 0 <= i < lines.len() implies #[trigger] format_residue(bm, lines[i])
        == lines[i] by {
        lemma_format_residue_identity(bm, lines[i]);
    }
    assert(Seq::new(lines.len(), |i: int| format_residue(bm, lines[i])) =~= lines);
    lemma_line_split_flatten(content);
}

/// Empty input yields empty output.
pub proof fn lemma_empty_input_empty_output(bm: BreakerModel)
    ensures
        spec_format(bm, Seq::<char>::empty()) == Seq::<char>::empty(),
{
    assert(line_split(Seq::<char>::empty()) =~= Seq::<Seq<char>>::empty());
    assert(format_lines_from(bm, line_split(Seq::<char>::empty()), 0) =~= Seq::<char>::empty());
}

/// Rewriting at a budget no line exceeds is the identity.
pub proof fn lemma_fits_format_identity(bm: BreakerModel, content: Seq<char>)
    ensures
        (forall|i: int|
            0 <= i < line_split(content).len() ==> crate::line_break::wsum(
                bm.ambiguous_width,
                grapheme_split(#[trigger] line_split(content)[i]),
            ) <= bm.max_width) ==> spec_format(bm, content) == content,
{
    let lines = line_split(content);
    if forall|i: int|
        0 <= i < lines.len() ==> crate::line_break::wsum(
            bm.ambiguous_width,
            grapheme_split(#[trigger] lines[i]),
        ) <= bm.max_width {
        lemma_fits_lines_identity(bm, lines, 0);
        lemma_line_split_flatten(content);
        lemma_flatten_is_format(bm, lines, 0);
        assert(lines.skip(0) =~= lines);
    }
}

/// Over lines that all fit the budget, the rewrite of each line is the
/// line itself.
proof fn lemma_fits_lines_identity(bm: BreakerModel, lines: Seq<Seq<char>>, i: int)
    requires
        0 <= i <= lines.len(),
        forall|q: int|
            0 <= q < lines.len() ==> crate::line_break::wsum(
                bm.ambiguous_width,
                grapheme_split(#[trigger] lines[q]),
            ) <= bm.max_width,
    ensures
        forall|q: int| i <= q < lines.len() ==> #[trigger] spec_format_line(bm, lines[q])
            == lines[q],
{
    assert forall|q: int| i <= q < lines.len() implies #[trigger] spec_format_line(bm, lines[q])
        == lines[q] by {
        crate::line_break::lemma_fits_no_wrap(bm, lines[q]);
    }
}

/// When every line's rewrite is itself, the concatenated rewrite is the
/// concatenation of the lines.
proof fn lemma_flatten_is_format(bm: BreakerModel, lines: Seq<Seq<char>>, i: int)
    requires
        0 <= i <= lines.len(),
        forall|q: int| 0 <= q < lines.len() ==> #[trigger] spec_format_line(bm, lines[q])
            == lines[q],
    ensures
        format_lines_from(bm, lines, i) == lines.skip(i).flatten(),
    decreases lines.len() - i,
{
    if i >= lines.len() {
        assert(lines.skip(i).flatten() =~= Seq::<char>::empty());
    } else {
        lemma_flatten_is_format(bm, lines, i + 1);
        assert(lines.skip(i)[0] == lines[i]);
        assert(lines.skip(i).drop_first() =~= lines.skip(i + 1));
        assert(lines.skip(i).flatten() == lines[i] + lines.skip(i + 1).flatten());
    }
}

/// The number of characters before the break whose byte offset is `cut`.
fn chars_before_cut(gs: &Vec<Vec<char>>, cut: usize, Ghost(cj): Ghost<int>) -> (cc: usize)
    requires
        0 <= cj < gs.deep_view().len(),
        forall|q: int| 0 <= q < gs.deep_view().len() ==> (#[trigger] gs.deep_view()[q]).len() > 0,
        cut as int == gb_off(gs.deep_view(), cj),
        gs.deep_view().flatten().len() <= usize::MAX,
    ensures
        cc as int == gc_off(gs.deep_view(), cj),
{
    let ghost gsv = gs.deep_view();
    let gs_len = gs.len();
    let mut t: usize = 0;
    let mut boff: usize = 0;
    let mut cc: usize = 0;
    proof {
        assert(gsv.len() == gs@.len());
        assert(gsv.take(0) =~= Seq::<Seq<char>>::empty());
        assert(gsv.take(0).flatten() =~= Seq::<char>::empty());
    }
    while boff < cut
        invariant
            0 <= t <= cj < gsv.len(),
            gsv == gs.deep_view(),
            gsv.len() == gs@.len(),
            forall|q: int| 0 <= q < gsv.len() ==> (#[trigger] gsv[q]).len() > 0,
            cut as int == gb_off(gsv, cj),
            gsv.flatten().len() <= usize::MAX,
            gs_len == gs@.len(),
            boff as int == gb_off(gsv, t as int),
            cc as int == gc_off(gsv, t as int),
        decreases cj - t,
    {
        proof {
            lemma_deep_view_index(gs, t as int);
            lemma_gb_off_step(gsv, t as int);
            lemma_gc_off_step(gsv, t as int);
            if t as int == cj {
                assert(false);
            }
            lemma_gb_off_mono(gsv, t as int + 1, cj);
            lemma_gc_off_mono(gsv, t as int + 1, cj);
            lemma_gc_off_mono(gsv, cj, gsv.len() as int);
            assert(gsv.take(gsv.len() as int) =~= gsv);
            crate::chars::lemma_utf8_len_ge_len(gsv[t as int]);
        }
        boff = boff + vec_utf8_len(&gs[t]);
        cc = cc + gs[t].len();
        t = t + 1;
    }
    proof {
        lemma_gb_off_mono(gsv, t as int, cj);
        if (t as int) < cj {
            lemma_gb_off_step(gsv, t as int);
            crate::chars::lemma_utf8_len_ge_len(gsv[t as int]);
            lemma_gb_off_mono(gsv, t as int + 1, cj);
        }
        assert(t as int == cj);
    }
    cc
}

/// Rewrites one document: every physical line is split at the break
/// offsets the breaker finds, with a newline inserted at each split; the
/// rest of the text is emitted unchanged.
pub fn format_one_file(config: &Config, content: &str) -> (r: Result<String, CjkfmtError>)
    ensures
        r is Ok <==> config.max_width >= 2,
        (match r {
            Result::Ok(out) => out@ == spec_format(config_model(*config), content@),
            Result::Err(e) => e == (CjkfmtError::InvalidConfiguration {
                max_width: config.max_width,
            }),
        }),
{
    let breaker = match LineBreaker::builder().ambiguous_width(
        config.ambiguous_width,
    ).max_width(config.max_width).build() {
        Ok(b) => b,
        Err(e) => {
            proof {
                assert(e == (CjkfmtError::InvalidConfiguration { max_width: config.max_width }));
            }
            return Err(e);
        },
    };
    let ghost bm = config_model(*config);
    proof {
        lemma_model_fields(breaker);
        assert(breaker.model() == bm);
    }
    let chars = chars_vec(content);
    let lines = split_all_lines(&chars);
    let ghost lsv = lines.deep_view();
    let mut out: Vec<char> = Vec::new();
    let mut li: usize = 0;
    proof {
        assert(out@ =~= Seq::<char>::empty());
        assert(spec_format(bm, content@) =~= out@ + format_lines_from(bm, lsv, 0));
    }
    while li < lines.len()
        invariant
            0 <= li <= lsv.len(),
            lsv == lines.deep_view(),
            lsv.len() == lines@.len(),
            lsv == line_split(content@),
            bm == config_model(*config),
            breaker.model() == bm,
            spec_format(bm, content@) == out@ + format_lines_from(bm, lsv, li as int),
        decreases lsv.len() - li,
    {
        proof {
            lemma_deep_view_index(&lines, li as int);
        }
        let mut rem: Vec<char> = copy_range(&lines[li], 0, lines[li].len());
        let ghost orig = lsv[li as int];
        proof {
            assert(rem@ =~= orig);
        }
        let ghost base = out@;
        loop
            invariant_except_break
                base + spec_format_line(bm, orig) == out@ + spec_format_line(bm, rem@),
            invariant
                breaker.model() == bm,
            ensures
                out@ == base + spec_format_line(bm, orig),
            decreases rem@.len(),
        {
            let rem_str = chars_to_string(&rem);
            let rem_len = rem.len();
            match breaker.next_line_break(rem_str.as_str()) {
                BreakPoint::WrapPoint { overflow_pos, adjustment } => {
                    let ghost old_rem = rem@;
                    let ghost old_out = out@;
                    let cut = overflow_pos - adjustment;
                    let gs = split_graphemes(rem_str.as_str());
                    let ghost gsv = gs.deep_view();
                    let ghost sb = bm.spec_next_line_break(old_rem);
                    let ghost cj = sb->Wrap_cj;
                    proof {
                        assert(sb is Wrap);
                        assert(cut as int == sb->Wrap_pos - sb->Wrap_adj);
                        assert(cut as int == gb_off(gsv, cj));
                        assert(1 <= cj <= sb->Wrap_gi < gsv.len());
                        assert(gsv.flatten().len() == old_rem.len());
                        assert(old_rem.len() == rem_len);
                    }
                    let cc = chars_before_cut(&gs, cut, Ghost(cj));
                    proof {
                        lemma_gc_off_step(gsv, 0);
                        assert(gsv.take(0) =~= Seq::<Seq<char>>::empty());
                        assert(gsv.take(0).flatten() =~= Seq::<char>::empty());
                        lemma_gc_off_mono(gsv, 1, cj);
                        assert(cc as int >= gsv[0].len());
                        lemma_gc_off_mono(gsv, cj, gsv.len() as int);
                        assert(gsv.take(gsv.len() as int) =~= gsv);
                        assert(gc_off(gsv, gsv.len() as int) == old_rem.len());
                        assert(1 <= cc as int <= old_rem.len());
                    }
                    let piece = copy_range(&rem, 0, cc);
                    push_all(&mut out, &piece);
                    out.push('\n');
                    let next = copy_range(&rem, cc, rem_len);
                    proof {
                        assert(piece@ =~= old_rem.take(cc as int));
                        assert(next@ =~= old_rem.skip(cc as int));
                        assert(spec_format_line(bm, old_rem) == old_rem.take(cc as int) + seq![
                            '\n',
                        ] + spec_format_line(bm, old_rem.skip(cc as int)));
                        assert(out@ =~= old_out + old_rem.take(cc as int) + seq!['\n']);
                        assert(out@ + spec_format_line(bm, next@) =~= old_out + spec_format_line(
                            bm,
                            old_rem,
                        ));
                    }
                    rem = next;
                },
                BreakPoint::EndOfLine(_) => {
                    proof {
                        assert(spec_format_line(bm, rem@) == rem@);
                    }
                    push_all(&mut out, &rem);
                    proof {
                        assert(out@ =~= base + spec_format_line(bm, orig));
                    }
                    break ;
                },
                BreakPoint::EndOfText(_) => {
                    proof {
                        assert(spec_format_line(bm, rem@) == rem@);
                    }
                    push_all(&mut out, &rem);
                    proof {
                        assert(out@ =~= base + spec_format_line(bm, orig));
                    }
                    break ;
                },
            }
        }
        proof {
            assert(out@ == base + spec_format_line(bm, orig));
            assert(format_lines_from(bm, lsv, li as int) == spec_format_line(bm, orig)
                + format_lines_from(bm, lsv, li as int + 1));
            assert((out@ + format_lines_from(bm, lsv, li as int + 1)) =~= base + (
            spec_format_line(bm, orig) + format_lines_from(bm, lsv, li as int + 1)));
        }
        li = li + 1;
    }
    proof {
        assert(format_lines_from(bm, lsv, li as int) =~= Seq::<char>::empty());
        assert(out@ + Seq::<char>::empty() =~= out@);
    }
    Ok(chars_to_string(&out))
}

} // verus!
