use cjkfmt::config::AmbiguousWidth;
use cjkfmt::line_break::{BreakPoint, LineBreaker};
use unicode_width::UnicodeWidthStr;

#[test]
fn max_width() {
    assert!(LineBreaker::builder().max_width(0).build().is_err());
    assert!(LineBreaker::builder().max_width(1).build().is_err());
    assert!(LineBreaker::builder().max_width(2).build().is_ok());
    assert!(LineBreaker::builder().max_width(3).build().is_ok());
}

#[test]
fn max_width_two_accepted_below_rejected() {
    // The boundary: a budget of two columns is the smallest accepted.
    let err = LineBreaker::builder().max_width(1).build();
    assert!(matches!(
        err,
        Err(cjkfmt::errors::CjkfmtError::InvalidConfiguration { max_width: 1 })
    ));
    let ok = LineBreaker::builder().max_width(2).build();
    assert!(ok.is_ok());
    assert_eq!(ok.unwrap().max_width(), 2);
}

fn breaker(max_width: u32) -> LineBreaker {
    LineBreaker::builder().max_width(max_width).build().unwrap()
}

#[test]
fn next_line_break_kinsoku() {
    // Kinsoku backtrack over the closing bracket: the break may not fall
    // before 」, so it backs up to the boundary between あ and 「.
    let cases: &[(u32, BreakPoint)] = &[
        (10, BreakPoint::EndOfText(15)),
        (9, BreakPoint::WrapPoint { overflow_pos: 12, adjustment: 0 }),
        (8, BreakPoint::WrapPoint { overflow_pos: 12, adjustment: 0 }),
        (7, BreakPoint::WrapPoint { overflow_pos: 9, adjustment: 6 }),
        (6, BreakPoint::WrapPoint { overflow_pos: 9, adjustment: 6 }),
        (5, BreakPoint::WrapPoint { overflow_pos: 6, adjustment: 3 }),
        (4, BreakPoint::WrapPoint { overflow_pos: 6, adjustment: 3 }),
        (3, BreakPoint::WrapPoint { overflow_pos: 3, adjustment: 0 }),
        (2, BreakPoint::WrapPoint { overflow_pos: 3, adjustment: 0 }),
    ];
    for (mw, expected) in cases {
        let actual = breaker(*mw).next_line_break("あ「い」う");
        assert_eq!(*expected, actual, "max_width = {}", mw);
    }
}

#[test]
fn next_line_break_eol() {
    // A lone CR is a terminator of length one; CRLF is one terminator of
    // length two.
    let cases: &[(u32, &str, BreakPoint)] = &[
        (2, "foo\rbar", BreakPoint::EndOfLine(4)),
        (3, "foo\rbar", BreakPoint::EndOfLine(4)),
        (4, "foo\rbar", BreakPoint::EndOfLine(4)),
        (5, "foo\rbar", BreakPoint::EndOfLine(4)),
        (5, "foo\nbar", BreakPoint::EndOfLine(4)),
        (5, "foo\r\nbar", BreakPoint::EndOfLine(5)),
    ];
    for (mw, line, expected) in cases {
        let actual = breaker(*mw).next_line_break(line);
        assert_eq!(*expected, actual, "max_width = {}, line = {:?}", mw, line);
    }
}

#[test]
fn next_line_break_crlf_is_one_terminator() {
    // CRLF straight at the start: one terminator of two bytes, not two.
    assert_eq!(breaker(4).next_line_break("\r\n"), BreakPoint::EndOfLine(2));
    assert_eq!(breaker(4).next_line_break("\r"), BreakPoint::EndOfLine(1));
    assert_eq!(breaker(4).next_line_break("\n"), BreakPoint::EndOfLine(1));
}

#[test]
fn next_line_break_western_word_wrap() {
    // UAX #14 forbids breaking inside a Latin word and before a space.
    let cases: &[(u32, BreakPoint)] = &[
        (11, BreakPoint::EndOfText(13)),
        (10, BreakPoint::WrapPoint { overflow_pos: 10, adjustment: 0 }),
        (9, BreakPoint::WrapPoint { overflow_pos: 10, adjustment: 0 }),
        (8, BreakPoint::WrapPoint { overflow_pos: 9, adjustment: 2 }),
        (7, BreakPoint::WrapPoint { overflow_pos: 8, adjustment: 1 }),
        (6, BreakPoint::WrapPoint { overflow_pos: 7, adjustment: 0 }),
        (5, BreakPoint::WrapPoint { overflow_pos: 6, adjustment: 3 }),
        (4, BreakPoint::WrapPoint { overflow_pos: 5, adjustment: 2 }),
        (3, BreakPoint::WrapPoint { overflow_pos: 4, adjustment: 1 }),
        (2, BreakPoint::WrapPoint { overflow_pos: 3, adjustment: 0 }),
    ];
    for (mw, expected) in cases {
        let actual = breaker(*mw).next_line_break("あfoo barい");
        assert_eq!(*expected, actual, "max_width = {}", mw);
    }
}

#[test]
fn next_line_break_zwj_cluster_is_atomic() {
    // The cat-with-ZWJ emoji is a single grapheme cluster: no break point
    // ever falls inside its byte range (3..=15 within this line).
    let line = "あ「🐈\u{200D}⬛」う";
    for mw in 2..=12u32 {
        match breaker(mw).next_line_break(line) {
            BreakPoint::WrapPoint { overflow_pos, adjustment } => {
                let cut = overflow_pos - adjustment;
                assert!(
                    cut == 3 || cut == 6 || cut == 19 || cut == 22,
                    "cut {} falls inside a cluster (max_width = {})",
                    cut,
                    mw
                );
            }
            _ => {}
        }
    }
}

#[test]
fn next_line_break_composite() {
    // The cat-with-ZWJ emoji counts as one two-column cluster; at the
    // narrower budget the backtrack rewinds over it and the bracket.
    let line = "あ「🐈\u{200D}⬛」う";
    assert_eq!(
        breaker(8).next_line_break(line),
        BreakPoint::WrapPoint { overflow_pos: 19, adjustment: 0 }
    );
    assert_eq!(
        breaker(7).next_line_break(line),
        BreakPoint::WrapPoint { overflow_pos: 16, adjustment: 13 }
    );
}

#[test]
fn next_line_break_tolerated_overflow() {
    // Two opening brackets with nothing breakable before them: the line
    // is allowed to overflow rather than break at a forbidden point.
    assert_eq!(breaker(2).next_line_break("「「"), BreakPoint::EndOfText(6));
    // A single grapheme wider than the budget has no earlier break point.
    assert_eq!(breaker(2).next_line_break("あ"), BreakPoint::EndOfText(3));
}

#[test]
fn wrap_prefix_fits_budget() {
    // The displayed width of the text before the overflow position stays
    // within the budget whenever no earlier overflow was tolerated.
    let lines = ["あ「い」う", "あfoo barい", "ああああいい"];
    for line in lines {
        for mw in 2..=10u32 {
            if let BreakPoint::WrapPoint { overflow_pos, adjustment: _ } =
                breaker(mw).next_line_break(line)
            {
                let prefix = &line[..overflow_pos];
                assert!(
                    prefix.width_cjk() as u32 <= mw,
                    "line = {:?}, max_width = {}",
                    line,
                    mw
                );
            }
        }
    }
}

#[test]
fn ambiguous_width_policy_changes_breaks() {
    // U+00B1 is East Asian Ambiguous: two columns under the Wide policy,
    // one column under Narrow, so the overflow comes earlier when Wide.
    let wide = LineBreaker::builder()
        .ambiguous_width(AmbiguousWidth::Wide)
        .max_width(2)
        .build()
        .unwrap();
    let narrow = LineBreaker::builder()
        .ambiguous_width(AmbiguousWidth::Narrow)
        .max_width(2)
        .build()
        .unwrap();
    assert_eq!(
        wide.next_line_break("±±±"),
        BreakPoint::WrapPoint { overflow_pos: 2, adjustment: 0 }
    );
    assert_eq!(
        narrow.next_line_break("±±±"),
        BreakPoint::WrapPoint { overflow_pos: 4, adjustment: 0 }
    );
}

#[test]
fn wrap_point_is_grapheme_boundary_and_positive() {
    // Every wrap point's cut is strictly positive and splits the line at
    // a character boundary.
    let lines = ["あ「い」う", "あfoo barい", "aあ1九「」x"];
    for line in lines {
        for mw in 2..=10u32 {
            let mut rest: &str = line;
            if let BreakPoint::WrapPoint { overflow_pos, adjustment } =
                breaker(mw).next_line_break(rest)
            {
                let cut = overflow_pos - adjustment;
                assert!(cut >= 1);
                assert!(rest.is_char_boundary(cut));
                rest = &rest[cut..];
                assert!(!rest.is_empty());
            }
        }
    }
}
