//! The [`Diagnostic`] type and its plain-text rendering.
use vstd::prelude::*;

verus! {

use crate::position::Position;
use crate::graphemes::chars_vec;
use crate::graphemes::chars_to_string;

/// Diagnostic information for a single issue.
#[derive(Debug, Clone)]
pub struct Diagnostic {
    /// The name of the file where the issue was detected, or `None` for
    /// piped input.
    pub filename: Option<String>,
    /// The start (inclusive) of the half-open range the issue applies to.
    pub start: Position,
    /// The end (exclusive) of the half-open range the issue applies to.
    pub end: Position,
    /// A unique code identifying the issue.
    pub code: String,
    /// A human-readable message describing the issue.
    pub message: String,
}

/// The mathematical content of a [`Diagnostic`].
pub struct DiagView {
    /// The filename's characters, if one is set.
    pub filename: Option<Seq<char>>,
    /// Zero-based line of the range's start.
    pub start_line: int,
    /// Zero-based UTF-16 column of the range's start.
    pub start_col: int,
    /// Zero-based line of the range's end.
    pub end_line: int,
    /// Zero-based UTF-16 column of the range's end.
    pub end_col: int,
    /// The characters of the issue code.
    pub code: Seq<char>,
    /// The characters of the message.
    pub message: Seq<char>,
}

impl View for Diagnostic {
    type V = DiagView;

    open spec fn view(&self) -> DiagView {
        DiagView {
            filename: match self.filename {
                Option::Some(f) => Option::Some(f@),
                Option::None => Option::None,
            },
            start_line: self.start.line as int,
            start_col: self.start.column as int,
            end_line: self.end.line as int,
            end_col: self.end.column as int,
            code: self.code@,
            message: self.message@,
        }
    }
}

/// The views of a sequence of diagnostics.
pub open spec fn views_of(ds: Seq<Diagnostic>) -> Seq<DiagView> {
    ds.map_values(|d: Diagnostic| d@)
}

impl Diagnostic {
    /// Creates a new diagnostic for the half-open range `[start, end)`.
    pub fn new(
        filename: Option<String>,
        start: Position,
        end: Position,
        code: String,
        message: String,
    ) -> (r: Self)
        ensures
            r.filename == filename,
            r.start == start,
            r.end == end,
            r.code == code,
            r.message == message,
    {
        Self { filename, start, end, code, message }
    }
}

/// The decimal digits of a non-negative integer, most significant first.
pub open spec fn dec_digits(n: int) -> Seq<char>
    decreases n,
{
    if n < 0 {
        seq![]
    } else if n < 10 {
        seq![digit_char(n)]
    } else {
        dec_digits(n / 10) + seq![digit_char(n % 10)]
    }
}

/// The character for one decimal digit.
pub open spec fn digit_char(d: int) -> char {
    if d == 0 {
        '0'
    } else if d == 1 {
        '1'
    } else if d == 2 {
        '2'
    } else if d == 3 {
        '3'
    } else if d == 4 {
        '4'
    } else if d == 5 {
        '5'
    } else if d == 6 {
        '6'
    } else if d == 7 {
        '7'
    } else if d == 8 {
        '8'
    } else {
        '9'
    }
}

/// Appends the decimal digits of `n` to `out`.
pub(crate) fn push_dec(n: u32, out: &mut Vec<char>)
    ensures
        final(out)@ == old(out)@ + dec_digits(n as int),
    decreases n,
{
    if n >= 10 {
        push_dec(n / 10, out);
    }
    let d = n % 10;
    let c = if d == 0 {
        '0'
    } else if d == 1 {
        '1'
    } else if d == 2 {
        '2'
    } else if d == 3 {
        '3'
    } else if d == 4 {
        '4'
    } else if d == 5 {
        '5'
    } else if d == 6 {
        '6'
    } else if d == 7 {
        '7'
    } else if d == 8 {
        '8'
    } else {
        '9'
    };
    out.push(c);
    proof {
        if n >= 10 {
            assert(old(out)@ + dec_digits(n as int) =~= (old(out)@ + dec_digits(n as int / 10))
                + seq![digit_char(n as int % 10)]);
        } else {
            assert(dec_digits(n as int) =~= seq![digit_char(n as int)]);
            assert(out@ =~= old(out)@ + dec_digits(n as int));
        }
    }
}

/// Appends the characters of `v` to `out`.
pub(crate) fn push_all(out: &mut Vec<char>, v: &Vec<char>)
    ensures
        final(out)@ == old(out)@ + v@,
{
    let mut i: usize = 0;
    proof {
        assert(out@ =~= old(out)@ + v@.take(0));
    }
    while i < v.len()
        invariant
            0 <= i <= v@.len(),
            out@ == old(out)@ + v@.take(i as int),
        decreases v@.len() - i,
    {
        out.push(v[i]);
        proof {
            assert(old(out)@ + v@.take(i as int + 1) =~= (old(out)@ + v@.take(i as int)).push(
                v@[i as int],
            ));
        }
        i = i + 1;
    }
    proof {
        assert(v@.take(v@.len() as int) =~= v@);
    }
}

/// The rendered form of a diagnostic: the filename (or `<stdin>`), the
/// one-based line and column of the range's start, the code and the
/// message, colon-separated.
pub open spec fn spec_render(d: DiagView) -> Seq<char> {
    let name = match d.filename {
        Option::Some(f) => f,
        Option::None => "<stdin>"@,
    };
    name + seq![':'] + dec_digits(d.start_line + 1) + seq![':'] + dec_digits(d.start_col + 1)
        + seq![':', ' '] + d.code + seq![' '] + d.message
}

/// Returns the plain printable form of a diagnostic.
pub fn format_diagnostic(diagnostic: &Diagnostic) -> (r: String)
    requires
        diagnostic.start.line < u32::MAX,
        diagnostic.start.column < u32::MAX,
    ensures
        r@ == spec_render(diagnostic@),
{
    let mut out: Vec<char> = Vec::new();
    let name = match &diagnostic.filename {
        Some(f) => chars_vec(f.as_str()),
        None => chars_vec("<stdin>"),
    };
    push_all(&mut out, &name);
    out.push(':');
    push_dec(diagnostic.start.line + 1, &mut out);
    out.push(':');
    push_dec(diagnostic.start.column + 1, &mut out);
    out.push(':');
    out.push(' ');
    let code = chars_vec(diagnostic.code.as_str());
    push_all(&mut out, &code);
    out.push(' ');
    let message = chars_vec(diagnostic.message.as_str());
    push_all(&mut out, &message);
    proof {
        assert(out@ =~= spec_render(diagnostic@));
    }
    chars_to_string(&out)
}

} // verus!
