//! Failure values: every component fails fast with one of three variants, and
//! composite components add context frames so the rendered message carries a
//! position-annotated trace from the innermost failure outward.

use vstd::prelude::*;
use vstd::string::*;

verus! {

/// One step of parse context: which component was active and where it began.
#[derive(Clone, Debug, PartialEq)]
pub struct Frame {
    pub component: String,
    pub pos: usize,
}

/// A parse or extraction failure.
#[derive(Clone, Debug, PartialEq)]
pub enum ParseError {
    /// A required line or blank-line run was never found before the text
    /// ended. `pos` is where the failing component began; `trace` lists the
    /// enclosing components, innermost first.
    UnexpectedEndOfInput { pos: usize, trace: Vec<Frame> },
    /// The next characters match no expected alternative at `pos`.
    GrammarMismatch { pos: usize, trace: Vec<Frame> },
    /// The external text-extraction collaborator failed.
    ExtractionFailure { message: String },
}

impl ParseError {
    /// An end-of-input failure at exactly `p`.
    pub open spec fn is_eof_at(&self, p: int) -> bool {
        match self {
            ParseError::UnexpectedEndOfInput { pos, .. } => *pos == p,
            _ => false,
        }
    }

    /// A grammar mismatch at exactly `p`.
    pub open spec fn is_mismatch_at(&self, p: int) -> bool {
        match self {
            ParseError::GrammarMismatch { pos, .. } => *pos == p,
            _ => false,
        }
    }

    /// The context frames, innermost first.
    pub open spec fn spec_trace(&self) -> Seq<Frame> {
        match self {
            ParseError::UnexpectedEndOfInput { trace, .. } => trace@,
            ParseError::GrammarMismatch { trace, .. } => trace@,
            ParseError::ExtractionFailure { .. } => Seq::empty(),
        }
    }

    pub fn eof_at(component: &str, pos: usize) -> (e: ParseError)
        ensures
            e.is_eof_at(pos as int),
            e.spec_trace().len() == 1,
            e.spec_trace()[0].component@ == component@,
            e.spec_trace()[0].pos == pos,
    {
        let mut trace: Vec<Frame> = Vec::new();
        trace.push(Frame { component: component.to_owned(), pos });
        ParseError::UnexpectedEndOfInput { pos, trace }
    }

    pub fn mismatch_at(component: &str, pos: usize) -> (e: ParseError)
        ensures
            e.is_mismatch_at(pos as int),
            e.spec_trace().len() == 1,
            e.spec_trace()[0].component@ == component@,
            e.spec_trace()[0].pos == pos,
    {
        let mut trace: Vec<Frame> = Vec::new();
        trace.push(Frame { component: component.to_owned(), pos });
        ParseError::GrammarMismatch { pos, trace }
    }

    /// Adds an enclosing component's context frame, keeping the failure's
    /// kind and innermost position.
    pub fn with_frame(self, component: &str, frame_pos: usize) -> (e: ParseError)
        ensures
            forall|p: int| e.is_eof_at(p) == self.is_eof_at(p),
            forall|p: int| e.is_mismatch_at(p) == self.is_mismatch_at(p),
            (self matches ParseError::ExtractionFailure { .. })
                == (e matches ParseError::ExtractionFailure { .. }),
            !(self matches ParseError::ExtractionFailure { .. }) ==> {
                &&& e.spec_trace().len() == self.spec_trace().len() + 1
                &&& e.spec_trace().subrange(0, self.spec_trace().len() as int)
                    == self.spec_trace()
                &&& e.spec_trace().last().component@ == component@
                &&& e.spec_trace().last().pos == frame_pos
            },
    {
        match self {
            ParseError::UnexpectedEndOfInput { pos, mut trace } => {
                let ghost t0 = trace@;
                trace.push(Frame { component: component.to_owned(), pos: frame_pos });
                proof {
                    assert(trace@.subrange(0, t0.len() as int) =~= t0);
                }
                ParseError::UnexpectedEndOfInput { pos, trace }
            },
            ParseError::GrammarMismatch { pos, mut trace } => {
                let ghost t0 = trace@;
                trace.push(Frame { component: component.to_owned(), pos: frame_pos });
                proof {
                    assert(trace@.subrange(0, t0.len() as int) =~= t0);
                }
                ParseError::GrammarMismatch { pos, trace }
            },
            ParseError::ExtractionFailure { message } => {
                ParseError::ExtractionFailure { message }
            },
        }
    }

    /// The rendered, human-readable message.
    pub fn render(&self) -> (r: String)
        ensures
            r@ == spec_render(self),
    {
        let mut out = String::new();
        match self {
            ParseError::UnexpectedEndOfInput { pos, trace } => {
                out.append("unexpected end of input at position ");
                let d = to_decimal(*pos);
                out.append(d.as_str());
                out.append("\n");
                append_trace(&mut out, trace);
            },
            ParseError::GrammarMismatch { pos, trace } => {
                out.append("grammar mismatch at position ");
                let d = to_decimal(*pos);
                out.append(d.as_str());
                out.append("\n");
                append_trace(&mut out, trace);
            },
            ParseError::ExtractionFailure { message } => {
                out.append("text extraction failed: ");
                out.append(message.as_str());
                out.append("\n");
            },
        }
        proof {
            assert(out@ =~= spec_render(self));
        }
        out
    }
}

/// The character for the decimal digit `d`.
pub open spec fn digit_char(d: int) -> char {
    if d == 0 { '0' }
    else if d == 1 { '1' }
    else if d == 2 { '2' }
    else if d == 3 { '3' }
    else if d == 4 { '4' }
    else if d == 5 { '5' }
    else if d == 6 { '6' }
    else if d == 7 { '7' }
    else if d == 8 { '8' }
    else { '9' }
}

/// The decimal digits of `n`, most significant first.
pub open spec fn dec_digits(n: int) -> Seq<char>
    decreases n when n >= 0
{
    if n < 10 {
        seq![digit_char(n)]
    } else {
        dec_digits(n / 10).push(digit_char(n % 10))
    }
}

/// One rendered context frame.
pub open spec fn spec_render_frame(f: Frame) -> Seq<char> {
    "  in "@ + f.component@ + " at position "@ + dec_digits(f.pos as int) + "\n"@
}

/// The rendered context frames from `i` on.
pub open spec fn spec_render_trace(t: Seq<Frame>, i: int) -> Seq<char>
    decreases t.len() - i when 0 <= i <= t.len()
{
    if i >= t.len() {
        Seq::empty()
    } else {
        spec_render_frame(t[i]) + spec_render_trace(t, i + 1)
    }
}

/// The whole rendered message of a failure.
pub open spec fn spec_render(e: &ParseError) -> Seq<char> {
    match e {
        ParseError::UnexpectedEndOfInput { pos, trace } => {
            "unexpected end of input at position "@ + dec_digits(*pos as int) + "\n"@
                + spec_render_trace(trace@, 0)
        },
        ParseError::GrammarMismatch { pos, trace } => {
            "grammar mismatch at position "@ + dec_digits(*pos as int) + "\n"@
                + spec_render_trace(trace@, 0)
        },
        ParseError::ExtractionFailure { message } => {
            "text extraction failed: "@ + message@ + "\n"@
        },
    }
}

/// The string of one decimal digit.
fn digit_str(d: usize) -> (r: &'static str)
    requires
        d < 10,
    ensures
        r@ == seq![digit_char(d as int)],
{
    proof {
        reveal_strlit("0");
        reveal_strlit("1");
        reveal_strlit("2");
        reveal_strlit("3");
        reveal_strlit("4");
        reveal_strlit("5");
        reveal_strlit("6");
        reveal_strlit("7");
        reveal_strlit("8");
        reveal_strlit("9");
    }
    let r = if d == 0 { "0" }
    else if d == 1 { "1" }
    else if d == 2 { "2" }
    else if d == 3 { "3" }
    else if d == 4 { "4" }
    else if d == 5 { "5" }
    else if d == 6 { "6" }
    else if d == 7 { "7" }
    else if d == 8 { "8" }
    else { "9" };
    proof {
        assert(r@ =~= seq![digit_char(d as int)]);
    }
    r
}

fn push_decimal(n: usize, out: &mut String)
    ensures
        final(out)@ == old(out)@ + dec_digits(n as int),
    decreases n,
{
    if n >= 10 {
        push_decimal(n / 10, out);
        out.append(digit_str(n % 10));
        proof {
            assert(out@ =~= old(out)@ + dec_digits(n as int));
        }
    } else {
        out.append(digit_str(n));
        proof {
            assert(out@ =~= old(out)@ + dec_digits(n as int));
        }
    }
}

/// The decimal rendering of `n`.
pub fn to_decimal(n: usize) -> (r: String)
    ensures
        r@ == dec_digits(n as int),
{
    let mut out = String::new();
    push_decimal(n, &mut out);
    proof {
        assert(out@ =~= dec_digits(n as int));
    }
    out
}

fn append_trace(out: &mut String, trace: &Vec<Frame>)
    ensures
        final(out)@ == old(out)@ + spec_render_trace(trace@, 0),
{
    let n = trace.len();
    let mut i: usize = 0;
    while i < n
        invariant
            i <= n,
            n == trace@.len(),
            out@ + spec_render_trace(trace@, i as int)
                == old(out)@ + spec_render_trace(trace@, 0),
        decreases n - i,
    {
        let ghost prev = out@;
        let f = &trace[i];
        out.append("  in ");
        out.append(f.component.as_str());
        out.append(" at position ");
        let d = to_decimal(f.pos);
        out.append(d.as_str());
        out.append("\n");
        proof {
            assert(out@ =~= prev + spec_render_frame(trace@[i as int]));
            assert(out@ + spec_render_trace(trace@, i as int + 1)
                =~= prev + spec_render_trace(trace@, i as int));
        }
        i = i + 1;
    }
    proof {
        assert(spec_render_trace(trace@, n as int) =~= Seq::<char>::empty());
        assert(out@ =~= old(out)@ + spec_render_trace(trace@, 0));
    }
}

} // verus!
