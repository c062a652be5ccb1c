//! The statistics block: "`<name>` padded-whitespace `<count>×`" lines,
//! repeated until the 4-blank-line run that closes the block.

use vstd::prelude::*;

use crate::error::ParseError;
use crate::text::{
    digit_run_end, digits_value, find_double_space, find_double_space_at, lemma_scan_while,
    line_ending_at, scan_digits, scan_multi_space, skip_multi_space, spec_blank_run,
    spec_line_ending, blank_run, is_digit, parse_u32_digits, Source, SpecParse,
};

verus! {

/// One mood- or tag-usage counter line.
#[derive(Clone, Debug, PartialEq)]
pub struct StatLine {
    pub name: String,
    pub count: u32,
}

/// Mathematical model of a stat line: the name's characters and the count.
pub ghost struct SpecStatLine {
    pub name: Seq<char>,
    pub count: u32,
}

impl View for StatLine {
    type V = SpecStatLine;

    open spec fn view(&self) -> SpecStatLine {
        SpecStatLine { name: self.name@, count: self.count }
    }
}

impl DeepView for StatLine {
    type V = SpecStatLine;

    open spec fn deep_view(&self) -> SpecStatLine {
        self.view()
    }
}

impl StatLine {
    pub fn new(name: String, count: u32) -> (r: Self)
        ensures
            r@ == (SpecStatLine { name: name@, count }),
    {
        Self { name, count }
    }
}

/// One stat line: optional whitespace, a name running up to the first pair of
/// consecutive spaces, whitespace, a decimal count, the `'×'` marker, and a
/// line terminator (optional, so the columnar layout can carry further stat
/// fields on the same physical line). The name/count boundary is the first
/// two-space run: names never contain a double space.
pub open spec fn spec_stat_line(s: Seq<char>, pos: int) -> SpecParse<SpecStatLine> {
    let p1 = skip_multi_space(s, pos);
    match find_double_space(s, p1) {
        Option::None => SpecParse::Mismatch(p1),
        Option::Some(j) => {
            let name = s.subrange(p1, j);
            let p2 = skip_multi_space(s, j);
            let de = digit_run_end(s, p2);
            if de == p2 {
                SpecParse::Mismatch(p2)
            } else if !(de < s.len() && s[de] == '×') {
                SpecParse::Mismatch(de)
            } else if digits_value(s.subrange(p2, de)) > u32::MAX as int {
                SpecParse::Mismatch(p2)
            } else {
                let p3 = match spec_line_ending(s, de + 1) {
                    Option::Some(q) => q,
                    Option::None => de + 1,
                };
                SpecParse::Found(
                    SpecStatLine { name, count: digits_value(s.subrange(p2, de)) as u32 },
                    p3,
                )
            }
        },
    }
}

/// Parses one stat line starting at `pos`.
pub fn parse_stat_line(src: &Source<'_>, pos: usize) -> (r: Result<(StatLine, usize), ParseError>)
    requires
        src.wf(),
        pos <= src@.len(),
    ensures
        match spec_stat_line(src@, pos as int) {
            SpecParse::Found(sl, p) => r matches Ok((x, q)) && x@ == sl && q == p
                && pos < p <= src@.len(),
            SpecParse::Mismatch(m) => r matches Err(e) && e.is_mismatch_at(m),
            SpecParse::Eof(_) => false,
        },
{
    let p1 = scan_multi_space(src, pos);
    let j = match find_double_space_at(src, p1) {
        Option::Some(j) => j,
        Option::None => {
            return Err(ParseError::mismatch_at("statistics line", p1));
        },
    };
    let name = src.segment(p1, j);
    let p2 = scan_multi_space(src, j);
    let de = scan_digits(src, p2);
    if de == p2 {
        return Err(ParseError::mismatch_at("statistics line count", p2));
    }
    let n = src.len();
    if !(de < n && src.at(de) == '×') {
        return Err(ParseError::mismatch_at("statistics line count marker", de));
    }
    proof {
        lemma_scan_while(src@, p2 as int, |c: char| is_digit(c));
    }
    let count = match parse_u32_digits(src, p2, de) {
        Option::Some(v) => v,
        Option::None => {
            return Err(ParseError::mismatch_at("statistics line count", p2));
        },
    };
    let p3 = match line_ending_at(src, de + 1) {
        Option::Some(q) => q,
        Option::None => de + 1,
    };
    Ok((StatLine { name, count }, p3))
}

/// The whole statistics block: stat lines until the 4-blank-line run, which
/// is consumed; the returned position is just after that run.
pub open spec fn spec_stat_lines(s: Seq<char>, pos: int) -> SpecParse<Seq<SpecStatLine>>
    decreases s.len() - pos when 0 <= pos <= s.len()
{
    match spec_blank_run(s, pos, 4) {
        Option::Some(p) => SpecParse::Found(Seq::empty(), p),
        Option::None => match spec_stat_line(s, pos) {
            SpecParse::Found(sl, p2) => {
                if !(pos < p2 <= s.len()) {
                    SpecParse::Mismatch(pos)
                } else {
                    match spec_stat_lines(s, p2) {
                        SpecParse::Found(rest, p3) => SpecParse::Found(seq![sl] + rest, p3),
                        SpecParse::Eof(q) => SpecParse::Eof(q),
                        SpecParse::Mismatch(q) => SpecParse::Mismatch(q),
                    }
                }
            },
            SpecParse::Eof(q) => SpecParse::Eof(q),
            SpecParse::Mismatch(q) => SpecParse::Mismatch(q),
        },
    }
}

/// Parses the statistics block starting at `pos`.
pub fn parse_stat_lines(src: &Source<'_>, pos: usize) -> (r: Result<
    (Vec<StatLine>, usize),
    ParseError,
>)
    requires
        src.wf(),
        pos <= src@.len(),
    ensures
        match spec_stat_lines(src@, pos as int) {
            SpecParse::Found(v, p) => r matches Ok((xs, q)) && xs.deep_view() == v && q == p
                && pos <= p <= src@.len(),
            SpecParse::Mismatch(m) => r matches Err(e) && e.is_mismatch_at(m),
            SpecParse::Eof(q) => r matches Err(e) && e.is_eof_at(q),
        },
{
    let mut acc: Vec<StatLine> = Vec::new();
    let mut cur = pos;
    loop
        invariant
            src.wf(),
            pos <= cur <= src@.len(),
            (match spec_stat_lines(src@, cur as int) {
                SpecParse::Found(v, p) => spec_stat_lines(src@, pos as int)
                    == SpecParse::Found(acc.deep_view() + v, p),
                SpecParse::Eof(q) => spec_stat_lines(src@, pos as int)
                    == SpecParse::<Seq<SpecStatLine>>::Eof(q),
                SpecParse::Mismatch(q) => spec_stat_lines(src@, pos as int)
                    == SpecParse::<Seq<SpecStatLine>>::Mismatch(q),
            }),
        decreases src@.len() - cur,
    {
        match blank_run(src, cur, 4) {
            Option::Some(p) => {
                proof {
                    assert(acc.deep_view() + Seq::<SpecStatLine>::empty() =~= acc.deep_view());
                }
                return Ok((acc, p));
            },
            Option::None => {},
        }
        let (sl, p2) = match parse_stat_line(src, cur) {
            Ok(x) => x,
            Err(e) => {
                return Err(e.with_frame("statistics block", cur));
            },
        };
        let ghost dv0 = acc.deep_view();
        acc.push(sl);
        proof {
            assert(acc.deep_view() =~= dv0.push(sl@));
            match spec_stat_lines(src@, p2 as int) {
                SpecParse::Found(rest, p3) => {
                    assert(dv0 + (seq![sl@] + rest) =~= dv0.push(sl@) + rest);
                },
                _ => {},
            }
        }
        cur = p2;
    }
}

} // verus!
