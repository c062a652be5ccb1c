//! Top-level orchestration: header skip, statistics block, then day entries
//! repeated until the end of input, with every grammar violation turned into
//! one diagnostic error value.

use vstd::prelude::*;
use vstd::string::*;

use crate::entry::{parse_day_entry, spec_day_entry, DayEntry, SpecDayEntry};
use crate::error::ParseError;
use crate::stats::{parse_stat_lines, spec_stat_lines, SpecStatLine, StatLine};
use crate::text::{blank_run, read_line, spec_blank_run, spec_read_line, Source, SpecParse};

verus! {

/// The single root result: the usage counters and the day entries, in the
/// order they occur in the source text.
#[derive(Clone, Debug, PartialEq)]
pub struct ParsedPdf {
    pub stats: Vec<StatLine>,
    pub day_entries: Vec<DayEntry>,
}

/// Mathematical model of a parse result.
pub ghost struct SpecParsedPdf {
    pub stats: Seq<SpecStatLine>,
    pub day_entries: Seq<SpecDayEntry>,
}

impl View for ParsedPdf {
    type V = SpecParsedPdf;

    open spec fn view(&self) -> SpecParsedPdf {
        SpecParsedPdf {
            stats: self.stats.deep_view(),
            day_entries: self.day_entries.deep_view(),
        }
    }
}

/// The header: lines discarded up to and including the first 3-blank-line
/// run; the result is the position just after that run.
pub open spec fn spec_skip_header(s: Seq<char>, pos: int) -> SpecParse<()>
    decreases s.len() - pos when 0 <= pos <= s.len()
{
    match spec_blank_run(s, pos, 3) {
        Option::Some(p) => SpecParse::Found((), p),
        Option::None => match spec_read_line(s, pos) {
            SpecParse::Found(_, p2) => {
                if !(pos < p2 <= s.len()) {
                    SpecParse::Mismatch(pos)
                } else {
                    spec_skip_header(s, p2)
                }
            },
            SpecParse::Eof(q) => SpecParse::Eof(q),
            SpecParse::Mismatch(q) => SpecParse::Mismatch(q),
        },
    }
}

/// Skips the header starting at `pos`.
pub fn parse_header(src: &Source<'_>, pos: usize) -> (r: Result<usize, ParseError>)
    requires
        src.wf(),
        pos <= src@.len(),
    ensures
        match spec_skip_header(src@, pos as int) {
            SpecParse::Found(_, p) => r matches Ok(q) && q == p && pos <= p <= src@.len(),
            SpecParse::Eof(q) => r matches Err(e) && e.is_eof_at(q),
            SpecParse::Mismatch(m) => r matches Err(e) && e.is_mismatch_at(m),
        },
{
    let mut cur = pos;
    loop
        invariant
            src.wf(),
            pos <= cur <= src@.len(),
            spec_skip_header(src@, pos as int) == spec_skip_header(src@, cur as int),
        decreases src@.len() - cur,
    {
        match blank_run(src, cur, 3) {
            Option::Some(p) => {
                return Ok(p);
            },
            Option::None => {},
        }
        let (_, p2) = match read_line(src, cur) {
            Ok(x) => x,
            Err(e) => {
                return Err(e.with_frame("header", cur));
            },
        };
        cur = p2;
    }
}

/// The day entries: repeated until the end of input, which is tried before
/// each new entry attempt.
pub open spec fn spec_day_entries(s: Seq<char>, pos: int) -> SpecParse<Seq<SpecDayEntry>>
    decreases s.len() - pos when 0 <= pos <= s.len()
{
    if pos == s.len() {
        SpecParse::Found(Seq::empty(), pos)
    } else {
        match spec_day_entry(s, pos) {
            SpecParse::Found(e, p2) => {
                if !(pos < p2 <= s.len()) {
                    SpecParse::Mismatch(pos)
                } else {
                    match spec_day_entries(s, p2) {
                        SpecParse::Found(rest, p3) => SpecParse::Found(seq![e] + rest, p3),
                        SpecParse::Eof(q) => SpecParse::Eof(q),
                        SpecParse::Mismatch(q) => SpecParse::Mismatch(q),
                    }
                }
            },
            SpecParse::Eof(q) => SpecParse::Eof(q),
            SpecParse::Mismatch(q) => SpecParse::Mismatch(q),
        }
    }
}

/// Parses day entries from `pos` to the end of input.
pub fn parse_day_entries(src: &Source<'_>, pos: usize) -> (r: Result<
    (Vec<DayEntry>, usize),
    ParseError,
>)
    requires
        src.wf(),
        pos <= src@.len(),
    ensures
        match spec_day_entries(src@, pos as int) {
            SpecParse::Found(v, p) => r matches Ok((xs, q)) && xs.deep_view() == v && q == p
                && p == src@.len(),
            SpecParse::Mismatch(m) => r matches Err(e) && e.is_mismatch_at(m),
            SpecParse::Eof(q) => r matches Err(e) && e.is_eof_at(q),
        },
{
    let n = src.len();
    let mut acc: Vec<DayEntry> = Vec::new();
    let mut cur = pos;
    loop
        invariant
            src.wf(),
            pos <= cur <= src@.len(),
            n == src@.len(),
            (match spec_day_entries(src@, cur as int) {
                SpecParse::Found(v, p) => spec_day_entries(src@, pos as int)
                    == SpecParse::Found(acc.deep_view() + v, p),
                SpecParse::Eof(q) => spec_day_entries(src@, pos as int)
                    == SpecParse::<Seq<SpecDayEntry>>::Eof(q),
                SpecParse::Mismatch(q) => spec_day_entries(src@, pos as int)
                    == SpecParse::<Seq<SpecDayEntry>>::Mismatch(q),
            }),
        decreases src@.len() - cur,
    {
        if cur == n {
            proof {
                assert(acc.deep_view() + Seq::<SpecDayEntry>::empty() =~= acc.deep_view());
            }
            return Ok((acc, cur));
        }
        let (e, p2) = match parse_day_entry(src, cur) {
            Ok(x) => x,
            Err(err) => {
                return Err(err.with_frame("day entries", cur));
            },
        };
        let ghost dv0 = acc.deep_view();
        acc.push(e);
        proof {
            assert(acc.deep_view() =~= dv0.push(e@));
            match spec_day_entries(src@, p2 as int) {
                SpecParse::Found(rest, p3) => {
                    assert(dv0 + (seq![e@] + rest) =~= dv0.push(e@) + rest);
                },
                _ => {},
            }
        }
        cur = p2;
    }
}

/// The whole document: header, statistics block, then day entries until the
/// end of input.
pub open spec fn spec_parse_document(s: Seq<char>) -> SpecParse<SpecParsedPdf> {
    match spec_skip_header(s, 0) {
        SpecParse::Found(_, p1) => match spec_stat_lines(s, p1) {
            SpecParse::Found(stats, p2) => match spec_day_entries(s, p2) {
                SpecParse::Found(day_entries, p3) => SpecParse::Found(
                    SpecParsedPdf { stats, day_entries },
                    p3,
                ),
                SpecParse::Eof(q) => SpecParse::Eof(q),
                SpecParse::Mismatch(q) => SpecParse::Mismatch(q),
            },
            SpecParse::Eof(q) => SpecParse::Eof(q),
            SpecParse::Mismatch(q) => SpecParse::Mismatch(q),
        },
        SpecParse::Eof(q) => SpecParse::Eof(q),
        SpecParse::Mismatch(q) => SpecParse::Mismatch(q),
    }
}

/// Parses a whole layout-text dump. Succeeds exactly when the text matches
/// the document grammar; any violation yields one diagnostic error, never an
/// extraction failure.
pub fn parse_text(text: &str) -> (r: Result<ParsedPdf, ParseError>)
    ensures
        match spec_parse_document(text@) {
            SpecParse::Found(v, _) => r matches Ok(out) && out@ == v,
            SpecParse::Eof(q) => r matches Err(e) && e.is_eof_at(q),
            SpecParse::Mismatch(q) => r matches Err(e) && e.is_mismatch_at(q),
        },
        r matches Err(e) ==> !(e matches ParseError::ExtractionFailure { .. }),
{
    let src = Source::new(text);
    let p1 = match parse_header(&src, 0) {
        Ok(p) => p,
        Err(e) => {
            return Err(e.with_frame("document", 0));
        },
    };
    let (stats, p2) = match parse_stat_lines(&src, p1) {
        Ok(x) => x,
        Err(e) => {
            return Err(e.with_frame("document", 0));
        },
    };
    let (day_entries, _) = match parse_day_entries(&src, p2) {
        Ok(x) => x,
        Err(e) => {
            return Err(e.with_frame("document", 0));
        },
    };
    Ok(ParsedPdf { stats, day_entries })
}

/// Concatenation of a sequence of page texts.
pub open spec fn concat_pages(pages: Seq<Seq<char>>) -> Seq<char>
    decreases pages.len(),
{
    if pages.len() == 0 {
        Seq::empty()
    } else {
        concat_pages(pages.drop_last()) + pages.last()
    }
}

/// Joins the pages handed back by the text-extraction collaborator into the
/// one string the document grammar is read from.
pub fn join_pages(pages: &Vec<String>) -> (r: String)
    ensures
        r@ == concat_pages(pages.deep_view()),
{
    let mut out = String::new();
    let n = pages.len();
    let mut i: usize = 0;
    proof {
        assert(pages.deep_view().subrange(0, 0) =~= Seq::<Seq<char>>::empty());
    }
    while i < n
        invariant
            i <= n,
            n == pages@.len(),
            out@ == concat_pages(pages.deep_view().subrange(0, i as int)),
        decreases n - i,
    {
        out.append(pages[i].as_str());
        proof {
            let ghost pv = pages.deep_view();
            assert(pv.subrange(0, i as int + 1).drop_last() =~= pv.subrange(0, i as int));
            assert(pv.subrange(0, i as int + 1).last() == pv[i as int]);
        }
        i = i + 1;
    }
    proof {
        assert(pages.deep_view().subrange(0, n as int) =~= pages.deep_view());
    }
    out
}

/// Takes the outcome of the external text extraction and finishes the work:
/// an extraction failure is reported as such, never as a grammar error, and
/// extracted pages are joined and parsed as one text.
pub fn parse_extraction(outcome: Result<Vec<String>, String>) -> (r: Result<ParsedPdf, ParseError>)
    ensures
        (outcome matches Err(m) ==> r matches Err(e)
            && (e matches ParseError::ExtractionFailure { message } && message@ == m@)),
        (outcome matches Ok(pages) ==> {
            let parsed = spec_parse_document(concat_pages(pages.deep_view()));
            match parsed {
                SpecParse::Found(v, _) => r matches Ok(out) && out@ == v,
                SpecParse::Eof(q) => r matches Err(e) && e.is_eof_at(q),
                SpecParse::Mismatch(q) => r matches Err(e) && e.is_mismatch_at(q),
            }
        }),
{
    match outcome {
        Ok(pages) => {
            let text = join_pages(&pages);
            parse_text(text.as_str())
        },
        Err(message) => Err(ParseError::ExtractionFailure { message }),
    }
}

} // verus!
