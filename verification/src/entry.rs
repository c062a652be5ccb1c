//! One journal day entry: a date and mood sharing a physical line, a day/time
//! line, and an optional note body read greedily until a 2-blank-line run,
//! with page-number artifact lines dropped.

use vstd::prelude::*;

use crate::error::ParseError;
use crate::text::{
    digit_run_end, find_double_space, find_double_space_at, line_ending_at, read_line,
    scan_digits, scan_line_space, skip_line_space, spec_blank_run, spec_line_ending,
    spec_read_line, blank_run, Source, SpecParse,
};

verus! {

/// One journal record. The fields are opaque strings: `date` is the verbatim
/// text before the first two-space run, `mood` and `day_hour` are trimmed
/// line contents, and `note` is the ordered list of kept note lines.
#[derive(Clone, Debug, PartialEq)]
pub struct DayEntry {
    pub date: String,
    pub day_hour: String,
    pub mood: String,
    pub note: Vec<String>,
}

/// Mathematical model of a day entry.
pub ghost struct SpecDayEntry {
    pub date: Seq<char>,
    pub day_hour: Seq<char>,
    pub mood: Seq<char>,
    pub note: Seq<Seq<char>>,
}

impl View for DayEntry {
    type V = SpecDayEntry;

    open spec fn view(&self) -> SpecDayEntry {
        SpecDayEntry {
            date: self.date@,
            day_hour: self.day_hour@,
            mood: self.mood@,
            note: self.note.deep_view(),
        }
    }
}

impl DeepView for DayEntry {
    type V = SpecDayEntry;

    open spec fn deep_view(&self) -> SpecDayEntry {
        self.view()
    }
}

/// A page-break artifact: optional line spaces, one or more digits, and a
/// line terminator, which the run consumes.
pub open spec fn spec_page_number(s: Seq<char>, pos: int) -> Option<int> {
    let p1 = skip_line_space(s, pos);
    let de = digit_run_end(s, p1);
    if de > p1 {
        spec_line_ending(s, de)
    } else {
        Option::None
    }
}

/// Recognizes a page-number line at `pos`.
pub fn page_number_at(src: &Source<'_>, pos: usize) -> (r: Option<usize>)
    requires
        src.wf(),
        pos <= src@.len(),
    ensures
        match spec_page_number(src@, pos as int) {
            Option::Some(p) => r matches Option::Some(p2) && p2 == p && pos < p <= src@.len(),
            Option::None => r is None,
        },
{
    let p1 = scan_line_space(src, pos);
    let de = scan_digits(src, p1);
    if de > p1 {
        line_ending_at(src, de)
    } else {
        Option::None
    }
}

/// One note-body line: a page number (dropped) or kept trimmed content.
pub open spec fn spec_note_line(s: Seq<char>, pos: int) -> SpecParse<Option<Seq<char>>> {
    match spec_page_number(s, pos) {
        Option::Some(p) => SpecParse::Found(Option::None, p),
        Option::None => match spec_read_line(s, pos) {
            SpecParse::Found(l, p) => SpecParse::Found(Option::Some(l), p),
            SpecParse::Eof(q) => SpecParse::Eof(q),
            SpecParse::Mismatch(q) => SpecParse::Mismatch(q),
        },
    }
}

/// The note body: lines classified page-number-or-content, read greedily
/// until the 2-blank-line run, which is consumed.
pub open spec fn spec_note_body(s: Seq<char>, pos: int) -> SpecParse<Seq<Seq<char>>>
    decreases s.len() - pos when 0 <= pos <= s.len()
{
    match spec_blank_run(s, pos, 2) {
        Option::Some(p) => SpecParse::Found(Seq::empty(), p),
        Option::None => match spec_note_line(s, pos) {
            SpecParse::Found(kept, p2) => {
                if !(pos < p2 <= s.len()) {
                    SpecParse::Mismatch(pos)
                } else {
                    match spec_note_body(s, p2) {
                        SpecParse::Found(rest, p3) => SpecParse::Found(
                            match kept {
                                Option::Some(l) => seq![l] + rest,
                                Option::None => rest,
                            },
                            p3,
                        ),
                        SpecParse::Eof(q) => SpecParse::Eof(q),
                        SpecParse::Mismatch(q) => SpecParse::Mismatch(q),
                    }
                }
            },
            SpecParse::Eof(q) => SpecParse::Eof(q),
            SpecParse::Mismatch(q) => SpecParse::Mismatch(q),
        },
    }
}

/// Parses the note body starting at `pos`.
pub fn parse_note_body(src: &Source<'_>, pos: usize) -> (r: Result<
    (Vec<String>, usize),
    ParseError,
>)
    requires
        src.wf(),
        pos <= src@.len(),
    ensures
        match spec_note_body(src@, pos as int) {
            SpecParse::Found(v, p) => r matches Ok((xs, q)) && xs.deep_view() == v && q == p
                && pos <= p <= src@.len(),
            SpecParse::Mismatch(m) => r matches Err(e) && e.is_mismatch_at(m),
            SpecParse::Eof(q) => r matches Err(e) && e.is_eof_at(q),
        },
{
    let mut acc: Vec<String> = Vec::new();
    let mut cur = pos;
    loop
        invariant
            src.wf(),
            pos <= cur <= src@.len(),
            (match spec_note_body(src@, cur as int) {
                SpecParse::Found(v, p) => spec_note_body(src@, pos as int)
                    == SpecParse::Found(acc.deep_view() + v, p),
                SpecParse::Eof(q) => spec_note_body(src@, pos as int)
                    == SpecParse::<Seq<Seq<char>>>::Eof(q),
                SpecParse::Mismatch(q) => spec_note_body(src@, pos as int)
                    == SpecParse::<Seq<Seq<char>>>::Mismatch(q),
            }),
        decreases src@.len() - cur,
    {
        match blank_run(src, cur, 2) {
            Option::Some(p) => {
                proof {
                    assert(acc.deep_view() + Seq::<Seq<char>>::empty() =~= acc.deep_view());
                }
                return Ok((acc, p));
            },
            Option::None => {},
        }
        match page_number_at(src, cur) {
            Option::Some(p2) => {
                cur = p2;
            },
            Option::None => {
                let (line, p2) = match read_line(src, cur) {
                    Ok(x) => x,
                    Err(e) => {
                        return Err(e.with_frame("note body", cur));
                    },
                };
                let ghost dv0 = acc.deep_view();
                acc.push(line);
                proof {
                    assert(acc.deep_view() =~= dv0.push(line@));
                    match spec_note_body(src@, p2 as int) {
                        SpecParse::Found(rest, p3) => {
                            assert(dv0 + (seq![line@] + rest) =~= dv0.push(line@) + rest);
                        },
                        _ => {},
                    }
                }
                cur = p2;
            },
        }
    }
}

/// One day entry: the date runs to the first two-space run on the line, the
/// mood is the rest of that physical line, the day/time is the next line,
/// then an optional blank line and an optional note body. A missing note
/// body leaves `note` empty and consumes nothing further.
pub open spec fn spec_day_entry(s: Seq<char>, pos: int) -> SpecParse<SpecDayEntry> {
    match find_double_space(s, pos) {
        Option::None => SpecParse::Mismatch(pos),
        Option::Some(j) => {
            let date = s.subrange(pos, j);
            let p1 = skip_line_space(s, j);
            match spec_read_line(s, p1) {
                SpecParse::Eof(q) => SpecParse::Eof(q),
                SpecParse::Mismatch(q) => SpecParse::Mismatch(q),
                SpecParse::Found(mood, p2) => match spec_read_line(s, p2) {
                    SpecParse::Eof(q) => SpecParse::Eof(q),
                    SpecParse::Mismatch(q) => SpecParse::Mismatch(q),
                    SpecParse::Found(day_hour, p3) => {
                        let p4 = match spec_line_ending(s, p3) {
                            Option::Some(q) => q,
                            Option::None => p3,
                        };
                        match spec_note_body(s, p4) {
                            SpecParse::Found(note, p5) => SpecParse::Found(
                                SpecDayEntry { date, day_hour, mood, note },
                                p5,
                            ),
                            _ => SpecParse::Found(
                                SpecDayEntry { date, day_hour, mood, note: Seq::empty() },
                                p4,
                            ),
                        }
                    },
                },
            }
        },
    }
}

pub proof fn lemma_note_body_bounds(s: Seq<char>, pos: int)
    requires
        0 <= pos <= s.len(),
    ensures
        spec_note_body(s, pos) matches SpecParse::Found(_, p) ==> pos <= p <= s.len(),
    decreases s.len() - pos,
{
    crate::text::lemma_blank_run_bounds(s, pos, 2);
    match spec_blank_run(s, pos, 2) {
        Option::Some(_) => {},
        Option::None => match spec_note_line(s, pos) {
            SpecParse::Found(_, p2) => {
                if pos < p2 <= s.len() {
                    lemma_note_body_bounds(s, p2);
                }
            },
            _ => {},
        },
    }
}

/// Parses one day entry starting at `pos`.
pub fn parse_day_entry(src: &Source<'_>, pos: usize) -> (r: Result<(DayEntry, usize), ParseError>)
    requires
        src.wf(),
        pos <= src@.len(),
    ensures
        match spec_day_entry(src@, pos as int) {
            SpecParse::Found(e, p) => r matches Ok((x, q)) && x@ == e && q == p
                && pos < p <= src@.len(),
            SpecParse::Mismatch(m) => r matches Err(e) && e.is_mismatch_at(m),
            SpecParse::Eof(q) => r matches Err(e) && e.is_eof_at(q),
        },
{
    let j = match find_double_space_at(src, pos) {
        Option::Some(j) => j,
        Option::None => {
            return Err(ParseError::mismatch_at("day entry date", pos));
        },
    };
    let date = src.segment(pos, j);
    let p1 = scan_line_space(src, j);
    let (mood, p2) = match read_line(src, p1) {
        Ok(x) => x,
        Err(e) => {
            return Err(e.with_frame("day entry mood", p1));
        },
    };
    let (day_hour, p3) = match read_line(src, p2) {
        Ok(x) => x,
        Err(e) => {
            return Err(e.with_frame("day entry day and hour", p2));
        },
    };
    let p4 = match line_ending_at(src, p3) {
        Option::Some(q) => q,
        Option::None => p3,
    };
    match parse_note_body(src, p4) {
        Ok((note, p5)) => Ok((DayEntry { date, day_hour, mood, note }, p5)),
        Err(_) => {
            let note: Vec<String> = Vec::new();
            proof {
                assert(note.deep_view() =~= Seq::<Seq<char>>::empty());
            }
            Ok((DayEntry { date, day_hour, mood, note }, p4))
        },
    }
}

} // verus!
