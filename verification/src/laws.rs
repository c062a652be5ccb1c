//! Laws the grammar guarantees, stated and proved over the spec-level parse
//! functions that the executable parsers are verified against.

use vstd::prelude::*;

use crate::document::spec_day_entries;
use crate::entry::{lemma_note_body_bounds, spec_day_entry, spec_note_body, spec_note_line,
    spec_page_number};
use crate::stats::{spec_stat_line, spec_stat_lines};
use crate::text::{
    digit_run_end, digits_value, find_double_space, is_blank, is_digit,
    is_line_space, is_multi_space, lemma_blank_run_bounds, lemma_digits_value_nonneg,
    lemma_find_double_space, lemma_scan_while, lemma_scan_while_exact, lemma_trim_to, scan_while,
    skip_line_space, skip_multi_space, spec_blank_run, spec_line_ending, spec_read_line, trim_from,
    trim_to, trimmed, SpecParse,
};

verus! {

/// Law: a recognized stat line's count is the exact decimal value of the
/// digit run that immediately precedes the `'×'` marker, and that value fits
/// the count's integer width.
pub proof fn lemma_stat_count_exact(s: Seq<char>, pos: int)
    requires
        0 <= pos <= s.len(),
    ensures
        spec_stat_line(s, pos) matches SpecParse::Found(sl, p) ==> exists|a: int, b: int|
            pos < a < b < p <= s.len()
            && (forall|k: int| a <= k < b ==> is_digit(#[trigger] s[k]))
            && !is_digit(s[a - 1])
            && s[b] == '×'
            && 0 <= #[trigger] digits_value(s.subrange(a, b)) <= u32::MAX as int
            && sl.count as int == digits_value(s.subrange(a, b)),
{
    if let SpecParse::Found(sl, p) = spec_stat_line(s, pos) {
        lemma_scan_while(s, pos, |c: char| is_multi_space(c));
        let p1 = skip_multi_space(s, pos);
        lemma_find_double_space(s, p1);
        let j = find_double_space(s, p1)->Some_0;
        lemma_scan_while(s, j, |c: char| is_multi_space(c));
        let a = skip_multi_space(s, j);
        lemma_scan_while(s, a, |c: char| is_digit(c));
        let de = digit_run_end(s, a);
        assert(is_multi_space(s[a - 1]));
        assert(!is_digit(s[a - 1]));
        let digits = s.subrange(a, de);
        assert(forall|k: int| 0 <= k < digits.len() ==> is_digit(#[trigger] digits[k]));
        lemma_digits_value_nonneg(digits);
        assert(pos < a && a < de && de < p <= s.len()
            && (forall|k: int| a <= k < de ==> is_digit(#[trigger] s[k]))
            && !is_digit(s[a - 1])
            && s[de] == '×'
            && 0 <= digits_value(s.subrange(a, de)) <= u32::MAX as int
            && sl.count as int == digits_value(s.subrange(a, de)));
    }
}

/// Law: a successful statistics block consumes input up to, and the
/// 4-blank-line run immediately after, the last stat line: the returned
/// position is exactly the position after that run.
pub proof fn lemma_stat_block_ends_at_blank_run(s: Seq<char>, pos: int)
    requires
        0 <= pos <= s.len(),
    ensures
        spec_stat_lines(s, pos) matches SpecParse::Found(_, p) ==> exists|m: int|
            pos <= m <= p && #[trigger] spec_blank_run(s, m, 4) == Option::Some(p),
    decreases s.len() - pos,
{
    match spec_blank_run(s, pos, 4) {
        Option::Some(p) => {
            lemma_blank_run_bounds(s, pos, 4);
            assert(spec_blank_run(s, pos, 4) == Option::Some(p));
        },
        Option::None => {
            match spec_stat_line(s, pos) {
                SpecParse::Found(_, p2) => {
                    if pos < p2 <= s.len() {
                        lemma_stat_block_ends_at_blank_run(s, p2);
                    }
                },
                _ => {},
            }
        },
    }
}

/// Law: a recognized stat line always advances the cursor and stays within
/// the input, so the statistics block's defensive no-progress branch never
/// fires: the block's behaviour is exactly the repeated grammar.
pub proof fn lemma_stat_line_advances(s: Seq<char>, pos: int)
    requires
        0 <= pos <= s.len(),
    ensures
        spec_stat_line(s, pos) matches SpecParse::Found(_, p) ==> pos < p <= s.len(),
{
    lemma_scan_while(s, pos, |c: char| is_multi_space(c));
    let p1 = skip_multi_space(s, pos);
    lemma_find_double_space(s, p1);
    match find_double_space(s, p1) {
        Option::Some(j) => {
            lemma_scan_while(s, j, |c: char| is_multi_space(c));
            let p2 = skip_multi_space(s, j);
            lemma_scan_while(s, p2, |c: char| is_digit(c));
        },
        Option::None => {},
    }
}

/// Law: a recognized day entry always advances the cursor and stays within
/// the input, so the repeated day-entry parse's defensive no-progress branch
/// never fires.
pub proof fn lemma_day_entry_advances(s: Seq<char>, pos: int)
    requires
        0 <= pos <= s.len(),
    ensures
        spec_day_entry(s, pos) matches SpecParse::Found(_, p) ==> pos < p <= s.len(),
{
    lemma_find_double_space(s, pos);
    match find_double_space(s, pos) {
        Option::Some(j) => {
            lemma_scan_while(s, j, |c: char| is_line_space(c));
            let p1 = skip_line_space(s, j);
            match spec_read_line(s, p1) {
                SpecParse::Found(_, p2) => {
                    lemma_scan_while(s, p1, |c: char| c != '\n');
                    match spec_read_line(s, p2) {
                        SpecParse::Found(_, p3) => {
                            lemma_scan_while(s, p2, |c: char| c != '\n');
                            let p4 = match spec_line_ending(s, p3) {
                                Option::Some(q) => q,
                                Option::None => p3,
                            };
                            lemma_note_body_bounds(s, p4);
                        },
                        _ => {},
                    }
                },
                _ => {},
            }
        },
        Option::None => {},
    }
}

/// A line that, as stored in a note, looks like a page number: nonempty and
/// made of decimal digits only (stored note lines are already trimmed).
pub open spec fn is_page_number_text(l: Seq<char>) -> bool {
    l.len() > 0 && forall|k: int| 0 <= k < l.len() ==> is_digit(#[trigger] l[k])
}

/// Layout text as the extraction collaborator produces it: no vertical-tab
/// or form-feed characters, `'\r'` only as part of a `"\r\n"` terminator,
/// and no space or tab immediately before a line terminator.
pub open spec fn plain_layout(s: Seq<char>) -> bool {
    &&& forall|k: int| 0 <= k < s.len() ==> #[trigger] s[k] != '\u{b}' && s[k] != '\u{c}'
    &&& forall|k: int| 0 <= k < s.len() && #[trigger] s[k] == '\r' ==> k + 1 < s.len()
        && s[k + 1] == '\n'
    &&& forall|k: int| 0 <= k + 1 < s.len() && (#[trigger] s[k + 1] == '\n' || s[k + 1] == '\r')
        ==> !is_line_space(s[k])
}

/// In plain layout text, a line whose trimmed content is digits-only is
/// always consumed by the page-number rule, so it is never kept.
proof fn lemma_kept_line_not_digits(s: Seq<char>, pos: int)
    requires
        0 <= pos <= s.len(),
        plain_layout(s),
        spec_page_number(s, pos) is None,
    ensures
        spec_read_line(s, pos) matches SpecParse::Found(l, _) ==> !is_page_number_text(l),
{
    lemma_scan_while(s, pos, |c: char| c != '\n');
    let j = scan_while(s, pos, |c: char| c != '\n');
    if j < s.len() {
        let raw = s.subrange(pos, j);
        let a = trim_from(raw);
        let b = trim_to(raw, raw.len() as int);
        lemma_scan_while(raw, 0, |c: char| is_blank(c));
        lemma_trim_to(raw, raw.len() as int);
        let l = trimmed(raw);
        if is_page_number_text(l) {
            assert(a < b);
            assert(l == raw.subrange(a, b));
            // Leading blanks are spaces or tabs: '\n' cannot occur before `j`,
            // and a '\r' there would have to be followed by '\n'.
            assert forall|k: int| 0 <= k < a implies is_line_space(raw[k]) by {
                assert(raw[k] == s[pos + k]);
                assert(is_blank(raw[k]));
                assert(s[pos + k] != '\n');
                if s[pos + k] == '\r' {
                    assert(s[pos + k + 1] == '\n');
                    assert(pos + k + 1 < j);
                    assert(s[pos + k + 1] != '\n');
                }
            }
            assert(is_digit(l[0]));
            assert(raw[a] == s[pos + a]);
            assert(!is_line_space(s[pos + a]));
            assert forall|k: int| pos <= k < pos + a implies is_line_space(s[k]) by {
                assert(raw[k - pos] == s[k]);
            }
            lemma_scan_while_exact(s, pos, pos + a, |c: char| is_line_space(c));
            assert(skip_line_space(s, pos) == pos + a);
            // The trimmed content's digits all sit in `[pos + a, pos + b)`.
            assert(forall|k: int| pos + a <= k < pos + b ==> is_digit(#[trigger] s[k])) by {
                assert(forall|k: int| 0 <= k < l.len() ==> is_digit(#[trigger] l[k]));
                assert(forall|k: int| pos + a <= k < pos + b ==> #[trigger] s[k] == l[k - pos - a]);
            }
            if b == raw.len() {
                // The digits run right up to the terminator.
                assert(!is_digit(s[j]));
                lemma_scan_while_exact(s, pos + a, j, |c: char| is_digit(c));
                assert(digit_run_end(s, pos + a) == j);
                assert(spec_line_ending(s, j) == Option::Some(j + 1));
                assert(spec_page_number(s, pos) is Some);
                assert(false);
            } else {
                // Trailing blank space can only be a '\r' directly before the
                // terminator; anything else contradicts plain layout.
                assert(is_blank(raw[raw.len() - 1]));
                assert(raw[raw.len() - 1] == s[j - 1]);
                assert(!is_line_space(s[j - 1]));
                assert(s[j - 1] != '\n');
                assert(s[j - 1] == '\r');
                if b < raw.len() - 1 {
                    assert(is_blank(raw[raw.len() - 2]));
                    assert(raw[raw.len() - 2] == s[j - 2]);
                    assert(s[j - 2] != '\n');
                    if s[j - 2] == '\r' {
                        assert(s[j - 1] == '\n');
                    }
                    assert(is_line_space(s[j - 2]));
                    assert(false);
                }
                assert(b == raw.len() - 1);
                assert(!is_digit(s[pos + b]));
                lemma_scan_while_exact(s, pos + a, pos + b, |c: char| is_digit(c));
                assert(digit_run_end(s, pos + a) == pos + b);
                assert(pos + b == j - 1);
                assert(spec_line_ending(s, j - 1) == Option::Some(j + 1));
                assert(spec_page_number(s, pos) is Some);
                assert(false);
            }
        }
    }
}

/// Law: in plain layout text, a note body never keeps a line that matches
/// the page-number pattern: every such line is consumed and dropped.
pub proof fn lemma_note_body_keeps_no_page_lines(s: Seq<char>, pos: int)
    requires
        0 <= pos <= s.len(),
        plain_layout(s),
    ensures
        spec_note_body(s, pos) matches SpecParse::Found(ls, _) ==> forall|i: int|
            0 <= i < ls.len() ==> !is_page_number_text(#[trigger] ls[i]),
    decreases s.len() - pos,
{
    match spec_blank_run(s, pos, 2) {
        Option::Some(_) => {},
        Option::None => {
            match spec_note_line(s, pos) {
                SpecParse::Found(kept, p2) => {
                    if pos < p2 <= s.len() {
                        lemma_note_body_keeps_no_page_lines(s, p2);
                        match kept {
                            Option::Some(_) => {
                                lemma_kept_line_not_digits(s, pos);
                            },
                            Option::None => {},
                        }
                    }
                },
                _ => {},
            }
        },
    }
}

/// Law: every line a note body keeps was read at a position where the
/// page-number rule did not match: a source line matching the page-number
/// pattern is always dropped, whatever the input.
pub proof fn lemma_note_lines_come_from_non_page_lines(s: Seq<char>, pos: int)
    requires
        0 <= pos <= s.len(),
    ensures
        spec_note_body(s, pos) matches SpecParse::Found(ls, _) ==> forall|i: int|
            #![trigger ls[i]]
            0 <= i < ls.len() ==> exists|q: int|
                pos <= q
                && #[trigger] spec_page_number(s, q) is None
                && (spec_read_line(s, q) matches SpecParse::Found(l, _) && l == ls[i]),
    decreases s.len() - pos,
{
    match spec_blank_run(s, pos, 2) {
        Option::Some(_) => {},
        Option::None => {
            if let SpecParse::Found(kept, p2) = spec_note_line(s, pos) {
                if pos < p2 <= s.len() {
                    lemma_note_lines_come_from_non_page_lines(s, p2);
                    if let SpecParse::Found(rest, _) = spec_note_body(s, p2) {
                        match kept {
                            Option::Some(l0) => {
                                let ls = seq![l0] + rest;
                                assert forall|i: int| #![trigger ls[i]]
                                    0 <= i < ls.len() implies exists|q: int|
                                    pos <= q
                                    && #[trigger] spec_page_number(s, q) is None
                                    && (spec_read_line(s, q) matches SpecParse::Found(l, _)
                                        && l == ls[i]) by {
                                    if i == 0 {
                                        assert(ls[0] == l0);
                                        assert(spec_page_number(s, pos) is None);
                                        assert(spec_read_line(s, pos)
                                            matches SpecParse::Found(l, _) && l == ls[0]);
                                    } else {
                                        assert(ls[i] == rest[i - 1]);
                                    }
                                }
                            },
                            Option::None => {
                                assert forall|i: int| #![trigger rest[i]]
                                    0 <= i < rest.len() implies exists|q: int|
                                    pos <= q
                                    && #[trigger] spec_page_number(s, q) is None
                                    && (spec_read_line(s, q) matches SpecParse::Found(l, _)
                                        && l == rest[i]) by {
                                    assert(0 <= i < rest.len());
                                }
                            },
                        }
                    }
                }
            }
        },
    }
}

/// Law: for every day entry, the note never contains a line matching the
/// page-number pattern, provided the text is plain layout.
pub proof fn lemma_day_entry_note_has_no_page_lines(s: Seq<char>, pos: int)
    requires
        0 <= pos <= s.len(),
        plain_layout(s),
    ensures
        spec_day_entry(s, pos) matches SpecParse::Found(e, _) ==> forall|i: int|
            0 <= i < e.note.len() ==> !is_page_number_text(#[trigger] e.note[i]),
{
    match find_double_space(s, pos) {
        Option::None => {},
        Option::Some(j) => {
            lemma_find_double_space(s, pos);
            lemma_scan_while(s, j, |c: char| is_line_space(c));
            let p1 = skip_line_space(s, j);
            match spec_read_line(s, p1) {
                SpecParse::Found(_, p2) => {
                    lemma_scan_while(s, p1, |c: char| c != '\n');
                    match spec_read_line(s, p2) {
                        SpecParse::Found(_, p3) => {
                            lemma_scan_while(s, p2, |c: char| c != '\n');
                            let p4 = match spec_line_ending(s, p3) {
                                Option::Some(q) => q,
                                Option::None => p3,
                            };
                            lemma_note_body_keeps_no_page_lines(s, p4);
                        },
                        _ => {},
                    }
                },
                _ => {},
            }
        },
    }
}

/// Law: the same, over every entry of the repeated day-entry parse.
pub proof fn lemma_day_entries_notes_have_no_page_lines(s: Seq<char>, pos: int)
    requires
        0 <= pos <= s.len(),
        plain_layout(s),
    ensures
        spec_day_entries(s, pos) matches SpecParse::Found(es, _) ==> forall|i: int, k: int|
            0 <= i < es.len() && 0 <= k < es[i].note.len()
                ==> !is_page_number_text(#[trigger] es[i].note[k]),
    decreases s.len() - pos,
{
    if pos != s.len() {
        match spec_day_entry(s, pos) {
            SpecParse::Found(e, p2) => {
                if pos < p2 <= s.len() {
                    lemma_day_entry_note_has_no_page_lines(s, pos);
                    lemma_day_entries_notes_have_no_page_lines(s, p2);
                    if let SpecParse::Found(rest, _) = spec_day_entries(s, p2) {
                        let es = seq![e] + rest;
                        assert forall|i: int, k: int|
                            0 <= i < es.len() && 0 <= k < es[i].note.len()
                                implies !is_page_number_text(#[trigger] es[i].note[k]) by {
                            if i == 0 {
                                assert(es[i] == e);
                            } else {
                                assert(es[i] == rest[i - 1]);
                            }
                        }
                    }
                }
            },
            _ => {},
        }
    }
}

/// Law: day entries appear in the parsed sequence in exactly the order they
/// occur in the source text: the entry parsed at the current position heads
/// the list, and the rest is the parse of the entries after it, with nothing
/// resorted, dropped or deduplicated.
pub proof fn lemma_day_entries_in_source_order(s: Seq<char>, pos: int)
    requires
        0 <= pos <= s.len(),
    ensures
        (spec_day_entries(s, pos) matches SpecParse::Found(es, p) && es.len() > 0)
            ==> exists|m: int|
                pos < m <= s.len()
                && #[trigger] spec_day_entry(s, pos)
                    == SpecParse::Found(spec_day_entries(s, pos)->Found_0[0], m)
                && spec_day_entries(s, m)
                    == SpecParse::Found(
                        spec_day_entries(s, pos)->Found_0.drop_first(),
                        spec_day_entries(s, pos)->Found_1,
                    ),
{
    if let SpecParse::Found(es, p) = spec_day_entries(s, pos) {
        if es.len() > 0 {
            assert(pos != s.len());
            match spec_day_entry(s, pos) {
                SpecParse::Found(e, p2) => {
                    if pos < p2 <= s.len() {
                        if let SpecParse::Found(rest, p3) = spec_day_entries(s, p2) {
                            assert(es == seq![e] + rest);
                            assert(es[0] == e);
                            assert(es.drop_first() =~= rest);
                            assert(spec_day_entry(s, pos) == SpecParse::Found(es[0], p2));
                            assert(spec_day_entries(s, p2) == SpecParse::Found(es.drop_first(), p));
                        }
                    }
                },
                _ => {},
            }
        }
    }
}

} // verus!
