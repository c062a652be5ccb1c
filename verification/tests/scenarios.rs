//! Scenario tests: single components on small inputs, edge cases of the
//! layout grammar, and every failure variant.

use daylio_parser::document::{parse_extraction, parse_text};
use daylio_parser::entry::{page_number_at, parse_day_entry, parse_note_body, DayEntry};
use daylio_parser::error::ParseError;
use daylio_parser::stats::{parse_stat_line, StatLine};
use daylio_parser::text::Source;

#[test]
fn stats_block_then_end_of_input() {
    let txt = "Title\n1/1/2022 - 1/2/2022\n\n\n\nrad                     15\u{d7}\n\n\n\n\n";
    let parsed = parse_text(txt).unwrap();
    assert_eq!(
        parsed.stats,
        vec![StatLine::new("rad".to_owned(), 15)]
    );
    assert_eq!(parsed.day_entries, Vec::<DayEntry>::new());
}

#[test]
fn stat_line_name_and_count() {
    let txt = "Tag 21 NUD               9\u{d7}";
    let src = Source::new(txt);
    let (sl, after) = parse_stat_line(&src, 0).unwrap();
    assert_eq!(sl, StatLine::new("Tag 21 NUD".to_owned(), 9));
    assert_eq!(after, txt.chars().count());
}

#[test]
fn single_day_entry() {
    let txt = "August 2, 2022              RAD\nTuesday 11 00 PM\n\nNote title 0 LKH\nNote 0 LHF\n\n\n";
    let src = Source::new(txt);
    let (e, after) = parse_day_entry(&src, 0).unwrap();
    assert_eq!(
        e,
        DayEntry {
            date: "August 2, 2022".to_owned(),
            day_hour: "Tuesday 11 00 PM".to_owned(),
            mood: "RAD".to_owned(),
            note: vec!["Note title 0 LKH".to_owned(), "Note 0 LHF".to_owned()],
        }
    );
    assert_eq!(after, txt.chars().count());
}

#[test]
fn page_number_dropped_from_note() {
    let txt = "May 3, 2022              GOOD\nTuesday 6 31 PM\n\nfirst content line\n   12\nsecond content line\n\n\n";
    let src = Source::new(txt);
    let (e, _) = parse_day_entry(&src, 0).unwrap();
    assert_eq!(
        e.note,
        vec!["first content line".to_owned(), "second content line".to_owned()]
    );
}

#[test]
fn truncated_input_reinterprets_trailing_lines() {
    let mut txt = String::new();
    txt.push_str("Title\n1/1/2022 - 1/2/2022\n\n\n\n");
    txt.push_str("rad  1\u{d7}\n\n\n\n\n");
    txt.push_str("May 1, 2022              GOOD\nSunday 1 00 PM\n\nNote A\n\n\n");
    txt.push_str("                    Note title X\nNote body Y\n");
    let parsed = parse_text(&txt).unwrap();
    assert_eq!(
        parsed.day_entries,
        vec![
            DayEntry {
                date: "May 1, 2022".to_owned(),
                day_hour: "Sunday 1 00 PM".to_owned(),
                mood: "GOOD".to_owned(),
                note: vec!["Note A".to_owned()],
            },
            DayEntry {
                date: "".to_owned(),
                day_hour: "Note body Y".to_owned(),
                mood: "Note title X".to_owned(),
                note: vec![],
            },
        ]
    );
}

#[test]
fn duplicate_entries_kept_in_source_order() {
    let mut txt = String::new();
    txt.push_str("Title\n1/1/2022 - 1/2/2022\n\n\n\n");
    txt.push_str("rad  1\u{d7}\n\n\n\n\n");
    let entry = "May 1, 2022              GOOD\nSunday 1 00 PM\n\nNote A\n\n\n";
    txt.push_str(entry);
    txt.push_str(entry);
    txt.push_str("May 2, 2022              BAD\nMonday 2 00 PM\n\nNote B\n\n\n");
    let parsed = parse_text(&txt).unwrap();
    let first = DayEntry {
        date: "May 1, 2022".to_owned(),
        day_hour: "Sunday 1 00 PM".to_owned(),
        mood: "GOOD".to_owned(),
        note: vec!["Note A".to_owned()],
    };
    let third = DayEntry {
        date: "May 2, 2022".to_owned(),
        day_hour: "Monday 2 00 PM".to_owned(),
        mood: "BAD".to_owned(),
        note: vec!["Note B".to_owned()],
    };
    assert_eq!(parsed.day_entries, vec![first.clone(), first, third]);
}

#[test]
fn extraction_failure_is_never_a_grammar_error() {
    let r = parse_extraction(Err("could not read PDF file".to_owned()));
    match r {
        Err(ParseError::ExtractionFailure { message }) => {
            assert_eq!(message, "could not read PDF file");
        }
        other => panic!("expected an extraction failure, got {:?}", other),
    }
}

#[test]
fn extraction_pages_are_joined_before_parsing() {
    let page1 = "Title\n1/1/2022 - 1/2/2022\n\n\n\nrad    ".to_owned();
    let page2 = "             15\u{d7}\n\n\n\n\n".to_owned();
    let joined = format!("{}{}", page1, page2);
    let from_pages = parse_extraction(Ok(vec![page1, page2])).unwrap();
    let from_text = parse_text(&joined).unwrap();
    assert_eq!(from_pages, from_text);
    assert_eq!(from_pages.stats, vec![StatLine::new("rad".to_owned(), 15)]);
}

#[test]
fn empty_input_is_end_of_input() {
    match parse_text("") {
        Err(ParseError::UnexpectedEndOfInput { pos, .. }) => assert_eq!(pos, 0),
        other => panic!("expected unexpected end of input, got {:?}", other),
    }
}

#[test]
fn missing_header_run_is_end_of_input() {
    let r = parse_text("a title line with no blank run\n");
    match r {
        Err(ParseError::UnexpectedEndOfInput { pos, .. }) => {
            assert_eq!(pos, "a title line with no blank run\n".chars().count());
        }
        other => panic!("expected unexpected end of input, got {:?}", other),
    }
}

#[test]
fn garbage_after_stats_is_a_grammar_mismatch() {
    let r = parse_text("T\n\n\n\nx  1\u{d7}\n\n\n\n\nzzz\n");
    match r {
        Err(e @ ParseError::GrammarMismatch { .. }) => {
            let msg = e.render();
            assert!(msg.starts_with("grammar mismatch at position "));
            assert!(msg.contains("day entry date"));
        }
        other => panic!("expected a grammar mismatch, got {:?}", other),
    }
}

#[test]
fn count_at_integer_width_limit() {
    let src_ok = Source::new("big  4294967295\u{d7}");
    let (sl, _) = parse_stat_line(&src_ok, 0).unwrap();
    assert_eq!(sl.count, 4294967295);

    let txt = "big  4294967296\u{d7}";
    let src_over = Source::new(txt);
    match parse_stat_line(&src_over, 0) {
        Err(ParseError::GrammarMismatch { pos, .. }) => assert_eq!(pos, 5),
        other => panic!("expected a grammar mismatch, got {:?}", other),
    }
}

#[test]
fn leading_zeros_keep_exact_count() {
    let src = Source::new("pad  007\u{d7}");
    let (sl, _) = parse_stat_line(&src, 0).unwrap();
    assert_eq!(sl, StatLine::new("pad".to_owned(), 7));
}

#[test]
fn page_number_line_recognized() {
    let src = Source::new("   12\nrest");
    assert_eq!(page_number_at(&src, 0), Some(6));
    let not_page = Source::new("  12a\n");
    assert_eq!(page_number_at(&not_page, 0), None);
}

#[test]
fn trailing_space_defeats_page_number_rule() {
    // "12 \n" is not a page-number line (trailing space before the
    // terminator), so its trimmed content is kept in the note.
    let src = Source::new("12 \n\n\n");
    let (note, _) = parse_note_body(&src, 0).unwrap();
    assert_eq!(note, vec!["12".to_owned()]);
}

#[test]
fn note_keeps_single_blank_line_as_empty_entry() {
    // One lone blank line inside a note is not a 2-blank-line terminator:
    // it is read as an empty content line.
    let src = Source::new("alpha\n\nbeta\n\n\n");
    let (note, after) = parse_note_body(&src, 0).unwrap();
    assert_eq!(note, vec!["alpha".to_owned(), "".to_owned(), "beta".to_owned()]);
    assert_eq!(after, "alpha\n\nbeta\n\n\n".chars().count());
}

#[test]
fn crlf_terminators_are_accepted() {
    let txt = "Title\r\n\r\n\r\n\r\nrad  15\u{d7}\r\n\r\n\r\n\r\n\r\n";
    let parsed = parse_text(txt).unwrap();
    assert_eq!(parsed.stats, vec![StatLine::new("rad".to_owned(), 15)]);
    assert_eq!(parsed.day_entries.len(), 0);
}

#[test]
fn rendered_end_of_input_message_carries_trace() {
    let r = parse_text("x\n");
    let e = r.unwrap_err();
    let msg = e.render();
    assert_eq!(
        msg,
        "unexpected end of input at position 2\n  in line at position 2\n  in header at position 2\n  in document at position 0\n"
    );
}
