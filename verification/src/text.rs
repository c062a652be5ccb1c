//! Low-level text scanning: a cursor over the input's characters, character
//! classes, line reading, blank-line runs, and digit runs.

use vstd::prelude::*;
use vstd::string::*;

use crate::error::ParseError;

verus! {

/// Outcome of a grammar component at spec level: a parsed value together with
/// the position just after the consumed input, or a failure at a position.
pub ghost enum SpecParse<T> {
    /// The component matched; carries the value and the position after it.
    Found(T, int),
    /// A required line terminator was never found before the input ended.
    Eof(int),
    /// The next characters do not match the component's grammar.
    Mismatch(int),
}

/// Spaces that separate fields on one physical line.
pub open spec fn is_line_space(c: char) -> bool {
    c == ' ' || c == '\t'
}

/// Whitespace that may separate tokens across line boundaries.
pub open spec fn is_multi_space(c: char) -> bool {
    c == ' ' || c == '\t' || c == '\r' || c == '\n'
}

/// Whitespace stripped from both ends of a line's content.
pub open spec fn is_blank(c: char) -> bool {
    c == ' ' || c == '\t' || c == '\r' || c == '\n' || c == '\u{b}' || c == '\u{c}'
}

/// Decimal digit.
pub open spec fn is_digit(c: char) -> bool {
    48 <= c as u32 && c as u32 <= 57
}

/// Numeric value of a decimal digit character.
pub open spec fn digit_val(c: char) -> int {
    c as u32 - 48
}

/// Value of a sequence of decimal digit characters, most significant first.
pub open spec fn digits_value(s: Seq<char>) -> int
    decreases s.len(),
{
    if s.len() == 0 {
        0
    } else {
        digits_value(s.drop_last()) * 10 + digit_val(s.last())
    }
}

/// First position at or after `i` whose character fails `p`, or the end.
pub open spec fn scan_while(s: Seq<char>, i: int, p: spec_fn(char) -> bool) -> int
    decreases s.len() - i when 0 <= i <= s.len()
{
    if i >= s.len() {
        i
    } else if p(s[i]) {
        scan_while(s, i + 1, p)
    } else {
        i
    }
}

pub proof fn lemma_scan_while(s: Seq<char>, i: int, p: spec_fn(char) -> bool)
    requires
        0 <= i <= s.len(),
    ensures
        i <= scan_while(s, i, p) <= s.len(),
        forall|k: int| i <= k < scan_while(s, i, p) ==> p(s[k]),
        scan_while(s, i, p) < s.len() ==> !p(s[scan_while(s, i, p)]),
    decreases s.len() - i,
{
    if i < s.len() && p(s[i]) {
        lemma_scan_while(s, i + 1, p);
    }
}

pub proof fn lemma_scan_while_exact(s: Seq<char>, i: int, m: int, p: spec_fn(char) -> bool)
    requires
        0 <= i <= m <= s.len(),
        forall|k: int| i <= k < m ==> p(s[k]),
        m < s.len() ==> !p(s[m]),
    ensures
        scan_while(s, i, p) == m,
    decreases m - i,
{
    if i < m {
        lemma_scan_while_exact(s, i + 1, m, p);
    }
}

/// End of the run of line spaces starting at `i`.
pub open spec fn skip_line_space(s: Seq<char>, i: int) -> int {
    scan_while(s, i, |c: char| is_line_space(c))
}

/// End of the run of multi-line whitespace starting at `i`.
pub open spec fn skip_multi_space(s: Seq<char>, i: int) -> int {
    scan_while(s, i, |c: char| is_multi_space(c))
}

/// End of the run of decimal digits starting at `i`.
pub open spec fn digit_run_end(s: Seq<char>, i: int) -> int {
    scan_while(s, i, |c: char| is_digit(c))
}

/// First position at or after `i` holding a line terminator `'\n'`, if any.
pub open spec fn find_newline(s: Seq<char>, i: int) -> Option<int> {
    let j = scan_while(s, i, |c: char| c != '\n');
    if j < s.len() {
        Option::Some(j)
    } else {
        Option::None
    }
}

/// First position at or after `i` where two consecutive spaces begin, if any.
pub open spec fn find_double_space(s: Seq<char>, i: int) -> Option<int>
    decreases s.len() - i when 0 <= i <= s.len()
{
    if s.len() - i < 2 {
        Option::None
    } else if s[i] == ' ' && s[i + 1] == ' ' {
        Option::Some(i)
    } else {
        find_double_space(s, i + 1)
    }
}

pub proof fn lemma_find_double_space(s: Seq<char>, i: int)
    requires
        0 <= i <= s.len(),
    ensures
        find_double_space(s, i) matches Option::Some(j) ==> i <= j && j + 2 <= s.len()
            && s[j] == ' ' && s[j + 1] == ' ',
    decreases s.len() - i,
{
    if s.len() - i >= 2 && !(s[i] == ' ' && s[i + 1] == ' ') {
        lemma_find_double_space(s, i + 1);
    }
}

/// First position in `s` that is not leading blank space.
pub open spec fn trim_from(s: Seq<char>) -> int {
    scan_while(s, 0, |c: char| is_blank(c))
}

/// Position just after the last non-blank character at or before `i`.
pub open spec fn trim_to(s: Seq<char>, i: int) -> int
    decreases i when 0 <= i <= s.len()
{
    if i <= 0 {
        0
    } else if is_blank(s[i - 1]) {
        trim_to(s, i - 1)
    } else {
        i
    }
}

pub proof fn lemma_trim_to(s: Seq<char>, i: int)
    requires
        0 <= i <= s.len(),
    ensures
        0 <= trim_to(s, i) <= i,
        forall|k: int| trim_to(s, i) <= k < i ==> is_blank(s[k]),
        trim_to(s, i) > 0 ==> !is_blank(s[trim_to(s, i) - 1]),
    decreases i,
{
    if i > 0 && is_blank(s[i - 1]) {
        lemma_trim_to(s, i - 1);
    }
}

/// The line content with leading and trailing blank space removed.
pub open spec fn trimmed(s: Seq<char>) -> Seq<char> {
    let a = trim_from(s);
    let b = trim_to(s, s.len() as int);
    if a <= b {
        s.subrange(a, b)
    } else {
        Seq::empty()
    }
}

/// A line read: the trimmed content before the first `'\n'` at or after
/// `pos`, and the position just after that terminator.
pub open spec fn spec_read_line(s: Seq<char>, pos: int) -> SpecParse<Seq<char>> {
    match find_newline(s, pos) {
        Option::Some(j) => SpecParse::Found(trimmed(s.subrange(pos, j)), j + 1),
        Option::None => SpecParse::Eof(pos),
    }
}

/// One line terminator: `'\n'` or `"\r\n"`.
pub open spec fn spec_line_ending(s: Seq<char>, pos: int) -> Option<int> {
    if 0 <= pos < s.len() && s[pos] == '\n' {
        Option::Some(pos + 1)
    } else if 0 <= pos && pos + 1 < s.len() && s[pos] == '\r' && s[pos + 1] == '\n' {
        Option::Some(pos + 2)
    } else {
        Option::None
    }
}

/// Exactly `n` consecutive line terminators starting at `pos`: the position
/// just after them, or nothing (and no consumption) if fewer are present.
pub open spec fn spec_blank_run(s: Seq<char>, pos: int, n: nat) -> Option<int>
    decreases n,
{
    if n == 0 {
        Option::Some(pos)
    } else {
        match spec_line_ending(s, pos) {
            Option::Some(p) => spec_blank_run(s, p, (n - 1) as nat),
            Option::None => Option::None,
        }
    }
}

pub proof fn lemma_blank_run_bounds(s: Seq<char>, pos: int, n: nat)
    requires
        0 <= pos <= s.len(),
    ensures
        spec_blank_run(s, pos, n) matches Option::Some(p) ==> pos <= p <= s.len(),
    decreases n,
{
    if n > 0 {
        match spec_line_ending(s, pos) {
            Option::Some(p) => lemma_blank_run_bounds(s, p, (n - 1) as nat),
            Option::None => {},
        }
    }
}

/// The input under parse: the text together with its characters,
/// so that positions index characters and field extraction stays exact.
pub struct Source<'a> {
    text: &'a str,
    chars: Vec<char>,
}

impl<'a> View for Source<'a> {
    type V = Seq<char>;

    closed spec fn view(&self) -> Seq<char> {
        self.text@
    }
}

impl<'a> Source<'a> {
    pub closed spec fn wf(&self) -> bool {
        self.chars@ == self.text@
    }

    pub fn new(text: &'a str) -> (src: Self)
        ensures
            src.wf(),
            src@ == text@,
    {
        let n = text.unicode_len();
        let mut chars: Vec<char> = Vec::new();
        let mut i: usize = 0;
        while i < n
            invariant
                i <= n,
                n == text@.len(),
                chars@ =~= text@.subrange(0, i as int),
            decreases n - i,
        {
            chars.push(text.get_char(i));
            i = i + 1;
        }
        proof {
            assert(chars@ =~= text@);
        }
        Source { text, chars }
    }

    pub fn len(&self) -> (n: usize)
        requires
            self.wf(),
        ensures
            n == self@.len(),
    {
        self.chars.len()
    }

    pub fn at(&self, i: usize) -> (c: char)
        requires
            self.wf(),
            i < self@.len(),
        ensures
            c == self@[i as int],
    {
        self.chars[i]
    }

    /// The characters in `[a, b)`, as an owned string.
    pub fn segment(&self, a: usize, b: usize) -> (r: String)
        requires
            self.wf(),
            a <= b <= self@.len(),
        ensures
            r@ == self@.subrange(a as int, b as int),
    {
        self.text.substring_char(a, b).to_owned()
    }
}

/// End of the run of line spaces starting at `pos`.
pub fn scan_line_space(src: &Source<'_>, pos: usize) -> (r: usize)
    requires
        src.wf(),
        pos <= src@.len(),
    ensures
        r == skip_line_space(src@, pos as int),
        pos <= r <= src@.len(),
{
    let n = src.len();
    let mut i = pos;
    loop
        invariant
            src.wf(),
            pos <= i <= src@.len(),
            n == src@.len(),
            skip_line_space(src@, pos as int) == skip_line_space(src@, i as int),
        ensures
            i == skip_line_space(src@, pos as int),
            pos <= i <= src@.len(),
        decreases src@.len() - i,
    {
        if i == n {
            break;
        }
        let c = src.at(i);
        if !(c == ' ' || c == '\t') {
            break;
        }
        i = i + 1;
    }
    i
}

/// End of the run of multi-line whitespace starting at `pos`.
pub fn scan_multi_space(src: &Source<'_>, pos: usize) -> (r: usize)
    requires
        src.wf(),
        pos <= src@.len(),
    ensures
        r == skip_multi_space(src@, pos as int),
        pos <= r <= src@.len(),
{
    let n = src.len();
    let mut i = pos;
    loop
        invariant
            src.wf(),
            pos <= i <= src@.len(),
            n == src@.len(),
            skip_multi_space(src@, pos as int) == skip_multi_space(src@, i as int),
        ensures
            i == skip_multi_space(src@, pos as int),
            pos <= i <= src@.len(),
        decreases src@.len() - i,
    {
        if i == n {
            break;
        }
        let c = src.at(i);
        if !(c == ' ' || c == '\t' || c == '\r' || c == '\n') {
            break;
        }
        i = i + 1;
    }
    i
}

/// End of the run of decimal digits starting at `pos`.
pub fn scan_digits(src: &Source<'_>, pos: usize) -> (r: usize)
    requires
        src.wf(),
        pos <= src@.len(),
    ensures
        r == digit_run_end(src@, pos as int),
        pos <= r <= src@.len(),
{
    let n = src.len();
    let mut i = pos;
    loop
        invariant
            src.wf(),
            pos <= i <= src@.len(),
            n == src@.len(),
            digit_run_end(src@, pos as int) == digit_run_end(src@, i as int),
        ensures
            i == digit_run_end(src@, pos as int),
            pos <= i <= src@.len(),
        decreases src@.len() - i,
    {
        if i == n {
            break;
        }
        let c = src.at(i);
        let u = c as u32;
        if !(48 <= u && u <= 57) {
            break;
        }
        i = i + 1;
    }
    i
}

/// First `'\n'` at or after `pos`, if any.
pub fn find_newline_at(src: &Source<'_>, pos: usize) -> (r: Option<usize>)
    requires
        src.wf(),
        pos <= src@.len(),
    ensures
        match find_newline(src@, pos as int) {
            Option::Some(j) => r matches Option::Some(j2) && j2 == j && pos <= j < src@.len(),
            Option::None => r is None,
        },
{
    proof {
        lemma_scan_while(src@, pos as int, |c: char| c != '\n');
    }
    let n = src.len();
    let mut i = pos;
    loop
        invariant
            src.wf(),
            pos <= i <= src@.len(),
            n == src@.len(),
            scan_while(src@, pos as int, |c: char| c != '\n')
                == scan_while(src@, i as int, |c: char| c != '\n'),
        ensures
            i == scan_while(src@, pos as int, |c: char| c != '\n'),
            pos <= i <= src@.len(),
        decreases src@.len() - i,
    {
        if i == n {
            break;
        }
        let c = src.at(i);
        if c == '\n' {
            break;
        }
        i = i + 1;
    }
    if i < n {
        Option::Some(i)
    } else {
        Option::None
    }
}

/// First position at or after `pos` where two consecutive spaces begin.
pub fn find_double_space_at(src: &Source<'_>, pos: usize) -> (r: Option<usize>)
    requires
        src.wf(),
        pos <= src@.len(),
    ensures
        match find_double_space(src@, pos as int) {
            Option::Some(j) => r matches Option::Some(j2) && j2 == j && pos <= j
                && j + 2 <= src@.len(),
            Option::None => r is None,
        },
{
    let n = src.len();
    let mut i = pos;
    loop
        invariant
            src.wf(),
            pos <= i <= src@.len(),
            n == src@.len(),
            find_double_space(src@, pos as int) == find_double_space(src@, i as int),
        ensures
            pos <= i <= src@.len(),
            find_double_space(src@, pos as int) == (if n - i >= 2 {
                Option::<int>::Some(i as int)
            } else {
                Option::<int>::None
            }),
    decreases src@.len() - i,
    {
        if n - i < 2 {
            break;
        }
        let c0 = src.at(i);
        let c1 = src.at(i + 1);
        if c0 == ' ' && c1 == ' ' {
            break;
        }
        i = i + 1;
    }
    if n - i >= 2 {
        Option::Some(i)
    } else {
        Option::None
    }
}

/// The string with leading and trailing blank space removed.
pub fn trim_str(line: &str) -> (r: String)
    ensures
        r@ == trimmed(line@),
{
    let n = line.unicode_len();
    proof {
        lemma_scan_while(line@, 0, |c: char| is_blank(c));
        lemma_trim_to(line@, line@.len() as int);
    }
    let mut a: usize = 0;
    loop
        invariant
            a <= line@.len(),
            n == line@.len(),
            trim_from(line@) == scan_while(line@, a as int, |c: char| is_blank(c)),
        ensures
            a == trim_from(line@),
            a <= line@.len(),
        decreases line@.len() - a,
    {
        if a == n {
            break;
        }
        let c = line.get_char(a);
        if !(c == ' ' || c == '\t' || c == '\r' || c == '\n' || c == '\u{b}' || c == '\u{c}') {
            break;
        }
        a = a + 1;
    }
    let mut b: usize = n;
    loop
        invariant
            b <= line@.len(),
            n == line@.len(),
            trim_to(line@, line@.len() as int) == trim_to(line@, b as int),
        ensures
            b == trim_to(line@, line@.len() as int),
            b <= line@.len(),
        decreases b,
    {
        if b == 0 {
            break;
        }
        let c = line.get_char(b - 1);
        if !(c == ' ' || c == '\t' || c == '\r' || c == '\n' || c == '\u{b}' || c == '\u{c}') {
            break;
        }
        b = b - 1;
    }
    if a <= b {
        line.substring_char(a, b).to_owned()
    } else {
        proof {
            reveal_strlit("");
            assert(""@ =~= Seq::<char>::empty());
        }
        String::from_str("")
    }
}

/// Reads one line: the trimmed content before the next `'\n'`, consuming the
/// terminator. Fails when no terminator remains before the end of input.
pub fn read_line(src: &Source<'_>, pos: usize) -> (r: Result<(String, usize), ParseError>)
    requires
        src.wf(),
        pos <= src@.len(),
    ensures
        match spec_read_line(src@, pos as int) {
            SpecParse::Found(l, p) => r matches Ok((s2, p2)) && s2@ == l && p2 == p
                && pos < p <= src@.len(),
            SpecParse::Eof(q) => r matches Err(e) && e.is_eof_at(q),
            SpecParse::Mismatch(_) => false,
        },
{
    let _n = src.len();
    match find_newline_at(src, pos) {
        Option::Some(j) => {
            let line = src.segment(pos, j);
            let t = trim_str(line.as_str());
            Ok((t, j + 1))
        },
        Option::None => Err(ParseError::eof_at("line", pos)),
    }
}

/// One line terminator (`'\n'` or `"\r\n"`) at `pos`, if present.
pub fn line_ending_at(src: &Source<'_>, pos: usize) -> (r: Option<usize>)
    requires
        src.wf(),
        pos <= src@.len(),
    ensures
        match spec_line_ending(src@, pos as int) {
            Option::Some(p) => r matches Option::Some(p2) && p2 == p && pos < p <= src@.len(),
            Option::None => r is None,
        },
{
    let n = src.len();
    if pos < n && src.at(pos) == '\n' {
        Option::Some(pos + 1)
    } else if pos < n && src.at(pos) == '\r' && pos + 1 < n && src.at(pos + 1) == '\n' {
        Option::Some(pos + 2)
    } else {
        Option::None
    }
}

/// Exactly `n` consecutive line terminators at `pos`: the position after
/// them, or nothing if fewer are present.
pub fn blank_run(src: &Source<'_>, pos: usize, n: usize) -> (r: Option<usize>)
    requires
        src.wf(),
        pos <= src@.len(),
    ensures
        match spec_blank_run(src@, pos as int, n as nat) {
            Option::Some(p) => r matches Option::Some(p2) && p2 == p && pos <= p <= src@.len(),
            Option::None => r is None,
        },
    decreases n,
{
    if n == 0 {
        Option::Some(pos)
    } else {
        match line_ending_at(src, pos) {
            Option::Some(p) => blank_run(src, p, n - 1),
            Option::None => Option::None,
        }
    }
}

pub proof fn lemma_digits_value_extend(s: Seq<char>, a: int, i: int)
    requires
        0 <= a <= i < s.len(),
    ensures
        digits_value(s.subrange(a, i + 1)) == digits_value(s.subrange(a, i)) * 10
            + digit_val(s[i]),
{
    let w = s.subrange(a, i + 1);
    assert(w.drop_last() =~= s.subrange(a, i));
    assert(w.last() == s[i]);
}

pub proof fn lemma_digits_value_nonneg(s: Seq<char>)
    requires
        forall|k: int| 0 <= k < s.len() ==> is_digit(s[k]),
    ensures
        digits_value(s) >= 0,
    decreases s.len(),
{
    if s.len() > 0 {
        lemma_digits_value_nonneg(s.drop_last());
    }
}

pub proof fn lemma_digits_value_prefix_le(s: Seq<char>, a: int, i: int, b: int)
    requires
        0 <= a <= i <= b <= s.len(),
        forall|k: int| a <= k < b ==> is_digit(s[k]),
    ensures
        digits_value(s.subrange(a, i)) <= digits_value(s.subrange(a, b)),
    decreases b - i,
{
    if i < b {
        lemma_digits_value_extend(s, a, i);
        lemma_digits_value_nonneg(s.subrange(a, i));
        assert(forall|k: int| 0 <= k < s.subrange(a, i).len() ==> is_digit(s.subrange(a, i)[k]));
        lemma_digits_value_prefix_le(s, a, i + 1, b);
        assert(digits_value(s.subrange(a, i)) * 10 >= digits_value(s.subrange(a, i))) by {
            lemma_digits_value_nonneg(s.subrange(a, i));
        }
    } else {
        assert(s.subrange(a, i) =~= s.subrange(a, b));
    }
}

/// Value of the digit run in `[a, b)` as a `u32`; nothing when the value
/// does not fit.
pub fn parse_u32_digits(src: &Source<'_>, a: usize, b: usize) -> (r: Option<u32>)
    requires
        src.wf(),
        a <= b <= src@.len(),
        forall|k: int| a <= k < b ==> is_digit(src@[k]),
    ensures
        match r {
            Option::Some(v) => v as int == digits_value(src@.subrange(a as int, b as int)),
            Option::None => digits_value(src@.subrange(a as int, b as int)) > u32::MAX as int,
        },
{
    let mut acc: u32 = 0;
    let mut i = a;
    proof {
        assert(src@.subrange(a as int, a as int) =~= Seq::<char>::empty());
    }
    while i < b
        invariant
            src.wf(),
            a <= i <= b <= src@.len(),
            forall|k: int| a <= k < b ==> is_digit(src@[k]),
            acc as int == digits_value(src@.subrange(a as int, i as int)),
        decreases b - i,
    {
        let c = src.at(i);
        let d: u32 = (c as u32) - 48;
        proof {
            lemma_digits_value_extend(src@, a as int, i as int);
        }
        if acc > (u32::MAX - d) / 10 {
            proof {
                assert(acc as int * 10 + d as int > u32::MAX as int) by (nonlinear_arith)
                    requires
                        acc > (u32::MAX - d) / 10,
                        d <= 9,
                ;
                lemma_digits_value_prefix_le(src@, a as int, i as int + 1, b as int);
            }
            return Option::None;
        }
        proof {
            assert(acc as int * 10 + d as int <= u32::MAX as int) by (nonlinear_arith)
                requires
                    acc <= (u32::MAX - d) / 10,
                    d <= 9,
            ;
        }
        acc = acc * 10 + d;
        i = i + 1;
    }
    proof {
        assert(src@.subrange(a as int, i as int) =~= src@.subrange(a as int, b as int));
    }
    Option::Some(acc)
}

} // verus!
