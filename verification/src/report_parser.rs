//! The parser for player reports posted in the reports forum.
//!
//! A report opens with three numbered lines:
//!
//! ```text
//! 1) <player id>
//! 2) <violated rule, a decimal number such as 4.1>
//! 3) <reason>
//! ```
//!
//! Each line is one or more ASCII digits, `)`, any spaces or tabs, then the
//! line's text up to a line break (`\n` or `\r\n`), which must be there. What
//! follows the third line is ignored. A text without a `\r` or `\n` in it
//! becomes the field; the rule field holds the decimal number only where the
//! text reads as one.
use vstd::prelude::*;
use crate::decimal::{DecimalValue, parse_decimal, spec_parse_decimal};
use crate::text::{chars_of, string_from_range};

verus! {

pub open spec fn is_ascii_digit(c: char) -> bool {
    '0' <= c && c <= '9'
}

pub open spec fn is_space_or_tab(c: char) -> bool {
    c == ' ' || c == '\t'
}

pub open spec fn is_line_break_char(c: char) -> bool {
    c == '\r' || c == '\n'
}

/// The first index at or after `i` whose character does not satisfy `p` (or
/// the length).
pub open spec fn skip_while(s: Seq<char>, i: int, p: spec_fn(char) -> bool) -> int
    decreases s.len() - i,
{
    if 0 <= i < s.len() && p(s[i]) {
        skip_while(s, i + 1, p)
    } else {
        i
    }
}

/// The first index at or after `i` that holds no ASCII digit (or the length).
pub open spec fn skip_digits(s: Seq<char>, i: int) -> int {
    skip_while(s, i, |c: char| is_ascii_digit(c))
}

/// The first index at or after `i` that holds neither a space nor a tab.
pub open spec fn skip_spaces(s: Seq<char>, i: int) -> int {
    skip_while(s, i, |c: char| is_space_or_tab(c))
}

/// The first index at or after `i` that holds `\r` or `\n` (or the length).
pub open spec fn skip_line_text(s: Seq<char>, i: int) -> int {
    skip_while(s, i, |c: char| !is_line_break_char(c))
}

/// A numbered line that starts at `i`: digits, `)`, spaces or tabs, the text,
/// and a line break. Gives where the text starts and ends and where the next
/// line starts.
pub open spec fn numbered_line(s: Seq<char>, i: int) -> Option<(int, int, int)> {
    let d = skip_digits(s, i);
    if d == i || d >= s.len() || s[d] != ')' {
        None
    } else {
        let t0 = skip_spaces(s, d + 1);
        let t1 = skip_line_text(s, t0);
        if t1 < s.len() && s[t1] == '\n' {
            Some((t0, t1, t1 + 1))
        } else if t1 + 1 < s.len() && s[t1] == '\r' && s[t1 + 1] == '\n' {
            Some((t0, t1, t1 + 2))
        } else {
            None
        }
    }
}

/// The three fields of a report, as read from the text.
pub struct ParsedReportView {
    pub id: Option<Seq<char>>,
    pub rule: Option<DecimalValue>,
    pub reason: Option<Seq<char>>,
}

/// The positions of the three numbered lines at the start of `s`.
pub open spec fn report_lines(s: Seq<char>) -> Option<((int, int), (int, int), (int, int), int)> {
    match numbered_line(s, 0) {
        None => None,
        Some((a0, a1, n1)) => match numbered_line(s, n1) {
            None => None,
            Some((b0, b1, n2)) => match numbered_line(s, n2) {
                None => None,
                Some((c0, c1, n3)) => Some(((a0, a1), (b0, b1), (c0, c1), n3)),
            },
        },
    }
}

/// The report that three numbered lines at the start of `s` hold.
pub open spec fn structured_report(s: Seq<char>) -> Option<ParsedReportView> {
    match report_lines(s) {
        None => None,
        Some(((a0, a1), (b0, b1), (c0, c1), _)) => Some(
            ParsedReportView {
                id: Some(s.subrange(a0, a1)),
                rule: spec_parse_decimal(s.subrange(b0, b1)),
                reason: Some(s.subrange(c0, c1)),
            },
        ),
    }
}

/// The report with no field known.
pub open spec fn empty_report() -> ParsedReportView {
    ParsedReportView { id: None, rule: None, reason: None }
}

/// What a report text yields: its three numbered lines, or nothing at all.
pub open spec fn report_of(s: Seq<char>) -> ParsedReportView {
    match structured_report(s) {
        Some(r) => r,
        None => empty_report(),
    }
}

/// The fields read from a report.
#[derive(Debug, Clone)]
pub struct ParsedReport {
    pub id: Option<String>,
    pub rule: Option<DecimalValue>,
    pub reason: Option<String>,
}

impl View for ParsedReport {
    type V = ParsedReportView;

    open spec fn view(&self) -> ParsedReportView {
        ParsedReportView { id: self.id.deep_view(), rule: self.rule, reason: self.reason.deep_view() }
    }
}

impl Default for ParsedReport {
    fn default() -> (r: Self)
        ensures
            r@ == empty_report(),
    {
        ParsedReport { id: None, rule: None, reason: None }
    }
}

fn is_digit_char(c: char) -> (r: bool)
    ensures
        r == is_ascii_digit(c),
{
    '0' <= c && c <= '9'
}

/// Reads one numbered line at `i`: where its text starts and ends and where
/// the next line starts.
fn line_parser(s: &Vec<char>, i: usize) -> (r: Option<(usize, usize, usize)>)
    requires
        i <= s.len(),
    ensures
        match r {
            Some((a, b, n)) => numbered_line(s@, i as int) == Some((a as int, b as int, n as int)),
            None => numbered_line(s@, i as int) is None,
        },
        r matches Some((a, b, n)) ==> i < a <= b < n <= s.len(),
{
    let len = s.len();
    let mut d = i;
    while d < len && is_digit_char(s[d])
        invariant
            i <= d <= len == s.len(),
            skip_digits(s@, i as int) == skip_digits(s@, d as int),
        decreases len - d,
    {
        d = d + 1;
    }
    if d == i || d >= len || s[d] != ')' {
        return None;
    }
    let mut t0 = d + 1;
    while t0 < len && (s[t0] == ' ' || s[t0] == '\t')
        invariant
            d < t0 <= len == s.len(),
            skip_spaces(s@, d + 1) == skip_spaces(s@, t0 as int),
        decreases len - t0,
    {
        t0 = t0 + 1;
    }
    let mut t1 = t0;
    while t1 < len && !(s[t1] == '\r' || s[t1] == '\n')
        invariant
            t0 <= t1 <= len == s.len(),
            skip_line_text(s@, t0 as int) == skip_line_text(s@, t1 as int),
        decreases len - t1,
    {
        t1 = t1 + 1;
    }
    if t1 < len && s[t1] == '\n' {
        Some((t0, t1, t1 + 1))
    } else if t1 < len && s[t1] == '\r' && t1 + 1 < len && s[t1 + 1] == '\n' {
        Some((t0, t1, t1 + 2))
    } else {
        None
    }
}

/// Reads the three numbered lines at the start of `input`, if they are there.
pub fn structured_parser(input: &str) -> (r: Option<ParsedReport>)
    ensures
        match r {
            Some(p) => structured_report(input@) == Some(p@),
            None => structured_report(input@) is None,
        },
{
    let s = chars_of(input);
    let (a0, a1, n1) = match line_parser(&s, 0) {
        Some(l) => l,
        None => return None,
    };
    let (b0, b1, n2) = match line_parser(&s, n1) {
        Some(l) => l,
        None => return None,
    };
    let (c0, c1, _n3) = match line_parser(&s, n2) {
        Some(l) => l,
        None => return None,
    };
    let id = string_from_range(&s, a0, a1);
    let rule_text = string_from_range(&s, b0, b1);
    let reason = string_from_range(&s, c0, c1);
    let rule = parse_decimal(rule_text.as_str());
    Some(ParsedReport { id: Some(id), rule, reason: Some(reason) })
}

/// Reads a report: the three numbered lines at its start, or, where they are
/// not all there, a report with no field known.
pub fn multi_parser(input: &str) -> (r: ParsedReport)
    ensures
        r@ == report_of(input@),
{
    if let Some(output) = structured_parser(input) {
        output
    } else {
        ParsedReport::default()
    }
}

proof fn lemma_skip_while_bounds(s: Seq<char>, i: int, p: spec_fn(char) -> bool)
    requires
        0 <= i <= s.len(),
    ensures
        i <= skip_while(s, i, p) <= s.len(),
        forall|m: int| i <= m < skip_while(s, i, p) ==> p(#[trigger] s[m]),
    decreases s.len() - i,
{
    if i < s.len() && p(s[i]) {
        lemma_skip_while_bounds(s, i + 1, p);
    }
}

proof fn lemma_skip_while_extend(s: Seq<char>, t: Seq<char>, i: int, p: spec_fn(char) -> bool)
    requires
        0 <= i <= s.len(),
        skip_while(s, i, p) < s.len(),
    ensures
        skip_while(s + t, i, p) == skip_while(s, i, p),
    decreases s.len() - i,
{
    assert((s + t)[i] == s[i]);
    if p(s[i]) {
        lemma_skip_while_extend(s, t, i + 1, p);
    }
}

proof fn lemma_skip_while_exact(s: Seq<char>, i: int, k: int, p: spec_fn(char) -> bool)
    requires
        0 <= i <= k <= s.len(),
        forall|m: int| i <= m < k ==> p(#[trigger] s[m]),
        k < s.len() ==> !p(s[k]),
    ensures
        skip_while(s, i, p) == k,
    decreases k - i,
{
    if i < k {
        lemma_skip_while_exact(s, i + 1, k, p);
    }
}

proof fn lemma_numbered_line_bounds(s: Seq<char>, i: int)
    requires
        0 <= i <= s.len(),
        numbered_line(s, i) is Some,
    ensures
        ({
            let (a, b, n) = numbered_line(s, i)->0;
            i < a <= b < n <= s.len()
        }),
{
    let d = skip_digits(s, i);
    lemma_skip_while_bounds(s, i, |c: char| is_ascii_digit(c));
    let t0 = skip_spaces(s, d + 1);
    lemma_skip_while_bounds(s, d + 1, |c: char| is_space_or_tab(c));
    lemma_skip_while_bounds(s, t0, |c: char| !is_line_break_char(c));
}

proof fn lemma_numbered_line_extend(s: Seq<char>, t: Seq<char>, i: int)
    requires
        0 <= i <= s.len(),
        numbered_line(s, i) is Some,
    ensures
        numbered_line(s + t, i) == numbered_line(s, i),
{
    lemma_numbered_line_bounds(s, i);
    let x = s + t;
    let d = skip_digits(s, i);
    lemma_skip_while_bounds(s, i, |c: char| is_ascii_digit(c));
    lemma_skip_while_extend(s, t, i, |c: char| is_ascii_digit(c));
    assert(x[d] == s[d]);
    let t0 = skip_spaces(s, d + 1);
    lemma_skip_while_bounds(s, d + 1, |c: char| is_space_or_tab(c));
    let t1 = skip_line_text(s, t0);
    lemma_skip_while_bounds(s, t0, |c: char| !is_line_break_char(c));
    lemma_skip_while_extend(s, t, d + 1, |c: char| is_space_or_tab(c));
    lemma_skip_while_extend(s, t, t0, |c: char| !is_line_break_char(c));
    assert(x[t1] == s[t1]);
    if t1 + 1 < s.len() {
        assert(x[t1 + 1] == s[t1 + 1]);
    }
}

/// A report reads the same whatever text follows its three numbered lines.
pub proof fn law_report_ignores_what_follows(s: Seq<char>, t: Seq<char>)
    requires
        structured_report(s) is Some,
    ensures
        structured_report(s + t) == structured_report(s),
        report_of(s + t) == report_of(s),
{
    let x = s + t;
    let (a0, a1, n1) = numbered_line(s, 0)->0;
    lemma_numbered_line_extend(s, t, 0);
    lemma_numbered_line_bounds(s, 0);
    let (b0, b1, n2) = numbered_line(s, n1)->0;
    lemma_numbered_line_extend(s, t, n1);
    lemma_numbered_line_bounds(s, n1);
    let (c0, c1, n3) = numbered_line(s, n2)->0;
    lemma_numbered_line_extend(s, t, n2);
    lemma_numbered_line_bounds(s, n2);
    assert(x.subrange(a0, a1) =~= s.subrange(a0, a1));
    assert(x.subrange(b0, b1) =~= s.subrange(b0, b1));
    assert(x.subrange(c0, c1) =~= s.subrange(c0, c1));
}

/// Either the three numbered lines were read, and then the player and the
/// reason are known, or no field is known: a rule is never known without the
/// player and the reason.
pub proof fn law_report_fields_known_together(s: Seq<char>)
    ensures
        report_of(s).id is Some <==> report_of(s).reason is Some,
        report_of(s).rule is Some ==> report_of(s).id is Some,
{
}

/// Whether a text can stand as the text of a numbered line and read back
/// unchanged: no line break in it, and no space or tab at its start.
pub open spec fn plain_line_text(t: Seq<char>) -> bool {
    &&& forall|i: int| 0 <= i < t.len() ==> !is_line_break_char(#[trigger] t[i])
    &&& t.len() > 0 ==> !is_space_or_tab(t[0])
}

/// A numbered line: the digit `d`, `)`, a space, the text and `\n`.
pub open spec fn numbered_line_text(d: char, t: Seq<char>) -> Seq<char> {
    seq![d, ')', ' '] + t + seq!['\n']
}

/// A report written as three numbered lines.
pub open spec fn report_text(id: Seq<char>, rule: Seq<char>, reason: Seq<char>) -> Seq<char> {
    numbered_line_text('1', id) + numbered_line_text('2', rule) + numbered_line_text('3', reason)
}

proof fn lemma_line_in_context(pre: Seq<char>, d: char, t: Seq<char>, post: Seq<char>)
    requires
        is_ascii_digit(d),
        plain_line_text(t),
    ensures
        numbered_line(pre + numbered_line_text(d, t) + post, pre.len() as int) == Some(
            (pre.len() + 3int, pre.len() + 3 + t.len() as int, pre.len() + 4 + t.len() as int),
        ),
{
    let l = numbered_line_text(d, t);
    let x = pre + l + post;
    let i = pre.len() as int;
    assert forall|k: int| 0 <= k < l.len() implies x[i + k] == l[k] by {}
    assert(x[i] == d);
    assert(x[i + 1] == ')');
    lemma_skip_while_exact(x, i, i + 1, |c: char| is_ascii_digit(c));
    assert(x[i + 2] == ' ');
    if t.len() > 0 {
        assert(x[i + 3] == t[0]);
    } else {
        assert(x[i + 3] == '\n');
    }
    lemma_skip_while_exact(x, i + 2, i + 3, |c: char| is_space_or_tab(c));
    assert forall|m: int| i + 3 <= m < i + 3 + t.len() implies !is_line_break_char(#[trigger] x[m]) by {
        assert(x[m] == l[m - i]);
        assert(l[m - i] == t[m - i - 3]);
    }
    assert(x[i + 3 + t.len()] == '\n');
    lemma_skip_while_exact(x, i + 3, i + 3 + t.len(), |c: char| !is_line_break_char(c));
}

/// A report written as three numbered lines reads back as the player id, the
/// rule number (as `rust_decimal` reads it) and the reason that were written.
pub proof fn law_report_text_round_trip(id: Seq<char>, rule: Seq<char>, reason: Seq<char>)
    requires
        plain_line_text(id),
        plain_line_text(rule),
        plain_line_text(reason),
    ensures
        report_of(report_text(id, rule, reason)) == (ParsedReportView {
            id: Some(id),
            rule: spec_parse_decimal(rule),
            reason: Some(reason),
        }),
{
    let l1 = numbered_line_text('1', id);
    let l2 = numbered_line_text('2', rule);
    let l3 = numbered_line_text('3', reason);
    let x = report_text(id, rule, reason);
    assert(x =~= Seq::<char>::empty() + l1 + (l2 + l3));
    lemma_line_in_context(Seq::<char>::empty(), '1', id, l2 + l3);
    assert(x =~= l1 + l2 + l3);
    lemma_line_in_context(l1, '2', rule, l3);
    assert(x =~= (l1 + l2) + l3 + Seq::<char>::empty());
    lemma_line_in_context(l1 + l2, '3', reason, Seq::<char>::empty());
    let n1: int = id.len() as int + 4;
    let n2: int = n1 + rule.len() + 4;
    assert(x.subrange(3, 3 + id.len() as int) =~= id);
    assert(x.subrange(n1 + 3, n1 + 3 + rule.len()) =~= rule);
    assert(x.subrange(n2 + 3, n2 + 3 + reason.len()) =~= reason);
}

} // verus!
