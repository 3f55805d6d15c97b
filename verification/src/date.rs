//! Genealogical (fuzzy) dates: parse and format GEDCOM-style strings, and
//! derive the sort key and best-estimate components stored alongside an
//! event's date.
//!
//! A date is a single, possibly modified, possibly partial point (`ABT 1850`,
//! `Mar 1887`, `12 Mar 1887`) or a closed range (`BET 1850 AND 1860`). The
//! GEDCOM form ([`GenealogicalDate::format_gedcom`]) and the long human form
//! ([`GenealogicalDate::to_display_string`]) both parse back to the same date.

use vstd::prelude::*;
use crate::error::CoreError;
use crate::num::{digit_char, int_text, lemma_parse_int_text, nat_digits, parse_i32, parse_i32_chars, push_int};
use crate::text::{
    all_ws, chars_eq, lemma_words_join, is_digit, is_ws, upper_char, chars_of, debug_quoted, debug_str, is_alpha, is_word, join_words, push_chars,
    push_str, split_words, string_from_chars, to_upper, upper, views, words, lemma_join_small,
};

verus! {

/// How certain or precise a date is.
#[derive(Debug, Clone, Copy, PartialEq, Eq, Hash, Structural)]
pub enum DateModifier {
    /// An observed, exact (if partial) date.
    Exact,
    /// `about` / `circa` (`ABT`).
    About,
    /// `before` (`BEF`) — an open upper bound.
    Before,
    /// `after` (`AFT`) — an open lower bound.
    After,
    /// `between` (`BET … AND …`) — the modifier a range reports.
    Between,
    /// `estimated` (`EST`).
    Estimated,
    /// `calculated` (`CAL`).
    Calculated,
}

impl DateModifier {
    /// The TEXT code stored in the `events.date_modifier` column.
    pub open spec fn code(self) -> Seq<char> {
        match self {
            DateModifier::Exact => "exact"@,
            DateModifier::About => "about"@,
            DateModifier::Before => "before"@,
            DateModifier::After => "after"@,
            DateModifier::Between => "between"@,
            DateModifier::Estimated => "estimated"@,
            DateModifier::Calculated => "calculated"@,
        }
    }

    /// The TEXT code stored in the `events.date_modifier` column.
    pub fn as_str(self) -> (r: &'static str)
        ensures
            r@ == self.code(),
    {
        match self {
            DateModifier::Exact => "exact",
            DateModifier::About => "about",
            DateModifier::Before => "before",
            DateModifier::After => "after",
            DateModifier::Between => "between",
            DateModifier::Estimated => "estimated",
            DateModifier::Calculated => "calculated",
        }
    }
}

/// A possibly-partial calendar date: a year, with optional month and day.
///
/// A day is only meaningful alongside a month; parsing rejects a day without
/// one, and formatting drops a day when the month is absent.
#[derive(Debug, Clone, Copy, PartialEq, Eq, Hash, Structural)]
pub struct PartialDate {
    /// Calendar year (proleptic Gregorian; negative = BCE).
    pub year: i32,
    /// Month `1..=12`, if known.
    pub month: Option<u8>,
    /// Day `1..=31`, if known.
    pub day: Option<u8>,
}

/// A genealogical date: a single (possibly modified, possibly partial) point,
/// or a closed range.
#[derive(Debug, Clone, Copy, PartialEq, Eq, Hash, Structural)]
pub enum GenealogicalDate {
    /// A single point with a certainty modifier.
    Single {
        /// Certainty/precision.
        modifier: DateModifier,
        /// The point.
        date: PartialDate,
    },
    /// A closed `from..=to` range (`BET … AND …`).
    Range {
        /// Lower bound.
        from: PartialDate,
        /// Upper bound.
        to: PartialDate,
    },
}

/// The capitalised three-letter English abbreviation of month `m`.
pub open spec fn month_abbr(m: u8) -> Option<Seq<char>> {
    if m == 1 {
        Some(seq!['J', 'a', 'n'])
    } else if m == 2 {
        Some(seq!['F', 'e', 'b'])
    } else if m == 3 {
        Some(seq!['M', 'a', 'r'])
    } else if m == 4 {
        Some(seq!['A', 'p', 'r'])
    } else if m == 5 {
        Some(seq!['M', 'a', 'y'])
    } else if m == 6 {
        Some(seq!['J', 'u', 'n'])
    } else if m == 7 {
        Some(seq!['J', 'u', 'l'])
    } else if m == 8 {
        Some(seq!['A', 'u', 'g'])
    } else if m == 9 {
        Some(seq!['S', 'e', 'p'])
    } else if m == 10 {
        Some(seq!['O', 'c', 't'])
    } else if m == 11 {
        Some(seq!['N', 'o', 'v'])
    } else if m == 12 {
        Some(seq!['D', 'e', 'c'])
    } else {
        None
    }
}

/// The month an upper-case three-letter abbreviation names.
pub open spec fn month_of_upper(s: Seq<char>) -> Option<u8> {
    if s == seq!['J', 'A', 'N'] {
        Some(1u8)
    } else if s == seq!['F', 'E', 'B'] {
        Some(2u8)
    } else if s == seq!['M', 'A', 'R'] {
        Some(3u8)
    } else if s == seq!['A', 'P', 'R'] {
        Some(4u8)
    } else if s == seq!['M', 'A', 'Y'] {
        Some(5u8)
    } else if s == seq!['J', 'U', 'N'] {
        Some(6u8)
    } else if s == seq!['J', 'U', 'L'] {
        Some(7u8)
    } else if s == seq!['A', 'U', 'G'] {
        Some(8u8)
    } else if s == seq!['S', 'E', 'P'] {
        Some(9u8)
    } else if s == seq!['O', 'C', 'T'] {
        Some(10u8)
    } else if s == seq!['N', 'O', 'V'] {
        Some(11u8)
    } else if s == seq!['D', 'E', 'C'] {
        Some(12u8)
    } else {
        None
    }
}

/// The month abbreviation of an optional month.
pub open spec fn month_abbr_opt(m: Option<u8>) -> Option<Seq<char>> {
    match m {
        Some(x) => month_abbr(x),
        None => None,
    }
}

/// The words of a payload: `[day] Mon year`, dropping an absent month (and any
/// day with it). With `up`, the month is upper-case (`MAR`), as GEDCOM writes it.
pub open spec fn payload_words(p: PartialDate, up: bool) -> Seq<Seq<char>> {
    match (month_abbr_opt(p.month), p.day) {
        (Some(mon), Some(d)) => seq![
            int_text(d as int),
            if up { upper(mon) } else { mon },
            int_text(p.year as int),
        ],
        (Some(mon), None) => seq![if up { upper(mon) } else { mon }, int_text(p.year as int)],
        _ => seq![int_text(p.year as int)],
    }
}

/// The payload text: its words joined by single spaces.
pub open spec fn payload_text(p: PartialDate, up: bool) -> Seq<char> {
    join_words(payload_words(p, up))
}

/// The GEDCOM keyword before a single date's payload (none for an exact date).
pub open spec fn gedcom_prefix(m: DateModifier) -> Seq<Seq<char>> {
    match m {
        DateModifier::About => seq![seq!['A', 'B', 'T']],
        DateModifier::Before => seq![seq!['B', 'E', 'F']],
        DateModifier::After => seq![seq!['A', 'F', 'T']],
        DateModifier::Estimated => seq![seq!['E', 'S', 'T']],
        DateModifier::Calculated => seq![seq!['C', 'A', 'L']],
        DateModifier::Exact | DateModifier::Between => seq![],
    }
}

/// The long-form keyword before a single date's payload (none for an exact date).
pub open spec fn long_prefix(m: DateModifier) -> Seq<Seq<char>> {
    match m {
        DateModifier::About => seq![seq!['a', 'b', 'o', 'u', 't']],
        DateModifier::Before => seq![seq!['b', 'e', 'f', 'o', 'r', 'e']],
        DateModifier::After => seq![seq!['a', 'f', 't', 'e', 'r']],
        DateModifier::Estimated => seq![seq!['e', 's', 't', 'i', 'm', 'a', 't', 'e', 'd']],
        DateModifier::Calculated => seq![seq!['c', 'a', 'l', 'c', 'u', 'l', 'a', 't', 'e', 'd']],
        DateModifier::Between => seq![seq!['b', 'e', 't', 'w', 'e', 'e', 'n']],
        DateModifier::Exact => seq![],
    }
}

/// The words of a date's GEDCOM form: `ABT`/`BEF`/`AFT`/`EST`/`CAL` before a
/// single payload, or `BET … AND …`, with upper-case months.
pub open spec fn gedcom_words(d: GenealogicalDate) -> Seq<Seq<char>> {
    match d {
        GenealogicalDate::Single { modifier, date } => gedcom_prefix(modifier) + payload_words(
            date,
            true,
        ),
        GenealogicalDate::Range { from, to } => seq![seq!['B', 'E', 'T']] + payload_words(
            from,
            true,
        ) + seq![seq!['A', 'N', 'D']] + payload_words(to, true),
    }
}

/// The words of a date's long form: `about`/`before`/`after`/`estimated`/
/// `calculated` before a single payload, or `between … and …`.
pub open spec fn long_words(d: GenealogicalDate) -> Seq<Seq<char>> {
    match d {
        GenealogicalDate::Single { modifier, date } => long_prefix(modifier) + payload_words(
            date,
            false,
        ),
        GenealogicalDate::Range { from, to } => seq![seq!['b', 'e', 't', 'w', 'e', 'e', 'n']]
            + payload_words(from, false) + seq![seq!['a', 'n', 'd']] + payload_words(to, false),
    }
}

/// The GEDCOM 5.5.1 date value (`ABT 1850`, `12 MAR 1887`, `BET 1850 AND 1860`).
pub open spec fn gedcom_text(d: GenealogicalDate) -> Seq<char> {
    join_words(gedcom_words(d))
}

/// The long human form (`about 1887`, `12 Mar 1887`, `between 1850 and 1860`).
pub open spec fn long_text(d: GenealogicalDate) -> Seq<char> {
    join_words(long_words(d))
}

/// The compact display form (`c. 1887`, `b. 1900`, `a. 1850`, `est. 1860`,
/// `cal. 1860`, `1850–1860`, or the bare payload).
pub open spec fn short_text(d: GenealogicalDate) -> Seq<char> {
    match d {
        GenealogicalDate::Single { modifier, date } => {
            let p = payload_text(date, false);
            match modifier {
                DateModifier::Exact | DateModifier::Between => p,
                DateModifier::About => "c. "@ + p,
                DateModifier::Before => "b. "@ + p,
                DateModifier::After => "a. "@ + p,
                DateModifier::Estimated => "est. "@ + p,
                DateModifier::Calculated => "cal. "@ + p,
            }
        },
        GenealogicalDate::Range { from, to } => payload_text(from, false) + seq!['\u{2013}']
            + payload_text(to, false),
    }
}

/// Joining two non-empty word lists puts one space between their joins.
pub proof fn lemma_join_concat(a: Seq<Seq<char>>, b: Seq<Seq<char>>)
    requires
        a.len() > 0,
        b.len() > 0,
    ensures
        join_words(a + b) == join_words(a) + seq![' '] + join_words(b),
    decreases a.len(),
{
    if a.len() == 1 {
        assert((a + b).drop_first() =~= b);
        assert(join_words(a + b) =~= a[0] + seq![' '] + join_words(b));
    } else {
        assert((a + b).drop_first() =~= a.drop_first() + b);
        lemma_join_concat(a.drop_first(), b);
        assert(join_words(a + b) =~= join_words(a) + seq![' '] + join_words(b));
    }
}

/// Appends `p`'s payload.
fn push_payload(out: &mut Vec<char>, p: PartialDate, up: bool)
    ensures
        final(out)@ == old(out)@ + payload_text(p, up),
{
    let mon = match p.month {
        Some(m) => month_abbrev(m),
        None => None,
    };
    match (mon, p.day) {
        (Some(mon), Some(d)) => {
            push_int(out, d as i64);
            out.push(' ');
            if up {
                let u = to_upper(mon.as_slice());
                push_chars(out, u.as_slice());
            } else {
                push_chars(out, mon.as_slice());
            }
            out.push(' ');
            push_int(out, p.year as i64);
        },
        (Some(mon), None) => {
            if up {
                let u = to_upper(mon.as_slice());
                push_chars(out, u.as_slice());
            } else {
                push_chars(out, mon.as_slice());
            }
            out.push(' ');
            push_int(out, p.year as i64);
        },
        _ => {
            push_int(out, p.year as i64);
        },
    }
    proof {
        let y = int_text(p.year as int);
        match (month_abbr_opt(p.month), p.day) {
            (Some(m), Some(d)) => {
                let mm = if up { upper(m) } else { m };
                lemma_join_small(int_text(d as int), mm, y);
            },
            (Some(m), None) => {
                let mm = if up { upper(m) } else { m };
                lemma_join_small(mm, y, y);
            },
            _ => {
                lemma_join_small(y, y, y);
            },
        }
        assert(out@ =~= old(out)@ + payload_text(p, up));
    }
}

/// The capitalised abbreviation of month `m` (`Mar`), if `m` is `1..=12`.
pub fn month_abbrev(m: u8) -> (r: Option<Vec<char>>)
    ensures
        match r {
            Some(v) => month_abbr(m) == Some(v@),
            None => month_abbr(m) is None,
        },
{
    let a: [char; 3] = if m == 1 {
        ['J', 'a', 'n']
    } else if m == 2 {
        ['F', 'e', 'b']
    } else if m == 3 {
        ['M', 'a', 'r']
    } else if m == 4 {
        ['A', 'p', 'r']
    } else if m == 5 {
        ['M', 'a', 'y']
    } else if m == 6 {
        ['J', 'u', 'n']
    } else if m == 7 {
        ['J', 'u', 'l']
    } else if m == 8 {
        ['A', 'u', 'g']
    } else if m == 9 {
        ['S', 'e', 'p']
    } else if m == 10 {
        ['O', 'c', 't']
    } else if m == 11 {
        ['N', 'o', 'v']
    } else if m == 12 {
        ['D', 'e', 'c']
    } else {
        return None;
    };
    let mut v: Vec<char> = Vec::new();
    push_chars(&mut v, &a);
    assert(v@ =~= month_abbr(m)->0);
    Some(v)
}

/// The month number an upper-case three-letter abbreviation names (`MAR` → 3).
pub fn month_from_abbrev(upper: &[char]) -> (r: Option<u8>)
    ensures
        r == month_of_upper(upper@),
{
    let table: [[char; 3]; 12] = [
        ['J', 'A', 'N'],
        ['F', 'E', 'B'],
        ['M', 'A', 'R'],
        ['A', 'P', 'R'],
        ['M', 'A', 'Y'],
        ['J', 'U', 'N'],
        ['J', 'U', 'L'],
        ['A', 'U', 'G'],
        ['S', 'E', 'P'],
        ['O', 'C', 'T'],
        ['N', 'O', 'V'],
        ['D', 'E', 'C'],
    ];
    if chars_eq(upper, &table[0]) {
        Some(1)
    } else if chars_eq(upper, &table[1]) {
        Some(2)
    } else if chars_eq(upper, &table[2]) {
        Some(3)
    } else if chars_eq(upper, &table[3]) {
        Some(4)
    } else if chars_eq(upper, &table[4]) {
        Some(5)
    } else if chars_eq(upper, &table[5]) {
        Some(6)
    } else if chars_eq(upper, &table[6]) {
        Some(7)
    } else if chars_eq(upper, &table[7]) {
        Some(8)
    } else if chars_eq(upper, &table[8]) {
        Some(9)
    } else if chars_eq(upper, &table[9]) {
        Some(10)
    } else if chars_eq(upper, &table[10]) {
        Some(11)
    } else if chars_eq(upper, &table[11]) {
        Some(12)
    } else {
        None
    }
}

impl GenealogicalDate {
    /// The best-estimate point: a range's lower bound, a single date's point.
    pub open spec fn spec_best_estimate(self) -> PartialDate {
        match self {
            GenealogicalDate::Single { date, .. } => date,
            GenealogicalDate::Range { from, .. } => from,
        }
    }

    /// The modifier stored for a date (a range reports `Between`).
    pub open spec fn spec_modifier(self) -> DateModifier {
        match self {
            GenealogicalDate::Single { modifier, .. } => modifier,
            GenealogicalDate::Range { .. } => DateModifier::Between,
        }
    }

    /// The best-estimate point used for the `date_year/month/day` columns and
    /// the sort key. For a range this is the lower bound (`from`); for a
    /// single date it is the stated point regardless of modifier.
    pub fn best_estimate(&self) -> (r: PartialDate)
        ensures
            r == self.spec_best_estimate(),
    {
        match *self {
            GenealogicalDate::Single { date, .. } => date,
            GenealogicalDate::Range { from, .. } => from,
        }
    }

    /// The value stored in the `date_modifier` column (a range reports
    /// `Between`).
    pub fn modifier(&self) -> (r: DateModifier)
        ensures
            r == self.spec_modifier(),
    {
        match *self {
            GenealogicalDate::Single { modifier, .. } => modifier,
            GenealogicalDate::Range { .. } => DateModifier::Between,
        }
    }

    /// The GEDCOM 5.5.1 date value: `ABT`/`BEF`/`AFT`/`EST`/`CAL` prefixes
    /// (or `BET … AND …` for a range) and upper-case months (`12 MAR 1887`).
    pub fn format_gedcom(&self) -> (r: String)
        ensures
            r@ == gedcom_text(*self),
    {
        let mut out: Vec<char> = Vec::new();
        push_date(&mut out, *self, true);
        string_from_chars(out)
    }

    /// The long human form: `about 1887`, `before 1900`, `after 1850`,
    /// `estimated 1860`, `calculated 1860`, `between 1850 and 1860`, or
    /// `12 Mar 1887` for an exact date.
    pub fn to_display_string(&self) -> (r: String)
        ensures
            r@ == long_text(*self),
    {
        let mut out: Vec<char> = Vec::new();
        push_date(&mut out, *self, false);
        string_from_chars(out)
    }

    /// The compact display form: `c. 1887`, `b. 1900`, `a. 1850`,
    /// `est. 1860`, `cal. 1860`, `1850–1860`, or just `12 Mar 1887`.
    pub fn format_short(&self) -> (r: String)
        ensures
            r@ == short_text(*self),
    {
        let mut out: Vec<char> = Vec::new();
        match *self {
            GenealogicalDate::Single { modifier, date } => {
                match modifier {
                    DateModifier::Exact | DateModifier::Between => {},
                    DateModifier::About => push_str(&mut out, "c. "),
                    DateModifier::Before => push_str(&mut out, "b. "),
                    DateModifier::After => push_str(&mut out, "a. "),
                    DateModifier::Estimated => push_str(&mut out, "est. "),
                    DateModifier::Calculated => push_str(&mut out, "cal. "),
                }
                push_payload(&mut out, date, false);
            },
            GenealogicalDate::Range { from, to } => {
                push_payload(&mut out, from, false);
                out.push('\u{2013}');
                push_payload(&mut out, to, false);
            },
        }
        proof {
            assert(out@ =~= short_text(*self));
        }
        string_from_chars(out)
    }
}

/// The words of a date's GEDCOM (`up`) or long form.
pub open spec fn date_words(d: GenealogicalDate, up: bool) -> Seq<Seq<char>> {
    if up {
        gedcom_words(d)
    } else {
        long_words(d)
    }
}

/// A payload has at least one word.
proof fn lemma_payload_words_nonempty(p: PartialDate, up: bool)
    ensures
        payload_words(p, up).len() >= 1,
{
}

/// Appends a date's GEDCOM (`up`) or long form.
fn push_date(out: &mut Vec<char>, d: GenealogicalDate, up: bool)
    ensures
        final(out)@ == old(out)@ + join_words(date_words(d, up)),
{
    let ghost start = out@;
    match d {
        GenealogicalDate::Single { modifier, date } => {
            let ghost pre = if up { gedcom_prefix(modifier) } else { long_prefix(modifier) };
            let kw: Option<&[char]> = if up {
                match modifier {
                    DateModifier::About => Some(&['A', 'B', 'T']),
                    DateModifier::Before => Some(&['B', 'E', 'F']),
                    DateModifier::After => Some(&['A', 'F', 'T']),
                    DateModifier::Estimated => Some(&['E', 'S', 'T']),
                    DateModifier::Calculated => Some(&['C', 'A', 'L']),
                    DateModifier::Exact | DateModifier::Between => None,
                }
            } else {
                match modifier {
                    DateModifier::About => Some(&['a', 'b', 'o', 'u', 't']),
                    DateModifier::Before => Some(&['b', 'e', 'f', 'o', 'r', 'e']),
                    DateModifier::After => Some(&['a', 'f', 't', 'e', 'r']),
                    DateModifier::Estimated => Some(&['e', 's', 't', 'i', 'm', 'a', 't', 'e', 'd']),
                    DateModifier::Calculated => Some(
                        &['c', 'a', 'l', 'c', 'u', 'l', 'a', 't', 'e', 'd'],
                    ),
                    DateModifier::Between => Some(&['b', 'e', 't', 'w', 'e', 'e', 'n']),
                    DateModifier::Exact => None,
                }
            };
            match kw {
                Some(k) => {
                    push_chars(out, k);
                    out.push(' ');
                    proof {
                        assert(pre =~= seq![k@]);
                    }
                },
                None => {
                    proof {
                        assert(pre =~= Seq::<Seq<char>>::empty());
                    }
                },
            }
            push_payload(out, date, up);
            proof {
                let pw = payload_words(date, up);
                lemma_payload_words_nonempty(date, up);
                assert(date_words(d, up) == pre + pw);
                match kw {
                    Some(k) => {
                        lemma_join_concat(pre, pw);
                        lemma_join_small(k@, k@, k@);
                        assert(out@ =~= start + join_words(date_words(d, up)));
                    },
                    None => {
                        assert(pre + pw =~= pw);
                        assert(out@ =~= start + join_words(date_words(d, up)));
                    },
                }
            }
        },
        GenealogicalDate::Range { from, to } => {
            let bet: &[char] = if up { &['B', 'E', 'T'] } else { &['b', 'e', 't', 'w', 'e', 'e', 'n'] };
            let and: &[char] = if up { &['A', 'N', 'D'] } else { &['a', 'n', 'd'] };
            push_chars(out, bet);
            out.push(' ');
            push_payload(out, from, up);
            out.push(' ');
            push_chars(out, and);
            out.push(' ');
            push_payload(out, to, up);
            proof {
                let a = seq![bet@];
                let b = payload_words(from, up);
                let c = seq![and@];
                let e = payload_words(to, up);
                lemma_payload_words_nonempty(from, up);
                lemma_payload_words_nonempty(to, up);
                assert(date_words(d, up) =~= a + b + c + e);
                lemma_join_concat(a + b + c, e);
                lemma_join_concat(a + b, c);
                lemma_join_concat(a, b);
                lemma_join_small(bet@, bet@, bet@);
                lemma_join_small(and@, and@, and@);
                assert(out@ =~= start + join_words(date_words(d, up)));
            }
        },
    }
}

/// Whether every character of `t` is an ASCII letter.
pub open spec fn all_alpha(t: Seq<char>) -> bool {
    forall|i: int| 0 <= i < t.len() ==> is_alpha(#[trigger] t[i])
}

/// Reads payload tokens left to right, collecting the month and the numbers.
/// `None` once a token is neither a number nor a known month, or names a
/// second month.
pub open spec fn scan_payload(ts: Seq<Seq<char>>) -> Option<(Option<u8>, Seq<i32>)>
    decreases ts.len(),
{
    if ts.len() == 0 {
        Some((None, seq![]))
    } else {
        match scan_payload(ts.drop_last()) {
            None => None,
            Some((month, nums)) => {
                let t = ts.last();
                match parse_i32(t) {
                    Some(n) => Some((month, nums.push(n))),
                    None => if all_alpha(t) {
                        match month_of_upper(upper(t)) {
                            Some(m) => if month is Some {
                                None
                            } else {
                                Some((Some(m), nums))
                            },
                            None => None,
                        }
                    } else {
                        None
                    },
                }
            },
        }
    }
}

/// The partial date a `[day] [month] year` payload denotes, if it is valid:
/// one or two numbers (a day needs a month), a year in `-9999..=9999`, a day
/// in `1..=31`.
pub open spec fn spec_payload(ts: Seq<Seq<char>>) -> Option<PartialDate> {
    if ts.len() == 0 {
        None
    } else {
        match scan_payload(ts) {
            None => None,
            Some((month, nums)) => {
                if nums.len() == 1 {
                    let year = nums[0];
                    if -9999 <= year <= 9999 {
                        Some(PartialDate { year, month, day: None })
                    } else {
                        None
                    }
                } else if nums.len() == 2 && month is Some {
                    let year = nums[1];
                    let day = nums[0];
                    if -9999 <= year <= 9999 && 1 <= day <= 31 {
                        Some(PartialDate { year, month, day: Some(day as u8) })
                    } else {
                        None
                    }
                } else {
                    None
                }
            },
        }
    }
}

/// The modifier an upper-cased single-date keyword names (`ABT`/`ABOUT`, …).
pub open spec fn single_keyword(u: Seq<char>) -> Option<DateModifier> {
    if u == seq!['A', 'B', 'T'] || u == seq!['A', 'B', 'O', 'U', 'T'] {
        Some(DateModifier::About)
    } else if u == seq!['B', 'E', 'F'] || u == seq!['B', 'E', 'F', 'O', 'R', 'E'] {
        Some(DateModifier::Before)
    } else if u == seq!['A', 'F', 'T'] || u == seq!['A', 'F', 'T', 'E', 'R'] {
        Some(DateModifier::After)
    } else if u == seq!['E', 'S', 'T'] || u == seq!['E', 'S', 'T', 'I', 'M', 'A', 'T', 'E', 'D'] {
        Some(DateModifier::Estimated)
    } else if u == seq!['C', 'A', 'L'] || u == seq![
        'C',
        'A',
        'L',
        'C',
        'U',
        'L',
        'A',
        'T',
        'E',
        'D',
    ] {
        Some(DateModifier::Calculated)
    } else {
        None
    }
}

/// Whether an upper-cased keyword opens a range (`BET`/`BETWEEN`).
pub open spec fn is_range_keyword(u: Seq<char>) -> bool {
    u == seq!['B', 'E', 'T'] || u == seq!['B', 'E', 'T', 'W', 'E', 'E', 'N']
}

/// Whether a token is `AND`, ignoring ASCII case.
pub open spec fn is_and(t: Seq<char>) -> bool {
    upper(t) == seq!['A', 'N', 'D']
}

/// The index of the first `AND` token at or after `i`.
pub open spec fn find_and(ts: Seq<Seq<char>>, i: int) -> Option<int>
    decreases ts.len() - i,
{
    if i < 0 || i >= ts.len() {
        None
    } else if is_and(ts[i]) {
        Some(i)
    } else {
        find_and(ts, i + 1)
    }
}

/// The date whitespace-separated tokens denote, if any: `BET`/`BETWEEN`
/// payload `AND` payload; a single-date keyword then a payload; or a bare
/// payload (an exact date). Keywords and months are case-insensitive.
pub open spec fn parse_tokens(ts: Seq<Seq<char>>) -> Option<GenealogicalDate> {
    if ts.len() == 0 {
        None
    } else {
        let u = upper(ts[0]);
        if is_range_keyword(u) {
            match find_and(ts, 1) {
                None => None,
                Some(k) => match (spec_payload(ts.subrange(1, k)), spec_payload(ts.skip(k + 1))) {
                    (Some(from), Some(to)) => Some(GenealogicalDate::Range { from, to }),
                    _ => None,
                },
            }
        } else {
            match single_keyword(u) {
                Some(modifier) => match spec_payload(ts.skip(1)) {
                    Some(date) => Some(GenealogicalDate::Single { modifier, date }),
                    None => None,
                },
                None => match spec_payload(ts) {
                    Some(date) => Some(GenealogicalDate::Single {
                        modifier: DateModifier::Exact,
                        date,
                    }),
                    None => None,
                },
            }
        }
    }
}

/// The date a text denotes, if any (see [`parse_tokens`]).
pub open spec fn parse_date(s: Seq<char>) -> Option<GenealogicalDate> {
    parse_tokens(words(s))
}

/// Once a prefix of the tokens fails to scan, the whole run fails.
proof fn lemma_scan_prefix_fails(ts: Seq<Seq<char>>, k: int)
    requires
        0 <= k <= ts.len(),
        scan_payload(ts.take(k)) is None,
    ensures
        scan_payload(ts) is None,
    decreases ts.len(),
{
    if k == ts.len() {
        assert(ts.take(k) =~= ts);
    } else {
        assert(ts.drop_last().take(k) =~= ts.take(k));
        lemma_scan_prefix_fails(ts.drop_last(), k);
    }
}

/// A validation error with the given message.
fn invalid(m: Vec<char>) -> (e: CoreError)
    ensures
        e is Validation,
        e->Validation_0@ == m@,
{
    CoreError::Validation(string_from_chars(m))
}

/// The `Debug` forms of the tokens `ts[lo..hi]`, separated by `", "`.
pub open spec fn debug_items(ts: Seq<Vec<char>>, lo: int, hi: int) -> Seq<char>
    decreases hi - lo,
{
    if hi <= lo {
        Seq::empty()
    } else if hi == lo + 1 {
        debug_str(ts[lo]@)
    } else {
        debug_items(ts, lo, hi - 1) + ", "@ + debug_str(ts[hi - 1]@)
    }
}

/// Appends the `Debug` form of a token.
fn push_debug_token(out: &mut Vec<char>, t: &Vec<char>)
    ensures
        final(out)@ == old(out)@ + debug_str(t@),
{
    let s = string_from_chars(t.clone());
    let q = debug_quoted(s.as_str());
    push_str(out, q.as_str());
}

/// Appends the `Debug` form of a token list (`["1", "2"]`).
fn push_debug_tokens(out: &mut Vec<char>, ts: &Vec<Vec<char>>, lo: usize, hi: usize)
    requires
        lo <= hi <= ts.len(),
    ensures
        final(out)@ == old(out)@ + seq!['['] + debug_items(ts@, lo as int, hi as int) + seq![']'],
{
    let ghost start = out@;
    out.push('[');
    let mut i: usize = lo;
    while i < hi
        invariant
            lo <= i <= hi <= ts.len(),
            out@ == start + seq!['['] + debug_items(ts@, lo as int, i as int),
        decreases hi - i,
    {
        if i > lo {
            push_str(out, ", ");
        }
        push_debug_token(out, &ts[i]);
        assert(out@ =~= start + seq!['['] + debug_items(ts@, lo as int, i + 1));
        i = i + 1;
    }
    out.push(']');
    assert(out@ =~= start + seq!['['] + debug_items(ts@, lo as int, hi as int) + seq![']']);
}

/// Whether every character of `t` is an ASCII letter.
fn all_alpha_chars(t: &[char]) -> (b: bool)
    ensures
        b == all_alpha(t@),
{
    let mut i: usize = 0;
    while i < t.len()
        invariant
            i <= t.len(),
            forall|j: int| 0 <= j < i ==> is_alpha(#[trigger] t@[j]),
        decreases t.len() - i,
    {
        let c = t[i];
        if !(('a' <= c && c <= 'z') || ('A' <= c && c <= 'Z')) {
            return false;
        }
        i = i + 1;
    }
    true
}

/// Parses the payload tokens `ts[lo..hi]`.
fn parse_payload(ts: &Vec<Vec<char>>, lo: usize, hi: usize) -> (r: Result<PartialDate, CoreError>)
    requires
        lo <= hi <= ts.len(),
    ensures
        match r {
            Ok(p) => spec_payload(views(ts@).subrange(lo as int, hi as int)) == Some(p),
            Err(e) => spec_payload(views(ts@).subrange(lo as int, hi as int)) is None
                && e is Validation,
        },
{
    let ghost sub = views(ts@).subrange(lo as int, hi as int);
    if lo == hi {
        let mut m: Vec<char> = Vec::new();
        push_str(&mut m, "date payload is empty");
        return Err(invalid(m));
    }
    let mut month: Option<u8> = None;
    let mut nums: Vec<i32> = Vec::new();
    let mut i: usize = lo;
    assert(sub.take(0) =~= Seq::<Seq<char>>::empty());
    assert(nums@ =~= Seq::<i32>::empty());
    while i < hi
        invariant
            lo <= i <= hi <= ts.len(),
            sub == views(ts@).subrange(lo as int, hi as int),
            scan_payload(sub.take(i - lo)) == Some((month, nums@)),
        decreases hi - i,
    {
        let tok = &ts[i];
        let ghost k = i - lo;
        proof {
            assert(sub.take(k + 1).drop_last() =~= sub.take(k));
            assert(sub.take(k + 1).last() == tok@);
        }
        match parse_i32_chars(tok.as_slice()) {
            Some(n) => {
                nums.push(n);
            },
            None => {
                if all_alpha_chars(tok.as_slice()) {
                    let u = to_upper(tok.as_slice());
                    match month_from_abbrev(u.as_slice()) {
                        None => {
                            let mut m: Vec<char> = Vec::new();
                            push_str(&mut m, "unknown month ");
                            push_debug_token(&mut m, tok);
                            proof {
                                lemma_scan_prefix_fails(sub, k + 1);
                            }
                            return Err(invalid(m));
                        },
                        Some(mo) => {
                            if month.is_some() {
                                let mut m: Vec<char> = Vec::new();
                                push_str(&mut m, "more than one month in date payload ");
                                push_debug_tokens(&mut m, ts, lo, hi);
                                proof {
                                    lemma_scan_prefix_fails(sub, k + 1);
                                }
                                return Err(invalid(m));
                            }
                            month = Some(mo);
                        },
                    }
                } else {
                    let mut m: Vec<char> = Vec::new();
                    push_str(&mut m, "unrecognized date token ");
                    push_debug_token(&mut m, tok);
                    proof {
                        lemma_scan_prefix_fails(sub, k + 1);
                    }
                    return Err(invalid(m));
                }
            },
        }
        i = i + 1;
    }
    assert(sub.take(hi - lo) =~= sub);
    let year: i32;
    let day: Option<i32>;
    if nums.len() == 1 {
        year = nums[0];
        day = None;
    } else if nums.len() == 2 {
        if month.is_none() {
            let mut m: Vec<char> = Vec::new();
            push_str(&mut m, "a day requires a month");
            return Err(invalid(m));
        }
        day = Some(nums[0]);
        year = nums[1];
    } else if nums.len() == 0 {
        let mut m: Vec<char> = Vec::new();
        push_str(&mut m, "date payload has no year");
        return Err(invalid(m));
    } else {
        let mut m: Vec<char> = Vec::new();
        push_str(&mut m, "too many numbers in date payload ");
        push_debug_tokens(&mut m, ts, lo, hi);
        return Err(invalid(m));
    }
    if year < -9999 || year > 9999 {
        let mut m: Vec<char> = Vec::new();
        push_str(&mut m, "year ");
        push_int(&mut m, year as i64);
        push_str(&mut m, " is out of range -9999..=9999");
        return Err(invalid(m));
    }
    let day_u8: Option<u8> = match day {
        Some(d) => {
            if d < 1 || d > 31 {
                let mut m: Vec<char> = Vec::new();
                push_str(&mut m, "day ");
                push_int(&mut m, d as i64);
                push_str(&mut m, " is out of range 1..=31");
                return Err(invalid(m));
            }
            Some(d as u8)
        },
        None => None,
    };
    Ok(PartialDate { year, month, day: day_u8 })
}

/// Whether `t` is `AND`, ignoring ASCII case.
fn is_and_token(t: &Vec<char>) -> (b: bool)
    ensures
        b == is_and(t@),
{
    let u = to_upper(t.as_slice());
    chars_eq(u.as_slice(), &['A', 'N', 'D'])
}

impl GenealogicalDate {
    /// Parses a GEDCOM-style date. Keywords and month abbreviations are
    /// case-insensitive; both the abbreviated forms (`ABT`, `BEF`, `AFT`,
    /// `EST`, `CAL`, `BET … AND …`) and the long forms (`about`, `before`,
    /// `between … and …`, …) are accepted.
    ///
    /// # Errors
    /// [`CoreError::Validation`] for empty input, an unknown month, an
    /// out-of-range component, a malformed range, or any unrecognized token.
    pub fn parse(s: &str) -> (r: Result<GenealogicalDate, CoreError>)
        ensures
            match r {
                Ok(d) => parse_date(s@) == Some(d),
                Err(e) => parse_date(s@) is None && e is Validation,
            },
    {
        let c = chars_of(s);
        let toks = split_words(c.as_slice());
        let ghost ts = words(s@);
        assert(views(toks@) == ts);
        if toks.len() == 0 {
            let mut m: Vec<char> = Vec::new();
            push_str(&mut m, "empty date string");
            return Err(invalid(m));
        }
        assert(toks@[0]@ == ts[0]);
        let up = to_upper(toks[0].as_slice());
        let u = up.as_slice();
        if chars_eq(u, &['B', 'E', 'T']) || chars_eq(u, &['B', 'E', 'T', 'W', 'E', 'E', 'N']) {
            let mut k: usize = 1;
            while k < toks.len() && !is_and_token(&toks[k])
                invariant
                    1 <= k <= toks.len(),
                    views(toks@) == ts,
                    find_and(ts, 1) == find_and(ts, k as int),
                decreases toks.len() - k,
            {
                assert(toks@[k as int]@ == ts[k as int]);
                k = k + 1;
            }
            if k == toks.len() {
                let mut m: Vec<char> = Vec::new();
                push_str(&mut m, "range date ");
                let q = debug_quoted(s);
                push_str(&mut m, q.as_str());
                push_str(&mut m, " is missing its AND separator");
                return Err(invalid(m));
            }
            assert(toks@[k as int]@ == ts[k as int]);
            assert(find_and(ts, 1) == Some(k as int));
            let from = match parse_payload(&toks, 1, k) {
                Ok(p) => p,
                Err(e) => return Err(e),
            };
            assert(views(toks@).subrange(1, k as int) =~= ts.subrange(1, k as int));
            let to = match parse_payload(&toks, k + 1, toks.len()) {
                Ok(p) => p,
                Err(e) => return Err(e),
            };
            assert(views(toks@).subrange(k + 1, toks.len() as int) =~= ts.skip(k + 1));
            return Ok(GenealogicalDate::Range { from, to });
        }
        let kw: Option<DateModifier> = if chars_eq(u, &['A', 'B', 'T']) || chars_eq(
            u,
            &['A', 'B', 'O', 'U', 'T'],
        ) {
            Some(DateModifier::About)
        } else if chars_eq(u, &['B', 'E', 'F']) || chars_eq(u, &['B', 'E', 'F', 'O', 'R', 'E']) {
            Some(DateModifier::Before)
        } else if chars_eq(u, &['A', 'F', 'T']) || chars_eq(u, &['A', 'F', 'T', 'E', 'R']) {
            Some(DateModifier::After)
        } else if chars_eq(u, &['E', 'S', 'T']) || chars_eq(
            u,
            &['E', 'S', 'T', 'I', 'M', 'A', 'T', 'E', 'D'],
        ) {
            Some(DateModifier::Estimated)
        } else if chars_eq(u, &['C', 'A', 'L']) || chars_eq(
            u,
            &['C', 'A', 'L', 'C', 'U', 'L', 'A', 'T', 'E', 'D'],
        ) {
            Some(DateModifier::Calculated)
        } else {
            None
        };
        assert(kw == single_keyword(upper(ts[0])));
        match kw {
            Some(modifier) => {
                let date = match parse_payload(&toks, 1, toks.len()) {
                    Ok(p) => p,
                    Err(e) => return Err(e),
                };
                assert(views(toks@).subrange(1, toks.len() as int) =~= ts.skip(1));
                Ok(GenealogicalDate::Single { modifier, date })
            },
            None => {
                assert(views(toks@).subrange(0, toks.len() as int) =~= ts);
                let date = match parse_payload(&toks, 0, toks.len()) {
                    Ok(p) => p,
                    Err(e) => return Err(e),
                };
                Ok(GenealogicalDate::Single { modifier: DateModifier::Exact, date })
            },
        }
    }
}

impl std::str::FromStr for GenealogicalDate {
    type Err = CoreError;

    fn from_str(s: &str) -> (r: Result<GenealogicalDate, CoreError>)
        ensures
            match r {
                Ok(d) => parse_date(s@) == Some(d),
                Err(e) => parse_date(s@) is None && e is Validation,
            },
    {
        GenealogicalDate::parse(s)
    }
}

/// A payload that formats and parses back to itself: a year in
/// `-9999..=9999`, a month (if any) in `1..=12`, and a day (if any) in
/// `1..=31` alongside a month.
pub open spec fn valid_partial(p: PartialDate) -> bool {
    &&& -9999 <= p.year <= 9999
    &&& (p.month matches Some(m) ==> 1 <= m <= 12)
    &&& (p.day matches Some(d) ==> 1 <= d <= 31 && p.month is Some)
}

/// A date whose points are all valid payloads.
pub open spec fn valid_date(d: GenealogicalDate) -> bool {
    match d {
        GenealogicalDate::Single { date, .. } => valid_partial(date),
        GenealogicalDate::Range { from, to } => valid_partial(from) && valid_partial(to),
    }
}

/// Whether a text starts with an ASCII letter.
pub open spec fn starts_alpha(u: Seq<char>) -> bool {
    u.len() > 0 && is_alpha(u[0])
}

/// Every keyword starts with a letter.
proof fn lemma_keywords_start_alpha(u: Seq<char>)
    ensures
        single_keyword(u) is Some ==> starts_alpha(u),
        is_range_keyword(u) ==> starts_alpha(u),
        u == seq!['A', 'N', 'D'] ==> starts_alpha(u),
{
    assert(seq!['A', 'B', 'T'][0] == 'A');
    assert(seq!['A', 'B', 'O', 'U', 'T'][0] == 'A');
    assert(seq!['B', 'E', 'F'][0] == 'B');
    assert(seq!['B', 'E', 'F', 'O', 'R', 'E'][0] == 'B');
    assert(seq!['A', 'F', 'T'][0] == 'A');
    assert(seq!['A', 'F', 'T', 'E', 'R'][0] == 'A');
    assert(seq!['E', 'S', 'T'][0] == 'E');
    assert(seq!['E', 'S', 'T', 'I', 'M', 'A', 'T', 'E', 'D'][0] == 'E');
    assert(seq!['C', 'A', 'L'][0] == 'C');
    assert(seq!['C', 'A', 'L', 'C', 'U', 'L', 'A', 'T', 'E', 'D'][0] == 'C');
    assert(seq!['B', 'E', 'T'][0] == 'B');
    assert(seq!['B', 'E', 'T', 'W', 'E', 'E', 'N'][0] == 'B');
    assert(seq!['A', 'N', 'D'][0] == 'A');
}

/// A number's text is a word, reads back as the number, and is no keyword.
proof fn lemma_int_word(i: int)
    requires
        i32::MIN <= i <= i32::MAX,
    ensures
        is_word(int_text(i)),
        parse_i32(int_text(i)) == Some(i as i32),
        upper(int_text(i)) == int_text(i),
        !starts_alpha(int_text(i)),
        !is_and(int_text(i)),
        single_keyword(upper(int_text(i))) is None,
        !is_range_keyword(upper(int_text(i))),
{
    lemma_parse_int_text(i);
    let w = int_text(i);
    assert forall|k: int| 0 <= k < w.len() implies !is_ws(#[trigger] w[k]) by {
        if k >= 1 {
            assert(is_digit(w[k]));
        }
    }
    assert forall|k: int| 0 <= k < w.len() implies upper_char(#[trigger] w[k]) == w[k] by {
        if k >= 1 {
            assert(is_digit(w[k]));
        }
    }
    assert(upper(w) =~= w);
    lemma_keywords_start_alpha(w);
}

/// Three ASCII letters form a word that is no number.
proof fn lemma_letters3(w: Seq<char>)
    requires
        w.len() == 3,
        is_alpha(w[0]),
        is_alpha(w[1]),
        is_alpha(w[2]),
    ensures
        is_word(w),
        all_alpha(w),
        parse_i32(w) is None,
{
    assert forall|k: int| 0 <= k < w.len() implies is_alpha(#[trigger] w[k]) by {
        if k == 0 {
        } else if k == 1 {
        } else {
        }
    }
    assert(!is_digit(w[0]));
}

/// A month abbreviation (in either case) is a word of letters that names its
/// month and is no keyword.
proof fn lemma_month_word(m: u8, up: bool)
    requires
        1 <= m <= 12,
    ensures
        month_abbr(m) is Some,
        ({
            let w = if up {
                upper(month_abbr(m)->0)
            } else {
                month_abbr(m)->0
            };
            &&& is_word(w)
            &&& all_alpha(w)
            &&& parse_i32(w) is None
            &&& month_of_upper(upper(w)) == Some(m)
            &&& !is_and(w)
            &&& single_keyword(upper(w)) is None
            &&& !is_range_keyword(upper(w))
        }),
{
    let a = month_abbr(m)->0;
    let u = upper(a);
    if m == 1 {
        assert(u =~= seq!['J', 'A', 'N']);
    } else if m == 2 {
        assert(u =~= seq!['F', 'E', 'B']);
    } else if m == 3 {
        assert(u =~= seq!['M', 'A', 'R']);
    } else if m == 4 {
        assert(u =~= seq!['A', 'P', 'R']);
    } else if m == 5 {
        assert(u =~= seq!['M', 'A', 'Y']);
    } else if m == 6 {
        assert(u =~= seq!['J', 'U', 'N']);
    } else if m == 7 {
        assert(u =~= seq!['J', 'U', 'L']);
    } else if m == 8 {
        assert(u =~= seq!['A', 'U', 'G']);
    } else if m == 9 {
        assert(u =~= seq!['S', 'E', 'P']);
    } else if m == 10 {
        assert(u =~= seq!['O', 'C', 'T']);
    } else if m == 11 {
        assert(u =~= seq!['N', 'O', 'V']);
    } else {
        assert(u =~= seq!['D', 'E', 'C']);
    }
    assert(upper(u) =~= u);
    lemma_letters3(a);
    lemma_letters3(u);
    lemma_literal_chars();
}

/// The characters of the month and keyword literals, which tell them apart.
proof fn lemma_literal_chars()
    ensures
        seq!['J', 'A', 'N'][0] == 'J' && seq!['J', 'A', 'N'][1] == 'A' && seq!['J', 'A', 'N'][2] == 'N',
        seq!['F', 'E', 'B'][0] == 'F' && seq!['F', 'E', 'B'][1] == 'E' && seq!['F', 'E', 'B'][2] == 'B',
        seq!['M', 'A', 'R'][0] == 'M' && seq!['M', 'A', 'R'][1] == 'A' && seq!['M', 'A', 'R'][2] == 'R',
        seq!['A', 'P', 'R'][0] == 'A' && seq!['A', 'P', 'R'][1] == 'P' && seq!['A', 'P', 'R'][2] == 'R',
        seq!['M', 'A', 'Y'][0] == 'M' && seq!['M', 'A', 'Y'][1] == 'A' && seq!['M', 'A', 'Y'][2] == 'Y',
        seq!['J', 'U', 'N'][0] == 'J' && seq!['J', 'U', 'N'][1] == 'U' && seq!['J', 'U', 'N'][2] == 'N',
        seq!['J', 'U', 'L'][0] == 'J' && seq!['J', 'U', 'L'][1] == 'U' && seq!['J', 'U', 'L'][2] == 'L',
        seq!['A', 'U', 'G'][0] == 'A' && seq!['A', 'U', 'G'][1] == 'U' && seq!['A', 'U', 'G'][2] == 'G',
        seq!['S', 'E', 'P'][0] == 'S' && seq!['S', 'E', 'P'][1] == 'E' && seq!['S', 'E', 'P'][2] == 'P',
        seq!['O', 'C', 'T'][0] == 'O' && seq!['O', 'C', 'T'][1] == 'C' && seq!['O', 'C', 'T'][2] == 'T',
        seq!['N', 'O', 'V'][0] == 'N' && seq!['N', 'O', 'V'][1] == 'O' && seq!['N', 'O', 'V'][2] == 'V',
        seq!['D', 'E', 'C'][0] == 'D' && seq!['D', 'E', 'C'][1] == 'E' && seq!['D', 'E', 'C'][2] == 'C',
        seq!['A', 'B', 'T'][0] == 'A' && seq!['A', 'B', 'T'][1] == 'B' && seq!['A', 'B', 'T'][2] == 'T',
        seq!['A', 'B', 'O', 'U', 'T'][0] == 'A' && seq!['A', 'B', 'O', 'U', 'T'][1] == 'B',
        seq!['B', 'E', 'F'][0] == 'B' && seq!['B', 'E', 'F'][1] == 'E' && seq!['B', 'E', 'F'][2] == 'F',
        seq!['B', 'E', 'F', 'O', 'R', 'E'][0] == 'B' && seq!['B', 'E', 'F', 'O', 'R', 'E'][2] == 'F',
        seq!['A', 'F', 'T'][0] == 'A' && seq!['A', 'F', 'T'][1] == 'F',
        seq!['A', 'F', 'T', 'E', 'R'][0] == 'A' && seq!['A', 'F', 'T', 'E', 'R'][1] == 'F',
        seq!['E', 'S', 'T'][0] == 'E',
        seq!['E', 'S', 'T', 'I', 'M', 'A', 'T', 'E', 'D'][0] == 'E',
        seq!['C', 'A', 'L'][0] == 'C',
        seq!['C', 'A', 'L', 'C', 'U', 'L', 'A', 'T', 'E', 'D'][0] == 'C',
        seq!['B', 'E', 'T'][0] == 'B' && seq!['B', 'E', 'T'][1] == 'E' && seq!['B', 'E', 'T'][2] == 'T',
        seq!['B', 'E', 'T', 'W', 'E', 'E', 'N'][0] == 'B' && seq!['B', 'E', 'T', 'W', 'E', 'E', 'N'][2] == 'T',
        seq!['A', 'N', 'D'][0] == 'A' && seq!['A', 'N', 'D'][1] == 'N',
{
}

/// A valid payload's words read back as the payload; none of them is `AND`,
/// and the first is no keyword.
proof fn lemma_payload_round_trip(p: PartialDate, up: bool)
    requires
        valid_partial(p),
    ensures
        spec_payload(payload_words(p, up)) == Some(p),
        forall|k: int|
            0 <= k < payload_words(p, up).len() ==> is_word(#[trigger] payload_words(p, up)[k])
                && !is_and(payload_words(p, up)[k]),
        single_keyword(upper(payload_words(p, up)[0])) is None,
        !is_range_keyword(upper(payload_words(p, up)[0])),
{
    let pw = payload_words(p, up);
    let y = int_text(p.year as int);
    lemma_int_word(p.year as int);
    match p.month {
        None => {
            assert(pw =~= seq![y]);
            assert(pw.drop_last() =~= Seq::<Seq<char>>::empty());
            assert(scan_payload(pw.drop_last()) == Some((None::<u8>, Seq::<i32>::empty())));
            assert(pw.last() == y);
            assert(scan_payload(pw) == Some((None::<u8>, seq![p.year])));
        },
        Some(m) => {
            lemma_month_word(m, up);
            let mw = if up { upper(month_abbr(m)->0) } else { month_abbr(m)->0 };
            match p.day {
                None => {
                    assert(pw =~= seq![mw, y]);
                    assert(pw.drop_last() =~= seq![mw]);
                    assert(seq![mw].drop_last() =~= Seq::<Seq<char>>::empty());
                    assert(scan_payload(seq![mw].drop_last()) == Some((None::<u8>, Seq::<i32>::empty())));
                    assert(seq![mw].last() == mw);
                    assert(scan_payload(seq![mw]) == Some((Some(m), Seq::<i32>::empty())));
                    assert(pw.last() == y);
                    assert(scan_payload(pw) == Some((Some(m), seq![p.year])));
                },
                Some(d) => {
                    let dw = int_text(d as int);
                    lemma_int_word(d as int);
                    assert(pw =~= seq![dw, mw, y]);
                    assert(pw.drop_last() =~= seq![dw, mw]);
                    assert(seq![dw, mw].drop_last() =~= seq![dw]);
                    assert(seq![dw].drop_last() =~= Seq::<Seq<char>>::empty());
                    assert(scan_payload(seq![dw].drop_last()) == Some((None::<u8>, Seq::<i32>::empty())));
                    assert(seq![dw].last() == dw);
                    assert(scan_payload(seq![dw]) == Some((None::<u8>, seq![d as i32])));
                    assert(seq![dw, mw].last() == mw);
                    assert(scan_payload(seq![dw, mw]) == Some((Some(m), seq![d as i32])));
                    assert(pw.last() == y);
                    assert(seq![d as i32].push(p.year) =~= seq![d as i32, p.year]);
                    assert(scan_payload(pw) == Some((Some(m), seq![d as i32, p.year])));
                },
            }
        },
    }
}

/// The first `AND` at or after `i` is found where it stands.
proof fn lemma_find_and(ts: Seq<Seq<char>>, i: int, k: int)
    requires
        0 <= i <= k < ts.len(),
        forall|j: int| i <= j < k ==> !is_and(#[trigger] ts[j]),
        is_and(ts[k]),
    ensures
        find_and(ts, i) == Some(k),
    decreases k - i,
{
    if i < k {
        lemma_find_and(ts, i + 1, k);
    }
}

/// The keyword words, in both cases.
proof fn lemma_keyword_words()
    ensures
        is_word(seq!['A', 'B', 'T']),
        is_word(seq!['B', 'E', 'F']),
        is_word(seq!['A', 'F', 'T']),
        is_word(seq!['E', 'S', 'T']),
        is_word(seq!['C', 'A', 'L']),
        is_word(seq!['B', 'E', 'T']),
        is_word(seq!['A', 'N', 'D']),
        is_word(seq!['a', 'b', 'o', 'u', 't']),
        is_word(seq!['b', 'e', 'f', 'o', 'r', 'e']),
        is_word(seq!['a', 'f', 't', 'e', 'r']),
        is_word(seq!['e', 's', 't', 'i', 'm', 'a', 't', 'e', 'd']),
        is_word(seq!['c', 'a', 'l', 'c', 'u', 'l', 'a', 't', 'e', 'd']),
        is_word(seq!['b', 'e', 't', 'w', 'e', 'e', 'n']),
        is_word(seq!['a', 'n', 'd']),
        upper(seq!['A', 'B', 'T']) == seq!['A', 'B', 'T'],
        upper(seq!['B', 'E', 'F']) == seq!['B', 'E', 'F'],
        upper(seq!['A', 'F', 'T']) == seq!['A', 'F', 'T'],
        upper(seq!['E', 'S', 'T']) == seq!['E', 'S', 'T'],
        upper(seq!['C', 'A', 'L']) == seq!['C', 'A', 'L'],
        upper(seq!['B', 'E', 'T']) == seq!['B', 'E', 'T'],
        upper(seq!['A', 'N', 'D']) == seq!['A', 'N', 'D'],
        upper(seq!['a', 'b', 'o', 'u', 't']) == seq!['A', 'B', 'O', 'U', 'T'],
        upper(seq!['b', 'e', 'f', 'o', 'r', 'e']) == seq!['B', 'E', 'F', 'O', 'R', 'E'],
        upper(seq!['a', 'f', 't', 'e', 'r']) == seq!['A', 'F', 'T', 'E', 'R'],
        upper(seq!['e', 's', 't', 'i', 'm', 'a', 't', 'e', 'd']) == seq![
            'E',
            'S',
            'T',
            'I',
            'M',
            'A',
            'T',
            'E',
            'D',
        ],
        upper(seq!['c', 'a', 'l', 'c', 'u', 'l', 'a', 't', 'e', 'd']) == seq![
            'C',
            'A',
            'L',
            'C',
            'U',
            'L',
            'A',
            'T',
            'E',
            'D',
        ],
        upper(seq!['b', 'e', 't', 'w', 'e', 'e', 'n']) == seq!['B', 'E', 'T', 'W', 'E', 'E', 'N'],
        upper(seq!['a', 'n', 'd']) == seq!['A', 'N', 'D'],
{
    assert(upper(seq!['A', 'B', 'T']) =~= seq!['A', 'B', 'T']);
    assert(upper(seq!['B', 'E', 'F']) =~= seq!['B', 'E', 'F']);
    assert(upper(seq!['A', 'F', 'T']) =~= seq!['A', 'F', 'T']);
    assert(upper(seq!['E', 'S', 'T']) =~= seq!['E', 'S', 'T']);
    assert(upper(seq!['C', 'A', 'L']) =~= seq!['C', 'A', 'L']);
    assert(upper(seq!['B', 'E', 'T']) =~= seq!['B', 'E', 'T']);
    assert(upper(seq!['A', 'N', 'D']) =~= seq!['A', 'N', 'D']);
    assert(upper(seq!['a', 'b', 'o', 'u', 't']) =~= seq!['A', 'B', 'O', 'U', 'T']);
    assert(upper(seq!['b', 'e', 'f', 'o', 'r', 'e']) =~= seq!['B', 'E', 'F', 'O', 'R', 'E']);
    assert(upper(seq!['a', 'f', 't', 'e', 'r']) =~= seq!['A', 'F', 'T', 'E', 'R']);
    assert(upper(seq!['e', 's', 't', 'i', 'm', 'a', 't', 'e', 'd']) =~= seq![
        'E',
        'S',
        'T',
        'I',
        'M',
        'A',
        'T',
        'E',
        'D',
    ]);
    assert(upper(seq!['c', 'a', 'l', 'c', 'u', 'l', 'a', 't', 'e', 'd']) =~= seq![
        'C',
        'A',
        'L',
        'C',
        'U',
        'L',
        'A',
        'T',
        'E',
        'D',
    ]);
    assert(upper(seq!['b', 'e', 't', 'w', 'e', 'e', 'n']) =~= seq!['B', 'E', 'T', 'W', 'E', 'E', 'N']);
    assert(upper(seq!['a', 'n', 'd']) =~= seq!['A', 'N', 'D']);
}

/// A valid date's GEDCOM (`up`) or long form reads back as the date.
#[verifier::spinoff_prover]
#[verifier::rlimit(50)]
proof fn lemma_date_round_trip(d: GenealogicalDate, up: bool)
    requires
        valid_date(d),
        !(d matches GenealogicalDate::Single { modifier: DateModifier::Between, .. }),
    ensures
        parse_date(join_words(date_words(d, up))) == Some(d),
{
    let w = date_words(d, up);
    lemma_keyword_words();
    lemma_literal_chars();
    match d {
        GenealogicalDate::Single { modifier, date } => {
            let pre = if up { gedcom_prefix(modifier) } else { long_prefix(modifier) };
            let pw = payload_words(date, up);
            lemma_payload_round_trip(date, up);
            assert(w == pre + pw);
            assert forall|k: int| 0 <= k < w.len() implies is_word(#[trigger] w[k]) by {
                if k >= pre.len() {
                    assert(w[k] == pw[k - pre.len()]);
                }
            }
            lemma_words_join(w);
            assert(words(join_words(w)) == w);
            if pre.len() == 0 {
                assert(w =~= pw);
            } else {
                assert(w[0] == pre[0]);
                assert(w.skip(1) =~= pw);
                assert(single_keyword(upper(w[0])) == Some(modifier));
            }
        },
        GenealogicalDate::Range { from, to } => {
            let bet = if up { seq!['B', 'E', 'T'] } else { seq!['b', 'e', 't', 'w', 'e', 'e', 'n'] };
            let and = if up { seq!['A', 'N', 'D'] } else { seq!['a', 'n', 'd'] };
            let pf = payload_words(from, up);
            let pt = payload_words(to, up);
            lemma_payload_round_trip(from, up);
            lemma_payload_round_trip(to, up);
            let k: int = pf.len() + 1int;
            assert(w =~= seq![bet] + pf + seq![and] + pt);
            assert forall|j: int| 0 <= j < w.len() implies is_word(#[trigger] w[j]) by {
                if 1 <= j < k {
                    assert(w[j] == pf[j - 1]);
                } else if j > k {
                    assert(w[j] == pt[j - k - 1]);
                }
            }
            lemma_words_join(w);
            assert(w[0] == bet);
            assert(w[k] == and);
            assert forall|j: int| 1 <= j < k implies !is_and(#[trigger] w[j]) by {
                assert(w[j] == pf[j - 1]);
            }
            lemma_find_and(w, 1, k);
            assert(w.subrange(1, k) =~= pf);
            assert(w.skip(k + 1) =~= pt);
        },
    }
}

/// Formatting a valid date in GEDCOM form and parsing the text gives the
/// date back. (A single date carrying `Between`, which only a range reports,
/// is written as a bare payload and reads back as exact.)
pub proof fn law_gedcom_round_trip(d: GenealogicalDate)
    requires
        valid_date(d),
        !(d matches GenealogicalDate::Single { modifier: DateModifier::Between, .. }),
    ensures
        parse_date(gedcom_text(d)) == Some(d),
{
    lemma_date_round_trip(d, true);
}

/// Formatting a valid date in its long human form and parsing the text gives
/// the date back, so formatting a parsed long form reproduces the text.
/// (A single date carrying `Between` reads `between …` without `and`, which
/// does not parse.)
pub proof fn law_long_form_round_trip(d: GenealogicalDate)
    requires
        valid_date(d),
        !(d matches GenealogicalDate::Single { modifier: DateModifier::Between, .. }),
    ensures
        parse_date(long_text(d)) == Some(d),
{
    lemma_date_round_trip(d, false);
}

/// Whether `y` is a leap year in the proleptic Gregorian calendar.
pub open spec fn is_leap_year(y: int) -> bool {
    (y % 4 == 0 && y % 100 != 0) || y % 400 == 0
}

/// The number of days in month `m` of year `y`.
pub open spec fn days_in_month(y: int, m: int) -> int {
    if m == 2 {
        if is_leap_year(y) {
            29
        } else {
            28
        }
    } else if m == 4 || m == 6 || m == 9 || m == 11 {
        30
    } else {
        31
    }
}

/// Whether `y-m-d` is a civil date jiff represents: a year in
/// `-9999..=9999`, a month in `1..=12`, a day within the month.
pub open spec fn civil_valid(y: int, m: int, d: int) -> bool {
    -9999 <= y <= 9999 && 1 <= m <= 12 && 1 <= d <= days_in_month(y, m)
}

/// The days of year `y` before the first of month `m`.
pub open spec fn days_before_month(y: int, m: int) -> int {
    let base: int = if m <= 1 {
        0
    } else if m == 2 {
        31
    } else if m == 3 {
        59
    } else if m == 4 {
        90
    } else if m == 5 {
        120
    } else if m == 6 {
        151
    } else if m == 7 {
        181
    } else if m == 8 {
        212
    } else if m == 9 {
        243
    } else if m == 10 {
        273
    } else if m == 11 {
        304
    } else {
        334
    };
    if m > 2 && is_leap_year(y) {
        base + 1
    } else {
        base
    }
}

/// The leap years from -10400 (a multiple of 400) up to, not including, `y`.
pub open spec fn leap_years_before(y: int) -> int {
    let n = y + 10400;
    (n + 3) / 4 - (n + 99) / 100 + (n + 399) / 400
}

/// The number of days from -10400-01-01 to `y-m-d`.
pub open spec fn day_number(y: int, m: int, d: int) -> int {
    365 * (y + 10400) + leap_years_before(y) + days_before_month(y, m) + d - 1
}

/// The signed number of days from 1970-01-01 to `y-m-d`.
pub open spec fn epoch_days(y: int, m: int, d: int) -> int {
    day_number(y, m, d) - day_number(1970, 1, 1)
}

/// The signed number of days from 1970-01-01 to `year-month-day`, if that is
/// a date jiff represents.
///
/// Trusted: calls jiff's `civil::Date::new`, which succeeds exactly for a year
/// in `-9999..=9999`, a month in `1..=12` and a day within that month of the
/// proleptic Gregorian calendar, then `Date::since` from 1970-01-01, whose
/// span has days as its largest unit in the default configuration and which
/// never fails there, and reads the span's `get_days`.
#[verifier::external_body]
fn jiff_epoch_days(year: i16, month: i8, day: i8) -> (r: Option<i32>)
    ensures
        match r {
            Some(v) => civil_valid(year as int, month as int, day as int) && v == epoch_days(
                year as int,
                month as int,
                day as int,
            ),
            None => !civil_valid(year as int, month as int, day as int),
        },
{
    match jiff::civil::Date::new(year, month, day) {
        Ok(date) => match date.since(jiff::civil::Date::constant(1970, 1, 1)) {
            Ok(span) => Some(span.get_days()),
            Err(_) => None,
        },
        Err(_) => None,
    }
}

/// A point with missing month and day completed to January and the 1st, as
/// the sort key reads it.
pub open spec fn completed(p: PartialDate) -> (int, int, int) {
    (
        p.year as int,
        match p.month {
            Some(m) => m as int,
            None => 1,
        },
        match p.day {
            Some(d) => d as int,
            None => 1,
        },
    )
}

/// The sort key of a point: the epoch day of its completion; an impossible
/// day falls back to the 1st of the month, then to January 1st; `None` when
/// the year is outside `-9999..=9999`.
pub open spec fn point_sort_key(p: PartialDate) -> Option<i64> {
    let (y, m, d) = completed(p);
    if civil_valid(y, m, d) {
        Some(epoch_days(y, m, d) as i64)
    } else if civil_valid(y, m, 1) {
        Some(epoch_days(y, m, 1) as i64)
    } else if civil_valid(y, 1, 1) {
        Some(epoch_days(y, 1, 1) as i64)
    } else {
        None
    }
}

impl GenealogicalDate {
    /// The sort key of a date: that of its best estimate.
    pub open spec fn spec_sort_key(self) -> Option<i64> {
        point_sort_key(self.spec_best_estimate())
    }

    /// A sortable integer key: the proleptic day number of the best estimate
    /// relative to 1970-01-01 (a missing month or day counts as January or
    /// the 1st; an impossible day falls back to the 1st of the month, then to
    /// January 1st). `None` only when the year is outside `-9999..=9999`.
    pub fn sort_key(&self) -> (r: Option<i64>)
        ensures
            r == self.spec_sort_key(),
            r is None <==> !(-9999 <= self.spec_best_estimate().year <= 9999),
    {
        let p = self.best_estimate();
        if p.year < -32768 || p.year > 32767 {
            return None;
        }
        let year = p.year as i16;
        let m: u8 = match p.month {
            Some(m) => m,
            None => 1,
        };
        let d: u8 = match p.day {
            Some(d) => d,
            None => 1,
        };
        // A month or day too large for the calendar is no real month or day:
        // it takes the same fallbacks as any impossible one.
        let month_fits = m <= 127;
        let day_fits = d <= 127;
        let exact = if month_fits && day_fits {
            jiff_epoch_days(year, m as i8, d as i8)
        } else {
            None
        };
        let days = match exact {
            Some(v) => v,
            None => {
                let first = if month_fits {
                    jiff_epoch_days(year, m as i8, 1)
                } else {
                    None
                };
                match first {
                    Some(v) => v,
                    None => match jiff_epoch_days(year, 1, 1) {
                        Some(v) => v,
                        None => return None,
                    },
                }
            },
        };
        Some(days as i64)
    }
}

/// The month a scan collects is a real month.
proof fn lemma_scan_month(ts: Seq<Seq<char>>)
    ensures
        scan_payload(ts) matches Some((Some(m), _)) ==> 1 <= m <= 12,
    decreases ts.len(),
{
    if ts.len() > 0 {
        lemma_scan_month(ts.drop_last());
    }
}

/// A parsed payload is valid.
proof fn lemma_spec_payload_valid(ts: Seq<Seq<char>>)
    ensures
        spec_payload(ts) matches Some(p) ==> valid_partial(p),
{
    lemma_scan_month(ts);
}

/// Every date the parser accepts is valid: its years lie in `-9999..=9999`,
/// its months in `1..=12`, its days in `1..=31` and only beside a month.
pub proof fn law_parsed_dates_are_valid(s: Seq<char>)
    ensures
        parse_date(s) matches Some(d) ==> valid_date(d),
{
    let ts = words(s);
    if ts.len() > 0 {
        lemma_spec_payload_valid(ts);
        lemma_spec_payload_valid(ts.skip(1));
        match find_and(ts, 1) {
            Some(k) => {
                lemma_spec_payload_valid(ts.subrange(1, k));
                lemma_spec_payload_valid(ts.skip(k + 1));
            },
            None => {},
        }
    }
}

/// Every valid date has a sort key.
pub proof fn law_valid_dates_have_sort_keys(d: GenealogicalDate)
    requires
        valid_date(d),
    ensures
        d.spec_sort_key() is Some,
{
    let p = d.spec_best_estimate();
    assert(civil_valid(p.year as int, 1, 1));
    if p.month is Some {
        let (y, m, dd) = completed(p);
        assert(civil_valid(y, m, 1));
    }
}

/// Leap years step by one exactly after a leap year.
#[verifier::spinoff_prover]
proof fn lemma_leap_step(y: int)
    requires
        y >= -10000,
    ensures
        leap_years_before(y + 1) == leap_years_before(y) + if is_leap_year(y) {
            1int
        } else {
            0int
        },
{
    let n = y + 10400;
    assert(y % 4 == n % 4 && y % 100 == n % 100 && y % 400 == n % 400);
    assert((n + 4) / 4 == (n + 3) / 4 + if n % 4 == 0 { 1int } else { 0int });
    assert((n + 100) / 100 == (n + 99) / 100 + if n % 100 == 0 { 1int } else { 0int });
    assert((n + 400) / 400 == (n + 399) / 400 + if n % 400 == 0 { 1int } else { 0int });
}

/// January 1st of a later year comes later.
proof fn lemma_new_year_monotone(y1: int, y2: int)
    requires
        -10000 <= y1 < y2,
    ensures
        day_number(y1, 1, 1) + 365 + (if is_leap_year(y1) { 1int } else { 0int }) <= day_number(
            y2,
            1,
            1,
        ),
    decreases y2 - y1,
{
    lemma_leap_step(y1);
    if y1 + 1 < y2 {
        lemma_new_year_monotone(y1 + 1, y2);
    }
}

/// The day number of a valid date lies within its year.
proof fn lemma_day_within_year(y: int, m: int, d: int)
    requires
        civil_valid(y, m, d),
    ensures
        day_number(y, 1, 1) <= day_number(y, m, d) < day_number(y, 1, 1) + 365 + (if is_leap_year(
            y,
        ) {
            1int
        } else {
            0int
        }),
{
}

/// Within a year, a later month or day has a larger day number.
proof fn lemma_day_number_in_year(y: int, m1: int, d1: int, m2: int, d2: int)
    requires
        civil_valid(y, m1, d1),
        civil_valid(y, m2, d2),
        m1 < m2 || (m1 == m2 && d1 < d2),
    ensures
        day_number(y, m1, d1) < day_number(y, m2, d2),
{
}

/// Whether `a` comes strictly before `b` in the calendar (year, then month,
/// then day).
pub open spec fn earlier(a: (int, int, int), b: (int, int, int)) -> bool {
    a.0 < b.0 || (a.0 == b.0 && (a.1 < b.1 || (a.1 == b.1 && a.2 < b.2)))
}

/// The sort key orders dates chronologically: of two dates whose best
/// estimates complete (missing month and day read as January and the 1st) to
/// real calendar days, the earlier one has the smaller key.
pub proof fn law_sort_key_chronological(a: GenealogicalDate, b: GenealogicalDate)
    requires
        civil_valid(
            completed(a.spec_best_estimate()).0,
            completed(a.spec_best_estimate()).1,
            completed(a.spec_best_estimate()).2,
        ),
        civil_valid(
            completed(b.spec_best_estimate()).0,
            completed(b.spec_best_estimate()).1,
            completed(b.spec_best_estimate()).2,
        ),
        earlier(completed(a.spec_best_estimate()), completed(b.spec_best_estimate())),
    ensures
        a.spec_sort_key() matches Some(x) && b.spec_sort_key() matches Some(y) && x < y,
{
    let (y1, m1, d1) = completed(a.spec_best_estimate());
    let (y2, m2, d2) = completed(b.spec_best_estimate());
    if y1 < y2 {
        lemma_day_within_year(y1, m1, d1);
        lemma_day_within_year(y2, m2, d2);
        lemma_new_year_monotone(y1, y2);
    } else {
        lemma_day_number_in_year(y1, m1, d1, m2, d2);
    }
}


/// Whether `s` holds no ASCII lower-case letter.
pub open spec fn no_lower(s: Seq<char>) -> bool {
    forall|i: int| 0 <= i < s.len() ==> !('a' <= #[trigger] s[i] && s[i] <= 'z')
}

/// Decimal digits are no letters.
proof fn lemma_digits_no_lower(n: nat)
    ensures
        no_lower(nat_digits(n)),
    decreases n,
{
    if n < 10 {
        assert(digit_char(n as int) as int == n + 48);
    } else {
        lemma_digits_no_lower(n / 10);
        assert(digit_char((n % 10) as int) as int == (n % 10) + 48);
        let s = nat_digits(n);
        assert forall|i: int| 0 <= i < s.len() implies !('a' <= #[trigger] s[i] && s[i] <= 'z') by {
            if i < s.len() - 1 {
                assert(s[i] == nat_digits(n / 10)[i]);
            }
        }
    }
}

/// A number's text holds digits and a sign only.
proof fn lemma_int_text_no_lower(i: int)
    ensures
        no_lower(int_text(i)),
{
    if i < 0 {
        lemma_digits_no_lower((-i) as nat);
        let s = int_text(i);
        assert forall|k: int| 0 <= k < s.len() implies !('a' <= #[trigger] s[k] && s[k] <= 'z') by {
            if k > 0 {
                assert(s[k] == nat_digits((-i) as nat)[k - 1]);
            }
        }
    } else {
        lemma_digits_no_lower(i as nat);
    }
}

/// The upper-case form holds no lower-case letter.
proof fn lemma_upper_no_lower(s: Seq<char>)
    ensures
        no_lower(upper(s)),
{
    assert forall|i: int| 0 <= i < upper(s).len() implies !('a' <= #[trigger] upper(s)[i] && upper(s)[i] <= 'z') by {
        let c = s[i];
        if 'a' <= c && c <= 'z' {
            assert(((c as u32) - 32) as char as int == (c as int) - 32);
        }
    }
}

/// Words without lower-case letters join without them.
proof fn lemma_join_no_lower(ts: Seq<Seq<char>>)
    requires
        forall|k: int| 0 <= k < ts.len() ==> no_lower(#[trigger] ts[k]),
    ensures
        no_lower(join_words(ts)),
    decreases ts.len(),
{
    if ts.len() > 1 {
        assert forall|k: int| 0 <= k < ts.drop_first().len() implies no_lower(#[trigger] ts.drop_first()[k]) by {
            assert(ts.drop_first()[k] == ts[k + 1]);
        }
        lemma_join_no_lower(ts.drop_first());
        let a = ts[0];
        let b = join_words(ts.drop_first());
        let j = join_words(ts);
        assert(j == a + seq![' '] + b);
        assert(no_lower(a));
        assert forall|i: int| 0 <= i < j.len() implies !('a' <= #[trigger] j[i] && j[i] <= 'z') by {
            if i < a.len() {
                assert(j[i] == a[i]);
            } else if i == a.len() {
                assert(j[i] == ' ');
            } else {
                assert(j[i] == b[i - a.len() - 1]);
            }
        }
    } else if ts.len() == 1 {
        assert(no_lower(ts[0]));
    }
}

/// A payload's GEDCOM words hold no lower-case letter.
proof fn lemma_payload_no_lower(p: PartialDate)
    ensures
        forall|k: int| 0 <= k < payload_words(p, true).len() ==> no_lower(#[trigger] payload_words(p, true)[k]),
        payload_words(p, true).len() > 0,
{
    lemma_int_text_no_lower(p.year as int);
    if let Some(d) = p.day {
        lemma_int_text_no_lower(d as int);
    }
    if let Some(mon) = month_abbr_opt(p.month) {
        lemma_upper_no_lower(mon);
    }
}

/// The GEDCOM form of a date is its keyword and its payloads: a single date
/// is its modifier's keyword (`ABT `, `BEF `, `AFT `, `EST `, `CAL `, none
/// when exact) before the exact date's form; a range is `BET ` and the exact
/// form of its start, ` AND ` and that of its end. It holds no lower-case
/// letter (months are written upper case).
pub proof fn law_gedcom_form(m: DateModifier, f: PartialDate, t: PartialDate)
    ensures
        gedcom_text(GenealogicalDate::Single { modifier: m, date: f }) == (match m {
            DateModifier::About => seq!['A', 'B', 'T', ' '],
            DateModifier::Before => seq!['B', 'E', 'F', ' '],
            DateModifier::After => seq!['A', 'F', 'T', ' '],
            DateModifier::Estimated => seq!['E', 'S', 'T', ' '],
            DateModifier::Calculated => seq!['C', 'A', 'L', ' '],
            DateModifier::Exact | DateModifier::Between => Seq::<char>::empty(),
        }) + gedcom_text(GenealogicalDate::Single { modifier: DateModifier::Exact, date: f }),
        gedcom_text(GenealogicalDate::Range { from: f, to: t }) == seq!['B', 'E', 'T', ' '] + gedcom_text(
            GenealogicalDate::Single { modifier: DateModifier::Exact, date: f },
        ) + seq![' ', 'A', 'N', 'D', ' '] + gedcom_text(GenealogicalDate::Single { modifier: DateModifier::Exact, date: t }),
        no_lower(gedcom_text(GenealogicalDate::Single { modifier: m, date: f })),
        no_lower(gedcom_text(GenealogicalDate::Range { from: f, to: t })),
{
    let pf = payload_words(f, true);
    let pt = payload_words(t, true);
    lemma_payload_no_lower(f);
    lemma_payload_no_lower(t);
    assert(gedcom_words(GenealogicalDate::Single { modifier: DateModifier::Exact, date: f }) =~= pf);
    assert(gedcom_words(GenealogicalDate::Single { modifier: DateModifier::Exact, date: t }) =~= pt);
    let pre = gedcom_prefix(m);
    if pre.len() > 0 {
        lemma_join_concat(pre, pf);
        assert(join_words(pre) == pre[0]);
    } else {
        assert(pre + pf =~= pf);
    }
    let bet: Seq<Seq<char>> = seq![seq!['B', 'E', 'T']];
    let and: Seq<Seq<char>> = seq![seq!['A', 'N', 'D']];
    lemma_join_concat(and, pt);
    lemma_join_concat(pf, and + pt);
    lemma_join_concat(bet, pf + (and + pt));
    assert(bet + pf + and + pt =~= bet + (pf + (and + pt)));
    assert(join_words(and) == and[0]);
    assert(join_words(bet) == bet[0]);
    let ws = gedcom_words(GenealogicalDate::Single { modifier: m, date: f });
    assert forall|k: int| 0 <= k < ws.len() implies no_lower(#[trigger] ws[k]) by {
        if k >= pre.len() {
            assert(ws[k] == pf[k - pre.len()]);
        }
    }
    lemma_join_no_lower(ws);
    let wr = gedcom_words(GenealogicalDate::Range { from: f, to: t });
    assert forall|k: int| 0 <= k < wr.len() implies no_lower(#[trigger] wr[k]) by {
        if 1 <= k < 1 + pf.len() {
            assert(wr[k] == pf[k - 1]);
        } else if k > 1 + pf.len() {
            assert(wr[k] == pt[k - 2 - pf.len()]);
        }
    }
    lemma_join_no_lower(wr);
}

/// The compact form of a date is its modifier's abbreviation (`c. `, `b. `,
/// `a. `, `est. `, `cal. `, none when exact) before the exact date's form; a
/// range is its two ends' forms joined by an en dash. The exact form is the
/// year alone without a known month, else `Mon year` or `day Mon year`.
pub proof fn law_short_form(m: DateModifier, f: PartialDate, t: PartialDate)
    ensures
        short_text(GenealogicalDate::Single { modifier: m, date: f }) == (match m {
            DateModifier::About => "c. "@,
            DateModifier::Before => "b. "@,
            DateModifier::After => "a. "@,
            DateModifier::Estimated => "est. "@,
            DateModifier::Calculated => "cal. "@,
            DateModifier::Exact | DateModifier::Between => Seq::<char>::empty(),
        }) + short_text(GenealogicalDate::Single { modifier: DateModifier::Exact, date: f }),
        short_text(GenealogicalDate::Range { from: f, to: t }) == short_text(
            GenealogicalDate::Single { modifier: DateModifier::Exact, date: f },
        ) + seq!['\u{2013}'] + short_text(GenealogicalDate::Single { modifier: DateModifier::Exact, date: t }),
        short_text(GenealogicalDate::Single { modifier: DateModifier::Exact, date: f }) == match month_abbr_opt(f.month) {
            None => int_text(f.year as int),
            Some(mon) => match f.day {
                Some(d) => int_text(d as int) + seq![' '] + mon + seq![' '] + int_text(f.year as int),
                None => mon + seq![' '] + int_text(f.year as int),
            },
        },
{
    let e = short_text(GenealogicalDate::Single { modifier: DateModifier::Exact, date: f });
    if let Some(mon) = month_abbr_opt(f.month) {
        let ws = payload_words(f, false);
        assert(e == join_words(ws));
        if let Some(d) = f.day {
            assert(ws.len() == 3);
            assert(ws.drop_first().drop_first() =~= seq![int_text(f.year as int)]);
            assert(join_words(ws.drop_first().drop_first()) == int_text(f.year as int));
            assert(join_words(ws.drop_first()) == mon + seq![' '] + int_text(f.year as int));
            assert(e =~= int_text(d as int) + seq![' '] + mon + seq![' '] + int_text(f.year as int));
        } else {
            assert(ws.len() == 2);
            assert(ws.drop_first() =~= seq![int_text(f.year as int)]);
            assert(join_words(ws.drop_first()) == int_text(f.year as int));
            assert(e =~= mon + seq![' '] + int_text(f.year as int));
        }
    }
}

} // verus!
