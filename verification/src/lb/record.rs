//! The LB person record and its field-level conversions: the `DD.MM.YYYY`
//! date read (with the unset-date markers and the future-date guard), the
//! empty-to-`None` normalization, and the inferences drawn from a person's
//! vital dates.

use vstd::prelude::*;
use crate::date::{DateModifier, GenealogicalDate, PartialDate};
use crate::num::{parse_i32, parse_i32_chars, parse_u8, parse_u8_chars};
use crate::text::{chars_of, lit_eq, split_char, split_on, string_from_chars, trim, trim_chars};
use crate::gedcom::lexer::opt_view;

verus! {

/// One person record of an LB document.
#[derive(Debug, Clone, PartialEq, Eq)]
pub struct LbPerson {
    /// Stable per-file id; `0` is the reserved "none" pointer, never a record.
    pub id: i64,
    /// The father's id, or `0` for none.
    pub father_id: i64,
    /// The mother's id, or `0` for none.
    pub mother_id: i64,
    /// A spouse's id, or `0` for none.
    pub spouse_id: i64,
    /// Further spouses by id, if recorded.
    pub spouse_list: Option<Vec<i64>>,
    /// `M` / `F` (anything else reads as unknown sex).
    pub gender: String,
    /// Given name(s).
    pub first_name: String,
    /// Surname.
    pub last_name: String,
    /// Birthplace, free text.
    pub birth_place: String,
    /// Place of death, free text.
    pub death_place: String,
    /// Birth date as `DD.MM.YYYY` (or an unset marker, or blank).
    pub birth_date: String,
    /// Death date as `DD.MM.YYYY` (or an unset marker, or blank).
    pub death_date: String,
    /// Free-form notes, kept verbatim.
    pub notes: String,
}

/// A pointer field read as an option (`0` is none).
pub open spec fn pointer(id: i64) -> Option<i64> {
    if id != 0 {
        Some(id)
    } else {
        None
    }
}

/// The ids in `list` that are not `0`, in order.
pub open spec fn non_zero(list: Seq<i64>) -> Seq<i64>
    decreases list.len(),
{
    if list.len() == 0 {
        seq![]
    } else if list.last() != 0 {
        non_zero(list.drop_last()).push(list.last())
    } else {
        non_zero(list.drop_last())
    }
}

/// Every spouse pointer of a person: the scalar one, then the list's, zeros
/// dropped.
pub open spec fn spec_spouses(p: LbPerson) -> Seq<i64> {
    (if p.spouse_id != 0 {
        seq![p.spouse_id]
    } else {
        seq![]
    }) + match p.spouse_list {
        Some(l) => non_zero(l@),
        None => seq![],
    }
}

impl LbPerson {
    /// The father pointer (`0` → `None`).
    pub fn father(&self) -> (r: Option<i64>)
        ensures
            r == pointer(self.father_id),
    {
        if self.father_id != 0 {
            Some(self.father_id)
        } else {
            None
        }
    }

    /// The mother pointer (`0` → `None`).
    pub fn mother(&self) -> (r: Option<i64>)
        ensures
            r == pointer(self.mother_id),
    {
        if self.mother_id != 0 {
            Some(self.mother_id)
        } else {
            None
        }
    }

    /// Every spouse pointer (`SpouseId` then any `SpouseList`), zeros removed,
    /// in order.
    pub fn spouses(&self) -> (r: Vec<i64>)
        ensures
            r@ == spec_spouses(*self),
    {
        let mut out: Vec<i64> = Vec::new();
        if self.spouse_id != 0 {
            out.push(self.spouse_id);
        }
        let ghost head = out@;
        match &self.spouse_list {
            Some(list) => {
                let mut i: usize = 0;
                assert(list@.take(0) =~= Seq::<i64>::empty());
                while i < list.len()
                    invariant
                        i <= list.len(),
                        out@ == head + non_zero(list@.take(i as int)),
                    decreases list.len() - i,
                {
                    let s = list[i];
                    proof {
                        assert(list@.take(i + 1).drop_last() =~= list@.take(i as int));
                        assert(list@.take(i + 1).last() == s);
                    }
                    if s != 0 {
                        out.push(s);
                    }
                    assert(out@ =~= head + non_zero(list@.take(i + 1)));
                    i = i + 1;
                }
                assert(list@.take(list.len() as int) =~= list@);
            },
            None => {
                assert(out@ =~= head + Seq::<i64>::empty());
            },
        }
        out
    }
}

/// A trimmed text, or nothing when it is empty.
pub open spec fn spec_non_empty(s: Seq<char>) -> Option<Seq<char>> {
    if trim(s).len() == 0 {
        None
    } else {
        Some(trim(s))
    }
}

/// Trims `s`, giving `None` for an empty or all-whitespace value.
pub fn non_empty(s: &str) -> (r: Option<String>)
    ensures
        opt_view(r) == spec_non_empty(s@),
{
    let c = chars_of(s);
    let t = trim_chars(c.as_slice());
    if t.len() == 0 {
        None
    } else {
        Some(string_from_chars(t))
    }
}

/// Whether a (trimmed) date text is one of the markers the source writes for
/// an unset date: `01.01.1753` (its storage minimum) and the export-run stamps
/// `05.01.2021`, `03.01.2021`, `01.01.2023`.
pub open spec fn is_unset_marker(s: Seq<char>) -> bool {
    s == "01.01.1753"@ || s == "05.01.2021"@ || s == "03.01.2021"@ || s == "01.01.2023"@
}

/// What an LB `DD.MM.YYYY` date gives: nothing for a blank, an unset marker,
/// anything but three dot-separated numbers, a year outside `-9999..=9999`, or
/// a year after `current_year`; otherwise an exact date whose month is kept
/// only when in `1..=12` and whose day only beside a month and when in
/// `1..=31`.
pub open spec fn spec_parse_lb_date(raw: Seq<char>, current_year: i32) -> Option<GenealogicalDate> {
    let s = trim(raw);
    let parts = split_char(s, '.');
    if s.len() == 0 || is_unset_marker(s) || parts.len() != 3 {
        None
    } else {
        match (parse_u8(parts[0]), parse_u8(parts[1]), parse_i32(parts[2])) {
            (Some(d), Some(m), Some(year)) => {
                if year < -9999 || year > 9999 || year > current_year {
                    None
                } else {
                    let month = if 1 <= m <= 12 {
                        Some(m)
                    } else {
                        None
                    };
                    let day = if month is Some && 1 <= d <= 31 {
                        Some(d)
                    } else {
                        None
                    };
                    Some(
                        GenealogicalDate::Single {
                            modifier: DateModifier::Exact,
                            date: PartialDate { year, month, day },
                        },
                    )
                }
            },
            _ => None,
        }
    }
}

/// Reads an LB `DD.MM.YYYY` date (see [`spec_parse_lb_date`]). A `00` month
/// or day means unknown and yields a partial date. `current_year` is passed
/// in, so the function stays deterministic.
pub fn parse_lb_date(raw: &str, current_year: i32) -> (r: Option<GenealogicalDate>)
    ensures
        r == spec_parse_lb_date(raw@, current_year),
{
    let c = chars_of(raw);
    let s = trim_chars(c.as_slice());
    let parts = split_on(s.as_slice(), '.');
    if s.len() == 0 || lit_eq(s.as_slice(), "01.01.1753") || lit_eq(s.as_slice(), "05.01.2021")
        || lit_eq(s.as_slice(), "03.01.2021") || lit_eq(s.as_slice(), "01.01.2023") || parts.len()
        != 3 {
        return None;
    }
    assert(parts@[0]@ == split_char(s@, '.')[0]);
    assert(parts@[1]@ == split_char(s@, '.')[1]);
    assert(parts@[2]@ == split_char(s@, '.')[2]);
    let day_n = match parse_u8_chars(parts[0].as_slice()) {
        Some(v) => v,
        None => return None,
    };
    let month_n = match parse_u8_chars(parts[1].as_slice()) {
        Some(v) => v,
        None => return None,
    };
    let year = match parse_i32_chars(parts[2].as_slice()) {
        Some(v) => v,
        None => return None,
    };
    if year < -9999 || year > 9999 || year > current_year {
        return None;
    }
    let month: Option<u8> = if 1 <= month_n && month_n <= 12 {
        Some(month_n)
    } else {
        None
    };
    let day: Option<u8> = if month.is_some() && 1 <= day_n && day_n <= 31 {
        Some(day_n)
    } else {
        None
    };
    Some(
        GenealogicalDate::Single {
            modifier: DateModifier::Exact,
            date: PartialDate { year, month, day },
        },
    )
}

/// A birth dated (by year) after the death is impossible and dropped; the
/// death is trusted. Otherwise, or when either is absent, the birth stands.
pub open spec fn spec_reconcile_birth(
    birth: Option<GenealogicalDate>,
    death: Option<GenealogicalDate>,
) -> Option<GenealogicalDate> {
    match (birth, death) {
        (Some(b), Some(d)) => if b.spec_best_estimate().year > d.spec_best_estimate().year {
            None
        } else {
            birth
        },
        _ => birth,
    }
}

/// Reconciles a birth with a death: a birth whose year is after the death's
/// is a stray stamp and is dropped (see [`spec_reconcile_birth`]).
pub fn reconcile_birth(birth: Option<GenealogicalDate>, death: Option<&GenealogicalDate>) -> (r: Option<
    GenealogicalDate,
>)
    ensures
        r == spec_reconcile_birth(
            birth,
            match death {
                Some(d) => Some(*d),
                None => None,
            },
        ),
{
    match (&birth, death) {
        (Some(b), Some(d)) => {
            if b.best_estimate().year > d.best_estimate().year {
                return None;
            }
        },
        _ => {},
    }
    birth
}

/// How many years after a birth a person without a recorded death is still
/// assumed living.
pub const MAX_PLAUSIBLE_LIFESPAN: i32 = 110;

/// Whether an imported person counts as living: not with any death evidence
/// (a death date or a death place); otherwise only with a birth less than
/// [`MAX_PLAUSIBLE_LIFESPAN`] years before `current_year`.
pub open spec fn spec_infer_living(
    birth: Option<GenealogicalDate>,
    has_death: bool,
    has_death_place: bool,
    current_year: i32,
) -> bool {
    if has_death || has_death_place {
        false
    } else {
        match birth {
            Some(b) => current_year - b.spec_best_estimate().year < MAX_PLAUSIBLE_LIFESPAN,
            None => false,
        }
    }
}

/// Infers the living flag of an imported person from its vital facts (see
/// [`spec_infer_living`]).
pub fn infer_living(
    birth: Option<&GenealogicalDate>,
    death: Option<&GenealogicalDate>,
    has_death_place: bool,
    current_year: i32,
) -> (r: bool)
    ensures
        r == spec_infer_living(
            match birth {
                Some(b) => Some(*b),
                None => None,
            },
            death is Some,
            has_death_place,
            current_year,
        ),
{
    if death.is_some() || has_death_place {
        return false;
    }
    match birth {
        Some(b) => (current_year as i64) - (b.best_estimate().year as i64) < 110,
        None => false,
    }
}

} // verus!
