//! Event rows: the denormalized date columns derived from an event's date, and
//! an event rebuilt from its row (the date re-read from its stored long form).

use vstd::prelude::*;
use crate::date::{
    law_long_form_round_trip, long_text, parse_date, valid_date, DateModifier, GenealogicalDate,
};
use crate::enums::{EventKind, EventSubject};
use crate::error::CoreError;
use crate::gedcom::lexer::opt_view;
use crate::ids::{EventId, FamilyId, PersonId, PlaceId};
use crate::num::push_int;
use crate::records::Event;
use crate::text::{push_str, string_from_chars};

verus! {

/// The stored `date_original`, `date_modifier`, `date_sort`, `date_year`,
/// `date_month` and `date_day` columns.
pub type DateColumns = (
    Option<String>,
    Option<&'static str>,
    Option<i64>,
    Option<i32>,
    Option<u8>,
    Option<u8>,
);

/// Derives the denormalized date columns from a (possibly absent) date: its
/// long form, its modifier's code, its sort key, and its best estimate's year,
/// month and day.
pub fn derive_date_columns(date: Option<GenealogicalDate>) -> (r: DateColumns)
    ensures
        match date {
            Some(d) => {
                &&& r.0 matches Some(o) && o@ == long_text(d)
                &&& r.1 matches Some(m) && m@ == d.spec_modifier().code()
                &&& r.2 == d.spec_sort_key()
                &&& r.3 == Some(d.spec_best_estimate().year)
                &&& r.4 == d.spec_best_estimate().month
                &&& r.5 == d.spec_best_estimate().day
            },
            None => r.0 is None && r.1 is None && r.2 is None && r.3 is None && r.4 is None
                && r.5 is None,
        },
{
    match date {
        Some(d) => {
            let be = d.best_estimate();
            (
                Some(d.to_display_string()),
                Some(d.modifier().as_str()),
                d.sort_key(),
                Some(be.year),
                be.month,
                be.day,
            )
        },
        None => (None, None, None, None, None, None),
    }
}

/// The subject an event row's two subject columns name: exactly one of them
/// must be set.
pub open spec fn row_subject(ind: Option<PersonId>, fam: Option<FamilyId>) -> Option<EventSubject> {
    match (ind, fam) {
        (Some(i), None) => Some(EventSubject::Individual(i)),
        (None, Some(f)) => Some(EventSubject::Family(f)),
        _ => None,
    }
}

/// Rebuilds an event from its row: the subject from its two subject columns,
/// the date re-read from its stored long form.
///
/// # Errors
/// [`CoreError::Validation`] when both or neither subject column is set, or
/// the stored date does not parse.
pub fn row_to_event(
    id: EventId,
    ind: Option<PersonId>,
    fam: Option<FamilyId>,
    kind: EventKind,
    date_original: Option<String>,
    place: Option<PlaceId>,
    notes: Option<String>,
) -> (r: Result<Event, CoreError>)
    ensures
        r is Ok <==> row_subject(ind, fam) is Some && (date_original matches Some(s) ==> parse_date(
            s@,
        ) is Some),
        r matches Ok(e) ==> {
            &&& e.id == id
            &&& Some(e.subject) == row_subject(ind, fam)
            &&& e.kind == kind
            &&& e.date == match date_original {
                Some(s) => parse_date(s@),
                None => None,
            }
            &&& e.place == place
            &&& e.notes == notes
        },
        r matches Err(x) ==> x is Validation,
{
    let subject = match (ind, fam) {
        (Some(i), None) => EventSubject::Individual(i),
        (None, Some(f)) => EventSubject::Family(f),
        _ => {
            let mut m: Vec<char> = Vec::new();
            push_str(&mut m, "event ");
            push_int(&mut m, id.0);
            push_str(&mut m, " has an invalid subject (the schema CHECK should forbid this)");
            return Err(CoreError::Validation(string_from_chars(m)));
        },
    };
    let date = match &date_original {
        Some(s) => match GenealogicalDate::parse(s.as_str()) {
            Ok(d) => Some(d),
            Err(e) => return Err(e),
        },
        None => None,
    };
    Ok(Event { id, subject, kind, date, place, notes })
}

/// What a stored event's date reads back as is the date that was stored, for
/// every valid date (one a single date does not carry `Between` on, which
/// only a range reports).
pub proof fn law_stored_date_reads_back(d: GenealogicalDate)
    requires
        valid_date(d),
        !(d matches GenealogicalDate::Single { modifier: DateModifier::Between, .. }),
    ensures
        parse_date(long_text(d)) == Some(d),
{
    law_long_form_round_trip(d);
}

/// The first birth year and the first death year among `(kind, year)` rows
/// (in the order given), other kinds ignored.
pub open spec fn spec_vital_years(rows: Seq<(Seq<char>, i32)>) -> (Option<i32>, Option<i32>)
    decreases rows.len(),
{
    if rows.len() == 0 {
        (None, None)
    } else {
        let (b, d) = spec_vital_years(rows.drop_last());
        let (k, y) = rows.last();
        (
            if b is None && k == "birth"@ {
                Some(y)
            } else {
                b
            },
            if d is None && k == "death"@ {
                Some(y)
            } else {
                d
            },
        )
    }
}

/// The views of `(kind, year)` rows.
pub open spec fn kind_year_views(rows: Seq<(String, i32)>) -> Seq<(Seq<char>, i32)> {
    Seq::new(rows.len(), |i: int| (rows[i].0@, rows[i].1))
}

/// A person's birth and death years: the first of each among their dated
/// birth and death event rows, read in date order.
pub fn vital_years(rows: &Vec<(String, i32)>) -> (r: (Option<i32>, Option<i32>))
    ensures
        r == spec_vital_years(kind_year_views(rows@)),
{
    let ghost v = kind_year_views(rows@);
    let mut birth: Option<i32> = None;
    let mut death: Option<i32> = None;
    let mut i: usize = 0;
    assert(v.take(0) =~= Seq::<(Seq<char>, i32)>::empty());
    while i < rows.len()
        invariant
            i <= rows.len(),
            v == kind_year_views(rows@),
            (birth, death) == spec_vital_years(v.take(i as int)),
        decreases rows.len() - i,
    {
        assert(v.take(i + 1).drop_last() =~= v.take(i as int));
        assert(v.take(i + 1).last() == (rows@[i as int].0@, rows@[i as int].1));
        let k = crate::text::chars_of(rows[i].0.as_str());
        proof {
            reveal_strlit("birth");
            reveal_strlit("death");
            assert("birth"@[0] != "death"@[0]);
        }
        if birth.is_none() && crate::text::lit_eq(k.as_slice(), "birth") {
            birth = Some(rows[i].1);
        } else if death.is_none() && crate::text::lit_eq(k.as_slice(), "death") {
            death = Some(rows[i].1);
        }
        i = i + 1;
    }
    assert(v.take(rows.len() as int) =~= v);
    (birth, death)
}

} // verus!
