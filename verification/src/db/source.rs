//! Citation rows: the subject column a citation is stored under, and a
//! citation rebuilt from its row.

use vstd::prelude::*;
use crate::enums::{CitationSubject, Confidence};
use crate::error::CoreError;
use crate::ids::{CitationId, EventId, FamilyId, PersonId, SourceId};
use crate::num::push_int;
use crate::records::Citation;
use crate::text::{push_str, string_from_chars};

verus! {

/// The `citations` column and raw id a citation subject is stored under.
pub fn subject_column(subject: CitationSubject) -> (r: (&'static str, i64))
    ensures
        match subject {
            CitationSubject::Individual(p) => r.0@ == "individual_id"@ && r.1 == p.0,
            CitationSubject::Family(f) => r.0@ == "family_id"@ && r.1 == f.0,
            CitationSubject::Event(e) => r.0@ == "event_id"@ && r.1 == e.0,
        },
{
    match subject {
        CitationSubject::Individual(p) => ("individual_id", p.get()),
        CitationSubject::Family(f) => ("family_id", f.get()),
        CitationSubject::Event(e) => ("event_id", e.get()),
    }
}

/// The subject a citation row's three subject columns name: exactly one of
/// them must be set.
pub open spec fn citation_row_subject(
    event: Option<EventId>,
    individual: Option<PersonId>,
    family: Option<FamilyId>,
) -> Option<CitationSubject> {
    match (individual, family, event) {
        (Some(i), None, None) => Some(CitationSubject::Individual(i)),
        (None, Some(f), None) => Some(CitationSubject::Family(f)),
        (None, None, Some(e)) => Some(CitationSubject::Event(e)),
        _ => None,
    }
}

/// Rebuilds a citation from its row.
///
/// # Errors
/// [`CoreError::Validation`] unless exactly one of the individual, family and
/// event columns is set.
pub fn row_to_citation(
    id: CitationId,
    source: SourceId,
    event: Option<EventId>,
    individual: Option<PersonId>,
    family: Option<FamilyId>,
    page: Option<String>,
    detail: Option<String>,
    confidence: Option<Confidence>,
) -> (r: Result<Citation, CoreError>)
    ensures
        r is Ok <==> citation_row_subject(event, individual, family) is Some,
        r matches Ok(c) ==> c.id == id && c.source == source && Some(c.subject)
            == citation_row_subject(event, individual, family) && c.page == page && c.detail
            == detail && c.confidence == confidence,
        r matches Err(e) ==> e is Validation,
{
    let subject = match (individual, family, event) {
        (Some(i), None, None) => CitationSubject::Individual(i),
        (None, Some(f), None) => CitationSubject::Family(f),
        (None, None, Some(e)) => CitationSubject::Event(e),
        _ => {
            let mut m: Vec<char> = Vec::new();
            push_str(&mut m, "citation ");
            push_int(&mut m, id.0);
            push_str(
                &mut m,
                " has an invalid subject (exactly one of individual/family/event must be set)",
            );
            return Err(CoreError::Validation(string_from_chars(m)));
        },
    };
    Ok(Citation { id, source, subject, page, detail, confidence })
}

} // verus!
