//! Domain enums backing the schema's TEXT columns.
//!
//! Closed enums map one-to-one to a fixed set of TEXT codes and parse strictly:
//! an unknown code is a [`CoreError::Validation`], never a silent default.
//! [`EventKind`] is open — its [`EventKind::Other`] arm keeps any other code
//! verbatim. The subject enums name the single row an event, media link or
//! citation belongs to.

use vstd::prelude::*;
use crate::error::CoreError;
use crate::ids::{EventId, FamilyId, PersonId};
use crate::text::{chars_of, debug_quoted, debug_str, lit_eq, push_str, string_from_chars};

verus! {

/// Biological/recorded sex. `Other` and `Unknown` are first-class, not gaps.
#[derive(Debug, Clone, Copy, PartialEq, Eq, Hash, Structural)]
pub enum Sex {
    /// Stored as `M`.
    Male,
    /// Stored as `F`.
    Female,
    /// Stored as `X`.
    Other,
    /// Stored as `U`.
    Unknown,
}

impl Sex {
    /// The TEXT code of a variant.
    pub open spec fn code(self) -> Seq<char> {
        match self {
            Sex::Male => "M"@,
            Sex::Female => "F"@,
            Sex::Other => "X"@,
            Sex::Unknown => "U"@,
        }
    }

    /// The TEXT code stored in the database.
    pub fn as_str(self) -> (r: &'static str)
        ensures
            r@ == self.code(),
    {
        match self {
            Sex::Male => "M",
            Sex::Female => "F",
            Sex::Other => "X",
            Sex::Unknown => "U",
        }
    }

    /// Parses a TEXT code.
    ///
    /// # Errors
    /// [`CoreError::Validation`] (`unknown Sex code "…"`) when `s` is not
    /// one of the codes.
    pub fn parse(s: &str) -> (r: Result<Sex, CoreError>)
        ensures
            match r {
                Ok(v) => v.code() == s@,
                Err(e) => (forall|v: Sex| v.code() != s@)
                    && e == CoreError::Validation(e->Validation_0)
                    && e->Validation_0@ == "unknown Sex code "@ + debug_str(s@),
            },
    {
        let c = chars_of(s);
        if lit_eq(c.as_slice(), "M") {
            Ok(Sex::Male)
        } else if lit_eq(c.as_slice(), "F") {
            Ok(Sex::Female)
        } else if lit_eq(c.as_slice(), "X") {
            Ok(Sex::Other)
        } else if lit_eq(c.as_slice(), "U") {
            Ok(Sex::Unknown)
        } else {
            let mut m: Vec<char> = Vec::new();
            push_str(&mut m, "unknown Sex code ");
            let q = debug_quoted(s);
            push_str(&mut m, q.as_str());
            Err(CoreError::Validation(string_from_chars(m)))
        }
    }
}

impl std::str::FromStr for Sex {
    type Err = CoreError;

    fn from_str(s: &str) -> (r: Result<Sex, CoreError>)
        ensures
            match r {
                Ok(v) => v.code() == s@,
                Err(e) => (forall|v: Sex| v.code() != s@)
                    && e == CoreError::Validation(e->Validation_0)
                    && e->Validation_0@ == "unknown Sex code "@ + debug_str(s@),
            },
    {
        Sex::parse(s)
    }
}

/// Every Sex code names exactly one variant, so parsing a variant's code
/// gives that variant back.
pub proof fn law_sex_codes_distinct(a: Sex, b: Sex)
    ensures
        a.code() == b.code() ==> a == b,
{
    reveal_strlit("M");
    reveal_strlit("F");
    reveal_strlit("X");
    reveal_strlit("U");
    if a != b {
        assert(a.code().len() != b.code().len() || a.code()[0] != b.code()[0]);
    }
}

/// How a child is related to the family they appear in.
#[derive(Debug, Clone, Copy, PartialEq, Eq, Hash, Structural)]
pub enum ChildRelation {
    /// Stored as `birth`.
    Birth,
    /// Stored as `adopted`.
    Adopted,
    /// Stored as `step`.
    Step,
    /// Stored as `foster`.
    Foster,
}

impl ChildRelation {
    /// The TEXT code of a variant.
    pub open spec fn code(self) -> Seq<char> {
        match self {
            ChildRelation::Birth => "birth"@,
            ChildRelation::Adopted => "adopted"@,
            ChildRelation::Step => "step"@,
            ChildRelation::Foster => "foster"@,
        }
    }

    /// The TEXT code stored in the database.
    pub fn as_str(self) -> (r: &'static str)
        ensures
            r@ == self.code(),
    {
        match self {
            ChildRelation::Birth => "birth",
            ChildRelation::Adopted => "adopted",
            ChildRelation::Step => "step",
            ChildRelation::Foster => "foster",
        }
    }

    /// Parses a TEXT code.
    ///
    /// # Errors
    /// [`CoreError::Validation`] (`unknown ChildRelation code "…"`) when `s` is not
    /// one of the codes.
    pub fn parse(s: &str) -> (r: Result<ChildRelation, CoreError>)
        ensures
            match r {
                Ok(v) => v.code() == s@,
                Err(e) => (forall|v: ChildRelation| v.code() != s@)
                    && e == CoreError::Validation(e->Validation_0)
                    && e->Validation_0@ == "unknown ChildRelation code "@ + debug_str(s@),
            },
    {
        let c = chars_of(s);
        if lit_eq(c.as_slice(), "birth") {
            Ok(ChildRelation::Birth)
        } else if lit_eq(c.as_slice(), "adopted") {
            Ok(ChildRelation::Adopted)
        } else if lit_eq(c.as_slice(), "step") {
            Ok(ChildRelation::Step)
        } else if lit_eq(c.as_slice(), "foster") {
            Ok(ChildRelation::Foster)
        } else {
            let mut m: Vec<char> = Vec::new();
            push_str(&mut m, "unknown ChildRelation code ");
            let q = debug_quoted(s);
            push_str(&mut m, q.as_str());
            Err(CoreError::Validation(string_from_chars(m)))
        }
    }
}

impl std::str::FromStr for ChildRelation {
    type Err = CoreError;

    fn from_str(s: &str) -> (r: Result<ChildRelation, CoreError>)
        ensures
            match r {
                Ok(v) => v.code() == s@,
                Err(e) => (forall|v: ChildRelation| v.code() != s@)
                    && e == CoreError::Validation(e->Validation_0)
                    && e->Validation_0@ == "unknown ChildRelation code "@ + debug_str(s@),
            },
    {
        ChildRelation::parse(s)
    }
}

/// Every ChildRelation code names exactly one variant, so parsing a variant's code
/// gives that variant back.
pub proof fn law_child_relation_codes_distinct(a: ChildRelation, b: ChildRelation)
    ensures
        a.code() == b.code() ==> a == b,
{
    reveal_strlit("birth");
    reveal_strlit("adopted");
    reveal_strlit("step");
    reveal_strlit("foster");
    if a != b {
        assert(a.code().len() != b.code().len() || a.code()[0] != b.code()[0]);
    }
}

/// The nature of a family/union.
#[derive(Debug, Clone, Copy, PartialEq, Eq, Hash, Structural)]
pub enum UnionType {
    /// Stored as `marriage`.
    Marriage,
    /// Stored as `partnership`.
    Partnership,
    /// Stored as `unknown`.
    Unknown,
}

impl UnionType {
    /// The TEXT code of a variant.
    pub open spec fn code(self) -> Seq<char> {
        match self {
            UnionType::Marriage => "marriage"@,
            UnionType::Partnership => "partnership"@,
            UnionType::Unknown => "unknown"@,
        }
    }

    /// The TEXT code stored in the database.
    pub fn as_str(self) -> (r: &'static str)
        ensures
            r@ == self.code(),
    {
        match self {
            UnionType::Marriage => "marriage",
            UnionType::Partnership => "partnership",
            UnionType::Unknown => "unknown",
        }
    }

    /// Parses a TEXT code.
    ///
    /// # Errors
    /// [`CoreError::Validation`] (`unknown UnionType code "…"`) when `s` is not
    /// one of the codes.
    pub fn parse(s: &str) -> (r: Result<UnionType, CoreError>)
        ensures
            match r {
                Ok(v) => v.code() == s@,
                Err(e) => (forall|v: UnionType| v.code() != s@)
                    && e == CoreError::Validation(e->Validation_0)
                    && e->Validation_0@ == "unknown UnionType code "@ + debug_str(s@),
            },
    {
        let c = chars_of(s);
        if lit_eq(c.as_slice(), "marriage") {
            Ok(UnionType::Marriage)
        } else if lit_eq(c.as_slice(), "partnership") {
            Ok(UnionType::Partnership)
        } else if lit_eq(c.as_slice(), "unknown") {
            Ok(UnionType::Unknown)
        } else {
            let mut m: Vec<char> = Vec::new();
            push_str(&mut m, "unknown UnionType code ");
            let q = debug_quoted(s);
            push_str(&mut m, q.as_str());
            Err(CoreError::Validation(string_from_chars(m)))
        }
    }
}

impl std::str::FromStr for UnionType {
    type Err = CoreError;

    fn from_str(s: &str) -> (r: Result<UnionType, CoreError>)
        ensures
            match r {
                Ok(v) => v.code() == s@,
                Err(e) => (forall|v: UnionType| v.code() != s@)
                    && e == CoreError::Validation(e->Validation_0)
                    && e->Validation_0@ == "unknown UnionType code "@ + debug_str(s@),
            },
    {
        UnionType::parse(s)
    }
}

/// Every UnionType code names exactly one variant, so parsing a variant's code
/// gives that variant back.
pub proof fn law_union_type_codes_distinct(a: UnionType, b: UnionType)
    ensures
        a.code() == b.code() ==> a == b,
{
    reveal_strlit("marriage");
    reveal_strlit("partnership");
    reveal_strlit("unknown");
    if a != b {
        assert(a.code().len() != b.code().len() || a.code()[0] != b.code()[0]);
    }
}

/// The kind of an alternate name row.
#[derive(Debug, Clone, Copy, PartialEq, Eq, Hash, Structural)]
pub enum NameKind {
    /// Stored as `birth`.
    Birth,
    /// Stored as `married`.
    Married,
    /// Stored as `aka`.
    Aka,
    /// Stored as `religious`.
    Religious,
}

impl NameKind {
    /// The TEXT code of a variant.
    pub open spec fn code(self) -> Seq<char> {
        match self {
            NameKind::Birth => "birth"@,
            NameKind::Married => "married"@,
            NameKind::Aka => "aka"@,
            NameKind::Religious => "religious"@,
        }
    }

    /// The TEXT code stored in the database.
    pub fn as_str(self) -> (r: &'static str)
        ensures
            r@ == self.code(),
    {
        match self {
            NameKind::Birth => "birth",
            NameKind::Married => "married",
            NameKind::Aka => "aka",
            NameKind::Religious => "religious",
        }
    }

    /// Parses a TEXT code.
    ///
    /// # Errors
    /// [`CoreError::Validation`] (`unknown NameKind code "…"`) when `s` is not
    /// one of the codes.
    pub fn parse(s: &str) -> (r: Result<NameKind, CoreError>)
        ensures
            match r {
                Ok(v) => v.code() == s@,
                Err(e) => (forall|v: NameKind| v.code() != s@)
                    && e == CoreError::Validation(e->Validation_0)
                    && e->Validation_0@ == "unknown NameKind code "@ + debug_str(s@),
            },
    {
        let c = chars_of(s);
        if lit_eq(c.as_slice(), "birth") {
            Ok(NameKind::Birth)
        } else if lit_eq(c.as_slice(), "married") {
            Ok(NameKind::Married)
        } else if lit_eq(c.as_slice(), "aka") {
            Ok(NameKind::Aka)
        } else if lit_eq(c.as_slice(), "religious") {
            Ok(NameKind::Religious)
        } else {
            let mut m: Vec<char> = Vec::new();
            push_str(&mut m, "unknown NameKind code ");
            let q = debug_quoted(s);
            push_str(&mut m, q.as_str());
            Err(CoreError::Validation(string_from_chars(m)))
        }
    }
}

impl std::str::FromStr for NameKind {
    type Err = CoreError;

    fn from_str(s: &str) -> (r: Result<NameKind, CoreError>)
        ensures
            match r {
                Ok(v) => v.code() == s@,
                Err(e) => (forall|v: NameKind| v.code() != s@)
                    && e == CoreError::Validation(e->Validation_0)
                    && e->Validation_0@ == "unknown NameKind code "@ + debug_str(s@),
            },
    {
        NameKind::parse(s)
    }
}

/// Every NameKind code names exactly one variant, so parsing a variant's code
/// gives that variant back.
pub proof fn law_name_kind_codes_distinct(a: NameKind, b: NameKind)
    ensures
        a.code() == b.code() ==> a == b,
{
    reveal_strlit("birth");
    reveal_strlit("married");
    reveal_strlit("aka");
    reveal_strlit("religious");
    if a != b {
        assert(a.code().len() != b.code().len() || a.code()[0] != b.code()[0]);
    }
}

/// A citation's confidence in the evidence it records.
#[derive(Debug, Clone, Copy, PartialEq, Eq, Hash, Structural)]
pub enum Confidence {
    /// Stored as `primary`.
    Primary,
    /// Stored as `secondary`.
    Secondary,
    /// Stored as `questionable`.
    Questionable,
}

impl Confidence {
    /// The TEXT code of a variant.
    pub open spec fn code(self) -> Seq<char> {
        match self {
            Confidence::Primary => "primary"@,
            Confidence::Secondary => "secondary"@,
            Confidence::Questionable => "questionable"@,
        }
    }

    /// The TEXT code stored in the database.
    pub fn as_str(self) -> (r: &'static str)
        ensures
            r@ == self.code(),
    {
        match self {
            Confidence::Primary => "primary",
            Confidence::Secondary => "secondary",
            Confidence::Questionable => "questionable",
        }
    }

    /// Parses a TEXT code.
    ///
    /// # Errors
    /// [`CoreError::Validation`] (`unknown Confidence code "…"`) when `s` is not
    /// one of the codes.
    pub fn parse(s: &str) -> (r: Result<Confidence, CoreError>)
        ensures
            match r {
                Ok(v) => v.code() == s@,
                Err(e) => (forall|v: Confidence| v.code() != s@)
                    && e == CoreError::Validation(e->Validation_0)
                    && e->Validation_0@ == "unknown Confidence code "@ + debug_str(s@),
            },
    {
        let c = chars_of(s);
        if lit_eq(c.as_slice(), "primary") {
            Ok(Confidence::Primary)
        } else if lit_eq(c.as_slice(), "secondary") {
            Ok(Confidence::Secondary)
        } else if lit_eq(c.as_slice(), "questionable") {
            Ok(Confidence::Questionable)
        } else {
            let mut m: Vec<char> = Vec::new();
            push_str(&mut m, "unknown Confidence code ");
            let q = debug_quoted(s);
            push_str(&mut m, q.as_str());
            Err(CoreError::Validation(string_from_chars(m)))
        }
    }
}

impl std::str::FromStr for Confidence {
    type Err = CoreError;

    fn from_str(s: &str) -> (r: Result<Confidence, CoreError>)
        ensures
            match r {
                Ok(v) => v.code() == s@,
                Err(e) => (forall|v: Confidence| v.code() != s@)
                    && e == CoreError::Validation(e->Validation_0)
                    && e->Validation_0@ == "unknown Confidence code "@ + debug_str(s@),
            },
    {
        Confidence::parse(s)
    }
}

/// Every Confidence code names exactly one variant, so parsing a variant's code
/// gives that variant back.
pub proof fn law_confidence_codes_distinct(a: Confidence, b: Confidence)
    ensures
        a.code() == b.code() ==> a == b,
{
    reveal_strlit("primary");
    reveal_strlit("secondary");
    reveal_strlit("questionable");
    if a != b {
        assert(a.code().len() != b.code().len() || a.code()[0] != b.code()[0]);
    }
}

/// The kind of an event. Known kinds map to fixed codes; anything else is kept
/// verbatim in [`EventKind::Other`], so no imported kind is lost.
#[derive(Debug, Clone, PartialEq, Eq, Hash)]
pub enum EventKind {
    /// Birth.
    Birth,
    /// Death.
    Death,
    /// Marriage (a family event).
    Marriage,
    /// Divorce (a family event).
    Divorce,
    /// Baptism / christening.
    Baptism,
    /// Burial.
    Burial,
    /// Residence.
    Residence,
    /// Occupation.
    Occupation,
    /// Any other kind, stored as-is.
    Other(String),
}

/// Whether `s` is the code of one of the fixed event kinds.
pub open spec fn is_known_event_code(s: Seq<char>) -> bool {
    s == "birth"@
        || s == "death"@
        || s == "marriage"@
        || s == "divorce"@
        || s == "baptism"@
        || s == "burial"@
        || s == "residence"@
        || s == "occupation"@
}

impl EventKind {
    /// The TEXT code of a kind (an `Other` kind's own text).
    pub open spec fn code(&self) -> Seq<char> {
        match self {
            EventKind::Birth => "birth"@,
            EventKind::Death => "death"@,
            EventKind::Marriage => "marriage"@,
            EventKind::Divorce => "divorce"@,
            EventKind::Baptism => "baptism"@,
            EventKind::Burial => "burial"@,
            EventKind::Residence => "residence"@,
            EventKind::Occupation => "occupation"@,
            EventKind::Other(s) => s@,
        }
    }

    /// The TEXT code stored in the database. For [`EventKind::Other`] this is
    /// the kind's own text.
    pub fn as_str(&self) -> (r: &str)
        ensures
            r@ == self.code(),
    {
        match self {
            EventKind::Birth => "birth",
            EventKind::Death => "death",
            EventKind::Marriage => "marriage",
            EventKind::Divorce => "divorce",
            EventKind::Baptism => "baptism",
            EventKind::Burial => "burial",
            EventKind::Residence => "residence",
            EventKind::Occupation => "occupation",
            EventKind::Other(s) => s.as_str(),
        }
    }

    /// The kind a TEXT code names: a fixed kind for its code, otherwise
    /// [`EventKind::Other`] holding `s` verbatim.
    pub fn from(s: &str) -> (r: EventKind)
        ensures
            r.code() == s@,
            r is Other <==> !is_known_event_code(s@),
    {
        let c = chars_of(s);
        if lit_eq(c.as_slice(), "birth") {
            EventKind::Birth
        } else if lit_eq(c.as_slice(), "death") {
            EventKind::Death
        } else if lit_eq(c.as_slice(), "marriage") {
            EventKind::Marriage
        } else if lit_eq(c.as_slice(), "divorce") {
            EventKind::Divorce
        } else if lit_eq(c.as_slice(), "baptism") {
            EventKind::Baptism
        } else if lit_eq(c.as_slice(), "burial") {
            EventKind::Burial
        } else if lit_eq(c.as_slice(), "residence") {
            EventKind::Residence
        } else if lit_eq(c.as_slice(), "occupation") {
            EventKind::Occupation
        } else {
            EventKind::Other(s.to_owned())
        }
    }

    /// A copy of this kind.
    pub fn copy(&self) -> (r: EventKind)
        ensures
            r == *self,
    {
        match self {
            EventKind::Birth => EventKind::Birth,
            EventKind::Death => EventKind::Death,
            EventKind::Marriage => EventKind::Marriage,
            EventKind::Divorce => EventKind::Divorce,
            EventKind::Baptism => EventKind::Baptism,
            EventKind::Burial => EventKind::Burial,
            EventKind::Residence => EventKind::Residence,
            EventKind::Occupation => EventKind::Occupation,
            EventKind::Other(s) => EventKind::Other(s.clone()),
        }
    }
}


/// Distinct fixed event kinds have distinct codes.
proof fn lemma_fixed_event_codes_distinct(a: EventKind, b: EventKind)
    requires
        !(a is Other),
        !(b is Other),
    ensures
        a.code() == b.code() ==> a == b,
{
    reveal_strlit("birth");
    reveal_strlit("death");
    reveal_strlit("marriage");
    reveal_strlit("divorce");
    reveal_strlit("baptism");
    reveal_strlit("burial");
    reveal_strlit("residence");
    reveal_strlit("occupation");
    if a != b {
        assert(a.code().len() != b.code().len() || a.code()[0] != b.code()[0]);
    }
}

/// A fixed kind's code reads back as that kind, and an `Other` kind whose text
/// is not a fixed kind's code reads back as an `Other` kind with the same text.
pub proof fn law_event_kind_code_round_trip(k: EventKind, r: EventKind)
    requires
        r.code() == k.code(),
        r is Other <==> !is_known_event_code(k.code()),
        !(k is Other) || !is_known_event_code(k.code()),
    ensures
        k is Other ==> r is Other && r.code() == k.code(),
        !(k is Other) ==> r == k,
{
    reveal_strlit("birth");
    reveal_strlit("death");
    reveal_strlit("marriage");
    reveal_strlit("divorce");
    reveal_strlit("baptism");
    reveal_strlit("burial");
    reveal_strlit("residence");
    reveal_strlit("occupation");
    if !(k is Other) {
        lemma_fixed_event_codes_distinct(k, r);
    }
}

/// The single subject of an event: an individual **or** a family.
#[derive(Debug, Clone, Copy, PartialEq, Eq, Hash, Structural)]
pub enum EventSubject {
    /// The event belongs to an individual.
    Individual(PersonId),
    /// The event belongs to a family.
    Family(FamilyId),
}

impl EventSubject {
    /// The `individual_id` column value (`Some` only for the individual case).
    pub fn individual_id(self) -> (r: Option<PersonId>)
        ensures
            r == (match self {
                EventSubject::Individual(id) => Some(id),
                EventSubject::Family(_) => None,
            }),
    {
        match self {
            EventSubject::Individual(id) => Some(id),
            EventSubject::Family(_) => None,
        }
    }

    /// The `family_id` column value (`Some` only for the family case).
    pub fn family_id(self) -> (r: Option<FamilyId>)
        ensures
            r == (match self {
                EventSubject::Family(id) => Some(id),
                EventSubject::Individual(_) => None,
            }),
    {
        match self {
            EventSubject::Family(id) => Some(id),
            EventSubject::Individual(_) => None,
        }
    }
}

/// The single subject a piece of media is linked to: an individual, a family,
/// **or** an event.
#[derive(Debug, Clone, Copy, PartialEq, Eq, Hash, Structural)]
pub enum MediaSubject {
    /// An individual.
    Individual(PersonId),
    /// A family.
    Family(FamilyId),
    /// An event.
    Event(EventId),
}

impl MediaSubject {
    /// The `individual_id` column value (`Some` only for the individual case).
    pub fn individual_id(self) -> (r: Option<PersonId>)
        ensures
            r == (match self {
                MediaSubject::Individual(id) => Some(id),
                _ => None,
            }),
    {
        match self {
            MediaSubject::Individual(id) => Some(id),
            MediaSubject::Family(_) | MediaSubject::Event(_) => None,
        }
    }

    /// The `family_id` column value (`Some` only for the family case).
    pub fn family_id(self) -> (r: Option<FamilyId>)
        ensures
            r == (match self {
                MediaSubject::Family(id) => Some(id),
                _ => None,
            }),
    {
        match self {
            MediaSubject::Family(id) => Some(id),
            MediaSubject::Individual(_) | MediaSubject::Event(_) => None,
        }
    }

    /// The `event_id` column value (`Some` only for the event case).
    pub fn event_id(self) -> (r: Option<EventId>)
        ensures
            r == (match self {
                MediaSubject::Event(id) => Some(id),
                _ => None,
            }),
    {
        match self {
            MediaSubject::Event(id) => Some(id),
            MediaSubject::Individual(_) | MediaSubject::Family(_) => None,
        }
    }
}

/// The single fact a citation attaches a source to: an individual, a family,
/// **or** an event.
#[derive(Debug, Clone, Copy, PartialEq, Eq, Hash, Structural)]
pub enum CitationSubject {
    /// An individual.
    Individual(PersonId),
    /// A family.
    Family(FamilyId),
    /// An event.
    Event(EventId),
}

impl CitationSubject {
    /// The `individual_id` column value (`Some` only for the individual case).
    pub fn individual_id(self) -> (r: Option<PersonId>)
        ensures
            r == (match self {
                CitationSubject::Individual(id) => Some(id),
                _ => None,
            }),
    {
        match self {
            CitationSubject::Individual(id) => Some(id),
            CitationSubject::Family(_) | CitationSubject::Event(_) => None,
        }
    }

    /// The `family_id` column value (`Some` only for the family case).
    pub fn family_id(self) -> (r: Option<FamilyId>)
        ensures
            r == (match self {
                CitationSubject::Family(id) => Some(id),
                _ => None,
            }),
    {
        match self {
            CitationSubject::Family(id) => Some(id),
            CitationSubject::Individual(_) | CitationSubject::Event(_) => None,
        }
    }

    /// The `event_id` column value (`Some` only for the event case).
    pub fn event_id(self) -> (r: Option<EventId>)
        ensures
            r == (match self {
                CitationSubject::Event(id) => Some(id),
                _ => None,
            }),
    {
        match self {
            CitationSubject::Event(id) => Some(id),
            CitationSubject::Individual(_) | CitationSubject::Family(_) => None,
        }
    }
}

} // verus!
