//! The domain records — one field per column an entity owns — and the
//! unsaved drafts the create side of the store consumes (a record without its
//! store-assigned id). Places carry coordinates and live with the store.

use vstd::prelude::*;
use crate::date::GenealogicalDate;
use crate::enums::{
    ChildRelation, CitationSubject, Confidence, EventKind, EventSubject, MediaSubject, NameKind,
    Sex, UnionType,
};
use crate::ids::{CitationId, EventId, FamilyId, MediaId, NameId, PersonId, PlaceId, SourceId};

verus! {

/// A person.
#[derive(Debug, Clone, PartialEq, Eq)]
pub struct Individual {
    /// Row id.
    pub id: PersonId,
    /// Given name(s) of the primary name.
    pub given_name: Option<String>,
    /// Surname of the primary name.
    pub surname: Option<String>,
    /// Name prefix (`Dr.`).
    pub name_prefix: Option<String>,
    /// Name suffix (`Jr.`).
    pub name_suffix: Option<String>,
    /// Nickname.
    pub nickname: Option<String>,
    /// Recorded sex.
    pub sex: Sex,
    /// Whether the person is (believed) living.
    pub living: bool,
    /// Free-form notes.
    pub notes: Option<String>,
}

/// An alternate name of an individual.
#[derive(Debug, Clone, PartialEq, Eq)]
pub struct Name {
    /// Row id.
    pub id: NameId,
    /// The individual the name belongs to.
    pub individual_id: PersonId,
    /// What kind of name it is.
    pub kind: NameKind,
    /// Given name(s).
    pub given_name: Option<String>,
    /// Surname.
    pub surname: Option<String>,
    /// Prefix.
    pub name_prefix: Option<String>,
    /// Suffix.
    pub name_suffix: Option<String>,
    /// Display order among the individual's names.
    pub sort_order: i64,
}

/// A family: up to two partners and their children.
#[derive(Debug, Clone, PartialEq, Eq)]
pub struct Family {
    /// Row id.
    pub id: FamilyId,
    /// First partner slot.
    pub partner1: Option<PersonId>,
    /// Second partner slot.
    pub partner2: Option<PersonId>,
    /// The kind of union.
    pub union_type: UnionType,
    /// Free-form notes.
    pub notes: Option<String>,
}

/// A child's membership in a family.
#[derive(Debug, Clone, Copy, PartialEq, Eq)]
pub struct ChildLink {
    /// The family.
    pub family_id: FamilyId,
    /// The child.
    pub child_id: PersonId,
    /// How the child relates to the family.
    pub relation: ChildRelation,
    /// Birth order within the family.
    pub sort_order: i64,
}

/// A dated, placed happening in an individual's or a family's life.
#[derive(Debug, Clone, PartialEq, Eq)]
pub struct Event {
    /// Row id.
    pub id: EventId,
    /// Whose event it is.
    pub subject: EventSubject,
    /// What happened.
    pub kind: EventKind,
    /// When, if known.
    pub date: Option<GenealogicalDate>,
    /// Where, if known.
    pub place: Option<PlaceId>,
    /// Free-form notes.
    pub notes: Option<String>,
}

/// A media file registered in the tree.
#[derive(Debug, Clone, PartialEq, Eq)]
pub struct Media {
    /// Row id.
    pub id: MediaId,
    /// Path relative to the media root.
    pub path: String,
    /// Caption.
    pub caption: Option<String>,
    /// MIME type, if known.
    pub mime: Option<String>,
}

/// A link from a media file to its single subject.
#[derive(Debug, Clone, Copy, PartialEq, Eq)]
pub struct MediaLink {
    /// The media file.
    pub media: MediaId,
    /// What it depicts.
    pub subject: MediaSubject,
    /// Whether it is the subject's primary image.
    pub is_primary: bool,
}

/// A media file as linked to one subject.
#[derive(Debug, Clone, PartialEq, Eq)]
pub struct MediaItem {
    /// The media file.
    pub media: Media,
    /// Whether it is the subject's primary image.
    pub is_primary: bool,
}

/// A source of evidence.
#[derive(Debug, Clone, PartialEq, Eq)]
pub struct Source {
    /// Row id.
    pub id: SourceId,
    /// Title.
    pub title: String,
    /// Author.
    pub author: Option<String>,
    /// Publication facts.
    pub publication: Option<String>,
    /// Repository holding it.
    pub repository: Option<String>,
    /// Free-form notes.
    pub notes: Option<String>,
}

/// A citation of a source for one subject.
#[derive(Debug, Clone, PartialEq, Eq)]
pub struct Citation {
    /// Row id.
    pub id: CitationId,
    /// The cited source.
    pub source: SourceId,
    /// What the citation supports.
    pub subject: CitationSubject,
    /// Page or locator.
    pub page: Option<String>,
    /// Transcription or detail.
    pub detail: Option<String>,
    /// How reliable the evidence is.
    pub confidence: Option<Confidence>,
}

/// A citation together with its source.
#[derive(Debug, Clone, PartialEq, Eq)]
pub struct CitationItem {
    /// The citation.
    pub citation: Citation,
    /// Its source.
    pub source: Source,
}

/// An individual to create.
#[derive(Debug, Clone, PartialEq, Eq)]
pub struct NewIndividual {
    /// Given name(s).
    pub given_name: Option<String>,
    /// Surname.
    pub surname: Option<String>,
    /// Prefix.
    pub name_prefix: Option<String>,
    /// Suffix.
    pub name_suffix: Option<String>,
    /// Nickname.
    pub nickname: Option<String>,
    /// Recorded sex.
    pub sex: Sex,
    /// Whether the person is (believed) living.
    pub living: bool,
    /// Free-form notes.
    pub notes: Option<String>,
}

impl Default for NewIndividual {
    /// No names or notes, sex unknown, living (the schema's column defaults).
    fn default() -> (r: NewIndividual)
        ensures
            r.given_name is None,
            r.surname is None,
            r.name_prefix is None,
            r.name_suffix is None,
            r.nickname is None,
            r.sex == Sex::Unknown,
            r.living,
            r.notes is None,
    {
        NewIndividual {
            given_name: None,
            surname: None,
            name_prefix: None,
            name_suffix: None,
            nickname: None,
            sex: Sex::Unknown,
            living: true,
            notes: None,
        }
    }
}

/// A family to create.
#[derive(Debug, Clone, PartialEq, Eq)]
pub struct NewFamily {
    /// First partner slot.
    pub partner1: Option<PersonId>,
    /// Second partner slot.
    pub partner2: Option<PersonId>,
    /// The kind of union.
    pub union_type: UnionType,
    /// Free-form notes.
    pub notes: Option<String>,
}

impl Default for NewFamily {
    /// No partners or notes, union type unknown.
    fn default() -> (r: NewFamily)
        ensures
            r.partner1 is None,
            r.partner2 is None,
            r.union_type == UnionType::Unknown,
            r.notes is None,
    {
        NewFamily { partner1: None, partner2: None, union_type: UnionType::Unknown, notes: None }
    }
}

/// An alternate name to add.
#[derive(Debug, Clone, PartialEq, Eq)]
pub struct NewName {
    /// The individual it belongs to.
    pub individual_id: PersonId,
    /// What kind of name it is.
    pub kind: NameKind,
    /// Given name(s).
    pub given_name: Option<String>,
    /// Surname.
    pub surname: Option<String>,
    /// Prefix.
    pub name_prefix: Option<String>,
    /// Suffix.
    pub name_suffix: Option<String>,
    /// Display order.
    pub sort_order: i64,
}

/// An event to add.
#[derive(Debug, Clone, PartialEq, Eq)]
pub struct NewEvent {
    /// Whose event it is.
    pub subject: EventSubject,
    /// What happened.
    pub kind: EventKind,
    /// When, if known.
    pub date: Option<GenealogicalDate>,
    /// Where, if known.
    pub place: Option<PlaceId>,
    /// Free-form notes.
    pub notes: Option<String>,
}

/// A media file to register.
#[derive(Debug, Clone, Default, PartialEq, Eq)]
pub struct NewMedia {
    /// Path relative to the media root.
    pub path: String,
    /// Caption.
    pub caption: Option<String>,
    /// MIME type.
    pub mime: Option<String>,
}

/// A source to create.
#[derive(Debug, Clone, Default, PartialEq, Eq)]
pub struct NewSource {
    /// Title.
    pub title: String,
    /// Author.
    pub author: Option<String>,
    /// Publication facts.
    pub publication: Option<String>,
    /// Repository.
    pub repository: Option<String>,
    /// Free-form notes.
    pub notes: Option<String>,
}

/// A citation to add.
#[derive(Debug, Clone, PartialEq, Eq)]
pub struct NewCitation {
    /// The cited source.
    pub source: SourceId,
    /// What the citation supports.
    pub subject: CitationSubject,
    /// Page or locator.
    pub page: Option<String>,
    /// Transcription or detail.
    pub detail: Option<String>,
    /// How reliable the evidence is.
    pub confidence: Option<Confidence>,
}

} // verus!
