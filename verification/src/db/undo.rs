//! What an undoable delete keeps: every row it removed, with its cascade set,
//! so that restoring re-inserts the same rows under their original ids.

use vstd::prelude::*;
use crate::ids::{CitationId, EventId, FamilyId, MediaId, NameId, PersonId, SourceId};
use crate::records::{
    ChildLink, Citation, Event, Family, Individual, Media, MediaLink, Name, Source,
};

verus! {

/// Which destructive action to perform undoably.
#[derive(Debug, Clone, Copy, PartialEq, Eq, Structural)]
pub enum DeleteTarget {
    /// Delete an individual (with names, memberships, events, citations and
    /// media links; partner pointers to them are cleared).
    Individual(PersonId),
    /// Delete a family (with memberships, events, citations and media links).
    Family(FamilyId),
    /// Delete an event (with its citations and media links).
    Event(EventId),
    /// Remove an alternate name.
    Name(NameId),
    /// Remove a child's membership in a family.
    Child {
        /// The family.
        family: FamilyId,
        /// The child.
        child: PersonId,
    },
    /// Delete a source (with its citations).
    Source(SourceId),
    /// Delete a citation.
    Citation(CitationId),
    /// Delete a media object (with its links).
    Media(MediaId),
}

/// Which partner slot of a family a deleted individual occupied.
#[derive(Debug, Clone, Copy, PartialEq, Eq, Structural)]
pub enum PartnerSlot {
    /// The first partner slot.
    One,
    /// The second partner slot.
    Two,
}

/// An event captured with the rows that cascade with it.
#[derive(Debug, Clone, PartialEq, Eq)]
pub struct CapturedEvent {
    /// The event row.
    pub event: Event,
    /// Citations of this event.
    pub citations: Vec<Citation>,
    /// Media links to this event.
    pub media_links: Vec<MediaLink>,
}

/// The captured rows of a deleted individual.
#[derive(Debug, Clone, PartialEq, Eq)]
pub struct IndividualDeletion {
    /// The individual row.
    pub individual: Individual,
    /// Its creation timestamp, kept for an identical restore.
    pub created_at: String,
    /// Its last-update timestamp.
    pub updated_at: String,
    /// Its alternate names.
    pub names: Vec<Name>,
    /// Its memberships as a child.
    pub child_links: Vec<ChildLink>,
    /// Its events, each with its own cascade set.
    pub events: Vec<CapturedEvent>,
    /// Citations of the individual.
    pub citations: Vec<Citation>,
    /// Media links to the individual.
    pub media_links: Vec<MediaLink>,
    /// The partner slots the delete cleared.
    pub partner_slots: Vec<(FamilyId, PartnerSlot)>,
}

/// The captured rows of a deleted family.
#[derive(Debug, Clone, PartialEq, Eq)]
pub struct FamilyDeletion {
    /// The family row.
    pub family: Family,
    /// Its creation timestamp.
    pub created_at: String,
    /// Its last-update timestamp.
    pub updated_at: String,
    /// Its child memberships.
    pub child_links: Vec<ChildLink>,
    /// Its events, each with its own cascade set.
    pub events: Vec<CapturedEvent>,
    /// Citations of the family.
    pub citations: Vec<Citation>,
    /// Media links to the family.
    pub media_links: Vec<MediaLink>,
}

/// The captured rows of a deleted source.
#[derive(Debug, Clone, PartialEq, Eq)]
pub struct SourceDeletion {
    /// The source row.
    pub source: Source,
    /// The citations of it.
    pub citations: Vec<Citation>,
}

/// The captured rows of a deleted media object.
#[derive(Debug, Clone, PartialEq, Eq)]
pub struct MediaDeletion {
    /// The media row.
    pub media: Media,
    /// Its links.
    pub links: Vec<MediaLink>,
}

/// Every row an undoable delete removed.
#[derive(Debug, Clone, PartialEq, Eq)]
pub enum Deletion {
    /// An individual and its cascade set.
    Individual(IndividualDeletion),
    /// A family and its cascade set.
    Family(FamilyDeletion),
    /// An event and its cascade set.
    Event(CapturedEvent),
    /// An alternate name.
    Name(Name),
    /// A child membership.
    Child(ChildLink),
    /// A source and its citations.
    Source(SourceDeletion),
    /// A citation.
    Citation(Citation),
    /// A media object and its links.
    Media(MediaDeletion),
}

} // verus!
