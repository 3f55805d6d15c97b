//! Strongly-typed row identifiers: one `Copy` newtype over the `i64` primary key
//! per table, so a person id cannot be passed where a family id is meant.

use vstd::prelude::*;

verus! {

/// Identifies a row in `individuals`.
#[derive(Debug, Clone, Copy, PartialEq, Eq, Hash, PartialOrd, Ord, Structural)]
pub struct PersonId(pub i64);

impl PersonId {
    /// The entity kind this id names, for error messages.
    pub const ENTITY: &'static str = "individual";

    /// Wraps a raw row id.
    pub fn new(id: i64) -> (r: Self)
        ensures
            r.0 == id,
    {
        PersonId(id)
    }

    /// Returns the underlying row id.
    pub fn get(self) -> (r: i64)
        ensures
            r == self.0,
    {
        self.0
    }
}

/// Identifies a row in `families`.
#[derive(Debug, Clone, Copy, PartialEq, Eq, Hash, PartialOrd, Ord, Structural)]
pub struct FamilyId(pub i64);

impl FamilyId {
    /// The entity kind this id names, for error messages.
    pub const ENTITY: &'static str = "family";

    /// Wraps a raw row id.
    pub fn new(id: i64) -> (r: Self)
        ensures
            r.0 == id,
    {
        FamilyId(id)
    }

    /// Returns the underlying row id.
    pub fn get(self) -> (r: i64)
        ensures
            r == self.0,
    {
        self.0
    }
}

/// Identifies a row in `events`.
#[derive(Debug, Clone, Copy, PartialEq, Eq, Hash, PartialOrd, Ord, Structural)]
pub struct EventId(pub i64);

impl EventId {
    /// The entity kind this id names, for error messages.
    pub const ENTITY: &'static str = "event";

    /// Wraps a raw row id.
    pub fn new(id: i64) -> (r: Self)
        ensures
            r.0 == id,
    {
        EventId(id)
    }

    /// Returns the underlying row id.
    pub fn get(self) -> (r: i64)
        ensures
            r == self.0,
    {
        self.0
    }
}

/// Identifies a row in `places`.
#[derive(Debug, Clone, Copy, PartialEq, Eq, Hash, PartialOrd, Ord, Structural)]
pub struct PlaceId(pub i64);

impl PlaceId {
    /// The entity kind this id names, for error messages.
    pub const ENTITY: &'static str = "place";

    /// Wraps a raw row id.
    pub fn new(id: i64) -> (r: Self)
        ensures
            r.0 == id,
    {
        PlaceId(id)
    }

    /// Returns the underlying row id.
    pub fn get(self) -> (r: i64)
        ensures
            r == self.0,
    {
        self.0
    }
}

/// Identifies a row in `names`.
#[derive(Debug, Clone, Copy, PartialEq, Eq, Hash, PartialOrd, Ord, Structural)]
pub struct NameId(pub i64);

impl NameId {
    /// The entity kind this id names, for error messages.
    pub const ENTITY: &'static str = "name";

    /// Wraps a raw row id.
    pub fn new(id: i64) -> (r: Self)
        ensures
            r.0 == id,
    {
        NameId(id)
    }

    /// Returns the underlying row id.
    pub fn get(self) -> (r: i64)
        ensures
            r == self.0,
    {
        self.0
    }
}

/// Identifies a row in `sources`.
#[derive(Debug, Clone, Copy, PartialEq, Eq, Hash, PartialOrd, Ord, Structural)]
pub struct SourceId(pub i64);

impl SourceId {
    /// The entity kind this id names, for error messages.
    pub const ENTITY: &'static str = "source";

    /// Wraps a raw row id.
    pub fn new(id: i64) -> (r: Self)
        ensures
            r.0 == id,
    {
        SourceId(id)
    }

    /// Returns the underlying row id.
    pub fn get(self) -> (r: i64)
        ensures
            r == self.0,
    {
        self.0
    }
}

/// Identifies a row in `citations`.
#[derive(Debug, Clone, Copy, PartialEq, Eq, Hash, PartialOrd, Ord, Structural)]
pub struct CitationId(pub i64);

impl CitationId {
    /// The entity kind this id names, for error messages.
    pub const ENTITY: &'static str = "citation";

    /// Wraps a raw row id.
    pub fn new(id: i64) -> (r: Self)
        ensures
            r.0 == id,
    {
        CitationId(id)
    }

    /// Returns the underlying row id.
    pub fn get(self) -> (r: i64)
        ensures
            r == self.0,
    {
        self.0
    }
}

/// Identifies a row in `media`.
#[derive(Debug, Clone, Copy, PartialEq, Eq, Hash, PartialOrd, Ord, Structural)]
pub struct MediaId(pub i64);

impl MediaId {
    /// The entity kind this id names, for error messages.
    pub const ENTITY: &'static str = "media";

    /// Wraps a raw row id.
    pub fn new(id: i64) -> (r: Self)
        ensures
            r.0 == id,
    {
        MediaId(id)
    }

    /// Returns the underlying row id.
    pub fn get(self) -> (r: i64)
        ensures
            r == self.0,
    {
        self.0
    }
}

} // verus!
