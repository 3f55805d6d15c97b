//! The command line's model: the commands and their arguments, and the
//! parsers that turn an argument's text into a domain value. (Reading the
//! process arguments into these is the application's job.)

use vstd::prelude::*;
use crate::date::GenealogicalDate;
use crate::enums::{
    ChildRelation, CitationSubject, Confidence, EventKind, EventSubject, MediaSubject, NameKind,
    Sex, UnionType,
};
use crate::error::{error_message, CoreError};
use crate::ids::{EventId, FamilyId, PersonId};
use crate::layout::{ChartMode, Theme};
use crate::num::{parse_i64, parse_i64_chars};
use crate::gedcom::lexer::{find_char, opt_view};
use crate::text::{
    chars_of, debug_quoted, debug_str, lit_eq, lower, push_chars, push_str, slice_chars,
    string_from_chars, to_lower, trim, trim_chars,
};

verus! {

/// The command line: global options and one command.
#[derive(Debug, Clone, PartialEq, Eq)]
pub struct Cli {
    /// Options valid on every command.
    pub global: GlobalArgs,
    /// The command to run.
    pub command: Command,
}

/// Options valid on every command.
#[derive(Debug, Clone, PartialEq, Eq)]
pub struct GlobalArgs {
    /// The database file, if given (else the default location).
    pub db: Option<String>,
    /// Emit machine-readable JSON.
    pub json: bool,
    /// Verbosity (repeatable).
    pub verbose: u8,
    /// Suppress confirmations.
    pub quiet: bool,
}

/// A top-level command.
#[derive(Debug, Clone, PartialEq, Eq)]
pub enum Command {
    /// Create a new, empty database.
    Init,
    /// Individuals.
    Person {
        /// What to do.
        command: PersonCommand,
    },
    /// Alternate names.
    Name {
        /// What to do.
        command: NameCommand,
    },
    /// Families.
    Family {
        /// What to do.
        command: FamilyCommand,
    },
    /// Events.
    Event {
        /// What to do.
        command: EventCommand,
    },
    /// Relationship queries.
    Query {
        /// What to do.
        command: QueryCommand,
    },
    /// Database maintenance.
    Db {
        /// What to do.
        command: DbCommand,
    },
    /// Exports.
    Export {
        /// What to do.
        command: ExportCommand,
    },
    /// Imports.
    Import {
        /// What to do.
        command: ImportCommand,
    },
    /// Media.
    Media {
        /// What to do.
        command: MediaCommand,
    },
    /// Sources.
    Source {
        /// What to do.
        command: SourceCommand,
    },
    /// Citations.
    Citation {
        /// What to do.
        command: CitationCommand,
    },
    /// Full-text search.
    Search(SearchArgs),
    /// Developer tools.
    Dev {
        /// What to do.
        command: DevCommand,
    },
}

/// Developer commands.
#[derive(Debug, Clone, PartialEq, Eq)]
pub enum DevCommand {
    /// Fill the database with synthetic people.
    Seed(DevSeedArgs),
}

/// Arguments of `dev seed`.
#[derive(Debug, Clone, PartialEq, Eq)]
pub struct DevSeedArgs {
    /// How many individuals to create.
    pub individuals: u32,
    /// The random seed.
    pub seed: u64,
}

/// Arguments of `search`.
#[derive(Debug, Clone, PartialEq, Eq)]
pub struct SearchArgs {
    /// The query text.
    pub query: String,
    /// The most hits to return.
    pub limit: usize,
}

/// Source commands.
#[derive(Debug, Clone, PartialEq, Eq)]
pub enum SourceCommand {
    /// Add a source.
    Add(SourceAddArgs),
    /// List sources.
    List,
    /// Show a source.
    Show(SourceShowArgs),
    /// Edit a source.
    Edit(SourceEditArgs),
    /// Remove a source.
    Rm(SourceRmArgs),
}

/// Arguments of `source add`.
#[derive(Debug, Clone, PartialEq, Eq)]
pub struct SourceAddArgs {
    /// Title.
    pub title: String,
    /// Author.
    pub author: Option<String>,
    /// Publication facts.
    pub publication: Option<String>,
    /// Repository.
    pub repository: Option<String>,
    /// Notes.
    pub notes: Option<String>,
}

/// Arguments of `source show`.
#[derive(Debug, Clone, PartialEq, Eq)]
pub struct SourceShowArgs {
    /// The source's id.
    pub id: i64,
}

/// Arguments of `source edit`: only the given fields change.
#[derive(Debug, Clone, PartialEq, Eq)]
pub struct SourceEditArgs {
    /// The source's id.
    pub id: i64,
    /// New title.
    pub title: Option<String>,
    /// New author.
    pub author: Option<String>,
    /// New publication facts.
    pub publication: Option<String>,
    /// New repository.
    pub repository: Option<String>,
    /// New notes.
    pub notes: Option<String>,
}

/// Arguments of `source rm`.
#[derive(Debug, Clone, PartialEq, Eq)]
pub struct SourceRmArgs {
    /// The source's id.
    pub id: i64,
}

/// Citation commands.
#[derive(Debug, Clone, PartialEq, Eq)]
pub enum CitationCommand {
    /// Add a citation.
    Add(CitationAddArgs),
    /// List a subject's citations.
    List(CitationListArgs),
    /// Remove a citation.
    Rm(CitationRmArgs),
}

/// Arguments of `citation add`.
#[derive(Debug, Clone, PartialEq, Eq)]
pub struct CitationAddArgs {
    /// The cited source's id.
    pub source: i64,
    /// What the citation supports.
    pub subject: CitationSubject,
    /// Page.
    pub page: Option<String>,
    /// Confidence.
    pub confidence: Option<Confidence>,
    /// Detail.
    pub detail: Option<String>,
}

/// Arguments of `citation list`.
#[derive(Debug, Clone, PartialEq, Eq)]
pub struct CitationListArgs {
    /// Whose citations.
    pub subject: CitationSubject,
}

/// Arguments of `citation rm`.
#[derive(Debug, Clone, PartialEq, Eq)]
pub struct CitationRmArgs {
    /// The citation's id.
    pub id: i64,
}

/// Media commands.
#[derive(Debug, Clone, PartialEq, Eq)]
pub enum MediaCommand {
    /// Import an image for a subject.
    Add(MediaAddArgs),
    /// List a subject's media.
    List(MediaListArgs),
    /// Make a media file a subject's primary image.
    SetPrimary(MediaSetPrimaryArgs),
    /// Remove a media file.
    Rm(MediaRmArgs),
}

/// Arguments of `media add`.
#[derive(Debug, Clone, PartialEq, Eq)]
pub struct MediaAddArgs {
    /// What the image depicts.
    pub subject: MediaSubject,
    /// The image file.
    pub file: String,
    /// Make it the subject's primary image.
    pub primary: bool,
}

/// Arguments of `media list`.
#[derive(Debug, Clone, PartialEq, Eq)]
pub struct MediaListArgs {
    /// Whose media.
    pub subject: MediaSubject,
}

/// Arguments of `media set-primary`.
#[derive(Debug, Clone, PartialEq, Eq)]
pub struct MediaSetPrimaryArgs {
    /// The media file's id.
    pub media: i64,
    /// The subject.
    pub subject: MediaSubject,
}

/// Arguments of `media rm`.
#[derive(Debug, Clone, PartialEq, Eq)]
pub struct MediaRmArgs {
    /// The media file's id.
    pub media: i64,
}

/// Export commands.
#[derive(Debug, Clone, PartialEq, Eq)]
pub enum ExportCommand {
    /// A self-contained HTML chart.
    Html(ExportHtmlArgs),
    /// A GEDCOM document.
    Gedcom(ExportGedcomArgs),
}

/// Arguments of `export gedcom`.
#[derive(Debug, Clone, PartialEq, Eq)]
pub struct ExportGedcomArgs {
    /// The output file.
    pub out: String,
    /// Overwrite an existing file.
    pub force: bool,
}

/// Import commands.
#[derive(Debug, Clone, PartialEq, Eq)]
pub enum ImportCommand {
    /// Import a GEDCOM document.
    Gedcom(ImportGedcomArgs),
}

/// Arguments of `import gedcom`.
#[derive(Debug, Clone, PartialEq, Eq)]
pub struct ImportGedcomArgs {
    /// The document.
    pub file: String,
    /// Append into a non-empty database.
    pub merge: bool,
}

/// Arguments of `export html`.
#[derive(Debug, Clone, PartialEq, Eq)]
pub struct ExportHtmlArgs {
    /// The output file.
    pub out: String,
    /// The root person's id.
    pub root: i64,
    /// The chart mode.
    pub mode: ChartMode,
    /// How many generations to walk.
    pub generations: u32,
    /// The colour theme.
    pub theme: Theme,
    /// Show living people unredacted.
    pub include_living: bool,
    /// Embed portraits.
    pub portraits: bool,
    /// Overwrite an existing file.
    pub force: bool,
}

/// Relationship queries.
#[derive(Debug, Clone, PartialEq, Eq)]
pub enum QueryCommand {
    /// A person's ancestors.
    Ancestors(QueryArgs),
    /// A person's descendants.
    Descendants(QueryArgs),
}

/// Arguments of a relationship query.
#[derive(Debug, Clone, PartialEq, Eq)]
pub struct QueryArgs {
    /// The root person's id.
    pub id: i64,
    /// How many generations to walk.
    pub generations: u32,
}

/// Database maintenance commands.
#[derive(Debug, Clone, PartialEq, Eq)]
pub enum DbCommand {
    /// Copy the database to a file.
    Backup(DbBackupArgs),
    /// Replace the database with a backup.
    Restore(DbRestoreArgs),
    /// Compact the database.
    Vacuum,
}

/// Arguments of `db backup`.
#[derive(Debug, Clone, PartialEq, Eq)]
pub struct DbBackupArgs {
    /// The backup file.
    pub file: String,
    /// Overwrite an existing file.
    pub force: bool,
}

/// Arguments of `db restore`.
#[derive(Debug, Clone, PartialEq, Eq)]
pub struct DbRestoreArgs {
    /// The backup file.
    pub file: String,
    /// Replace an existing database.
    pub force: bool,
}

/// Individual commands.
#[derive(Debug, Clone, PartialEq, Eq)]
pub enum PersonCommand {
    /// Add an individual.
    Add(PersonAddArgs),
    /// List individuals.
    List(PersonListArgs),
    /// Show an individual.
    Show(PersonShowArgs),
    /// Edit an individual.
    Edit(PersonEditArgs),
    /// Remove an individual.
    Rm(PersonRmArgs),
}

/// Arguments of `person add`.
#[derive(Debug, Clone, PartialEq, Eq)]
pub struct PersonAddArgs {
    /// Given name(s).
    pub given: Option<String>,
    /// Surname.
    pub surname: Option<String>,
    /// Prefix.
    pub prefix: Option<String>,
    /// Suffix.
    pub suffix: Option<String>,
    /// Nickname.
    pub nickname: Option<String>,
    /// Sex.
    pub sex: Sex,
    /// Whether living.
    pub living: bool,
    /// Notes.
    pub notes: Option<String>,
    /// Birth date.
    pub birth: Option<GenealogicalDate>,
    /// Death date.
    pub death: Option<GenealogicalDate>,
}

/// Arguments of `person list`.
#[derive(Debug, Clone, PartialEq, Eq)]
pub struct PersonListArgs {
    /// Only people with this surname.
    pub surname: Option<String>,
}

/// Arguments of `person show`.
#[derive(Debug, Clone, PartialEq, Eq)]
pub struct PersonShowArgs {
    /// The individual's id.
    pub id: i64,
}

/// Arguments of `person rm`.
#[derive(Debug, Clone, PartialEq, Eq)]
pub struct PersonRmArgs {
    /// The individual's id.
    pub id: i64,
}

/// Arguments of `person edit`: only the given fields change.
#[derive(Debug, Clone, PartialEq, Eq)]
pub struct PersonEditArgs {
    /// The individual's id.
    pub id: i64,
    /// New given name(s).
    pub given: Option<String>,
    /// New surname.
    pub surname: Option<String>,
    /// New prefix.
    pub prefix: Option<String>,
    /// New suffix.
    pub suffix: Option<String>,
    /// New nickname.
    pub nickname: Option<String>,
    /// New sex.
    pub sex: Option<Sex>,
    /// New living flag.
    pub living: Option<bool>,
    /// New notes.
    pub notes: Option<String>,
}

/// Alternate-name commands.
#[derive(Debug, Clone, PartialEq, Eq)]
pub enum NameCommand {
    /// Add a name.
    Add(NameAddArgs),
    /// List a person's names.
    List(NameListArgs),
    /// Remove a name.
    Rm(NameRmArgs),
}

/// Arguments of `name add`.
#[derive(Debug, Clone, PartialEq, Eq)]
pub struct NameAddArgs {
    /// The individual's id.
    pub person_id: i64,
    /// The name's kind.
    pub kind: NameKind,
    /// Given name(s).
    pub given: Option<String>,
    /// Surname.
    pub surname: Option<String>,
    /// Prefix.
    pub prefix: Option<String>,
    /// Suffix.
    pub suffix: Option<String>,
    /// Display order.
    pub order: i64,
}

/// Arguments of `name list`.
#[derive(Debug, Clone, PartialEq, Eq)]
pub struct NameListArgs {
    /// The individual's id.
    pub person_id: i64,
}

/// Arguments of `name rm`.
#[derive(Debug, Clone, PartialEq, Eq)]
pub struct NameRmArgs {
    /// The name's id.
    pub id: i64,
}

/// Family commands.
#[derive(Debug, Clone, PartialEq, Eq)]
pub enum FamilyCommand {
    /// Create a family.
    New(FamilyNewArgs),
    /// Put a person in a free partner slot.
    AddPartner(FamilyAddPartnerArgs),
    /// Add a child.
    AddChild(FamilyAddChildArgs),
    /// Show a family.
    Show(FamilyShowArgs),
    /// List families.
    List,
    /// Remove a family.
    Rm(FamilyRmArgs),
    /// Remove a child from a family.
    RemoveChild(FamilyRemoveChildArgs),
}

/// Arguments of `family new`.
#[derive(Debug, Clone, PartialEq, Eq)]
pub struct FamilyNewArgs {
    /// Partner ids (at most two).
    pub partner: Vec<i64>,
    /// The union type.
    pub union_type: UnionType,
    /// Notes.
    pub notes: Option<String>,
}

/// Arguments of `family add-partner`.
#[derive(Debug, Clone, PartialEq, Eq)]
pub struct FamilyAddPartnerArgs {
    /// The family's id.
    pub family_id: i64,
    /// The partner's id.
    pub person_id: i64,
}

/// Arguments of `family add-child`.
#[derive(Debug, Clone, PartialEq, Eq)]
pub struct FamilyAddChildArgs {
    /// The family's id.
    pub family_id: i64,
    /// The child's id.
    pub person_id: i64,
    /// The child's relation.
    pub relation: ChildRelation,
    /// Birth order (after the existing children when absent).
    pub order: Option<i64>,
}

/// Arguments of `family show`.
#[derive(Debug, Clone, PartialEq, Eq)]
pub struct FamilyShowArgs {
    /// The family's id.
    pub id: i64,
}

/// Arguments of `family rm`.
#[derive(Debug, Clone, PartialEq, Eq)]
pub struct FamilyRmArgs {
    /// The family's id.
    pub id: i64,
}

/// Arguments of `family remove-child`.
#[derive(Debug, Clone, PartialEq, Eq)]
pub struct FamilyRemoveChildArgs {
    /// The family's id.
    pub family_id: i64,
    /// The child's id.
    pub child_id: i64,
}

/// Event commands.
#[derive(Debug, Clone, PartialEq, Eq)]
pub enum EventCommand {
    /// Add an event.
    Add(EventAddArgs),
    /// Show an event.
    Show(EventShowArgs),
    /// Edit an event.
    Edit(EventEditArgs),
    /// Remove an event.
    Rm(EventRmArgs),
}

/// Arguments of `event add`.
#[derive(Debug, Clone, PartialEq, Eq)]
pub struct EventAddArgs {
    /// Whose event it is.
    pub subject: EventSubject,
    /// What happened.
    pub kind: EventKind,
    /// When.
    pub date: Option<GenealogicalDate>,
    /// Where, by name (conflicts with `place_id`).
    pub place: Option<String>,
    /// Where, by id.
    pub place_id: Option<i64>,
    /// Notes.
    pub notes: Option<String>,
}

/// Arguments of `event show`.
#[derive(Debug, Clone, PartialEq, Eq)]
pub struct EventShowArgs {
    /// The event's id.
    pub id: i64,
}

/// Arguments of `event edit`: only the given fields change.
#[derive(Debug, Clone, PartialEq, Eq)]
pub struct EventEditArgs {
    /// The event's id.
    pub id: i64,
    /// New kind.
    pub kind: Option<EventKind>,
    /// New date.
    pub date: Option<GenealogicalDate>,
    /// New place, by name.
    pub place: Option<String>,
    /// New place, by id.
    pub place_id: Option<i64>,
    /// New notes.
    pub notes: Option<String>,
}

/// Arguments of `event rm`.
#[derive(Debug, Clone, PartialEq, Eq)]
pub struct EventRmArgs {
    /// The event's id.
    pub id: i64,
}

/// The view of a parse result whose error is a message.
pub open spec fn res_view<T>(r: Result<T, String>) -> Result<T, Seq<char>> {
    match r {
        Ok(v) => Ok(v),
        Err(m) => Err(m@),
    }
}

/// Argument parser for a sex code (`M`, `F`, `X`, `U`).
pub fn parse_sex(s: &str) -> (r: Result<Sex, String>)
    ensures
        match r {
            Ok(v) => v.code() == s@,
            Err(m) => (forall|v: Sex| v.code() != s@) && m@ == "unknown Sex code "@ + debug_str(s@),
        },
{
    match Sex::parse(s) {
        Ok(v) => Ok(v),
        Err(e) => Err(e.message()),
    }
}

/// Argument parser for a union type code.
pub fn parse_union_type(s: &str) -> (r: Result<UnionType, String>)
    ensures
        match r {
            Ok(v) => v.code() == s@,
            Err(m) => (forall|v: UnionType| v.code() != s@) && m@ == "unknown UnionType code "@
                + debug_str(s@),
        },
{
    match UnionType::parse(s) {
        Ok(v) => Ok(v),
        Err(e) => Err(e.message()),
    }
}

/// Argument parser for a child relation code.
pub fn parse_child_relation(s: &str) -> (r: Result<ChildRelation, String>)
    ensures
        match r {
            Ok(v) => v.code() == s@,
            Err(m) => (forall|v: ChildRelation| v.code() != s@) && m@
                == "unknown ChildRelation code "@ + debug_str(s@),
        },
{
    match ChildRelation::parse(s) {
        Ok(v) => Ok(v),
        Err(e) => Err(e.message()),
    }
}

/// Argument parser for a name kind code.
pub fn parse_name_kind(s: &str) -> (r: Result<NameKind, String>)
    ensures
        match r {
            Ok(v) => v.code() == s@,
            Err(m) => (forall|v: NameKind| v.code() != s@) && m@ == "unknown NameKind code "@
                + debug_str(s@),
        },
{
    match NameKind::parse(s) {
        Ok(v) => Ok(v),
        Err(e) => Err(e.message()),
    }
}

/// Argument parser for a confidence code.
pub fn parse_confidence(s: &str) -> (r: Result<Confidence, String>)
    ensures
        match r {
            Ok(v) => v.code() == s@,
            Err(m) => (forall|v: Confidence| v.code() != s@) && m@ == "unknown Confidence code "@
                + debug_str(s@),
        },
{
    match Confidence::parse(s) {
        Ok(v) => Ok(v),
        Err(e) => Err(e.message()),
    }
}

/// Argument parser for a genealogical date; a malformed date is refused with
/// the date parser's message.
pub fn parse_date(s: &str) -> (r: Result<GenealogicalDate, String>)
    ensures
        match r {
            Ok(d) => crate::date::parse_date(s@) == Some(d),
            Err(_) => crate::date::parse_date(s@) is None,
        },
{
    match GenealogicalDate::parse(s) {
        Ok(d) => Ok(d),
        Err(e) => Err(e.message()),
    }
}

/// Argument parser for an event's open kind: never refuses (an unknown code
/// is kept verbatim as an `Other` kind).
pub fn parse_event_kind(s: &str) -> (r: Result<EventKind, String>)
    ensures
        r matches Ok(k) && k.code() == s@ && (k is Other <==> !crate::enums::is_known_event_code(s@)),
{
    Ok(EventKind::from(s))
}

/// `s` split at its first `:`, if it has one.
pub open spec fn split_colon(s: Seq<char>) -> Option<(Seq<char>, Seq<char>)> {
    match find_char(s, ':', 0) {
        Some(i) => Some((s.take(i), s.skip(i + 1))),
        None => None,
    }
}

/// `kind:id` split and its id read, or the message for a missing `:` or a
/// non-integer id.
pub open spec fn subject_parts(s: Seq<char>, expected: Seq<char>) -> Result<(Seq<char>, i64), Seq<char>> {
    match split_colon(s) {
        None => Err("expected "@ + expected + ", got "@ + debug_str(s)),
        Some((k, id)) => match crate::num::parse_i64(id) {
            None => Err("subject id must be an integer, got "@ + debug_str(id)),
            Some(n) => Ok((k, n)),
        },
    }
}

/// Splits `kind:id` and reads the id (see [`subject_parts`]).
fn split_subject(s: &str, expected: &str) -> (r: Result<(Vec<char>, i64), String>)
    ensures
        match r {
            Ok((k, n)) => subject_parts(s@, expected@) == Ok::<(Seq<char>, i64), Seq<char>>((k@, n)),
            Err(m) => subject_parts(s@, expected@) == Err::<(Seq<char>, i64), Seq<char>>(m@),
        },
{
    let c = chars_of(s);
    let mut i: usize = 0;
    while i < c.len() && c[i] != ':'
        invariant
            i <= c.len(),
            find_char(c@, ':', 0) == find_char(c@, ':', i as int),
        decreases c.len() - i,
    {
        i = i + 1;
    }
    if i == c.len() {
        let mut m: Vec<char> = Vec::new();
        push_str(&mut m, "expected ");
        push_str(&mut m, expected);
        push_str(&mut m, ", got ");
        let q = debug_quoted(s);
        push_str(&mut m, q.as_str());
        assert(m@ =~= "expected "@ + expected@ + ", got "@ + debug_str(s@));
        return Err(string_from_chars(m));
    }
    let k = slice_chars(c.as_slice(), 0, i);
    let id = slice_chars(c.as_slice(), i + 1, c.len());
    assert(k@ =~= c@.take(i as int));
    assert(id@ =~= c@.skip(i + 1));
    match parse_i64_chars(id.as_slice()) {
        Some(n) => Ok((k, n)),
        None => {
            let mut m: Vec<char> = Vec::new();
            push_str(&mut m, "subject id must be an integer, got ");
            let q = debug_quoted(string_from_chars(id).as_str());
            push_str(&mut m, q.as_str());
            assert(m@ =~= "subject id must be an integer, got "@ + debug_str(c@.skip(i + 1)));
            Err(string_from_chars(m))
        },
    }
}

/// A subject-kind message: `subject kind must be <allowed>, got "<kind>"`.
fn kind_error(allowed: &str, kind: Vec<char>) -> (m: String)
    ensures
        m@ == "subject kind must be "@ + allowed@ + ", got "@ + debug_str(kind@),
{
    let mut m: Vec<char> = Vec::new();
    push_str(&mut m, "subject kind must be ");
    push_str(&mut m, allowed);
    push_str(&mut m, ", got ");
    let q = debug_quoted(string_from_chars(kind).as_str());
    push_str(&mut m, q.as_str());
    assert(m@ =~= "subject kind must be "@ + allowed@ + ", got "@ + debug_str(kind@));
    string_from_chars(m)
}

/// What `person:<id>` / `family:<id>` names as an event subject, or the
/// message refusing it.
pub open spec fn spec_parse_subject(s: Seq<char>) -> Result<EventSubject, Seq<char>> {
    match subject_parts(s, "`person:<id>` or `family:<id>`"@) {
        Err(m) => Err(m),
        Ok((k, n)) => if k == "person"@ {
            Ok(EventSubject::Individual(PersonId(n)))
        } else if k == "family"@ {
            Ok(EventSubject::Family(FamilyId(n)))
        } else {
            Err("subject kind must be "@ + "`person` or `family`"@ + ", got "@ + debug_str(k))
        },
    }
}

/// Argument parser for an event subject: `person:<id>` or `family:<id>`.
pub fn parse_subject(s: &str) -> (r: Result<EventSubject, String>)
    ensures
        res_view(r) == spec_parse_subject(s@),
{
    match split_subject(s, "`person:<id>` or `family:<id>`") {
        Err(m) => Err(m),
        Ok((k, n)) => {
            if lit_eq(k.as_slice(), "person") {
                Ok(EventSubject::Individual(PersonId::new(n)))
            } else if lit_eq(k.as_slice(), "family") {
                Ok(EventSubject::Family(FamilyId::new(n)))
            } else {
                Err(kind_error("`person` or `family`", k))
            }
        },
    }
}

/// What `person:<id>` / `family:<id>` / `event:<id>` names as a media
/// subject, or the message refusing it.
pub open spec fn spec_parse_media_subject(s: Seq<char>) -> Result<MediaSubject, Seq<char>> {
    match subject_parts(s, "`person:<id>`, `family:<id>`, or `event:<id>`"@) {
        Err(m) => Err(m),
        Ok((k, n)) => if k == "person"@ {
            Ok(MediaSubject::Individual(PersonId(n)))
        } else if k == "family"@ {
            Ok(MediaSubject::Family(FamilyId(n)))
        } else if k == "event"@ {
            Ok(MediaSubject::Event(EventId(n)))
        } else {
            Err("subject kind must be "@ + "`person`, `family`, or `event`"@ + ", got "@ + debug_str(k))
        },
    }
}

/// Argument parser for a media subject: `person:<id>`, `family:<id>` or
/// `event:<id>`.
pub fn parse_media_subject(s: &str) -> (r: Result<MediaSubject, String>)
    ensures
        res_view(r) == spec_parse_media_subject(s@),
{
    match split_subject(s, "`person:<id>`, `family:<id>`, or `event:<id>`") {
        Err(m) => Err(m),
        Ok((k, n)) => {
            if lit_eq(k.as_slice(), "person") {
                Ok(MediaSubject::Individual(PersonId::new(n)))
            } else if lit_eq(k.as_slice(), "family") {
                Ok(MediaSubject::Family(FamilyId::new(n)))
            } else if lit_eq(k.as_slice(), "event") {
                Ok(MediaSubject::Event(EventId::new(n)))
            } else {
                Err(kind_error("`person`, `family`, or `event`", k))
            }
        },
    }
}

/// What `event:<id>` / `person:<id>` / `family:<id>` names as a citation
/// subject, or the message refusing it.
pub open spec fn spec_parse_citation_subject(s: Seq<char>) -> Result<CitationSubject, Seq<char>> {
    match subject_parts(s, "`event:<id>`, `person:<id>`, or `family:<id>`"@) {
        Err(m) => Err(m),
        Ok((k, n)) => if k == "person"@ {
            Ok(CitationSubject::Individual(PersonId(n)))
        } else if k == "family"@ {
            Ok(CitationSubject::Family(FamilyId(n)))
        } else if k == "event"@ {
            Ok(CitationSubject::Event(EventId(n)))
        } else {
            Err("subject kind must be "@ + "`person`, `family`, or `event`"@ + ", got "@ + debug_str(k))
        },
    }
}

/// Argument parser for a citation subject: `event:<id>`, `person:<id>` or
/// `family:<id>`.
pub fn parse_citation_subject(s: &str) -> (r: Result<CitationSubject, String>)
    ensures
        res_view(r) == spec_parse_citation_subject(s@),
{
    match split_subject(s, "`event:<id>`, `person:<id>`, or `family:<id>`") {
        Err(m) => Err(m),
        Ok((k, n)) => {
            if lit_eq(k.as_slice(), "person") {
                Ok(CitationSubject::Individual(PersonId::new(n)))
            } else if lit_eq(k.as_slice(), "family") {
                Ok(CitationSubject::Family(FamilyId::new(n)))
            } else if lit_eq(k.as_slice(), "event") {
                Ok(CitationSubject::Event(EventId::new(n)))
            } else {
                Err(kind_error("`person`, `family`, or `event`", k))
            }
        },
    }
}

/// The tree chart a mode name (trimmed, any ASCII case) selects, or the
/// message refusing it. The network chart is not offered on the command line.
pub open spec fn spec_parse_tree_mode(s: Seq<char>) -> Result<ChartMode, Seq<char>> {
    let m = lower(trim(s));
    if m == "ancestors"@ {
        Ok(ChartMode::Ancestors)
    } else if m == "descendants"@ {
        Ok(ChartMode::Descendants)
    } else if m == "hourglass"@ {
        Ok(ChartMode::Hourglass)
    } else {
        Err("mode must be `ancestors`, `descendants`, or `hourglass`, got "@ + debug_str(m))
    }
}

/// Argument parser for the tree chart modes (`ancestors`, `descendants`,
/// `hourglass`).
pub fn parse_tree_mode(s: &str) -> (r: Result<ChartMode, String>)
    ensures
        res_view(r) == spec_parse_tree_mode(s@),
{
    let c = chars_of(s);
    let t = trim_chars(c.as_slice());
    let m = to_lower(t.as_slice());
    if lit_eq(m.as_slice(), "ancestors") {
        Ok(ChartMode::Ancestors)
    } else if lit_eq(m.as_slice(), "descendants") {
        Ok(ChartMode::Descendants)
    } else if lit_eq(m.as_slice(), "hourglass") {
        Ok(ChartMode::Hourglass)
    } else {
        let mut e: Vec<char> = Vec::new();
        push_str(&mut e, "mode must be `ancestors`, `descendants`, or `hourglass`, got ");
        let ghost mv = m@;
        let q = debug_quoted(string_from_chars(m).as_str());
        push_str(&mut e, q.as_str());
        assert(e@ =~= "mode must be `ancestors`, `descendants`, or `hourglass`, got "@ + debug_str(mv));
        Err(string_from_chars(e))
    }
}

/// The theme a code names (`light`, `dark`), or the message refusing it.
pub open spec fn spec_parse_theme(s: Seq<char>) -> Result<Theme, Seq<char>> {
    if s == "light"@ {
        Ok(Theme::Light)
    } else if s == "dark"@ {
        Ok(Theme::Dark)
    } else {
        Err("unknown Theme code "@ + debug_str(s))
    }
}

/// Argument parser for an export theme.
pub fn parse_theme(s: &str) -> (r: Result<Theme, String>)
    ensures
        res_view(r) == spec_parse_theme(s@),
{
    let c = chars_of(s);
    if lit_eq(c.as_slice(), "light") {
        Ok(Theme::Light)
    } else if lit_eq(c.as_slice(), "dark") {
        Ok(Theme::Dark)
    } else {
        let mut e: Vec<char> = Vec::new();
        push_str(&mut e, "unknown Theme code ");
        let q = debug_quoted(s);
        push_str(&mut e, q.as_str());
        Err(string_from_chars(e))
    }
}

} // verus!
