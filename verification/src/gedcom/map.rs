//! Reading records into the model: checking a document's declared encoding
//! and its cross-references, and reading names, drafts and relations out of
//! records. The import plan built from them is in
//! [`plan`](crate::gedcom::plan).

use vstd::prelude::*;
use crate::enums::{ChildRelation, Sex};
use crate::error::CoreError;
use crate::gedcom::lexer::{char_views, find_char, opt_view};
use crate::gedcom::tags::{child_relation_for_pedi, spec_relation_for_pedi};
use crate::gedcom::tree::{first_tagged, tagged, GedcomRecord};
use crate::num::{int_text, push_int};
use crate::records::{NewIndividual, NewMedia, NewSource};
use crate::text::{
    chars_eq, chars_of, debug_quoted, debug_str, lit_eq, push_str, slice_chars, string_from_chars, to_upper,
    trim, trim_chars, upper,
};

verus! {

/// A record's value.
pub open spec fn value_of(r: GedcomRecord) -> Option<Seq<char>> {
    opt_view(r.value)
}

/// A record's first child with `tag`.
pub open spec fn child_of(r: GedcomRecord, tag: Seq<char>) -> Option<GedcomRecord> {
    match first_tagged(r.children@, tag, 0) {
        Some(i) => Some(r.children@[i]),
        None => None,
    }
}

/// The value of a record's first child with `tag`.
pub open spec fn child_value(r: GedcomRecord, tag: Seq<char>) -> Option<Seq<char>> {
    match child_of(r, tag) {
        Some(c) => value_of(c),
        None => None,
    }
}

/// `a`, or `b` when `a` is absent.
pub open spec fn or_else<T>(a: Option<T>, b: Option<T>) -> Option<T> {
    match a {
        Some(x) => Some(x),
        None => b,
    }
}

/// Whether a record has tag `tag`.
pub fn tag_is(rec: &GedcomRecord, tag: &str) -> (b: bool)
    ensures
        b == (rec.tag@ == tag@),
{
    let c = chars_of(rec.tag.as_str());
    lit_eq(c.as_slice(), tag)
}

/// The value of a record's first child with `tag`, copied.
pub fn child_string(rec: &GedcomRecord, tag: &str) -> (r: Option<String>)
    ensures
        opt_view(r) == child_value(*rec, tag@),
{
    match rec.child(tag) {
        Some(c) => match &c.value {
            Some(v) => Some(v.clone()),
            None => None,
        },
        None => None,
    }
}

/// The id inside an `@…@` pointer (`@F1@` → `F1`), if `v` is one.
pub open spec fn spec_strip_pointer(v: Seq<char>) -> Option<Seq<char>> {
    if v.len() >= 2 && v[0] == '@' && v.last() == '@' {
        Some(v.subrange(1, v.len() - 1))
    } else {
        None
    }
}

/// Strips the `@…@` wrapper from a pointer value (`@F1@` → `F1`).
pub fn strip_pointer(v: &[char]) -> (r: Option<Vec<char>>)
    ensures
        match r {
            Some(x) => spec_strip_pointer(v@) == Some(x@),
            None => spec_strip_pointer(v@) is None,
        },
{
    if v.len() >= 2 && v[0] == '@' && v[v.len() - 1] == '@' {
        Some(slice_chars(v, 1, v.len() - 1))
    } else {
        None
    }
}

/// The pointer id of an optional value.
pub open spec fn pointer_of(v: Option<Seq<char>>) -> Option<Seq<char>> {
    match v {
        Some(x) => spec_strip_pointer(x),
        None => None,
    }
}

/// The pointer id a record's value holds, if any.
pub fn record_pointer(rec: &GedcomRecord) -> (r: Option<Vec<char>>)
    ensures
        match r {
            Some(x) => pointer_of(value_of(*rec)) == Some(x@),
            None => pointer_of(value_of(*rec)) is None,
        },
{
    match &rec.value {
        Some(v) => {
            let c = chars_of(v.as_str());
            strip_pointer(c.as_slice())
        },
        None => None,
    }
}

/// A trimmed text, or nothing when it is empty.
pub open spec fn non_empty_trim(t: Seq<char>) -> Option<Seq<char>> {
    if trim(t).len() == 0 {
        None
    } else {
        Some(trim(t))
    }
}

/// The given-name part of a `given /surname/` value: the text before the first
/// `/` (all of it without one), trimmed; nothing when that is empty.
pub open spec fn spec_slash_given(value: Option<Seq<char>>) -> Option<Seq<char>> {
    match value {
        None => None,
        Some(v) => non_empty_trim(
            match find_char(v, '/', 0) {
                Some(i) => v.take(i),
                None => v,
            },
        ),
    }
}

/// The surname part of a `given /surname/` value: the text after the first
/// `/` up to the next one (or the end), trimmed; nothing without a `/` or when
/// that is empty.
pub open spec fn spec_slash_surname(value: Option<Seq<char>>) -> Option<Seq<char>> {
    match value {
        None => None,
        Some(v) => match find_char(v, '/', 0) {
            None => None,
            Some(i) => {
                let rest = v.skip(i + 1);
                non_empty_trim(
                    match find_char(rest, '/', 0) {
                        Some(j) => rest.take(j),
                        None => rest,
                    },
                )
            },
        },
    }
}

/// The index of the first `c` in `s` at or after `from`.
fn find_in(s: &[char], c: char, from: usize) -> (r: Option<usize>)
    ensures
        match r {
            Some(i) => find_char(s@, c, from as int) == Some(i as int) && from <= i < s.len(),
            None => find_char(s@, c, from as int) is None,
        },
{
    let mut i: usize = from;
    while i < s.len()
        invariant
            from <= i,
            find_char(s@, c, from as int) == find_char(s@, c, i as int),
        decreases s.len() - i,
    {
        if s[i] == c {
            return Some(i);
        }
        i = i + 1;
    }
    None
}

/// A trimmed copy of `t`, or nothing when it is empty.
fn trimmed_or_none(t: &[char]) -> (r: Option<String>)
    ensures
        opt_view(r) == non_empty_trim(t@),
{
    let x = trim_chars(t);
    if x.len() == 0 {
        None
    } else {
        Some(string_from_chars(x))
    }
}

/// The given-name part of a `given /surname/` value.
pub fn slash_given(value: Option<&str>) -> (r: Option<String>)
    ensures
        opt_view(r) == spec_slash_given(
            match value {
                Some(v) => Some(v@),
                None => None,
            },
        ),
{
    match value {
        None => None,
        Some(v) => {
            let c = chars_of(v);
            match find_in(c.as_slice(), '/', 0) {
                Some(i) => {
                    let before = slice_chars(c.as_slice(), 0, i);
                    assert(before@ =~= c@.take(i as int));
                    trimmed_or_none(before.as_slice())
                },
                None => trimmed_or_none(c.as_slice()),
            }
        },
    }
}

/// The surname part of a `given /surname/` value.
pub fn slash_surname(value: Option<&str>) -> (r: Option<String>)
    ensures
        opt_view(r) == spec_slash_surname(
            match value {
                Some(v) => Some(v@),
                None => None,
            },
        ),
{
    match value {
        None => None,
        Some(v) => {
            let c = chars_of(v);
            match find_in(c.as_slice(), '/', 0) {
                None => None,
                Some(i) => {
                    let rest = slice_chars(c.as_slice(), i + 1, c.len());
                    assert(rest@ =~= c@.skip(i + 1));
                    match find_in(rest.as_slice(), '/', 0) {
                        Some(j) => {
                            let seg = slice_chars(rest.as_slice(), 0, j);
                            assert(seg@ =~= rest@.take(j as int));
                            trimmed_or_none(seg.as_slice())
                        },
                        None => trimmed_or_none(rest.as_slice()),
                    }
                },
            }
        },
    }
}

/// The components of a `NAME` record.
#[derive(Debug, Clone, Default, PartialEq, Eq)]
pub struct NameParts {
    /// Given name(s).
    pub given: Option<String>,
    /// Surname.
    pub surname: Option<String>,
    /// Prefix.
    pub prefix: Option<String>,
    /// Suffix.
    pub suffix: Option<String>,
    /// Nickname.
    pub nickname: Option<String>,
}

/// A `NAME` record's given name: its `GIVN`, else the slash form's given part.
pub open spec fn spec_given(rec: GedcomRecord) -> Option<Seq<char>> {
    or_else(child_value(rec, "GIVN"@), spec_slash_given(value_of(rec)))
}

/// A `NAME` record's surname: its `SURN`, else the slash form's surname.
pub open spec fn spec_surname(rec: GedcomRecord) -> Option<Seq<char>> {
    or_else(child_value(rec, "SURN"@), spec_slash_surname(value_of(rec)))
}

/// Reads a `NAME` record's components, preferring the `GIVN`/`SURN`/`NPFX`/
/// `NSFX`/`NICK` sub-records and falling back to the `given /surname/` value.
pub fn name_parts(rec: &GedcomRecord) -> (r: NameParts)
    ensures
        opt_view(r.given) == spec_given(*rec),
        opt_view(r.surname) == spec_surname(*rec),
        opt_view(r.prefix) == child_value(*rec, "NPFX"@),
        opt_view(r.suffix) == child_value(*rec, "NSFX"@),
        opt_view(r.nickname) == child_value(*rec, "NICK"@),
{
    let value: Option<&str> = match &rec.value {
        Some(v) => Some(v.as_str()),
        None => None,
    };
    let given = match child_string(rec, "GIVN") {
        Some(g) => Some(g),
        None => slash_given(value),
    };
    let surname = match child_string(rec, "SURN") {
        Some(s) => Some(s),
        None => slash_surname(value),
    };
    NameParts {
        given,
        surname,
        prefix: child_string(rec, "NPFX"),
        suffix: child_string(rec, "NSFX"),
        nickname: child_string(rec, "NICK"),
    }
}

/// The index of the first name without a `TYPE` at or after `from`.
pub open spec fn first_untyped(names: Seq<GedcomRecord>, from: int) -> Option<int>
    decreases names.len() - from,
{
    if from < 0 || from >= names.len() {
        None
    } else if child_of(names[from], "TYPE"@) is None {
        Some(from)
    } else {
        first_untyped(names, from + 1)
    }
}

/// The index of an individual's primary name among its `NAME` records: the
/// first without a `TYPE`, else the first.
pub open spec fn primary_index(names: Seq<GedcomRecord>) -> int {
    match first_untyped(names, 0) {
        Some(i) => i,
        None => 0,
    }
}

/// Splits an individual's `NAME` records into the primary (the first without a
/// `TYPE`, else the first) and the alternates, in order.
pub fn split_names(rec: &GedcomRecord) -> (r: (Option<&GedcomRecord>, Vec<&GedcomRecord>))
    ensures
        ({
            let names = tagged(rec.children@, "NAME"@);
            if names.len() == 0 {
                r.0 is None && r.1.len() == 0
            } else {
                let p = primary_index(names);
                &&& 0 <= p < names.len()
                &&& r.0 matches Some(n) && *n == names[p]
                &&& r.1.len() == names.len() - 1
                &&& forall|i: int| 0 <= i < r.1.len() ==> *r.1@[i] == names.remove(p)[i]
            }
        }),
{
    let names = rec.children_with("NAME");
    let ghost ns = tagged(rec.children@, "NAME"@);
    if names.len() == 0 {
        return (None, Vec::new());
    }
    let mut p: usize = 0;
    while p < names.len() && names[p].child("TYPE").is_some()
        invariant
            p <= names.len(),
            names.len() == ns.len(),
            forall|i: int| 0 <= i < names.len() ==> *names@[i] == ns[i],
            first_untyped(ns, 0) == first_untyped(ns, p as int),
        decreases names.len() - p,
    {
        assert(*names@[p as int] == ns[p as int]);
        p = p + 1;
    }
    if p == names.len() {
        p = 0;
    } else {
        assert(*names@[p as int] == ns[p as int]);
    }
    assert(p as int == primary_index(ns));
    let mut alternates: Vec<&GedcomRecord> = Vec::new();
    let mut i: usize = 0;
    while i < names.len()
        invariant
            i <= names.len(),
            p < names.len(),
            names.len() == ns.len(),
            forall|k: int| 0 <= k < names.len() ==> *names@[k] == ns[k],
            alternates.len() == if i <= p { i as int } else { i - 1 },
            forall|k: int|
                0 <= k < alternates.len() ==> *alternates@[k] == ns.remove(p as int)[k],
        decreases names.len() - i,
    {
        if i != p {
            alternates.push(names[i]);
        }
        i = i + 1;
    }
    (Some(names[p]), alternates)
}

/// The sex an `INDI` record's `SEX` value names, if it is one of the codes.
pub open spec fn code_names_sex(v: Seq<char>) -> bool {
    exists|s: Sex| s.code() == v
}

/// Whether `r` is the individual an `INDI` record describes, named by the
/// given primary `NAME` record: sex from `SEX` (unknown when absent or not a
/// code), notes from `NOTE`, and not living.
pub open spec fn draft_fields(rec: GedcomRecord, primary: Option<GedcomRecord>, r: NewIndividual) -> bool {
    &&& match primary {
        Some(n) => {
            &&& opt_view(r.given_name) == spec_given(n)
            &&& opt_view(r.surname) == spec_surname(n)
            &&& opt_view(r.name_prefix) == child_value(n, "NPFX"@)
            &&& opt_view(r.name_suffix) == child_value(n, "NSFX"@)
            &&& opt_view(r.nickname) == child_value(n, "NICK"@)
        },
        None => r.given_name is None && r.surname is None && r.name_prefix is None
            && r.name_suffix is None && r.nickname is None,
    }
    &&& match child_value(rec, "SEX"@) {
        Some(v) => if code_names_sex(v) {
            r.sex.code() == v
        } else {
            r.sex == Sex::Unknown
        },
        None => r.sex == Sex::Unknown,
    }
    &&& !r.living
    &&& opt_view(r.notes) == child_value(rec, "NOTE"@)
}

/// An individual's primary `NAME` record, if it has any.
pub open spec fn primary_of(rec: GedcomRecord) -> Option<GedcomRecord> {
    let names = tagged(rec.children@, "NAME"@);
    if names.len() == 0 {
        None
    } else {
        Some(names[primary_index(names)])
    }
}

/// Builds the individual an `INDI` record describes, named by its primary
/// `NAME` record: sex from `SEX` (unknown when absent or not a code), notes
/// from `NOTE`, and imported people recorded as not living.
pub fn individual_draft(rec: &GedcomRecord, primary: Option<&GedcomRecord>) -> (r: NewIndividual)
    ensures
        draft_fields(
            *rec,
            match primary {
                Some(n) => Some(*n),
                None => None,
            },
            r,
        ),
{
    let parts = match primary {
        Some(n) => name_parts(n),
        None => NameParts {
            given: None,
            surname: None,
            prefix: None,
            suffix: None,
            nickname: None,
        },
    };
    let sex = match child_string(rec, "SEX") {
        Some(v) => match Sex::parse(v.as_str()) {
            Ok(s) => s,
            Err(_) => Sex::Unknown,
        },
        None => Sex::Unknown,
    };
    NewIndividual {
        given_name: parts.given,
        surname: parts.surname,
        name_prefix: parts.prefix,
        name_suffix: parts.suffix,
        nickname: parts.nickname,
        sex,
        living: false,
        notes: child_string(rec, "NOTE"),
    }
}

/// The relation of a child in the family with xref `family`, from the first of
/// its `FAMC` records pointing there (its `PEDI`); birth when none does.
pub open spec fn relation_in(famcs: Seq<GedcomRecord>, family: Seq<char>) -> ChildRelation
    decreases famcs.len(),
{
    if famcs.len() == 0 {
        ChildRelation::Birth
    } else if pointer_of(value_of(famcs[0])) == Some(family) {
        spec_relation_for_pedi(child_value(famcs[0], "PEDI"@))
    } else {
        relation_in(famcs.drop_first(), family)
    }
}

/// The child's relation in the family with xref `family_xref`, read from the
/// child's matching `FAMC.PEDI`; birth by default.
pub fn relation_of_child(indi: &GedcomRecord, family_xref: &[char]) -> (r: ChildRelation)
    ensures
        r == relation_in(tagged(indi.children@, "FAMC"@), family_xref@),
{
    let famcs = indi.children_with("FAMC");
    let ghost fs = tagged(indi.children@, "FAMC"@);
    let mut i: usize = 0;
    assert(fs.skip(0) =~= fs);
    while i < famcs.len()
        invariant
            i <= famcs.len(),
            fs == tagged(indi.children@, "FAMC"@),
            famcs.len() == fs.len(),
            forall|k: int| 0 <= k < famcs.len() ==> *famcs@[k] == fs[k],
            relation_in(fs, family_xref@) == relation_in(fs.skip(i as int), family_xref@),
        decreases famcs.len() - i,
    {
        let famc = famcs[i];
        assert(fs.skip(i as int)[0] == *famc);
        assert(fs.skip(i as int).drop_first() =~= fs.skip(i + 1));
        match record_pointer(famc) {
            Some(p) => {
                if chars_eq(p.as_slice(), family_xref) {
                    let pedi = child_string(famc, "PEDI");
                    let rel = match &pedi {
                        Some(v) => child_relation_for_pedi(Some(v.as_str())),
                        None => child_relation_for_pedi(None),
                    };
                    assert(fs.skip(i as int).len() > 0);
                    assert(rel == spec_relation_for_pedi(child_value(*famc, "PEDI"@)));
                    assert(p@ == family_xref@);
                    assert(pointer_of(value_of(fs.skip(i as int)[0])) == Some(family_xref@));
                    return rel;
                }
            },
            None => {},
        }
        i = i + 1;
    }
    ChildRelation::Birth
}

/// The value the last entry with key `k` maps to.
pub open spec fn lookup<V>(m: Seq<(Seq<char>, V)>, k: Seq<char>) -> Option<V>
    decreases m.len(),
{
    if m.len() == 0 {
        None
    } else if m.last().0 == k {
        Some(m.last().1)
    } else {
        lookup(m.drop_last(), k)
    }
}

/// The views of a list of string pairs.
pub open spec fn pair_views(m: Seq<(Vec<char>, Vec<char>)>) -> Seq<(Seq<char>, Seq<char>)> {
    Seq::new(m.len(), |i: int| (m[i].0@, m[i].1@))
}

/// The name the last repository entry for `k` records.
pub fn lookup_name(m: &Vec<(Vec<char>, Vec<char>)>, k: &[char]) -> (r: Option<Vec<char>>)
    ensures
        match r {
            Some(v) => lookup(pair_views(m@), k@) == Some(v@),
            None => lookup(pair_views(m@), k@) is None,
        },
{
    let ghost pv = pair_views(m@);
    let mut i: usize = m.len();
    assert(pv.take(i as int) =~= pv);
    while i > 0
        invariant
            i <= m.len(),
            pv == pair_views(m@),
            lookup(pv, k@) == lookup(pv.take(i as int), k@),
        decreases i,
    {
        assert(pv.take(i as int).drop_last() =~= pv.take(i - 1));
        assert(pv.take(i as int).last() == pv[i - 1]);
        if chars_eq(m[i - 1].0.as_slice(), k) {
            return Some(m[i - 1].1.clone());
        }
        i = i - 1;
    }
    None
}

/// A source's repository name: a `REPO @R@` pointer resolved through the
/// repository names (nothing when it does not resolve), else an inline `REPO`
/// value, else the `REPO` record's `NAME`.
pub open spec fn spec_repository_of(rec: GedcomRecord, repo_names: Seq<(Seq<char>, Seq<char>)>) -> Option<
    Seq<char>,
> {
    match child_of(rec, "REPO"@) {
        None => None,
        Some(repo) => match pointer_of(value_of(repo)) {
            Some(p) => lookup(repo_names, p),
            None => or_else(value_of(repo), child_value(repo, "NAME"@)),
        },
    }
}

/// Resolves a source's repository name (see [`spec_repository_of`]).
pub fn repository_of(rec: &GedcomRecord, repo_names: &Vec<(Vec<char>, Vec<char>)>) -> (r: Option<
    String,
>)
    ensures
        opt_view(r) == spec_repository_of(*rec, pair_views(repo_names@)),
{
    match rec.child("REPO") {
        None => None,
        Some(repo) => match record_pointer(repo) {
            Some(p) => match lookup_name(repo_names, p.as_slice()) {
                Some(n) => Some(string_from_chars(n)),
                None => None,
            },
            None => match &repo.value {
                Some(v) => Some(v.clone()),
                None => child_string(repo, "NAME"),
            },
        },
    }
}

/// Whether `r` is the source a top-level `SOUR` record describes, its
/// repository named from `repos`.
pub open spec fn source_fields(rec: GedcomRecord, repos: Seq<(Seq<char>, Seq<char>)>, r: NewSource) -> bool {
    &&& r.title@ == match child_value(rec, "TITL"@) {
        Some(t) => t,
        None => Seq::<char>::empty(),
    }
    &&& opt_view(r.author) == child_value(rec, "AUTH"@)
    &&& opt_view(r.publication) == child_value(rec, "PUBL"@)
    &&& opt_view(r.repository) == spec_repository_of(rec, repos)
    &&& opt_view(r.notes) == child_value(rec, "NOTE"@)
}

/// Builds the source a top-level `SOUR` record describes: `TITL` (empty when
/// absent), `AUTH`, `PUBL`, `NOTE`, and its repository.
pub fn source_draft(rec: &GedcomRecord, repo_names: &Vec<(Vec<char>, Vec<char>)>) -> (r: NewSource)
    ensures
        source_fields(*rec, pair_views(repo_names@), r),
{
    let title = match child_string(rec, "TITL") {
        Some(t) => t,
        None => string_from_chars(Vec::new()),
    };
    NewSource {
        title,
        author: child_string(rec, "AUTH"),
        publication: child_string(rec, "PUBL"),
        repository: repository_of(rec, repo_names),
        notes: child_string(rec, "NOTE"),
    }
}

/// A citation's detail: `DATA`'s `TEXT`, else the citation's `NOTE`.
pub open spec fn spec_citation_detail(sour: GedcomRecord) -> Option<Seq<char>> {
    or_else(
        match child_of(sour, "DATA"@) {
            Some(d) => child_value(d, "TEXT"@),
            None => None,
        },
        child_value(sour, "NOTE"@),
    )
}

/// A citation's transcription or detail (see [`spec_citation_detail`]).
pub fn citation_detail(sour: &GedcomRecord) -> (r: Option<String>)
    ensures
        opt_view(r) == spec_citation_detail(*sour),
{
    let text = match sour.child("DATA") {
        Some(d) => child_string(d, "TEXT"),
        None => None,
    };
    match text {
        Some(t) => Some(t),
        None => child_string(sour, "NOTE"),
    }
}

/// The first record of `rs` from `from` on with `tag` is the one at `i`
/// when none before it has that tag.
proof fn lemma_first_tagged_at(rs: Seq<GedcomRecord>, tag: Seq<char>, from: int, i: int)
    requires
        0 <= from <= i < rs.len(),
        rs[i].tag@ == tag,
        forall|k: int| from <= k < i ==> #[trigger] rs[k].tag@ != tag,
    ensures
        first_tagged(rs, tag, from) == Some(i),
    decreases i - from,
{
    if from < i {
        lemma_first_tagged_at(rs, tag, from + 1, i);
    }
}

/// No record of `rs` from `from` on has `tag`.
proof fn lemma_first_tagged_none(rs: Seq<GedcomRecord>, tag: Seq<char>, from: int)
    requires
        0 <= from,
        forall|k: int| from <= k < rs.len() ==> #[trigger] rs[k].tag@ != tag,
    ensures
        first_tagged(rs, tag, from) is None,
    decreases rs.len() - from,
{
    if from < rs.len() {
        lemma_first_tagged_none(rs, tag, from + 1);
    }
}

/// A citation whose first `DATA` sub-record has a `TEXT` sub-record (its
/// first) with a value takes that text as its detail.
pub proof fn law_citation_detail_is_data_text(sour: GedcomRecord, i: int, j: int)
    requires
        0 <= i < sour.children.len(),
        sour.children@[i].tag@ == "DATA"@,
        forall|k: int| 0 <= k < i ==> #[trigger] sour.children@[k].tag@ != "DATA"@,
        0 <= j < sour.children@[i].children.len(),
        sour.children@[i].children@[j].tag@ == "TEXT"@,
        forall|k: int| 0 <= k < j ==> #[trigger] sour.children@[i].children@[k].tag@ != "TEXT"@,
        sour.children@[i].children@[j].value is Some,
    ensures
        spec_citation_detail(sour) == Some(sour.children@[i].children@[j].value->0@),
{
    lemma_first_tagged_at(sour.children@, "DATA"@, 0, i);
    lemma_first_tagged_at(sour.children@[i].children@, "TEXT"@, 0, j);
}

/// A citation without a `DATA` sub-record takes the value of its first
/// `NOTE` sub-record as its detail.
pub proof fn law_citation_detail_falls_back_to_note(sour: GedcomRecord, i: int)
    requires
        forall|k: int| 0 <= k < sour.children.len() ==> #[trigger] sour.children@[k].tag@ != "DATA"@,
        0 <= i < sour.children.len(),
        sour.children@[i].tag@ == "NOTE"@,
        forall|k: int| 0 <= k < i ==> #[trigger] sour.children@[k].tag@ != "NOTE"@,
    ensures
        spec_citation_detail(sour) == opt_view(sour.children@[i].value),
{
    lemma_first_tagged_none(sour.children@, "DATA"@, 0);
    lemma_first_tagged_at(sour.children@, "NOTE"@, 0, i);
}

/// A citation whose first `DATA` sub-record has no `TEXT` sub-record takes
/// the value of its first `NOTE` sub-record, if any, as its detail.
pub proof fn law_citation_detail_without_text(sour: GedcomRecord, i: int)
    requires
        0 <= i < sour.children.len(),
        sour.children@[i].tag@ == "DATA"@,
        forall|k: int| 0 <= k < i ==> #[trigger] sour.children@[k].tag@ != "DATA"@,
        forall|k: int|
            0 <= k < sour.children@[i].children.len() ==> #[trigger] sour.children@[i].children@[k].tag@ != "TEXT"@,
    ensures
        forall|n: int|
            0 <= n < sour.children.len() && sour.children@[n].tag@ == "NOTE"@ && (forall|k: int|
                0 <= k < n ==> #[trigger] sour.children@[k].tag@ != "NOTE"@) ==> spec_citation_detail(sour)
                == opt_view(#[trigger] sour.children@[n].value),
        (forall|k: int| 0 <= k < sour.children.len() ==> #[trigger] sour.children@[k].tag@ != "NOTE"@)
            ==> spec_citation_detail(sour) is None,
{
    lemma_first_tagged_at(sour.children@, "DATA"@, 0, i);
    lemma_first_tagged_none(sour.children@[i].children@, "TEXT"@, 0);
    assert forall|n: int|
        0 <= n < sour.children.len() && sour.children@[n].tag@ == "NOTE"@ && (forall|k: int|
            0 <= k < n ==> #[trigger] sour.children@[k].tag@ != "NOTE"@) implies spec_citation_detail(sour)
            == opt_view(#[trigger] sour.children@[n].value) by {
        lemma_first_tagged_at(sour.children@, "NOTE"@, 0, n);
    }
    if forall|k: int| 0 <= k < sour.children.len() ==> #[trigger] sour.children@[k].tag@ != "NOTE"@ {
        lemma_first_tagged_none(sour.children@, "NOTE"@, 0);
    }
}

/// A value under an `OBJE` record or under its `FILE` (GEDCOM 5.5 puts
/// `FORM`/`TITL` on the object, 5.5.1 on the file).
pub open spec fn object_value(rec: GedcomRecord, tag: Seq<char>) -> Option<Seq<char>> {
    or_else(
        child_value(rec, tag),
        match child_of(rec, "FILE"@) {
            Some(f) => child_value(f, tag),
            None => None,
        },
    )
}

/// Whether `r` is the media file an `OBJE` record describes.
pub open spec fn media_fields(rec: GedcomRecord, r: NewMedia) -> bool {
    &&& r.path@ == match child_value(rec, "FILE"@) {
        Some(p) => p,
        None => Seq::<char>::empty(),
    }
    &&& opt_view(r.mime) == object_value(rec, "FORM"@)
    &&& opt_view(r.caption) == object_value(rec, "TITL"@)
}

/// Builds the media file an `OBJE` record describes: `FILE` as the path
/// (empty when absent), `FORM` as the MIME type, `TITL` as the caption.
pub fn media_draft(rec: &GedcomRecord) -> (r: NewMedia)
    ensures
        media_fields(*rec, r),
{
    let path = match child_string(rec, "FILE") {
        Some(p) => p,
        None => string_from_chars(Vec::new()),
    };
    let file = rec.child("FILE");
    let mime = match child_string(rec, "FORM") {
        Some(m) => Some(m),
        None => match file {
            Some(f) => child_string(f, "FORM"),
            None => None,
        },
    };
    let caption = match child_string(rec, "TITL") {
        Some(c) => Some(c),
        None => match file {
            Some(f) => child_string(f, "TITL"),
            None => None,
        },
    };
    NewMedia { path, caption, mime }
}

/// Whether a document's header declares an encoding the reader handles: no
/// `HEAD`, no `CHAR`, no value, or (ignoring ASCII case) `UTF-8`, `UTF8` or
/// `ASCII`.
pub open spec fn encoding_ok(records: Seq<GedcomRecord>) -> bool {
    match first_tagged(records, "HEAD"@, 0) {
        None => true,
        Some(h) => match child_value(records[h], "CHAR"@) {
            None => true,
            Some(v) => upper(v) == "UTF-8"@ || upper(v) == "UTF8"@ || upper(v) == "ASCII"@,
        },
    }
}

/// The message refusing a declared encoding: the `CHAR` line of the first
/// `HEAD` record, and the declared value quoted (`None` when it is accepted or
/// not declared).
pub open spec fn encoding_message(records: Seq<GedcomRecord>) -> Option<Seq<char>> {
    match first_tagged(records, "HEAD"@, 0) {
        None => None,
        Some(h) => match child_of(records[h], "CHAR"@) {
            None => None,
            Some(c) => match value_of(c) {
                None => None,
                Some(v) => if upper(v) == "UTF-8"@ || upper(v) == "UTF8"@ || upper(v) == "ASCII"@ {
                    None
                } else {
                    Some(line_prefix(c) + "unsupported character encoding "@ + debug_str(v)
                        + "; only UTF-8 is supported (re-export as UTF-8)"@)
                },
            },
        },
    }
}

/// The first record of `records` with tag `tag`.
fn first_record<'a>(records: &'a Vec<GedcomRecord>, tag: &str) -> (r: Option<&'a GedcomRecord>)
    ensures
        match first_tagged(records@, tag@, 0) {
            Some(i) => r == Some(&records@[i]),
            None => r is None,
        },
{
    let mut i: usize = 0;
    while i < records.len()
        invariant
            i <= records.len(),
            first_tagged(records@, tag@, 0) == first_tagged(records@, tag@, i as int),
        decreases records.len() - i,
    {
        if tag_is(&records[i], tag) {
            return Some(&records[i]);
        }
        i = i + 1;
    }
    None
}

/// Rejects a header that declares an encoding other than UTF-8 (or its ASCII
/// subset): the document has already been decoded as UTF-8, so an `ANSEL`
/// declaration means it would have been misread.
///
/// # Errors
/// [`CoreError::Validation`] citing the `CHAR` line exactly when
/// [`encoding_ok`] fails.
pub fn check_encoding(records: &Vec<GedcomRecord>) -> (r: Result<(), CoreError>)
    ensures
        r is Ok <==> encoding_ok(records@),
        r matches Err(e) ==> e is Validation && encoding_message(records@) == Some(e->Validation_0@),
{
    let head = match first_record(records, "HEAD") {
        Some(h) => h,
        None => return Ok(()),
    };
    let char_rec = match head.child("CHAR") {
        Some(c) => c,
        None => return Ok(()),
    };
    match &char_rec.value {
        None => Ok(()),
        Some(v) => {
            let c = chars_of(v.as_str());
            let up = to_upper(c.as_slice());
            if lit_eq(up.as_slice(), "UTF-8") || lit_eq(up.as_slice(), "UTF8") || lit_eq(
                up.as_slice(),
                "ASCII",
            ) {
                Ok(())
            } else {
                let mut m: Vec<char> = Vec::new();
                push_str(&mut m, "line ");
                push_int(&mut m, char_rec.line_no as i64);
                push_str(&mut m, ": ");
                push_str(&mut m, "unsupported character encoding ");
                let q = debug_quoted(v.as_str());
                push_str(&mut m, q.as_str());
                push_str(&mut m, "; only UTF-8 is supported (re-export as UTF-8)");
                assert(m@ =~= line_prefix(*char_rec) + "unsupported character encoding "@ + debug_str(v@)
                    + "; only UTF-8 is supported (re-export as UTF-8)"@);
                Err(CoreError::Validation(string_from_chars(m)))
            }
        },
    }
}

/// The xrefs of the records of `records` with tag `tag`, in order.
pub open spec fn xrefs_tagged(records: Seq<GedcomRecord>, tag: Seq<char>) -> Seq<Seq<char>>
    decreases records.len(),
{
    if records.len() == 0 {
        seq![]
    } else {
        let r = records.last();
        let rest = xrefs_tagged(records.drop_last(), tag);
        if r.tag@ == tag && r.xref is Some {
            rest.push(r.xref->0@)
        } else {
            rest
        }
    }
}

/// Whether a pointer record's value is an `@xref@` naming one of `defined`.
pub open spec fn resolves(rec: GedcomRecord, defined: Seq<Seq<char>>) -> bool {
    match pointer_of(value_of(rec)) {
        Some(id) => defined.contains(id),
        None => false,
    }
}

/// Whether every record of `rs` resolves into `defined`.
pub open spec fn all_resolve(rs: Seq<GedcomRecord>, defined: Seq<Seq<char>>) -> bool {
    forall|i: int| 0 <= i < rs.len() ==> resolves(#[trigger] rs[i], defined)
}

/// Whether every `OBJE` sub-record of `rec` with a value (a pointer form)
/// resolves to a defined object.
pub open spec fn media_refs_ok(rec: GedcomRecord, objects: Seq<Seq<char>>) -> bool {
    forall|i: int|
        0 <= i < tagged(rec.children@, "OBJE"@).len() ==> (value_of(
            #[trigger] tagged(rec.children@, "OBJE"@)[i],
        ) is Some ==> resolves(tagged(rec.children@, "OBJE"@)[i], objects))
}

/// Whether every `SOUR` pointer at or below the records `rs` resolves to a
/// defined source.
pub open spec fn source_refs_ok_list(rs: Seq<GedcomRecord>, sources: Seq<Seq<char>>) -> bool
    decreases rs,
{
    if rs.len() == 0 {
        true
    } else {
        let c = rs.last();
        &&& source_refs_ok_list(rs.drop_last(), sources)
        &&& (c.tag@ == "SOUR"@ && value_of(c) is Some ==> resolves(c, sources))
        &&& source_refs_ok(c, sources)
    }
}

/// Whether every `SOUR` pointer anywhere under `rec` resolves to a defined
/// source.
pub open spec fn source_refs_ok(rec: GedcomRecord, sources: Seq<Seq<char>>) -> bool
    decreases rec,
{
    source_refs_ok_list(rec.children@, sources)
}

/// Whether one top-level record's pointers resolve: an individual's
/// `FAMC`/`FAMS` to families; a family's `HUSB`/`WIFE`/`CHIL` to individuals;
/// both's object and source pointers; a source's `REPO` pointer to a
/// repository.
pub open spec fn record_refs_ok(rec: GedcomRecord, records: Seq<GedcomRecord>) -> bool {
    let indis = xrefs_tagged(records, "INDI"@);
    let fams = xrefs_tagged(records, "FAM"@);
    let objes = xrefs_tagged(records, "OBJE"@);
    let sours = xrefs_tagged(records, "SOUR"@);
    let repos = xrefs_tagged(records, "REPO"@);
    if rec.tag@ == "INDI"@ {
        &&& all_resolve(tagged(rec.children@, "FAMC"@), fams)
        &&& all_resolve(tagged(rec.children@, "FAMS"@), fams)
        &&& media_refs_ok(rec, objes)
        &&& source_refs_ok(rec, sours)
    } else if rec.tag@ == "FAM"@ {
        &&& all_resolve(tagged(rec.children@, "HUSB"@), indis)
        &&& all_resolve(tagged(rec.children@, "WIFE"@), indis)
        &&& all_resolve(tagged(rec.children@, "CHIL"@), indis)
        &&& media_refs_ok(rec, objes)
        &&& source_refs_ok(rec, sours)
    } else if rec.tag@ == "SOUR"@ {
        match child_of(rec, "REPO"@) {
            Some(r) => value_of(r) is Some ==> resolves(r, repos),
            None => true,
        }
    } else {
        true
    }
}

/// Whether every cross-reference of a document resolves.
pub open spec fn refs_ok(records: Seq<GedcomRecord>) -> bool {
    forall|i: int| 0 <= i < records.len() ==> record_refs_ok(#[trigger] records[i], records)
}

/// The `line N: ` a message about `rec` starts with.
pub open spec fn line_prefix(rec: GedcomRecord) -> Seq<char> {
    "line "@ + int_text(rec.line_no as i64 as int) + ": "@
}

/// The message for a pointer sub-record `rec` (tagged `tag`, pointing at a
/// `kind`) that does not resolve into `defined`, or `None` when it does.
pub open spec fn ref_error(rec: GedcomRecord, defined: Seq<Seq<char>>, tag: Seq<char>, kind: Seq<char>) -> Option<
    Seq<char>,
> {
    match value_of(rec) {
        None => Some(line_prefix(rec) + tag + " has no @xref@ pointer"@),
        Some(v) => match pointer_of(Some(v)) {
            None => Some(line_prefix(rec) + tag + " value "@ + debug_str(v) + " is not an @xref@ pointer"@),
            Some(id) => if defined.contains(id) {
                None
            } else {
                Some(line_prefix(rec) + tag + " points to "@ + kind + " "@ + v + " which is not defined"@)
            },
        },
    }
}

/// The message for the first of `rs` that does not resolve, if any.
pub open spec fn first_ref_error(rs: Seq<GedcomRecord>, defined: Seq<Seq<char>>, tag: Seq<char>, kind: Seq<char>) -> Option<
    Seq<char>,
>
    decreases rs.len(),
{
    if rs.len() == 0 {
        None
    } else {
        match first_ref_error(rs.drop_last(), defined, tag, kind) {
            Some(m) => Some(m),
            None => ref_error(rs.last(), defined, tag, kind),
        }
    }
}

/// The message for the first object pointer among `os` that does not
/// resolve (inline objects, without a value, are skipped).
pub open spec fn first_media_error(os: Seq<GedcomRecord>, objects: Seq<Seq<char>>) -> Option<Seq<char>>
    decreases os.len(),
{
    if os.len() == 0 {
        None
    } else {
        match first_media_error(os.drop_last(), objects) {
            Some(m) => Some(m),
            None => if value_of(os.last()) is Some {
                ref_error(os.last(), objects, "OBJE"@, "object"@)
            } else {
                None
            },
        }
    }
}

/// The message for the first source pointer at or below `rs`, in document
/// order, that does not resolve (an inline `SOUR`, without a value, is no
/// pointer).
pub open spec fn first_source_error_list(rs: Seq<GedcomRecord>, sources: Seq<Seq<char>>) -> Option<Seq<char>>
    decreases rs,
{
    if rs.len() == 0 {
        None
    } else {
        let c = rs.last();
        match first_source_error_list(rs.drop_last(), sources) {
            Some(m) => Some(m),
            None => match (if c.tag@ == "SOUR"@ && value_of(c) is Some {
                ref_error(c, sources, "SOUR"@, "source"@)
            } else {
                None
            }) {
                Some(m) => Some(m),
                None => first_source_error(c, sources),
            },
        }
    }
}

/// The message for the first source pointer under `rec` that does not
/// resolve.
pub open spec fn first_source_error(rec: GedcomRecord, sources: Seq<Seq<char>>) -> Option<Seq<char>>
    decreases rec,
{
    first_source_error_list(rec.children@, sources)
}

/// The message for a top-level record's first dangling pointer, checked in
/// the order: an individual's `FAMC`, `FAMS`, objects, sources; a family's
/// `HUSB`, `WIFE`, `CHIL`, objects, sources; a source's `REPO`.
pub open spec fn record_error(rec: GedcomRecord, records: Seq<GedcomRecord>) -> Option<Seq<char>> {
    let indis = xrefs_tagged(records, "INDI"@);
    let fams = xrefs_tagged(records, "FAM"@);
    let objes = xrefs_tagged(records, "OBJE"@);
    let sours = xrefs_tagged(records, "SOUR"@);
    let repos = xrefs_tagged(records, "REPO"@);
    if rec.tag@ == "INDI"@ {
        or_else(
            first_ref_error(tagged(rec.children@, "FAMC"@), fams, "FAMC"@, "family"@),
            or_else(
                first_ref_error(tagged(rec.children@, "FAMS"@), fams, "FAMS"@, "family"@),
                or_else(first_media_error(tagged(rec.children@, "OBJE"@), objes), first_source_error(rec, sours)),
            ),
        )
    } else if rec.tag@ == "FAM"@ {
        or_else(
            first_ref_error(tagged(rec.children@, "HUSB"@), indis, "HUSB"@, "individual"@),
            or_else(
                first_ref_error(tagged(rec.children@, "WIFE"@), indis, "WIFE"@, "individual"@),
                or_else(
                    first_ref_error(tagged(rec.children@, "CHIL"@), indis, "CHIL"@, "individual"@),
                    or_else(first_media_error(tagged(rec.children@, "OBJE"@), objes), first_source_error(rec, sours)),
                ),
            ),
        )
    } else if rec.tag@ == "SOUR"@ {
        match child_of(rec, "REPO"@) {
            Some(r) => if value_of(r) is Some {
                ref_error(r, repos, "REPO"@, "repository"@)
            } else {
                None
            },
            None => None,
        }
    } else {
        None
    }
}

/// A message found in a prefix is the first of the whole list.
proof fn lemma_first_ref_prefix(rs: Seq<GedcomRecord>, k: int, d: Seq<Seq<char>>, tag: Seq<char>, kind: Seq<char>)
    requires
        0 <= k <= rs.len(),
        first_ref_error(rs.take(k), d, tag, kind) is Some,
    ensures
        first_ref_error(rs, d, tag, kind) == first_ref_error(rs.take(k), d, tag, kind),
    decreases rs.len(),
{
    if k == rs.len() {
        assert(rs.take(k) =~= rs);
    } else {
        assert(rs.drop_last().take(k) =~= rs.take(k));
        lemma_first_ref_prefix(rs.drop_last(), k, d, tag, kind);
    }
}

/// A message found in a prefix is the first of the whole list.
proof fn lemma_first_media_prefix(rs: Seq<GedcomRecord>, k: int, d: Seq<Seq<char>>)
    requires
        0 <= k <= rs.len(),
        first_media_error(rs.take(k), d) is Some,
    ensures
        first_media_error(rs, d) == first_media_error(rs.take(k), d),
    decreases rs.len(),
{
    if k == rs.len() {
        assert(rs.take(k) =~= rs);
    } else {
        assert(rs.drop_last().take(k) =~= rs.take(k));
        lemma_first_media_prefix(rs.drop_last(), k, d);
    }
}

/// A message found in a prefix is the first of the whole list.
proof fn lemma_first_source_prefix(rs: Seq<GedcomRecord>, k: int, d: Seq<Seq<char>>)
    requires
        0 <= k <= rs.len(),
        first_source_error_list(rs.take(k), d) is Some,
    ensures
        first_source_error_list(rs, d) == first_source_error_list(rs.take(k), d),
    decreases rs.len(),
{
    if k == rs.len() {
        assert(rs.take(k) =~= rs);
    } else {
        assert(rs.drop_last().take(k) =~= rs.take(k));
        lemma_first_source_prefix(rs.drop_last(), k, d);
    }
}

/// A message found in a prefix is the first of the whole document.
proof fn lemma_first_dangling_prefix(rs: Seq<GedcomRecord>, k: int, records: Seq<GedcomRecord>)
    requires
        0 <= k <= rs.len(),
        first_dangling(rs.take(k), records) is Some,
    ensures
        first_dangling(rs, records) == first_dangling(rs.take(k), records),
    decreases rs.len(),
{
    if k == rs.len() {
        assert(rs.take(k) =~= rs);
    } else {
        assert(rs.drop_last().take(k) =~= rs.take(k));
        lemma_first_dangling_prefix(rs.drop_last(), k, records);
    }
}

/// The message for the first dangling pointer of a document, records in
/// order.
pub open spec fn first_dangling(rs: Seq<GedcomRecord>, records: Seq<GedcomRecord>) -> Option<Seq<char>>
    decreases rs.len(),
{
    if rs.len() == 0 {
        None
    } else {
        or_else(first_dangling(rs.drop_last(), records), record_error(rs.last(), records))
    }
}

/// The xrefs of the records with tag `tag`.
fn collect_xrefs(records: &Vec<GedcomRecord>, tag: &str) -> (r: Vec<Vec<char>>)
    ensures
        char_views(r@) == xrefs_tagged(records@, tag@),
{
    let mut out: Vec<Vec<char>> = Vec::new();
    let mut i: usize = 0;
    assert(records@.take(0) =~= Seq::<GedcomRecord>::empty());
    assert(char_views(out@) =~= xrefs_tagged(records@.take(0), tag@));
    while i < records.len()
        invariant
            i <= records.len(),
            char_views(out@) == xrefs_tagged(records@.take(i as int), tag@),
        decreases records.len() - i,
    {
        let rec = &records[i];
        proof {
            assert(records@.take(i + 1).drop_last() =~= records@.take(i as int));
            assert(records@.take(i + 1).last() == *rec);
        }
        if tag_is(rec, tag) {
            match &rec.xref {
                Some(x) => {
                    let ghost before = out@;
                    out.push(chars_of(x.as_str()));
                    assert(char_views(out@) =~= char_views(before).push(x@));
                },
                None => {},
            }
        }
        i = i + 1;
    }
    assert(records@.take(records.len() as int) =~= records@);
    out
}

/// Whether `id` is one of `list`.
fn contains_xref(list: &Vec<Vec<char>>, id: &[char]) -> (b: bool)
    ensures
        b == char_views(list@).contains(id@),
{
    let mut i: usize = 0;
    while i < list.len()
        invariant
            i <= list.len(),
            forall|j: int| 0 <= j < i ==> char_views(list@)[j] != id@,
        decreases list.len() - i,
    {
        if chars_eq(list[i].as_slice(), id) {
            assert(char_views(list@)[i as int] == id@);
            return true;
        }
        i = i + 1;
    }
    false
}

/// Checks that a pointer sub-record (`FAMC`, `HUSB`, …) names a defined record.
///
/// # Errors
/// [`CoreError::Validation`] citing the line when its value is missing, is not
/// an `@xref@`, or names nothing in `defined`.
pub fn check_ref(rec: &GedcomRecord, defined: &Vec<Vec<char>>, tag: &str, kind: &str) -> (r: Result<
    (),
    CoreError,
>)
    ensures
        r is Ok <==> resolves(*rec, char_views(defined@)),
        r matches Err(e) ==> e is Validation,
        match r {
            Ok(()) => ref_error(*rec, char_views(defined@), tag@, kind@) is None,
            Err(e) => ref_error(*rec, char_views(defined@), tag@, kind@) == Some(e->Validation_0@),
        },
{
    let v = match &rec.value {
        Some(v) => v,
        None => {
            let mut m: Vec<char> = Vec::new();
            push_str(&mut m, "line ");
            push_int(&mut m, rec.line_no as i64);
            push_str(&mut m, ": ");
            push_str(&mut m, tag);
            push_str(&mut m, " has no @xref@ pointer");
            assert(m@ =~= line_prefix(*rec) + tag@ + " has no @xref@ pointer"@);
            return Err(CoreError::Validation(string_from_chars(m)));
        },
    };
    let id = match record_pointer(rec) {
        Some(id) => id,
        None => {
            let mut m: Vec<char> = Vec::new();
            push_str(&mut m, "line ");
            push_int(&mut m, rec.line_no as i64);
            push_str(&mut m, ": ");
            push_str(&mut m, tag);
            push_str(&mut m, " value ");
            let q = debug_quoted(v.as_str());
            push_str(&mut m, q.as_str());
            push_str(&mut m, " is not an @xref@ pointer");
            assert(m@ =~= line_prefix(*rec) + tag@ + " value "@ + debug_str(v@) + " is not an @xref@ pointer"@);
            return Err(CoreError::Validation(string_from_chars(m)));
        },
    };
    if !contains_xref(defined, id.as_slice()) {
        let mut m: Vec<char> = Vec::new();
        push_str(&mut m, "line ");
        push_int(&mut m, rec.line_no as i64);
        push_str(&mut m, ": ");
        push_str(&mut m, tag);
        push_str(&mut m, " points to ");
        push_str(&mut m, kind);
        push_str(&mut m, " ");
        push_str(&mut m, v.as_str());
        push_str(&mut m, " which is not defined");
        assert(m@ =~= line_prefix(*rec) + tag@ + " points to "@ + kind@ + " "@ + v@ + " which is not defined"@);
        return Err(CoreError::Validation(string_from_chars(m)));
    }
    Ok(())
}

/// Checks every record of `rs` with tag `tag` resolves into `defined`.
fn check_all(rs: &Vec<&GedcomRecord>, ghost_rs: Ghost<Seq<GedcomRecord>>, defined: &Vec<Vec<char>>, tag: &str, kind: &str) -> (r: Result<(), CoreError>)
    requires
        rs.len() == ghost_rs@.len(),
        forall|i: int| 0 <= i < rs.len() ==> *rs@[i] == ghost_rs@[i],
    ensures
        r is Ok <==> all_resolve(ghost_rs@, char_views(defined@)),
        r matches Err(e) ==> e is Validation,
        match r {
            Ok(()) => first_ref_error(ghost_rs@, char_views(defined@), tag@, kind@) is None,
            Err(e) => first_ref_error(ghost_rs@, char_views(defined@), tag@, kind@) == Some(e->Validation_0@),
        },
{
    let mut i: usize = 0;
    while i < rs.len()
        invariant
            i <= rs.len(),
            rs.len() == ghost_rs@.len(),
            forall|k: int| 0 <= k < rs.len() ==> *rs@[k] == ghost_rs@[k],
            forall|k: int| 0 <= k < i ==> resolves(#[trigger] ghost_rs@[k], char_views(defined@)),
            first_ref_error(ghost_rs@.take(i as int), char_views(defined@), tag@, kind@) is None,
        decreases rs.len() - i,
    {
        assert(ghost_rs@.take(i + 1).drop_last() =~= ghost_rs@.take(i as int));
        match check_ref(rs[i], defined, tag, kind) {
            Ok(()) => {},
            Err(e) => {
                assert(!resolves(ghost_rs@[i as int], char_views(defined@)));
                proof {
                    lemma_first_ref_prefix(ghost_rs@, i + 1, char_views(defined@), tag@, kind@);
                }
                return Err(e);
            },
        }
        i = i + 1;
    }
    assert(ghost_rs@.take(rs.len() as int) =~= ghost_rs@);
    Ok(())
}

/// Checks the object pointers under an individual or family.
fn check_media_refs(rec: &GedcomRecord, defined: &Vec<Vec<char>>) -> (r: Result<(), CoreError>)
    ensures
        r is Ok <==> media_refs_ok(*rec, char_views(defined@)),
        r matches Err(e) ==> e is Validation,
        match r {
            Ok(()) => first_media_error(tagged(rec.children@, "OBJE"@), char_views(defined@)) is None,
            Err(e) => first_media_error(tagged(rec.children@, "OBJE"@), char_views(defined@)) == Some(e->Validation_0@),
        },
{
    let objes = rec.children_with("OBJE");
    let ghost os = tagged(rec.children@, "OBJE"@);
    let mut i: usize = 0;
    while i < objes.len()
        invariant
            i <= objes.len(),
            os == tagged(rec.children@, "OBJE"@),
            objes.len() == os.len(),
            forall|k: int| 0 <= k < objes.len() ==> *objes@[k] == os[k],
            forall|k: int|
                0 <= k < i ==> (value_of(#[trigger] os[k]) is Some ==> resolves(
                    os[k],
                    char_views(defined@),
                )),
            first_media_error(os.take(i as int), char_views(defined@)) is None,
        decreases objes.len() - i,
    {
        assert(os.take(i + 1).drop_last() =~= os.take(i as int));
        let o = objes[i];
        if o.value.is_some() {
            match check_ref(o, defined, "OBJE", "object") {
                Ok(()) => {},
                Err(e) => {
                    assert(value_of(os[i as int]) is Some && !resolves(os[i as int], char_views(defined@)));
                    proof {
                        lemma_first_media_prefix(os, i + 1, char_views(defined@));
                    }
                    return Err(e);
                },
            }
        }
        i = i + 1;
    }
    assert(os.take(objes.len() as int) =~= os);
    Ok(())
}

/// Checks every `SOUR` pointer anywhere under `rec`.
fn check_source_refs(rec: &GedcomRecord, defined: &Vec<Vec<char>>) -> (r: Result<(), CoreError>)
    ensures
        r is Ok <==> source_refs_ok(*rec, char_views(defined@)),
        r matches Err(e) ==> e is Validation,
        match r {
            Ok(()) => first_source_error(*rec, char_views(defined@)) is None,
            Err(e) => first_source_error(*rec, char_views(defined@)) == Some(e->Validation_0@),
        },
    decreases rec,
{
    let ghost cs = rec.children@;
    let mut i: usize = 0;
    assert(cs.take(0) =~= Seq::<GedcomRecord>::empty());
    while i < rec.children.len()
        invariant
            i <= rec.children.len(),
            cs == rec.children@,
            source_refs_ok_list(cs.take(i as int), char_views(defined@)),
            first_source_error_list(cs.take(i as int), char_views(defined@)) is None,
        decreases rec.children.len() - i,
    {
        let child = &rec.children[i];
        proof {
            assert(cs.take(i + 1).drop_last() =~= cs.take(i as int));
            assert(cs.take(i + 1).last() == *child);
        }
        if tag_is(child, "SOUR") && child.value.is_some() {
            match check_ref(child, defined, "SOUR", "source") {
                Ok(()) => {},
                Err(e) => {
                    proof {
                        lemma_source_list_prefix(cs, i + 1, char_views(defined@));
                        lemma_first_source_prefix(cs, i + 1, char_views(defined@));
                    }
                    return Err(e);
                },
            }
        }
        match check_source_refs(child, defined) {
            Ok(()) => {},
            Err(e) => {
                proof {
                    lemma_source_list_prefix(cs, i + 1, char_views(defined@));
                    lemma_first_source_prefix(cs, i + 1, char_views(defined@));
                }
                return Err(e);
            },
        }
        i = i + 1;
    }
    assert(cs.take(i as int) =~= cs);
    Ok(())
}

/// A failing prefix makes the whole list fail.
proof fn lemma_source_list_prefix(rs: Seq<GedcomRecord>, k: int, sources: Seq<Seq<char>>)
    requires
        0 <= k <= rs.len(),
        !source_refs_ok_list(rs.take(k), sources),
    ensures
        !source_refs_ok_list(rs, sources),
    decreases rs.len(),
{
    if k == rs.len() {
        assert(rs.take(k) =~= rs);
    } else {
        assert(rs.drop_last().take(k) =~= rs.take(k));
        lemma_source_list_prefix(rs.drop_last(), k, sources);
    }
}

/// Validates a document's cross-references without writing anything: every
/// `FAMC`/`FAMS` names a family, every `HUSB`/`WIFE`/`CHIL` an individual,
/// every object and source pointer a top-level object or source, and every
/// source's `REPO` pointer a repository.
///
/// # Errors
/// [`CoreError::Validation`] citing the line of the first dangling pointer;
/// exactly when [`refs_ok`] fails.
pub fn validate(records: &Vec<GedcomRecord>) -> (r: Result<(), CoreError>)
    ensures
        r is Ok <==> refs_ok(records@),
        r matches Err(e) ==> e is Validation,
        match r {
            Ok(()) => first_dangling(records@, records@) is None,
            Err(e) => first_dangling(records@, records@) == Some(e->Validation_0@),
        },
{
    let indis = collect_xrefs(records, "INDI");
    let fams = collect_xrefs(records, "FAM");
    let objes = collect_xrefs(records, "OBJE");
    let sours = collect_xrefs(records, "SOUR");
    let repos = collect_xrefs(records, "REPO");
    let mut i: usize = 0;
    while i < records.len()
        invariant
            i <= records.len(),
            char_views(indis@) == xrefs_tagged(records@, "INDI"@),
            char_views(fams@) == xrefs_tagged(records@, "FAM"@),
            char_views(objes@) == xrefs_tagged(records@, "OBJE"@),
            char_views(sours@) == xrefs_tagged(records@, "SOUR"@),
            char_views(repos@) == xrefs_tagged(records@, "REPO"@),
            forall|k: int| 0 <= k < i ==> record_refs_ok(#[trigger] records@[k], records@),
            first_dangling(records@.take(i as int), records@) is None,
        decreases records.len() - i,
    {
        let rec = &records[i];
        assert(records@.take(i + 1).drop_last() =~= records@.take(i as int));
        assert(records@.take(i + 1).last() == *rec);
        if tag_is(rec, "INDI") {
            let famc = rec.children_with("FAMC");
            match check_all(&famc, Ghost(tagged(rec.children@, "FAMC"@)), &fams, "FAMC", "family") {
                Ok(()) => {},
                Err(e) => {
                    proof {
                        lemma_first_dangling_prefix(records@, i + 1, records@);
                    }
                    return Err(e);
                },
            }
            let famss = rec.children_with("FAMS");
            match check_all(&famss, Ghost(tagged(rec.children@, "FAMS"@)), &fams, "FAMS", "family") {
                Ok(()) => {},
                Err(e) => {
                    proof {
                        lemma_first_dangling_prefix(records@, i + 1, records@);
                    }
                    return Err(e);
                },
            }
            match check_media_refs(rec, &objes) {
                Ok(()) => {},
                Err(e) => {
                    proof {
                        lemma_first_dangling_prefix(records@, i + 1, records@);
                    }
                    return Err(e);
                },
            }
            match check_source_refs(rec, &sours) {
                Ok(()) => {},
                Err(e) => {
                    proof {
                        lemma_first_dangling_prefix(records@, i + 1, records@);
                    }
                    return Err(e);
                },
            }
        } else if tag_is(rec, "FAM") {
            let husb = rec.children_with("HUSB");
            match check_all(&husb, Ghost(tagged(rec.children@, "HUSB"@)), &indis, "HUSB", "individual") {
                Ok(()) => {},
                Err(e) => {
                    proof {
                        lemma_first_dangling_prefix(records@, i + 1, records@);
                    }
                    return Err(e);
                },
            }
            let wife = rec.children_with("WIFE");
            match check_all(&wife, Ghost(tagged(rec.children@, "WIFE"@)), &indis, "WIFE", "individual") {
                Ok(()) => {},
                Err(e) => {
                    proof {
                        lemma_first_dangling_prefix(records@, i + 1, records@);
                    }
                    return Err(e);
                },
            }
            let chil = rec.children_with("CHIL");
            match check_all(&chil, Ghost(tagged(rec.children@, "CHIL"@)), &indis, "CHIL", "individual") {
                Ok(()) => {},
                Err(e) => {
                    proof {
                        lemma_first_dangling_prefix(records@, i + 1, records@);
                    }
                    return Err(e);
                },
            }
            match check_media_refs(rec, &objes) {
                Ok(()) => {},
                Err(e) => {
                    proof {
                        lemma_first_dangling_prefix(records@, i + 1, records@);
                    }
                    return Err(e);
                },
            }
            match check_source_refs(rec, &sours) {
                Ok(()) => {},
                Err(e) => {
                    proof {
                        lemma_first_dangling_prefix(records@, i + 1, records@);
                    }
                    return Err(e);
                },
            }
        } else if tag_is(rec, "SOUR") {
            match rec.child("REPO") {
                Some(repo) => {
                    if repo.value.is_some() {
                        match check_ref(repo, &repos, "REPO", "repository") {
                            Ok(()) => {},
                            Err(e) => {
                    proof {
                        lemma_first_dangling_prefix(records@, i + 1, records@);
                    }
                    return Err(e);
                },
                        }
                    }
                },
                None => {},
            }
        }
        assert(record_refs_ok(records@[i as int], records@));
        i = i + 1;
    }
    assert(records@.take(records.len() as int) =~= records@);
    Ok(())
}

} // verus!
