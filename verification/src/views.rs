//! The detail blocks `show` prints for one person, family, event or source,
//! and the report of an import: labelled lines, one per field that is set,
//! with the related rows listed under them.

use vstd::prelude::*;
use crate::date::{long_text, GenealogicalDate};
use crate::enums::{CitationSubject, EventSubject};
use crate::gedcom::lexer::opt_view;
use crate::gedcom::plan::ImportSummary;
use crate::num::{int_text, nat_digits, push_int, push_nat};
use crate::output::{
    citation_subject_label, display_name, name_label, pad_cell, partner_label, spec_name_of,
    spec_partner_label, subject_label, yes_no,
};
use crate::records::{ChildLink, Citation, Event, Family, Individual, Name, Source};
use crate::tables::or_dash;
use crate::text::{chars_of, push_chars, push_str, string_from_chars};

verus! {

/// `label`, `value` and a newline.
pub open spec fn line(label: Seq<char>, value: Seq<char>) -> Seq<char> {
    label + value + seq!['\n']
}

/// A labelled line where there is a value, else nothing.
pub open spec fn opt_line(label: Seq<char>, o: Option<Seq<char>>) -> Seq<char> {
    match o {
        Some(v) => line(label, v),
        None => seq![],
    }
}

/// A date in its long form, or `—`.
pub open spec fn date_text(d: Option<GenealogicalDate>) -> Seq<char> {
    or_dash(
        match d {
            Some(x) => Some(long_text(x)),
            None => None,
        },
    )
}

/// An event's line in a list: its kind padded to ten characters, then its
/// date.
pub open spec fn event_line(e: Event) -> Seq<char> {
    "    "@ + pad_cell(e.kind.code(), 10) + seq![' '] + date_text(e.date) + seq!['\n']
}

/// The lines of a list of events.
pub open spec fn event_lines(events: Seq<Event>) -> Seq<char>
    decreases events.len(),
{
    if events.len() == 0 {
        seq![]
    } else {
        event_lines(events.drop_last()) + event_line(events.last())
    }
}

/// The `Events:` block, absent when there are none.
pub open spec fn events_block(events: Seq<Event>) -> Seq<char> {
    if events.len() == 0 {
        seq![]
    } else {
        "  Events:"@ + seq!['\n'] + event_lines(events)
    }
}

/// An alternate name's line: `[kind] Given Surname`.
pub open spec fn name_line(n: Name) -> Seq<char> {
    "    ["@ + n.kind.code() + "] "@ + spec_name_of(opt_view(n.given_name), opt_view(n.surname)) + seq!['\n']
}

/// The lines of a list of names.
pub open spec fn name_lines(names: Seq<Name>) -> Seq<char>
    decreases names.len(),
{
    if names.len() == 0 {
        seq![]
    } else {
        name_lines(names.drop_last()) + name_line(names.last())
    }
}

/// Ids separated by `, `.
pub open spec fn joined_ids(ids: Seq<i64>) -> Seq<char>
    decreases ids.len(),
{
    if ids.len() == 0 {
        seq![]
    } else if ids.len() == 1 {
        int_text(ids[0] as int)
    } else {
        joined_ids(ids.drop_last()) + ", "@ + int_text(ids.last() as int)
    }
}

/// A labelled list of ids, or `(none)`.
pub open spec fn id_list_line(label: Seq<char>, ids: Seq<i64>) -> Seq<char> {
    if ids.len() == 0 {
        label + " (none)"@ + seq!['\n']
    } else {
        label + seq![' '] + joined_ids(ids) + seq!['\n']
    }
}

/// The detail block of one individual: name, sex, whether living, notes,
/// alternate names, events, and the families they are a partner and a child
/// in.
pub open spec fn person_view(
    p: Individual,
    names: Seq<Name>,
    events: Seq<Event>,
    partner_in: Seq<i64>,
    child_in: Seq<i64>,
) -> Seq<char> {
    "Individual "@ + int_text(p.id.0 as int) + seq!['\n'] + line(
        "  Name:    "@,
        spec_name_of(opt_view(p.given_name), opt_view(p.surname)),
    ) + line("  Sex:     "@, p.sex.code()) + line("  Living:  "@, yes_no(p.living)) + opt_line(
        "  Notes:   "@,
        opt_view(p.notes),
    ) + (if names.len() == 0 {
        seq![]
    } else {
        "  Names:"@ + seq!['\n'] + name_lines(names)
    }) + events_block(events) + id_list_line("  Partner in:"@, partner_in) + id_list_line(
        "  Child in:  "@,
        child_in,
    )
}

/// Appends `label`, `value` and a newline.
fn push_line(out: &mut Vec<char>, label: &str, value: &str)
    ensures
        final(out)@ == old(out)@ + line(label@, value@),
{
    push_str(out, label);
    push_str(out, value);
    out.push('\n');
    assert(out@ =~= old(out)@ + line(label@, value@));
}

/// Appends a labelled line where there is a value.
fn push_opt_line(out: &mut Vec<char>, label: &str, o: &Option<String>)
    ensures
        final(out)@ == old(out)@ + opt_line(label@, opt_view(*o)),
{
    match o {
        Some(v) => push_line(out, label, v.as_str()),
        None => {
            assert(out@ =~= old(out)@ + opt_line(label@, opt_view(*o)));
        },
    }
}

/// Appends a date in its long form, or `—`.
fn push_date(out: &mut Vec<char>, d: &Option<GenealogicalDate>)
    ensures
        final(out)@ == old(out)@ + date_text(*d),
{
    match d {
        Some(x) => {
            let t = x.to_display_string();
            push_str(out, t.as_str());
        },
        None => {
            out.push('\u{2014}');
            assert(out@ =~= old(out)@ + date_text(*d));
        },
    }
}

/// Appends the lines of a list of events.
fn push_event_lines(out: &mut Vec<char>, events: &[Event])
    ensures
        final(out)@ == old(out)@ + event_lines(events@),
{
    let ghost start = out@;
    let mut k: usize = 0;
    while k < events.len()
        invariant
            k <= events.len(),
            out@ == start + event_lines(events@.take(k as int)),
        decreases events.len() - k,
    {
        let e = &events[k];
        let ghost before = out@;
        push_str(out, "    ");
        let kind = chars_of(e.kind.as_str());
        push_chars(out, kind.as_slice());
        let mut pad: usize = kind.len();
        while pad < 10
            invariant
                kind.len() <= pad <= 10 || (pad == kind.len() && pad >= 10),
                out@ == before + "    "@ + kind@ + Seq::new((pad - kind.len()) as nat, |_i: int| ' '),
            decreases 10 - pad,
        {
            out.push(' ');
            pad = pad + 1;
            assert(out@ =~= before + "    "@ + kind@ + Seq::new((pad - kind.len()) as nat, |_i: int| ' '));
        }
        assert(before + "    "@ + kind@ + Seq::new((pad - kind.len()) as nat, |_i: int| ' ') =~= before
            + "    "@ + pad_cell(e.kind.code(), 10));
        out.push(' ');
        push_date(out, &e.date);
        out.push('\n');
        proof {
            assert(events@.take(k + 1).drop_last() =~= events@.take(k as int));
            assert(out@ =~= before + event_line(events@[k as int]));
        }
        k = k + 1;
    }
    assert(events@.take(events.len() as int) =~= events@);
}

/// Appends the `Events:` block.
fn push_events_block(out: &mut Vec<char>, events: &[Event])
    ensures
        final(out)@ == old(out)@ + events_block(events@),
{
    if events.len() > 0 {
        push_str(out, "  Events:");
        out.push('\n');
        push_event_lines(out, events);
        assert(out@ =~= old(out)@ + events_block(events@));
    } else {
        assert(out@ =~= old(out)@ + events_block(events@));
    }
}

/// Appends a labelled list of ids, or `(none)`.
fn push_id_list(out: &mut Vec<char>, label: &str, ids: &[i64])
    ensures
        final(out)@ == old(out)@ + id_list_line(label@, ids@),
{
    push_str(out, label);
    if ids.len() == 0 {
        push_str(out, " (none)");
        out.push('\n');
        assert(out@ =~= old(out)@ + id_list_line(label@, ids@));
        return;
    }
    out.push(' ');
    let ghost start = out@;
    push_int(out, ids[0]);
    let mut k: usize = 1;
    assert(ids@.take(1) =~= seq![ids@[0]]);
    while k < ids.len()
        invariant
            1 <= k <= ids.len(),
            out@ == start + joined_ids(ids@.take(k as int)),
        decreases ids.len() - k,
    {
        push_str(out, ", ");
        push_int(out, ids[k]);
        proof {
            assert(ids@.take(k + 1).drop_last() =~= ids@.take(k as int));
            assert(out@ =~= start + joined_ids(ids@.take(k + 1)));
        }
        k = k + 1;
    }
    assert(ids@.take(ids.len() as int) =~= ids@);
    out.push('\n');
    assert(out@ =~= old(out)@ + id_list_line(label@, ids@));
}

/// The detail block of one individual (see [`person_view`]).
pub fn person_view_text(
    p: &Individual,
    names: &[Name],
    events: &[Event],
    partner_in: &[i64],
    child_in: &[i64],
) -> (r: String)
    ensures
        r@ == person_view(*p, names@, events@, partner_in@, child_in@),
{
    let mut out: Vec<char> = Vec::new();
    push_str(&mut out, "Individual ");
    push_int(&mut out, p.id.0);
    out.push('\n');
    let n = display_name(p);
    push_line(&mut out, "  Name:    ", n.as_str());
    push_line(&mut out, "  Sex:     ", p.sex.as_str());
    let living: &str = if p.living {
        "yes"
    } else {
        "no"
    };
    proof {
        reveal_strlit("yes");
        reveal_strlit("no");
    }
    push_line(&mut out, "  Living:  ", living);
    push_opt_line(&mut out, "  Notes:   ", &p.notes);
    let ghost mid = out@;
    if names.len() > 0 {
        push_str(&mut out, "  Names:");
        out.push('\n');
        let ghost start = out@;
        let mut k: usize = 0;
        while k < names.len()
            invariant
                k <= names.len(),
                out@ == start + name_lines(names@.take(k as int)),
            decreases names.len() - k,
        {
            let nm = &names[k];
            let ghost before = out@;
            push_str(&mut out, "    [");
            push_str(&mut out, nm.kind.as_str());
            push_str(&mut out, "] ");
            let label = name_label(nm);
            push_str(&mut out, label.as_str());
            out.push('\n');
            proof {
                assert(names@.take(k + 1).drop_last() =~= names@.take(k as int));
                assert(out@ =~= before + name_line(names@[k as int]));
            }
            k = k + 1;
        }
        assert(names@.take(names.len() as int) =~= names@);
    }
    push_events_block(&mut out, events);
    push_id_list(&mut out, "  Partner in:", partner_in);
    push_id_list(&mut out, "  Child in:  ", child_in);
    assert(out@ =~= person_view(*p, names@, events@, partner_in@, child_in@));
    string_from_chars(out)
}

/// A child's line: `order. Given Surname [relation]`.
pub open spec fn child_line(c: (ChildLink, Individual)) -> Seq<char> {
    "    "@ + int_text(c.0.sort_order as int) + ". "@ + spec_name_of(opt_view(c.1.given_name), opt_view(c.1.surname))
        + " ["@ + c.0.relation.code() + "]"@ + seq!['\n']
}

/// The lines of a list of children.
pub open spec fn child_lines(children: Seq<(ChildLink, Individual)>) -> Seq<char>
    decreases children.len(),
{
    if children.len() == 0 {
        seq![]
    } else {
        child_lines(children.drop_last()) + child_line(children.last())
    }
}

/// The detail block of one family: union type, both partner slots, notes,
/// children in order, and events.
pub open spec fn family_view(
    f: Family,
    partner1: Option<Individual>,
    partner2: Option<Individual>,
    children: Seq<(ChildLink, Individual)>,
    events: Seq<Event>,
) -> Seq<char> {
    "Family "@ + int_text(f.id.0 as int) + seq!['\n'] + line("  Type:     "@, f.union_type.code()) + line(
        "  Partner1: "@,
        spec_partner_label(partner1),
    ) + line("  Partner2: "@, spec_partner_label(partner2)) + opt_line("  Notes:    "@, opt_view(f.notes)) + (
    if children.len() == 0 {
        "  Children: (none)"@ + seq!['\n']
    } else {
        "  Children:"@ + seq!['\n'] + child_lines(children)
    }) + events_block(events)
}

/// The detail block of one family (see [`family_view`]).
pub fn family_view_text(
    f: &Family,
    partner1: Option<&Individual>,
    partner2: Option<&Individual>,
    children: &[(ChildLink, Individual)],
    events: &[Event],
) -> (r: String)
    ensures
        r@ == family_view(
            *f,
            match partner1 {
                Some(i) => Some(*i),
                None => None,
            },
            match partner2 {
                Some(i) => Some(*i),
                None => None,
            },
            children@,
            events@,
        ),
{
    let mut out: Vec<char> = Vec::new();
    push_str(&mut out, "Family ");
    push_int(&mut out, f.id.0);
    out.push('\n');
    push_line(&mut out, "  Type:     ", f.union_type.as_str());
    let l1 = partner_label(partner1);
    push_line(&mut out, "  Partner1: ", l1.as_str());
    let l2 = partner_label(partner2);
    push_line(&mut out, "  Partner2: ", l2.as_str());
    push_opt_line(&mut out, "  Notes:    ", &f.notes);
    if children.len() == 0 {
        push_str(&mut out, "  Children: (none)");
        out.push('\n');
    } else {
        push_str(&mut out, "  Children:");
        out.push('\n');
        let ghost start = out@;
        let mut k: usize = 0;
        while k < children.len()
            invariant
                k <= children.len(),
                out@ == start + child_lines(children@.take(k as int)),
            decreases children.len() - k,
        {
            let c = &children[k];
            let ghost before = out@;
            push_str(&mut out, "    ");
            push_int(&mut out, c.0.sort_order);
            push_str(&mut out, ". ");
            let n = display_name(&c.1);
            push_str(&mut out, n.as_str());
            push_str(&mut out, " [");
            push_str(&mut out, c.0.relation.as_str());
            push_str(&mut out, "]");
            out.push('\n');
            proof {
                assert(children@.take(k + 1).drop_last() =~= children@.take(k as int));
                assert(out@ =~= before + child_line(children@[k as int]));
            }
            k = k + 1;
        }
        assert(children@.take(children.len() as int) =~= children@);
    }
    push_events_block(&mut out, events);
    assert(out@ =~= family_view(
        *f,
        match partner1 {
            Some(i) => Some(*i),
            None => None,
        },
        match partner2 {
            Some(i) => Some(*i),
            None => None,
        },
        children@,
        events@,
    ));
    string_from_chars(out)
}

/// `person:<id>` or `family:<id>`.
pub open spec fn event_subject_text(s: EventSubject) -> Seq<char> {
    match s {
        EventSubject::Individual(p) => "person"@ + seq![':'] + int_text(p.0 as int),
        EventSubject::Family(f) => "family"@ + seq![':'] + int_text(f.0 as int),
    }
}

/// A place as `id: name`, or `—`.
pub open spec fn place_text(place: Option<(i64, Seq<char>)>) -> Seq<char> {
    or_dash(
        match place {
            Some((id, name)) => Some(int_text(id as int) + ": "@ + name),
            None => None,
        },
    )
}

/// The detail block of one event: subject, kind, date, place and notes.
pub open spec fn event_view(e: Event, place: Option<(i64, Seq<char>)>) -> Seq<char> {
    "Event "@ + int_text(e.id.0 as int) + seq!['\n'] + line("  Subject: "@, event_subject_text(e.subject))
        + line("  Kind:    "@, e.kind.code()) + line("  Date:    "@, date_text(e.date)) + line(
        "  Place:   "@,
        place_text(place),
    ) + opt_line("  Notes:   "@, opt_view(e.notes))
}

/// The detail block of one event (see [`event_view`]); `place` is the id and
/// name of its place, when it has one.
pub fn event_view_text(e: &Event, place: &Option<(i64, String)>) -> (r: String)
    ensures
        r@ == event_view(
            *e,
            match place {
                Some((id, name)) => Some((*id, name@)),
                None => None,
            },
        ),
{
    let ghost pv = match place {
        Some((id, name)) => Some((*id, name@)),
        None => None,
    };
    let mut out: Vec<char> = Vec::new();
    push_str(&mut out, "Event ");
    push_int(&mut out, e.id.0);
    out.push('\n');
    let subject = subject_label(e.subject);
    push_line(&mut out, "  Subject: ", subject.as_str());
    push_line(&mut out, "  Kind:    ", e.kind.as_str());
    let ghost before_date = out@;
    push_str(&mut out, "  Date:    ");
    push_date(&mut out, &e.date);
    out.push('\n');
    assert(out@ =~= before_date + line("  Date:    "@, date_text(e.date)));
    let ghost before_place = out@;
    push_str(&mut out, "  Place:   ");
    match place {
        Some((id, name)) => {
            push_int(&mut out, *id);
            push_str(&mut out, ": ");
            push_str(&mut out, name.as_str());
        },
        None => out.push('\u{2014}'),
    }
    out.push('\n');
    assert(out@ =~= before_place + line("  Place:   "@, place_text(pv)));
    push_opt_line(&mut out, "  Notes:   ", &e.notes);
    assert(out@ =~= event_view(*e, pv));
    string_from_chars(out)
}

/// `person:<id>`, `family:<id>` or `event:<id>`.
pub open spec fn citation_subject_text(s: CitationSubject) -> Seq<char> {
    match s {
        CitationSubject::Individual(p) => "person"@ + seq![':'] + int_text(p.0 as int),
        CitationSubject::Family(f) => "family"@ + seq![':'] + int_text(f.0 as int),
        CitationSubject::Event(e) => "event"@ + seq![':'] + int_text(e.0 as int),
    }
}

/// A citation's line under its source: `citation <id> → <subject> (page)`.
pub open spec fn cited_line(c: Citation) -> Seq<char> {
    "    citation "@ + int_text(c.id.0 as int) + " \u{2192} "@ + citation_subject_text(c.subject) + match opt_view(
        c.page,
    ) {
        Some(p) => " ("@ + p + ")"@,
        None => seq![],
    } + seq!['\n']
}

/// The lines of a list of citations.
pub open spec fn cited_lines(citations: Seq<Citation>) -> Seq<char>
    decreases citations.len(),
{
    if citations.len() == 0 {
        seq![]
    } else {
        cited_lines(citations.drop_last()) + cited_line(citations.last())
    }
}

/// The detail block of one source: title, the facts that are set, and the
/// citations of it.
pub open spec fn source_view(s: Source, citations: Seq<Citation>) -> Seq<char> {
    "Source "@ + int_text(s.id.0 as int) + seq!['\n'] + line("  Title:       "@, s.title@) + opt_line(
        "  Author:      "@,
        opt_view(s.author),
    ) + opt_line("  Publication: "@, opt_view(s.publication)) + opt_line(
        "  Repository:  "@,
        opt_view(s.repository),
    ) + opt_line("  Notes:       "@, opt_view(s.notes)) + if citations.len() == 0 {
        "  Cited by:    (none)"@ + seq!['\n']
    } else {
        "  Cited by:"@ + seq!['\n'] + cited_lines(citations)
    }
}

/// The detail block of one source (see [`source_view`]).
pub fn source_view_text(s: &Source, citations: &[Citation]) -> (r: String)
    ensures
        r@ == source_view(*s, citations@),
{
    let mut out: Vec<char> = Vec::new();
    push_str(&mut out, "Source ");
    push_int(&mut out, s.id.0);
    out.push('\n');
    push_line(&mut out, "  Title:       ", s.title.as_str());
    push_opt_line(&mut out, "  Author:      ", &s.author);
    push_opt_line(&mut out, "  Publication: ", &s.publication);
    push_opt_line(&mut out, "  Repository:  ", &s.repository);
    push_opt_line(&mut out, "  Notes:       ", &s.notes);
    if citations.len() == 0 {
        push_str(&mut out, "  Cited by:    (none)");
        out.push('\n');
    } else {
        push_str(&mut out, "  Cited by:");
        out.push('\n');
        let ghost start = out@;
        let mut k: usize = 0;
        while k < citations.len()
            invariant
                k <= citations.len(),
                out@ == start + cited_lines(citations@.take(k as int)),
            decreases citations.len() - k,
        {
            let c = &citations[k];
            let ghost before = out@;
            push_str(&mut out, "    citation ");
            push_int(&mut out, c.id.0);
            push_str(&mut out, " \u{2192} ");
            let subject = citation_subject_label(c.subject);
            push_str(&mut out, subject.as_str());
            match &c.page {
                Some(p) => {
                    push_str(&mut out, " (");
                    push_str(&mut out, p.as_str());
                    push_str(&mut out, ")");
                },
                None => {},
            }
            out.push('\n');
            proof {
                assert(citations@.take(k + 1).drop_last() =~= citations@.take(k as int));
                assert(out@ =~= before + cited_line(citations@[k as int]));
            }
            k = k + 1;
        }
        assert(citations@.take(citations.len() as int) =~= citations@);
    }
    assert(out@ =~= source_view(*s, citations@));
    string_from_chars(out)
}

/// A skipped tag with its count: `TAG×n`.
pub open spec fn skipped_item(e: (Seq<char>, usize)) -> Seq<char> {
    e.0 + seq!['\u{d7}'] + nat_digits(e.1 as nat)
}

/// Skipped tags separated by `, `.
pub open spec fn skipped_items(entries: Seq<(Seq<char>, usize)>) -> Seq<char>
    decreases entries.len(),
{
    if entries.len() == 0 {
        seq![]
    } else if entries.len() == 1 {
        skipped_item(entries[0])
    } else {
        skipped_items(entries.drop_last()) + ", "@ + skipped_item(entries.last())
    }
}

/// What an import reports: the counts of what it created, then the skipped
/// records by tag when there were any.
pub open spec fn import_report(s: ImportSummary) -> Seq<char> {
    let entries = Seq::new(s.skipped_tags@.len(), |i: int| (s.skipped_tags@[i].0@, s.skipped_tags@[i].1));
    "Imported "@ + nat_digits(s.individuals as nat) + " individuals, "@ + nat_digits(s.families as nat)
        + " families, "@ + nat_digits(s.events as nat) + " events, "@ + nat_digits(s.names as nat)
        + " names, "@ + nat_digits(s.places as nat) + " places"@ + seq!['\n'] + if entries.len() == 0 {
        seq![]
    } else {
        "Skipped unsupported records: "@ + skipped_items(entries) + seq!['\n']
    }
}

/// The text an import reports (see [`import_report`]).
pub fn import_report_text(s: &ImportSummary) -> (r: String)
    ensures
        r@ == import_report(*s),
{
    let mut out: Vec<char> = Vec::new();
    push_str(&mut out, "Imported ");
    push_nat(&mut out, s.individuals as u64);
    push_str(&mut out, " individuals, ");
    push_nat(&mut out, s.families as u64);
    push_str(&mut out, " families, ");
    push_nat(&mut out, s.events as u64);
    push_str(&mut out, " events, ");
    push_nat(&mut out, s.names as u64);
    push_str(&mut out, " names, ");
    push_nat(&mut out, s.places as u64);
    push_str(&mut out, " places");
    out.push('\n');
    let ghost entries = Seq::new(s.skipped_tags@.len(), |i: int| (s.skipped_tags@[i].0@, s.skipped_tags@[i].1));
    let n = s.skipped_tags.len();
    if n > 0 {
        push_str(&mut out, "Skipped unsupported records: ");
        let ghost start = out@;
        let mut k: usize = 0;
        while k < n
            invariant
                k <= n,
                n == s.skipped_tags@.len(),
                entries == Seq::new(s.skipped_tags@.len(), |i: int| (s.skipped_tags@[i].0@, s.skipped_tags@[i].1)),
                out@ == start + skipped_items(entries.take(k as int)),
            decreases n - k,
        {
            let ghost before = out@;
            if k > 0 {
                push_str(&mut out, ", ");
            }
            push_str(&mut out, s.skipped_tags[k].0.as_str());
            out.push('\u{d7}');
            push_nat(&mut out, s.skipped_tags[k].1 as u64);
            proof {
                assert(entries.take(k + 1).drop_last() =~= entries.take(k as int));
                if k == 0 {
                    assert(entries.take(1) =~= seq![entries[0]]);
                }
                assert(out@ =~= start + skipped_items(entries.take(k + 1)));
            }
            k = k + 1;
        }
        assert(entries.take(n as int) =~= entries);
        out.push('\n');
    }
    assert(out@ =~= import_report(*s));
    string_from_chars(out)
}

} // verus!
