//! What an import plans for the event sub-records of its records: which tags
//! are read as events, and the kind each family event is added with.

use vstd::prelude::*;
use crate::enums::EventKind;
use crate::gedcom::plan::{
    ImportStep, event_links, events_drafted, events_of, owner_ok, record_events, steps_of_kind,
};
use crate::gedcom::tags::{fixed_kind_for_tag, kind_for_tag_is};
use crate::gedcom::tree::GedcomRecord;

verus! {

/// The event sub-records read for a family are exactly those tagged `MARR`,
/// `DIV` or `EVEN`, in their order among the record's sub-records.
pub proof fn law_family_event_tags(cs: Seq<GedcomRecord>)
    ensures
        forall|j: int|
            0 <= j < cs.len() && (cs[j].tag@ == "MARR"@ || cs[j].tag@ == "DIV"@ || cs[j].tag@ == "EVEN"@)
                ==> #[trigger] events_of(cs, true).contains(cs[j]),
        forall|x: GedcomRecord|
            #[trigger] events_of(cs, true).contains(x) ==> cs.contains(x) && (x.tag@ == "MARR"@ || x.tag@
                == "DIV"@ || x.tag@ == "EVEN"@),
    decreases cs.len(),
{
    if cs.len() > 0 {
        law_family_event_tags(cs.drop_last());
        lemma_events_of_split(cs, true);
        assert forall|j: int| 0 <= j < cs.len() - 1 implies cs.drop_last()[j] == cs[j] by {}
    }
}

/// The event sub-records read for an individual are exactly those tagged
/// `BIRT`, `DEAT`, `BAPM`, `BURI`, `RESI`, `OCCU` or `EVEN`, in their order.
pub proof fn law_individual_event_tags(cs: Seq<GedcomRecord>)
    ensures
        forall|j: int|
            0 <= j < cs.len() && (cs[j].tag@ == "BIRT"@ || cs[j].tag@ == "DEAT"@ || cs[j].tag@ == "BAPM"@
                || cs[j].tag@ == "BURI"@ || cs[j].tag@ == "RESI"@ || cs[j].tag@ == "OCCU"@ || cs[j].tag@
                == "EVEN"@) ==> #[trigger] events_of(cs, false).contains(cs[j]),
        forall|x: GedcomRecord|
            #[trigger] events_of(cs, false).contains(x) ==> cs.contains(x) && (x.tag@ == "BIRT"@ || x.tag@
                == "DEAT"@ || x.tag@ == "BAPM"@ || x.tag@ == "BURI"@ || x.tag@ == "RESI"@ || x.tag@
                == "OCCU"@ || x.tag@ == "EVEN"@),
    decreases cs.len(),
{
    if cs.len() > 0 {
        law_individual_event_tags(cs.drop_last());
        lemma_events_of_split(cs, false);
        assert forall|j: int| 0 <= j < cs.len() - 1 implies cs.drop_last()[j] == cs[j] by {}
    }
}

/// The events of a list are those of all but its last sub-record, then the
/// last one when its tag names an event.
proof fn lemma_events_of_split(cs: Seq<GedcomRecord>, family: bool)
    requires
        cs.len() > 0,
    ensures
        forall|x: GedcomRecord|
            #[trigger] events_of(cs, family).contains(x) <==> (events_of(cs.drop_last(), family).contains(x)
                || (x == cs.last() && crate::gedcom::plan::spec_is_event_tag(cs.last().tag@, family))),
{
    let a = events_of(cs.drop_last(), family);
    let b = if crate::gedcom::plan::spec_is_event_tag(cs.last().tag@, family) {
        seq![cs.last()]
    } else {
        seq![]
    };
    assert(events_of(cs, family) == a + b);
    assert forall|x: GedcomRecord| #[trigger] events_of(cs, family).contains(x) <==> (a.contains(x) || (x
        == cs.last() && crate::gedcom::plan::spec_is_event_tag(cs.last().tag@, family))) by {
        if a.contains(x) {
            let w = choose|w: int| 0 <= w < a.len() && a[w] == x;
            assert((a + b)[w] == x);
        }
        if x == cs.last() && crate::gedcom::plan::spec_is_event_tag(cs.last().tag@, family) {
            assert((a + b)[a.len() as int] == x);
        }
        if (a + b).contains(x) {
            let w = choose|w: int| 0 <= w < (a + b).len() && (a + b)[w] == x;
            if w < a.len() {
                assert(a[w] == x);
            }
        }
    }
}

/// A sub-record whose tag names an event is among the record's events.
proof fn lemma_events_of_has(cs: Seq<GedcomRecord>, family: bool, j: int)
    requires
        0 <= j < cs.len(),
        crate::gedcom::plan::spec_is_event_tag(cs[j].tag@, family),
    ensures
        events_of(cs, family).contains(cs[j]),
    decreases cs.len(),
{
    lemma_events_of_split(cs, family);
    if j < cs.len() - 1 {
        assert(cs.drop_last()[j] == cs[j]);
        lemma_events_of_has(cs.drop_last(), family, j);
    }
}

/// An event of a record tagged `t` is linked, with the record, among the
/// event links of the records tagged `t`.
proof fn lemma_event_links_has(rs: Seq<GedcomRecord>, t: Seq<char>, r: int, ev: GedcomRecord)
    requires
        0 <= r < rs.len(),
        rs[r].tag@ == t,
        events_of(rs[r].children@, rs[r].tag@ == "FAM"@).contains(ev),
    ensures
        event_links(rs, t).contains((rs[r], ev)),
    decreases rs.len(),
{
    let a = event_links(rs.drop_last(), t);
    if r == rs.len() - 1 {
        let evs = events_of(rs[r].children@, rs[r].tag@ == "FAM"@);
        let w = choose|w: int| 0 <= w < evs.len() && evs[w] == ev;
        let re = record_events(rs[r]);
        assert(re[w] == (rs[r], ev));
        assert(event_links(rs, t) == a + re);
        assert((a + re)[a.len() + w] == (rs[r], ev));
    } else {
        assert(rs.drop_last()[r] == rs[r]);
        lemma_event_links_has(rs.drop_last(), t, r, ev);
        let w = choose|w: int| 0 <= w < a.len() && a[w] == (rs[r], ev);
        let b = if rs.last().tag@ == t {
            record_events(rs.last())
        } else {
            seq![]
        };
        assert(event_links(rs, t) == a + b);
        assert((a + b)[w] == (rs[r], ev));
    }
}

/// Every `DIV` sub-record of a `FAM` record is planned as an event of kind
/// divorce, and every `MARR` one as a marriage, added to the family that
/// record creates.
pub proof fn law_family_events_planned(rs: Seq<GedcomRecord>, steps: Seq<ImportStep>, r: int, j: int)
    requires
        events_drafted(event_links(rs, "INDI"@) + event_links(rs, "FAM"@), rs, steps),
        0 <= r < rs.len(),
        rs[r].tag@ == "FAM"@,
        0 <= j < rs[r].children.len(),
        rs[r].children@[j].tag@ == "DIV"@ || rs[r].children@[j].tag@ == "MARR"@,
    ensures
        exists|k: int|
            0 <= k < steps_of_kind(steps, 4).len() && (#[trigger] steps_of_kind(steps, 4)[k] matches ImportStep::AddEvent {
                subject,
                kind,
                ..
            } && owner_ok(rs[r], rs, steps, subject) && (rs[r].children@[j].tag@ == "DIV"@ ==> kind
                == EventKind::Divorce) && (rs[r].children@[j].tag@ == "MARR"@ ==> kind == EventKind::Marriage)),
{
    let ev = rs[r].children@[j];
    law_family_event_tags(rs[r].children@);
    assert(events_of(rs[r].children@, true).contains(ev));
    lemma_event_links_has(rs, "FAM"@, r, ev);
    let a = event_links(rs, "INDI"@);
    let b = event_links(rs, "FAM"@);
    let w = choose|w: int| 0 <= w < b.len() && b[w] == (rs[r], ev);
    let k = a.len() + w;
    let links = a + b;
    assert(links[k] == (rs[r], ev));
    let c = steps_of_kind(steps, 4);
    reveal_strlit("BIRT");
    reveal_strlit("DEAT");
    reveal_strlit("MARR");
    reveal_strlit("DIV");
    assert(ev.tag@ == "DIV"@ ==> fixed_kind_for_tag(ev.tag@) == Some(EventKind::Divorce)) by {
        if ev.tag@ == "DIV"@ {
            assert(ev.tag@.len() != "BIRT"@.len());
        }
    }
    assert(ev.tag@ == "MARR"@ ==> fixed_kind_for_tag(ev.tag@) == Some(EventKind::Marriage)) by {
        if ev.tag@ == "MARR"@ {
            assert(ev.tag@[0] != "BIRT"@[0] && ev.tag@[0] != "DEAT"@[0]);
        }
    }
    if let ImportStep::AddEvent { subject, kind, .. } = c[k] {
        assert(kind_for_tag_is(ev.tag@, crate::gedcom::map::child_value(ev, "TYPE"@), kind));
    }
    assert(c[k] matches ImportStep::AddEvent { subject, kind, .. } && owner_ok(rs[r], rs, steps, subject) && (ev.tag@
        == "DIV"@ ==> kind == EventKind::Divorce) && (ev.tag@ == "MARR"@ ==> kind == EventKind::Marriage));
}

} // verus!
