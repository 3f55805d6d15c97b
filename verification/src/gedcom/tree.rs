//! Folds the flat [`Line`]s into a record tree by level, applying `CONC`
//! (concatenate, no separator) and `CONT` (newline) to the record whose value
//! they continue.

use vstd::prelude::*;
use crate::error::CoreError;
use crate::gedcom::lexer::{Line, LineView, line_views, opt_view};
use crate::num::{int_text, push_int};
use crate::text::{chars_eq, chars_of, push_chars, push_str, string_from_chars};

verus! {

/// A GEDCOM record and its sub-records. Values are owned: `CONC`/`CONT` lines
/// are folded into the value they continue and never kept as children.
#[derive(Debug, PartialEq, Eq)]
pub struct GedcomRecord {
    /// 1-based source line number of the record's own line.
    pub line_no: u32,
    /// The optional `@…@` cross-reference id (`@` wrapper stripped).
    pub xref: Option<String>,
    /// The tag (e.g. `INDI`, `NAME`).
    pub tag: String,
    /// The value, with any continuations folded in.
    pub value: Option<String>,
    /// Sub-records.
    pub children: Vec<GedcomRecord>,
}

/// A record's content as character sequences.
#[verifier::ext_equal]
pub struct RecordView {
    /// Source line number.
    pub line_no: u32,
    /// Cross-reference id.
    pub xref: Option<Seq<char>>,
    /// Tag.
    pub tag: Seq<char>,
    /// Value.
    pub value: Option<Seq<char>>,
    /// Sub-records.
    pub children: Seq<RecordView>,
}

/// The view of a record.
pub open spec fn record_view(r: GedcomRecord) -> RecordView
    decreases r,
{
    RecordView {
        line_no: r.line_no,
        xref: opt_view(r.xref),
        tag: r.tag@,
        value: opt_view(r.value),
        children: records_view(r.children@),
    }
}

/// The views of a list of records.
pub open spec fn records_view(rs: Seq<GedcomRecord>) -> Seq<RecordView>
    decreases rs,
{
    if rs.len() == 0 {
        seq![]
    } else {
        records_view(rs.drop_last()).push(record_view(rs.last()))
    }
}

/// Whether a line continues the previous value (`CONC` or `CONT`).
pub open spec fn is_cont(l: LineView) -> bool {
    l.tag == seq!['C', 'O', 'N', 'C'] || l.tag == seq!['C', 'O', 'N', 'T']
}

/// A value after one continuation line: `CONT` adds a newline, `CONC` nothing,
/// then the line's value (an absent value starts empty).
pub open spec fn continued(acc: Option<Seq<char>>, l: LineView) -> Seq<char> {
    let b = match acc {
        Some(v) => v,
        None => seq![],
    };
    let b2 = if l.tag == seq!['C', 'O', 'N', 'T'] {
        b.push('\n')
    } else {
        b
    };
    b2 + match l.value {
        Some(v) => v,
        None => seq![],
    }
}

/// The value of the record at `pos` after folding its continuation lines from
/// index `k` on into `acc`.
pub open spec fn fold_value(ls: Seq<LineView>, pos: int, k: int, acc: Option<Seq<char>>) -> Option<
    Seq<char>,
>
    decreases ls.len() - k,
{
    if k <= pos || k >= ls.len() || pos < 0 || ls[k].level <= ls[pos].level {
        acc
    } else if ls[k].level == ls[pos].level + 1 && is_cont(ls[k]) {
        fold_value(ls, pos, k + 1, Some(continued(acc, ls[k])))
    } else {
        fold_value(ls, pos, k + 1, acc)
    }
}

/// The record the line at `pos` opens: its own line, its folded value, and a
/// child for each non-continuation line one level deeper before the next line
/// at its level or above.
pub open spec fn record_at(ls: Seq<LineView>, pos: int) -> RecordView
    decreases ls.len() - pos, ls.len() - pos + 1,
{
    if pos < 0 || pos >= ls.len() {
        RecordView { line_no: 0, xref: None, tag: seq![], value: None, children: seq![] }
    } else {
        RecordView {
            line_no: ls[pos].line_no,
            xref: ls[pos].xref,
            tag: ls[pos].tag,
            value: fold_value(ls, pos, pos + 1, ls[pos].value),
            children: kids(ls, pos, pos + 1),
        }
    }
}

/// The children of the record at `pos` opened at index `k` or later.
pub open spec fn kids(ls: Seq<LineView>, pos: int, k: int) -> Seq<RecordView>
    decreases ls.len() - pos, ls.len() - k,
{
    if k <= pos || k >= ls.len() || pos < 0 || ls[k].level <= ls[pos].level {
        seq![]
    } else if ls[k].level == ls[pos].level + 1 && !is_cont(ls[k]) {
        seq![record_at(ls, k)] + kids(ls, pos, k + 1)
    } else {
        kids(ls, pos, k + 1)
    }
}

/// The records opened by level-0 lines at index `k` or later.
pub open spec fn roots_from(ls: Seq<LineView>, k: int) -> Seq<RecordView>
    decreases ls.len() - k,
{
    if k < 0 || k >= ls.len() {
        seq![]
    } else if ls[k].level == 0 {
        seq![record_at(ls, k)] + roots_from(ls, k + 1)
    } else {
        roots_from(ls, k + 1)
    }
}

/// The deepest level the line at `j` may take: one below the previous line's
/// record (a continuation's record is one level up from the continuation).
pub open spec fn level_limit(ls: Seq<LineView>, j: int) -> int {
    if j <= 0 {
        0
    } else {
        ls[j - 1].level - (if is_cont(ls[j - 1]) {
            1int
        } else {
            0int
        }) + 1
    }
}

/// Whether the line at `j` nests properly: no deeper than its limit, and not
/// a continuation at the top level.
pub open spec fn line_nests(ls: Seq<LineView>, j: int) -> bool {
    ls[j].level <= level_limit(ls, j) && !(ls[j].level == 0 && is_cont(ls[j]))
}

/// Whether every line nests properly.
pub open spec fn well_nested(ls: Seq<LineView>) -> bool {
    forall|j: int| 0 <= j < ls.len() ==> line_nests(ls, j)
}

/// The message for line `j` when it is the first that does not nest: the
/// first line not at level 0, a continuation at level 0 with no record
/// before it, or a line deeper than one below its record.
pub open spec fn nesting_message(ls: Seq<LineView>, j: int) -> Seq<char> {
    "line "@ + int_text(ls[j].line_no as i64 as int) + ": "@ + if j == 0 && ls[j].level != 0 {
        "expected a level-0 record"@
    } else if ls[j].level == 0 && is_cont(ls[j]) {
        "continuation with no preceding record"@
    } else {
        "level jumped by more than one"@
    }
}

/// Whether line `j` is the first of `ls` from `from` on that does not nest.
pub open spec fn first_bad_line(ls: Seq<LineView>, from: int, j: int) -> bool {
    &&& from <= j < ls.len()
    &&& !line_nests(ls, j)
    &&& forall|k: int| from <= k < j ==> #[trigger] line_nests(ls, k)
}

/// Lines deeper than a child's level belong to that child: skipping them leaves
/// the remaining children and the folded value unchanged.
pub(crate) proof fn lemma_skip_deeper(ls: Seq<LineView>, pos: int, k: int, after: int, acc: Option<Seq<char>>)
    requires
        0 <= pos < k <= after <= ls.len(),
        forall|j: int| k <= j < after ==> #[trigger] ls[j].level > ls[pos].level + 1,
    ensures
        kids(ls, pos, k) == kids(ls, pos, after),
        fold_value(ls, pos, k, acc) == fold_value(ls, pos, after, acc),
    decreases after - k,
{
    if k < after {
        lemma_skip_deeper(ls, pos, k + 1, after, acc);
    }
}

/// Level-0 roots skip the lines of the record before them.
pub(crate) proof fn lemma_roots_skip(ls: Seq<LineView>, k: int, after: int)
    requires
        0 <= k <= after <= ls.len(),
        forall|j: int| k <= j < after ==> #[trigger] ls[j].level > 0,
    ensures
        roots_from(ls, k) == roots_from(ls, after),
    decreases after - k,
{
    if k < after {
        lemma_roots_skip(ls, k + 1, after);
    }
}

/// Whether a line's tag is `CONC` or `CONT`.
fn is_cont_line(l: &Line) -> (b: bool)
    ensures
        b == is_cont(l.view()),
{
    let t = chars_of(l.tag.as_str());
    chars_eq(t.as_slice(), &['C', 'O', 'N', 'C']) || chars_eq(t.as_slice(), &['C', 'O', 'N', 'T'])
}

/// Folds a `CONC` (no separator) or `CONT` (a newline) line into a value.
fn apply_continuation(value: &Option<String>, line: &Line) -> (r: String)
    ensures
        r@ == continued(opt_view(*value), line.view()),
{
    let mut buf: Vec<char> = Vec::new();
    match value {
        Some(v) => push_str(&mut buf, v.as_str()),
        None => {},
    }
    let t = chars_of(line.tag.as_str());
    if chars_eq(t.as_slice(), &['C', 'O', 'N', 'T']) {
        buf.push('\n');
    }
    match &line.value {
        Some(v) => push_str(&mut buf, v.as_str()),
        None => {},
    }
    proof {
        assert(buf@ =~= continued(opt_view(*value), line.view()));
    }
    string_from_chars(buf)
}

/// A validation error `line N: …` for a line that does not nest.
fn nesting_error(line: &Line, what: &str) -> (e: CoreError)
    ensures
        e is Validation,
        e->Validation_0@ == "line "@ + int_text(line.line_no as i64 as int) + ": "@ + what@,
{
    let mut m: Vec<char> = Vec::new();
    push_str(&mut m, "line ");
    push_int(&mut m, line.line_no as i64);
    push_str(&mut m, ": ");
    push_str(&mut m, what);
    assert(m@ =~= "line "@ + int_text(line.line_no as i64 as int) + ": "@ + what@);
    CoreError::Validation(string_from_chars(m))
}

/// Builds the record at `lines[pos]` and its descendants and continuations,
/// returning it and the index of the next unconsumed line.
fn build_record(lines: &Vec<Line>, pos: usize) -> (r: Result<(GedcomRecord, usize), CoreError>)
    requires
        pos < lines.len(),
        !is_cont(lines@[pos as int].view()),
    ensures
        match r {
            Ok((rec, after)) => {
                let ls = line_views(lines@);
                &&& record_view(rec) == record_at(ls, pos as int)
                &&& pos < after <= lines.len()
                &&& forall|j: int|
                    pos < j < after ==> #[trigger] ls[j].level > ls[pos as int].level
                        && line_nests(ls, j)
                &&& (after < lines.len() ==> ls[after as int].level <= ls[pos as int].level)
            },
            Err(e) => !well_nested(line_views(lines@)) && e is Validation && exists|j: int|
                first_bad_line(line_views(lines@), pos + 1, j) && e->Validation_0@ == nesting_message(
                    line_views(lines@),
                    j,
                ),
        },
    decreases lines.len() - pos,
{
    let ghost ls = line_views(lines@);
    let line = &lines[pos];
    let level = line.level;
    assert(ls[pos as int] == line.view());
    let mut value: Option<String> = line.value.clone();
    let mut children: Vec<GedcomRecord> = Vec::new();
    let mut i: usize = pos + 1;
    let ghost mut after_child: bool = false;
    assert(records_view(children@) + kids(ls, pos as int, i as int) =~= kids(
        ls,
        pos as int,
        pos + 1,
    ));
    while i < lines.len()
        invariant
            ls == line_views(lines@),
            pos < i <= lines.len(),
            level == ls[pos as int].level,
            !is_cont(ls[pos as int]),
            forall|j: int| pos < j < i ==> #[trigger] ls[j].level > level && line_nests(ls, j),
            !after_child ==> level_limit(ls, i as int) == level + 1,
            after_child ==> i > pos + 1 && (i < lines.len() ==> ls[i as int].level <= level + 1)
                && level_limit(ls, i as int) >= level + 1,
            kids(ls, pos as int, pos + 1) == records_view(children@) + kids(ls, pos as int, i as int),
            fold_value(ls, pos as int, pos + 1, ls[pos as int].value) == fold_value(
                ls,
                pos as int,
                i as int,
                opt_view(value),
            ),
        ensures
            i == lines.len() || ls[i as int].level <= level,
        decreases lines.len() - i,
    {
        let next = &lines[i];
        assert(ls[i as int] == next.view());
        if next.level <= level {
            break;
        }
        if next.level > level + 1 {
            assert(!line_nests(ls, i as int));
            assert(first_bad_line(ls, pos + 1, i as int));
            let e = nesting_error(next, "level jumped by more than one");
            assert(ls[i as int].line_no == next.line_no);
            assert(e->Validation_0@ == nesting_message(ls, i as int));
            return Err(e);
        }
        if is_cont_line(next) {
            let v = apply_continuation(&value, next);
            value = Some(v);
            i = i + 1;
            proof {
                after_child = false;
            }
        } else {
            assert(line_nests(ls, i as int));
            match build_record(lines, i) {
                Err(e) => {
                    proof {
                        let j = choose|j: int| first_bad_line(ls, i + 1, j) && e->Validation_0@ == nesting_message(ls, j);
                        assert forall|k: int| pos + 1 <= k < j implies #[trigger] line_nests(ls, k) by {
                            if k > i {
                                assert(first_bad_line(ls, i + 1, j));
                            }
                        }
                        assert(first_bad_line(ls, pos + 1, j));
                    }
                    return Err(e);
                },
                Ok((child, after)) => {
                    proof {
                        lemma_skip_deeper(ls, pos as int, i + 1, after as int, opt_view(value));
                        let ghost before = children@;
                        assert(records_view(before.push(child)) == records_view(before).push(
                            record_view(child),
                        )) by {
                            assert(before.push(child).drop_last() =~= before);
                        }
                    }
                    let ghost before = children@;
                    children.push(child);
                    proof {
                        assert(before.push(child) =~= children@);
                        assert(records_view(children@) + kids(ls, pos as int, after as int)
                            =~= records_view(before) + kids(ls, pos as int, i as int));
                        after_child = true;
                    }
                    i = after;
                },
            }
        }
    }
    let rec = GedcomRecord {
        line_no: line.line_no,
        xref: line.xref.clone(),
        tag: line.tag.clone(),
        value,
        children,
    };
    proof {
        assert(kids(ls, pos as int, i as int) =~= Seq::<RecordView>::empty());
        assert(records_view(children@) + Seq::<RecordView>::empty() =~= records_view(children@));
        assert(record_view(rec) =~= record_at(ls, pos as int));
    }
    Ok((rec, i))
}

/// Builds the level-0 records, folding `CONC`/`CONT` lines into the value of
/// the record they continue.
///
/// # Errors
/// [`CoreError::Validation`] citing the line number when a line does not nest:
/// the first line is not at level 0, a line jumps more than one level deeper,
/// or a continuation has no preceding record.
pub fn build(lines: &Vec<Line>) -> (r: Result<Vec<GedcomRecord>, CoreError>)
    ensures
        match r {
            Ok(rs) => well_nested(line_views(lines@)) && records_view(rs@) == roots_from(
                line_views(lines@),
                0,
            ),
            Err(e) => !well_nested(line_views(lines@)) && e is Validation && exists|j: int|
                first_bad_line(line_views(lines@), 0, j) && e->Validation_0@ == nesting_message(line_views(lines@), j),
        },
{
    let ghost ls = line_views(lines@);
    let mut roots: Vec<GedcomRecord> = Vec::new();
    let mut pos: usize = 0;
    assert(records_view(roots@) + roots_from(ls, 0) =~= roots_from(ls, 0));
    while pos < lines.len()
        invariant
            ls == line_views(lines@),
            pos <= lines.len(),
            forall|j: int| 0 <= j < pos ==> #[trigger] line_nests(ls, j),
            pos > 0 && pos < lines.len() ==> ls[pos as int].level == 0,
            pos > 0 ==> level_limit(ls, pos as int) >= 0,
            roots_from(ls, 0) == records_view(roots@) + roots_from(ls, pos as int),
        decreases lines.len() - pos,
    {
        let line = &lines[pos];
        assert(ls[pos as int] == line.view());
        if line.level != 0 {
            assert(!line_nests(ls, pos as int));
            assert(first_bad_line(ls, 0, pos as int));
            let e = nesting_error(line, "expected a level-0 record");
            assert(ls[pos as int].line_no == line.line_no);
            assert(e->Validation_0@ == nesting_message(ls, pos as int));
            return Err(e);
        }
        if is_cont_line(line) {
            assert(!line_nests(ls, pos as int));
            assert(first_bad_line(ls, 0, pos as int));
            let e = nesting_error(line, "continuation with no preceding record");
            assert(ls[pos as int].line_no == line.line_no);
            assert(e->Validation_0@ == nesting_message(ls, pos as int));
            return Err(e);
        }
        assert(line_nests(ls, pos as int));
        match build_record(lines, pos) {
            Err(e) => {
                proof {
                    let j = choose|j: int| first_bad_line(ls, pos + 1, j) && e->Validation_0@ == nesting_message(ls, j);
                    assert forall|k: int| 0 <= k < j implies #[trigger] line_nests(ls, k) by {
                        if k > pos {
                            assert(first_bad_line(ls, pos + 1, j));
                        }
                    }
                    assert(first_bad_line(ls, 0, j));
                }
                return Err(e);
            },
            Ok((record, next)) => {
                proof {
                    lemma_roots_skip(ls, pos + 1, next as int);
                    let ghost before = roots@;
                    assert(before.push(record).drop_last() =~= before);
                }
                let ghost before = roots@;
                roots.push(record);
                proof {
                    assert(before.push(record) =~= roots@);
                    assert(records_view(roots@) + roots_from(ls, next as int) =~= records_view(
                        before,
                    ) + roots_from(ls, pos as int));
                }
                pos = next;
            },
        }
    }
    assert(roots_from(ls, pos as int) =~= Seq::<RecordView>::empty());
    assert(records_view(roots@) + Seq::<RecordView>::empty() =~= records_view(roots@));
    Ok(roots)
}

/// The records of `rs` with tag `tag`, in order.
pub open spec fn tagged(rs: Seq<GedcomRecord>, tag: Seq<char>) -> Seq<GedcomRecord>
    decreases rs.len(),
{
    if rs.len() == 0 {
        seq![]
    } else if rs.last().tag@ == tag {
        tagged(rs.drop_last(), tag).push(rs.last())
    } else {
        tagged(rs.drop_last(), tag)
    }
}

/// The index of the first record of `rs` with tag `tag`.
pub open spec fn first_tagged(rs: Seq<GedcomRecord>, tag: Seq<char>, from: int) -> Option<int>
    decreases rs.len() - from,
{
    if from < 0 || from >= rs.len() {
        None
    } else if rs[from].tag@ == tag {
        Some(from)
    } else {
        first_tagged(rs, tag, from + 1)
    }
}

impl GedcomRecord {
    /// The first child with `tag`, if any.
    pub fn child(&self, tag: &str) -> (r: Option<&GedcomRecord>)
        ensures
            match first_tagged(self.children@, tag@, 0) {
                Some(i) => r == Some(&self.children@[i]),
                None => r is None,
            },
    {
        let t = chars_of(tag);
        let mut i: usize = 0;
        while i < self.children.len()
            invariant
                i <= self.children.len(),
                t@ == tag@,
                first_tagged(self.children@, tag@, 0) == first_tagged(
                    self.children@,
                    tag@,
                    i as int,
                ),
            decreases self.children.len() - i,
        {
            let c = &self.children[i];
            let ct = chars_of(c.tag.as_str());
            if chars_eq(ct.as_slice(), t.as_slice()) {
                return Some(c);
            }
            i = i + 1;
        }
        None
    }

    /// Every child with `tag`, in order (repeated `NAME`/`FAMS`/`CHIL`).
    pub fn children_with(&self, tag: &str) -> (r: Vec<&GedcomRecord>)
        ensures
            r.len() == tagged(self.children@, tag@).len(),
            forall|i: int| 0 <= i < r.len() ==> *r@[i] == tagged(self.children@, tag@)[i],
    {
        let t = chars_of(tag);
        let mut out: Vec<&GedcomRecord> = Vec::new();
        let mut i: usize = 0;
        assert(self.children@.take(0) =~= Seq::<GedcomRecord>::empty());
        while i < self.children.len()
            invariant
                i <= self.children.len(),
                t@ == tag@,
                out.len() == tagged(self.children@.take(i as int), tag@).len(),
                forall|j: int|
                    0 <= j < out.len() ==> *out@[j] == tagged(self.children@.take(i as int), tag@)[j],
            decreases self.children.len() - i,
        {
            let c = &self.children[i];
            proof {
                assert(self.children@.take(i + 1).drop_last() =~= self.children@.take(i as int));
                assert(self.children@.take(i + 1).last() == *c);
            }
            let ct = chars_of(c.tag.as_str());
            if chars_eq(ct.as_slice(), t.as_slice()) {
                out.push(c);
            }
            i = i + 1;
        }
        assert(self.children@.take(i as int) =~= self.children@);
        out
    }

    /// The value, if any.
    pub fn value_str(&self) -> (r: Option<&str>)
        ensures
            match r {
                Some(v) => self.value matches Some(s) && v@ == s@,
                None => self.value is None,
            },
    {
        match &self.value {
            Some(s) => Some(s.as_str()),
            None => None,
        }
    }
}

} // verus!
