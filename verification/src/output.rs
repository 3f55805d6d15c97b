//! The command line's text output: names and labels of records, the lifespan
//! suffix of a person line, the aligned tables lists are printed as, and the
//! categories and exit codes of errors. (Printing itself is the
//! application's.)

use vstd::prelude::*;
use vstd::utf8::encode_utf8;
use crate::enums::{CitationSubject, EventSubject};
use crate::error::{spec_error_kind, spec_exit_code, CoreError};
use crate::gedcom::lexer::{lemma_trail_count_is, opt_view, trail_count};
use crate::num::{int_text, push_int};
use crate::records::{Individual, Name};
use crate::text::{chars_of, push_chars, push_str, string_from_chars};
use crate::walk::NodeRef;

verus! {

/// "Given Surname", a single part, or `(unnamed)`.
pub open spec fn spec_name_of(given: Option<Seq<char>>, surname: Option<Seq<char>>) -> Seq<char> {
    match (given, surname) {
        (Some(g), Some(s)) => g + seq![' '] + s,
        (Some(g), None) => g,
        (None, Some(s)) => s,
        (None, None) => "(unnamed)"@,
    }
}

/// "Given Surname" from optional parts (see [`spec_name_of`]).
fn name_of(given: &Option<String>, surname: &Option<String>) -> (r: String)
    ensures
        r@ == spec_name_of(opt_view(*given), opt_view(*surname)),
{
    let mut out: Vec<char> = Vec::new();
    match (given, surname) {
        (Some(g), Some(s)) => {
            push_str(&mut out, g.as_str());
            out.push(' ');
            push_str(&mut out, s.as_str());
        },
        (Some(g), None) => push_str(&mut out, g.as_str()),
        (None, Some(s)) => push_str(&mut out, s.as_str()),
        (None, None) => push_str(&mut out, "(unnamed)"),
    }
    assert(out@ =~= spec_name_of(opt_view(*given), opt_view(*surname)));
    string_from_chars(out)
}

/// A person's display name: "Given Surname", a single part, or `(unnamed)`.
pub fn display_name(p: &Individual) -> (r: String)
    ensures
        r@ == spec_name_of(opt_view(p.given_name), opt_view(p.surname)),
{
    name_of(&p.given_name, &p.surname)
}

/// "Given Surname" for an alternate name (falling back like
/// [`display_name`]).
pub fn name_label(n: &Name) -> (r: String)
    ensures
        r@ == spec_name_of(opt_view(n.given_name), opt_view(n.surname)),
{
    name_of(&n.given_name, &n.surname)
}

/// "id: Name" for a resolved partner, or `—` for an empty slot.
pub open spec fn spec_partner_label(p: Option<Individual>) -> Seq<char> {
    match p {
        Some(i) => int_text(i.id.0 as int) + ": "@ + spec_name_of(opt_view(i.given_name), opt_view(i.surname)),
        None => seq!['\u{2014}'],
    }
}

/// "id: Name" for a resolved partner, or `—` when the slot is empty.
pub fn partner_label(p: Option<&Individual>) -> (r: String)
    ensures
        r@ == spec_partner_label(
            match p {
                Some(i) => Some(*i),
                None => None,
            },
        ),
{
    let mut out: Vec<char> = Vec::new();
    match p {
        Some(i) => {
            push_int(&mut out, i.id.0);
            push_str(&mut out, ": ");
            let n = display_name(i);
            push_str(&mut out, n.as_str());
        },
        None => out.push('\u{2014}'),
    }
    assert(out@ =~= spec_partner_label(
        match p {
            Some(i) => Some(*i),
            None => None,
        },
    ));
    string_from_chars(out)
}

/// A label `kind:id`.
fn kind_id(kind: &str, id: i64) -> (r: String)
    ensures
        r@ == kind@ + seq![':'] + int_text(id as int),
{
    let mut out: Vec<char> = Vec::new();
    push_str(&mut out, kind);
    out.push(':');
    push_int(&mut out, id);
    assert(out@ =~= kind@ + seq![':'] + int_text(id as int));
    string_from_chars(out)
}

/// `person:<id>` / `family:<id>` for an event subject (the form `--subject`
/// accepts).
pub fn subject_label(subject: EventSubject) -> (r: String)
    ensures
        r@ == match subject {
            EventSubject::Individual(p) => "person"@ + seq![':'] + int_text(p.0 as int),
            EventSubject::Family(f) => "family"@ + seq![':'] + int_text(f.0 as int),
        },
{
    match subject {
        EventSubject::Individual(p) => kind_id("person", p.0),
        EventSubject::Family(f) => kind_id("family", f.0),
    }
}

/// `event:<id>` / `person:<id>` / `family:<id>` for a citation subject.
pub fn citation_subject_label(subject: CitationSubject) -> (r: String)
    ensures
        r@ == match subject {
            CitationSubject::Individual(p) => "person"@ + seq![':'] + int_text(p.0 as int),
            CitationSubject::Family(f) => "family"@ + seq![':'] + int_text(f.0 as int),
            CitationSubject::Event(e) => "event"@ + seq![':'] + int_text(e.0 as int),
        },
{
    match subject {
        CitationSubject::Individual(p) => kind_id("person", p.0),
        CitationSubject::Family(f) => kind_id("family", f.0),
        CitationSubject::Event(e) => kind_id("event", e.0),
    }
}

/// A short summary of an individual: `individual <id>: <name>`.
pub fn person_summary(p: &Individual) -> (r: String)
    ensures
        r@ == "individual "@ + int_text(p.id.0 as int) + ": "@ + spec_name_of(
            opt_view(p.given_name),
            opt_view(p.surname),
        ),
{
    let mut out: Vec<char> = Vec::new();
    push_str(&mut out, "individual ");
    push_int(&mut out, p.id.0);
    push_str(&mut out, ": ");
    let n = display_name(p);
    push_str(&mut out, n.as_str());
    assert(out@ =~= "individual "@ + int_text(p.id.0 as int) + ": "@ + spec_name_of(
        opt_view(p.given_name),
        opt_view(p.surname),
    ));
    string_from_chars(out)
}

/// A person in a relationship walk, as a tree line shows them.
#[derive(Debug, Clone, PartialEq, Eq)]
pub struct PersonNode {
    /// The person's node in the walk's graph.
    pub node: NodeRef,
    /// Whether the walk started from this person.
    pub focal: bool,
    /// "Given Surname"-style label.
    pub display_name: String,
    /// Best-estimate birth year, if known.
    pub birth_year: Option<i32>,
    /// Best-estimate death year, if known.
    pub death_year: Option<i32>,
}

/// `1850–1915`, `1850–` or `–1915` from a walk's years; nothing when neither
/// is known.
pub open spec fn spec_node_lifespan(birth: Option<i32>, death: Option<i32>) -> Option<Seq<char>> {
    match (birth, death) {
        (None, None) => None,
        (b, d) => Some(
            match b {
                Some(y) => int_text(y as int),
                None => seq![],
            } + seq!['\u{2013}'] + match d {
                Some(y) => int_text(y as int),
                None => seq![],
            },
        ),
    }
}

/// The lifespan suffix of a tree line (see [`spec_node_lifespan`]).
pub fn lifespan(p: &PersonNode) -> (r: Option<String>)
    ensures
        opt_view(r) == spec_node_lifespan(p.birth_year, p.death_year),
{
    if p.birth_year.is_none() && p.death_year.is_none() {
        return None;
    }
    let mut out: Vec<char> = Vec::new();
    match p.birth_year {
        Some(y) => push_int(&mut out, y as i64),
        None => {},
    }
    out.push('\u{2013}');
    match p.death_year {
        Some(y) => push_int(&mut out, y as i64),
        None => {},
    }
    assert(Some(out@) == spec_node_lifespan(p.birth_year, p.death_year));
    Some(string_from_chars(out))
}

/// "Given Surname (1850–1915)" for a walk's person, or the bare name when no
/// year is known.
pub fn person_line(p: &PersonNode) -> (r: String)
    ensures
        r@ == match spec_node_lifespan(p.birth_year, p.death_year) {
            Some(span) => p.display_name@ + " ("@ + span + seq![')'],
            None => p.display_name@,
        },
{
    match lifespan(p) {
        Some(span) => {
            let mut out: Vec<char> = Vec::new();
            push_str(&mut out, p.display_name.as_str());
            push_str(&mut out, " (");
            push_str(&mut out, span.as_str());
            out.push(')');
            assert(out@ =~= p.display_name@ + " ("@ + span@ + seq![')']);
            string_from_chars(out)
        },
        None => p.display_name.clone(),
    }
}

/// The stable machine name of an error's category, `error` for a failure
/// that is not the library's.
pub open spec fn spec_error_kind_of(err: Option<CoreError>) -> Seq<char> {
    match err {
        Some(e) => spec_error_kind(e),
        None => "error"@,
    }
}

/// The category of the error a command failed with (see
/// [`spec_error_kind_of`]).
pub fn error_kind(err: Option<&CoreError>) -> (r: &'static str)
    ensures
        r@ == spec_error_kind_of(
            match err {
                Some(e) => Some(*e),
                None => None,
            },
        ),
{
    match err {
        Some(e) => e.kind(),
        None => "error",
    }
}

/// The process exit code for the error a command failed with: `3` not found,
/// `4` validation, `5` I/O, `6` database, `1` for a failure that is not the
/// library's.
pub fn code_for(err: Option<&CoreError>) -> (r: u8)
    ensures
        r == match err {
            Some(e) => spec_exit_code(*e),
            None => 1u8,
        },
{
    match err {
        Some(e) => e.exit_code(),
        None => 1,
    }
}


/// The width `str::len` gives a cell: its length in UTF-8 bytes.
pub open spec fn cell_width(s: Seq<char>) -> usize {
    encode_utf8(s).len() as usize
}

/// The texts of a row's cells.
pub open spec fn cell_texts(cells: Seq<String>) -> Seq<Seq<char>> {
    Seq::new(cells.len(), |i: int| cells[i]@)
}

/// A cell padded on the right with spaces to `width` characters; a longer
/// cell is left whole.
pub open spec fn pad_cell(cell: Seq<char>, width: nat) -> Seq<char> {
    if cell.len() < width {
        cell + Seq::new((width - cell.len()) as nat, |_i: int| ' ')
    } else {
        cell
    }
}

/// The first `n` cells of a row, each padded to its column's width, with a
/// two-space gutter between neighbours.
pub open spec fn row_body(cells: Seq<Seq<char>>, widths: Seq<usize>, n: nat) -> Seq<char>
    decreases n,
{
    if n == 0 {
        seq![]
    } else {
        let k = (n - 1) as nat;
        row_body(cells, widths, k) + (if k > 0 {
            "  "@
        } else {
            seq![]
        }) + pad_cell(cells[k as int], widths[k as int] as nat)
    }
}

/// `s` without its trailing spaces.
pub open spec fn strip_spaces(s: Seq<char>) -> Seq<char> {
    s.take(s.len() - trail_count(s, ' '))
}

/// One printed line of a table: the cells of the columns the row and the
/// widths both have, padded and joined, trailing spaces trimmed, then a
/// newline.
pub open spec fn row_line(cells: Seq<Seq<char>>, widths: Seq<usize>) -> Seq<char> {
    let n = if cells.len() < widths.len() {
        cells.len()
    } else {
        widths.len()
    };
    strip_spaces(row_body(cells, widths, n)) + seq!['\n']
}

/// The width of column `j`: the widest of its header and the cells in it of
/// the given rows (a row shorter than the header leaves the column alone).
pub open spec fn col_width(headers: Seq<Seq<char>>, rows: Seq<Seq<Seq<char>>>, j: int) -> usize
    decreases rows.len(),
{
    if rows.len() == 0 {
        cell_width(headers[j])
    } else {
        let w = col_width(headers, rows.drop_last(), j);
        let last = rows.last();
        if j < last.len() && cell_width(last[j]) > w {
            cell_width(last[j])
        } else {
            w
        }
    }
}

/// The column widths of a table: one per header.
pub open spec fn table_widths(headers: Seq<Seq<char>>, rows: Seq<Seq<Seq<char>>>) -> Seq<usize> {
    Seq::new(headers.len(), |j: int| col_width(headers, rows, j))
}

/// The lines of the first `k` rows.
pub open spec fn rows_text(rows: Seq<Seq<Seq<char>>>, widths: Seq<usize>, k: nat) -> Seq<char>
    decreases k,
{
    if k == 0 {
        seq![]
    } else {
        rows_text(rows, widths, (k - 1) as nat) + row_line(rows[k - 1], widths)
    }
}

/// A left-aligned table: the header line, then a line per row, every column
/// padded to its widest cell.
pub open spec fn table_text(headers: Seq<Seq<char>>, rows: Seq<Seq<Seq<char>>>) -> Seq<char> {
    let widths = table_widths(headers, rows);
    row_line(headers, widths) + rows_text(rows, widths, rows.len())
}

/// Trailing spaces of `b` are those of `a + b` when `a` ends in none.
proof fn lemma_strip_after(a: Seq<char>, b: Seq<char>)
    requires
        a.len() == 0 || a.last() != ' ',
    ensures
        trail_count(a + b, ' ') == trail_count(b, ' '),
        trail_count(b, ' ') <= b.len(),
        strip_spaces(a + b) == a + strip_spaces(b),
    decreases b.len(),
{
    if b.len() == 0 {
        assert(a + b =~= a);
    } else {
        assert((a + b).last() == b.last());
        if b.last() == ' ' {
            assert((a + b).drop_last() =~= a + b.drop_last());
            lemma_strip_after(a, b.drop_last());
        }
    }
    let t = trail_count(b, ' ');
    assert((a + b).take((a + b).len() - t) =~= a + b.take(b.len() - t));
}

/// Appends a row to `out`: each cell padded to its column's width with a
/// two-space gutter, trailing spaces trimmed, and a newline.
fn write_row(out: &mut Vec<char>, cells: &[String], widths: &[usize])
    ensures
        final(out)@ == strip_spaces(
            old(out)@ + row_body(
                cell_texts(cells@),
                widths@,
                if cells.len() < widths.len() {
                    cells.len() as nat
                } else {
                    widths.len() as nat
                },
            ),
        ) + seq!['\n'],
{
    let n: usize = if cells.len() < widths.len() {
        cells.len()
    } else {
        widths.len()
    };
    let ghost start = out@;
    let ghost texts = cell_texts(cells@);
    let mut i: usize = 0;
    while i < n
        invariant
            i <= n,
            n <= cells.len(),
            n <= widths.len(),
            texts == cell_texts(cells@),
            out@ == start + row_body(texts, widths@, i as nat),
        decreases n - i,
    {
        let ghost before = out@;
        if i > 0 {
            push_str(out, "  ");
        }
        let cell = chars_of(cells[i].as_str());
        push_chars(out, &cell);
        let ghost mid = out@;
        let w: usize = widths[i];
        let mut p: usize = cell.len();
        while p < w
            invariant
                cell.len() <= p,
                p <= w || p == cell.len(),
                out@ == mid + Seq::new((p - cell.len()) as nat, |_j: int| ' '),
            decreases w - p,
        {
            out.push(' ');
            p = p + 1;
            assert(out@ =~= mid + Seq::new((p - cell.len()) as nat, |_j: int| ' '));
        }
        proof {
            assert(texts[i as int] == cells@[i as int]@);
            let sep: Seq<char> = if i > 0 {
                "  "@
            } else {
                seq![]
            };
            assert(before + sep == start + row_body(texts, widths@, i as nat) + sep);
            if cell.len() < w {
                assert(out@ =~= before + sep + pad_cell(texts[i as int], w as nat));
            } else {
                assert(Seq::new((p - cell.len()) as nat, |_j: int| ' ') =~= Seq::<char>::empty());
                assert(out@ =~= before + sep + pad_cell(texts[i as int], w as nat));
            }
            assert(out@ =~= start + row_body(texts, widths@, (i + 1) as nat));
        }
        i = i + 1;
    }
    let ghost full = out@;
    while out.len() > 0 && out[out.len() - 1] == ' '
        invariant
            out.len() <= full.len(),
            out@ == full.take(out.len() as int),
            forall|j: int| out.len() <= j < full.len() ==> #[trigger] full[j] == ' ',
        decreases out.len(),
    {
        let ghost k = out.len();
        assert(full[k - 1] == out@[k - 1]);
        out.pop();
        assert(out@ =~= full.take(out.len() as int));
    }
    proof {
        let k = full.len() - out.len();
        if out.len() > 0 {
            assert(full[full.len() - k - 1] == out@[out.len() - 1]);
        }
        lemma_trail_count_is(full, ' ', k);
        assert(out@ =~= strip_spaces(full));
    }
    out.push('\n');
}

/// Lays rows out as a left-aligned table under `headers`: each column padded
/// to its widest cell (measured in UTF-8 bytes), two-space gutters, trailing
/// spaces trimmed.
pub fn table(headers: &[&str], rows: &[Vec<String>]) -> (r: String)
    ensures
        r@ == table_text(
            Seq::new(headers@.len(), |j: int| headers[j]@),
            Seq::new(rows@.len(), |k: int| cell_texts(rows[k]@)),
        ),
{
    let ghost hv = Seq::new(headers@.len(), |j: int| headers[j]@);
    let ghost rv = Seq::new(rows@.len(), |k: int| cell_texts(rows[k]@));
    let mut widths: Vec<usize> = Vec::new();
    let mut j: usize = 0;
    while j < headers.len()
        invariant
            j <= headers.len(),
            hv == Seq::new(headers@.len(), |j: int| headers[j]@),
            widths.len() == j,
            forall|c: int| 0 <= c < j ==> #[trigger] widths@[c] == col_width(hv, rv.take(0), c),
        decreases headers.len() - j,
    {
        widths.push(headers[j].len());
        proof {
            assert(rv.take(0).len() == 0);
            assert(hv[j as int] == headers[j as int]@);
        }
        j = j + 1;
    }
    let mut r: usize = 0;
    while r < rows.len()
        invariant
            r <= rows.len(),
            hv == Seq::new(headers@.len(), |j: int| headers[j]@),
            rv == Seq::new(rows@.len(), |k: int| cell_texts(rows[k]@)),
            widths.len() == headers.len(),
            forall|c: int| 0 <= c < widths.len() ==> #[trigger] widths@[c] == col_width(hv, rv.take(r as int), c),
        decreases rows.len() - r,
    {
        let row = &rows[r];
        let m: usize = if row.len() < widths.len() {
            row.len()
        } else {
            widths.len()
        };
        let ghost before = widths@;
        proof {
            assert(rv.take(r + 1).drop_last() =~= rv.take(r as int));
            assert(rv.take(r + 1).last() == rv[r as int]);
            assert(rv[r as int] == cell_texts(rows[r as int]@));
        }
        let mut c: usize = 0;
        while c < m
            invariant
                c <= m,
                m <= row.len(),
                m <= widths.len(),
                widths.len() == before.len(),
                *row == rows[r as int],
                rv == Seq::new(rows@.len(), |k: int| cell_texts(rows[k]@)),
                r < rows.len(),
                rv.take(r + 1).drop_last() == rv.take(r as int),
                rv.take(r + 1).last() == cell_texts(row@),
                forall|x: int| 0 <= x < widths.len() ==> #[trigger] before[x] == col_width(hv, rv.take(r as int), x),
                forall|x: int| 0 <= x < c ==> #[trigger] widths@[x] == col_width(hv, rv.take(r + 1), x),
                forall|x: int| c <= x < widths.len() ==> #[trigger] widths@[x] == before[x],
            decreases m - c,
        {
            let b: usize = row[c].as_str().len();
            proof {
                assert(cell_texts(row@)[c as int] == row@[c as int]@);
            }
            if b > widths[c] {
                widths.set(c, b);
            }
            c = c + 1;
        }
        proof {
            assert forall|x: int| 0 <= x < widths.len() implies #[trigger] widths@[x] == col_width(hv, rv.take(r + 1), x) by {
                if x >= c {
                    assert(!(x < cell_texts(row@).len()));
                }
            }
        }
        r = r + 1;
    }
    proof {
        assert(rv.take(rows.len() as int) =~= rv);
        assert(widths@ =~= table_widths(hv, rv));
    }
    let mut out: Vec<char> = Vec::new();
    let mut header_cells: Vec<String> = Vec::new();
    let mut h: usize = 0;
    while h < headers.len()
        invariant
            h <= headers.len(),
            header_cells.len() == h,
            forall|x: int| 0 <= x < h ==> #[trigger] header_cells@[x]@ == headers[x]@,
        decreases headers.len() - h,
    {
        header_cells.push(headers[h].to_owned());
        h = h + 1;
    }
    proof {
        assert(cell_texts(header_cells@) =~= hv);
    }
    write_row(&mut out, &header_cells, &widths);
    proof {
        assert(out@ =~= row_line(hv, widths@));
    }
    let mut k: usize = 0;
    while k < rows.len()
        invariant
            k <= rows.len(),
            rv == Seq::new(rows@.len(), |k: int| cell_texts(rows[k]@)),
            out@ == row_line(hv, widths@) + rows_text(rv, widths@, k as nat),
            out.len() > 0,
            out@.last() == '\n',
        decreases rows.len() - k,
    {
        let ghost before = out@;
        write_row(&mut out, &rows[k], &widths);
        proof {
            let cells = cell_texts(rows[k as int]@);
            assert(rv[k as int] == cells);
            let n: nat = if rows[k as int].len() < widths.len() {
                rows[k as int].len() as nat
            } else {
                widths.len() as nat
            };
            lemma_strip_after(before, row_body(cells, widths@, n));
            assert(out@ =~= row_line(hv, widths@) + rows_text(rv, widths@, (k + 1) as nat));
        }
        k = k + 1;
    }
    string_from_chars(out)
}

/// The `yes`/`no` a table shows for a flag.
pub open spec fn yes_no(b: bool) -> Seq<char> {
    if b {
        "yes"@
    } else {
        "no"@
    }
}

/// The cells of an individual's row in the list table.
pub open spec fn individual_cells(p: Individual) -> Seq<Seq<char>> {
    seq![
        int_text(p.id.0 as int),
        spec_name_of(opt_view(p.given_name), opt_view(p.surname)),
        p.sex.code(),
        yes_no(p.living),
    ]
}

/// The list table of individuals: `ID`, `NAME`, `SEX`, `LIVING`.
pub fn individual_table(people: &[Individual]) -> (r: String)
    ensures
        r@ == table_text(
            seq!["ID"@, "NAME"@, "SEX"@, "LIVING"@],
            Seq::new(people@.len(), |k: int| individual_cells(people[k])),
        ),
{
    let mut rows: Vec<Vec<String>> = Vec::new();
    let mut k: usize = 0;
    while k < people.len()
        invariant
            k <= people.len(),
            rows.len() == k,
            forall|x: int| 0 <= x < k ==> #[trigger] cell_texts(rows@[x]@) == individual_cells(people[x]),
        decreases people.len() - k,
    {
        let p = &people[k];
        let mut id: Vec<char> = Vec::new();
        push_int(&mut id, p.id.0);
        let living: &str = if p.living {
            "yes"
        } else {
            "no"
        };
        let row: Vec<String> = vec![
            string_from_chars(id),
            display_name(p),
            p.sex.as_str().to_owned(),
            living.to_owned(),
        ];
        proof {
            assert(cell_texts(row@) =~= individual_cells(people[k as int]));
        }
        rows.push(row);
        k = k + 1;
    }
    let headers: [&str; 4] = ["ID", "NAME", "SEX", "LIVING"];
    let r = table(&headers, &rows);
    proof {
        reveal_strlit("ID");
        reveal_strlit("NAME");
        reveal_strlit("SEX");
        reveal_strlit("LIVING");
        assert(Seq::new(headers@.len(), |j: int| headers@[j]@) =~= seq!["ID"@, "NAME"@, "SEX"@, "LIVING"@]);
        assert(Seq::new(rows@.len(), |k: int| cell_texts(rows@[k]@)) =~= Seq::new(
            people@.len(),
            |k: int| individual_cells(people[k]),
        ));
    }
    r
}

} // verus!
