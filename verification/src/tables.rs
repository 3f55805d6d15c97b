//! The list tables of names, families, media, sources, citations and search
//! hits, each an aligned table (see [`table`]) of one row per record.

use vstd::prelude::*;
use crate::db::search::SearchHit;
use crate::gedcom::lexer::opt_view;
use crate::num::{int_text, push_int};
use crate::output::{cell_texts, display_name, name_label, spec_name_of, table, table_text};
use crate::records::{CitationItem, Family, MediaItem, Name, Source};
use crate::text::string_from_chars;

verus! {

/// An optional text, or nothing.
pub open spec fn or_empty(o: Option<Seq<char>>) -> Seq<char> {
    match o {
        Some(t) => t,
        None => seq![],
    }
}

/// An optional text, or `—`.
pub open spec fn or_dash(o: Option<Seq<char>>) -> Seq<char> {
    match o {
        Some(t) => t,
        None => seq!['\u{2014}'],
    }
}

/// The decimal text of an id.
pub fn id_string(id: i64) -> (r: String)
    ensures
        r@ == int_text(id as int),
{
    let mut out: Vec<char> = Vec::new();
    push_int(&mut out, id);
    string_from_chars(out)
}

/// A copy of an optional text, or the empty string.
pub fn text_or_empty(o: &Option<String>) -> (r: String)
    ensures
        r@ == or_empty(opt_view(*o)),
{
    match o {
        Some(t) => t.clone(),
        None => string_from_chars(Vec::new()),
    }
}

/// The decimal text of an optional id, or `—`.
fn id_or_dash(o: Option<i64>) -> (r: String)
    ensures
        r@ == or_dash(
            match o {
                Some(i) => Some(int_text(i as int)),
                None => None,
            },
        ),
{
    match o {
        Some(i) => id_string(i),
        None => {
            let mut out: Vec<char> = Vec::new();
            out.push('\u{2014}');
            assert(out@ =~= seq!['\u{2014}']);
            string_from_chars(out)
        },
    }
}

/// The cells of a search hit's row: `ID`, `NAME`, `WHY-MATCHED`.
pub open spec fn hit_cells(h: SearchHit) -> Seq<Seq<char>> {
    seq![
        int_text(h.individual.id.0 as int),
        spec_name_of(opt_view(h.individual.given_name), opt_view(h.individual.surname)),
        or_empty(opt_view(h.context)),
    ]
}

/// The table of ranked search hits.
pub fn search_hit_table(hits: &[SearchHit]) -> (r: String)
    ensures
        r@ == table_text(
            seq!["ID"@, "NAME"@, "WHY-MATCHED"@],
            Seq::new(hits@.len(), |k: int| hit_cells(hits[k])),
        ),
{
    let mut rows: Vec<Vec<String>> = Vec::new();
    let mut k: usize = 0;
    while k < hits.len()
        invariant
            k <= hits.len(),
            rows.len() == k,
            forall|x: int| 0 <= x < k ==> #[trigger] cell_texts(rows@[x]@) == hit_cells(hits[x]),
        decreases hits.len() - k,
    {
        let h = &hits[k];
        let row: Vec<String> = vec![
            id_string(h.individual.id.0),
            display_name(&h.individual),
            text_or_empty(&h.context),
        ];
        assert(cell_texts(row@) =~= hit_cells(hits[k as int]));
        rows.push(row);
        k = k + 1;
    }
    let headers: [&str; 3] = ["ID", "NAME", "WHY-MATCHED"];
    let r = table(&headers, &rows);
    proof {
        reveal_strlit("ID");
        reveal_strlit("NAME");
        reveal_strlit("WHY-MATCHED");
        assert(Seq::new(headers@.len(), |j: int| headers@[j]@) =~= seq!["ID"@, "NAME"@, "WHY-MATCHED"@]);
        lemma_rows_view(rows@, Seq::new(hits@.len(), |k: int| hit_cells(hits[k])));
    }
    r
}

/// Rows whose cells view as `want` give `want` as the table's rows.
proof fn lemma_rows_view(rows: Seq<Vec<String>>, want: Seq<Seq<Seq<char>>>)
    requires
        rows.len() == want.len(),
        forall|x: int| 0 <= x < rows.len() ==> #[trigger] cell_texts(rows[x]@) == want[x],
    ensures
        Seq::new(rows.len(), |k: int| cell_texts(rows[k]@)) == want,
{
    assert(Seq::new(rows.len(), |k: int| cell_texts(rows[k]@)) =~= want);
}

/// The cells of an alternate name's row: `ID`, `KIND`, `NAME`, `ORDER`.
pub open spec fn name_cells(x: Name) -> Seq<Seq<char>> {
    seq![
        int_text(x.id.0 as int),
        x.kind.code(),
        spec_name_of(opt_view(x.given_name), opt_view(x.surname)),
        int_text(x.sort_order as int),
    ]
}

/// The table of an individual's alternate names.
pub fn name_table(names: &[Name]) -> (r: String)
    ensures
        r@ == table_text(seq!["ID"@, "KIND"@, "NAME"@, "ORDER"@], Seq::new(names@.len(), |k: int| name_cells(names[k]))),
{
    let mut rows: Vec<Vec<String>> = Vec::new();
    let mut k: usize = 0;
    while k < names.len()
        invariant
            k <= names.len(),
            rows.len() == k,
            forall|j: int| 0 <= j < k ==> #[trigger] cell_texts(rows@[j]@) == name_cells(names[j]),
        decreases names.len() - k,
    {
        let x = &names[k];
        let row: Vec<String> = vec![
            id_string(x.id.0),
            x.kind.as_str().to_owned(),
            name_label(x),
            id_string(x.sort_order),
        ];
        assert(cell_texts(row@) =~= name_cells(names[k as int]));
        rows.push(row);
        k = k + 1;
    }
    let headers: [&str; 4] = ["ID", "KIND", "NAME", "ORDER"];
    let r = table(&headers, &rows);
    proof {
        reveal_strlit("ID");
        reveal_strlit("KIND");
        reveal_strlit("NAME");
        reveal_strlit("ORDER");
        assert(Seq::new(headers@.len(), |j: int| headers@[j]@) =~= seq!["ID"@, "KIND"@, "NAME"@, "ORDER"@]);
        lemma_rows_view(rows@, Seq::new(names@.len(), |k: int| name_cells(names[k])));
    }
    r
}

/// The cells of a family's row: `ID`, `PARTNER1`, `PARTNER2` (`—` for an empty slot), `TYPE`.
pub open spec fn family_cells(x: Family) -> Seq<Seq<char>> {
    seq![
        int_text(x.id.0 as int),
        or_dash(
            match x.partner1 {
                Some(p) => Some(int_text(p.0 as int)),
                None => None,
            },
        ),
        or_dash(
            match x.partner2 {
                Some(p) => Some(int_text(p.0 as int)),
                None => None,
            },
        ),
        x.union_type.code(),
    ]
}

/// The table of families.
pub fn family_table(families: &[Family]) -> (r: String)
    ensures
        r@ == table_text(seq!["ID"@, "PARTNER1"@, "PARTNER2"@, "TYPE"@], Seq::new(families@.len(), |k: int| family_cells(families[k]))),
{
    let mut rows: Vec<Vec<String>> = Vec::new();
    let mut k: usize = 0;
    while k < families.len()
        invariant
            k <= families.len(),
            rows.len() == k,
            forall|j: int| 0 <= j < k ==> #[trigger] cell_texts(rows@[j]@) == family_cells(families[j]),
        decreases families.len() - k,
    {
        let x = &families[k];
        let p1 = match x.partner1 {
            Some(p) => Some(p.0),
            None => None,
        };
        let p2 = match x.partner2 {
            Some(p) => Some(p.0),
            None => None,
        };
        let row: Vec<String> = vec![
            id_string(x.id.0),
            id_or_dash(p1),
            id_or_dash(p2),
            x.union_type.as_str().to_owned(),
        ];
        assert(cell_texts(row@) =~= family_cells(families[k as int]));
        rows.push(row);
        k = k + 1;
    }
    let headers: [&str; 4] = ["ID", "PARTNER1", "PARTNER2", "TYPE"];
    let r = table(&headers, &rows);
    proof {
        reveal_strlit("ID");
        reveal_strlit("PARTNER1");
        reveal_strlit("PARTNER2");
        reveal_strlit("TYPE");
        assert(Seq::new(headers@.len(), |j: int| headers@[j]@) =~= seq!["ID"@, "PARTNER1"@, "PARTNER2"@, "TYPE"@]);
        lemma_rows_view(rows@, Seq::new(families@.len(), |k: int| family_cells(families[k])));
    }
    r
}

/// The cells of a linked media file's row: `ID`, `PRIMARY` (`yes` or nothing), `MIME`, `PATH`, `CAPTION`.
pub open spec fn media_cells(x: MediaItem) -> Seq<Seq<char>> {
    seq![
        int_text(x.media.id.0 as int),
        if x.is_primary {
            "yes"@
        } else {
            seq![]
        },
        or_empty(opt_view(x.media.mime)),
        x.media.path@,
        or_empty(opt_view(x.media.caption)),
    ]
}

/// The table of the media linked to a subject.
pub fn media_table(items: &[MediaItem]) -> (r: String)
    ensures
        r@ == table_text(seq!["ID"@, "PRIMARY"@, "MIME"@, "PATH"@, "CAPTION"@], Seq::new(items@.len(), |k: int| media_cells(items[k]))),
{
    let mut rows: Vec<Vec<String>> = Vec::new();
    let mut k: usize = 0;
    while k < items.len()
        invariant
            k <= items.len(),
            rows.len() == k,
            forall|j: int| 0 <= j < k ==> #[trigger] cell_texts(rows@[j]@) == media_cells(items[j]),
        decreases items.len() - k,
    {
        let x = &items[k];
        let primary = if x.is_primary {
            "yes".to_owned()
        } else {
            string_from_chars(Vec::new())
        };
        proof {
            reveal_strlit("yes");
        }
        let row: Vec<String> = vec![
            id_string(x.media.id.0),
            primary,
            text_or_empty(&x.media.mime),
            x.media.path.clone(),
            text_or_empty(&x.media.caption),
        ];
        assert(cell_texts(row@) =~= media_cells(items[k as int]));
        rows.push(row);
        k = k + 1;
    }
    let headers: [&str; 5] = ["ID", "PRIMARY", "MIME", "PATH", "CAPTION"];
    let r = table(&headers, &rows);
    proof {
        reveal_strlit("ID");
        reveal_strlit("PRIMARY");
        reveal_strlit("MIME");
        reveal_strlit("PATH");
        reveal_strlit("CAPTION");
        assert(Seq::new(headers@.len(), |j: int| headers@[j]@) =~= seq!["ID"@, "PRIMARY"@, "MIME"@, "PATH"@, "CAPTION"@]);
        lemma_rows_view(rows@, Seq::new(items@.len(), |k: int| media_cells(items[k])));
    }
    r
}

/// The cells of a source's row: `ID`, `TITLE`, `AUTHOR`, `REPOSITORY`.
pub open spec fn source_cells(x: Source) -> Seq<Seq<char>> {
    seq![
        int_text(x.id.0 as int),
        x.title@,
        or_empty(opt_view(x.author)),
        or_empty(opt_view(x.repository)),
    ]
}

/// The table of sources.
pub fn source_table(sources: &[Source]) -> (r: String)
    ensures
        r@ == table_text(seq!["ID"@, "TITLE"@, "AUTHOR"@, "REPOSITORY"@], Seq::new(sources@.len(), |k: int| source_cells(sources[k]))),
{
    let mut rows: Vec<Vec<String>> = Vec::new();
    let mut k: usize = 0;
    while k < sources.len()
        invariant
            k <= sources.len(),
            rows.len() == k,
            forall|j: int| 0 <= j < k ==> #[trigger] cell_texts(rows@[j]@) == source_cells(sources[j]),
        decreases sources.len() - k,
    {
        let x = &sources[k];
        let row: Vec<String> = vec![
            id_string(x.id.0),
            x.title.clone(),
            text_or_empty(&x.author),
            text_or_empty(&x.repository),
        ];
        assert(cell_texts(row@) =~= source_cells(sources[k as int]));
        rows.push(row);
        k = k + 1;
    }
    let headers: [&str; 4] = ["ID", "TITLE", "AUTHOR", "REPOSITORY"];
    let r = table(&headers, &rows);
    proof {
        reveal_strlit("ID");
        reveal_strlit("TITLE");
        reveal_strlit("AUTHOR");
        reveal_strlit("REPOSITORY");
        assert(Seq::new(headers@.len(), |j: int| headers@[j]@) =~= seq!["ID"@, "TITLE"@, "AUTHOR"@, "REPOSITORY"@]);
        lemma_rows_view(rows@, Seq::new(sources@.len(), |k: int| source_cells(sources[k])));
    }
    r
}

/// The cells of a citation's row: `ID`, `SOURCE`, `TITLE`, `PAGE`, `CONFIDENCE`.
pub open spec fn citation_cells(x: CitationItem) -> Seq<Seq<char>> {
    seq![
        int_text(x.citation.id.0 as int),
        int_text(x.citation.source.0 as int),
        x.source.title@,
        or_empty(opt_view(x.citation.page)),
        match x.citation.confidence {
            Some(c) => c.code(),
            None => seq![],
        },
    ]
}

/// The table of the citations for a subject.
pub fn citation_table(items: &[CitationItem]) -> (r: String)
    ensures
        r@ == table_text(seq!["ID"@, "SOURCE"@, "TITLE"@, "PAGE"@, "CONFIDENCE"@], Seq::new(items@.len(), |k: int| citation_cells(items[k]))),
{
    let mut rows: Vec<Vec<String>> = Vec::new();
    let mut k: usize = 0;
    while k < items.len()
        invariant
            k <= items.len(),
            rows.len() == k,
            forall|j: int| 0 <= j < k ==> #[trigger] cell_texts(rows@[j]@) == citation_cells(items[j]),
        decreases items.len() - k,
    {
        let x = &items[k];
        let confidence = match x.citation.confidence {
            Some(c) => c.as_str().to_owned(),
            None => string_from_chars(Vec::new()),
        };
        let row: Vec<String> = vec![
            id_string(x.citation.id.0),
            id_string(x.citation.source.0),
            x.source.title.clone(),
            text_or_empty(&x.citation.page),
            confidence,
        ];
        assert(cell_texts(row@) =~= citation_cells(items[k as int]));
        rows.push(row);
        k = k + 1;
    }
    let headers: [&str; 5] = ["ID", "SOURCE", "TITLE", "PAGE", "CONFIDENCE"];
    let r = table(&headers, &rows);
    proof {
        reveal_strlit("ID");
        reveal_strlit("SOURCE");
        reveal_strlit("TITLE");
        reveal_strlit("PAGE");
        reveal_strlit("CONFIDENCE");
        assert(Seq::new(headers@.len(), |j: int| headers@[j]@) =~= seq!["ID"@, "SOURCE"@, "TITLE"@, "PAGE"@, "CONFIDENCE"@]);
        lemma_rows_view(rows@, Seq::new(items@.len(), |k: int| citation_cells(items[k])));
    }
    r
}

} // verus!
