//! Reading back what the writer writes: a value written as a line and its
//! `CONT` lines folds back, through the lexer and the tree builder, into the
//! text it was written from.

use vstd::prelude::*;
use crate::gedcom::lexer::{
    LineView, clean_line, doc_lines, find_char, lead_count, lex_raw, lex_spec, line_number,
    parse_line_spec, segments, split_first, tag_part, trail_count,
};
use crate::gedcom::tree::{
    RecordView, continued as folded, fold_value, is_cont, kids, lemma_roots_skip, lemma_skip_deeper,
    level_limit, line_nests, record_at, roots_from, well_nested,
};
use crate::gedcom::writer::{cont_lines, continued, tagged};
use crate::num::int_text;
use crate::num::{all_digits, digits_value, parse_u8, parse_uint};
use crate::text::{is_ws, lead_ws, lemma_split_char_len, split_char, trail_ws, trim, trim_start};

verus! {

/// The pieces of `ps` joined with newlines.
pub open spec fn join_lines(ps: Seq<Seq<char>>) -> Seq<char>
    decreases ps.len(),
{
    if ps.len() == 0 {
        seq![]
    } else if ps.len() == 1 {
        ps[0]
    } else {
        join_lines(ps.drop_last()) + seq!['\n'] + ps.last()
    }
}

/// Joining the newline-separated pieces of `s` gives `s` back.
proof fn lemma_join_split(s: Seq<char>)
    ensures
        join_lines(split_char(s, '\n')) == s,
    decreases s.len(),
{
    if s.len() > 0 {
        let p = split_char(s.drop_last(), '\n');
        lemma_join_split(s.drop_last());
        lemma_split_char_len(s.drop_last(), '\n');
        if s.last() == '\n' {
            assert(p.push(seq![]).drop_last() =~= p);
            assert(s =~= join_lines(p) + seq!['\n'] + seq![]);
        } else {
            let q = p.update(p.len() - 1, p.last().push(s.last()));
            if p.len() == 1 {
                assert(s =~= p[0].push(s.last()));
            } else {
                assert(q.drop_last() =~= p.drop_last());
                assert(join_lines(p) == join_lines(p.drop_last()) + seq!['\n'] + p.last());
                assert(s == s.drop_last().push(s.last()));
                assert(s =~= join_lines(p.drop_last()) + seq!['\n'] + p.last().push(s.last()));
            }
        }
    }
}

/// Every character of a piece of `s` split at `c` is a character of `s`
/// other than `c`.
proof fn lemma_split_pieces(s: Seq<char>, c: char)
    ensures
        forall|i: int, j: int|
            0 <= i < split_char(s, c).len() && 0 <= j < split_char(s, c)[i].len() ==> (
            #[trigger] split_char(s, c)[i][j] != c && s.contains(split_char(s, c)[i][j])),
    decreases s.len(),
{
    if s.len() > 0 {
        let p = split_char(s.drop_last(), c);
        lemma_split_pieces(s.drop_last(), c);
        lemma_split_char_len(s.drop_last(), c);
        assert forall|i: int, j: int|
            0 <= i < split_char(s, c).len() && 0 <= j < split_char(s, c)[i].len() implies (
            #[trigger] split_char(s, c)[i][j] != c && s.contains(split_char(s, c)[i][j])) by {
            let x = split_char(s, c)[i][j];
            if s.last() == c {
                assert(i < p.len());
                assert(s.drop_last().contains(x));
                let w = choose|w: int| 0 <= w < s.drop_last().len() && s.drop_last()[w] == x;
                assert(s[w] == x);
            } else if i == p.len() - 1 && j == p.last().len() {
                assert(x == s.last());
                assert(s[s.len() - 1] == x);
            } else {
                assert(x == p[i][j]);
                assert(s.drop_last().contains(x));
                let w = choose|w: int| 0 <= w < s.drop_last().len() && s.drop_last()[w] == x;
                assert(s[w] == x);
            }
        }
    }
}

/// A present value for non-empty text, none for empty text (as a line's
/// value is read).
pub open spec fn opt_text(t: Seq<char>) -> Option<Seq<char>> {
    if t.len() == 0 {
        None
    } else {
        Some(t)
    }
}

/// A line as the writer writes it, without its newline: a one-digit level,
/// a space, a four-letter tag, a space, and the value.
pub open spec fn written(d: char, tag: Seq<char>, v: Seq<char>) -> Seq<char> {
    seq![d, ' '] + tag + seq![' '] + v
}

/// What reading a written line gives.
pub open spec fn written_view(d: char, tag: Seq<char>, v: Seq<char>, no: u32) -> LineView {
    LineView { line_no: no, level: ((d as int) - 48) as u8, xref: None, tag, value: opt_text(v) }
}

/// Text that starts with a non-space keeps a character after trimming its end.
proof fn lemma_trail_ws_lt(s: Seq<char>)
    requires
        s.len() > 0,
        !is_ws(s[0]),
    ensures
        trail_ws(s) < s.len(),
    decreases s.len(),
{
    if s.len() > 1 && is_ws(s.last()) {
        assert(s.drop_last()[0] == s[0]);
        lemma_trail_ws_lt(s.drop_last());
    }
}

/// A single digit reads as its value.
proof fn lemma_parse_digit(d: char)
    requires
        '0' <= d <= '9',
    ensures
        parse_u8(seq![d]) == Some(((d as int) - 48) as u8),
{
    let s = seq![d];
    assert(all_digits(s));
    assert(s.drop_last() =~= Seq::<char>::empty());
    assert(digits_value(s) == digits_value(s.drop_last()) * 10 + (d as int) - 48);
    assert(parse_uint(s) == Some((d as int) - 48));
}

/// A written line is read back as its level, tag and value, whatever its
/// position.
proof fn lemma_read_written(d: char, tag: Seq<char>, v: Seq<char>, i: int, no: u32)
    requires
        '0' <= d <= '9',
        tag.len() == 4,
        forall|j: int| 0 <= j < 4 ==> !is_ws(#[trigger] tag[j]) && tag[j] != '@',
        forall|j: int| 0 <= j < v.len() ==> #[trigger] v[j] != '\r',
    ensures
        clean_line(written(d, tag, v), i) == written(d, tag, v),
        trim(written(d, tag, v)).len() > 0,
        parse_line_spec(written(d, tag, v), no) == Ok::<LineView, Seq<char>>(
            written_view(d, tag, v, no),
        ),
{
    let w = written(d, tag, v);
    assert(w[0] == d && w[1] == ' ');
    assert(!is_ws(d));
    assert(lead_count(w, '\u{feff}') == 0);
    assert(w.skip(0) =~= w);
    assert(w.last() != '\r') by {
        if v.len() > 0 {
            assert(w.last() == v[v.len() - 1]);
        } else {
            assert(w.last() == ' ');
        }
    }
    assert(trail_count(w, '\r') == 0);
    assert(w.take(w.len() as int) =~= w);
    assert(lead_ws(w) == 0);
    assert(trim_start(w) =~= w);
    lemma_trail_ws_lt(w);
    reveal_with_fuel(find_char, 3);
    assert(find_char(w, ' ', 0) == Some(1int));
    assert(split_first(w) == (w.take(1), w.skip(2)));
    assert(w.take(1) =~= seq![d]);
    lemma_parse_digit(d);
    let rest = w.skip(2);
    assert(rest =~= tag + seq![' '] + v);
    assert(rest[0] == tag[0]);
    assert(lead_ws(rest) == 0);
    assert(trim_start(rest) =~= rest);
    assert(find_char(rest, ' ', 4) == Some(4int));
    assert(find_char(rest, ' ', 2) == Some(4int)) by {
        reveal_with_fuel(find_char, 3);
    }
    assert(find_char(rest, ' ', 0) == Some(4int)) by {
        reveal_with_fuel(find_char, 3);
    }
    assert(rest.take(4) =~= tag);
    assert(rest.skip(5) =~= v);
    assert(tag_part(rest, no, ((d as int) - 48) as u8, None) == Ok::<LineView, Seq<char>>(
        written_view(d, tag, v, no),
    ));
}

/// The record line the law's document opens with: `0 @I1@ INDI`.
pub open spec fn head_raw() -> Seq<char> {
    seq!['0', ' ', '@', 'I', '1', '@', ' ', 'I', 'N', 'D', 'I']
}

/// What reading the record line gives.
pub open spec fn head_view() -> LineView {
    LineView {
        line_no: 1,
        level: 0,
        xref: Some(seq!['I', '1']),
        tag: seq!['I', 'N', 'D', 'I'],
        value: None,
    }
}

/// The record line is read back as an `INDI` record with xref `I1`.
proof fn lemma_read_head()
    ensures
        clean_line(head_raw(), 0) == head_raw(),
        trim(head_raw()).len() > 0,
        parse_line_spec(head_raw(), 1) == Ok::<LineView, Seq<char>>(head_view()),
{
    let w = head_raw();
    assert(lead_count(w, '\u{feff}') == 0);
    assert(w.skip(0) =~= w);
    assert(trail_count(w, '\r') == 0);
    assert(w.take(w.len() as int) =~= w);
    assert(lead_ws(w) == 0);
    assert(trim_start(w) =~= w);
    lemma_trail_ws_lt(w);
    reveal_with_fuel(find_char, 3);
    assert(find_char(w, ' ', 0) == Some(1int));
    assert(w.take(1) =~= seq!['0']);
    lemma_parse_digit('0');
    let rest = w.skip(2);
    assert(lead_ws(rest) == 0);
    assert(trim_start(rest) =~= rest);
    let body = rest.drop_first();
    assert(find_char(body, '@', 0) == Some(2int));
    assert(body.take(2) =~= seq!['I', '1']);
    let after = body.skip(3);
    assert(after.drop_first() =~= seq!['I', 'N', 'D', 'I']);
    assert(lead_ws(after.drop_first()) == 0);
    assert(lead_ws(after) == 1);
    assert(trim_start(after) =~= seq!['I', 'N', 'D', 'I']);
    let t = seq!['I', 'N', 'D', 'I'];
    assert(find_char(t, ' ', 4) == None::<int>);
    assert(find_char(t, ' ', 2) == None::<int>);
    assert(find_char(t, ' ', 0) == None::<int>);
}

/// The tag `NOTE`.
pub open spec fn note_tag() -> Seq<char> {
    seq!['N', 'O', 'T', 'E']
}

/// The tag `CONT`.
pub open spec fn cont_tag() -> Seq<char> {
    seq!['C', 'O', 'N', 'T']
}

/// The lines a note of pieces `ps` is written as: the first piece on a
/// level-1 `NOTE` line, each further piece on a level-2 `CONT` line.
pub open spec fn note_raws(ps: Seq<Seq<char>>) -> Seq<Seq<char>> {
    Seq::new(
        ps.len(),
        |i: int|
            if i == 0 {
                written('1', note_tag(), ps[0])
            } else {
                written('2', cont_tag(), ps[i])
            },
    )
}

/// What reading the lines of a note gives, the note's first line being the
/// document's second.
pub open spec fn note_views(ps: Seq<Seq<char>>) -> Seq<LineView> {
    Seq::new(
        ps.len(),
        |i: int|
            if i == 0 {
                written_view('1', note_tag(), ps[0], line_number(1))
            } else {
                written_view('2', cont_tag(), ps[i], line_number(i + 1))
            },
    )
}

/// The record line and the first `k` note lines lex to their views.
proof fn lemma_lex_note(ps: Seq<Seq<char>>, k: int)
    requires
        0 <= k <= ps.len(),
        forall|i: int, j: int|
            0 <= i < ps.len() && 0 <= j < ps[i].len() ==> #[trigger] ps[i][j] != '\r',
    ensures
        lex_raw(seq![head_raw()] + note_raws(ps).take(k)) == Ok::<Seq<LineView>, Seq<char>>(
            seq![head_view()] + note_views(ps).take(k),
        ),
    decreases k,
{
    let raws = seq![head_raw()] + note_raws(ps).take(k);
    if k == 0 {
        lemma_read_head();
        assert(raws.drop_last() =~= Seq::<Seq<char>>::empty());
        assert(raws.last() == head_raw());
        assert(line_number(0) == 1);
        assert(lex_raw(raws.drop_last()) == Ok::<Seq<LineView>, Seq<char>>(seq![]));
        assert(seq![head_view()] + note_views(ps).take(0) =~= Seq::<LineView>::empty().push(
            head_view(),
        ));
    } else {
        lemma_lex_note(ps, k - 1);
        assert(raws.drop_last() =~= seq![head_raw()] + note_raws(ps).take(k - 1));
        let i = k - 1;
        assert(raws.last() == note_raws(ps)[i]);
        assert forall|j: int| 0 <= j < ps[i].len() implies #[trigger] ps[i][j] != '\r' by {
            assert(ps[i][j] != '\r');
        }
        if i == 0 {
            lemma_read_written('1', note_tag(), ps[0], k, line_number(k));
        } else {
            lemma_read_written('2', cont_tag(), ps[i], k, line_number(k));
        }
        assert(raws.len() - 1 == k);
        assert(note_views(ps)[i].line_no == line_number(k));
        assert(lex_raw(raws) == Ok::<Seq<LineView>, Seq<char>>(
            (seq![head_view()] + note_views(ps).take(k - 1)).push(note_views(ps)[i]),
        ));
        assert((seq![head_view()] + note_views(ps).take(k - 1)).push(note_views(ps)[i])
            =~= seq![head_view()] + note_views(ps).take(k));
    }
}

/// A written line ends in a newline.
proof fn lemma_tagged_written(d: int, tag: Seq<char>, v: Seq<char>)
    requires
        0 <= d <= 9,
    ensures
        tagged(d, tag, v) == written(((d + 48) as char), tag, v) + seq!['\n'],
{
    assert(int_text(d) =~= seq![((d + 48) as char)]);
    assert(tagged(d, tag, v) =~= written(((d + 48) as char), tag, v) + seq!['\n']);
}

/// The segments of the record line and the first `k` lines of a note.
proof fn lemma_note_segments(ps: Seq<Seq<char>>, k: int)
    requires
        1 <= k <= ps.len(),
        forall|i: int, j: int|
            0 <= i < ps.len() && 0 <= j < ps[i].len() ==> #[trigger] ps[i][j] != '\n',
    ensures
        segments(
            head_raw().push('\n') + tagged(1, note_tag(), ps[0]) + cont_lines(ps.take(k), 2),
        ) == (seq![head_raw()] + note_raws(ps).take(k)).push(seq![]),
    decreases k,
{
    let i = k - 1;
    let w = note_raws(ps)[i];
    assert forall|j: int| 0 <= j < w.len() implies #[trigger] w[j] != '\n' by {
        if j >= 7 {
            assert(w[j] == ps[i][j - 7]);
        }
    }
    if k == 1 {
        lemma_segments_line(seq![], head_raw());
        assert(seq![] + head_raw() + seq!['\n'] =~= head_raw().push('\n'));
        assert(segments(Seq::<char>::empty()) =~= seq![seq![]]);
        lemma_tagged_written(1, note_tag(), ps[0]);
        assert(ps.take(1).len() == 1);
        assert(cont_lines(ps.take(1), 2) =~= Seq::<char>::empty());
        let h = head_raw().push('\n');
        assert(h + tagged(1, note_tag(), ps[0]) + cont_lines(ps.take(1), 2) =~= h + w + seq![
            '\n',
        ]);
        lemma_segments_line(h, w);
        assert(seq![head_raw()] + note_raws(ps).take(1) =~= seq![head_raw(), w]);
        assert(seq![Seq::<char>::empty()].drop_last().push(head_raw()).push(seq![]) =~= seq![
            head_raw(),
            seq![],
        ]);
        assert(segments(h) =~= seq![head_raw(), seq![]]);
    } else {
        lemma_note_segments(ps, k - 1);
        let prev = head_raw().push('\n') + tagged(1, note_tag(), ps[0]) + cont_lines(
            ps.take(k - 1),
            2,
        );
        assert(ps.take(k).drop_last() =~= ps.take(k - 1));
        assert(ps.take(k).last() == ps[i]);
        reveal_strlit("CONT");
        assert("CONT"@ =~= cont_tag());
        assert(cont_lines(ps.take(k), 2) == cont_lines(ps.take(k - 1), 2) + tagged(
            2,
            cont_tag(),
            ps[i],
        ));
        lemma_tagged_written(2, cont_tag(), ps[i]);
        assert(head_raw().push('\n') + tagged(1, note_tag(), ps[0]) + cont_lines(ps.take(k), 2)
            =~= prev + w + seq!['\n']);
        lemma_segments_line(prev, w);
        let before = (seq![head_raw()] + note_raws(ps).take(k - 1)).push(seq![]);
        assert(before.drop_last().push(w) =~= seq![head_raw()] + note_raws(ps).take(k));
    }
}

/// A document always has at least one segment.
proof fn lemma_segments_len(s: Seq<char>)
    ensures
        segments(s).len() >= 1,
    decreases s.len(),
{
    if s.len() > 0 {
        lemma_segments_len(s.drop_last());
    }
}

/// Text without a newline extends the last segment.
proof fn lemma_segments_append(s: Seq<char>, t: Seq<char>)
    requires
        forall|j: int| 0 <= j < t.len() ==> #[trigger] t[j] != '\n',
    ensures
        segments(s + t) == segments(s).update(
            segments(s).len() - 1,
            segments(s).last() + t,
        ),
    decreases t.len(),
{
    lemma_segments_len(s);
    let g = segments(s);
    if t.len() == 0 {
        assert(s + t =~= s);
        assert(g.last() + t =~= g.last());
        assert(g.update(g.len() - 1, g.last() + t) =~= g);
    } else {
        lemma_segments_append(s, t.drop_last());
        assert((s + t).drop_last() =~= s + t.drop_last());
        assert((s + t).last() == t.last());
        assert((g.last() + t.drop_last()).push(t.last()) =~= g.last() + t);
        assert(segments(s + t) =~= g.update(g.len() - 1, g.last() + t));
    }
}

/// A line of text without a newline, then a newline, closes the last
/// segment and opens an empty one.
proof fn lemma_segments_line(s: Seq<char>, t: Seq<char>)
    requires
        forall|j: int| 0 <= j < t.len() ==> #[trigger] t[j] != '\n',
        segments(s).last().len() == 0,
    ensures
        segments(s + t + seq!['\n']) == segments(s).drop_last().push(t).push(seq![]),
{
    lemma_segments_len(s);
    lemma_segments_append(s, t);
    let g = segments(s);
    assert((s + t + seq!['\n']).drop_last() =~= s + t);
    assert(g.last() + t =~= t);
    assert(g.update(g.len() - 1, t) =~= g.drop_last().push(t));
}

/// The lines a document of an `INDI` record with one note of pieces `ps`
/// lexes to.
pub open spec fn note_doc_views(ps: Seq<Seq<char>>) -> Seq<LineView> {
    seq![head_view()] + note_views(ps)
}

/// The note's `CONT` lines fold its pieces, from the `k`-th line on, onto the
/// pieces before them.
proof fn lemma_fold_note(ps: Seq<Seq<char>>, k: int)
    requires
        2 <= k <= ps.len() + 1,
    ensures
        fold_value(note_doc_views(ps), 1, k, Some(join_lines(ps.take(k - 1)))) == Some(
            join_lines(ps),
        ),
    decreases ps.len() + 1 - k,
{
    let ls = note_doc_views(ps);
    if k == ps.len() + 1 {
        assert(ps.take(k - 1) =~= ps);
    } else {
        let l = ls[k];
        assert(l == note_views(ps)[k - 1]);
        assert(l.tag == cont_tag() && l.level == 2);
        assert(is_cont(l));
        let piece = ps[k - 1];
        assert(ps.take(k).drop_last() =~= ps.take(k - 1));
        assert(ps.take(k).last() == piece);
        assert(folded(Some(join_lines(ps.take(k - 1))), l) =~= join_lines(ps.take(k - 1)) + seq![
            '\n',
        ] + piece);
        lemma_fold_note(ps, k + 1);
    }
}

/// The note's `CONT` lines open no children.
proof fn lemma_note_kids(ps: Seq<Seq<char>>, k: int)
    requires
        2 <= k <= ps.len() + 1,
    ensures
        kids(note_doc_views(ps), 1, k) == Seq::<RecordView>::empty(),
    decreases ps.len() + 1 - k,
{
    let ls = note_doc_views(ps);
    if k < ps.len() + 1 {
        assert(ls[k] == note_views(ps)[k - 1]);
        assert(is_cont(ls[k]));
        lemma_note_kids(ps, k + 1);
    }
}

/// A document of an `INDI` record with one note nests properly and builds
/// into that record with the note, folded, as its one child.
proof fn lemma_build_note(ps: Seq<Seq<char>>)
    requires
        ps.len() >= 1,
    ensures
        well_nested(note_doc_views(ps)),
        roots_from(note_doc_views(ps), 0) == seq![
            (RecordView {
                line_no: 1,
                xref: Some(seq!['I', '1']),
                tag: seq!['I', 'N', 'D', 'I'],
                value: None,
                children: seq![
                    (RecordView {
                        line_no: 2,
                        xref: None,
                        tag: note_tag(),
                        value: fold_value(note_doc_views(ps), 1, 2, opt_text(ps[0])),
                        children: seq![],
                    }),
                ],
            }),
        ],
{
    let ls = note_doc_views(ps);
    let n = ls.len() as int;
    assert(ls[0] == head_view());
    assert(ls[1] == note_views(ps)[0]);
    assert(ls[1].level == 1);
    assert(!is_cont(ls[0])) by {
        assert(ls[0].tag[0] != seq!['C', 'O', 'N', 'C'][0]);
        assert(ls[0].tag[0] != seq!['C', 'O', 'N', 'T'][0]);
    }
    assert(!is_cont(ls[1])) by {
        assert(ls[1].tag[0] != seq!['C', 'O', 'N', 'C'][0]);
        assert(ls[1].tag[0] != seq!['C', 'O', 'N', 'T'][0]);
    }
    assert forall|j: int| 2 <= j < n implies #[trigger] ls[j].level == 2 && is_cont(ls[j]) by {
        assert(ls[j] == note_views(ps)[j - 1]);
    }
    assert forall|j: int| 0 <= j < n implies #[trigger] line_nests(ls, j) by {
        if j >= 2 {
            assert(ls[j].level == 2 && is_cont(ls[j]));
            if j > 2 {
                assert(ls[j - 1].level == 2 && is_cont(ls[j - 1]));
            }
            assert(level_limit(ls, j) == 2);
        }
    }
    assert forall|j: int| 1 <= j < n implies #[trigger] ls[j].level > 0 by {
        if j >= 2 {
            assert(ls[j].level == 2 && is_cont(ls[j]));
        }
    }
    lemma_roots_skip(ls, 1, n);
    assert forall|j: int| 2 <= j < n implies #[trigger] ls[j].level > ls[0].level + 1 by {
        assert(ls[j].level == 2 && is_cont(ls[j]));
    }
    lemma_skip_deeper(ls, 0, 2, n, None);
    lemma_note_kids(ps, 2);
    assert(kids(ls, 0, 1) =~= seq![record_at(ls, 1)]);
    assert(line_number(1) == 2);
    assert(roots_from(ls, 0) =~= seq![record_at(ls, 0)]);
}

/// A value written as a line and its `CONT` lines reads back as the text it
/// was written from. Lexing and building a document of an `INDI` record with
/// one `NOTE` written from `text` succeeds and gives that one record, whose one
/// child is the note: `text` is its value (none when `text` is empty) and it
/// has no children. Text with a carriage return is left out: the lexer strips
/// carriage returns at a line's end.
pub proof fn law_continuation_round_trip(text: Seq<char>)
    requires
        !text.contains('\r'),
    ensures
        (lex_spec("0 @I1@ INDI\n"@ + continued(1, "NOTE"@, text)) matches Ok(ls) && well_nested(ls)
            && roots_from(ls, 0) == seq![
            (RecordView {
                line_no: 1,
                xref: Some("I1"@),
                tag: "INDI"@,
                value: None,
                children: seq![
                    (RecordView {
                        line_no: 2,
                        xref: None,
                        tag: "NOTE"@,
                        value: opt_text(text),
                        children: seq![],
                    }),
                ],
            }),
        ]),
{
    reveal_strlit("0 @I1@ INDI\n");
    reveal_strlit("NOTE");
    reveal_strlit("I1");
    reveal_strlit("INDI");
    assert("NOTE"@ =~= note_tag());
    assert("I1"@ =~= seq!['I', '1']);
    assert("INDI"@ =~= seq!['I', 'N', 'D', 'I']);
    assert("0 @I1@ INDI\n"@ =~= head_raw().push('\n'));
    let ps = split_char(text, '\n');
    let n = ps.len() as int;
    lemma_split_char_len(text, '\n');
    lemma_split_pieces(text, '\n');
    assert forall|i: int, j: int| 0 <= i < n && 0 <= j < ps[i].len() implies #[trigger] ps[i][j]
        != '\r' && ps[i][j] != '\n' by {
        assert(ps[i][j] != '\n' && text.contains(ps[i][j]));
    }
    let doc = "0 @I1@ INDI\n"@ + continued(1, "NOTE"@, text);
    lemma_note_segments(ps, n);
    assert(ps.take(n) =~= ps);
    assert(doc =~= head_raw().push('\n') + tagged(1, note_tag(), ps[0]) + cont_lines(
        ps.take(n),
        2,
    ));
    assert(note_raws(ps).take(n) =~= note_raws(ps));
    assert(doc_lines(doc) =~= seq![head_raw()] + note_raws(ps));
    lemma_lex_note(ps, n);
    assert(note_views(ps).take(n) =~= note_views(ps));
    assert(lex_spec(doc) == Ok::<Seq<LineView>, Seq<char>>(note_doc_views(ps)));
    lemma_build_note(ps);
    let ls = note_doc_views(ps);
    lemma_join_split(text);
    if n == 1 {
        assert(fold_value(ls, 1, 2, opt_text(ps[0])) == opt_text(ps[0]));
        assert(join_lines(ps) == ps[0]);
    } else {
        lemma_fold_note(ps, 2);
        assert(ps.take(1) =~= seq![ps[0]]);
        assert(join_lines(ps.take(1)) == ps[0]);
        assert(ls[2] == note_views(ps)[1]);
        assert(is_cont(ls[2]) && ls[2].level == 2);
        assert(folded(opt_text(ps[0]), ls[2]) == folded(Some(ps[0]), ls[2])) by {
            if ps[0].len() == 0 {
                assert(ps[0] =~= Seq::<char>::empty());
            }
        }
        let step = Some(folded(Some(ps[0]), ls[2]));
        assert(fold_value(ls, 1, 2, opt_text(ps[0])) == fold_value(ls, 1, 3, step));
        assert(fold_value(ls, 1, 2, Some(ps[0])) == fold_value(ls, 1, 3, step));
        assert(join_lines(ps) == join_lines(ps.drop_last()) + seq!['\n'] + ps.last());
        assert(text.len() > 0);
    }
}

} // verus!
