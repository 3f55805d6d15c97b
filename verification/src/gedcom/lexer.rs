//! The GEDCOM line lexer: a document → [`Line`]s (`level [@xref@] tag
//! [value]`), each carrying its 1-based source line number.

use vstd::prelude::*;
use crate::error::CoreError;
use crate::num::{int_text, parse_u8, parse_u8_chars, push_int};
use crate::text::{
    chars_of, debug_quoted, debug_str, lead_ws, lemma_lead_ws_bound, push_chars, push_str,
    slice_chars, string_from_chars, trim, trim_chars, trim_start, trim_start_chars,
};

verus! {

/// One physical GEDCOM line.
#[derive(Debug, Clone, PartialEq, Eq)]
pub struct Line {
    /// 1-based source line number, for error context.
    pub line_no: u32,
    /// The nesting level (`0` for a record, deeper for sub-records).
    pub level: u8,
    /// The optional `@…@` cross-reference id, with the `@` wrapper stripped.
    pub xref: Option<String>,
    /// The tag (e.g. `INDI`, `NAME`, `BIRT`).
    pub tag: String,
    /// The optional value (everything after the tag's delimiting space).
    pub value: Option<String>,
}

/// A line's content as character sequences.
#[verifier::ext_equal]
pub struct LineView {
    /// 1-based source line number.
    pub line_no: u32,
    /// Nesting level.
    pub level: u8,
    /// Cross-reference id.
    pub xref: Option<Seq<char>>,
    /// Tag.
    pub tag: Seq<char>,
    /// Value.
    pub value: Option<Seq<char>>,
}

/// The view of an optional string.
pub open spec fn opt_view(o: Option<String>) -> Option<Seq<char>> {
    match o {
        Some(s) => Some(s@),
        None => None,
    }
}

impl Line {
    /// The line's content as character sequences.
    pub open spec fn view(self) -> LineView {
        LineView {
            line_no: self.line_no,
            level: self.level,
            xref: opt_view(self.xref),
            tag: self.tag@,
            value: opt_view(self.value),
        }
    }
}

/// The views of a list of lines.
pub open spec fn line_views(ls: Seq<Line>) -> Seq<LineView> {
    Seq::new(ls.len(), |i: int| ls[i].view())
}

/// The index of the first `c` in `s` at or after `from`.
pub open spec fn find_char(s: Seq<char>, c: char, from: int) -> Option<int>
    decreases s.len() - from,
{
    if from < 0 || from >= s.len() {
        None
    } else if s[from] == c {
        Some(from)
    } else {
        find_char(s, c, from + 1)
    }
}

/// `s` split at its first space into the token before it and the rest after
/// it (the space consumed); with no space, the rest is empty.
pub open spec fn split_first(s: Seq<char>) -> (Seq<char>, Seq<char>) {
    match find_char(s, ' ', 0) {
        Some(i) => (s.take(i), s.skip(i + 1)),
        None => (s, seq![]),
    }
}

/// The segments of `s` between newlines (one more than the newlines).
pub open spec fn segments(s: Seq<char>) -> Seq<Seq<char>>
    decreases s.len(),
{
    if s.len() == 0 {
        seq![seq![]]
    } else {
        let p = segments(s.drop_last());
        if s.last() == '\n' {
            p.push(seq![])
        } else {
            p.update(p.len() - 1, p.last().push(s.last()))
        }
    }
}

/// The lines of a document as `str::lines` splits it: its segments, without
/// an empty final segment.
pub open spec fn doc_lines(s: Seq<char>) -> Seq<Seq<char>> {
    let g = segments(s);
    if g.last().len() == 0 {
        g.drop_last()
    } else {
        g
    }
}

/// The number of leading `c`s of `s`.
pub open spec fn lead_count(s: Seq<char>, c: char) -> nat
    decreases s.len(),
{
    if s.len() > 0 && s[0] == c {
        1 + lead_count(s.drop_first(), c)
    } else {
        0
    }
}

/// The number of trailing `c`s of `s`.
pub open spec fn trail_count(s: Seq<char>, c: char) -> nat
    decreases s.len(),
{
    if s.len() > 0 && s.last() == c {
        1 + trail_count(s.drop_last(), c)
    } else {
        0
    }
}

/// The text of raw line `i` the parser reads: a byte-order mark stripped from
/// the first line, every line's trailing carriage returns stripped.
pub open spec fn clean_line(raw: Seq<char>, i: int) -> Seq<char> {
    let t = if i == 0 {
        raw.skip(lead_count(raw, '\u{feff}') as int)
    } else {
        raw
    };
    t.take(t.len() - trail_count(t, '\r'))
}

/// The 1-based number of raw line `i`, saturating at `u32::MAX`.
pub open spec fn line_number(i: int) -> u32 {
    if i + 1 <= u32::MAX {
        (i + 1) as u32
    } else {
        u32::MAX
    }
}

/// The message of a line-cited lexing error.
pub open spec fn line_error(line_no: u32, what: Seq<char>) -> Seq<char> {
    "line "@ + int_text(line_no as int) + what
}

/// The tag and value of a line after its level and xref.
pub open spec fn tag_part(rest: Seq<char>, line_no: u32, level: u8, xref: Option<Seq<char>>) -> Result<
    LineView,
    Seq<char>,
> {
    if rest.len() == 0 {
        Err(line_error(line_no, ": missing tag"@))
    } else {
        let (tag, v) = split_first(rest);
        Ok(
            LineView {
                line_no,
                level,
                xref,
                tag,
                value: if v.len() == 0 {
                    None
                } else {
                    Some(v)
                },
            },
        )
    }
}

/// One non-blank line read as `level [@xref@] tag [value]` (leading
/// whitespace tolerated), or the message of why it is malformed.
pub open spec fn parse_line_spec(text: Seq<char>, line_no: u32) -> Result<LineView, Seq<char>> {
    let (level_tok, after_level) = split_first(trim_start(text));
    match parse_u8(level_tok) {
        None => Err(line_error(line_no, ": invalid level "@ + debug_str(level_tok))),
        Some(level) => {
            let rest = trim_start(after_level);
            if rest.len() > 0 && rest[0] == '@' {
                let body = rest.drop_first();
                match find_char(body, '@', 0) {
                    None => Err(line_error(line_no, ": unterminated @xref@ pointer"@)),
                    Some(e) => tag_part(
                        trim_start(body.skip(e + 1)),
                        line_no,
                        level,
                        Some(body.take(e)),
                    ),
                }
            } else {
                tag_part(rest, line_no, level, None)
            }
        },
    }
}

/// The lines of raw lines `raws`, skipping blank ones, or the message of the
/// first malformed one.
pub open spec fn lex_raw(raws: Seq<Seq<char>>) -> Result<Seq<LineView>, Seq<char>>
    decreases raws.len(),
{
    if raws.len() == 0 {
        Ok(seq![])
    } else {
        match lex_raw(raws.drop_last()) {
            Err(m) => Err(m),
            Ok(ls) => {
                let j = raws.len() - 1;
                let text = clean_line(raws.last(), j);
                if trim(text).len() == 0 {
                    Ok(ls)
                } else {
                    match parse_line_spec(text, line_number(j)) {
                        Ok(l) => Ok(ls.push(l)),
                        Err(m) => Err(m),
                    }
                }
            },
        }
    }
}

/// What lexing a document gives.
pub open spec fn lex_spec(s: Seq<char>) -> Result<Seq<LineView>, Seq<char>> {
    lex_raw(doc_lines(s))
}

/// `lead_count` is characterised by its stopping point.
proof fn lemma_lead_count_is(s: Seq<char>, c: char, k: int)
    requires
        0 <= k <= s.len(),
        forall|i: int| 0 <= i < k ==> #[trigger] s[i] == c,
        k < s.len() ==> s[k] != c,
    ensures
        lead_count(s, c) == k,
    decreases k,
{
    if k > 0 {
        assert forall|i: int| 0 <= i < k - 1 implies #[trigger] s.drop_first()[i] == c by {
            assert(s.drop_first()[i] == s[i + 1]);
        }
        if k - 1 < s.drop_first().len() {
            assert(s.drop_first()[k - 1] == s[k]);
        }
        lemma_lead_count_is(s.drop_first(), c, k - 1);
    }
}

/// `trail_count` is characterised by its stopping point.
pub(crate) proof fn lemma_trail_count_is(s: Seq<char>, c: char, k: int)
    requires
        0 <= k <= s.len(),
        forall|i: int| s.len() - k <= i < s.len() ==> #[trigger] s[i] == c,
        k < s.len() ==> s[s.len() - k - 1] != c,
    ensures
        trail_count(s, c) == k,
    decreases k,
{
    if k > 0 {
        let t = s.drop_last();
        assert forall|i: int| t.len() - (k - 1) <= i < t.len() implies #[trigger] t[i] == c by {
            assert(t[i] == s[i]);
        }
        if k - 1 < t.len() {
            assert(t[t.len() - (k - 1) - 1] == s[s.len() - k - 1]);
        }
        lemma_trail_count_is(t, c, k - 1);
    }
}

/// The index of the first `c` in `s` at or after `from`.
fn find_char_from(s: &[char], c: char, from: usize) -> (r: Option<usize>)
    ensures
        match r {
            Some(i) => find_char(s@, c, from as int) == Some(i as int) && from <= i < s.len(),
            None => find_char(s@, c, from as int) is None,
        },
{
    let mut i: usize = from;
    while i < s.len()
        invariant
            from <= i,
            find_char(s@, c, from as int) == find_char(s@, c, i as int),
        decreases s.len() - i,
    {
        if s[i] == c {
            return Some(i);
        }
        i = i + 1;
    }
    None
}

/// `s` split at its first space (see [`split_first`]).
fn split_first_token(s: &[char]) -> (r: (Vec<char>, Vec<char>))
    ensures
        (r.0@, r.1@) == split_first(s@),
{
    match find_char_from(s, ' ', 0) {
        Some(i) => {
            let a = slice_chars(s, 0, i);
            let b = slice_chars(s, i + 1, s.len());
            assert(a@ =~= s@.take(i as int));
            assert(b@ =~= s@.skip(i + 1));
            (a, b)
        },
        None => {
            let a = slice_chars(s, 0, s.len());
            assert(a@ =~= s@);
            (a, Vec::new())
        },
    }
}

/// A validation error citing a line: `line N` then `what`.
fn line_error_at(line_no: u32, what: &str) -> (e: CoreError)
    ensures
        e is Validation,
        e->Validation_0@ == line_error(line_no, what@),
{
    let mut m: Vec<char> = Vec::new();
    push_str(&mut m, "line ");
    push_int(&mut m, line_no as i64);
    push_str(&mut m, what);
    assert(m@ =~= line_error(line_no, what@));
    CoreError::Validation(string_from_chars(m))
}

/// Reads the tag and value after a line's level and xref.
fn parse_tag_part(rest: &[char], line_no: u32, level: u8, xref: Option<Vec<char>>) -> (r: Result<
    Line,
    CoreError,
>)
    ensures
        match r {
            Ok(l) => tag_part(
                rest@,
                line_no,
                level,
                match xref {
                    Some(x) => Some(x@),
                    None => None,
                },
            ) == Ok::<LineView, Seq<char>>(l.view()),
            Err(e) => tag_part(
                rest@,
                line_no,
                level,
                match xref {
                    Some(x) => Some(x@),
                    None => None,
                },
            ) matches Err(m) && e is Validation && e->Validation_0@ == m,
        },
{
    if rest.len() == 0 {
        return Err(line_error_at(line_no, ": missing tag"));
    }
    let (tag, v) = split_first_token(rest);
    let value = if v.len() == 0 {
        None
    } else {
        Some(string_from_chars(v))
    };
    let xs = match xref {
        Some(x) => Some(string_from_chars(x)),
        None => None,
    };
    let l = Line { line_no, level, xref: xs, tag: string_from_chars(tag), value };
    assert(l.view() =~= tag_part(
        rest@,
        line_no,
        level,
        match xref {
            Some(x) => Some(x@),
            None => None,
        },
    )->Ok_0);
    Ok(l)
}

/// Parses one non-blank line into its `level [@xref@] tag [value]` parts.
pub fn parse_line(text: &[char], line_no: u32) -> (r: Result<Line, CoreError>)
    ensures
        match r {
            Ok(l) => parse_line_spec(text@, line_no) == Ok::<LineView, Seq<char>>(l.view()),
            Err(e) => parse_line_spec(text@, line_no) matches Err(m) && e is Validation
                && e->Validation_0@ == m,
        },
{
    let t = trim_start_chars(text);
    let (level_tok, after_level) = split_first_token(t.as_slice());
    let level = match parse_u8_chars(level_tok.as_slice()) {
        Some(v) => v,
        None => {
            let mut m: Vec<char> = Vec::new();
            push_str(&mut m, "line ");
            push_int(&mut m, line_no as i64);
            push_str(&mut m, ": invalid level ");
            let q = debug_quoted(string_from_chars(level_tok).as_str());
            push_str(&mut m, q.as_str());
            assert(m@ =~= line_error(line_no, ": invalid level "@ + debug_str(level_tok@)));
            return Err(CoreError::Validation(string_from_chars(m)));
        },
    };
    let rest = trim_start_chars(after_level.as_slice());
    if rest.len() > 0 && rest[0] == '@' {
        let body = slice_chars(rest.as_slice(), 1, rest.len());
        assert(body@ =~= rest@.drop_first());
        match find_char_from(body.as_slice(), '@', 0) {
            None => Err(line_error_at(line_no, ": unterminated @xref@ pointer")),
            Some(e) => {
                let id = slice_chars(body.as_slice(), 0, e);
                let tail = slice_chars(body.as_slice(), e + 1, body.len());
                assert(id@ =~= body@.take(e as int));
                assert(tail@ =~= body@.skip(e + 1));
                let rest2 = trim_start_chars(tail.as_slice());
                parse_tag_part(rest2.as_slice(), line_no, level, Some(id))
            },
        }
    } else {
        parse_tag_part(rest.as_slice(), line_no, level, None)
    }
}

/// The views of a vector of character vectors.
pub open spec fn char_views(v: Seq<Vec<char>>) -> Seq<Seq<char>> {
    Seq::new(v.len(), |i: int| v[i]@)
}

/// Splits a document into its lines as `str::lines` does (see [`doc_lines`]).
fn split_doc_lines(c: &[char]) -> (r: Vec<Vec<char>>)
    ensures
        char_views(r@) == doc_lines(c@),
{
    let mut done: Vec<Vec<char>> = Vec::new();
    let mut cur: Vec<char> = Vec::new();
    let mut i: usize = 0;
    assert(c@.take(0) =~= Seq::<char>::empty());
    assert(char_views(done@).push(cur@) =~= segments(c@.take(0)));
    while i < c.len()
        invariant
            i <= c.len(),
            segments(c@.take(i as int)) == char_views(done@).push(cur@),
        decreases c.len() - i,
    {
        let ch = c[i];
        proof {
            assert(c@.take(i + 1).drop_last() =~= c@.take(i as int));
            assert(c@.take(i + 1).last() == ch);
        }
        if ch == '\n' {
            let ghost before = done@;
            done.push(cur);
            cur = Vec::new();
            assert(char_views(done@) =~= char_views(before).push(
                char_views(done@)[before.len() as int],
            ));
            assert(segments(c@.take(i + 1)) =~= char_views(done@).push(cur@));
        } else {
            let ghost old_cur = cur@;
            cur.push(ch);
            assert(segments(c@.take(i + 1)) =~= char_views(done@).push(cur@));
        }
        i = i + 1;
    }
    assert(c@.take(c.len() as int) =~= c@);
    if cur.len() > 0 {
        let ghost before = done@;
        done.push(cur);
        assert(char_views(done@) =~= doc_lines(c@));
    } else {
        assert(char_views(done@) =~= doc_lines(c@));
    }
    done
}

/// The text of raw line `i` the parser reads (see [`clean_line`]).
fn clean(raw: &[char], i: usize) -> (r: Vec<char>)
    ensures
        r@ == clean_line(raw@, i as int),
{
    let mut start: usize = 0;
    if i == 0 {
        while start < raw.len() && raw[start] == '\u{feff}'
            invariant
                start <= raw.len(),
                forall|j: int| 0 <= j < start ==> #[trigger] raw@[j] == '\u{feff}',
            decreases raw.len() - start,
        {
            start = start + 1;
        }
        proof {
            lemma_lead_count_is(raw@, '\u{feff}', start as int);
        }
    }
    let t = slice_chars(raw, start, raw.len());
    let ghost tt = if i == 0 {
        raw@.skip(lead_count(raw@, '\u{feff}') as int)
    } else {
        raw@
    };
    assert(t@ =~= tt);
    let mut k: usize = 0;
    while k < t.len() && t[t.len() - 1 - k] == '\r'
        invariant
            k <= t.len(),
            forall|j: int| t.len() - k <= j < t.len() ==> #[trigger] t@[j] == '\r',
        decreases t.len() - k,
    {
        k = k + 1;
    }
    proof {
        lemma_trail_count_is(t@, '\r', k as int);
    }
    let r = slice_chars(t.as_slice(), 0, t.len() - k);
    assert(r@ =~= clean_line(raw@, i as int));
    r
}

/// Once a prefix of the raw lines fails to lex, the whole document fails the
/// same way.
proof fn lemma_lex_prefix_fails(raws: Seq<Seq<char>>, k: int)
    requires
        0 <= k <= raws.len(),
        lex_raw(raws.take(k)) is Err,
    ensures
        lex_raw(raws) == lex_raw(raws.take(k)),
    decreases raws.len(),
{
    if k == raws.len() {
        assert(raws.take(k) =~= raws);
    } else {
        assert(raws.drop_last().take(k) =~= raws.take(k));
        lemma_lex_prefix_fails(raws.drop_last(), k);
    }
}

/// Lexes a document into lines. Strips a leading byte-order mark, skips blank
/// lines while counting every physical line (so line numbers match an
/// editor's), and tolerates CRLF line endings.
///
/// # Errors
/// [`CoreError::Validation`] citing the line number for the first line whose
/// level is not a `u8`, that has no tag, or whose `@xref@` pointer is
/// unterminated.
pub fn lex(source: &str) -> (r: Result<Vec<Line>, CoreError>)
    ensures
        match r {
            Ok(ls) => lex_spec(source@) == Ok::<Seq<LineView>, Seq<char>>(line_views(ls@)),
            Err(e) => lex_spec(source@) matches Err(m) && e is Validation && e->Validation_0@ == m,
        },
{
    let c = chars_of(source);
    let raws = split_doc_lines(c.as_slice());
    let ghost rs = doc_lines(source@);
    let mut out: Vec<Line> = Vec::new();
    let mut k: usize = 0;
    assert(rs.take(0) =~= Seq::<Seq<char>>::empty());
    assert(line_views(out@) =~= Seq::<LineView>::empty());
    while k < raws.len()
        invariant
            k <= raws.len(),
            char_views(raws@) == rs,
            rs == doc_lines(source@),
            lex_raw(rs.take(k as int)) == Ok::<Seq<LineView>, Seq<char>>(line_views(out@)),
        decreases raws.len() - k,
    {
        proof {
            assert(rs.take(k + 1).drop_last() =~= rs.take(k as int));
            assert(rs.take(k + 1).last() == raws@[k as int]@);
        }
        let text = clean(raws[k].as_slice(), k);
        let tr = trim_chars(text.as_slice());
        if tr.len() > 0 {
            let line_no: u32 = if k < 4294967295 { (k + 1) as u32 } else { 4294967295 };
            match parse_line(text.as_slice(), line_no) {
                Ok(l) => {
                    let ghost before = out@;
                    out.push(l);
                    assert(line_views(out@) =~= line_views(before).push(l.view()));
                },
                Err(e) => {
                    proof {
                        lemma_lex_prefix_fails(rs, k + 1);
                    }
                    return Err(e);
                },
            }
        }
        k = k + 1;
    }
    assert(rs.take(raws.len() as int) =~= rs);
    Ok(out)
}

} // verus!
