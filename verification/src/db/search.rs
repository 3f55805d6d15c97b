//! Search: the query a user types made safe to hand to the full-text index,
//! and the snippet the index returns tidied for display.

use vstd::prelude::*;
use crate::gedcom::lexer::opt_view;
use crate::records::Individual;
use crate::text::{chars_of, push_chars, split_words, string_from_chars, trim, trim_chars, views, words};

verus! {

/// A ranked search result: the person and, when there is one, a short excerpt
/// of the text that matched.
#[derive(Debug, Clone, PartialEq, Eq)]
pub struct SearchHit {
    /// The person who matched.
    pub individual: Individual,
    /// The matching excerpt, if any.
    pub context: Option<String>,
}

/// Whether `char::is_alphanumeric` holds of `c` (Unicode alphabetic or
/// numeric).
pub uninterp spec fn char_is_alphanumeric(c: char) -> bool;

/// Whether `c` is alphanumeric.
///
/// Trusted: calls `char::is_alphanumeric`, whose result depends on `c`
/// alone; the Unicode tables it reads are named, not stated.
#[verifier::external_body]
fn is_alphanumeric(c: char) -> (b: bool)
    ensures
        b == char_is_alphanumeric(c),
{
    c.is_alphanumeric()
}

/// Whether a term has an alphanumeric character (so it yields a token).
pub open spec fn has_token(t: Seq<char>) -> bool {
    exists|i: int| 0 <= i < t.len() && char_is_alphanumeric(#[trigger] t[i])
}

/// A term quoted as an FTS string with embedded quotes doubled, then `*`
/// to prefix-match its last token.
pub open spec fn quote_term(t: Seq<char>) -> Seq<char> {
    seq!['"'] + doubled_quotes(t) + seq!['"', '*']
}

/// `t` with every `"` doubled.
pub open spec fn doubled_quotes(t: Seq<char>) -> Seq<char>
    decreases t.len(),
{
    if t.len() == 0 {
        seq![]
    } else {
        doubled_quotes(t.drop_last()) + if t.last() == '"' {
            seq!['"', '"']
        } else {
            seq![t.last()]
        }
    }
}

/// The match expression of some terms: each term with a token quoted (see
/// [`quote_term`]), joined by spaces; terms without a token are dropped.
pub open spec fn match_terms(ts: Seq<Seq<char>>) -> Seq<char>
    decreases ts.len(),
{
    if ts.len() == 0 {
        seq![]
    } else {
        let prev = match_terms(ts.drop_last());
        let t = ts.last();
        if !has_token(t) {
            prev
        } else if prev.len() == 0 {
            quote_term(t)
        } else {
            prev + seq![' '] + quote_term(t)
        }
    }
}

/// The safe match expression of a query: its whitespace-separated terms
/// (see [`match_terms`]), or nothing when no term has a token.
pub open spec fn spec_match_expr(query: Seq<char>) -> Option<Seq<char>> {
    let e = match_terms(words(query));
    if e.len() == 0 {
        None
    } else {
        Some(e)
    }
}

/// Sanitizes a raw query into a full-text `MATCH` expression: each term with
/// an alphanumeric character quoted (embedded quotes doubled) and
/// prefix-matched, terms joined by spaces. `None` when no term qualifies, so
/// stray `"`/`*`/`AND`/`:` never reach the index as syntax.
pub fn to_match_expr(query: &str) -> (r: Option<String>)
    ensures
        opt_view(r) == spec_match_expr(query@),
{
    let c = chars_of(query);
    let terms = split_words(c.as_slice());
    let ghost ts = words(query@);
    let mut expr: Vec<char> = Vec::new();
    let mut i: usize = 0;
    assert(ts.take(0) =~= Seq::<Seq<char>>::empty());
    while i < terms.len()
        invariant
            i <= terms.len(),
            views(terms@) == ts,
            expr@ == match_terms(ts.take(i as int)),
        decreases terms.len() - i,
    {
        let term = &terms[i];
        proof {
            assert(ts.take(i + 1).drop_last() =~= ts.take(i as int));
            assert(ts.take(i + 1).last() == term@);
        }
        let mut any = false;
        let mut k: usize = 0;
        while k < term.len()
            invariant
                k <= term.len(),
                any == exists|j: int| 0 <= j < k && char_is_alphanumeric(#[trigger] term@[j]),
            decreases term.len() - k,
        {
            if is_alphanumeric(term[k]) {
                any = true;
            }
            k = k + 1;
        }
        if any {
            if expr.len() > 0 {
                expr.push(' ');
            }
            let ghost before = expr@;
            expr.push('"');
            let mut q: Vec<char> = Vec::new();
            let mut k: usize = 0;
            assert(term@.take(0) =~= Seq::<char>::empty());
            while k < term.len()
                invariant
                    k <= term.len(),
                    q@ == doubled_quotes(term@.take(k as int)),
                decreases term.len() - k,
            {
                assert(term@.take(k + 1).drop_last() =~= term@.take(k as int));
                if term[k] == '"' {
                    q.push('"');
                }
                q.push(term[k]);
                k = k + 1;
                assert(q@ =~= doubled_quotes(term@.take(k as int)));
            }
            assert(term@.take(term.len() as int) =~= term@);
            push_chars(&mut expr, q.as_slice());
            expr.push('"');
            expr.push('*');
            assert(expr@ =~= match_terms(ts.take(i + 1)));
        }
        i = i + 1;
    }
    assert(ts.take(terms.len() as int) =~= ts);
    if expr.len() == 0 {
        None
    } else {
        Some(string_from_chars(expr))
    }
}

/// A snippet tidied for display: trimmed, and nothing when that is empty.
pub open spec fn spec_clean_snippet(snippet: Option<Seq<char>>) -> Option<Seq<char>> {
    match snippet {
        Some(s) => if trim(s).len() == 0 {
            None
        } else {
            Some(trim(s))
        },
        None => None,
    }
}

/// Normalizes a full-text snippet into a context string: `None` for an absent
/// or whitespace-only snippet, otherwise the trimmed text.
pub fn clean_snippet(snippet: Option<String>) -> (r: Option<String>)
    ensures
        opt_view(r) == spec_clean_snippet(opt_view(snippet)),
{
    match snippet {
        Some(s) => {
            let c = chars_of(s.as_str());
            let t = trim_chars(c.as_slice());
            if t.len() == 0 {
                None
            } else {
                Some(string_from_chars(t))
            }
        },
        None => None,
    }
}

} // verus!
