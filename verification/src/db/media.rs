//! Media naming: where a database keeps its media files, which image types it
//! accepts, and the subject column a media link is stored under.

use vstd::prelude::*;
use crate::enums::MediaSubject;
use crate::text::{chars_of, lit_eq, push_chars, push_str, slice_chars, string_from_chars};
use crate::text::{lower, to_lower};

verus! {

/// The index just past the last `/` of `s` (0 when there is none).
pub open spec fn name_start(s: Seq<char>) -> int
    decreases s.len(),
{
    if s.len() == 0 {
        0
    } else if s.last() == '/' {
        s.len() as int
    } else {
        name_start(s.drop_last())
    }
}

/// The index of the last `.` of `s`, if any.
pub open spec fn last_dot(s: Seq<char>) -> Option<int>
    decreases s.len(),
{
    if s.len() == 0 {
        None
    } else if s.last() == '.' {
        Some(s.len() - 1)
    } else {
        last_dot(s.drop_last())
    }
}

/// A file name without its extension: all of it when it has no `.` after its
/// first character, otherwise the part before the last `.`.
pub open spec fn stem(name: Seq<char>) -> Seq<char> {
    match last_dot(name) {
        Some(i) => if i == 0 {
            name
        } else {
            name.take(i)
        },
        None => name,
    }
}

/// A path without its trailing separators and trailing `.` components (which
/// name no file: `a/kith.db/.` is `a/kith.db`).
pub open spec fn strip_end(s: Seq<char>) -> Seq<char>
    decreases s.len(),
{
    if s.len() > 0 && s.last() == '/' {
        strip_end(s.drop_last())
    } else if s.len() >= 2 && s.last() == '.' && s[s.len() - 2] == '/' {
        strip_end(s.drop_last())
    } else {
        s
    }
}

/// `p` with the component `x` appended: `x` alone after an empty path, no
/// new separator after one that ends in `/`.
pub open spec fn push_name(p: Seq<char>, x: Seq<char>) -> Seq<char> {
    if p.len() == 0 {
        x
    } else if p.last() == '/' {
        p + x
    } else {
        p + seq!['/'] + x
    }
}

/// The media directory of a database file: beside it, named after the file's
/// stem with `.media` appended (`/data/family.kith` → `/data/family.media`).
/// Trailing separators and `.` components are not part of the file name
/// (`a/kith.db/` and `a/kith.db/.` → `a/kith.media`). A path without a file
/// name (empty, a root, or ending in `.` or `..`) gets `.media` appended as a
/// component (`..` → `../.media`).
pub open spec fn spec_media_root(db_path: Seq<char>) -> Seq<char> {
    let t = strip_end(db_path);
    let k = name_start(t);
    let name = t.skip(k);
    if name.len() == 0 || name == seq!['.'] || name == seq!['.', '.'] {
        push_name(db_path, ".media"@)
    } else {
        let q = strip_end(t.take(k));
        let parent = if q.len() == 0 && k > 0 {
            seq!['/']
        } else {
            q
        };
        push_name(parent, stem(name) + ".media"@)
    }
}

proof fn lemma_name_start(s: Seq<char>)
    ensures
        0 <= name_start(s) <= s.len(),
        name_start(s) > 0 ==> s[name_start(s) - 1] == '/',
        forall|i: int| name_start(s) <= i < s.len() ==> s[i] != '/',
    decreases s.len(),
{
    if s.len() > 0 && s.last() != '/' {
        lemma_name_start(s.drop_last());
        assert forall|i: int| name_start(s) <= i < s.len() implies s[i] != '/' by {
            if i < s.len() - 1 {
                assert(s[i] == s.drop_last()[i]);
            }
        }
    }
}

proof fn lemma_last_dot(s: Seq<char>)
    ensures
        last_dot(s) matches Some(i) ==> 0 <= i < s.len() && s[i] == '.' && forall|j: int|
            i < j < s.len() ==> s[j] != '.',
        last_dot(s) is None ==> forall|j: int| 0 <= j < s.len() ==> s[j] != '.',
    decreases s.len(),
{
    if s.len() > 0 && s.last() != '.' {
        lemma_last_dot(s.drop_last());
        assert forall|j: int| 0 <= j < s.len() - 1 implies s[j] == s.drop_last()[j] by {}
    }
}

/// The end of `s[..e]` once trailing separators and `.` components are
/// dropped.
fn strip_end_at(s: &Vec<char>, e: usize) -> (r: usize)
    requires
        e <= s.len(),
    ensures
        r <= e,
        s@.take(r as int) == strip_end(s@.take(e as int)),
{
    let mut k: usize = e;
    while k > 0 && (s[k - 1] == '/' || (k >= 2 && s[k - 1] == '.' && s[k - 2] == '/'))
        invariant
            k <= e <= s.len(),
            strip_end(s@.take(e as int)) == strip_end(s@.take(k as int)),
        decreases k,
    {
        assert(s@.take(k as int).drop_last() =~= s@.take(k - 1));
        k = k - 1;
    }
    k
}

/// Appends `/` to a non-empty path that does not end in one.
fn push_separator(out: &mut Vec<char>)
    ensures
        final(out)@ == if old(out)@.len() == 0 || old(out)@.last() == '/' {
            old(out)@
        } else {
            old(out)@.push('/')
        },
{
    if out.len() > 0 && out[out.len() - 1] != '/' {
        out.push('/');
    }
}

/// The media directory of a database file (see [`spec_media_root`]). The
/// shell and the command line both derive it here, so they never disagree
/// about where portraits live.
pub fn media_root_for(db_path: &str) -> (r: String)
    ensures
        r@ == spec_media_root(db_path@),
{
    let full = chars_of(db_path);
    assert(full@.take(full.len() as int) =~= full@);
    let e = strip_end_at(&full, full.len());
    let c = slice_chars(full.as_slice(), 0, e);
    assert(c@ =~= full@.take(e as int));
    let mut k: usize = c.len();
    assert(c@.take(k as int) =~= c@);
    while k > 0 && c[k - 1] != '/'
        invariant
            k <= c.len(),
            name_start(c@) == name_start(c@.take(k as int)),
        decreases k,
    {
        assert(c@.take(k as int).drop_last() =~= c@.take(k - 1));
        k = k - 1;
    }
    proof {
        if k > 0 {
            assert(c@.take(k as int).last() == '/');
        }
        assert(name_start(c@.take(k as int)) == k);
    }
    let name = slice_chars(c.as_slice(), k, c.len());
    assert(name@ =~= c@.skip(k as int));
    let no_name = name.len() == 0 || (name.len() == 1 && name[0] == '.') || (name.len() == 2 && name[0] == '.'
        && name[1] == '.');
    proof {
        assert(no_name == (name@.len() == 0 || name@ == seq!['.'] || name@ == seq!['.', '.'])) by {
            if name@.len() == 1 && name@[0] == '.' {
                assert(name@ =~= seq!['.']);
            }
            if name@.len() == 2 && name@[0] == '.' && name@[1] == '.' {
                assert(name@ =~= seq!['.', '.']);
            }
        }
    }
    if no_name {
        let mut out = slice_chars(full.as_slice(), 0, full.len());
        assert(out@ =~= full@);
        push_separator(&mut out);
        push_str(&mut out, ".media");
        proof {
            assert(out@ =~= spec_media_root(db_path@));
        }
        return string_from_chars(out);
    }
    let e2 = strip_end_at(&full, k);
    proof {
        assert(full@.take(k as int) =~= c@.take(k as int));
    }
    let mut out = if e2 == 0 && k > 0 {
        let mut root: Vec<char> = Vec::new();
        root.push('/');
        root
    } else {
        slice_chars(full.as_slice(), 0, e2)
    };
    proof {
        assert(full@.take(e2 as int) =~= full@.subrange(0, e2 as int));
    }
    let ghost parent = out@;
    push_separator(&mut out);
    let mut d: usize = name.len();
    assert(name@.take(d as int) =~= name@);
    while d > 0 && name[d - 1] != '.'
        invariant
            d <= name.len(),
            last_dot(name@) == last_dot(name@.take(d as int)),
        decreases d,
    {
        assert(name@.take(d as int).drop_last() =~= name@.take(d - 1));
        d = d - 1;
    }
    proof {
        if d > 0 {
            assert(name@.take(d as int).last() == '.');
        }
        assert(name@.take(name.len() as int) =~= name@);
    }
    if d > 1 {
        let s = slice_chars(name.as_slice(), 0, d - 1);
        push_chars(&mut out, s.as_slice());
    } else {
        push_chars(&mut out, name.as_slice());
    }
    push_str(&mut out, ".media");
    proof {
        assert(out@ =~= spec_media_root(db_path@));
    }
    string_from_chars(out)
}

/// The MIME type of a supported image extension, compared ignoring ASCII
/// case: `jpg`/`jpeg` JPEG, `png`, `gif`, `webp`.
pub open spec fn spec_mime_for_extension(ext: Seq<char>) -> Option<Seq<char>> {
    let l = lower(ext);
    if l == "jpg"@ || l == "jpeg"@ {
        Some("image/jpeg"@)
    } else if l == "png"@ {
        Some("image/png"@)
    } else if l == "gif"@ {
        Some("image/gif"@)
    } else if l == "webp"@ {
        Some("image/webp"@)
    } else {
        None
    }
}

/// Maps a supported image extension (any ASCII case) to its MIME type, or
/// `None` for an unsupported one.
pub fn mime_for_extension(ext: &str) -> (r: Option<&'static str>)
    ensures
        match r {
            Some(m) => spec_mime_for_extension(ext@) == Some(m@),
            None => spec_mime_for_extension(ext@) is None,
        },
{
    let c = chars_of(ext);
    let l = to_lower(c.as_slice());
    if lit_eq(l.as_slice(), "jpg") || lit_eq(l.as_slice(), "jpeg") {
        Some("image/jpeg")
    } else if lit_eq(l.as_slice(), "png") {
        Some("image/png")
    } else if lit_eq(l.as_slice(), "gif") {
        Some("image/gif")
    } else if lit_eq(l.as_slice(), "webp") {
        Some("image/webp")
    } else {
        None
    }
}

/// Each documented image extension, in any ASCII case, maps to its image
/// type: `jpg` and `jpeg` to `image/jpeg`, `png` to `image/png`, `gif` to
/// `image/gif`, `webp` to `image/webp`; every other extension is refused.
pub proof fn law_mime_per_extension(ext: Seq<char>)
    ensures
        lower(ext) == "jpg"@ ==> spec_mime_for_extension(ext) == Some("image/jpeg"@),
        lower(ext) == "jpeg"@ ==> spec_mime_for_extension(ext) == Some("image/jpeg"@),
        lower(ext) == "png"@ ==> spec_mime_for_extension(ext) == Some("image/png"@),
        lower(ext) == "gif"@ ==> spec_mime_for_extension(ext) == Some("image/gif"@),
        lower(ext) == "webp"@ ==> spec_mime_for_extension(ext) == Some("image/webp"@),
        lower(ext) != "jpg"@ && lower(ext) != "jpeg"@ && lower(ext) != "png"@ && lower(ext) != "gif"@
            && lower(ext) != "webp"@ ==> spec_mime_for_extension(ext) is None,
{
    reveal_strlit("jpg");
    reveal_strlit("jpeg");
    reveal_strlit("png");
    reveal_strlit("gif");
    reveal_strlit("webp");
    let l = lower(ext);
    if l == "png"@ {
        assert(l[0] != "jpg"@[0] && l[0] != "gif"@[0] && l.len() != "jpeg"@.len() && l.len() != "webp"@.len());
    }
    if l == "gif"@ {
        assert(l[0] != "jpg"@[0] && l.len() != "jpeg"@.len());
    }
    if l == "webp"@ {
        assert(l.len() != "jpg"@.len() && l[0] != "jpeg"@[0]);
    }
}

/// The `media_links` column and raw id a media subject is stored under.
pub fn subject_column(subject: MediaSubject) -> (r: (&'static str, i64))
    ensures
        match subject {
            MediaSubject::Individual(p) => r.0@ == "individual_id"@ && r.1 == p.0,
            MediaSubject::Family(f) => r.0@ == "family_id"@ && r.1 == f.0,
            MediaSubject::Event(e) => r.0@ == "event_id"@ && r.1 == e.0,
        },
{
    match subject {
        MediaSubject::Individual(p) => ("individual_id", p.get()),
        MediaSubject::Family(f) => ("family_id", f.get()),
        MediaSubject::Event(e) => ("event_id", e.get()),
    }
}

} // verus!
