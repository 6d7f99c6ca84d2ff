//! Media types guessed from file-name extensions.

use vstd::prelude::*;
use crate::text::{
    ascii_lower, chars_of, eq_str, index_after_last, lemma_index_after_last_step,
    push_ascii_lower_range,
};

verus! {

/// The extension of a file name: what follows its last `.`, if it has
/// one (`rsplit_once('.')`).
pub open spec fn extension(name: Seq<char>) -> Option<Seq<char>> {
    let k = index_after_last(name, '.');
    if k == 0 {
        None
    } else {
        Some(name.skip(k as int))
    }
}

/// The media type for a lower-case extension.
pub open spec fn mime_for_extension(ext: Seq<char>) -> Seq<char> {
    if ext == "png"@ {
        "image/png"@
    } else if ext == "jpg"@ || ext == "jpeg"@ {
        "image/jpeg"@
    } else if ext == "gif"@ {
        "image/gif"@
    } else if ext == "webp"@ {
        "image/webp"@
    } else if ext == "svg"@ {
        "image/svg+xml"@
    } else if ext == "pdf"@ {
        "application/pdf"@
    } else if ext == "txt"@ || ext == "md"@ {
        "text/plain"@
    } else if ext == "csv"@ {
        "text/csv"@
    } else if ext == "json"@ {
        "application/json"@
    } else if ext == "zip"@ {
        "application/zip"@
    } else if ext == "html"@ || ext == "htm"@ {
        "text/html"@
    } else {
        "application/octet-stream"@
    }
}

/// The media type guessed for a file name: by its extension, compared
/// without regard to ASCII case; `application/octet-stream` when it has
/// none or an unknown one.
pub open spec fn guess_mime_spec(name: Seq<char>) -> Seq<char> {
    match extension(name) {
        Some(ext) => mime_for_extension(ascii_lower(ext)),
        None => "application/octet-stream"@,
    }
}

fn mime_for_extension_exec(ext: &Vec<char>) -> (m: &'static str)
    ensures
        m@ == mime_for_extension(ext@),
{
    if eq_str(ext, "png") {
        "image/png"
    } else if eq_str(ext, "jpg") || eq_str(ext, "jpeg") {
        "image/jpeg"
    } else if eq_str(ext, "gif") {
        "image/gif"
    } else if eq_str(ext, "webp") {
        "image/webp"
    } else if eq_str(ext, "svg") {
        "image/svg+xml"
    } else if eq_str(ext, "pdf") {
        "application/pdf"
    } else if eq_str(ext, "txt") || eq_str(ext, "md") {
        "text/plain"
    } else if eq_str(ext, "csv") {
        "text/csv"
    } else if eq_str(ext, "json") {
        "application/json"
    } else if eq_str(ext, "zip") {
        "application/zip"
    } else if eq_str(ext, "html") || eq_str(ext, "htm") {
        "text/html"
    } else {
        "application/octet-stream"
    }
}

/// The media type for a file name, guessed from its extension.
pub fn guess_mime(name: &str) -> (m: &'static str)
    ensures
        m@ == guess_mime_spec(name@),
{
    let v = chars_of(name);
    let n = v.len();
    let mut k: usize = 0;
    let mut i: usize = 0;
    while i < n
        invariant
            n == v@.len(),
            v@ == name@,
            k <= i <= n,
            k == index_after_last(v@.take(i as int), '.'),
        decreases n - i,
    {
        proof {
            lemma_index_after_last_step(v@, '.', i as int);
        }
        if v[i] == '.' {
            k = i + 1;
        }
        i += 1;
    }
    assert(v@.take(n as int) =~= v@);
    if k == 0 {
        return "application/octet-stream";
    }
    let mut lowered = String::new();
    push_ascii_lower_range(&mut lowered, &v, k, n);
    let ext = chars_of(lowered.as_str());
    assert(v@.subrange(k as int, n as int) =~= v@.skip(k as int));
    mime_for_extension_exec(&ext)
}

proof fn lemma_index_after_last_lower(s: Seq<char>)
    ensures
        index_after_last(ascii_lower(s), '.') == index_after_last(s, '.'),
    decreases s.len(),
{
    if s.len() > 0 {
        assert(ascii_lower(s).drop_last() =~= ascii_lower(s.drop_last()));
        lemma_index_after_last_lower(s.drop_last());
    }
}

/// The guess does not depend on ASCII case: `REPORT.PDF` is typed as
/// `report.pdf` is.
pub proof fn lemma_guess_mime_ignores_case(name: Seq<char>)
    ensures
        guess_mime_spec(ascii_lower(name)) == guess_mime_spec(name),
{
    lemma_index_after_last_lower(name);
    crate::text::lemma_index_after_last_bound(name, '.');
    let k = index_after_last(name, '.');
    if k != 0 {
        assert(ascii_lower(name).skip(k as int) =~= ascii_lower(name.skip(k as int)));
        crate::text::lemma_ascii_lower_idempotent(name.skip(k as int));
    }
}

/// A name `n.e` whose part after the last dot is `e` is typed by `e`.
proof fn lemma_guess_mime_of(n: Seq<char>, e: Seq<char>)
    requires
        !e.contains('.'),
    ensures
        guess_mime_spec(n + "."@ + e) == mime_for_extension(ascii_lower(e)),
{
    reveal_strlit(".");
    let p = n + "."@;
    crate::text::lemma_index_after_last_append(p, e, '.');
    assert(p.last() == '.');
    assert(index_after_last(p, '.') == p.len());
    assert(n + "."@ + e == p + e);
    assert((p + e).skip(p.len() as int) =~= e);
}

/// The media-type table: a file named `n.e`, where `e` (the part after the
/// last dot) is one of the known extensions in any ASCII case, is typed
/// as that extension's media type; a name without a dot is untyped
/// (`application/octet-stream`).
pub proof fn lemma_guess_mime_table(n: Seq<char>, e: Seq<char>)
    ensures
        !e.contains('.') ==> {
            let m = guess_mime_spec(n + "."@ + e);
            &&& ascii_lower(e) == "png"@ ==> m == "image/png"@
            &&& ascii_lower(e) == "jpg"@ ==> m == "image/jpeg"@
            &&& ascii_lower(e) == "jpeg"@ ==> m == "image/jpeg"@
            &&& ascii_lower(e) == "gif"@ ==> m == "image/gif"@
            &&& ascii_lower(e) == "webp"@ ==> m == "image/webp"@
            &&& ascii_lower(e) == "svg"@ ==> m == "image/svg+xml"@
            &&& ascii_lower(e) == "pdf"@ ==> m == "application/pdf"@
            &&& ascii_lower(e) == "txt"@ ==> m == "text/plain"@
            &&& ascii_lower(e) == "md"@ ==> m == "text/plain"@
            &&& ascii_lower(e) == "csv"@ ==> m == "text/csv"@
            &&& ascii_lower(e) == "json"@ ==> m == "application/json"@
            &&& ascii_lower(e) == "zip"@ ==> m == "application/zip"@
            &&& ascii_lower(e) == "html"@ ==> m == "text/html"@
            &&& ascii_lower(e) == "htm"@ ==> m == "text/html"@
        },
        !n.contains('.') ==> guess_mime_spec(n) == "application/octet-stream"@,
{
    reveal_strlit("png");
    reveal_strlit("jpg");
    reveal_strlit("jpeg");
    reveal_strlit("gif");
    reveal_strlit("webp");
    reveal_strlit("svg");
    reveal_strlit("pdf");
    reveal_strlit("txt");
    reveal_strlit("md");
    reveal_strlit("csv");
    reveal_strlit("json");
    reveal_strlit("zip");
    reveal_strlit("html");
    reveal_strlit("htm");
    assert("png"@.len() == 3 && "png"@[0] == 'p' && "png"@[1] == 'n');
    assert("jpg"@.len() == 3 && "jpg"@[0] == 'j' && "jpg"@[1] == 'p');
    assert("jpeg"@.len() == 4 && "jpeg"@[0] == 'j' && "jpeg"@[1] == 'p');
    assert("gif"@.len() == 3 && "gif"@[0] == 'g' && "gif"@[1] == 'i');
    assert("webp"@.len() == 4 && "webp"@[0] == 'w' && "webp"@[1] == 'e');
    assert("svg"@.len() == 3 && "svg"@[0] == 's' && "svg"@[1] == 'v');
    assert("pdf"@.len() == 3 && "pdf"@[0] == 'p' && "pdf"@[1] == 'd');
    assert("txt"@.len() == 3 && "txt"@[0] == 't' && "txt"@[1] == 'x');
    assert("md"@.len() == 2 && "md"@[0] == 'm' && "md"@[1] == 'd');
    assert("csv"@.len() == 3 && "csv"@[0] == 'c' && "csv"@[1] == 's');
    assert("json"@.len() == 4 && "json"@[0] == 'j' && "json"@[1] == 's');
    assert("zip"@.len() == 3 && "zip"@[0] == 'z' && "zip"@[1] == 'i');
    assert("html"@.len() == 4 && "html"@[0] == 'h' && "html"@[1] == 't');
    assert("htm"@.len() == 3 && "htm"@[0] == 'h' && "htm"@[1] == 't');
    if !e.contains('.') {
        lemma_guess_mime_of(n, e);
    }
    if !n.contains('.') {
        crate::text::lemma_index_after_last_bound(n, '.');
        if index_after_last(n, '.') > 0 {
            assert(n.contains(n[index_after_last(n, '.') - 1]));
        }
    }
}

} // verus!
