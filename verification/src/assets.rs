//! The embedded static files: which file a request asks for, its media
//! type, and how long browsers may cache it.
use vstd::prelude::*;
use crate::text::{chars_of, chars_eq, seq_starts_with, split_char, split_chars, str_eq, string_of, sub_chars, matches_at_exec};

verus! {

broadcast use vstd::string::group_string_axioms;

/// The embedded static files (their contents are bundled by the server).
pub struct Assets;

/// The leading `/` characters of `s` removed.
pub open spec fn trim_slashes(s: Seq<char>) -> Seq<char>
    decreases s.len(),
{
    if s.len() > 0 && s[0] == '/' {
        trim_slashes(s.drop_first())
    } else {
        s
    }
}

/// The file asked for by a request path: without leading slashes and
/// without a `static/` prefix; `index.html` for the root.
pub open spec fn asset_path_of(uri: Seq<char>) -> Seq<char> {
    let p = trim_slashes(uri);
    let q = if seq_starts_with(p, "static/"@) { p.skip(7) } else { p };
    if q.len() == 0 {
        "index.html"@
    } else {
        q
    }
}

/// The file asked for by a request path (see [`asset_path_of`]).
pub fn asset_path(uri: &str) -> (r: String)
    ensures
        r@ == asset_path_of(uri@),
{
    let u = chars_of(uri);
    let mut b: usize = 0;
    assert(u@.skip(0) =~= u@);
    while b < u.len() && u[b] == '/'
        invariant
            b <= u@.len(),
            trim_slashes(u@) == trim_slashes(u@.skip(b as int)),
        decreases u@.len() - b,
    {
        assert(u@.skip(b as int).drop_first() =~= u@.skip(b + 1));
        b = b + 1;
    }
    let p = sub_chars(u.as_slice(), b, u.len());
    assert(p@ =~= u@.skip(b as int));
    proof {
        reveal_strlit("static/");
    }
    let pre = chars_of("static/");
    let q = if matches_at_exec(p.as_slice(), pre.as_slice(), 0) {
        let q = sub_chars(p.as_slice(), 7, p.len());
        assert(q@ =~= p@.skip(7));
        q
    } else {
        p
    };
    if q.len() == 0 {
        "index.html".to_owned()
    } else {
        string_of(q.as_slice())
    }
}

/// The extension of a path: what follows its last `.` (the whole path when
/// it has none).
pub open spec fn extension_of(path: Seq<char>) -> Seq<char> {
    split_char(path, '.').last()
}

/// Cache lifetime of stylesheets and scripts (a week).
pub open spec fn cache_css_js() -> Seq<char> {
    "public, max-age=604800"@
}

/// Cache lifetime of images and fonts (30 days).
pub open spec fn cache_img_font() -> Seq<char> {
    "public, max-age=2592000"@
}

/// Cache lifetime of other files (a day).
pub open spec fn cache_default() -> Seq<char> {
    "public, max-age=86400"@
}

/// The `Cache-Control` value for a file: by its extension, a week for
/// `css` and `js`, 30 days for `svg`, `png`, `jpg`, `webp`, `ico`, `woff`
/// and `woff2`, a day otherwise.
pub open spec fn cache_control_of(path: Seq<char>) -> Seq<char> {
    let e = extension_of(path);
    if e == "css"@ || e == "js"@ {
        cache_css_js()
    } else if e == "svg"@ || e == "png"@ || e == "jpg"@ || e == "webp"@ || e == "ico"@ || e == "woff"@
        || e == "woff2"@ {
        cache_img_font()
    } else {
        cache_default()
    }
}

/// The `Cache-Control` value for a file (see [`cache_control_of`]).
pub fn cache_control_for(path: &str) -> (r: &'static str)
    ensures
        r@ == cache_control_of(path@),
{
    let pv = chars_of(path);
    let pieces = split_chars(pv.as_slice(), '.');
    let e = string_of(pieces[pieces.len() - 1].as_slice());
    assert(e@ == extension_of(path@));
    let es = e.as_str();
    if str_eq(es, "css") || str_eq(es, "js") {
        "public, max-age=604800"
    } else if str_eq(es, "svg") || str_eq(es, "png") || str_eq(es, "jpg") || str_eq(es, "webp")
        || str_eq(es, "ico") || str_eq(es, "woff") || str_eq(es, "woff2") {
        "public, max-age=2592000"
    } else {
        "public, max-age=86400"
    }
}

/// The media type `mime_guess` gives a path (by its extension), with
/// `application/octet-stream` when it knows none.
pub uninterp spec fn spec_mime_of(path: Seq<char>) -> Seq<char>;

/// `mime_guess::from_path(..).first_or_octet_stream()`, as text: named
/// `spec_mime_of`.
#[verifier::external_body]
fn mime_of(path: &str) -> (r: String)
    ensures
        r@ == spec_mime_of(path@),
{
    mime_guess::from_path(path).first_or_octet_stream().as_ref().to_string()
}

/// The media type of a file (see [`spec_mime_of`]).
pub fn content_type_for(path: &str) -> (r: String)
    ensures
        r@ == spec_mime_of(path@),
{
    mime_of(path)
}

} // verus!
