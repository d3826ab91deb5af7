//! How the shell is served.
//!
//! There is no build step and nothing is fetched at first paint, which matters
//! because the tailnet may be the only route available and the machine may
//! already be struggling.

use crate::text;
use vstd::prelude::*;

verus! {

/// What stands behind the last dot of a path.
pub open spec fn extension(path: Seq<char>) -> Option<Seq<char>> {
    match text::rsplit_once(path, '.') {
        Some((_, e)) => Some(e),
        None => None,
    }
}

/// The content type of an asset.
pub open spec fn mime_of(path: Seq<char>) -> Seq<char> {
    match extension(path) {
        Some(e) => if e == "html"@ {
            "text/html; charset=utf-8"@
        } else if e == "js"@ {
            "text/javascript; charset=utf-8"@
        } else if e == "css"@ {
            "text/css; charset=utf-8"@
        } else if e == "svg"@ {
            "image/svg+xml"@
        } else if e == "woff2"@ {
            "font/woff2"@
        } else if e == "png"@ {
            "image/png"@
        } else {
            "application/octet-stream"@
        },
        None => "application/octet-stream"@,
    }
}

/// The content type of an asset.
pub fn mime(path: &str) -> (r: &'static str)
    ensures
        r@ == mime_of(path@),
{
    match text::split_last(path, '.') {
        Some((_, ext)) => {
            let e = ext.as_str();
            if text::same(e, "html") {
                "text/html; charset=utf-8"
            } else if text::same(e, "js") {
                "text/javascript; charset=utf-8"
            } else if text::same(e, "css") {
                "text/css; charset=utf-8"
            } else if text::same(e, "svg") {
                "image/svg+xml"
            } else if text::same(e, "woff2") {
                "font/woff2"
            } else if text::same(e, "png") {
                "image/png"
            } else {
                "application/octet-stream"
            }
        },
        None => "application/octet-stream",
    }
}

/// How long an asset may be kept. The shell itself must not be: a new build
/// should take effect on reload rather than leaving the operator on a stale one.
/// Vendored assets do not change and are kept for long.
pub fn cache_control(path: &str) -> (r: &'static str)
    ensures
        r@ == (if text::ends(path@, ".html"@) {
            "no-cache"@
        } else {
            "public, max-age=604800, immutable"@
        }),
{
    if text::ends_with(path, ".html") {
        "no-cache"
    } else {
        "public, max-age=604800, immutable"
    }
}

/// The page that is served at the root.
pub fn index() -> (r: &'static str)
    ensures
        r@ == "shell.html"@,
{
    "shell.html"
}

/// An asset is served as what its extension says, which follows its last point;
/// one that says nothing known is bytes.
pub proof fn an_asset_is_served_as_its_extension_says(stem: Seq<char>, e: Seq<char>, bare: Seq<char>)
    requires
        !e.contains('.'),
        !bare.contains('.'),
    ensures
        ({
            let m = mime_of(stem + "."@ + e);
            &&& e == "html"@ ==> m == "text/html; charset=utf-8"@
            &&& e == "js"@ ==> m == "text/javascript; charset=utf-8"@
            &&& e == "css"@ ==> m == "text/css; charset=utf-8"@
            &&& e == "svg"@ ==> m == "image/svg+xml"@
            &&& e == "woff2"@ ==> m == "font/woff2"@
            &&& e == "png"@ ==> m == "image/png"@
            &&& e != "html"@ && e != "js"@ && e != "css"@ && e != "svg"@ && e != "woff2"@ && e != "png"@ ==> m == "application/octet-stream"@
            &&& mime_of(bare) == "application/octet-stream"@
        }),
{
    reveal_strlit("html");
    assert("html"@.len() == 4 && "html"@[0] == 'h' && "html"@[1] == 't' && "html"@[2] == 'm' && "html"@[3] == 'l');
    reveal_strlit("js");
    assert("js"@.len() == 2 && "js"@[0] == 'j' && "js"@[1] == 's');
    reveal_strlit("css");
    assert("css"@.len() == 3 && "css"@[0] == 'c' && "css"@[1] == 's' && "css"@[2] == 's');
    reveal_strlit("svg");
    assert("svg"@.len() == 3 && "svg"@[0] == 's' && "svg"@[1] == 'v' && "svg"@[2] == 'g');
    reveal_strlit("woff2");
    assert("woff2"@.len() == 5 && "woff2"@[0] == 'w' && "woff2"@[1] == 'o' && "woff2"@[2] == 'f' && "woff2"@[3] == 'f' && "woff2"@[4] == '2');
    reveal_strlit("png");
    assert("png"@.len() == 3 && "png"@[0] == 'p' && "png"@[1] == 'n' && "png"@[2] == 'g');
    reveal_strlit(".");
    let s = stem + "."@ + e;
    let n = stem.len() as int;
    assert(s[n] == '.');
    assert forall|j: int| n < j < s.len() implies s[j] != '.' by {
        assert(s[j] == e[j - n - 1]);
        assert(e.contains(e[j - n - 1]));
    }
    text::lemma_rpos_is(s, '.', n);
    assert(s.skip(n + 1) =~= e);
    text::lemma_rpos(bare, '.');
    let k = text::rpos(bare, '.');
    if k >= 0 {
        assert(bare.contains(bare[k]));
    }
}

} // verus!
