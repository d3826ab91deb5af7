//! Reverse proxy for locally-running apps.
//!
//! A facet declares a port, and Prism serves that app at `/facet/<id>/`. The
//! point is not the routing — it is that any self-hosted interface becomes a
//! Prism window with no UI code, behind the same authentication and reachable
//! on the same single tailnet port.
//!
//! ## The base-path problem, stated honestly
//!
//! An app served at `/facet/comfyui/` that emits absolute URLs like
//! `/assets/app.js` will request them from Prism's root and get a 404. There is
//! no general fix — rewriting arbitrary JavaScript is not something to attempt.
//!
//! What is done instead:
//!
//! * `<base href>` is injected into HTML responses, which resolves *relative*
//!   URLs correctly and is enough for many apps;
//! * `Location` headers on redirects are rewritten back under the prefix;
//! * cookies are scoped to the prefix, and lose the flag that would have the
//!   browser discard them.
//!
//! What is here decides; whoever holds the connections forwards.

use crate::config;
use crate::config::Facet;
use crate::text;
use vstd::prelude::*;

verus! {

// ---------------------------------------------------------------------------
// Headers
// ---------------------------------------------------------------------------

/// Headers that describe a single network hop and must not be forwarded.
pub open spec fn hop_names() -> Seq<Seq<char>> {
    seq![
        "connection"@,
        "keep-alive"@,
        "proxy-authenticate"@,
        "proxy-authorization"@,
        "te"@,
        "trailers"@,
        "transfer-encoding"@,
        "upgrade"@,
    ]
}

/// Headers that describe a single network hop and must not be forwarded.
///
/// Passing `Connection` or `Upgrade` through would confuse the downstream app
/// about a connection it is not party to.
pub fn hop_by_hop() -> (r: [&'static str; 8])
    ensures
        text::lits(r@) == hop_names(),
{
    let names = [
        "connection",
        "keep-alive",
        "proxy-authenticate",
        "proxy-authorization",
        "te",
        "trailers",
        "transfer-encoding",
        "upgrade",
    ];
    assert(text::lits(names@) =~= hop_names());
    names
}

/// Whether a header of the app's answer goes back to the browser. Names are in
/// lower case.
pub fn goes_back(name: &str) -> (r: bool)
    ensures
        r == !hop_names().contains(name@),
{
    let names = hop_by_hop();
    !text::among(name, names.as_slice())
}

/// Whether a header of a request goes on to the app, which sees a request from
/// Prism: what the browser named as the host is of no concern to it.
pub fn goes_on(name: &str) -> (r: bool)
    ensures
        r == (!hop_names().contains(name@) && name@ != "host"@),
{
    goes_back(name) && !text::same(name, "host")
}

/// Whether an `Upgrade` header asks for a WebSocket.
pub fn is_websocket(upgrade: &str) -> (r: bool)
    ensures
        r == (text::lower(upgrade@) == "websocket"@),
{
    text::same(text::lower_str(upgrade).as_str(), "websocket")
}

/// Whether a content type is HTML.
pub fn is_html(content_type: &str) -> (r: bool)
    ensures
        r == text::starts(content_type@, "text/html"@),
{
    text::starts_with(content_type, "text/html")
}

// ---------------------------------------------------------------------------
// Where a request goes
// ---------------------------------------------------------------------------

/// Where a facet's app is served.
pub open spec fn prefix_of(id: Seq<char>) -> Seq<char> {
    "/facet/"@ + id
}

pub fn prefix(id: &str) -> (r: String)
    ensures
        r@ == prefix_of(id@),
{
    let mut out = "/facet/".to_string();
    out.append(id);
    out
}

/// What of a request's path is the app's.
pub open spec fn suffix(raw: Seq<char>, id: Seq<char>) -> Seq<char> {
    match text::after(raw, prefix_of(id)) {
        Some(rest) => text::unslashed(rest),
        None => seq![],
    }
}

/// What of a request's path is the app's, verbatim.
///
/// The path is the raw one. A decoded path silently rewrites the request:
/// ComfyUI addresses a workflow as `userdata/workflows%2FName.json`, and
/// decoding turns that single segment into two, so that the app answers that
/// there is none. Whatever the browser encoded is what the app receives.
pub fn raw_suffix(raw: &str, id: &str) -> (r: String)
    ensures
        r@ == suffix(raw@, id@),
{
    match text::strip_prefix(raw, prefix(id).as_str()) {
        Some(rest) => text::trim_slashes(rest.as_str()),
        None => String::new(),
    }
}

/// A query as it follows a path.
pub open spec fn query_part(query: Option<&str>) -> Seq<char> {
    match query {
        Some(q) => "?"@ + q@,
        None => seq![],
    }
}

/// What is asked of the app.
pub open spec fn target_of(tls: bool, port: u16, path: Seq<char>, query: Option<&str>) -> Seq<char> {
    (if tls {
        "https"@
    } else {
        "http"@
    }) + "://127.0.0.1:"@ + text::dec(port as nat) + "/"@ + path + query_part(query)
}

/// Where a request is forwarded to.
#[derive(Debug)]
pub struct Route {
    pub port: u16,
    pub tls: bool,
    pub target: String,
}

/// Where a request for a facet goes, where the facet exposes a port. An app
/// that was found to want TLS is spoken to in TLS from then on.
pub fn route(
    facets: &Vec<Facet>,
    tls_backends: &Vec<String>,
    id: &str,
    path: &str,
    query: Option<&str>,
) -> (r: Option<Route>)
    ensures
        (match config::the_facet(config::facet_views(facets@), id@) {
            Some(f) => f.expose,
            None => None,
        }) matches Some(e) ==> r is Some && r->0.port == e.port && r->0.tls == (e.tls
            || text::strs(tls_backends@).contains(id@)) && r->0.target@ == target_of(
            r->0.tls,
            e.port,
            path@,
            query,
        ),
        (match config::the_facet(config::facet_views(facets@), id@) {
            Some(f) => f.expose,
            None => None,
        }) is None ==> r is None,
{
    match config::find_facet(facets, id) {
        Some(f) => match f.expose {
            Some(e) => {
                let tls = e.tls || text::any_same(tls_backends, id);
                let mut target = if tls {
                    "https".to_string()
                } else {
                    "http".to_string()
                };
                target.append("://127.0.0.1:");
                text::push_dec(&mut target, e.port as u64);
                target.append("/");
                target.append(path);
                append_query(&mut target, query);
                Some(Route { port: e.port, tls, target })
            },
            None => None,
        },
        None => None,
    }
}

fn append_query(out: &mut String, query: Option<&str>)
    ensures
        final(out)@ == old(out)@ + query_part(query),
{
    match query {
        Some(q) => {
            out.append("?");
            out.append(q);
            assert(out@ =~= old(out)@ + query_part(query));
        },
        None => {
            assert(out@ =~= old(out)@ + query_part(query));
        },
    }
}

/// What is said where a facet has nothing to forward to.
pub fn no_port(id: &str) -> (r: String)
    ensures
        r@ == "facet `"@ + id@ + "` does not expose a port"@,
{
    let mut out = "facet `".to_string();
    out.append(id);
    out.append("` does not expose a port");
    out
}

/// What is said where an app does not answer.
pub fn not_answering(id: &str, port: u16) -> (r: String)
    ensures
        r@ == "`"@ + id@ + "` is not answering on port "@ + text::dec(port as nat),
{
    let mut out = "`".to_string();
    out.append(id);
    out.append("` is not answering on port ");
    text::push_dec(&mut out, port as u64);
    out
}

// ---------------------------------------------------------------------------
// Redirects
// ---------------------------------------------------------------------------

/// What follows an address of the app itself. A longer port is a different
/// service.
pub open spec fn beyond(value: Seq<char>, scheme: Seq<char>, host: Seq<char>, port: u16) -> Option<
    Seq<char>,
> {
    match text::after(value, scheme + "://"@ + host + ":"@ + text::dec(port as nat)) {
        Some(rest) => if rest.len() > 0 && text::is_digit(rest[0]) {
            None
        } else {
            Some(rest)
        },
        None => None,
    }
}

fn is_beyond(value: &str, scheme: &str, host: &str, port: u16) -> (r: Option<String>)
    ensures
        text::opt(r) == beyond(value@, scheme@, host@, port),
{
    let mut origin = scheme.to_string();
    origin.append("://");
    origin.append(host);
    origin.append(":");
    text::push_dec(&mut origin, port as u64);
    match text::strip_prefix(value, origin.as_str()) {
        Some(rest) => {
            let v = text::chars_of(rest.as_str());
            if v.len() > 0 && '0' <= v[0] && v[0] <= '9' {
                None
            } else {
                Some(rest)
            }
        },
        None => None,
    }
}

/// What follows any address of the app itself.
pub open spec fn beyond_any(value: Seq<char>, port: u16) -> Option<Seq<char>> {
    if beyond(value, "http"@, "127.0.0.1"@, port) is Some {
        beyond(value, "http"@, "127.0.0.1"@, port)
    } else if beyond(value, "http"@, "localhost"@, port) is Some {
        beyond(value, "http"@, "localhost"@, port)
    } else if beyond(value, "http"@, "[::1]"@, port) is Some {
        beyond(value, "http"@, "[::1]"@, port)
    } else if beyond(value, "https"@, "127.0.0.1"@, port) is Some {
        beyond(value, "https"@, "127.0.0.1"@, port)
    } else if beyond(value, "https"@, "localhost"@, port) is Some {
        beyond(value, "https"@, "localhost"@, port)
    } else {
        beyond(value, "https"@, "[::1]"@, port)
    }
}

fn is_beyond_any(value: &str, port: u16) -> (r: Option<String>)
    ensures
        text::opt(r) == beyond_any(value@, port),
{
    match is_beyond(value, "http", "127.0.0.1", port) {
        Some(rest) => return Some(rest),
        None => {},
    }
    match is_beyond(value, "http", "localhost", port) {
        Some(rest) => return Some(rest),
        None => {},
    }
    match is_beyond(value, "http", "[::1]", port) {
        Some(rest) => return Some(rest),
        None => {},
    }
    match is_beyond(value, "https", "127.0.0.1", port) {
        Some(rest) => return Some(rest),
        None => {},
    }
    match is_beyond(value, "https", "localhost", port) {
        Some(rest) => return Some(rest),
        None => {},
    }
    is_beyond(value, "https", "[::1]", port)
}

/// What follows a path without making another path of it: nothing, something
/// below it, a query or a fragment.
pub open spec fn continues(rest: Seq<char>) -> bool {
    rest.len() == 0 || rest[0] == '/' || rest[0] == '?' || rest[0] == '#'
}

/// A `Location` that is already under the prefix. `/facet/apple` is not under
/// `/facet/app`.
pub open spec fn covered(value: Seq<char>, prefix: Seq<char>) -> bool {
    match text::after(value, prefix) {
        Some(rest) => continues(rest),
        None => false,
    }
}

fn is_covered(value: &str, prefix: &str) -> (r: bool)
    ensures
        r == covered(value@, prefix@),
{
    match text::strip_prefix(value, prefix) {
        Some(rest) => {
            let v = text::chars_of(rest.as_str());
            v.len() == 0 || v[0] == '/' || v[0] == '?' || v[0] == '#'
        },
        None => false,
    }
}

/// A `Location` brought back under the prefix; none where it is left alone.
pub open spec fn relocated(value: Seq<char>, prefix: Seq<char>, port: u16) -> Option<Seq<char>> {
    if value.len() > 0 && value[0] == '/' {
        if covered(value, prefix) {
            None
        } else {
            Some(prefix + value)
        }
    } else {
        match beyond_any(value, port) {
            Some(rest) => Some(
                prefix + (if rest.len() == 0 {
                    "/"@
                } else {
                    rest
                }),
            ),
            None => None,
        }
    }
}

/// Bring a `Location` header back under the proxy prefix.
///
/// Returns `None` when the header should be left alone: an absolute redirect to
/// somewhere else entirely is the app's business, and rewriting it would break
/// an OAuth flow or a link out.
pub fn rewrite_location(value: &str, prefix: &str, port: u16) -> (r: Option<String>)
    ensures
        text::opt(r) == relocated(value@, prefix@, port),
{
    let v = text::chars_of(value);
    // Root-relative: prepend the prefix.
    if v.len() > 0 && v[0] == '/' {
        if is_covered(value, prefix) {
            return None;  // already correct
        }
        let mut out = prefix.to_string();
        out.append(value);
        return Some(out);
    }
    // Absolute, pointing back at the app's own loopback address. The browser
    // cannot reach that, so it must be folded back under the prefix.

    match is_beyond_any(value, port) {
        Some(rest) => {
            let mut out = prefix.to_string();
            if rest.as_str().is_empty() {
                out.append("/");
            } else {
                out.append(rest.as_str());
            }
            Some(out)
        },
        None => None,
    }
}

/// What is done with an answer of the app.
#[derive(Debug)]
pub enum Answer {
    /// The app wants TLS: remember that, and have the browser ask again here.
    /// 307 preserves the method and body, so that a POST that led to the
    /// discovery is replayed rather than silently downgraded to a GET.
    Again { here: String },
    /// The answer is passed on, its `Location` replaced where one is given.
    Pass { location: Option<String> },
}

pub enum AnswerView {
    Again { here: Seq<char> },
    Pass { location: Option<Seq<char>> },
}

impl View for Answer {
    type V = AnswerView;

    open spec fn view(&self) -> AnswerView {
        match *self {
            Answer::Again { here } => AnswerView::Again { here: here@ },
            Answer::Pass { location } => AnswerView::Pass { location: text::opt(location) },
        }
    }
}

/// An app that redirects to HTTPS on its own port is telling that it wants TLS.
pub open spec fn wants_tls(redirection: bool, location: Option<&str>, port: u16) -> bool {
    redirection && location is Some && beyond(location->0@, "https"@, "127.0.0.1"@, port) is Some
}

/// What is done with an answer: see [`Answer`].
pub open spec fn answered(
    tls: bool,
    redirection: bool,
    location: Option<&str>,
    prefix: Seq<char>,
    port: u16,
    path: Seq<char>,
    query: Option<&str>,
) -> AnswerView {
    if !tls && wants_tls(redirection, location, port) {
        AnswerView::Again { here: prefix + "/"@ + path + query_part(query) }
    } else {
        AnswerView::Pass {
            location: match location {
                Some(l) => relocated(l@, prefix, port),
                None => None,
            },
        }
    }
}

/// Decide what becomes of an answer.
///
/// A redirect must land inside the proxy, not at Prism's root and not at the
/// app's own address — which the browser cannot reach anyway, since the app is
/// bound to loopback on the host.
pub fn on_answer(
    tls: bool,
    redirection: bool,
    location: Option<&str>,
    prefix: &str,
    port: u16,
    path: &str,
    query: Option<&str>,
) -> (r: Answer)
    ensures
        r@ == answered(tls, redirection, location, prefix@, port, path@, query),
{
    match location {
        Some(l) => {
            if !tls && redirection && is_beyond(l, "https", "127.0.0.1", port).is_some() {
                let mut here = prefix.to_string();
                here.append("/");
                here.append(path);
                append_query(&mut here, query);
                return Answer::Again { here };
            }
            Answer::Pass { location: rewrite_location(l, prefix, port) }
        },
        None => Answer::Pass { location: None },
    }
}

// ---------------------------------------------------------------------------
// Cookies
// ---------------------------------------------------------------------------

/// A path that is `base` or lies below it. `/facet/apple` does not lie below
/// `/facet/app`.
pub open spec fn at_or_below(path: Seq<char>, base: Seq<char>) -> bool {
    text::starts(path, base) && (path.len() == base.len() || path[base.len() as int] == '/')
}

fn is_at_or_below(path: &str, base: &str) -> (r: bool)
    ensures
        r == at_or_below(path@, base@),
{
    let p = text::chars_of(path);
    let b = text::chars_of(base);
    text::is_at(p.as_slice(), b.as_slice(), 0) && (p.len() == b.len() || p[b.len()] == '/')
}

/// A cookie's path moved under the prefix. No trailing slash: a cookie-path of
/// `/facet/app/` does not match a request for `/facet/app`, while `/facet/app`
/// matches both it and everything beneath. A relative path is not something a
/// cookie should carry; it is scoped to the app rather than guessed at.
pub open spec fn scoped(path: Seq<char>, prefix: Seq<char>) -> Seq<char> {
    if at_or_below(path, prefix) {
        path
    } else if path != "/"@ && path.len() > 0 && path[0] == '/' {
        prefix + path
    } else {
        prefix
    }
}

pub open spec fn is_path(attribute: Seq<char>) -> bool {
    text::starts(text::lower(attribute), "path="@)
}

pub open spec fn is_secure(attribute: Seq<char>) -> bool {
    text::lower(attribute) == "secure"@
}

/// What becomes of an attribute of a cookie: `Secure` goes, a path is moved,
/// and anything else stays.
pub open spec fn attribute(a: Seq<char>, prefix: Seq<char>) -> Seq<Seq<char>> {
    if is_secure(a) {
        seq![]
    } else if is_path(a) {
        seq!["Path="@ + scoped(text::trim(a.skip(5)), prefix)]
    } else {
        seq![a]
    }
}

/// What becomes of the first `n` parts of a cookie: the first is the name and
/// value, and never touched.
pub open spec fn kept(parts: Seq<Seq<char>>, prefix: Seq<char>, n: int) -> Seq<Seq<char>>
    decreases n,
{
    if n <= 0 {
        seq![]
    } else if n == 1 {
        seq![text::trim(parts[0])]
    } else {
        kept(parts, prefix, n - 1) + attribute(text::trim(parts[n - 1]), prefix)
    }
}

/// One of the first `n` parts, but for the name and value, is a path.
pub open spec fn names_path(parts: Seq<Seq<char>>, n: int) -> bool {
    exists|i: int| 1 <= i < n && is_path(text::trim(#[trigger] parts[i])) && !is_secure(
        text::trim(parts[i]),
    )
}

/// The parts of a cookie, adjusted. Without an explicit path a cookie is only
/// sent to the directory of the request that set it; scoping it to the prefix
/// restores the app's own assumption of a whole site.
pub open spec fn adjusted(parts: Seq<Seq<char>>, prefix: Seq<char>) -> Seq<Seq<char>> {
    let k = kept(parts, prefix, parts.len() as int);
    if names_path(parts, parts.len() as int) {
        k
    } else {
        k.push("Path="@ + prefix)
    }
}

/// A `Set-Cookie` header, adjusted.
pub open spec fn rewritten(cookie: Seq<char>, prefix: Seq<char>) -> Seq<char> {
    text::join(adjusted(text::split(cookie, ';'), prefix), "; "@)
}

/// Adjust a `Set-Cookie` header for the proxy.
///
/// **`Secure`.** An app reached over HTTPS sets `Secure` on its session cookie.
/// Prism serves over plain HTTP on the tailnet, so the browser would discard it:
/// the login succeeds, the cookie never lands, and the next request is
/// unauthenticated.
///
/// **`Path`.** A cookie scoped to `/rest` would never be sent to
/// `/facet/<id>/rest`. Paths are moved under the prefix so they still match.
pub fn rewrite_cookie(cookie: &str, prefix: &str) -> (r: String)
    ensures
        r@ == rewritten(cookie@, prefix@),
{
    let parts = text::split_str(cookie, ';');
    let ghost all = text::split(cookie@, ';');
    let mut out: Vec<String> = Vec::new();
    let mut saw_path = false;
    let mut i: usize = 0;
    assert(text::strs(out@) =~= kept(all, prefix@, 0));
    proof {
        reveal_strlit("path=");
    }
    while i < parts.len()
        invariant
            i <= parts.len(),
            all == text::strs(parts@),
            text::strs(out@) == kept(all, prefix@, i as int),
            saw_path == names_path(all, i as int),
            "path="@.len() == 5,
        decreases parts.len() - i,
    {
        let trimmed = text::trim_str(parts[i].as_str());
        let ghost before = out@;
        let ghost a = text::trim(all[i as int]);
        assert(all[i as int] == parts@[i as int]@);
        assert(names_path(all, i + 1) == (names_path(all, i as int) || (i >= 1 && is_path(a)
            && !is_secure(a)))) by {
            if names_path(all, i + 1) {
                let j = choose|j: int|
                    1 <= j < i + 1 && is_path(text::trim(#[trigger] all[j])) && !is_secure(
                        text::trim(all[j]),
                    );
                assert(j < i || j == i);
            }
            if names_path(all, i as int) {
                let j = choose|j: int|
                    1 <= j < i && is_path(text::trim(#[trigger] all[j])) && !is_secure(
                        text::trim(all[j]),
                    );
                assert(1 <= j < i + 1);
            }
        }
        if i == 0 {
            out.push(trimmed);
            assert(text::strs(out@) =~= kept(all, prefix@, 1));
        } else {
            let lower = text::lower_str(trimmed.as_str());
            if text::same(lower.as_str(), "secure") {
                assert(text::strs(out@) =~= kept(all, prefix@, i + 1));
            } else if text::starts_with(lower.as_str(), "path=") {
                saw_path = true;
                let v = text::chars_of(trimmed.as_str());
                assert(v@.len() == text::lower(a).len());
                let tail = text::string_from(v.as_slice(), 5, v.len());
                assert(tail@ =~= a.skip(5));
                let path = text::trim_str(tail.as_str());
                let mut attr = "Path=".to_string();
                let w = text::chars_of(path.as_str());
                if is_at_or_below(path.as_str(), prefix) {
                    attr.append(path.as_str());
                } else if !text::same(path.as_str(), "/") && w.len() > 0 && w[0] == '/' {
                    attr.append(prefix);
                    attr.append(path.as_str());
                } else {
                    attr.append(prefix);
                }
                assert(attr@ =~= "Path="@ + scoped(text::trim(a.skip(5)), prefix@));
                out.push(attr);
                assert(text::strs(out@) =~= text::strs(before) + attribute(a, prefix@));
            } else {
                out.push(trimmed);
                assert(text::strs(out@) =~= text::strs(before) + attribute(a, prefix@));
            }
        }
        i += 1;
    }
    if !saw_path {
        let mut attr = "Path=".to_string();
        attr.append(prefix);
        proof {
            text::lemma_strs_push(out@, attr);
        }
        out.push(attr);
    }
    text::join_strs(&out, "; ")
}

/// Every `Set-Cookie` header of an answer, adjusted.
pub fn rewrite_cookies(cookies: &Vec<String>, prefix: &str) -> (r: Vec<String>)
    ensures
        text::strs(r@) == text::strs(cookies@).map_values(
            |c: Seq<char>| rewritten(c, prefix@),
        ),
{
    let mut out: Vec<String> = Vec::new();
    let ghost f = |c: Seq<char>| rewritten(c, prefix@);
    let mut i: usize = 0;
    assert(text::strs(out@) =~= text::strs(cookies@).take(0).map_values(f));
    while i < cookies.len()
        invariant
            i <= cookies.len(),
            f == (|c: Seq<char>| rewritten(c, prefix@)),
            text::strs(out@) == text::strs(cookies@).take(i as int).map_values(f),
        decreases cookies.len() - i,
    {
        let c = rewrite_cookie(cookies[i].as_str(), prefix);
        proof {
            text::lemma_strs_push(out@, c);
            assert(text::strs(cookies@)[i as int] == cookies@[i as int]@);
        }
        out.push(c);
        i += 1;
        assert(text::strs(out@) =~= text::strs(cookies@).take(i as int).map_values(f));
    }
    assert(text::strs(cookies@).take(i as int) =~= text::strs(cookies@));
    out
}

// ---------------------------------------------------------------------------
// The base of a document
// ---------------------------------------------------------------------------

/// The element that tells a document where it is served.
pub open spec fn base_tag(prefix: Seq<char>) -> Seq<char> {
    "<base href=\""@ + prefix + "/\">"@
}

/// White space, as it separates the name of a tag from its attributes.
pub open spec fn is_blank(c: char) -> bool {
    c == ' ' || c == '\t' || c == '\n' || c == '\r' || c == '\x0c'
}

/// The tag that opens the head stands at `i`, in whatever case: its name ends
/// there, so that `<header>` is none.
pub open spec fn opens_head(t: Seq<char>, i: int) -> bool {
    &&& text::at(text::lower(t), "<head"@, i)
    &&& i + 5 < t.len()
    &&& t[i + 5] == '>' || is_blank(t[i + 5])
}

/// The first place, from `i` on, where the head is opened.
pub open spec fn head_from(t: Seq<char>, i: int) -> Option<int>
    decreases t.len() - i,
{
    if i >= t.len() {
        None
    } else if opens_head(t, i) {
        Some(i)
    } else {
        head_from(t, i + 1)
    }
}

/// Just behind the tag that opens the head of a document, if it has one.
pub open spec fn head_end(t: Seq<char>) -> Option<int> {
    match head_from(t, 0) {
        Some(h) => {
            let p = h + text::pos(t.skip(h), '>');
            if p < t.len() {
                Some(p + 1)
            } else {
                None
            }
        },
        None => None,
    }
}

proof fn lemma_head_from(t: Seq<char>, i: int)
    requires
        0 <= i,
    ensures
        head_from(t, i) matches Some(h) ==> i <= h < t.len() && opens_head(t, h) && forall|j: int|
            i <= j < h ==> !#[trigger] opens_head(t, j),
        head_from(t, i) is None ==> forall|j: int| i <= j ==> !#[trigger] opens_head(t, j),
    decreases t.len() - i,
{
    if i < t.len() && !opens_head(t, i) {
        lemma_head_from(t, i + 1);
    }
}

fn find_head(v: &[char]) -> (r: Option<usize>)
    ensures
        r matches Some(h) ==> h < v@.len() && head_from(v@, 0) == Some(h as int),
        r is None ==> head_from(v@, 0) is None,
{
    let lower = text::lower_chars(v);
    let head = text::chars_of("<head");
    let mut i: usize = 0;
    proof {
        reveal_strlit("<head");
    }
    while i < v.len()
        invariant
            i <= v@.len(),
            lower@ == text::lower(v@),
            lower@.len() == v@.len(),
            head@ == "<head"@,
            head@.len() == 5,
            head_from(v@, 0) == head_from(v@, i as int),
        decreases v.len() - i,
    {
        if text::is_at(lower.as_slice(), head.as_slice(), i) && v.len() - i > 5 {
            let c = v[i + 5];
            if c == '>' || c == ' ' || c == '\t' || c == '\n' || c == '\r' || c == '\x0c' {
                return Some(i);
            }
        }
        i += 1;
    }
    None
}

/// A document told where it is served: none where it says so itself, or where
/// it has no head.
pub open spec fn based(t: Seq<char>, prefix: Seq<char>) -> Option<Seq<char>> {
    if text::within(t, "<base "@) {
        None
    } else {
        match head_end(t) {
            Some(i) => Some(t.take(i) + base_tag(prefix) + t.skip(i)),
            None => None,
        }
    }
}

/// Insert `<base href="/facet/<id>/">` so the app's relative URLs resolve.
///
/// Placed immediately after `<head>` so it precedes any resource the document
/// references — a `<base>` that appears after a `<script src>` has no effect on
/// it. A document with no `<head>` is left alone rather than guessed at.
pub fn inject_into(html: &str, prefix: &str) -> (r: Option<String>)
    ensures
        text::opt(r) == based(html@, prefix@),
{
    if text::contains(html, "<base ") {
        return None;
    }
    let v = text::chars_of(html);
    match find_head(v.as_slice()) {
        Some(h) => {
            let close: usize = text::pos_from(v.as_slice(), '>', h);
            if close >= v.len() {
                return None;
            }
            let mut out = text::string_from(v.as_slice(), 0, close + 1);
            out.append("<base href=\"");
            out.append(prefix);
            out.append("/\">");
            let rest = text::string_from(v.as_slice(), close + 1, v.len());
            out.append(rest.as_str());
            proof {
                let i = close + 1;
                assert(html@.subrange(0, i) =~= html@.take(i));
                assert(rest@ =~= html@.skip(i));
                assert(out@ =~= html@.take(i) + base_tag(prefix@) + html@.skip(i));
            }
            Some(out)
        },
        None => None,
    }
}

/// As [`inject_into`], on the bytes of an answer: they are handed back as they
/// are where there is nothing to insert.
pub fn inject_base(html: &[u8], prefix: &str) -> (r: Vec<u8>)
    ensures
        r@ == (match based(text::lossy(html@), prefix@) {
            Some(t) => vstd::utf8::encode_utf8(t),
            None => html@,
        }),
{
    let t = text::from_utf8_lossy(html);
    match inject_into(t.as_str(), prefix) {
        Some(out) => vstd::slice::slice_to_vec(out.as_str().as_bytes()),
        None => vstd::slice::slice_to_vec(html),
    }
}

// ---------------------------------------------------------------------------
// Laws
// ---------------------------------------------------------------------------

/// Whatever the browser put after the slash is what the app receives, encoded
/// as it was.
pub proof fn the_path_is_forwarded_verbatim(id: Seq<char>, path: Seq<char>)
    requires
        path.len() == 0 || path[0] != '/',
    ensures
        suffix(prefix_of(id) + "/"@ + path, id) == path,
        suffix(prefix_of(id), id) == Seq::<char>::empty(),
{
    reveal_strlit("/");
    let p = prefix_of(id);
    let raw = p + "/"@ + path;
    assert(raw.subrange(0, p.len() as int) =~= p);
    let rest = raw.skip(p.len() as int);
    assert(rest =~= "/"@ + path);
    assert(rest.skip(1) =~= path);
    assert(rest[0] == '/');
    assert(text::unslashed(rest) == text::unslashed(path));
    assert(text::unslashed(path) == path);
    assert(p.subrange(0, p.len() as int) =~= p);
    assert(p.skip(p.len() as int) =~= Seq::<char>::empty());
}

/// A redirect that is rewritten lands under the prefix, and is left alone from
/// then on. An address whose port is followed by anything but a path, a query or
/// a fragment is no address, and not spoken of.
pub proof fn a_redirect_is_rewritten_once(value: Seq<char>, prefix: Seq<char>, port: u16)
    requires
        prefix.len() > 0,
        prefix[0] == '/',
        (value.len() > 0 && value[0] == '/') || (beyond_any(value, port) matches Some(rest)
            ==> continues(rest)),
    ensures
        relocated(value, prefix, port) matches Some(l) ==> covered(l, prefix) && relocated(
            l,
            prefix,
            port,
        ) is None,
{
    if let Some(l) = relocated(value, prefix, port) {
        reveal_strlit("/");
        assert(l.subrange(0, prefix.len() as int) =~= prefix);
        assert(l[0] == '/');
        assert(l =~= prefix + l.skip(prefix.len() as int));
        assert(continues(l.skip(prefix.len() as int)));
    }
}

/// What stays as it is although it starts at the root is the prefix itself, or
/// continues it.
pub proof fn only_what_is_covered_is_left(value: Seq<char>, prefix: Seq<char>, port: u16)
    requires
        value.len() > 0,
        value[0] == '/',
    ensures
        relocated(value, prefix, port) is None <==> covered(value, prefix),
        covered(value, prefix) ==> exists|rest: Seq<char>|
            value == prefix + rest && #[trigger] continues(rest),
{
    if covered(value, prefix) {
        let rest = value.skip(prefix.len() as int);
        assert(value =~= prefix + rest);
        assert(continues(rest));
    }
}

/// No cookie keeps an attribute that would have the browser discard it.
pub proof fn no_cookie_stays_secure(parts: Seq<Seq<char>>, prefix: Seq<char>, i: int)
    requires
        1 <= i < adjusted(parts, prefix).len(),
        parts.len() > 0,
    ensures
        !is_secure(adjusted(parts, prefix)[i]),
{
    lemma_kept(parts, prefix, parts.len() as int);
    let k = kept(parts, prefix, parts.len() as int);
    if i >= k.len() {
        lemma_path_is_not_secure(prefix);
    }
}

proof fn lemma_path_is_not_secure(rest: Seq<char>)
    ensures
        !is_secure("Path="@ + rest),
{
    reveal_strlit("Path=");
    reveal_strlit("secure");
    let a = "Path="@ + rest;
    if is_secure(a) {
        assert(text::lower(a)[0] == text::lower_char('P'));
        assert("secure"@[0] == 's');
        assert(text::lower_char('P') == 'p');
    }
}

proof fn lemma_kept(parts: Seq<Seq<char>>, prefix: Seq<char>, n: int)
    requires
        1 <= n <= parts.len(),
    ensures
        kept(parts, prefix, n).len() >= 1,
        kept(parts, prefix, n)[0] == text::trim(parts[0]),
        forall|i: int|
            1 <= i < kept(parts, prefix, n).len() ==> !is_secure(
                #[trigger] kept(parts, prefix, n)[i],
            ),
        forall|i: int|
            1 <= i < kept(parts, prefix, n).len() && is_path(#[trigger] kept(parts, prefix, n)[i])
                ==> at_or_below(kept(parts, prefix, n)[i], "Path="@ + prefix),
        names_path(parts, n) ==> exists|i: int|
            1 <= i < kept(parts, prefix, n).len() && at_or_below(
                #[trigger] kept(parts, prefix, n)[i],
                "Path="@ + prefix,
            ),
    decreases n,
{
    if n > 1 {
        lemma_kept(parts, prefix, n - 1);
        let before = kept(parts, prefix, n - 1);
        let a = text::trim(parts[n - 1]);
        let k = kept(parts, prefix, n);
        assert(k == before + attribute(a, prefix));
        if !is_secure(a) && is_path(a) {
            lemma_path_is_not_secure(scoped(text::trim(a.skip(5)), prefix));
            a_scoped_path_is_under_the_prefix(text::trim(a.skip(5)), prefix);
            let last = k[k.len() - 1];
            assert(last == "Path="@ + scoped(text::trim(a.skip(5)), prefix));
            assert(last.subrange(0, ("Path="@ + prefix).len() as int) =~= "Path="@ + prefix) by {
                let s = scoped(text::trim(a.skip(5)), prefix);
                assert(s.subrange(0, prefix.len() as int) == prefix);
                assert forall|j: int| 0 <= j < prefix.len() implies s[j] == prefix[j] by {
                    assert(s.subrange(0, prefix.len() as int)[j] == prefix[j]);
                }
            }
            assert(at_or_below(k[k.len() - 1], "Path="@ + prefix));
        }
        assert forall|i: int| 1 <= i < k.len() implies !is_secure(#[trigger] k[i]) by {
            if i < before.len() {
                assert(k[i] == before[i]);
            }
        }
        if names_path(parts, n) && !(is_path(a) && !is_secure(a)) {
            let j = choose|j: int|
                1 <= j < n && is_path(text::trim(#[trigger] parts[j])) && !is_secure(
                    text::trim(parts[j]),
                );
            assert(j < n - 1);
            assert(names_path(parts, n - 1));
            let i = choose|i: int|
                1 <= i < before.len() && at_or_below(#[trigger] before[i], "Path="@ + prefix);
            assert(k[i] == before[i]);
        }
        assert forall|i: int| 1 <= i < k.len() && is_path(#[trigger] k[i]) implies at_or_below(
            k[i],
            "Path="@ + prefix,
        ) by {
            if i < before.len() {
                assert(k[i] == before[i]);
            }
        }
    }
}

/// The name and value of a cookie are never touched, it always comes with a
/// path, and every path that it comes with is the prefix or lies below it.
pub proof fn every_cookie_is_scoped(parts: Seq<Seq<char>>, prefix: Seq<char>)
    requires
        parts.len() > 0,
    ensures
        adjusted(parts, prefix)[0] == text::trim(parts[0]),
        exists|i: int|
            1 <= i < adjusted(parts, prefix).len() && at_or_below(
                #[trigger] adjusted(parts, prefix)[i],
                "Path="@ + prefix,
            ),
        forall|i: int|
            1 <= i < adjusted(parts, prefix).len() && is_path(
                #[trigger] adjusted(parts, prefix)[i],
            ) ==> at_or_below(adjusted(parts, prefix)[i], "Path="@ + prefix),
{
    let n = parts.len() as int;
    lemma_kept(parts, prefix, n);
    let k = kept(parts, prefix, n);
    let a = adjusted(parts, prefix);
    let p = "Path="@ + prefix;
    assert(p.subrange(0, p.len() as int) =~= p);
    if names_path(parts, n) {
        let i = choose|i: int| 1 <= i < k.len() && at_or_below(#[trigger] k[i], "Path="@ + prefix);
        assert(a[i] == k[i]);
    } else {
        assert(a[k.len() as int] == p);
        assert(at_or_below(a[k.len() as int], p));
        assert forall|i: int| 1 <= i < a.len() && is_path(#[trigger] a[i]) implies at_or_below(
            a[i],
            p,
        ) by {
            if i < k.len() {
                assert(a[i] == k[i]);
            }
        }
    }
}

/// A path that was moved is the prefix or lies below it, and is left alone from
/// then on.
pub proof fn a_scoped_path_is_under_the_prefix(path: Seq<char>, prefix: Seq<char>)
    ensures
        at_or_below(scoped(path, prefix), prefix),
        scoped(scoped(path, prefix), prefix) == scoped(path, prefix),
{
    let s = scoped(path, prefix);
    assert(s.subrange(0, prefix.len() as int) =~= prefix);
}

/// A document gets its base once: what was told where it is served says so
/// itself.
pub proof fn a_base_is_injected_once(t: Seq<char>, prefix: Seq<char>)
    ensures
        based(t, prefix) matches Some(u) ==> based(u, prefix) is None,
{
    if let Some(u) = based(t, prefix) {
        let i = head_end(t)->0;
        reveal_strlit("<base ");
        reveal_strlit("<base href=\"");
        lemma_head_from(t, 0);
        text::lemma_pos(t.skip(head_from(t, 0)->0), '>');
        assert(u.subrange(i, i + 6) =~= "<base "@);
        assert(text::at(u, "<base "@, i));
    }
}

/// The base stands right behind the tag that opens the head, so that it comes
/// before anything else that the head holds, and nothing else changes.
pub proof fn the_base_comes_first(t: Seq<char>, prefix: Seq<char>)
    ensures
        based(t, prefix) matches Some(u) ==> {
            let i = head_end(t)->0;
            &&& 0 < i <= t.len()
            &&& t[i - 1] == '>'
            &&& u == t.take(i) + base_tag(prefix) + t.skip(i)
            &&& t.take(i) + t.skip(i) == t
            &&& exists|h: int|
                {
                    &&& 0 <= h < i - 1
                    &&& #[trigger] opens_head(t, h)
                    &&& forall|j: int| 0 <= j < h ==> !#[trigger] opens_head(t, j)
                    &&& forall|j: int| h <= j < i - 1 ==> t[j] != '>'
                }
        },
{
    if based(t, prefix) is Some {
        let h = head_from(t, 0)->0;
        lemma_head_from(t, 0);
        text::lemma_pos(t.skip(h), '>');
        let i = head_end(t)->0;
        assert(t.take(i) + t.skip(i) =~= t);
        assert forall|j: int| h <= j < i - 1 implies t[j] != '>' by {
            assert(t.skip(h)[j - h] == t[j]);
        }
        reveal_strlit("<head");
        assert(text::lower(t)[h] == '<') by {
            assert(text::lower(t).subrange(h, h + 5)[0] == "<head"@[0]);
        }
        assert(t[h] != '>');
    }
}

/// A document that opens no head is left alone.
pub proof fn without_a_head_nothing_is_injected(t: Seq<char>, prefix: Seq<char>)
    requires
        forall|i: int| 0 <= i ==> !#[trigger] opens_head(t, i),
    ensures
        based(t, prefix) is None,
{
    lemma_head_from(t, 0);
}

/// An attribute of a cookie that is no concern of a proxy: neither `Secure` nor
/// a path, in whatever case.
pub open spec fn is_other(a: Seq<char>) -> bool {
    let l = text::lower(a);
    l != "secure"@ && !(l.len() >= 5 && l.take(5) == "path="@)
}

proof fn lemma_others_split(a: Seq<Seq<char>>, b: Seq<Seq<char>>)
    ensures
        (a + b).filter(|x: Seq<char>| is_other(x)) == a.filter(|x: Seq<char>| is_other(x))
            + b.filter(|x: Seq<char>| is_other(x)),
    decreases b.len(),
{
    let f = |x: Seq<char>| is_other(x);
    reveal(Seq::filter);
    if b.len() == 0 {
        assert(a + b =~= a);
        assert(a.filter(f) + b.filter(f) =~= a.filter(f));
    } else {
        lemma_others_split(a, b.drop_last());
        assert((a + b).drop_last() =~= a + b.drop_last());
        assert((a + b).last() == b.last());
        assert((a + b).filter(f) =~= a.filter(f) + b.filter(f));
    }
}

proof fn lemma_other_is(a: Seq<char>)
    ensures
        is_other(a) == (!is_secure(a) && !is_path(a)),
{
    reveal_strlit("path=");
    let l = text::lower(a);
    if l.len() >= 5 {
        assert(l.take(5) =~= l.subrange(0, 5));
    }
}

proof fn lemma_a_path_is_not_other(rest: Seq<char>)
    ensures
        !is_other("Path="@ + rest),
{
    reveal_strlit("Path=");
    reveal_strlit("path=");
    let l = text::lower("Path="@ + rest);
    assert(l.take(5) =~= "path="@);
}

proof fn lemma_others_kept(parts: Seq<Seq<char>>, prefix: Seq<char>, n: int)
    requires
        1 <= n <= parts.len(),
    ensures
        kept(parts, prefix, n).len() >= 1,
        kept(parts, prefix, n).skip(1).filter(|a: Seq<char>| is_other(a)) == parts.subrange(
            1,
            n,
        ).map_values(|p: Seq<char>| text::trim(p)).filter(|a: Seq<char>| is_other(a)),
    decreases n,
{
    let f = |a: Seq<char>| is_other(a);
    let t = |p: Seq<char>| text::trim(p);
    reveal(Seq::filter);
    if n == 1 {
        assert(kept(parts, prefix, 1).skip(1) =~= seq![]);
        assert(parts.subrange(1, 1).map_values(t) =~= seq![]);
    } else {
        lemma_others_kept(parts, prefix, n - 1);
        let before = kept(parts, prefix, n - 1);
        let a = text::trim(parts[n - 1]);
        let more = attribute(a, prefix);
        assert(kept(parts, prefix, n).skip(1) =~= before.skip(1) + more);
        assert(parts.subrange(1, n).map_values(t) =~= parts.subrange(1, n - 1).map_values(t)
            + seq![a]);
        lemma_others_split(before.skip(1), more);
        lemma_others_split(parts.subrange(1, n - 1).map_values(t), seq![a]);
        lemma_other_is(a);
        lemma_a_path_is_not_other(scoped(text::trim(a.skip(5)), prefix));
        assert(seq![a].drop_last() =~= seq![]);
        if more.len() == 1 {
            assert(more.drop_last() =~= seq![]);
        }
        assert(more.filter(f) =~= seq![a].filter(f));
    }
}

/// Everything in a cookie that is neither `Secure` nor a path stays as it is and
/// in its order: how long it lasts, which requests it goes with, who may read it.
pub proof fn other_attributes_stay(parts: Seq<Seq<char>>, prefix: Seq<char>)
    requires
        parts.len() > 0,
    ensures
        adjusted(parts, prefix).skip(1).filter(|a: Seq<char>| is_other(a)) == parts.skip(
            1,
        ).map_values(|p: Seq<char>| text::trim(p)).filter(|a: Seq<char>| is_other(a)),
{
    let f = |a: Seq<char>| is_other(a);
    let n = parts.len() as int;
    lemma_others_kept(parts, prefix, n);
    assert(parts.subrange(1, n) =~= parts.skip(1));
    let k = kept(parts, prefix, n);
    let path = seq!["Path="@ + prefix];
    assert(k.push("Path="@ + prefix).skip(1) =~= k.skip(1) + path);
    lemma_others_split(k.skip(1), path);
    lemma_a_path_is_not_other(prefix);
    reveal(Seq::filter);
    let none = Seq::<Seq<char>>::empty();
    assert(none.filter(f) =~= none);
    assert(path.drop_last() =~= none);
    assert(path.last() == "Path="@ + prefix);
    assert(!f(path.last()));
    assert(path.filter(f) =~= none);
    assert(k.skip(1).filter(f) + seq![] =~= k.skip(1).filter(f));
}

/// How a cookie with one attribute more comes out: as without it where it is
/// `Secure`; with the attribute at the end where it is neither that nor a path,
/// before the path where the cookie named none; and with the path moved where it
/// is one, in place of the path that was put there where none was named.
pub proof fn an_attribute_more_is_one_more(
    parts: Seq<Seq<char>>,
    prefix: Seq<char>,
    more: Seq<char>,
)
    requires
        parts.len() > 0,
    ensures
        ({
            let a = text::trim(more);
            let l = text::lower(a);
            let was = adjusted(parts, prefix);
            let now = adjusted(parts.push(more), prefix);
            let named = exists|i: int|
                1 <= i < parts.len() && is_path(text::trim(#[trigger] parts[i]));
            &&& l == "secure"@ ==> now == was
            &&& is_other(a) && named ==> now == was.push(a)
            &&& is_other(a) && !named ==> now == was.drop_last().push(a).push("Path="@ + prefix)
            &&& l.len() >= 5 && l.take(5) == "path="@ && named ==> now == was.push(
                "Path="@ + scoped(text::trim(a.skip(5)), prefix),
            )
            &&& l.len() >= 5 && l.take(5) == "path="@ && !named ==> now == was.drop_last().push(
                "Path="@ + scoped(text::trim(a.skip(5)), prefix),
            )
            &&& !named ==> was.last() == "Path="@ + prefix
        }),
{
    let a = text::trim(more);
    let n = parts.len() as int;
    let all = parts.push(more);
    lemma_other_is(a);
    lemma_kept_before(parts, prefix, more, n);
    lemma_named(parts, n);
    lemma_named(all, n + 1);
    let l = text::lower(a);
    reveal_strlit("path=");
    reveal_strlit("secure");
    if l.len() >= 5 {
        assert(l.take(5) =~= l.subrange(0, 5));
    }
    if l == "secure"@ {
        assert(l[0] != "path="@[0]);
        if is_path(a) {
            assert(l.subrange(0, 5)[0] == "path="@[0]);
        }
    }
    assert(names_path(all, n + 1) <==> names_path(parts, n) || is_path(a)) by {
        if names_path(all, n + 1) {
            let i = choose|i: int| 1 <= i < n + 1 && is_path(text::trim(#[trigger] all[i]))
                && !is_secure(text::trim(all[i]));
            if i < n {
                assert(parts[i] == all[i]);
            }
        }
        if names_path(parts, n) {
            let i = choose|i: int| 1 <= i < n && is_path(text::trim(#[trigger] parts[i]))
                && !is_secure(text::trim(parts[i]));
            assert(all[i] == parts[i]);
        }
        if is_path(a) {
            assert(all[n] == more);
            lemma_path_is_no_flag(a);
        }
    }
    let k = kept(parts, prefix, n);
    assert(kept(all, prefix, n + 1) == k + attribute(a, prefix));
    let was = adjusted(parts, prefix);
    if !names_path(parts, n) {
        assert(was.drop_last() =~= k);
    }
    if l == "secure"@ {
        assert(k + attribute(a, prefix) =~= k);
    } else if is_path(a) {
        assert(k + attribute(a, prefix) =~= k.push(
            "Path="@ + scoped(text::trim(a.skip(5)), prefix),
        ));
    } else {
        assert(k + attribute(a, prefix) =~= k.push(a));
    }
}

proof fn lemma_path_is_no_flag(a: Seq<char>)
    ensures
        is_path(a) ==> !is_secure(a),
{
    reveal_strlit("path=");
    reveal_strlit("secure");
    let l = text::lower(a);
    if is_path(a) && is_secure(a) {
        assert(l.subrange(0, 5)[0] == "path="@[0]);
        assert(l[0] == "secure"@[0]);
    }
}

proof fn lemma_named(parts: Seq<Seq<char>>, n: int)
    requires
        0 <= n <= parts.len(),
    ensures
        names_path(parts, n) <==> exists|i: int|
            1 <= i < n && is_path(text::trim(#[trigger] parts[i])),
{
    if exists|i: int| 1 <= i < n && is_path(text::trim(#[trigger] parts[i])) {
        let i = choose|i: int| 1 <= i < n && is_path(text::trim(#[trigger] parts[i]));
        lemma_path_is_no_flag(text::trim(parts[i]));
        assert(is_path(text::trim(parts[i])) && !is_secure(text::trim(parts[i])));
    }
}

proof fn lemma_kept_before(parts: Seq<Seq<char>>, prefix: Seq<char>, more: Seq<char>, n: int)
    requires
        0 <= n <= parts.len(),
    ensures
        kept(parts.push(more), prefix, n) == kept(parts, prefix, n),
    decreases n,
{
    if n > 0 {
        lemma_kept_before(parts, prefix, more, n - 1);
    }
}

/// Where the path of a cookie goes: one under the prefix stays; any other that
/// starts at the root is put behind the prefix, but for the root itself, which
/// becomes the prefix, as does none at all and one that starts nowhere.
pub proof fn a_cookie_path_goes_behind_the_prefix(path: Seq<char>, prefix: Seq<char>, rest: Seq<char>)
    ensures
        scoped(seq![], prefix) == prefix,
        scoped(seq!['/'], prefix) == prefix || prefix.len() == 0,
        scoped(prefix, prefix) == prefix,
        scoped(prefix + "/"@ + rest, prefix) == prefix + "/"@ + rest,
        path.len() > 1 && path[0] == '/' && !at_or_below(path, prefix) ==> scoped(path, prefix)
            == prefix + path,
        path.len() > 0 && path[0] != '/' && prefix.len() > 0 && prefix[0] == '/' ==> scoped(
            path,
            prefix,
        ) == prefix,
{
    reveal_strlit("/");
    assert("/"@ =~= seq!['/']);
    assert(prefix.subrange(0, prefix.len() as int) =~= prefix);
    let below = prefix + "/"@ + rest;
    assert(below.subrange(0, prefix.len() as int) =~= prefix);
    if prefix.len() == 0 {
        assert(prefix =~= seq![]);
    }
    if at_or_below(seq!['/'], prefix) && prefix.len() > 0 {
        assert(seq!['/'].subrange(0, prefix.len() as int) == prefix);
        assert(prefix =~= seq!['/']);
    }
    if at_or_below(path, prefix) && prefix.len() > 0 {
        assert(path.subrange(0, prefix.len() as int)[0] == path[0]);
    }
}

/// A text stands between blanks as it stands alone.
proof fn lemma_trim_blank(x: Seq<char>)
    ensures
        text::trim(seq![' '] + x) == text::trim(x),
{
    let y = seq![' '] + x;
    assert(y.skip(1) =~= x);
    text::lemma_lead(x);
    assert(text::lead(y) == 1 + text::lead(x));
    assert(y.skip(1 + text::lead(x)) =~= x.skip(text::lead(x)));
}

proof fn lemma_trim_within(s: Seq<char>, c: char)
    requires
        !s.contains(c),
    ensures
        !text::trim(s).contains(c),
{
    text::lemma_lead(s);
    let t = text::trim_start(s);
    text::lemma_trim_end(t);
    let r = text::trim(s);
    if r.contains(c) {
        let i = choose|i: int| 0 <= i < r.len() && r[i] == c;
        assert(r[i] == s[text::lead(s) + i]);
    }
}

proof fn lemma_attribute_within(a: Seq<char>, prefix: Seq<char>, c: char, i: int)
    requires
        !a.contains(c),
        !prefix.contains(c),
        c == ';',
        0 <= i < attribute(a, prefix).len(),
    ensures
        !attribute(a, prefix)[i].contains(c),
{
    reveal_strlit("Path=");
    reveal_strlit("path=");
    if is_path(a) && !is_secure(a) {
        let rest = a.skip(5);
        if rest.contains(c) {
            let j = choose|j: int| 0 <= j < rest.len() && rest[j] == c;
            assert(a[j + 5] == c);
        }
        lemma_trim_within(rest, c);
        let v = text::trim(rest);
        let s = scoped(v, prefix);
        lemma_joined_without(prefix, v, c);
        lemma_joined_without("Path="@, s, c);
    }
}

proof fn lemma_joined_without(a: Seq<char>, b: Seq<char>, c: char)
    requires
        !a.contains(c),
        !b.contains(c),
    ensures
        !(a + b).contains(c),
{
    if (a + b).contains(c) {
        let i = choose|i: int| 0 <= i < (a + b).len() && (a + b)[i] == c;
        if i < a.len() {
            assert(a[i] == c);
        } else {
            assert(b[i - a.len()] == c);
        }
    }
}

proof fn lemma_kept_within(parts: Seq<Seq<char>>, prefix: Seq<char>, n: int)
    requires
        0 <= n <= parts.len(),
        !prefix.contains(';'),
        forall|i: int| 0 <= i < parts.len() ==> !(#[trigger] parts[i]).contains(';'),
    ensures
        forall|i: int|
            0 <= i < kept(parts, prefix, n).len() ==> !(#[trigger] kept(parts, prefix, n)[i]).contains(
                ';',
            ),
    decreases n,
{
    if n > 0 {
        lemma_kept_within(parts, prefix, n - 1);
        let a = text::trim(parts[n - 1]);
        assert(!parts[n - 1].contains(';'));
        lemma_trim_within(parts[n - 1], ';');
        let k = kept(parts, prefix, n);
        let before = kept(parts, prefix, n - 1);
        assert forall|i: int| 0 <= i < k.len() implies !(#[trigger] k[i]).contains(';') by {
            if n > 1 {
                if i < before.len() {
                    assert(k[i] == before[i]);
                } else {
                    lemma_attribute_within(a, prefix, ';', i - before.len());
                }
            }
        }
    }
}

proof fn lemma_parts_come_apart(parts: Seq<Seq<char>>)
    requires
        parts.len() > 0,
        forall|i: int| 0 <= i < parts.len() ==> !(#[trigger] parts[i]).contains(';'),
    ensures
        text::split(text::join(parts, "; "@), ';').map_values(|p: Seq<char>| text::trim(p))
            == parts.map_values(|p: Seq<char>| text::trim(p)),
    decreases parts.len(),
{
    reveal_strlit("; ");
    let t = |p: Seq<char>| text::trim(p);
    let x = parts[parts.len() - 1];
    assert(!x.contains(';'));
    if parts.len() == 1 {
        text::lemma_split_one(x, ';');
        assert(parts =~= seq![x]);
    } else {
        let d = parts.drop_last();
        assert forall|i: int| 0 <= i < d.len() implies !(#[trigger] d[i]).contains(';') by {
            assert(!parts[i].contains(';'));
        }
        lemma_parts_come_apart(d);
        let j = text::join(d, "; "@);
        let y = seq![' '] + x;
        assert(text::join(parts, "; "@) =~= j.push(';') + y);
        lemma_joined_without(seq![' '], x, ';');
        text::lemma_split_join(j, ';', y);
        text::lemma_split_one(y, ';');
        lemma_trim_blank(x);
        assert((text::split(j, ';') + seq![y]).map_values(t) =~= text::split(j, ';').map_values(t)
            + seq![text::trim(y)]);
        assert(parts.map_values(t) =~= d.map_values(t) + seq![text::trim(x)]);
    }
}

/// A browser that takes a rewritten cookie apart at its semicolons finds the
/// adjusted parts of the cookie as the app set it.
pub proof fn a_rewritten_cookie_comes_apart(cookie: Seq<char>, prefix: Seq<char>)
    requires
        !prefix.contains(';'),
    ensures
        text::split(rewritten(cookie, prefix), ';').map_values(|p: Seq<char>| text::trim(p))
            == adjusted(text::split(cookie, ';'), prefix).map_values(|p: Seq<char>| text::trim(p)),
{
    reveal_strlit("Path=");
    let parts = text::split(cookie, ';');
    text::lemma_split(cookie, ';');
    assert forall|i: int| 0 <= i < parts.len() implies !(#[trigger] parts[i]).contains(';') by {
        assert forall|j: int| 0 <= j < parts[i].len() implies parts[i][j] != ';' by {
            assert(text::split(cookie, ';')[i][j] != ';');
        }
    }
    let n = parts.len() as int;
    lemma_kept_within(parts, prefix, n);
    lemma_kept(parts, prefix, n);
    lemma_joined_without("Path="@, prefix, ';');
    let all = adjusted(parts, prefix);
    let k = kept(parts, prefix, n);
    assert forall|i: int| 0 <= i < all.len() implies !(#[trigger] all[i]).contains(';') by {
        if i < k.len() {
            assert(all[i] == k[i]);
        }
    }
    lemma_parts_come_apart(all);
}

/// A `Location` of the app's own: one of the two schemes, one of the three names
/// of this machine, and the port.
pub open spec fn own(scheme: Seq<char>, host: Seq<char>, port: u16) -> Seq<char> {
    scheme + "://"@ + host + ":"@ + text::dec(port as nat)
}

/// The schemes and the names of this machine that an app is reached by.
pub open spec fn reaches(scheme: Seq<char>, host: Seq<char>) -> bool {
    (scheme == "http"@ || scheme == "https"@) && (host == "127.0.0.1"@ || host == "localhost"@
        || host == "[::1]"@)
}

proof fn lemma_origins_differ(
    s: Seq<char>,
    h: Seq<char>,
    s2: Seq<char>,
    h2: Seq<char>,
    port: u16,
    value: Seq<char>,
)
    requires
        reaches(s, h),
        reaches(s2, h2),
        text::starts(value, own(s, h, port)),
        text::starts(value, own(s2, h2, port)),
    ensures
        s == s2,
        h == h2,
{
    reveal_strlit("http");
    reveal_strlit("https");
    reveal_strlit("://");
    reveal_strlit("127.0.0.1");
    reveal_strlit("localhost");
    reveal_strlit("[::1]");
    let a = own(s, h, port);
    let b = own(s2, h2, port);
    assert(value.subrange(0, a.len() as int) == a);
    assert(value.subrange(0, b.len() as int) == b);
    assert(a[4] == value[4] && b[4] == value[4]);
    assert(s == s2) by {
        assert("http"@.len() == 4 && "https"@.len() == 5);
        assert("https"@[4] == 's');
        assert("://"@[0] == ':');
    }
    let n = s.len() + 3;
    assert(a[n as int] == h[0]);
    assert(b[n as int] == h2[0]);
    assert(value[n as int] == a[n as int] && value[n as int] == b[n as int]);
    assert("127.0.0.1"@[0] == '1' && "localhost"@[0] == 'l' && "[::1]"@[0] == '[');
}

/// A redirect to the app's own address, by either scheme and any of its names,
/// is folded back under the prefix with what follows, or with a slash where
/// nothing does. A longer number behind the colon is another port.
pub proof fn an_address_of_the_app_is_folded_back(
    scheme: Seq<char>,
    host: Seq<char>,
    rest: Seq<char>,
    prefix: Seq<char>,
    port: u16,
)
    requires
        reaches(scheme, host),
        rest.len() == 0 || !('0' <= rest[0] <= '9'),
    ensures
        rest.len() > 0 ==> relocated(own(scheme, host, port) + rest, prefix, port) == Some(
            prefix + rest,
        ),
        relocated(own(scheme, host, port), prefix, port) == Some(prefix + "/"@),
{
    lemma_folded(scheme, host, rest, prefix, port);
    lemma_folded(scheme, host, seq![], prefix, port);
    assert(own(scheme, host, port) + seq![] =~= own(scheme, host, port));
}

proof fn lemma_folded(
    scheme: Seq<char>,
    host: Seq<char>,
    rest: Seq<char>,
    prefix: Seq<char>,
    port: u16,
)
    requires
        reaches(scheme, host),
        rest.len() == 0 || !('0' <= rest[0] <= '9'),
    ensures
        relocated(own(scheme, host, port) + rest, prefix, port) == Some(
            prefix + (if rest.len() == 0 {
                "/"@
            } else {
                rest
            }),
        ),
{
    reveal_strlit("http");
    reveal_strlit("https");
    let o = own(scheme, host, port);
    let value = o + rest;
    assert(value.subrange(0, o.len() as int) =~= o);
    assert(value.skip(o.len() as int) =~= rest);
    assert(value[0] == scheme[0] && scheme[0] == 'h');
    assert(beyond(value, scheme, host, port) == Some(rest));
    assert forall|s: Seq<char>, h: Seq<char>|
        reaches(s, h) && (#[trigger] beyond(value, s, h, port)) is Some implies s == scheme && h
        == host by {
        lemma_origins_differ(scheme, host, s, h, port, value);
    }
    assert(beyond_any(value, port) == Some(rest));
}

/// A redirect that neither starts at the root nor names an address of the app is
/// the app's own business, and left alone.
pub proof fn a_redirect_elsewhere_is_left_alone(value: Seq<char>, prefix: Seq<char>, port: u16)
    requires
        value.len() == 0 || value[0] != '/',
        forall|scheme: Seq<char>, host: Seq<char>|
            reaches(scheme, host) ==> !text::starts(value, #[trigger] own(scheme, host, port)),
    ensures
        relocated(value, prefix, port) is None,
{
    assert(!text::starts(value, own("http"@, "127.0.0.1"@, port)));
    assert(!text::starts(value, own("http"@, "localhost"@, port)));
    assert(!text::starts(value, own("http"@, "[::1]"@, port)));
    assert(!text::starts(value, own("https"@, "127.0.0.1"@, port)));
    assert(!text::starts(value, own("https"@, "localhost"@, port)));
    assert(!text::starts(value, own("https"@, "[::1]"@, port)));
}

/// A redirect that starts at the root and is not under the prefix yet is put
/// behind it.
pub proof fn a_root_redirect_is_put_behind_the_prefix(
    value: Seq<char>,
    prefix: Seq<char>,
    rest: Seq<char>,
    port: u16,
)
    requires
        value.len() > 0,
        value[0] == '/',
        prefix.len() > 0,
        prefix[0] == '/',
    ensures
        !(value.len() >= prefix.len() && value.take(prefix.len() as int) == prefix) ==> relocated(
            value,
            prefix,
            port,
        ) == Some(prefix + value),
        relocated(prefix, prefix, port) is None,
        relocated(prefix + "/"@ + rest, prefix, port) is None,
        relocated(prefix + "?"@ + rest, prefix, port) is None,
        relocated(prefix + "#"@ + rest, prefix, port) is None,
        rest.len() > 0 && rest[0] != '/' && rest[0] != '?' && rest[0] != '#' ==> relocated(
            prefix + rest,
            prefix,
            port,
        ) == Some(prefix + (prefix + rest)),
{
    reveal_strlit("/");
    reveal_strlit("?");
    reveal_strlit("#");
    if value.len() >= prefix.len() {
        assert(value.take(prefix.len() as int) =~= value.subrange(0, prefix.len() as int));
    }
    assert(prefix.subrange(0, prefix.len() as int) =~= prefix);
    assert(prefix.skip(prefix.len() as int) =~= seq![]);
    lemma_behind(prefix, "/"@ + rest);
    lemma_behind(prefix, "?"@ + rest);
    lemma_behind(prefix, "#"@ + rest);
    lemma_behind(prefix, rest);
    assert(prefix + "/"@ + rest =~= prefix + ("/"@ + rest));
    assert(prefix + "?"@ + rest =~= prefix + ("?"@ + rest));
    assert(prefix + "#"@ + rest =~= prefix + ("#"@ + rest));
}

proof fn lemma_behind(prefix: Seq<char>, rest: Seq<char>)
    ensures
        text::after(prefix + rest, prefix) == Some(rest),
{
    assert((prefix + rest).subrange(0, prefix.len() as int) =~= prefix);
    assert((prefix + rest).skip(prefix.len() as int) =~= rest);
}

/// The app is asked on this machine, at its port, for the path and the query as
/// they came, in TLS where it wants that.
pub proof fn the_app_is_asked_at_its_port(port: u16, path: Seq<char>, query: &str)
    ensures
        target_of(false, port, path, None) == "http://127.0.0.1:"@ + text::dec(port as nat) + "/"@
            + path,
        target_of(true, port, path, None) == "https://127.0.0.1:"@ + text::dec(port as nat) + "/"@
            + path,
        target_of(false, port, path, Some(query)) == target_of(false, port, path, None) + "?"@
            + query@,
        target_of(true, port, path, Some(query)) == target_of(true, port, path, None) + "?"@
            + query@,
{
    reveal_strlit("http");
    reveal_strlit("https");
    reveal_strlit("://127.0.0.1:");
    reveal_strlit("http://127.0.0.1:");
    reveal_strlit("https://127.0.0.1:");
    assert("http"@ + "://127.0.0.1:"@ =~= "http://127.0.0.1:"@);
    assert("https"@ + "://127.0.0.1:"@ =~= "https://127.0.0.1:"@);
    assert(target_of(false, port, path, None) =~= "http://127.0.0.1:"@ + text::dec(port as nat)
        + "/"@ + path);
    assert(target_of(true, port, path, None) =~= "https://127.0.0.1:"@ + text::dec(port as nat)
        + "/"@ + path);
    assert(target_of(false, port, path, Some(query)) =~= target_of(false, port, path, None) + "?"@
        + query@);
    assert(target_of(true, port, path, Some(query)) =~= target_of(true, port, path, None) + "?"@
        + query@);
}

/// The browser is had to ask again, where it asked and with the query it asked
/// with, exactly where an app that was spoken to in the clear redirects to TLS at
/// its own address. Any other answer is passed on, its `Location` rewritten as
/// any other.
pub proof fn an_app_that_wants_tls_is_asked_again(
    tls: bool,
    redirection: bool,
    location: &str,
    prefix: Seq<char>,
    port: u16,
    path: Seq<char>,
    query: &str,
)
    ensures
        ({
            let at = own("https"@, "127.0.0.1"@, port);
            let l = location@;
            let told = text::starts(l, at) && (l.len() == at.len() || !('0' <= l[at.len() as int]
                <= '9'));
            let came = answered(tls, redirection, Some(location), prefix, port, path, Some(query));
            &&& !tls && redirection && told ==> came == (AnswerView::Again {
                here: prefix + "/"@ + path + "?"@ + query@,
            })
            &&& !(!tls && redirection && told) ==> came == (AnswerView::Pass {
                location: relocated(l, prefix, port),
            })
            &&& answered(tls, redirection, None, prefix, port, path, Some(query)) == (
            AnswerView::Pass { location: None })
            &&& !tls && redirection && told ==> answered(
                tls,
                redirection,
                Some(location),
                prefix,
                port,
                path,
                None,
            ) == (AnswerView::Again { here: prefix + "/"@ + path })
        }),
{
    let at = own("https"@, "127.0.0.1"@, port);
    let l = location@;
    if text::starts(l, at) {
        assert(l.skip(at.len() as int).len() == l.len() - at.len());
    }
    assert(prefix + "/"@ + path + ("?"@ + query@) =~= prefix + "/"@ + path + "?"@ + query@);
    assert(prefix + "/"@ + path + Seq::<char>::empty() =~= prefix + "/"@ + path);
}

/// What a hop says of itself is named, and nothing else is: neither the type, the
/// length nor the encoding of what is passed on.
pub proof fn a_hop_is_described_by_eight_headers(name: Seq<char>)
    ensures
        hop_names().contains(name) <==> name == "connection"@ || name == "keep-alive"@ || name
            == "proxy-authenticate"@ || name == "proxy-authorization"@ || name == "te"@ || name
            == "trailers"@ || name == "transfer-encoding"@ || name == "upgrade"@,
{
    let h = hop_names();
    assert(h[0] == "connection"@ && h[1] == "keep-alive"@ && h[2] == "proxy-authenticate"@ && h[3]
        == "proxy-authorization"@ && h[4] == "te"@ && h[5] == "trailers"@ && h[6]
        == "transfer-encoding"@ && h[7] == "upgrade"@);
}

/// A document that does not name a base gets one right behind its first head
/// tag: the first `<head`, in whatever case, that a `>` or white space follows,
/// up to the `>` that ends it.
pub proof fn a_head_gets_a_base(t: Seq<char>, prefix: Seq<char>, h: int, g: int)
    requires
        0 <= h,
        h + 5 <= g < t.len(),
        text::lower(t).subrange(h, h + 5) == "<head"@,
        t[h + 5] == '>' || t[h + 5] == ' ' || t[h + 5] == '\t' || t[h + 5] == '\n' || t[h + 5]
            == '\r' || t[h + 5] == '\x0c',
        forall|j: int|
            0 <= j < h ==> !(#[trigger] text::at(text::lower(t), "<head"@, j) && (t[j + 5] == '>'
                || t[j + 5] == ' ' || t[j + 5] == '\t' || t[j + 5] == '\n' || t[j + 5] == '\r'
                || t[j + 5] == '\x0c')),
        t[g] == '>',
        forall|j: int| h <= j < g ==> t[j] != '>',
        forall|j: int| !#[trigger] text::at(t, "<base "@, j),
    ensures
        based(t, prefix) == Some(
            t.take(g + 1) + ("<base href=\""@ + prefix + "/\">"@) + t.skip(g + 1),
        ),
{
    reveal_strlit("<head");
    assert(opens_head(t, h));
    assert forall|j: int| 0 <= j < h implies !#[trigger] opens_head(t, j) by {
        assert(!text::at(text::lower(t), "<head"@, j) || !(t[j + 5] == '>' || is_blank(t[j + 5])));
    }
    lemma_head_is(t, 0, h);
    let u = t.skip(h);
    assert(u[g - h] == '>');
    text::lemma_pos_is(u, '>', g - h);
    text::lemma_find(t, "<base "@);
    assert(!text::within(t, "<base "@));
}

proof fn lemma_head_is(t: Seq<char>, i: int, h: int)
    requires
        0 <= i <= h < t.len(),
        opens_head(t, h),
        forall|j: int| i <= j < h ==> !#[trigger] opens_head(t, j),
    ensures
        head_from(t, i) == Some(h),
    decreases h - i,
{
    if i < h {
        assert(!opens_head(t, i));
        lemma_head_is(t, i + 1, h);
    }
}

} // verus!
