//! The graceful hook: asking a workload to give something back.
//!
//! It is one HTTP POST to an endpoint the workload already has, with the
//! pressure figures substituted into the body. It is **not** a protocol, and
//! Prism does not interpret the response beyond "the workload answered".
//!
//! The reason is a division of knowledge. Prism knows how much has to go. It
//! has no idea what any given workload can afford to lose, so Prism states the
//! deficit and the workload chooses the concession.
//!
//! ## Plain HTTP only
//!
//! No TLS, and that is a statement about who this addresses rather than an
//! omission: the endpoint belongs to a workload Prism itself started, on this
//! machine, reachable on loopback.

use crate::governor::Tier;
use crate::graceful_config::{Graceful, GracefulView};
use crate::text;
use vstd::prelude::*;

verus! {

/// What the workload is being told. Substituted into the configured body.
#[derive(Debug)]
pub struct Deficit {
    pub facet: String,
    pub tier: Tier,
    /// MiB of VRAM the workload is over its budget, if a GPU is sensed.
    pub vram_overdraft_mib: Option<u64>,
    /// MiB of VRAM it may hold, if a GPU is sensed.
    pub vram_budget_mib: Option<u64>,
    /// MiB of honest host headroom remaining.
    pub headroom_mib: u64,
}

impl Default for Deficit {
    fn default() -> (r: Self)
        ensures
            r.facet@ == ""@,
            r.tier == Tier::Green,
            r.vram_overdraft_mib is None,
            r.vram_budget_mib is None,
            r.headroom_mib == 0,
    {
        Deficit {
            facet: "".to_string(),
            tier: Tier::Green,
            vram_overdraft_mib: None,
            vram_budget_mib: None,
            headroom_mib: 0,
        }
    }
}

/// A figure, or `null` where it is not sensed. Zero would read as "you owe
/// nothing", which is a claim.
pub open spec fn figure(v: Option<u64>) -> Seq<char> {
    match v {
        Some(n) => text::dec(n as nat),
        None => "null"@,
    }
}

fn figure_text(v: Option<u64>) -> (r: String)
    ensures
        r@ == figure(v),
{
    match v {
        Some(n) => text::dec_string(n),
        None => "null".to_string(),
    }
}

impl Deficit {
    /// The body with each placeholder filled in, in turn.
    pub open spec fn filled(&self, template: Seq<char>) -> Seq<char> {
        let a = text::replace(template, "{facet}"@, self.facet@);
        let b = text::replace(a, "{tier}"@, self.tier.name());
        let c = text::replace(b, "{vram_overdraft_mib}"@, figure(self.vram_overdraft_mib));
        let d = text::replace(c, "{vram_budget_mib}"@, figure(self.vram_budget_mib));
        text::replace(d, "{headroom_mib}"@, text::dec(self.headroom_mib as nat))
    }

    /// Fill `{placeholder}` spans in a configured body.
    ///
    /// Substitution rather than JSON construction, because the body is the
    /// workload's own API shape and Prism has no business knowing it. A facet
    /// whose endpoint takes form encoding or a bare integer is served by the
    /// same mechanism as one taking JSON.
    pub fn render(&self, template: &str) -> (r: String)
        ensures
            r@ == self.filled(template@),
    {
        proof {
            reveal_strlit("{facet}");
            reveal_strlit("{tier}");
            reveal_strlit("{vram_overdraft_mib}");
            reveal_strlit("{vram_budget_mib}");
            reveal_strlit("{headroom_mib}");
        }
        let a = text::replace_all(template, "{facet}", self.facet.as_str());
        let b = text::replace_all(a.as_str(), "{tier}", self.tier.as_str());
        let over = figure_text(self.vram_overdraft_mib);
        let c = text::replace_all(b.as_str(), "{vram_overdraft_mib}", over.as_str());
        let budget = figure_text(self.vram_budget_mib);
        let d = text::replace_all(c.as_str(), "{vram_budget_mib}", budget.as_str());
        let left = text::dec_string(self.headroom_mib);
        text::replace_all(d.as_str(), "{headroom_mib}", left.as_str())
    }
}

/// The request that carries a body to a hook.
pub open spec fn request_text(
    host: Seq<char>,
    port: u16,
    path: Seq<char>,
    content_type: Seq<char>,
    body: Seq<char>,
) -> Seq<char> {
    "POST "@ + path + " HTTP/1.1\r\nHost: "@ + host + ":"@ + text::dec(port as nat)
        + "\r\nContent-Type: "@ + content_type + "\r\nContent-Length: "@ + text::dec(
        vstd::utf8::encode_utf8(body).len(),
    ) + "\r\nConnection: close\r\n\r\n"@ + body
}

/// The request to send for a hook: `Connection: close` so the read ends at the
/// end of the stream and no response needs to be length-parsed.
pub fn request(host: &str, port: u16, path: &str, content_type: &str, body: &str) -> (r: String)
    ensures
        r@ == request_text(host@, port, path@, content_type@, body@),
{
    let mut out = "POST ".to_string();
    out.append(path);
    out.append(" HTTP/1.1\r\nHost: ");
    out.append(host);
    out.append(":");
    text::push_dec(&mut out, port as u64);
    out.append("\r\nContent-Type: ");
    out.append(content_type);
    out.append("\r\nContent-Length: ");
    let length: usize = body.as_bytes().len();
    assert(length == vstd::utf8::encode_utf8(body@).len());
    text::push_dec(&mut out, length as u64);
    out.append("\r\nConnection: close\r\n\r\n");
    out.append(body);
    out
}

/// Where to connect and what to send.
#[derive(Debug)]
pub struct Post {
    pub host: String,
    pub port: u16,
    pub request: String,
    pub timeout_ms: u128,
}

/// Why a hook's URL cannot be used.
#[derive(Debug, Clone, Copy, PartialEq, Eq, Structural)]
pub enum UrlError {
    /// Graceful hooks are plain HTTP only.
    NotHttp,
    NoHost,
}

/// `http://host:port/path` in its parts: everything up to the first slash names
/// the host, and a port that is no number reads as 80.
pub open spec fn url_parts(url: Seq<char>) -> Result<(Seq<char>, u16, Seq<char>), UrlError> {
    match text::after(url, "http://"@) {
        None => Err(UrlError::NotHttp),
        Some(rest) => {
            let i = text::pos(rest, '/');
            let authority = rest.take(i);
            let path = if i < rest.len() {
                rest.skip(i)
            } else {
                "/"@
            };
            let (host, port) = match text::rsplit_once(authority, ':') {
                Some((h, p)) => (
                    h,
                    match text::number(p, u16::MAX as nat) {
                        Some(n) => n as u16,
                        None => 80,
                    },
                ),
                None => (authority, 80u16),
            };
            if host.len() == 0 {
                Err(UrlError::NoHost)
            } else {
                Ok((host, port, path))
            }
        },
    }
}

/// Split `http://host:port/path` into its parts.
///
/// Rejects anything that is not plain HTTP, so a misconfigured `https://` fails
/// loudly at the hook rather than silently posting cleartext to a TLS port.
pub fn split_url(url: &str) -> (r: Result<(String, u16, String), UrlError>)
    ensures
        match r {
            Ok(p) => url_parts(url@) == Ok::<(Seq<char>, u16, Seq<char>), UrlError>(
                (p.0@, p.1, p.2@),
            ),
            Err(e) => url_parts(url@) == Err::<(Seq<char>, u16, Seq<char>), UrlError>(e),
        },
{
    let rest = match text::strip_prefix(url, "http://") {
        Some(rest) => rest,
        None => {
            return Err(UrlError::NotHttp);
        },
    };
    let v = text::chars_of(rest.as_str());
    let i = text::pos_of(v.as_slice(), '/');
    let authority = text::string_from(v.as_slice(), 0, i);
    assert(authority@ =~= rest@.take(i as int));
    let path = if i < v.len() {
        assert(rest@.subrange(i as int, rest@.len() as int) =~= rest@.skip(i as int));
        text::string_from(v.as_slice(), i, v.len())
    } else {
        "/".to_string()
    };
    let (host, port): (String, u16) = match text::split_last(authority.as_str(), ':') {
        Some((h, p)) => {
            let port: u16 = match text::parse_u16(p.as_str()) {
                Some(n) => n,
                None => 80,
            };
            (h, port)
        },
        None => (authority, 80),
    };
    if text::chars_of(host.as_str()).len() == 0 {
        return Err(UrlError::NoHost);
    }
    Ok((host, port, path))
}

/// What a hook amounts to for a deficit: where to connect and what to send.
pub open spec fn post_of(h: GracefulView, d: Deficit, p: Post) -> bool {
    match url_parts(h.url) {
        Err(_) => false,
        Ok((host, port, path)) => {
            &&& p.host@ == host
            &&& p.port == port
            &&& p.request@ == request_text(
                host,
                port,
                path,
                match h.content_type {
                    Some(t) => t,
                    None => "application/json"@,
                },
                d.filled(h.body),
            )
            &&& p.timeout_ms == (match crate::graceful_config::duration_ms(h.timeout) {
                Some(n) => n,
                None => 10_000,
            })
        },
    }
}

/// What to send for a hook, and where.
pub fn prepare(hook: &Graceful, deficit: &Deficit) -> (r: Result<Post, UrlError>)
    ensures
        match r {
            Ok(p) => post_of(hook@, *deficit, p),
            Err(e) => url_parts(hook@.url) == Err::<(Seq<char>, u16, Seq<char>), UrlError>(e),
        },
{
    let (host, port, path) = match split_url(hook.http_post.url.as_str()) {
        Ok(p) => p,
        Err(e) => {
            return Err(e);
        },
    };
    let body = deficit.render(hook.http_post.body.as_str());
    let content_type = hook.content_type();
    let request = request(
        host.as_str(),
        port,
        path.as_str(),
        content_type.as_str(),
        body.as_str(),
    );
    Ok(Post { host, port, request, timeout_ms: hook.timeout() })
}

/// The status code of a reply: its second word, where that is a number.
pub open spec fn status_code(head: Seq<char>) -> Option<nat> {
    let w = text::words(head);
    if w.len() < 2 {
        None
    } else {
        text::number(w[1], u16::MAX as nat)
    }
}

/// The status code in the first part of a reply.
pub fn status_of(head: &[u8]) -> (r: Option<u16>)
    ensures
        vstd::utf8::valid_utf8(head@) ==> match r {
            Some(n) => status_code(vstd::utf8::decode_utf8(head@)) == Some(n as nat),
            None => status_code(vstd::utf8::decode_utf8(head@)) is None,
        },
        !vstd::utf8::valid_utf8(head@) ==> r is None,
{
    match text::from_utf8(head) {
        Some(head) => status_in(head.as_str()),
        None => None,
    }
}

/// The status code in the first part of a reply, read as text.
pub fn status_in(head: &str) -> (r: Option<u16>)
    ensures
        r matches Some(n) ==> status_code(head@) == Some(n as nat),
        r is None ==> status_code(head@) is None,
{
    let w = text::words_of(head);
    if w.len() < 2 {
        return None;
    }
    assert(text::strs(w@)[1] == w@[1]@);
    text::parse_u16(w[1].as_str())
}

/// Whether a reply means that the workload yielded.
pub fn yielded(code: u16) -> (r: bool)
    ensures
        r == (200 <= code < 400),
{
    200 <= code && code < 400
}

/// A body without any placeholder goes out exactly as written.
pub proof fn a_body_without_placeholders_is_untouched(d: Deficit, body: Seq<char>)
    requires
        !text::within(body, "{facet}"@),
        !text::within(body, "{tier}"@),
        !text::within(body, "{vram_overdraft_mib}"@),
        !text::within(body, "{vram_budget_mib}"@),
        !text::within(body, "{headroom_mib}"@),
    ensures
        d.filled(body) == body,
{
    text::lemma_find(body, "{facet}"@);
    text::lemma_find(body, "{tier}"@);
    text::lemma_find(body, "{vram_overdraft_mib}"@);
    text::lemma_find(body, "{vram_budget_mib}"@);
    text::lemma_find(body, "{headroom_mib}"@);
}

/// Only plain HTTP is ever addressed.
pub proof fn only_plain_http(url: Seq<char>)
    ensures
        url_parts(url) is Ok ==> text::starts(url, "http://"@),
{
}

proof fn lemma_no_braces(s: Seq<char>, p: Seq<char>, q: Seq<char>)
    requires
        !s.contains('{'),
        p.len() > 0,
        p[0] == '{',
    ensures
        text::replace(s, p, q) == s,
{
    text::lemma_find(s, p);
    if let Some(i) = text::find(s, p) {
        assert(s.subrange(i, i + p.len())[0] == '{');
        assert(s[i] == '{');
    }
}

/// The one place where a brace opens holds something else: nothing is replaced.
proof fn lemma_other_brace(a: Seq<char>, k: Seq<char>, b: Seq<char>, p: Seq<char>, q: Seq<char>)
    requires
        !a.contains('{'),
        !b.contains('{'),
        k.len() > 1,
        k[0] == '{',
        !k.skip(1).contains('{'),
        p.len() > 1,
        p[0] == '{',
        p[p.len() - 1] == '}',
        k[k.len() - 1] == '}',
        !k.drop_last().contains('}'),
        !p.drop_last().contains('}'),
        k != p,
    ensures
        text::replace(a + k + b, p, q) == a + k + b,
{
    let s = a + k + b;
    text::lemma_find(s, p);
    if let Some(i) = text::find(s, p) {
        let n = a.len() as int;
        let w = s.subrange(i, i + p.len());
        assert(w == p);
        assert(w[0] == '{' && s[i] == '{');
        if i < n {
            assert(a[i] == '{');
        } else if i > n && i < n + k.len() {
            assert(k.skip(1)[i - n - 1] == '{');
        } else if i >= n + k.len() {
            assert(b[i - n - k.len()] == '{');
        }
        assert(i == n);
        if p.len() < k.len() {
            assert(w[p.len() - 1] == k[p.len() - 1]);
            assert(k.drop_last()[p.len() - 1] == '}');
        } else if p.len() > k.len() {
            assert(w[k.len() - 1] == k[k.len() - 1]);
            assert(p.drop_last()[k.len() - 1] == '}');
        } else {
            assert(w =~= k);
        }
    }
}

/// What is asked for at the one place where a brace opens is put there.
proof fn lemma_this_brace(a: Seq<char>, k: Seq<char>, b: Seq<char>, q: Seq<char>)
    requires
        !a.contains('{'),
        !b.contains('{'),
        k.len() > 0,
        k[0] == '{',
    ensures
        text::replace(a + k + b, k, q) == a + q + b,
{
    let s = a + k + b;
    let n = a.len() as int;
    assert(s.subrange(n, n + k.len()) =~= k);
    assert(text::at(s, k, n));
    assert forall|j: int| 0 <= j < n implies !text::at(s, k, j) by {
        if text::at(s, k, j) {
            assert(s.subrange(j, j + k.len())[0] == '{');
            assert(a[j] == '{');
        }
    }
    text::lemma_find_is(s, k, n);
    assert(s.take(n) =~= a);
    assert(s.skip(n + k.len()) =~= b);
    lemma_no_braces(b, k, q);
}

proof fn lemma_plain(a: Seq<char>, v: Seq<char>, b: Seq<char>)
    requires
        !a.contains('{'),
        !v.contains('{'),
        !b.contains('{'),
    ensures
        !(a + v + b).contains('{'),
{
    let s = a + v + b;
    if s.contains('{') {
        let i = choose|i: int| 0 <= i < s.len() && s[i] == '{';
        if i < a.len() {
            assert(a[i] == '{');
        } else if i < a.len() + v.len() {
            assert(v[i - a.len()] == '{');
        } else {
            assert(b[i - a.len() - v.len()] == '{');
        }
    }
}

proof fn lemma_names()
    ensures
        is_place("{facet}"@),
        is_place("{tier}"@),
        is_place("{vram_overdraft_mib}"@),
        is_place("{vram_budget_mib}"@),
        is_place("{headroom_mib}"@),
        "{facet}"@.len() == 7,
        "{tier}"@.len() == 6,
        "{vram_overdraft_mib}"@.len() == 20,
        "{vram_budget_mib}"@.len() == 17,
        "{headroom_mib}"@.len() == 14,
{
    reveal_strlit("{facet}");
    reveal_strlit("{tier}");
    reveal_strlit("{vram_overdraft_mib}");
    reveal_strlit("{vram_budget_mib}");
    reveal_strlit("{headroom_mib}");
}

/// A name between braces.
spec fn is_place(k: Seq<char>) -> bool {
    &&& k.len() > 1
    &&& k[0] == '{'
    &&& k[k.len() - 1] == '}'
    &&& !k.skip(1).contains('{')
    &&& !k.drop_last().contains('}')
}

proof fn lemma_value_is_plain(d: Deficit)
    ensures
        !figure(d.vram_overdraft_mib).contains('{'),
        !figure(d.vram_budget_mib).contains('{'),
        !text::dec(d.headroom_mib as nat).contains('{'),
        !d.tier.name().contains('{'),
{
    lemma_figure(d.vram_overdraft_mib);
    lemma_figure(d.vram_budget_mib);
    lemma_figure(Some(d.headroom_mib));
    reveal_strlit("green");
    reveal_strlit("amber");
    reveal_strlit("red");
    reveal_strlit("black");
}

proof fn lemma_figure(v: Option<u64>)
    ensures
        !figure(v).contains('{'),
{
    reveal_strlit("null");
    if let Some(n) = v {
        text::lemma_dec(n as nat);
        let s = text::dec(n as nat);
        if s.contains('{') {
            let i = choose|i: int| 0 <= i < s.len() && s[i] == '{';
            assert(text::is_digit(s[i]));
        }
    }
}

/// What a workload is told stands where its template asks for it: its own name,
/// the tier, how much video memory is over, what the budget is, and the headroom;
/// what is not known is written as JSON writes nothing.
pub proof fn a_template_is_filled_where_it_asks(d: Deficit, a: Seq<char>, b: Seq<char>)
    requires
        !a.contains('{'),
        !b.contains('{'),
        !d.facet@.contains('{'),
    ensures
        d.filled(a + "{facet}"@ + b) == a + d.facet@ + b,
        d.filled(a + "{tier}"@ + b) == a + d.tier.name() + b,
        d.filled(a + "{vram_overdraft_mib}"@ + b) == a + figure(d.vram_overdraft_mib) + b,
        d.filled(a + "{vram_budget_mib}"@ + b) == a + figure(d.vram_budget_mib) + b,
        d.filled(a + "{headroom_mib}"@ + b) == a + text::dec(d.headroom_mib as nat) + b,
        figure(None) == "null"@,
        figure(Some(d.headroom_mib)) == text::dec(d.headroom_mib as nat),
{
    lemma_value_is_plain(d);
    lemma_filled(d, a, b, 0);
    lemma_filled(d, a, b, 1);
    lemma_filled(d, a, b, 2);
    lemma_filled(d, a, b, 3);
    lemma_filled(d, a, b, 4);
}

/// The places of a template, in the order in which they are filled.
spec fn place(i: int) -> Seq<char> {
    if i == 0 {
        "{facet}"@
    } else if i == 1 {
        "{tier}"@
    } else if i == 2 {
        "{vram_overdraft_mib}"@
    } else if i == 3 {
        "{vram_budget_mib}"@
    } else {
        "{headroom_mib}"@
    }
}

spec fn value(d: Deficit, i: int) -> Seq<char> {
    if i == 0 {
        d.facet@
    } else if i == 1 {
        d.tier.name()
    } else if i == 2 {
        figure(d.vram_overdraft_mib)
    } else if i == 3 {
        figure(d.vram_budget_mib)
    } else {
        text::dec(d.headroom_mib as nat)
    }
}

spec fn stage(d: Deficit, t: Seq<char>, n: int) -> Seq<char>
    decreases n,
{
    if n <= 0 {
        t
    } else {
        text::replace(stage(d, t, n - 1), place(n - 1), value(d, n - 1))
    }
}

proof fn lemma_filled(d: Deficit, a: Seq<char>, b: Seq<char>, k: int)
    requires
        0 <= k < 5,
        !a.contains('{'),
        !b.contains('{'),
        !value(d, k).contains('{'),
    ensures
        d.filled(a + place(k) + b) == a + value(d, k) + b,
{
    let t = a + place(k) + b;
    lemma_stage(d, a, b, k, 5);
    assert(stage(d, t, 5) == d.filled(t)) by {
        reveal_with_fuel(stage, 6);
    }
}

proof fn lemma_stage(d: Deficit, a: Seq<char>, b: Seq<char>, k: int, n: int)
    requires
        0 <= k < 5,
        0 <= n <= 5,
        !a.contains('{'),
        !b.contains('{'),
        !value(d, k).contains('{'),
    ensures
        n <= k ==> stage(d, a + place(k) + b, n) == a + place(k) + b,
        n > k ==> stage(d, a + place(k) + b, n) == a + value(d, k) + b,
    decreases n,
{
    lemma_names();
    if n > 0 {
        lemma_stage(d, a, b, k, n - 1);
        if n - 1 == k {
            lemma_this_brace(a, place(k), b, value(d, k));
        } else if n - 1 < k {
            assert(place(k).len() != place(n - 1).len());
            lemma_other_brace(a, place(k), b, place(n - 1), value(d, n - 1));
        } else {
            lemma_plain(a, value(d, k), b);
            lemma_no_braces(a + value(d, k) + b, place(n - 1), value(d, n - 1));
        }
    }
}

/// An address in the clear comes apart into its host, its port, and its path; a
/// port that is not named is the usual one, and a path that is not named is the
/// root. One without a host, or by another scheme, is none.
pub proof fn an_address_is_host_port_and_path(host: Seq<char>, port: u16, path: Seq<char>)
    requires
        !host.contains('/'),
        !host.contains(':'),
    ensures
        ({
            let ok = |p: u16, q: Seq<char>| Ok::<(Seq<char>, u16, Seq<char>), UrlError>((host, p, q));
            let at = "http://"@ + host;
            let named = at + ":"@ + text::dec(port as nat);
            &&& host.len() > 0 ==> url_parts(at) == ok(80, "/"@)
            &&& host.len() > 0 ==> url_parts(at + "/"@ + path) == ok(80, "/"@ + path)
            &&& host.len() > 0 ==> url_parts(named) == ok(port, "/"@)
            &&& host.len() > 0 ==> url_parts(named + "/"@ + path) == ok(port, "/"@ + path)
            &&& host.len() == 0 ==> url_parts(named) == Err::<
                (Seq<char>, u16, Seq<char>),
                UrlError,
            >(UrlError::NoHost)
            &&& url_parts("https://"@ + host) == Err::<(Seq<char>, u16, Seq<char>), UrlError>(
                UrlError::NotHttp,
            )
        }),
{
    reveal_strlit("/");
    let d = text::dec(port as nat);
    let none = Seq::<char>::empty();
    let at = "http://"@ + host;
    let named = host + ":"@ + d;
    assert(at =~= "http://"@ + (host + none));
    assert(at + "/"@ + path =~= "http://"@ + (host + ("/"@ + path)));
    assert(at + ":"@ + d =~= "http://"@ + (named + none));
    assert(at + ":"@ + d + "/"@ + path =~= "http://"@ + (named + ("/"@ + path)));
    if host.len() > 0 {
        lemma_unnamed(host, none);
        lemma_unnamed(host, "/"@ + path);
    }
    lemma_named(host, port, none);
    lemma_named(host, port, "/"@ + path);
    lemma_other_scheme(host);
}

/// The path of an address, which is the root where none is named.
spec fn path_or_root(path: Seq<char>) -> Seq<char> {
    if path.len() > 0 {
        path
    } else {
        "/"@
    }
}

proof fn lemma_unnamed(host: Seq<char>, path: Seq<char>)
    requires
        !host.contains('/'),
        !host.contains(':'),
        host.len() > 0,
        path.len() == 0 || path[0] == '/',
    ensures
        url_parts("http://"@ + (host + path)) == Ok::<(Seq<char>, u16, Seq<char>), UrlError>(
            (host, 80, path_or_root(path)),
        ),
{
    lemma_address(host, path);
    text::lemma_rpos(host, ':');
    let k = text::rpos(host, ':');
    if k >= 0 {
        assert(host.contains(host[k]));
    }
}

proof fn lemma_named(host: Seq<char>, port: u16, path: Seq<char>)
    requires
        !host.contains('/'),
        path.len() == 0 || path[0] == '/',
    ensures
        url_parts("http://"@ + (host + ":"@ + text::dec(port as nat) + path)) == (if host.len()
            == 0 {
            Err::<(Seq<char>, u16, Seq<char>), UrlError>(UrlError::NoHost)
        } else {
            Ok::<(Seq<char>, u16, Seq<char>), UrlError>((host, port, path_or_root(path)))
        }),
{
    let d = text::dec(port as nat);
    let named = host + ":"@ + d;
    lemma_authority(host, port);
    lemma_address(named, path);
    text::lemma_number_dec(port as nat, u16::MAX as nat);
}

proof fn lemma_authority(host: Seq<char>, port: u16)
    requires
        !host.contains('/'),
    ensures
        ({
            let named = host + ":"@ + text::dec(port as nat);
            &&& !named.contains('/')
            &&& text::rsplit_once(named, ':') == Some((host, text::dec(port as nat)))
        }),
{
    reveal_strlit(":");
    let d = text::dec(port as nat);
    let named = host + ":"@ + d;
    let n = host.len() as int;
    lemma_digits_without(port as nat);
    if named.contains('/') {
        let i = choose|i: int| 0 <= i < named.len() && named[i] == '/';
        if i < n {
            assert(host[i] == '/');
        } else if i > n {
            assert(d[i - n - 1] == '/');
        }
    }
    assert(named[n] == ':');
    assert forall|j: int| n < j < named.len() implies named[j] != ':' by {
        assert(named[j] == d[j - n - 1]);
        assert(d.contains(d[j - n - 1]));
    }
    text::lemma_rpos_is(named, ':', n);
    assert(named.take(n) =~= host);
    assert(named.skip(n + 1) =~= d);
}

proof fn lemma_other_scheme(host: Seq<char>)
    ensures
        url_parts("https://"@ + host) == Err::<(Seq<char>, u16, Seq<char>), UrlError>(
            UrlError::NotHttp,
        ),
{
    reveal_strlit("http://");
    reveal_strlit("https://");
    let other = "https://"@ + host;
    if text::starts(other, "http://"@) {
        assert(other.subrange(0, 7)[4] == "http://"@[4]);
        assert(other[4] == 's');
        assert("http://"@[4] == ':');
    }
}

proof fn lemma_digits_without(n: nat)
    ensures
        !text::dec(n).contains('/'),
        !text::dec(n).contains(':'),
{
    text::lemma_dec(n);
    let d = text::dec(n);
    if d.contains('/') {
        let i = choose|i: int| 0 <= i < d.len() && d[i] == '/';
        assert(text::is_digit(d[i]));
    }
    if d.contains(':') {
        let i = choose|i: int| 0 <= i < d.len() && d[i] == ':';
        assert(text::is_digit(d[i]));
    }
}

/// What stands behind the scheme is an authority up to the first slash, and a path
/// from there on.
proof fn lemma_address(authority: Seq<char>, path: Seq<char>)
    requires
        !authority.contains('/'),
        path.len() == 0 || path[0] == '/',
    ensures
        ({
            let rest = authority + path;
            &&& text::after("http://"@ + rest, "http://"@) == Some(rest)
            &&& text::pos(rest, '/') == authority.len()
            &&& rest.take(authority.len() as int) == authority
            &&& rest.skip(authority.len() as int) == path
        }),
{
    let rest = authority + path;
    let n = authority.len() as int;
    assert(("http://"@ + rest).subrange(0, "http://"@.len() as int) =~= "http://"@);
    assert(("http://"@ + rest).skip("http://"@.len() as int) =~= rest);
    assert forall|j: int| 0 <= j < n implies rest[j] != '/' by {
        assert(rest[j] == authority[j]);
        assert(authority.contains(authority[j]));
    }
    if path.len() > 0 {
        assert(rest[n] == '/');
        text::lemma_pos_is(rest, '/', n);
    } else {
        text::lemma_pos(rest, '/');
        let k = text::pos(rest, '/');
        if k < n {
            assert(rest[k] == '/');
        }
    }
    assert(rest.take(n) =~= authority);
    assert(rest.skip(n) =~= path);
}

/// A request names what it asks for and whom, what its body is and how many bytes
/// that takes, and ends with the body.
pub proof fn a_request_carries_its_body(
    host: Seq<char>,
    port: u16,
    path: Seq<char>,
    content_type: Seq<char>,
    body: Seq<char>,
)
    ensures
        ({
            let r = request_text(host, port, path, content_type, body);
            let start = "POST "@ + path + " HTTP/1.1\r\nHost: "@ + host + ":"@ + text::dec(
                port as nat,
            ) + "\r\nContent-Type: "@ + content_type;
            let length = "\r\nContent-Length: "@ + text::dec(vstd::utf8::encode_utf8(body).len());
            r == start + length + "\r\nConnection: close\r\n\r\n"@ + body
        }),
{
    let r = request_text(host, port, path, content_type, body);
    let start = "POST "@ + path + " HTTP/1.1\r\nHost: "@ + host + ":"@ + text::dec(port as nat)
        + "\r\nContent-Type: "@ + content_type;
    let length = "\r\nContent-Length: "@ + text::dec(vstd::utf8::encode_utf8(body).len());
    assert(start + "\r\nContent-Length: "@ + text::dec(vstd::utf8::encode_utf8(body).len()) =~= start
        + length);
}

/// The status is the second word of the answer, where that is a number.
pub proof fn the_status_is_the_second_word(head: Seq<char>)
    ensures
        text::words(head).len() >= 2 ==> status_code(head) == text::number(
            text::words(head)[1],
            u16::MAX as nat,
        ),
        text::words(head).len() < 2 ==> status_code(head) is None,
{
}

/// A hook is sent to where its address says, with its body filled in, as JSON
/// unless it names another kind, and is given the time that it asks for, or ten
/// seconds where that cannot be read.
pub proof fn what_a_hook_sends(
    h: GracefulView,
    d: Deficit,
    p: Post,
    host: Seq<char>,
    port: u16,
    path: Seq<char>,
    secs: u64,
)
    requires
        post_of(h, d, p),
        h.url == "http://"@ + host + ":"@ + text::dec(port as nat) + "/"@ + path,
        !host.contains('/'),
        !host.contains(':'),
        host.len() > 0,
        secs <= u64::MAX / 3_600_000,
    ensures
        p.host@ == host,
        p.port == port,
        h.content_type is None ==> p.request@ == request_text(
            host,
            port,
            "/"@ + path,
            "application/json"@,
            d.filled(h.body),
        ),
        h.content_type matches Some(t) ==> p.request@ == request_text(
            host,
            port,
            "/"@ + path,
            t,
            d.filled(h.body),
        ),
        h.timeout == text::dec(secs as nat) + "s"@ ==> p.timeout_ms == secs * 1000,
        h.timeout.len() == 0 ==> p.timeout_ms == 10_000,
{
    an_address_is_host_port_and_path(host, port, path);
    crate::graceful_config::a_time_is_a_number_and_a_unit(secs);
    if h.timeout.len() == 0 {
        text::lemma_trim_id(h.timeout);
        crate::graceful_config::anything_else_is_no_time(h.timeout);
    }
}

} // verus!
