//! `prismd open` — reach the shell from the machine that is hosting it.
//!
//! Prism is normally operated from somewhere else, and the authenticator is
//! right for that. It is wrong for sitting at the machine: the secret it guards
//! is a file on this disk, so demanding a phone to reach a service on the desk
//! in front of you protects nothing and costs every time.
//!
//! This exchanges the console key — a file only the owning user can read — for a
//! single-use grant, and opens a browser straight into the shell.

use crate::text;
use vstd::prelude::*;

verus! {

/// `s` without `p` at its start, however often it stands there.
pub open spec fn past(s: Seq<char>, p: Seq<char>) -> Seq<char>
    decreases s.len(),
{
    if p.len() > 0 && text::starts(s, p) {
        past(s.skip(p.len() as int), p)
    } else {
        s
    }
}

/// `s` without the slashes at its end.
pub open spec fn unended(s: Seq<char>) -> Seq<char>
    decreases s.len(),
{
    if s.len() > 0 && s.last() == '/' {
        unended(s.drop_last())
    } else {
        s
    }
}

/// Why an address cannot be used.
#[derive(Debug, Clone, Copy, PartialEq, Eq, Structural)]
pub enum AuthorityError {
    NoPort,
    BadPort,
}

impl AuthorityError {
    pub fn message(&self) -> (r: &'static str)
        ensures
            r@ == (match *self {
                AuthorityError::NoPort => "no port in address"@,
                AuthorityError::BadPort => "bad port"@,
            }),
    {
        match self {
            AuthorityError::NoPort => "no port in address",
            AuthorityError::BadPort => "bad port",
        }
    }
}

/// The host and port of an address.
pub open spec fn authority(base: Seq<char>) -> Result<(Seq<char>, nat), AuthorityError> {
    match text::rsplit_once(past(base, "http://"@), ':') {
        None => Err(AuthorityError::NoPort),
        Some((host, port)) => match text::number(unended(port), u16::MAX as nat) {
            Some(n) => Ok((host, n)),
            None => Err(AuthorityError::BadPort),
        },
    }
}

fn skip_scheme(base: &str) -> (r: String)
    ensures
        r@ == past(base@, "http://"@),
{
    proof {
        reveal_strlit("http://");
    }
    let mut rest = base.to_string();
    loop
        invariant
            past(rest@, "http://"@) == past(base@, "http://"@),
            "http://"@.len() == 7,
        ensures
            rest@ == past(base@, "http://"@),
        decreases rest@.len(),
    {
        match text::strip_prefix(rest.as_str(), "http://") {
            Some(t) => {
                rest = t;
            },
            None => {
                break;
            },
        }
    }
    rest
}

fn skip_end(s: &str) -> (r: String)
    ensures
        r@ == unended(s@),
{
    let v = text::chars_of(s);
    let mut n: usize = v.len();
    assert(v@.take(n as int) =~= v@);
    while n > 0 && v[n - 1] == '/'
        invariant
            n <= v.len(),
            unended(v@.take(n as int)) == unended(v@),
        decreases n,
    {
        assert(v@.take(n as int).drop_last() =~= v@.take(n - 1));
        assert(v@.take(n as int).last() == v@[n - 1]);
        n -= 1;
    }
    let r = text::string_from(v.as_slice(), 0, n);
    assert(r@ =~= v@.take(n as int));
    assert(n > 0 ==> v@.take(n as int).last() == v@[n - 1]);
    r
}

/// The host and port of an address.
pub fn split_authority(base: &str) -> (r: Result<(String, u16), AuthorityError>)
    ensures
        match r {
            Ok(p) => authority(base@) == Ok::<(Seq<char>, nat), AuthorityError>((p.0@, p.1 as nat)),
            Err(e) => authority(base@) == Err::<(Seq<char>, nat), AuthorityError>(e),
        },
{
    let rest = skip_scheme(base);
    match text::split_last(rest.as_str(), ':') {
        None => Err(AuthorityError::NoPort),
        Some((host, port)) => match text::parse_u16(skip_end(port.as_str()).as_str()) {
            Some(n) => Ok((host, n)),
            None => Err(AuthorityError::BadPort),
        },
    }
}

/// The address of the daemon on a host.
pub open spec fn base_at(host: Seq<char>, port: u16) -> Seq<char> {
    "http://"@ + host + ":"@ + text::dec(port as nat)
}

pub fn base(host: &str, port: u16) -> (r: String)
    ensures
        r@ == base_at(host@, port),
{
    let mut out = "http://".to_string();
    out.append(host);
    out.append(":");
    text::push_dec(&mut out, port as u64);
    out
}

/// The address Prism actually advertises, from what the Tailscale CLI answers,
/// so that the URL that gets opened is the same one that works from a phone a
/// minute later.
pub open spec fn advertised(answer: Seq<char>, port: u16) -> Option<Seq<char>> {
    if text::lines(answer).len() > 0 && text::trim(text::lines(answer)[0]).len() > 0 {
        Some(base_at(text::trim(text::lines(answer)[0]), port))
    } else {
        None
    }
}

/// The address Prism actually advertises.
pub fn advertised_base(answer: &str, port: u16) -> (r: Option<String>)
    ensures
        text::opt(r) == advertised(answer@, port),
{
    let lines = text::lines_of(answer);
    assert(text::strs(lines@).len() == lines@.len());
    if lines.len() == 0 {
        return None;
    }
    assert(text::lines(answer@)[0] == lines@[0]@);
    let addr = text::trim_str(lines[0].as_str());
    if addr.as_str().is_empty() {
        None
    } else {
        Some(base(addr.as_str(), port))
    }
}

/// The body that hands over the console key.
pub open spec fn key_body(key: Seq<char>) -> Seq<char> {
    "{\"key\":\""@ + key + "\"}"@
}

/// The request that exchanges the console key for a grant.
pub open spec fn grant_request(host: Seq<char>, key: Seq<char>) -> Seq<char> {
    "POST /api/auth/console HTTP/1.1\r\nHost: "@ + host
        + "\r\nContent-Type: application/json\r\nContent-Length: "@ + text::dec(
        vstd::utf8::encode_utf8(key_body(key)).len(),
    ) + "\r\nConnection: close\r\n\r\n"@ + key_body(key)
}

/// The request that exchanges the console key for a grant. Written by hand
/// because the whole exchange is one request to a service on this machine.
pub fn request(host: &str, key: &str) -> (r: String)
    ensures
        r@ == grant_request(host@, key@),
{
    let mut body = "{\"key\":\"".to_string();
    body.append(key);
    body.append("\"}");
    let length: usize = body.as_str().as_bytes().len();
    let mut out = "POST /api/auth/console HTTP/1.1\r\nHost: ".to_string();
    out.append(host);
    out.append("\r\nContent-Type: application/json\r\nContent-Length: ");
    text::push_dec(&mut out, length as u64);
    out.append("\r\nConnection: close\r\n\r\n");
    out.append(body.as_str());
    out
}

/// The grant in a reply: what stands in quotes behind its name.
pub open spec fn grant_in(response: Seq<char>) -> Option<Seq<char>> {
    match text::find(response, "\"grant\":\""@) {
        Some(i) => match text::split_once(response.skip(i + "\"grant\":\""@.len()), '"') {
            Some((g, _)) => Some(g),
            None => None,
        },
        None => None,
    }
}

/// Why there is no grant in a reply.
pub open spec fn refusal_in(response: Seq<char>) -> Seq<char> {
    if text::within(response, "bad_key"@) {
        "the console key was refused — prismd may be running with a different state dir"@
    } else {
        "no grant in the reply"@
    }
}

/// The grant in a reply, or why there is none.
pub fn read_grant(response: &str) -> (r: Result<String, &'static str>)
    ensures
        match r {
            Ok(g) => grant_in(response@) == Some(g@),
            Err(why) => grant_in(response@) is None && why@ == refusal_in(response@),
        },
{
    let v = text::chars_of(response);
    let mark = text::chars_of("\"grant\":\"");
    match text::find_chars(v.as_slice(), mark.as_slice()) {
        Some(i) => {
            let n: usize = v.len();
            assert(i + mark@.len() <= n);
            let from: usize = i + mark.len();
            let rest = text::string_from(v.as_slice(), from, v.len());
            assert(rest@ =~= response@.skip(i + mark@.len()));
            match text::split_first(rest.as_str(), '"') {
                Some((g, _)) => {
                    return Ok(g);
                },
                None => {},
            }
        },
        None => {},
    }
    if text::contains(response, "bad_key") {
        Err("the console key was refused — prismd may be running with a different state dir")
    } else {
        Err("no grant in the reply")
    }
}

/// Where a browser spends a grant.
pub fn grant_url(reach: &str, grant: &str) -> (r: String)
    ensures
        r@ == reach@ + "/auth/console?grant="@ + grant@,
{
    let mut out = reach.to_string();
    out.append("/auth/console?grant=");
    out.append(grant);
    out
}

/// An address that is made of a host and a port comes apart into them, where
/// the host holds no scheme of its own.
pub proof fn an_address_comes_apart(host: Seq<char>, port: u16)
    requires
        !text::starts(host + ":"@ + text::dec(port as nat), "http://"@),
    ensures
        authority(base_at(host, port)) == Ok::<(Seq<char>, nat), AuthorityError>(
            (host, port as nat),
        ),
{
    reveal_strlit("http://");
    reveal_strlit(":");
    let b = base_at(host, port);
    let d = text::dec(port as nat);
    let rest = host + ":"@ + d;
    assert(b =~= "http://"@ + rest);
    assert(b.subrange(0, 7) =~= "http://"@);
    assert(b.skip(7) =~= rest);
    assert(past(b, "http://"@) == past(rest, "http://"@));
    assert(past(rest, "http://"@) == rest);
    text::lemma_dec(port as nat);
    assert forall|j: int| host.len() < j < rest.len() implies rest[j] != ':' by {
        assert(rest[j] == d[j - host.len() - 1]);
        assert(text::is_digit(d[j - host.len() - 1]));
    }
    assert(rest[host.len() as int] == ':');
    text::lemma_rpos_is(rest, ':', host.len() as int);
    assert(rest.take(host.len() as int) =~= host);
    assert(rest.skip(host.len() as int + 1) =~= d);
    assert(d.len() > 0 && text::is_digit(d.last()));
    assert(unended(d) == d);
    text::lemma_number_dec(port as nat, u16::MAX as nat);
}

/// A grant is what stands in the first quotation marks behind its name in the
/// reply; without the name, or without an end to it, there is none.
pub proof fn a_grant_is_read_from_its_quotes(
    before: Seq<char>,
    grant: Seq<char>,
    rest: Seq<char>,
    other: Seq<char>,
)
    requires
        !grant.contains('"'),
        forall|i: int|
            0 <= i < before.len() ==> !#[trigger] text::at(
                before + "\"grant\":\""@ + grant + "\""@ + rest,
                "\"grant\":\""@,
                i,
            ),
        forall|i: int| !#[trigger] text::at(other, "\"grant\":\""@, i),
    ensures
        grant_in(before + "\"grant\":\""@ + grant + "\""@ + rest) == Some(grant),
        grant_in(other) is None,
{
    reveal_strlit("\"");
    let k = "\"grant\":\""@;
    let s = before + k + grant + "\""@ + rest;
    let n = before.len() as int;
    assert(s.subrange(n, n + k.len()) =~= k);
    assert(text::at(s, k, n));
    text::lemma_find_is(s, k, n);
    let t = s.skip(n + k.len());
    assert(t =~= grant + "\""@ + rest);
    let m = grant.len() as int;
    assert(t[m] == '"');
    assert forall|j: int| 0 <= j < m implies t[j] != '"' by {
        assert(t[j] == grant[j]);
        assert(grant.contains(grant[j]));
    }
    text::lemma_pos_is(t, '"', m);
    assert(t.take(m) =~= grant);
    text::lemma_find(other, k);
}

/// The address that is told is that of the first line, and none where that is
/// blank or there is no line.
pub proof fn the_first_line_tells_the_address(answer: Seq<char>, port: u16)
    ensures
        text::lines(answer).len() == 0 ==> advertised(answer, port) is None,
        text::lines(answer).len() > 0 && text::trim(text::lines(answer)[0]).len() == 0
            ==> advertised(answer, port) is None,
        text::lines(answer).len() > 0 && text::trim(text::lines(answer)[0]).len() > 0
            ==> advertised(answer, port) == Some(
            "http://"@ + text::trim(text::lines(answer)[0]) + ":"@ + text::dec(port as nat),
        ),
{
}

/// An address without a port, or with one that is no number of sixteen bits, is
/// told to be so; slashes behind the port do not matter.
pub proof fn an_address_needs_a_port(host: Seq<char>, port: u16, word: Seq<char>)
    requires
        !host.contains(':'),
        !text::starts(host, "http://"@),
        !word.contains(':'),
        text::number(unended(word), u16::MAX as nat) is None,
        !text::starts(host + ":"@ + word, "http://"@),
        !text::starts(host + ":"@ + text::dec(port as nat) + "/"@, "http://"@),
    ensures
        authority(host) == Err::<(Seq<char>, nat), AuthorityError>(AuthorityError::NoPort),
        authority(host + ":"@ + word) == Err::<(Seq<char>, nat), AuthorityError>(
            AuthorityError::BadPort,
        ),
        authority(host + ":"@ + text::dec(port as nat) + "/"@) == Ok::<
            (Seq<char>, nat),
            AuthorityError,
        >((host, port as nat)),
{
    reveal_strlit(":");
    reveal_strlit("/");
    text::lemma_rpos(host, ':');
    let k = text::rpos(host, ':');
    if k >= 0 {
        assert(host.contains(host[k]));
    }
    lemma_last_colon(host, word);
    let d = text::dec(port as nat);
    text::lemma_dec(port as nat);
    let e = d + "/"@;
    assert(!e.contains(':')) by {
        if e.contains(':') {
            let i = choose|i: int| 0 <= i < e.len() && e[i] == ':';
            if i < d.len() {
                assert(text::is_digit(d[i]));
            }
        }
    }
    lemma_last_colon(host, e);
    assert(host + ":"@ + d + "/"@ =~= host + ":"@ + e);
    assert(e.drop_last() =~= d);
    assert(text::is_digit(d[d.len() - 1]));
    assert(unended(d) == d);
    text::lemma_number_dec(port as nat, u16::MAX as nat);
}

proof fn lemma_last_colon(a: Seq<char>, b: Seq<char>)
    requires
        !b.contains(':'),
    ensures
        text::rsplit_once(a + ":"@ + b, ':') == Some((a, b)),
{
    reveal_strlit(":");
    let s = a + ":"@ + b;
    let n = a.len() as int;
    assert(s[n] == ':');
    assert forall|j: int| n < j < s.len() implies s[j] != ':' by {
        assert(s[j] == b[j - n - 1]);
        assert(b.contains(b[j - n - 1]));
    }
    text::lemma_rpos_is(s, ':', n);
    assert(s.take(n) =~= a);
    assert(s.skip(n + 1) =~= b);
}

/// A reply without a grant says whether it was the key.
pub proof fn a_refused_key_is_told(response: Seq<char>)
    ensures
        (exists|i: int| text::at(response, "bad_key"@, i)) ==> refusal_in(response)
            == "the console key was refused — prismd may be running with a different state dir"@,
        !(exists|i: int| text::at(response, "bad_key"@, i)) ==> refusal_in(response)
            == "no grant in the reply"@,
{
}

} // verus!
