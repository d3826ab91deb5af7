//! Resolving where the API listens.
//!
//! The default binds the host's Tailscale address specifically, not every
//! interface. That makes the network boundary and the auth boundary independent
//! failure domains: a mistake in the auth code does not expose Prism to the
//! local network or the internet, and a Tailscale ACL mistake still meets TOTP.
//!
//! Binding a wildcard is possible but never silent: [`BindMode::is_wildcard`]
//! tells of it, so that a warning is given. A remote management interface
//! reachable from a café network is a materially different product from one
//! reachable only from the operator's own devices.

use crate::config;
use crate::config::BindMode;
use crate::discover::{Address, AddressView};
use crate::text;
use vstd::prelude::*;

verus! {

/// Where to listen.
#[derive(Debug, Clone, Copy, PartialEq, Eq)]
pub struct Socket {
    pub addr: Address,
    pub port: u16,
}

// ---------------------------------------------------------------------------
// IPv4 addresses
// ---------------------------------------------------------------------------

/// A number below 256 in decimal digits, without leading zeros.
pub open spec fn octet(s: Seq<char>) -> Option<u8> {
    if 1 <= s.len() <= 3 && text::all_digits(s) && (s.len() == 1 || s[0] != '0') && text::dec_val(s)
        < 256 {
        Some(text::dec_val(s) as u8)
    } else {
        None
    }
}

/// An IPv4 address as text: four numbers with dots between.
pub open spec fn dotted(s: Seq<char>) -> Option<Seq<u8>> {
    let p = text::split(s, '.');
    if p.len() == 4 {
        match (octet(p[0]), octet(p[1]), octet(p[2]), octet(p[3])) {
            (Some(a), Some(b), Some(c), Some(d)) => Some(seq![a, b, c, d]),
            _ => None,
        }
    } else {
        None
    }
}

fn parse_octet(s: &str) -> (r: Option<u8>)
    ensures
        r == octet(s@),
{
    let v = text::chars_of(s);
    if v.len() == 0 || v.len() > 3 {
        return None;
    }
    // A sign is no digit.
    if v[0] == '+' {
        assert(!text::is_digit(s@[0]));
        return None;
    }
    if v.len() > 1 && v[0] == '0' {
        return None;
    }
    match text::parse_number(s, 255) {
        Some(n) => Some(n as u8),
        None => None,
    }
}

/// An IPv4 address from its text.
pub fn parse_v4(s: &str) -> (r: Option<[u8; 4]>)
    ensures
        match r {
            Some(o) => dotted(s@) == Some(o@),
            None => dotted(s@) is None,
        },
{
    let p = text::split_str(s, '.');
    let ghost parts = text::split(s@, '.');
    assert(text::strs(p@).len() == p@.len());
    if p.len() != 4 {
        return None;
    }
    assert(parts[0] == p@[0]@ && parts[1] == p@[1]@ && parts[2] == p@[2]@ && parts[3] == p@[3]@);
    let a = parse_octet(p[0].as_str());
    let b = parse_octet(p[1].as_str());
    let c = parse_octet(p[2].as_str());
    let d = parse_octet(p[3].as_str());
    match (a, b, c, d) {
        (Some(a), Some(b), Some(c), Some(d)) => {
            let o: [u8; 4] = [a, b, c, d];
            assert(o@ =~= seq![a, b, c, d]);
            Some(o)
        },
        _ => None,
    }
}

/// An address from its text, given what it is as IPv6 where it is that.
pub open spec fn address(s: Seq<char>, v6: Option<Seq<u8>>) -> Option<AddressView> {
    match dotted(s) {
        Some(o) => Some(AddressView::V4(o)),
        None => match v6 {
            Some(o) => Some(AddressView::V6(o)),
            None => None,
        },
    }
}

fn parse_address(s: &str, v6: Option<[u8; 16]>) -> (r: Option<Address>)
    ensures
        (match r {
            Some(a) => Some(a@),
            None => None,
        }) == address(s@, octets_of(v6)),
{
    match parse_v4(s) {
        Some(o) => Some(Address::V4(o)),
        None => match v6 {
            Some(o) => Some(Address::V6(o)),
            None => None,
        },
    }
}

pub open spec fn octets_of(v6: Option<[u8; 16]>) -> Option<Seq<u8>> {
    match v6 {
        Some(o) => Some(o@),
        None => None,
    }
}

// ---------------------------------------------------------------------------
// Resolving
// ---------------------------------------------------------------------------

pub open spec fn loopback() -> AddressView {
    AddressView::V4(seq![127u8, 0, 0, 1])
}

/// The tailnet address in what the Tailscale CLI answers: its first line.
pub open spec fn tailnet(answer: Option<&str>, v6: Option<Seq<u8>>) -> Option<AddressView> {
    match answer {
        Some(a) => if text::lines(a@).len() > 0 {
            address(text::trim(text::lines(a@)[0]), v6)
        } else {
            None
        },
        None => None,
    }
}

/// The address that a mode stands for; none where it is not one.
pub open spec fn resolved(mode: BindMode, answer: Option<&str>, v6: Option<Seq<u8>>) -> Option<
    AddressView,
> {
    match mode {
        BindMode::Localhost => Some(loopback()),
        BindMode::Address(a) => address(a@, v6),
        BindMode::Tailscale => match tailnet(answer, v6) {
            Some(a) => Some(a),
            None => Some(loopback()),
        },
    }
}

fn tailscale_ip(answer: Option<&str>, v6: Option<[u8; 16]>) -> (r: Option<Address>)
    ensures
        (match r {
            Some(a) => Some(a@),
            None => None,
        }) == tailnet(answer, octets_of(v6)),
{
    match answer {
        Some(a) => {
            let lines = text::lines_of(a);
            assert(text::strs(lines@).len() == lines@.len());
            if lines.len() == 0 {
                return None;
            }
            assert(text::lines(a@)[0] == lines@[0]@);
            parse_address(text::trim_str(lines[0].as_str()).as_str(), v6)
        },
        None => None,
    }
}

/// Resolve a bind mode to a concrete socket address, given what the Tailscale
/// CLI answers, where it does, and what the text in question is as an IPv6
/// address, where it is one. An error says what is wrong with the address.
///
/// Falls back to loopback when the tailnet address cannot be determined. That is
/// deliberately conservative: an unreachable Prism is a nuisance, whereas one
/// that quietly binds every interface because Tailscale was down is a hazard.
pub fn resolve(mode: &BindMode, port: u16, answer: Option<&str>, v6: Option<[u8; 16]>) -> (r: Result<
    Socket,
    String,
>)
    ensures
        match r {
            Ok(s) => s.port == port && resolved(*mode, answer, octets_of(v6)) == Some(s.addr@),
            Err(why) => resolved(*mode, answer, octets_of(v6)) is None && *mode is Address && why@
                == "`"@ + mode->Address_0@ + "` is not a valid IP address"@,
        },
{
    match mode {
        BindMode::Localhost => Ok(Socket { addr: localhost(), port }),
        BindMode::Address(a) => match parse_address(a.as_str(), v6) {
            Some(addr) => Ok(Socket { addr, port }),
            None => {
                let mut why = "`".to_string();
                why.append(a.as_str());
                why.append("` is not a valid IP address");
                Err(why)
            },
        },
        BindMode::Tailscale => match tailscale_ip(answer, v6) {
            Some(addr) => Ok(Socket { addr, port }),
            None => Ok(Socket { addr: localhost(), port }),
        },
    }
}

fn localhost() -> (r: Address)
    ensures
        r@ == loopback(),
{
    let o: [u8; 4] = [127, 0, 0, 1];
    assert(o@ =~= seq![127u8, 0, 0, 1]);
    Address::V4(o)
}

// ---------------------------------------------------------------------------
// Laws
// ---------------------------------------------------------------------------

/// What is not an address is an error, and never listens anywhere: falling back
/// on a typo would silently publish the service.
pub proof fn a_typo_binds_nothing(a: String)
    requires
        dotted(a@) is None,
    ensures
        resolved(BindMode::Address(a), None, None) is None,
{
}

pub open spec fn all_zero(o: Seq<u8>) -> bool {
    forall|i: int| 0 <= i < o.len() ==> #[trigger] o[i] == 0
}

/// An address that stands for every interface.
pub open spec fn wildcard(a: AddressView) -> bool {
    match a {
        AddressView::V4(o) => all_zero(o),
        AddressView::V6(o) => all_zero(o),
    }
}

/// Neither the default mode nor loopback ever binds a wildcard, as long as the
/// tailnet does not itself name one as the address of this host.
pub proof fn no_wildcard_unless_it_is_asked_for(answer: Option<&str>, v6: Option<Seq<u8>>)
    requires
        tailnet(answer, v6) matches Some(a) ==> !wildcard(a),
    ensures
        !wildcard(resolved(BindMode::Tailscale, answer, v6)->0),
        !wildcard(resolved(BindMode::Localhost, answer, v6)->0),
{
    assert(!wildcard(loopback())) by {
        assert(loopback()->V4_0[0] == 127);
    }
}

/// What the reading of a text as IPv6 owes to the text: an address that is all
/// zero is written in zeros.
pub open spec fn read_as_v6(s: Seq<char>, v6: Option<Seq<u8>>) -> bool {
    v6 matches Some(o) ==> all_zero(o) ==> config::written_in_zeros(s)
}

/// A wildcard bind is never silent: where a mode resolves to the address of
/// every interface, it says so itself. Of the default mode that is said as long
/// as the tailnet does not name such an address as that of this host.
pub proof fn a_wildcard_is_never_silent(
    mode: BindMode,
    answer: Option<&str>,
    v6: Option<Seq<u8>>,
)
    requires
        mode matches BindMode::Address(a) ==> read_as_v6(a@, v6),
        mode is Tailscale ==> (tailnet(answer, v6) matches Some(a) ==> !wildcard(a)),
    ensures
        resolved(mode, answer, v6) matches Some(a) ==> wildcard(a) ==> config::wildcard_mode(mode),
{
    match mode {
        BindMode::Address(a) => {
            if let Some(o) = dotted(a@) {
                if all_zero(o) {
                    lemma_zeros(a@);
                }
            }
        },
        _ => {
            assert(loopback()->V4_0[0] == 127);
        },
    }
}

/// `0.0.0.0` is the one way to write four zeros.
proof fn lemma_zeros(s: Seq<char>)
    requires
        dotted(s) is Some,
        all_zero(dotted(s)->0),
    ensures
        s == "0.0.0.0"@,
        text::starts(s, "0.0.0.0"@),
{
    let p = text::split(s, '.');
    let o = dotted(s)->0;
    assert(o =~= seq![octet(p[0])->0, octet(p[1])->0, octet(p[2])->0, octet(p[3])->0]);
    assert(o[0] == 0);
    assert(o[1] == 0);
    assert(o[2] == 0);
    assert(o[3] == 0);
    lemma_zero(p[0]);
    lemma_zero(p[1]);
    lemma_zero(p[2]);
    lemma_zero(p[3]);
    lemma_rejoined(s, 3);
    let b = s.skip(text::pos(s, '.') + 1);
    lemma_rejoined(b, 2);
    let c = b.skip(text::pos(b, '.') + 1);
    lemma_rejoined(c, 1);
    let d = c.skip(text::pos(c, '.') + 1);
    lemma_rejoined(d, 0);
    reveal_strlit("0.0.0.0");
    assert(s =~= "0.0.0.0"@);
    assert(s.subrange(0, 7) =~= s);
}

proof fn lemma_zero(s: Seq<char>)
    requires
        octet(s) == Some(0u8),
    ensures
        s =~= seq!['0'],
{
    reveal_with_fuel(text::dec_val, 2);
    if s.len() > 1 {
        text::lemma_dec_val_grows(s, 1);
        assert(text::is_digit(s[0]));
        assert(text::dec_val(s.take(1)) > 0) by {
            assert(s.take(1).drop_last() =~= seq![]);
        }
    } else {
        assert(s.drop_last() =~= seq![]);
        assert(text::is_digit(s[0]));
    }
}

/// The first part and what is left of a text that falls into parts at its dots.
proof fn lemma_rejoined(s: Seq<char>, more: nat)
    requires
        text::split(s, '.').len() == more + 1,
    ensures
        more == 0 ==> text::split(s, '.')[0] == s,
        more > 0 ==> {
            let i = text::pos(s, '.');
            let rest = s.skip(i + 1);
            &&& 0 <= i < s.len()
            &&& s == text::split(s, '.')[0] + seq!['.'] + rest
            &&& text::split(rest, '.').len() == more
            &&& text::split(rest, '.') == text::split(s, '.').skip(1)
        },
{
    text::lemma_pos(s, '.');
    let i = text::pos(s, '.');
    if i < s.len() {
        let rest = s.skip(i + 1);
        text::lemma_split(rest, '.');
        assert(text::split(s, '.') =~= seq![s.take(i)] + text::split(rest, '.'));
        assert(text::split(s, '.').skip(1) =~= text::split(rest, '.'));
        assert(s =~= s.take(i) + seq!['.'] + rest);
    }
}

/// Where the tailnet cannot be asked, only this machine is served.
pub proof fn no_tailnet_means_loopback(v6: Option<Seq<u8>>)
    ensures
        resolved(BindMode::Tailscale, None, v6) == Some(loopback()),
{
}

proof fn lemma_octet(n: u8)
    ensures
        octet(text::dec(n as nat)) == Some(n),
        !text::dec(n as nat).contains('.'),
{
    reveal_with_fuel(text::dec, 4);
    let d = text::dec(n as nat);
    text::lemma_dec(n as nat);
    if d.contains('.') {
        let i = choose|i: int| 0 <= i < d.len() && d[i] == '.';
        assert(text::is_digit(d[i]));
    }
}

/// Four numbers with points between are an address.
pub proof fn four_numbers_are_an_address(a: u8, b: u8, c: u8, d: u8)
    ensures
        dotted(
            text::dec(a as nat) + "."@ + text::dec(b as nat) + "."@ + text::dec(c as nat) + "."@
                + text::dec(d as nat),
        ) == Some(seq![a, b, c, d]),
{
    lemma_octet(a);
    lemma_octet(b);
    lemma_octet(c);
    lemma_octet(d);
    lemma_four(
        text::dec(a as nat),
        text::dec(b as nat),
        text::dec(c as nat),
        text::dec(d as nat),
    );
}

proof fn lemma_four(p: Seq<char>, q: Seq<char>, r: Seq<char>, t: Seq<char>)
    requires
        !p.contains('.'),
        !q.contains('.'),
        !r.contains('.'),
        !t.contains('.'),
    ensures
        text::split(p + "."@ + q + "."@ + r + "."@ + t, '.') == seq![p, q, r, t],
{
    reveal_strlit(".");
    let last = r.push('.') + t;
    let more = q.push('.') + last;
    text::lemma_split_one(t, '.');
    text::lemma_split_cons(r, '.', t);
    text::lemma_split_cons(q, '.', last);
    text::lemma_split_cons(p, '.', more);
    assert(p + "."@ + q + "."@ + r + "."@ + t =~= p.push('.') + more);
    assert(text::split(p.push('.') + more, '.') =~= seq![p, q, r, t]);
}

/// Where the API listens: on this machine alone, at the address that is given, or
/// at the first that the tailnet names, and without one on this machine alone.
pub proof fn where_the_api_listens(a: String, told: &str, v6: Option<Seq<u8>>)
    ensures
        resolved(BindMode::Localhost, Some(told), v6) == Some(
            AddressView::V4(seq![127u8, 0, 0, 1]),
        ),
        dotted(a@) matches Some(o) ==> resolved(BindMode::Address(a), Some(told), v6) == Some(
            AddressView::V4(o),
        ),
        dotted(a@) is None ==> (v6 matches Some(o) ==> resolved(
            BindMode::Address(a),
            Some(told),
            v6,
        ) == Some(AddressView::V6(o))),
        text::lines(told@).len() > 0 ==> (dotted(text::trim(text::lines(told@)[0])) matches Some(o)
            ==> resolved(BindMode::Tailscale, Some(told), v6) == Some(AddressView::V4(o))),
        text::lines(told@).len() > 0 && dotted(text::trim(text::lines(told@)[0])) is None && v6
            is None ==> resolved(BindMode::Tailscale, Some(told), v6) == Some(
            AddressView::V4(seq![127u8, 0, 0, 1]),
        ),
        text::lines(told@).len() == 0 ==> resolved(BindMode::Tailscale, Some(told), v6) == Some(
            AddressView::V4(seq![127u8, 0, 0, 1]),
        ),
{
}

/// A number of an address has no more than three digits, no zero in front, and is
/// at most 255.
pub proof fn a_number_of_an_address_is_small(n: nat, s: Seq<char>)
    ensures
        n > 255 ==> octet(text::dec(n)) is None,
        s.len() > 1 && s[0] == '0' ==> octet(s) is None,
        s.len() > 3 || s.len() == 0 ==> octet(s) is None,
{
    text::lemma_dec(n);
}

} // verus!
