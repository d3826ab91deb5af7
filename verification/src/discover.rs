//! What is already listening on this machine.
//!
//! Recognising workloads one by one does not generalise: every app the operator
//! installs afterwards is invisible until someone edits configuration. So
//! instead of recognising applications, this enumerates *sockets*. Anything
//! serving HTTP on this host is a candidate, whatever it is and whoever wrote
//! it. The sweep proposes; the operator disposes.
//!
//! Probing is done over loopback because that is what the proxy connects to. A
//! service reachable here is one Prism can serve; one it cannot reach here it
//! cannot serve, whatever else it may be bound to.

use crate::config;
use crate::config::Facet;
use crate::order;
use crate::text;
use vstd::prelude::*;

verus! {

/// How much of an answer is looked at for a title: this is a probe, not a
/// download.
pub const PROBE_CAP: usize = 65536;

/// How long a port is given to answer in plain HTTP, and then in TLS, in
/// milliseconds.
pub const PLAIN_PATIENCE_MS: u64 = 900;

pub const TLS_PATIENCE_MS: u64 = 1200;

/// An address, its octets in network order.
#[derive(Debug, Clone, Copy, PartialEq, Eq)]
pub enum Address {
    V4([u8; 4]),
    V6([u8; 16]),
}

/// A listening TCP socket, straight from the kernel.
#[derive(Debug, Clone, Copy, PartialEq, Eq)]
pub struct Listener {
    pub addr: Address,
    pub port: u16,
    pub inode: u64,
}

pub enum AddressView {
    V4(Seq<u8>),
    V6(Seq<u8>),
}

impl View for Address {
    type V = AddressView;

    open spec fn view(&self) -> AddressView {
        match *self {
            Address::V4(o) => AddressView::V4(o@),
            Address::V6(o) => AddressView::V6(o@),
        }
    }
}

pub struct ListenerView {
    pub addr: AddressView,
    pub port: nat,
    pub inode: nat,
}

impl View for Listener {
    type V = ListenerView;

    open spec fn view(&self) -> ListenerView {
        ListenerView { addr: self.addr@, port: self.port as nat, inode: self.inode as nat }
    }
}

pub open spec fn listener_views(v: Seq<Listener>) -> Seq<ListenerView> {
    v.map_values(|l: Listener| l@)
}

// ---------------------------------------------------------------------------
// The socket table
// ---------------------------------------------------------------------------

/// The octets of a 32-bit word that the kernel wrote in host order on a
/// little-endian machine: the least significant comes first.
pub open spec fn octets(n: nat) -> Seq<u8> {
    seq![
        (n % 256) as u8,
        (n / 256 % 256) as u8,
        (n / 65536 % 256) as u8,
        (n / 16777216 % 256) as u8,
    ]
}

/// The octets that eight hexadecimal digits write.
pub open spec fn word(hex: Seq<char>) -> Option<Seq<u8>> {
    match text::hex_number(hex, u32::MAX as nat) {
        Some(n) => Some(octets(n)),
        None => None,
    }
}

/// The address that hexadecimal digits write: eight of them are IPv4, and
/// thirty-two are IPv6 as four words.
pub open spec fn address(hex: Seq<char>) -> Option<AddressView> {
    if hex.len() == 8 {
        match word(hex) {
            Some(o) => Some(AddressView::V4(o)),
            None => None,
        }
    } else if hex.len() == 32 {
        match (
            word(hex.subrange(0, 8)),
            word(hex.subrange(8, 16)),
            word(hex.subrange(16, 24)),
            word(hex.subrange(24, 32)),
        ) {
            (Some(a), Some(b), Some(c), Some(d)) => Some(AddressView::V6(a + b + c + d)),
            _ => None,
        }
    } else {
        None
    }
}

/// The listener on a line of the table: one in state `0A`, with an address and
/// a port.
pub open spec fn listener(line: Seq<char>) -> Option<ListenerView> {
    let f = text::words(line);
    if f.len() < 10 || f[3] != "0A"@ {
        None
    } else {
        match text::split_once(f[1], ':') {
            Some((a, p)) => match (text::hex_number(p, u16::MAX as nat), address(a)) {
                (Some(port), Some(addr)) => Some(
                    ListenerView {
                        addr,
                        port,
                        inode: match text::number(f[9], u64::MAX as nat) {
                            Some(n) => n,
                            None => 0,
                        },
                    },
                ),
                _ => None,
            },
            None => None,
        }
    }
}

/// The listeners on the first `n` lines, the heading left out.
pub open spec fn listeners(lines: Seq<Seq<char>>, n: int) -> Seq<ListenerView>
    decreases n,
{
    if n <= 1 {
        seq![]
    } else {
        match listener(lines[n - 1]) {
            Some(l) => listeners(lines, n - 1).push(l),
            None => listeners(lines, n - 1),
        }
    }
}

fn word_of(v: &[char], from: usize) -> (r: Option<[u8; 4]>)
    requires
        from + 8 <= v@.len(),
    ensures
        match r {
            Some(o) => word(v@.subrange(from as int, from + 8)) == Some(o@),
            None => word(v@.subrange(from as int, from + 8)) is None,
        },
{
    let n: usize = v.len();
    assert(from + 8 <= n);
    let s = text::string_from(v, from, from + 8);
    match text::parse_hex(s.as_str(), 4294967295) {
        Some(n) => {
            let o: [u8; 4] = [
                (n % 256) as u8,
                (n / 256 % 256) as u8,
                (n / 65536 % 256) as u8,
                (n / 16777216 % 256) as u8,
            ];
            assert(o@ =~= octets(n as nat));
            Some(o)
        },
        None => None,
    }
}

/// Addresses in `/proc/net/tcp` are hex in host byte order, so on a
/// little-endian machine each 32-bit word reads back-to-front.
pub fn parse_hex_addr(hex: &str) -> (r: Option<Address>)
    ensures
        match r {
            Some(a) => address(hex@) == Some(a@),
            None => address(hex@) is None,
        },
{
    let v = text::chars_of(hex);
    if v.len() == 8 {
        assert(hex@.subrange(0, 8) =~= hex@);
        match word_of(v.as_slice(), 0) {
            Some(o) => Some(Address::V4(o)),
            None => None,
        }
    } else if v.len() == 32 {
        let a = word_of(v.as_slice(), 0);
        let b = word_of(v.as_slice(), 8);
        let c = word_of(v.as_slice(), 16);
        let d = word_of(v.as_slice(), 24);
        match (a, b, c, d) {
            (Some(a), Some(b), Some(c), Some(d)) => {
                let o: [u8; 16] = [
                    a[0],
                    a[1],
                    a[2],
                    a[3],
                    b[0],
                    b[1],
                    b[2],
                    b[3],
                    c[0],
                    c[1],
                    c[2],
                    c[3],
                    d[0],
                    d[1],
                    d[2],
                    d[3],
                ];
                assert(o@ =~= a@ + b@ + c@ + d@);
                Some(Address::V6(o))
            },
            _ => None,
        }
    } else {
        None
    }
}

fn listener_of(line: &str) -> (r: Option<Listener>)
    ensures
        match r {
            Some(l) => listener(line@) == Some(l@),
            None => listener(line@) is None,
        },
{
    let f = text::words_of(line);
    let ghost words = text::words(line@);
    // sl local rem st tx:rx tr tm retrnsmt uid timeout inode
    assert(text::strs(f@).len() == f@.len());
    if f.len() < 10 {
        return None;
    }
    assert(words[3] == f@[3]@ && words[1] == f@[1]@ && words[9] == f@[9]@);
    if !text::same(f[3].as_str(), "0A") {
        return None;
    }
    match text::split_first(f[1].as_str(), ':') {
        Some((a, p)) => match (text::parse_hex(p.as_str(), 65535), parse_hex_addr(a.as_str())) {
            (Some(port), Some(addr)) => {
                let inode: u64 = match text::parse_u64(f[9].as_str()) {
                    Some(n) => n,
                    None => 0,
                };
                Some(Listener { addr, port: port as u16, inode })
            },
            _ => None,
        },
        None => None,
    }
}

/// Parse `/proc/net/tcp` or `/proc/net/tcp6`.
///
/// Only state `0A` (TCP_LISTEN) is of interest. Established connections share
/// the file and would otherwise be reported as services. A line that cannot be
/// understood is passed over.
pub fn parse_listeners(contents: &str) -> (r: Vec<Listener>)
    ensures
        listener_views(r@) == listeners(
            text::lines(contents@),
            text::lines(contents@).len() as int,
        ),
{
    let lines = text::lines_of(contents);
    let ghost all = text::lines(contents@);
    let mut out: Vec<Listener> = Vec::new();
    let mut i: usize = if lines.len() == 0 {
        0
    } else {
        1
    };
    assert(listener_views(out@) =~= listeners(all, i as int));
    while i < lines.len()
        invariant
            lines.len() > 0 ==> 1 <= i,
            i <= lines.len(),
            all == text::strs(lines@),
            listener_views(out@) == listeners(all, i as int),
        decreases lines.len() - i,
    {
        assert(all[i as int] == lines@[i as int]@);
        let ghost before = out@;
        match listener_of(lines[i].as_str()) {
            Some(l) => {
                out.push(l);
                assert(listener_views(out@) =~= listener_views(before).push(l@));
            },
            None => {},
        }
        i += 1;
    }
    out
}

/// The inode in a link of `/proc/<pid>/fd` that leads to a socket.
pub open spec fn inode_in(link: Seq<char>) -> Option<nat> {
    match text::after(link, "socket:["@) {
        Some(rest) => match text::before(rest, "]"@) {
            Some(n) => text::number(n, u64::MAX as nat),
            None => None,
        },
        None => None,
    }
}

/// The inode in a link of `/proc/<pid>/fd` that leads to a socket.
pub fn socket_inode(link: &str) -> (r: Option<u64>)
    ensures
        match r {
            Some(n) => inode_in(link@) == Some(n as nat),
            None => inode_in(link@) is None,
        },
{
    match text::strip_prefix(link, "socket:[") {
        Some(rest) => match text::strip_suffix(rest.as_str(), "]") {
            Some(n) => text::parse_u64(n.as_str()),
            None => None,
        },
        None => None,
    }
}

/// The words of a command line, which stand between NULs.
pub open spec fn command_words(raw: Seq<char>) -> Seq<Seq<char>> {
    text::split(raw, '\0').filter(|p: Seq<char>| p.len() > 0)
}

/// A command line as it is shown: none where there is nothing to see.
pub open spec fn command_shown(raw: Seq<char>) -> Option<Seq<char>> {
    let s = text::join(command_words(raw), " "@);
    if text::trim(s).len() == 0 {
        None
    } else {
        Some(s)
    }
}

/// The full command line, for telling three python processes apart.
pub fn command_line(raw: &[u8]) -> (r: Option<String>)
    ensures
        text::opt(r) == command_shown(text::lossy(raw@)),
{
    let raw = text::from_utf8_lossy(raw);
    show_command(raw.as_str())
}

/// A command line as it is shown: none where there is nothing to see.
pub fn show_command(raw: &str) -> (r: Option<String>)
    ensures
        text::opt(r) == command_shown(raw@),
{
    let parts = text::split_str(raw, '\0');
    let ghost all = text::split(raw@, '\0');
    let ghost keep = |p: Seq<char>| p.len() > 0;
    let mut words: Vec<String> = Vec::new();
    let mut i: usize = 0;
    proof {
        text::lemma_filter_none(all, keep);
        assert(text::strs(words@) =~= seq![]);
    }
    while i < parts.len()
        invariant
            i <= parts.len(),
            all == text::strs(parts@),
            keep == (|p: Seq<char>| p.len() > 0),
            text::strs(words@) == all.take(i as int).filter(keep),
        decreases parts.len() - i,
    {
        proof {
            text::lemma_filter_next(all, keep, i as int);
            assert(all[i as int] == parts@[i as int]@);
        }
        if !parts[i].as_str().is_empty() {
            let p = parts[i].clone();
            proof {
                text::lemma_strs_push(words@, p);
            }
            words.push(p);
        }
        i += 1;
    }
    assert(all.take(i as int) =~= all);
    let s = text::join_strs(&words, " ");
    if text::trim_str(s.as_str()).as_str().is_empty() {
        None
    } else {
        Some(s)
    }
}

// ---------------------------------------------------------------------------
// What an app calls itself
// ---------------------------------------------------------------------------

/// Entities that actually show up in page titles, decoded.
pub open spec fn decoded(s: Seq<char>) -> Seq<char> {
    text::replace(
        text::replace(
            text::replace(
                text::replace(text::replace(s, "&amp;"@, "&"@), "&lt;"@, "<"@),
                "&gt;"@,
                ">"@,
            ),
            "&quot;"@,
            "\""@,
        ),
        "&#39;"@,
        "'"@,
    )
}

/// What stands between the tags of a document's title.
pub open spec fn title_element(html: Seq<char>) -> Option<Seq<char>> {
    match text::find(text::lower(html), "<title"@) {
        Some(start) => {
            let open = start + text::pos(html.skip(start), '>') + 1;
            if open > html.len() {
                None
            } else {
                match text::find(text::lower(html).skip(open), "</title>"@) {
                    Some(n) => Some(html.subrange(open, open + n)),
                    None => None,
                }
            }
        },
        None => None,
    }
}

/// A document's title: entities decoded, white space made single spaces; none
/// where that leaves nothing, or more than two hundred bytes.
pub open spec fn title_of(html: Seq<char>) -> Option<Seq<char>> {
    match title_element(html) {
        Some(raw) => {
            let t = text::join(text::words(decoded(text::trim(raw))), " "@);
            if t.len() > 0 && vstd::utf8::encode_utf8(t).len() <= 200 {
                Some(t)
            } else {
                None
            }
        },
        None => None,
    }
}

/// Extract a `<title>`, tolerating attributes and newlines.
pub fn extract_title(html: &str) -> (r: Option<String>)
    ensures
        text::opt(r) == title_of(html@),
{
    let v = text::chars_of(html);
    let lower = text::lower_chars(v.as_slice());
    let tag = text::chars_of("<title");
    let end_tag = text::chars_of("</title>");
    match text::find_chars(lower.as_slice(), tag.as_slice()) {
        Some(start) => {
            let close: usize = text::pos_from(v.as_slice(), '>', start);
            if close >= v.len() {
                return None;
            }
            let open: usize = close + 1;
            let rest = text::part(lower.as_slice(), open, lower.len());
            assert(rest@ =~= text::lower(html@).skip(open as int));
            match text::find_chars(rest.as_slice(), end_tag.as_slice()) {
                Some(n) => {
                    let raw = text::string_from(v.as_slice(), open, open + n);
                    let t = decode(text::trim_str(raw.as_str()).as_str());
                    let words = text::words_of(t.as_str());
                    let shown = text::join_strs(&words, " ");
                    if !shown.as_str().is_empty() && shown.as_str().as_bytes().len() <= 200 {
                        Some(shown)
                    } else {
                        None
                    }
                },
                None => None,
            }
        },
        None => None,
    }
}

fn decode(s: &str) -> (r: String)
    ensures
        r@ == decoded(s@),
{
    proof {
        reveal_strlit("&amp;");
        reveal_strlit("&lt;");
        reveal_strlit("&gt;");
        reveal_strlit("&quot;");
        reveal_strlit("&#39;");
    }
    let a = text::replace_all(s, "&amp;", "&");
    let b = text::replace_all(a.as_str(), "&lt;", "<");
    let c = text::replace_all(b.as_str(), "&gt;", ">");
    let d = text::replace_all(c.as_str(), "&quot;", "\"");
    text::replace_all(d.as_str(), "&#39;", "'")
}

// ---------------------------------------------------------------------------
// What is offered
// ---------------------------------------------------------------------------

/// What of an answer's body is looked at: its first part.
pub open spec fn looked_at(body: Seq<u8>) -> Seq<u8> {
    if body.len() <= PROBE_CAP {
        body
    } else {
        body.take(PROBE_CAP as int)
    }
}

/// The title that the body of an answer gives.
pub fn page_title(body: &[u8]) -> (r: Option<String>)
    ensures
        text::opt(r) == title_of(text::lossy(looked_at(body@))),
{
    let n: usize = if body.len() <= PROBE_CAP {
        body.len()
    } else {
        PROBE_CAP
    };
    let part = vstd::slice::slice_subrange(body, 0, n);
    assert(part@ =~= looked_at(body@));
    let page = text::from_utf8_lossy(part);
    extract_title(page.as_str())
}

/// Ports of *protocols* that cannot be a web app: resolvers, mail, SSH and the
/// like. Anything not named here is offered.
pub open spec fn infrastructure(port: nat) -> bool {
    ||| port == 22
    ||| port == 25
    ||| port == 53
    ||| port == 111
    ||| port == 123
    ||| 137 <= port <= 139
    ||| port == 445
    ||| port == 465
    ||| port == 587
    ||| port == 631
    ||| port == 993
    ||| port == 995
}

/// Ports that are never interesting as desktop apps.
///
/// Not a blocklist of applications — that would recreate the problem this
/// module exists to solve.
pub fn is_infrastructure(port: u16) -> (r: bool)
    ensures
        r == infrastructure(port as nat),
{
    port == 22 || port == 25 || port == 53 || port == 111 || port == 123 || (137 <= port && port
        <= 139) || port == 445 || port == 465 || port == 587 || port == 631 || port == 993 || port
        == 995
}

/// A port is among those.
pub open spec fn has_port(v: Seq<(u16, u64)>, port: u16) -> bool {
    exists|i: int| 0 <= i < v.len() && (#[trigger] v[i]).0 == port
}

/// The ports of the first `n` listeners that are worth asking, each with the
/// socket that came first. A service bound to both stacks, or to several
/// addresses, is one app.
pub open spec fn worth_asking(v: Seq<Listener>, own_port: u16, n: int) -> Seq<(u16, u64)>
    decreases n,
{
    if n <= 0 {
        seq![]
    } else {
        let before = worth_asking(v, own_port, n - 1);
        let l = v[n - 1];
        if l.port == own_port || infrastructure(l.port as nat) || has_port(before, l.port) {
            before
        } else {
            before.push((l.port, l.inode))
        }
    }
}

proof fn lemma_worth_asking(v: Seq<Listener>, own_port: u16, n: int)
    requires
        0 <= n <= v.len(),
    ensures
        forall|i: int, j: int|
            0 <= i < j < worth_asking(v, own_port, n).len() ==> (#[trigger] worth_asking(
                v,
                own_port,
                n,
            )[i]).0 != (#[trigger] worth_asking(v, own_port, n)[j]).0,
    decreases n,
{
    if n > 0 {
        lemma_worth_asking(v, own_port, n - 1);
        let before = worth_asking(v, own_port, n - 1);
        let now = worth_asking(v, own_port, n);
        assert forall|i: int, j: int| 0 <= i < j < now.len() implies (#[trigger] now[i]).0 != (
        #[trigger] now[j]).0 by {
            assert(now[i] == before[i]);
            if j < before.len() {
                assert(now[j] == before[j]);
                assert(before[i].0 != before[j].0);
            } else {
                assert(!has_port(before, now[j].0));
            }
        }
    }
}

/// The ports to ask, in ascending order, each with the inode of its socket.
/// Prism's own port is not offered, nor one that cannot be a web app.
pub fn ports(v: &Vec<Listener>, own_port: u16) -> (r: Vec<(u16, u64)>)
    ensures
        forall|i: int, j: int|
            0 <= i < j < r@.len() ==> (#[trigger] r@[i]).0 < (#[trigger] r@[j]).0,
        forall|x: (u16, u64)| #[trigger]
            r@.contains(x) <==> worth_asking(v@, own_port, v@.len() as int).contains(x),
{
    let mut found: Vec<(u16, u64)> = Vec::new();
    let mut keys: Vec<Vec<u64>> = Vec::new();
    let mut i: usize = 0;
    while i < v.len()
        invariant
            i <= v.len(),
            found@ == worth_asking(v@, own_port, i as int),
            keys@.len() == found@.len(),
            forall|k: int|
                0 <= k < keys@.len() ==> (#[trigger] keys@[k])@ == seq![found@[k].0 as u64],
        decreases v.len() - i,
    {
        let l = v[i];
        if l.port != own_port && !is_infrastructure(l.port) && !holds_port(&found, l.port) {
            let mut key: Vec<u64> = Vec::new();
            key.push(l.port as u64);
            assert(key@ =~= seq![l.port as u64]);
            keys.push(key);
            found.push((l.port, l.inode));
        }
        i += 1;
    }
    let ghost all = worth_asking(v@, own_port, v@.len() as int);
    let o = order::sort_positions(&keys);
    let mut out: Vec<(u16, u64)> = Vec::new();
    let mut k: usize = 0;
    while k < o.len()
        invariant
            k <= o.len(),
            order::arranges(o@, found@.len()),
            out@.len() == k,
            forall|j: int| 0 <= j < k ==> #[trigger] out@[j] == found@[o@[j] as int],
        decreases o.len() - k,
    {
        let at: usize = o[k];
        out.push(found[at]);
        k += 1;
    }
    proof {
        lemma_worth_asking(v@, own_port, v@.len() as int);
        let ks = order::key_views(keys@);
        assert forall|i: int, j: int| 0 <= i < j < out@.len() implies (#[trigger] out@[i]).0 < (
        #[trigger] out@[j]).0 by {
            let x = o@[i] as int;
            let y = o@[j] as int;
            assert(order::before(ks, x, y));
            assert(ks[x] == keys@[x]@ && ks[y] == keys@[y]@);
            assert(ks[x][0] == found@[x].0 && ks[y][0] == found@[y].0);
            assert(x != y);
            if x < y {
                assert(found@[x].0 != found@[y].0);
            } else {
                assert(found@[y].0 != found@[x].0);
            }
            if order::less(ks[x], ks[y]) && ks[x][0] == ks[y][0] {
                assert(!order::less(ks[x].skip(1), ks[y].skip(1)));
            }
        }
        assert forall|x: (u16, u64)| #[trigger] out@.contains(x) <==> all.contains(x) by {
            if out@.contains(x) {
                let i = choose|i: int| 0 <= i < out@.len() && out@[i] == x;
                assert(all[o@[i] as int] == x);
            }
            if all.contains(x) {
                let p = choose|p: int| 0 <= p < all.len() && all[p] == x;
                lemma_every_place(o@, all.len(), p);
                let i = choose|i: int| 0 <= i < o@.len() && o@[i] == p;
                assert(out@[i] == x);
            }
        }
    }
    out
}

/// An arrangement of the places below `n` holds every one of them.
proof fn lemma_every_place(o: Seq<usize>, n: nat, p: int)
    requires
        order::arranges(o, n),
        0 <= p < n,
    ensures
        exists|i: int| 0 <= i < o.len() && o[i] == p,
{
    let places = o.map_values(|x: usize| x as int);
    if !(exists|i: int| 0 <= i < o.len() && o[i] == p) {
        assert(places.no_duplicates());
        places.unique_seq_to_set();
        let all = vstd::set_lib::set_int_range(0, n as int);
        vstd::set_lib::lemma_int_range(0, n as int);
        let rest = all.remove(p);
        assert(places.to_set().subset_of(rest)) by {
            assert forall|x: int| places.to_set().contains(x) implies rest.contains(x) by {
                let i = choose|i: int| 0 <= i < places.len() && places[i] == x;
                assert(o[i] == x);
            }
        }
        vstd::set_lib::lemma_len_subset(places.to_set(), rest);
    }
}

fn holds_port(v: &Vec<(u16, u64)>, port: u16) -> (r: bool)
    ensures
        r == has_port(v@, port),
{
    let mut i: usize = 0;
    while i < v.len()
        invariant
            i <= v.len(),
            forall|j: int| 0 <= j < i ==> (#[trigger] v@[j]).0 != port,
        decreases v.len() - i,
    {
        if v[i].0 == port {
            return true;
        }
        i += 1;
    }
    false
}

/// The process that holds a socket.
#[derive(Debug)]
pub struct Owner {
    pub inode: u64,
    pub pid: u32,
    pub process: String,
    pub command: Option<String>,
}

/// What came of asking a port.
#[derive(Debug)]
pub struct Probed {
    pub port: u16,
    pub inode: u64,
    /// Whether it answered an HTTP request, and whether that needed TLS.
    pub http: bool,
    pub tls: bool,
    pub title: Option<String>,
}

/// A service the operator could plausibly add to their desktop.
#[derive(Debug)]
pub struct Candidate {
    pub port: u16,
    /// The process holding the socket, when it belongs to this user.
    pub pid: Option<u32>,
    pub process: Option<String>,
    pub command: Option<String>,
    /// Whether anything answered an HTTP request on loopback.
    pub http: bool,
    /// Whether it needed TLS.
    pub tls: bool,
    /// `<title>` of the response, which is usually the app's own name for
    /// itself and a far better default than the process name.
    pub title: Option<String>,
    /// Already configured as a facet, so the UI can show it as claimed rather
    /// than offer to add it twice.
    pub known: bool,
}

pub struct CandidateView {
    pub port: u16,
    pub pid: Option<u32>,
    pub process: Option<Seq<char>>,
    pub command: Option<Seq<char>>,
    pub http: bool,
    pub tls: bool,
    pub title: Option<Seq<char>>,
    pub known: bool,
}

impl View for Candidate {
    type V = CandidateView;

    open spec fn view(&self) -> CandidateView {
        CandidateView {
            port: self.port,
            pid: self.pid,
            process: text::opt(self.process),
            command: text::opt(self.command),
            http: self.http,
            tls: self.tls,
            title: text::opt(self.title),
            known: self.known,
        }
    }
}

pub open spec fn candidate_views(v: Seq<Candidate>) -> Seq<CandidateView> {
    v.map_values(|c: Candidate| c@)
}

/// Whoever was found last to hold a socket.
pub open spec fn owner(owners: Seq<Owner>, inode: u64) -> Option<Owner>
    decreases owners.len(),
{
    if owners.len() == 0 {
        None
    } else if owners.last().inode == inode {
        Some(owners.last())
    } else {
        owner(owners.drop_last(), inode)
    }
}

/// Some facet exposes a port.
pub open spec fn claimed(facets: Seq<config::FacetView>, port: u16) -> bool {
    exists|i: int|
        0 <= i < facets.len() && (#[trigger] facets[i]).expose is Some && facets[i].expose->0.port
            == port
}

/// The candidate that a port makes.
pub open spec fn proposal(
    p: Probed,
    owners: Seq<Owner>,
    facets: Seq<config::FacetView>,
) -> CandidateView {
    let o = owner(owners, p.inode);
    CandidateView {
        port: p.port,
        pid: match o {
            Some(w) => Some(w.pid),
            None => None,
        },
        process: match o {
            Some(w) => Some(w.process@),
            None => None,
        },
        command: match o {
            Some(w) => text::opt(w.command),
            None => None,
        },
        http: p.http,
        tls: p.tls,
        title: text::opt(p.title),
        known: claimed(facets, p.port),
    }
}

/// The candidates among the first `n` ports: those that answered.
pub open spec fn proposals(
    v: Seq<Probed>,
    owners: Seq<Owner>,
    facets: Seq<config::FacetView>,
    n: int,
) -> Seq<CandidateView>
    decreases n,
{
    if n <= 0 {
        seq![]
    } else if v[n - 1].http {
        proposals(v, owners, facets, n - 1).push(proposal(v[n - 1], owners, facets))
    } else {
        proposals(v, owners, facets, n - 1)
    }
}

fn find_owner(owners: &Vec<Owner>, inode: u64) -> (r: Option<usize>)
    ensures
        match r {
            Some(i) => i < owners@.len() && owner(owners@, inode) == Some(owners@[i as int]),
            None => owner(owners@, inode) is None,
        },
{
    let mut i: usize = owners.len();
    assert(owners@.take(i as int) =~= owners@);
    while i > 0
        invariant
            i <= owners@.len(),
            owner(owners@.take(i as int), inode) == owner(owners@, inode),
        decreases i,
    {
        let ghost t = owners@.take(i as int);
        assert(t.last() == owners@[i - 1]);
        assert(t.drop_last() =~= owners@.take(i - 1));
        if owners[i - 1].inode == inode {
            return Some(i - 1);
        }
        i -= 1;
    }
    None
}

fn is_claimed(facets: &Vec<Facet>, port: u16) -> (r: bool)
    ensures
        r == claimed(config::facet_views(facets@), port),
{
    let ghost all = config::facet_views(facets@);
    let mut i: usize = 0;
    while i < facets.len()
        invariant
            i <= facets.len(),
            all == config::facet_views(facets@),
            forall|j: int|
                0 <= j < i ==> !((#[trigger] all[j]).expose is Some && all[j].expose->0.port
                    == port),
        decreases facets.len() - i,
    {
        assert(all[i as int] == facets@[i as int]@);
        match facets[i].expose {
            Some(e) => {
                if e.port == port {
                    return true;
                }
            },
            None => {},
        }
        i += 1;
    }
    false
}

/// Everything on this host that could plausibly become an app.
///
/// A port that does not answer HTTP cannot be shown in a window, and offering
/// it would only produce an app that never loads.
pub fn sweep(probed: &Vec<Probed>, owners: &Vec<Owner>, facets: &Vec<Facet>) -> (r: Vec<Candidate>)
    ensures
        candidate_views(r@) == proposals(
            probed@,
            owners@,
            config::facet_views(facets@),
            probed@.len() as int,
        ),
{
    let ghost views = config::facet_views(facets@);
    let mut out: Vec<Candidate> = Vec::new();
    let mut i: usize = 0;
    assert(candidate_views(out@) =~= proposals(probed@, owners@, views, 0));
    while i < probed.len()
        invariant
            i <= probed.len(),
            views == config::facet_views(facets@),
            candidate_views(out@) == proposals(probed@, owners@, views, i as int),
        decreases probed.len() - i,
    {
        let ghost before = out@;
        if probed[i].http {
            let p = &probed[i];
            let known = is_claimed(facets, p.port);
            let c = match find_owner(owners, p.inode) {
                Some(w) => Candidate {
                    port: p.port,
                    pid: Some(owners[w].pid),
                    process: Some(owners[w].process.clone()),
                    command: text::copy_opt(&owners[w].command),
                    http: p.http,
                    tls: p.tls,
                    title: text::copy_opt(&p.title),
                    known,
                },
                None => Candidate {
                    port: p.port,
                    pid: None,
                    process: None,
                    command: None,
                    http: p.http,
                    tls: p.tls,
                    title: text::copy_opt(&p.title),
                    known,
                },
            };
            assert(c@ == proposal(probed@[i as int], owners@, views));
            out.push(c);
            assert(candidate_views(out@) =~= candidate_views(before).push(c@));
        }
        i += 1;
    }
    out
}

// ---------------------------------------------------------------------------
// Laws
// ---------------------------------------------------------------------------

/// A line is reported only where its socket listens.
pub proof fn only_listening_sockets(line: Seq<char>)
    ensures
        listener(line) is Some ==> text::words(line).len() >= 10 && text::words(line)[3] == "0A"@,
        listener(line) matches Some(l) ==> l.port <= u16::MAX && l.inode <= u64::MAX,
{
}

/// Everything that is offered answered, and comes from a port that was asked.
pub proof fn only_what_answers_is_offered(
    v: Seq<Probed>,
    owners: Seq<Owner>,
    facets: Seq<config::FacetView>,
    n: int,
    i: int,
)
    requires
        0 <= n <= v.len(),
        0 <= i < proposals(v, owners, facets, n).len(),
    ensures
        proposals(v, owners, facets, n)[i].http,
        exists|k: int|
            0 <= k < n && proposals(v, owners, facets, n)[i] == #[trigger] proposal(
                v[k],
                owners,
                facets,
            ),
    decreases n,
{
    if n > 0 {
        let before = proposals(v, owners, facets, n - 1);
        if i < before.len() {
            only_what_answers_is_offered(v, owners, facets, n - 1, i);
            let k = choose|k: int| 0 <= k < n - 1 && before[i] == #[trigger] proposal(
                v[k],
                owners,
                facets,
            );
            assert(proposals(v, owners, facets, n)[i] == proposal(v[k], owners, facets));
        } else {
            assert(proposals(v, owners, facets, n)[i] == proposal(v[n - 1], owners, facets));
        }
    }
}

/// A port is asked once, whatever it is bound to, and never Prism's own nor
/// that of a protocol that cannot be a web app.
pub proof fn a_port_is_asked_once(v: Seq<Listener>, own_port: u16, n: int, i: int, j: int)
    requires
        0 <= n <= v.len(),
        0 <= i < j < worth_asking(v, own_port, n).len(),
    ensures
        worth_asking(v, own_port, n)[i].0 != worth_asking(v, own_port, n)[j].0,
        worth_asking(v, own_port, n)[i].0 != own_port,
        !infrastructure(worth_asking(v, own_port, n)[i].0 as nat),
    decreases n,
{
    lemma_worth_asking(v, own_port, n);
    lemma_asked_is_foreign(v, own_port, n, i);
}

proof fn lemma_asked_is_foreign(v: Seq<Listener>, own_port: u16, n: int, i: int)
    requires
        0 <= n <= v.len(),
        0 <= i < worth_asking(v, own_port, n).len(),
    ensures
        worth_asking(v, own_port, n)[i].0 != own_port,
        !infrastructure(worth_asking(v, own_port, n)[i].0 as nat),
    decreases n,
{
    if n > 0 && i < worth_asking(v, own_port, n - 1).len() {
        lemma_asked_is_foreign(v, own_port, n - 1, i);
    }
}

/// Four bytes of a number, the lowest first.
pub proof fn octets_are_lowest_first(n: nat)
    requires
        n <= u32::MAX,
    ensures
        octets(n).len() == 4,
        octets(n)[0] + 256 * octets(n)[1] + 65_536 * octets(n)[2] + 16_777_216 * octets(n)[3] == n,
{
    let a = n / 256;
    let b = a / 256;
    let c = b / 256;
    assert(b == n / 65536);
    assert(c == n / 16777216);
    assert(n == 256 * a + n % 256);
    assert(a == 256 * b + a % 256);
    assert(b == 256 * c + b % 256);
    assert(c < 256);
}

/// An address of eight hexadecimal digits is of four bytes, one of thirty-two is
/// of sixteen, four by four in order; the digits of each four write them lowest
/// first. No other text is an address.
pub proof fn an_address_is_read_word_by_word(hex: Seq<char>, n: nat)
    ensures
        hex.len() == 8 && text::hex_number(hex, u32::MAX as nat) == Some(n) ==> address(hex) == Some(
            AddressView::V4(octets(n)),
        ),
        hex.len() != 8 && hex.len() != 32 ==> address(hex) is None,
        address(hex) matches Some(AddressView::V6(o)) ==> hex.len() == 32 && o.len() == 16 && word(
            hex.subrange(0, 8),
        ) == Some(o.subrange(0, 4)) && word(hex.subrange(8, 16)) == Some(o.subrange(4, 8)) && word(
            hex.subrange(16, 24),
        ) == Some(o.subrange(8, 12)) && word(hex.subrange(24, 32)) == Some(o.subrange(12, 16)),
        hex.len() == 32 && word(hex.subrange(0, 8)) is Some && word(hex.subrange(8, 16)) is Some
            && word(hex.subrange(16, 24)) is Some && word(hex.subrange(24, 32)) is Some ==> address(
            hex,
        ) is Some,
{
    if let Some(AddressView::V6(o)) = address(hex) {
        let a = word(hex.subrange(0, 8))->0;
        let b = word(hex.subrange(8, 16))->0;
        let c = word(hex.subrange(16, 24))->0;
        let d = word(hex.subrange(24, 32))->0;
        assert(o == a + b + c + d);
        assert(o.subrange(0, 4) =~= a);
        assert(o.subrange(4, 8) =~= b);
        assert(o.subrange(8, 12) =~= c);
        assert(o.subrange(12, 16) =~= d);
    }
}

/// A row of the socket table is a listener exactly where it has ten columns, is
/// in the state of listening, and its second column is an address and a port in
/// hexadecimal. Its last is the inode, or none.
pub proof fn a_row_is_a_listener(line: Seq<char>, a: Seq<char>, p: Seq<char>)
    requires
        text::words(line).len() >= 10,
        !a.contains(':'),
        text::words(line)[1] == a + ":"@ + p,
    ensures
        ({
            let w = text::words(line);
            let port = text::hex_number(p, u16::MAX as nat);
            let l = listener(line);
            &&& l is Some <==> w[3] == "0A"@ && port is Some && address(a) is Some
            &&& l is Some ==> l->0.addr == address(a)->0 && l->0.port == port->0
            &&& l is Some && text::number(w[9], u64::MAX as nat) is Some ==> Some(l->0.inode)
                == text::number(w[9], u64::MAX as nat)
            &&& l is Some && text::number(w[9], u64::MAX as nat) is None ==> l->0.inode == 0
        }),
{
    reveal_strlit(":");
    let s = a + ":"@ + p;
    assert(s[a.len() as int] == ':');
    assert forall|j: int| 0 <= j < a.len() implies s[j] != ':' by {
        assert(s[j] == a[j]);
        assert(a.contains(a[j]));
    }
    text::lemma_pos_is(s, ':', a.len() as int);
    assert(s.take(a.len() as int) =~= a);
    assert(s.skip(a.len() as int + 1) =~= p);
}

/// The first line of the table is a heading; each line behind it that is a
/// listener is told, in order, and no other.
pub proof fn each_row_that_listens_is_told(lines: Seq<Seq<char>>, n: int)
    requires
        1 <= n < lines.len(),
    ensures
        listeners(lines, 1).len() == 0,
        listener(lines[n]) matches Some(l) ==> listeners(lines, n + 1) == listeners(lines, n).push(l),
        listener(lines[n]) is None ==> listeners(lines, n + 1) == listeners(lines, n),
{
}

/// A link to a socket names its inode; no other link does.
pub proof fn a_socket_link_names_its_inode(n: u64, other: Seq<char>)
    requires
        !text::starts(other, "socket:["@),
    ensures
        inode_in("socket:["@ + text::dec(n as nat) + "]"@) == Some(n as nat),
        inode_in(other) is None,
{
    let a = "socket:["@;
    let d = text::dec(n as nat);
    let b = "]"@;
    let s = a + d + b;
    assert(s.subrange(0, a.len() as int) =~= a);
    assert(s.skip(a.len() as int) =~= d + b);
    let t = d + b;
    assert(t.subrange(d.len() as int, t.len() as int) =~= b);
    assert(t.take(d.len() as int) =~= d);
    text::lemma_number_dec(n as nat, u64::MAX as nat);
}

/// A title is offered exactly where there is one that is not blank and takes two
/// hundred bytes at most; its words stand one blank apart.
pub proof fn a_title_is_short_and_says_something(html: Seq<char>)
    ensures
        title_of(html) matches Some(t) ==> 0 < t.len() && vstd::utf8::encode_utf8(t).len() <= 200
            && title_element(html) is Some,
        title_element(html) is None ==> title_of(html) is None,
        title_element(html) matches Some(raw) ==> {
            let t = text::join(text::words(decoded(text::trim(raw))), " "@);
            t.len() > 0 && vstd::utf8::encode_utf8(t).len() <= 200 ==> title_of(html) == Some(t)
        },
{
}

/// A title is what stands between the end of the first title tag, in whatever case
/// and with whatever attributes, and the tag that closes it.
pub proof fn a_title_stands_between_its_tags(html: Seq<char>, start: int, open: int, close: int)
    requires
        0 <= start,
        start + 6 <= open <= close,
        close + 8 <= html.len(),
        text::lower(html).subrange(start, start + 6) == "<title"@,
        forall|j: int| 0 <= j < start ==> !#[trigger] text::at(text::lower(html), "<title"@, j),
        html[open - 1] == '>',
        forall|j: int| start <= j < open - 1 ==> html[j] != '>',
        text::lower(html).subrange(close, close + 8) == "</title>"@,
        forall|j: int| open <= j < close ==> !#[trigger] text::at(text::lower(html), "</title>"@, j),
    ensures
        title_element(html) == Some(html.subrange(open, close)),
{
    reveal_strlit("<title");
    reveal_strlit("</title>");
    let low = text::lower(html);
    assert(text::at(low, "<title"@, start));
    text::lemma_find_is(low, "<title"@, start);
    let u = html.skip(start);
    assert(u[open - 1 - start] == '>');
    text::lemma_pos_is(u, '>', open - 1 - start);
    let rest = low.skip(open);
    assert(rest.subrange(close - open, close - open + 8) =~= low.subrange(close, close + 8));
    assert(text::at(rest, "</title>"@, close - open));
    assert forall|j: int| 0 <= j < close - open implies !#[trigger] text::at(rest, "</title>"@, j) by {
        if text::at(rest, "</title>"@, j) {
            assert(rest.subrange(j, j + 8) =~= low.subrange(open + j, open + j + 8));
            assert(text::at(low, "</title>"@, open + j));
        }
    }
    text::lemma_find_is(rest, "</title>"@, close - open);
}

/// What is no more than text stays as it is: only what is written with an
/// ampersand is decoded.
pub proof fn plain_text_is_not_decoded(s: Seq<char>)
    requires
        !s.contains('&'),
    ensures
        decoded(s) == s,
{
    reveal_strlit("&amp;");
    reveal_strlit("&lt;");
    reveal_strlit("&gt;");
    reveal_strlit("&quot;");
    reveal_strlit("&#39;");
    lemma_not_there(s, "&amp;"@, "&"@);
    lemma_not_there(s, "&lt;"@, "<"@);
    lemma_not_there(s, "&gt;"@, ">"@);
    lemma_not_there(s, "&quot;"@, "\""@);
    lemma_not_there(s, "&#39;"@, "'"@);
}

proof fn lemma_not_there(s: Seq<char>, p: Seq<char>, q: Seq<char>)
    requires
        !s.contains('&'),
        p.len() > 0,
        p[0] == '&',
    ensures
        text::replace(s, p, q) == s,
{
    text::lemma_find(s, p);
    if let Some(i) = text::find(s, p) {
        assert(s.subrange(i, i + p.len())[0] == '&');
        assert(s[i] == '&');
    }
}

/// Of a page no more than its first 64 KiB are looked at.
pub proof fn a_page_is_looked_at_from_its_start(body: Seq<u8>, i: int)
    ensures
        body.len() <= 64 * 1024 ==> looked_at(body) == body,
        body.len() > 64 * 1024 ==> looked_at(body).len() == 64 * 1024,
        0 <= i < looked_at(body).len() ==> looked_at(body)[i] == body[i],
{
}

/// Which ports are asked: that of every listener but Prism's own and those that
/// belong to the machine, each once, with the inode of the first that listens
/// there.
pub proof fn every_port_of_interest_is_asked(v: Seq<Listener>, own_port: u16, n: int)
    requires
        0 <= n < v.len(),
    ensures
        ({
            let before = worth_asking(v, own_port, n);
            let after = worth_asking(v, own_port, n + 1);
            let l = v[n];
            let machine = l.port == 22 || l.port == 25 || l.port == 53 || l.port == 111 || l.port
                == 123 || (137 <= l.port <= 139) || l.port == 445 || l.port == 465 || l.port == 587
                || l.port == 631 || l.port == 993 || l.port == 995;
            let asked = exists|i: int| 0 <= i < before.len() && (#[trigger] before[i]).0 == l.port;
            &&& l.port == own_port || machine || asked ==> after == before
            &&& l.port != own_port && !machine && !asked ==> after == before.push((l.port, l.inode))
            &&& worth_asking(v, own_port, 0).len() == 0
        }),
{
}

/// What is offered: everything that answers, in order, with what is known of the
/// process that was last seen to hold its socket, and whether a facet has its
/// port already. What does not answer is not offered.
pub proof fn everything_that_answers_is_offered(
    v: Seq<Probed>,
    owners: Seq<Owner>,
    facets: Seq<config::FacetView>,
    n: int,
    k: int,
)
    requires
        0 <= n < v.len(),
        0 <= k < owners.len(),
        owners[k].inode == v[n].inode,
        forall|j: int| k < j < owners.len() ==> (#[trigger] owners[j]).inode != v[n].inode,
    ensures
        ({
            let before = proposals(v, owners, facets, n);
            let after = proposals(v, owners, facets, n + 1);
            let p = after.last();
            &&& !v[n].http ==> after == before
            &&& v[n].http ==> {
                &&& after.len() == before.len() + 1
                &&& after.drop_last() == before
                &&& p.port == v[n].port && p.http && p.tls == v[n].tls
                &&& p.title == text::opt(v[n].title)
                &&& p.pid == Some(owners[k].pid)
                &&& p.process == Some(owners[k].process@)
                &&& p.command == text::opt(owners[k].command)
                &&& p.known <==> exists|i: int|
                    0 <= i < facets.len() && (#[trigger] facets[i]).expose is Some
                        && facets[i].expose->0.port == v[n].port
            }
        }),
{
    lemma_last_owner(owners, v[n].inode, k);
    if v[n].http {
        assert(proposals(v, owners, facets, n + 1).drop_last() =~= proposals(v, owners, facets, n));
    }
}

proof fn lemma_last_owner(owners: Seq<Owner>, inode: u64, k: int)
    requires
        0 <= k < owners.len(),
        owners[k].inode == inode,
        forall|j: int| k < j < owners.len() ==> (#[trigger] owners[j]).inode != inode,
    ensures
        owner(owners, inode) == Some(owners[k]),
    decreases owners.len(),
{
    if k < owners.len() - 1 {
        let rest = owners.drop_last();
        assert(owners[owners.len() - 1].inode != inode);
        assert forall|j: int| k < j < rest.len() implies (#[trigger] rest[j]).inode != inode by {
            assert(rest[j] == owners[j]);
        }
        lemma_last_owner(rest, inode, k);
    }
}

/// Of a socket that nobody was seen to hold, nothing is told but that it answers.
pub proof fn nothing_is_made_up_about_an_owner(
    p: Probed,
    owners: Seq<Owner>,
    facets: Seq<config::FacetView>,
)
    requires
        forall|j: int| 0 <= j < owners.len() ==> (#[trigger] owners[j]).inode != p.inode,
    ensures
        proposal(p, owners, facets).pid is None,
        proposal(p, owners, facets).process is None,
        proposal(p, owners, facets).command is None,
    decreases owners.len(),
{
    if owners.len() > 0 {
        let rest = owners.drop_last();
        assert(owners[owners.len() - 1].inode != p.inode);
        assert forall|j: int| 0 <= j < rest.len() implies (#[trigger] rest[j]).inode != p.inode by {
            assert(rest[j] == owners[j]);
        }
        nothing_is_made_up_about_an_owner(p, rest, facets);
    }
}

/// A command line is shown with a blank between its arguments, without those that
/// are empty.
pub proof fn a_command_is_shown_argument_by_argument(a: Seq<char>, rest: Seq<char>)
    requires
        !a.contains('\0'),
    ensures
        a.len() > 0 ==> command_words(a.push('\0') + rest) == seq![a] + command_words(rest),
        a.len() == 0 ==> command_words(a.push('\0') + rest) == command_words(rest),
        a.len() > 0 ==> command_words(a) == seq![a],
        command_words(seq![]).len() == 0,
{
    let f = |p: Seq<char>| p.len() > 0;
    let none = Seq::<char>::empty();
    text::lemma_split_cons(a, '\0', rest);
    text::lemma_split_one(a, '\0');
    text::lemma_split_one(none, '\0');
    text::lemma_filter_cons(a, text::split(rest, '\0'), f);
    text::lemma_filter_cons(a, seq![], f);
    text::lemma_filter_cons(none, seq![], f);
    let empty = Seq::<Seq<char>>::empty();
    assert(seq![a] + empty =~= seq![a]);
    assert(seq![none] + empty =~= seq![none]);
    assert(empty.filter(f) =~= empty) by {
        reveal(Seq::filter);
    }
}

} // verus!
