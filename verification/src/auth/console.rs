//! Signing in from the machine Prism is running on.
//!
//! *Filesystem access as the owning user on this host* is already at least as
//! strong as the second factor: anyone who can read the authenticator's secret
//! can mint codes forever. A console sign-in that proves exactly that capability
//! adds no exposure.
//!
//! ## Why not just trust loopback
//!
//! Because loopback is not a place. SSH forwards a port from anywhere, so a
//! "local-only" route is silently a remote route for anyone holding SSH. Reading
//! a 0600 file in the user's state directory *is* a proof.
//!
//! ## Why a grant, and not the key in the URL
//!
//! A URL is the leakiest thing on a computer. So the key buys a **grant**:
//! single-use, sixty seconds, and worthless the moment it is spent.

use crate::text;
use vstd::prelude::*;

verus! {

/// How long a grant is worth anything. Long enough for a browser to start cold,
/// short enough that a stale one in a shell's scrollback is inert.
pub const GRANT_TTL_SECS: u64 = 60;

/// How many random bytes a grant is made of.
pub const GRANT_BYTES: usize = 24;

/// How many random bytes a console key is made of.
pub const KEY_BYTES: usize = 32;

/// Single-use, short-lived grants, held in memory only.
///
/// In memory on purpose: a grant that survived a restart would be a credential
/// on disk with none of the care the real ones get, and there is no reason for
/// one to outlive the process that minted it.
pub struct Grants {
    issued: Vec<(String, u64)>,
}

/// When the grant of a token ends, where there is one.
spec fn ends_at(v: Seq<(String, u64)>, token: Seq<char>) -> Option<u64>
    decreases v.len(),
{
    if v.len() == 0 {
        None
    } else if v.last().0@ == token {
        Some(v.last().1)
    } else {
        ends_at(v.drop_last(), token)
    }
}

/// No token stands twice.
spec fn distinct(v: Seq<(String, u64)>) -> bool
    decreases v.len(),
{
    v.len() == 0 || (ends_at(v.drop_last(), v.last().0@) is None && distinct(v.drop_last()))
}

proof fn lemma_distinct(v: Seq<(String, u64)>, i: int)
    requires
        distinct(v),
        0 <= i < v.len(),
    ensures
        ends_at(v.take(i), v[i].0@) is None,
    decreases v.len(),
{
    if i == v.len() - 1 {
        assert(v.take(i) =~= v.drop_last());
    } else {
        lemma_distinct(v.drop_last(), i);
        assert(v.drop_last().take(i) =~= v.take(i));
    }
}

/// The grants that are still good at a time.
pub open spec fn alive(m: Map<Seq<char>, u64>, now: u64) -> Map<Seq<char>, u64> {
    m.restrict(Set::new(|k: Seq<char>| m.contains_key(k) && m[k] > now))
}

/// A grant that can be spent at a time.
pub open spec fn good(m: Map<Seq<char>, u64>, token: Seq<char>, now: u64) -> bool {
    m.contains_key(token) && m[token] > now
}

/// The grants after one is minted.
pub open spec fn minted(m: Map<Seq<char>, u64>, token: Seq<char>, now: u64) -> Map<Seq<char>, u64> {
    alive(m, now).insert(token, (now + GRANT_TTL_SECS) as u64)
}

/// What is left of a grant that is swept, but for one token.
spec fn lasting(end: Option<u64>, token: Seq<char>, now: u64, except: Seq<char>) -> Option<u64> {
    if end is Some && end->0 > now && token != except {
        end
    } else {
        None
    }
}

impl View for Grants {
    type V = Map<Seq<char>, u64>;

    closed spec fn view(&self) -> Map<Seq<char>, u64> {
        Map::new(
            |k: Seq<char>| ends_at(self.issued@, k) is Some,
            |k: Seq<char>| ends_at(self.issued@, k)->0,
        )
    }
}

impl Grants {
    /// No token stands twice.
    pub closed spec fn wf(&self) -> bool {
        distinct(self.issued@)
    }

    pub fn new() -> (r: Self)
        ensures
            r.wf(),
            r@ == Map::<Seq<char>, u64>::empty(),
    {
        Grants { issued: Vec::new() }
    }

    /// Keep what is still good, but for one token.
    fn sweep(&mut self, now: u64, except: &str)
        requires
            old(self).wf(),
        ensures
            final(self).wf(),
            final(self)@ == alive(old(self)@, now).remove(except@),
    {
        let ghost start = self.issued@;
        let mut kept: Vec<(String, u64)> = Vec::new();
        let mut i: usize = 0;
        while i < self.issued.len()
            invariant
                i <= self.issued@.len(),
                self.issued@ == start,
                distinct(start),
                distinct(kept@),
                forall|t: Seq<char>| #[trigger]
                    ends_at(kept@, t) == lasting(ends_at(start.take(i as int), t), t, now, except@),
            decreases self.issued@.len() - i,
        {
            let ghost prev = kept@;
            proof {
                lemma_distinct(start, i as int);
                assert(start.take(i + 1).drop_last() =~= start.take(i as int));
                assert(start.take(i + 1).last() == start[i as int]);
            }
            if self.issued[i].1 > now && !text::same(self.issued[i].0.as_str(), except) {
                let g = (self.issued[i].0.clone(), self.issued[i].1);
                kept.push(g);
                assert(kept@.drop_last() =~= prev);
                assert(ends_at(prev, g.0@) is None);
            }
            proof {
                let now_seen = start.take(i + 1);
                assert forall|t: Seq<char>| #[trigger]
                    ends_at(kept@, t) == lasting(ends_at(now_seen, t), t, now, except@) by {
                    assert(ends_at(prev, t) == lasting(
                        ends_at(start.take(i as int), t),
                        t,
                        now,
                        except@,
                    ));
                }
            }
            i += 1;
        }
        self.issued = kept;
        proof {
            assert(start.take(start.len() as int) =~= start);
            assert(self@ =~= alive(old(self)@, now).remove(except@));
        }
    }

    /// Mint a grant out of fresh random bytes. The caller has already proved it
    /// holds the console key.
    ///
    /// Sweeps on mint rather than on a timer: the map is tiny, this is the only
    /// thing that grows it, and a background task to expire two entries would be
    /// more machinery than the thing it maintains.
    pub fn mint(&mut self, random: &[u8], now: u64) -> (r: String)
        requires
            old(self).wf(),
            now + GRANT_TTL_SECS <= u64::MAX,
        ensures
            final(self).wf(),
            r@ == text::hex_bytes(random@),
            final(self)@ == minted(old(self)@, r@, now),
    {
        let token = text::hex_of_bytes(random);
        let ghost start = self@;
        self.sweep(now, token.as_str());
        let ghost swept = self.issued@;
        let ghost gone = self@;
        assert(!self@.contains_key(token@));
        let g = (token.clone(), now + GRANT_TTL_SECS);
        self.issued.push(g);
        proof {
            assert(self.issued@.drop_last() =~= swept);
            assert forall|k: Seq<char>| #[trigger]
                ends_at(self.issued@, k) == (if k == token@ {
                    Some((now + GRANT_TTL_SECS) as u64)
                } else {
                    ends_at(swept, k)
                }) by {}
            let want = minted(start, token@, now);
            assert forall|k: Seq<char>| self@.contains_key(k) <==> want.contains_key(k) by {
                assert(ends_at(self.issued@, k) is Some <==> self@.contains_key(k));
                assert(ends_at(swept, k) is Some <==> gone.contains_key(k));
            }
            assert forall|k: Seq<char>| self@.contains_key(k) implies self@[k] == want[k] by {
                assert(self@[k] == ends_at(self.issued@, k)->0);
                if k != token@ {
                    assert(ends_at(self.issued@, k) == ends_at(swept, k));
                    assert(gone.contains_key(k) && gone[k] == ends_at(swept, k)->0);
                }
            }
            assert(self@ =~= minted(start, token@, now));
        }
        token
    }

    /// Spend a grant. True at most once per grant, ever.
    pub fn spend(&mut self, token: &str, now: u64) -> (r: bool)
        requires
            old(self).wf(),
        ensures
            final(self).wf(),
            r == good(old(self)@, token@, now),
            final(self)@ == alive(old(self)@, now).remove(token@),
    {
        let mut found = false;
        let mut i: usize = 0;
        while i < self.issued.len()
            invariant
                i <= self.issued@.len(),
                *self == *old(self),
                self.wf(),
                found == (ends_at(self.issued@.take(i as int), token@) is Some && ends_at(
                    self.issued@.take(i as int),
                    token@,
                )->0 > now),
            decreases self.issued@.len() - i,
        {
            proof {
                lemma_distinct(self.issued@, i as int);
                assert(self.issued@.take(i + 1).drop_last() =~= self.issued@.take(i as int));
                assert(self.issued@.take(i + 1).last() == self.issued@[i as int]);
            }
            if text::same(self.issued[i].0.as_str(), token) {
                found = self.issued[i].1 > now;
            }
            i += 1;
        }
        assert(self.issued@.take(i as int) =~= self.issued@);
        self.sweep(now, token);
        found
    }
}

/// Compare in constant time, so a wrong key cannot be narrowed by timing it.
pub fn key_matches(expected: &str, given: &str) -> (r: bool)
    ensures
        r == (expected@ == text::trim(given@)),
{
    let trimmed = text::trim_str(given);
    let a = expected.as_bytes();
    let b = trimmed.as_str().as_bytes();
    proof {
        vstd::utf8::encode_utf8_decode_utf8(expected@);
        vstd::utf8::encode_utf8_decode_utf8(trimmed@);
    }
    if a.len() != b.len() {
        return false;
    }
    let mut acc: u8 = 0;
    let mut i: usize = 0;
    while i < a.len()
        invariant
            i <= a.len() == b.len(),
            acc == 0 <==> (forall|j: int| 0 <= j < i ==> a@[j] == b@[j]),
        decreases a.len() - i,
    {
        let x = a[i];
        let y = b[i];
        let next: u8 = acc | (x ^ y);
        assert(next == 0 <==> (acc == 0 && x == y)) by (bit_vector)
            requires
                next == acc | (x ^ y),
        ;
        acc = next;
        i += 1;
    }
    if acc == 0 {
        assert(a@ =~= b@);
    }
    acc == 0
}

/// The key in a key file: all of it but the white space around it, where any is
/// left. None where a new one has to be made.
pub fn stored_key(contents: &str) -> (r: Option<String>)
    ensures
        text::opt(r) == (if text::trim(contents@).len() == 0 {
            None
        } else {
            Some(text::trim(contents@))
        }),
{
    let key = text::trim_str(contents);
    if text::chars_of(key.as_str()).len() == 0 {
        None
    } else {
        Some(key)
    }
}

// ---------------------------------------------------------------------------
// Laws
// ---------------------------------------------------------------------------

/// A grant is worth exactly one use: good up to sixty seconds after it was
/// minted, and never after it was spent.
pub proof fn a_grant_is_worth_one_use(
    m: Map<Seq<char>, u64>,
    token: Seq<char>,
    made: u64,
    used: u64,
    again: u64,
)
    requires
        made + GRANT_TTL_SECS <= u64::MAX,
    ensures
        ({
            let g = minted(m, token, made);
            let after = alive(g, used).remove(token);
            &&& g.contains_key(token)
            &&& g[token] > used <==> used < made + GRANT_TTL_SECS
            &&& !after.contains_key(token)
            &&& !alive(after, again).contains_key(token)
        }),
{
}

/// Nothing but minting makes a grant good: sweeping and spending only take
/// away.
pub proof fn grants_come_from_minting(
    m: Map<Seq<char>, u64>,
    token: Seq<char>,
    other: Seq<char>,
    now: u64,
)
    requires
        !m.contains_key(other),
        other != token,
        now + GRANT_TTL_SECS <= u64::MAX,
    ensures
        !minted(m, token, now).contains_key(other),
        !alive(m, now).remove(token).contains_key(other),
{
}

/// Spending one grant leaves every other that is still good.
pub proof fn spending_leaves_the_others(
    m: Map<Seq<char>, u64>,
    token: Seq<char>,
    other: Seq<char>,
    now: u64,
)
    requires
        other != token,
        m.contains_key(other),
        m[other] > now,
    ensures
        alive(m, now).remove(token).contains_key(other),
        alive(m, now).remove(token)[other] == m[other],
{
}

/// What is done with grants: one is minted out of random bytes, or a token is
/// offered to be spent.
pub enum Dealing {
    Mint { token: Seq<char>, now: u64 },
    Spend { token: Seq<char>, now: u64 },
}

/// The grants after one dealing.
pub open spec fn dealt(m: Map<Seq<char>, u64>, d: Dealing) -> Map<Seq<char>, u64> {
    match d {
        Dealing::Mint { token, now } => minted(m, token, now),
        Dealing::Spend { token, now } => alive(m, now).remove(token),
    }
}

/// The grants after dealings, one after another.
pub open spec fn after(m: Map<Seq<char>, u64>, h: Seq<Dealing>) -> Map<Seq<char>, u64>
    decreases h.len(),
{
    if h.len() == 0 {
        m
    } else {
        dealt(after(m, h.drop_last()), h.last())
    }
}

/// A dealing mints a token.
pub open spec fn mints(d: Dealing, token: Seq<char>) -> bool {
    d matches Dealing::Mint { token: t, .. } && t == token
}

/// A dealing spends a token, and that succeeds.
pub open spec fn spends(m: Map<Seq<char>, u64>, d: Dealing, token: Seq<char>) -> bool {
    d matches Dealing::Spend { token: t, now } && t == token && good(m, t, now)
}

/// No token is minted twice: the random bytes differ every time.
pub open spec fn mints_differ(h: Seq<Dealing>) -> bool {
    forall|i: int, j: int, token: Seq<char>|
        0 <= i < j < h.len() && #[trigger] mints(h[i], token) ==> !#[trigger] mints(h[j], token)
}

proof fn lemma_after_joined(m: Map<Seq<char>, u64>, a: Seq<Dealing>, b: Seq<Dealing>)
    ensures
        after(m, a + b) == after(after(m, a), b),
    decreases b.len(),
{
    if b.len() == 0 {
        assert(a + b =~= a);
    } else {
        lemma_after_joined(m, a, b.drop_last());
        assert((a + b).drop_last() =~= a + b.drop_last());
    }
}

/// A grant that was not there came from minting.
proof fn lemma_was_minted(m: Map<Seq<char>, u64>, h: Seq<Dealing>, token: Seq<char>)
    requires
        !m.contains_key(token),
        after(m, h).contains_key(token),
    ensures
        exists|k: int| 0 <= k < h.len() && #[trigger] mints(h[k], token),
    decreases h.len(),
{
    let g = h.drop_last();
    if after(m, g).contains_key(token) {
        lemma_was_minted(m, g, token);
        let k = choose|k: int| 0 <= k < g.len() && #[trigger] mints(g[k], token);
        assert(mints(h[k], token));
    } else {
        assert(mints(h[h.len() - 1], token));
    }
}

/// Whatever is minted and spent, in whatever order and at whatever times: a
/// grant is spent at most once, ever.
pub proof fn a_grant_is_spent_at_most_once(h: Seq<Dealing>, token: Seq<char>, i: int, j: int)
    requires
        mints_differ(h),
        0 <= i < j < h.len(),
    ensures
        !(spends(after(Map::empty(), h.take(i)), h[i], token) && spends(
            after(Map::empty(), h.take(j)),
            h[j],
            token,
        )),
{
    let none = Map::<Seq<char>, u64>::empty();
    if spends(after(none, h.take(i)), h[i], token) && spends(after(none, h.take(j)), h[j], token) {
        lemma_was_minted(none, h.take(i), token);
        let a = choose|k: int| 0 <= k < i && #[trigger] mints(h.take(i)[k], token);
        let spent = after(none, h.take(i + 1));
        assert(h.take(i + 1).drop_last() =~= h.take(i));
        assert(!spent.contains_key(token));
        let between = h.subrange(i + 1, j);
        lemma_after_joined(none, h.take(i + 1), between);
        assert(h.take(i + 1) + between =~= h.take(j));
        lemma_was_minted(spent, between, token);
        let b = choose|k: int| 0 <= k < between.len() && #[trigger] mints(between[k], token);
        assert(mints(h[a], token));
        assert(mints(h[i + 1 + b], token));
    }
}

/// Nothing is spent that was not minted before.
pub proof fn only_what_was_minted_is_spent(h: Seq<Dealing>, token: Seq<char>, i: int)
    requires
        0 <= i < h.len(),
        spends(after(Map::empty(), h.take(i)), h[i], token),
    ensures
        exists|k: int| 0 <= k < i && #[trigger] mints(h[k], token),
{
    lemma_was_minted(Map::empty(), h.take(i), token);
    let k = choose|k: int| 0 <= k < i && #[trigger] mints(h.take(i)[k], token);
    assert(mints(h[k], token));
}

impl Dealing {
    /// When it is done.
    pub open spec fn time(self) -> u64 {
        match self {
            Dealing::Mint { now, .. } => now,
            Dealing::Spend { now, .. } => now,
        }
    }
}

/// No dealing is done before an earlier one.
pub open spec fn in_order(h: Seq<Dealing>) -> bool {
    forall|i: int, j: int|
        0 <= i < j < h.len() ==> (#[trigger] h[i]).time() <= (#[trigger] h[j]).time()
}

/// All dealings are done by a time that a minute can be counted from.
pub open spec fn done_by(h: Seq<Dealing>, now: u64) -> bool {
    forall|i: int|
        0 <= i < h.len() ==> (#[trigger] h[i]).time() <= now && h[i].time() + GRANT_TTL_SECS
            <= u64::MAX
}

/// A token was minted less than a minute before `now`.
pub open spec fn minted_lately(h: Seq<Dealing>, token: Seq<char>, now: u64) -> bool {
    exists|k: int|
        0 <= k < h.len() && mints(#[trigger] h[k], token) && now < h[k].time() + GRANT_TTL_SECS
}

/// One of the dealings spent a token.
pub open spec fn spent_at(h: Seq<Dealing>, token: Seq<char>, k: int) -> bool {
    spends(after(Map::empty(), h.take(k)), h[k], token)
}

pub open spec fn spent_in(h: Seq<Dealing>, token: Seq<char>) -> bool {
    exists|k: int| 0 <= k < h.len() && #[trigger] spent_at(h, token, k)
}

proof fn lemma_minted_lately(h: Seq<Dealing>, token: Seq<char>, now: u64)
    requires
        h.len() > 0,
    ensures
        minted_lately(h, token, now) <==> minted_lately(h.drop_last(), token, now) || (mints(
            h.last(),
            token,
        ) && now < h.last().time() + GRANT_TTL_SECS),
{
    let g = h.drop_last();
    let n = h.len() - 1;
    if minted_lately(h, token, now) {
        let k = choose|k: int|
            0 <= k < h.len() && mints(#[trigger] h[k], token) && now < h[k].time()
                + GRANT_TTL_SECS;
        if k < n {
            assert(mints(g[k], token));
        }
    }
    if minted_lately(g, token, now) {
        let k = choose|k: int|
            0 <= k < g.len() && mints(#[trigger] g[k], token) && now < g[k].time()
                + GRANT_TTL_SECS;
        assert(mints(h[k], token));
    }
    if mints(h.last(), token) {
        assert(mints(h[n], token));
    }
}

proof fn lemma_spent_in(h: Seq<Dealing>, token: Seq<char>)
    requires
        h.len() > 0,
    ensures
        spent_in(h, token) <==> spent_in(h.drop_last(), token) || spends(
            after(Map::empty(), h.drop_last()),
            h.last(),
            token,
        ),
{
    let g = h.drop_last();
    let n = h.len() - 1;
    assert(h.take(n) =~= g);
    if spent_in(h, token) {
        let k = choose|k: int| 0 <= k < h.len() && #[trigger] spent_at(h, token, k);
        if k < n {
            assert(g.take(k) =~= h.take(k));
            assert(spent_at(g, token, k));
        }
    }
    if spent_in(g, token) {
        let k = choose|k: int| 0 <= k < g.len() && #[trigger] spent_at(g, token, k);
        assert(g.take(k) =~= h.take(k));
        assert(spent_at(h, token, k));
    }
    if spends(after(Map::empty(), g), h.last(), token) {
        assert(spent_at(h, token, n));
    }
}

proof fn lemma_mints_differ(h: Seq<Dealing>)
    requires
        h.len() > 0,
        mints_differ(h),
    ensures
        mints_differ(h.drop_last()),
{
    let g = h.drop_last();
    assert forall|i: int, j: int, token: Seq<char>|
        0 <= i < j < g.len() && #[trigger] mints(g[i], token) implies !#[trigger] mints(
        g[j],
        token,
    ) by {
        assert(g[i] == h[i] && g[j] == h[j]);
        assert(mints(h[i], token));
    }
}

/// A token that is minted now was never there before, and so never spent.
proof fn lemma_first_mint(h: Seq<Dealing>, token: Seq<char>)
    requires
        h.len() > 0,
        mints_differ(h),
        mints(h.last(), token),
    ensures
        !spent_in(h.drop_last(), token),
        forall|now: u64| !minted_lately(h.drop_last(), token, now),
{
    let g = h.drop_last();
    let n = h.len() - 1;
    assert(mints(h[n], token));
    assert forall|k: int| 0 <= k < g.len() implies !mints(#[trigger] g[k], token) by {
        if mints(g[k], token) {
            assert(mints(h[k], token));
        }
    }
    if spent_in(g, token) {
        let k = choose|k: int| 0 <= k < g.len() && #[trigger] spent_at(g, token, k);
        only_what_was_minted_is_spent(g, token, k);
    }
}

/// Over any dealings at times that never go back, and with random bytes that
/// differ: a grant can be spent exactly where its token was minted less than a
/// minute ago and has not been spent.
pub proof fn a_grant_is_good_for_a_minute_and_once(h: Seq<Dealing>, token: Seq<char>, now: u64)
    requires
        mints_differ(h),
        in_order(h),
        done_by(h, now),
    ensures
        good(after(Map::empty(), h), token, now) <==> minted_lately(h, token, now) && !spent_in(
            h,
            token,
        ),
    decreases h.len(),
{
    if h.len() > 0 {
        let g = h.drop_last();
        let d = h[h.len() - 1];
        let t = d.time();
        assert(in_order(g)) by {
            assert forall|i: int, j: int| 0 <= i < j < g.len() implies (#[trigger] g[i]).time() <= (
            #[trigger] g[j]).time() by {
                assert(g[i] == h[i] && g[j] == h[j]);
            }
        }
        assert(done_by(g, now)) by {
            assert forall|i: int| 0 <= i < g.len() implies (#[trigger] g[i]).time() <= now
                && g[i].time() + GRANT_TTL_SECS <= u64::MAX by {
                assert(g[i] == h[i]);
            }
        }
        assert(done_by(g, t)) by {
            assert forall|i: int| 0 <= i < g.len() implies (#[trigger] g[i]).time() <= t
                && g[i].time() + GRANT_TTL_SECS <= u64::MAX by {
                assert(g[i] == h[i]);
                assert(h[i].time() <= h[h.len() - 1].time());
            }
        }
        lemma_mints_differ(h);
        a_grant_is_good_for_a_minute_and_once(g, token, now);
        a_grant_is_good_for_a_minute_and_once(g, token, t);
        lemma_minted_lately(h, token, now);
        lemma_spent_in(h, token);
        if minted_lately(g, token, now) {
            lemma_minted_later(g, token, t, now);
        }
        if mints(d, token) {
            lemma_first_mint(h, token);
        }
    }
}

proof fn lemma_minted_later(h: Seq<Dealing>, token: Seq<char>, then: u64, now: u64)
    requires
        then <= now,
        minted_lately(h, token, now),
    ensures
        minted_lately(h, token, then),
{
    let k = choose|k: int|
        0 <= k < h.len() && mints(#[trigger] h[k], token) && now < h[k].time() + GRANT_TTL_SECS;
    assert(then < h[k].time() + GRANT_TTL_SECS);
}

/// A grant that was just made is worth something for sixty seconds.
pub proof fn a_grant_lasts_sixty_seconds(
    m: Map<Seq<char>, u64>,
    token: Seq<char>,
    now: u64,
    later: u64,
)
    requires
        now + 60 <= u64::MAX,
    ensures
        good(minted(m, token, now), token, later) <==> later < now + 60,
{
}

/// Making a grant leaves the others that still run, as they are, and forgets those
/// that have run out.
pub proof fn making_a_grant_keeps_the_living(
    m: Map<Seq<char>, u64>,
    token: Seq<char>,
    other: Seq<char>,
    now: u64,
)
    requires
        other != token,
    ensures
        minted(m, token, now).contains_key(other) <==> m.contains_key(other) && m[other] > now,
        minted(m, token, now).contains_key(other) ==> minted(m, token, now)[other] == m[other],
        good(m, other, now) <==> m.contains_key(other) && now < m[other],
{
}

} // verus!
