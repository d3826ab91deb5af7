//! Bounded scrollback.
//!
//! A detached session retains recent output so reattaching shows context rather
//! than a blank screen. That buffer must be bounded: a chatty process — a
//! training loop, a build, anything with a progress bar — would otherwise grow
//! it without limit.
//!
//! When the cap is exceeded the *oldest* bytes are discarded, because a terminal
//! reattach wants the most recent output. The count of discarded bytes is kept
//! so the UI can say so rather than silently presenting a truncated history as
//! if it were complete.

use std::collections::VecDeque;
use vstd::prelude::*;

verus! {

pub const DEFAULT_CAPACITY: usize = 262_144;

#[derive(Debug)]
pub struct Ring {
    buf: VecDeque<u8>,
    cap: usize,
    dropped: u64,
}

/// The last `n` bytes, or all of them where there are no more.
pub open spec fn tail(s: Seq<u8>, n: nat) -> Seq<u8> {
    if s.len() > n {
        s.skip(s.len() - n)
    } else {
        s
    }
}

impl View for Ring {
    type V = Seq<u8>;

    closed spec fn view(&self) -> Seq<u8> {
        self.buf@
    }
}

impl Ring {
    pub closed spec fn cap(&self) -> nat {
        self.cap as nat
    }

    pub closed spec fn lost(&self) -> nat {
        self.dropped as nat
    }

    /// No more is retained than the cap allows.
    pub open spec fn wf(&self) -> bool {
        self@.len() <= self.cap()
    }

    pub fn new(cap: usize) -> (r: Self)
        ensures
            r.wf(),
            r@ == Seq::<u8>::empty(),
            r.cap() == cap,
            r.lost() == 0,
    {
        Ring { buf: VecDeque::new(), cap, dropped: 0 }
    }

    pub fn with_default_capacity() -> (r: Self)
        ensures
            r.wf(),
            r@ == Seq::<u8>::empty(),
            r.cap() == 262_144,
            r.lost() == 0,
    {
        Ring::new(DEFAULT_CAPACITY)
    }

    /// Take the oldest `n` bytes away.
    fn forget(&mut self, n: usize)
        requires
            n <= old(self)@.len(),
            old(self).lost() + n <= u64::MAX,
        ensures
            final(self)@ == old(self)@.skip(n as int),
            final(self).cap() == old(self).cap(),
            final(self).lost() == old(self).lost() + n,
    {
        let ghost start = self.buf@;
        let mut i: usize = 0;
        while i < n
            invariant
                i <= n <= start.len(),
                self.buf@ == start.skip(i as int),
                self.cap == old(self).cap,
                self.dropped == old(self).dropped,
            decreases n - i,
        {
            self.buf.pop_front();
            i += 1;
            assert(self.buf@ =~= start.skip(i as int));
        }
        self.dropped = self.dropped + n as u64;
    }

    /// Append output, keeping the most recent of all.
    pub fn push(&mut self, bytes: &[u8])
        requires
            old(self).wf(),
            old(self).lost() + old(self)@.len() + bytes@.len() <= u64::MAX,
        ensures
            final(self).wf(),
            final(self)@ == tail(old(self)@ + bytes@, old(self).cap()),
            final(self).cap() == old(self).cap(),
            final(self).lost() + final(self)@.len() == old(self).lost() + old(self)@.len()
                + bytes@.len(),
    {
        let ghost all = self.buf@ + bytes@;
        // A single write larger than the whole buffer: keep only its tail.
        let start: usize = if bytes.len() > self.cap {
            bytes.len() - self.cap
        } else {
            0
        };
        let coming: usize = bytes.len() - start;
        let room: usize = self.cap - coming;
        if self.buf.len() > room {
            let excess: usize = self.buf.len() - room;
            self.forget(excess);
        }
        self.dropped = self.dropped + start as u64;
        let ghost kept = self.buf@;
        let mut i: usize = start;
        assert(self.buf@ =~= kept + bytes@.subrange(start as int, start as int));
        while i < bytes.len()
            invariant
                start <= i <= bytes@.len(),
                self.buf@ == kept + bytes@.subrange(start as int, i as int),
                self.cap == old(self).cap,
                self.lost() + kept.len() == old(self).lost() + old(self)@.len() + start,
            decreases bytes@.len() - i,
        {
            self.buf.push_back(bytes[i]);
            i += 1;
            assert(self.buf@ =~= kept + bytes@.subrange(start as int, i as int));
        }
        assert(self.buf@ =~= tail(all, old(self).cap()));
    }

    /// Everything currently retained, oldest first.
    pub fn snapshot(&self) -> (r: Vec<u8>)
        ensures
            r@ == self@,
    {
        let mut out: Vec<u8> = Vec::new();
        let mut i: usize = 0;
        while i < self.buf.len()
            invariant
                i <= self.buf@.len(),
                out@ == self.buf@.take(i as int),
            decreases self.buf@.len() - i,
        {
            out.push(self.buf[i]);
            i += 1;
        }
        assert(out@ =~= self.buf@);
        out
    }

    pub fn len(&self) -> (r: usize)
        ensures
            r == self@.len(),
    {
        self.buf.len()
    }

    pub fn is_empty(&self) -> (r: bool)
        ensures
            r == (self@.len() == 0),
    {
        self.buf.len() == 0
    }

    pub fn capacity(&self) -> (r: usize)
        ensures
            r == self.cap(),
    {
        self.cap
    }

    /// Bytes discarded to stay within the cap. Non-zero means the history shown
    /// on reattach is incomplete, which the UI should admit.
    pub fn dropped(&self) -> (r: u64)
        ensures
            r == self.lost(),
    {
        self.dropped
    }

    /// Forget what is retained. The tally of what was dropped stays.
    pub fn clear(&mut self)
        ensures
            final(self)@ == Seq::<u8>::empty(),
            final(self).cap() == old(self).cap(),
            final(self).lost() == old(self).lost(),
            final(self).wf(),
    {
        self.buf.clear();
    }

    /// Change the cap, discarding oldest bytes to fit.
    ///
    /// Used when the governor de-escalates: at Red tier, retaining a quarter of
    /// a megabyte per session is a luxury the machine cannot afford.
    pub fn set_capacity(&mut self, cap: usize)
        requires
            old(self).wf(),
            old(self).lost() + old(self)@.len() <= u64::MAX,
        ensures
            final(self).wf(),
            final(self).cap() == cap,
            final(self)@ == tail(old(self)@, cap as nat),
            final(self).lost() + final(self)@.len() == old(self).lost() + old(self)@.len(),
    {
        self.cap = cap;
        if self.buf.len() > cap {
            let excess: usize = self.buf.len() - cap;
            self.forget(excess);
        }
    }
}

impl Default for Ring {
    fn default() -> (r: Self)
        ensures
            r.wf(),
            r@ == Seq::<u8>::empty(),
            r.cap() == 262_144,
            r.lost() == 0,
    {
        Ring::with_default_capacity()
    }
}

/// How output is cut into writes makes no difference to what is retained.
pub proof fn writes_add_up(kept: Seq<u8>, a: Seq<u8>, b: Seq<u8>, cap: nat)
    ensures
        tail(tail(kept + a, cap) + b, cap) == tail(kept + (a + b), cap),
{
    assert(tail(tail(kept + a, cap) + b, cap) =~= tail(kept + (a + b), cap));
}

/// What is retained is always the end of what came in.
pub proof fn the_newest_is_kept(kept: Seq<u8>, bytes: Seq<u8>, cap: nat)
    ensures
        tail(kept + bytes, cap).len() <= cap,
        bytes.len() <= cap ==> tail(kept + bytes, cap).skip(
            tail(kept + bytes, cap).len() - bytes.len(),
        ) == bytes,
        kept.len() + bytes.len() <= cap ==> tail(kept + bytes, cap) == kept + bytes,
{
    if bytes.len() <= cap {
        let t = tail(kept + bytes, cap);
        assert(t.skip(t.len() - bytes.len()) =~= bytes);
    }
}

/// Shrinking and then growing the cap does not bring anything back.
pub proof fn shrinking_is_for_good(kept: Seq<u8>, small: nat, large: nat)
    requires
        small <= large,
    ensures
        tail(tail(kept, small), large) == tail(kept, small),
{
}

/// What is kept is the end: counted from the back, each byte is where it was.
pub proof fn what_is_kept_is_the_end(s: Seq<u8>, n: nat, i: int)
    ensures
        tail(s, n).len() == (if s.len() < n {
            s.len()
        } else {
            n
        }),
        0 <= i < tail(s, n).len() ==> tail(s, n)[tail(s, n).len() - 1 - i] == s[s.len() - 1 - i],
{
}

} // verus!
