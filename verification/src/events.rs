//! The event log behind the Timeline.
//!
//! A bounded, in-memory record of things that happened: tier changes, storms
//! contained, facets started and stopped, sessions killed.
//!
//! One requirement drives the design: *log Prism's own actions into the timeline
//! it reads*. So an intervention is recorded with the same weight as an
//! observation, and both carry a source, so a later analysis can subtract Prism
//! from the picture.
//!
//! Bounded for the obvious reason: an unbounded log in the daemon that exists to
//! prevent memory exhaustion would be an embarrassing way to cause one.

use crate::auth::totp;
use crate::text;
use std::collections::VecDeque;
use vstd::prelude::*;

verus! {

pub const CAPACITY: usize = 500;

#[derive(Debug, Clone, Copy, PartialEq, Eq, Structural)]
pub enum Level {
    /// Something was observed.
    Info,
    /// Something is wrong but nothing was done.
    Warn,
    /// Prism acted on the machine.
    Action,
    /// Something failed.
    Error,
}

#[derive(Debug)]
pub struct Event {
    pub unix: u64,
    pub level: Level,
    /// Which subsystem: "governor", "storm", "facet", "terminal", "prism".
    pub source: &'static str,
    pub message: String,
    /// Optional structured extras, for a detail view.
    pub detail: Option<String>,
}

pub struct EventView {
    pub unix: u64,
    pub level: Level,
    pub source: Seq<char>,
    pub message: Seq<char>,
    pub detail: Option<Seq<char>>,
}

impl View for Event {
    type V = EventView;

    open spec fn view(&self) -> EventView {
        EventView {
            unix: self.unix,
            level: self.level,
            source: self.source@,
            message: self.message@,
            detail: text::opt(self.detail),
        }
    }
}

impl Clone for Event {
    fn clone(&self) -> (r: Self)
        ensures
            r@ == self@,
    {
        Event {
            unix: self.unix,
            level: self.level,
            source: self.source,
            message: self.message.clone(),
            detail: text::copy_opt(&self.detail),
        }
    }
}

pub open spec fn event_views(v: Seq<Event>) -> Seq<EventView> {
    v.map_values(|e: Event| e@)
}

/// A log with one event more: the oldest makes room where it is full.
pub open spec fn logged(log: Seq<EventView>, e: EventView) -> Seq<EventView> {
    if log.len() >= CAPACITY {
        log.skip(1).push(e)
    } else {
        log.push(e)
    }
}

/// The newest `n`, newest first.
pub open spec fn newest(log: Seq<EventView>, n: nat) -> Seq<EventView> {
    if n < log.len() {
        log.reverse().take(n as int)
    } else {
        log.reverse()
    }
}

pub struct EventLog {
    events: VecDeque<Event>,
}

impl View for EventLog {
    type V = Seq<EventView>;

    closed spec fn view(&self) -> Seq<EventView> {
        event_views(self.events@)
    }
}

impl EventLog {
    /// The log never outgrows its capacity.
    pub open spec fn wf(&self) -> bool {
        self@.len() <= CAPACITY
    }

    pub fn new() -> (r: Self)
        ensures
            r.wf(),
            r@ == Seq::<EventView>::empty(),
    {
        let r = EventLog { events: VecDeque::with_capacity(CAPACITY) };
        assert(event_views(r.events@) =~= Seq::<EventView>::empty());
        r
    }

    /// Record an event of the given time.
    pub fn record(
        &mut self,
        unix: u64,
        level: Level,
        source: &'static str,
        message: String,
        detail: Option<String>,
    )
        requires
            old(self).wf(),
        ensures
            final(self).wf(),
            final(self)@ == logged(
                old(self)@,
                EventView {
                    unix,
                    level,
                    source: source@,
                    message: message@,
                    detail: text::opt(detail),
                },
            ),
    {
        let ghost before = self.events@;
        let e = Event { unix, level, source, message, detail };
        let ghost view = e@;
        if self.events.len() >= CAPACITY {
            self.events.pop_front();
            assert(event_views(self.events@) =~= event_views(before).skip(1));
        }
        let ghost room = self.events@;
        self.events.push_back(e);
        assert(event_views(self.events@) =~= event_views(room).push(view));
    }

    pub fn push(&mut self, level: Level, source: &'static str, message: String)
        requires
            old(self).wf(),
        ensures
            final(self).wf(),
            exists|unix: u64|
                final(self)@ == #[trigger] logged(
                    old(self)@,
                    EventView { unix, level, source: source@, message: message@, detail: None },
                ),
    {
        self.push_detailed(level, source, message, None);
    }

    pub fn push_detailed(
        &mut self,
        level: Level,
        source: &'static str,
        message: String,
        detail: Option<String>,
    )
        requires
            old(self).wf(),
        ensures
            final(self).wf(),
            exists|unix: u64|
                final(self)@ == #[trigger] logged(
                    old(self)@,
                    EventView {
                        unix,
                        level,
                        source: source@,
                        message: message@,
                        detail: text::opt(detail),
                    },
                ),
    {
        let unix = totp::now_unix();
        self.record(unix, level, source, message, detail);
    }

    /// Most recent first, which is the order a timeline is read in.
    pub fn recent(&self, limit: usize) -> (r: Vec<Event>)
        ensures
            event_views(r@) == newest(self@, limit as nat),
    {
        let n: usize = self.events.len();
        let mut out: Vec<Event> = Vec::new();
        let mut i: usize = 0;
        assert(event_views(out@) =~= self@.reverse().take(0));
        while i < n && i < limit
            invariant
                i <= n,
                i <= limit,
                n == self.events@.len(),
                event_views(out@) == self@.reverse().take(i as int),
            decreases n - i,
        {
            let e = self.events[n - 1 - i].clone();
            let ghost before = out@;
            let ghost view = e@;
            out.push(e);
            proof {
                assert(event_views(out@) =~= event_views(before).push(view));
                assert(self@.reverse()[i as int] == view);
                assert(self@.reverse().take(i + 1) =~= self@.reverse().take(i as int).push(view));
            }
            i += 1;
        }
        assert(self@.reverse().take(n as int) =~= self@.reverse());
        out
    }

    pub fn len(&self) -> (r: usize)
        ensures
            r == self@.len(),
    {
        self.events.len()
    }

    pub fn is_empty(&self) -> (r: bool)
        ensures
            r == (self@.len() == 0),
    {
        self.len() == 0
    }
}

/// The log after a whole history of events.
pub open spec fn history(events: Seq<EventView>) -> Seq<EventView>
    decreases events.len(),
{
    if events.len() == 0 {
        seq![]
    } else {
        logged(history(events.drop_last()), events.last())
    }
}

/// However many events there were, the log holds the newest of them, in order,
/// and no more than its capacity: what is dropped is always the oldest.
pub proof fn the_log_holds_the_newest(events: Seq<EventView>)
    ensures
        history(events).len() <= CAPACITY,
        history(events) == events.skip(
            if events.len() > CAPACITY {
                events.len() - CAPACITY
            } else {
                0
            },
        ),
    decreases events.len(),
{
    if events.len() > 0 {
        the_log_holds_the_newest(events.drop_last());
        let n = events.len();
        let k: int = if n > CAPACITY {
            n - CAPACITY
        } else {
            0
        };
        assert(history(events) =~= events.skip(k));
    } else {
        assert(history(events) =~= events.skip(0));
    }
}

/// What was just recorded is what is read first.
pub proof fn the_newest_is_read_first(log: Seq<EventView>, e: EventView, limit: nat)
    requires
        limit > 0,
    ensures
        newest(logged(log, e), limit).len() > 0,
        newest(logged(log, e), limit)[0] == e,
{
}

/// What is read is the newest first, as many as are asked for where there are so
/// many, counted back from the end of the log.
pub proof fn reading_counts_back_from_the_newest(log: Seq<EventView>, n: nat, i: int)
    ensures
        newest(log, n).len() == (if n < log.len() {
            n
        } else {
            log.len()
        }),
        0 <= i < newest(log, n).len() ==> newest(log, n)[i] == log[log.len() - 1 - i],
{
}

/// The log holds the last five hundred events and no more.
pub proof fn the_log_holds_five_hundred(events: Seq<EventView>)
    ensures
        events.len() <= 500 ==> history(events) == events,
        events.len() > 500 ==> history(events) == events.skip(events.len() - 500),
{
    the_log_holds_the_newest(events);
    assert(events.skip(0) =~= events);
}

} // verus!
