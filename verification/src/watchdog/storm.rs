//! Generic process-storm detection.
//!
//! The detector matches a command-line pattern and fires on either an absolute
//! count or a spawn *rate*, which is what distinguishes a runaway from a
//! legitimately busy machine.
//!
//! Rate matters more than count. A pool of 40 workers is normal; 40 processes
//! that did not exist ninety seconds ago is not.

use crate::clock;
use crate::clock::Clock;
use crate::gate;
use crate::gate::{Gate, GateOutcome, GateView, Probe};
use crate::text;
use regex::Regex;
use std::collections::HashSet;
use vstd::prelude::*;

verus! {

/// `regex::Regex`, a compiled pattern.
#[verifier::external_type_specification]
#[verifier::external_body]
pub struct ExRegex(Regex);

/// The pattern that a `regex::Regex` was made from.
pub uninterp spec fn pattern_of(re: Regex) -> Seq<char>;

/// The text of the error with which `regex::Regex::new` refuses a pattern, where
/// it does.
pub uninterp spec fn pattern_error(pattern: Seq<char>) -> Option<Seq<char>>;

/// What `regex::Regex::is_match` says of a text, where the regex was made from
/// this pattern.
pub uninterp spec fn matched(pattern: Seq<char>, line: Seq<char>) -> bool;

/// Calls `regex::Regex::new`. Whether it makes a regex of the pattern, and the
/// error where it makes none, depend on the pattern alone.
#[verifier::external_body]
fn compile(pattern: &str) -> (r: Result<Regex, String>)
    ensures
        match r {
            Ok(re) => pattern_error(pattern@) is None && pattern_of(re) == pattern@,
            Err(e) => pattern_error(pattern@) == Some(e@),
        },
{
    Regex::new(pattern).map_err(|e| e.to_string())
}

/// Calls `regex::Regex::is_match`, whose result depends on the pattern that the
/// regex was made from and on the text alone.
#[verifier::external_body]
fn is_match(re: &Regex, line: &str) -> (r: bool)
    ensures
        r == matched(pattern_of(*re), line@),
{
    re.is_match(line)
}

#[derive(Debug)]
pub struct StormRule {
    pub id: String,
    /// Regex matched against the full command line.
    pub pattern: String,
    /// Fire once strictly more than this many matches exist.
    pub max_count: usize,
    /// Fire once more than this many new matching processes appear per minute.
    ///
    /// A whole number: since spawns are counted, a fractional limit and the
    /// whole number below it fire on the same counts.
    pub max_spawns_per_min: Option<i64>,
    pub action: StormAction,
    pub enabled_if: Gate,
    /// Minimum seconds between actions for this rule.
    pub cooldown_secs: u64,
}

/// The cooldown of a rule that names none.
pub const DEFAULT_COOLDOWN: u64 = 30;

/// The count limit of a rule that names none.
pub const DEFAULT_MAX_COUNT: usize = 8;

#[derive(Debug)]
pub enum StormAction {
    /// Report only. The safe default: a new rule should never kill on its first
    /// encounter with a pattern its author may have written too broadly.
    Notify,
    /// Terminate exactly the matched processes, leaving everything else alone.
    KillMatched,
    /// Run an arbitrary command, e.g. a compositor-specific restart.
    Command(Vec<String>),
}

#[derive(Debug, Clone, Copy, PartialEq, Eq, Structural)]
pub enum StormTrigger {
    CountExceeded,
    RateExceeded,
}

#[derive(Debug)]
pub struct StormVerdict {
    pub rule_id: String,
    pub trigger: StormTrigger,
    pub count: usize,
    pub spawns_per_min: usize,
    pub pids: Vec<u32>,
    pub action: StormAction,
    /// True once flap protection has demoted this rule to reporting only.
    pub suppressed: bool,
}

// ---------------------------------------------------------------------------
// What detection means
// ---------------------------------------------------------------------------

pub enum ActionView {
    Notify,
    KillMatched,
    Command(Seq<Seq<char>>),
}

impl View for StormAction {
    type V = ActionView;

    open spec fn view(&self) -> ActionView {
        match self {
            StormAction::Notify => ActionView::Notify,
            StormAction::KillMatched => ActionView::KillMatched,
            StormAction::Command(argv) => ActionView::Command(text::strs(argv@)),
        }
    }
}

pub struct RuleView {
    pub id: Seq<char>,
    pub pattern: Seq<char>,
    pub max_count: nat,
    pub max_spawns_per_min: Option<i64>,
    pub action: ActionView,
    pub enabled_if: GateView,
    pub cooldown_secs: u64,
}

impl View for StormRule {
    type V = RuleView;

    open spec fn view(&self) -> RuleView {
        RuleView {
            id: self.id@,
            pattern: self.pattern@,
            max_count: self.max_count as nat,
            max_spawns_per_min: self.max_spawns_per_min,
            action: self.action@,
            enabled_if: self.enabled_if@,
            cooldown_secs: self.cooldown_secs,
        }
    }
}

pub struct Finding {
    pub rule_id: Seq<char>,
    pub trigger: StormTrigger,
    pub count: nat,
    pub spawns_per_min: nat,
    pub pids: Seq<u32>,
    pub action: ActionView,
    pub suppressed: bool,
}

impl View for StormVerdict {
    type V = Finding;

    open spec fn view(&self) -> Finding {
        Finding {
            rule_id: self.rule_id@,
            trigger: self.trigger,
            count: self.count as nat,
            spawns_per_min: self.spawns_per_min as nat,
            pids: self.pids@,
            action: self.action@,
            suppressed: self.suppressed,
        }
    }
}

/// What is remembered of one rule between passes.
#[verifier::ext_equal]
pub struct Memory {
    /// The processes that matched at the last pass.
    pub known: Set<u32>,
    /// When each process of the last minute appeared.
    pub spawns: Seq<u64>,
    /// When the rule acted.
    pub actions: Seq<u64>,
    pub last: Option<u64>,
    /// A first pass has established what was there already.
    pub primed: bool,
}

pub open spec fn nothing_known() -> Memory {
    Memory { known: Set::empty(), spawns: seq![], actions: seq![], last: None, primed: false }
}

/// How many actions on one rule within the flap window before Prism stops acting.
///
/// An intervention loop is worse than the fault it is chasing, particularly on
/// an unattended machine. Past this point the rule reports and does nothing.
pub const FLAP_LIMIT: usize = 3;

/// The flap window, in seconds.
pub const FLAP_WINDOW: u64 = 600;

/// Spawns are counted over this many seconds.
pub const RATE_WINDOW: u64 = 60;

/// The moments that are less than `secs` seconds old.
pub open spec fn recent(moments: Seq<u64>, now: u64, secs: u64) -> Seq<u64> {
    moments.filter(|t: u64| clock::within_secs(now, t, secs))
}

/// The processes that match now and did not at the last pass. On the first pass
/// there are none: what was there before Prism did not spawn under its eyes.
pub open spec fn born(m: Memory, pids: Seq<u32>) -> nat {
    if m.primed {
        pids.to_set().difference(m.known).len()
    } else {
        0
    }
}

/// The memory after the matching processes have been looked at.
pub open spec fn noticed(m: Memory, pids: Seq<u32>, now: u64) -> Memory {
    Memory {
        known: pids.to_set(),
        spawns: recent(m.spawns + Seq::new(born(m, pids), |i: int| now), now, RATE_WINDOW),
        actions: m.actions,
        last: m.last,
        primed: true,
    }
}

/// The limit that is exceeded, if one is. The count is looked at first.
pub open spec fn tripped(rule: RuleView, count: nat, spawns: nat) -> Option<StormTrigger> {
    if count > rule.max_count {
        Some(StormTrigger::CountExceeded)
    } else if rule.max_spawns_per_min is Some && spawns > rule.max_spawns_per_min->0 {
        Some(StormTrigger::RateExceeded)
    } else {
        None
    }
}

/// The rule acted less than its cooldown ago.
pub open spec fn cooling(rule: RuleView, m: Memory, now: u64) -> bool {
    m.last is Some && clock::within_secs(now, m.last->0, rule.cooldown_secs)
}

/// One rule on one pass: the memory afterwards, and the verdict if there is one.
pub open spec fn judge(rule: RuleView, m: Memory, pids: Seq<u32>, now: u64) -> (
    Memory,
    Option<Finding>,
) {
    let s = noticed(m, pids, now);
    let trigger = tripped(rule, pids.len(), s.spawns.len());
    if trigger is None || cooling(rule, s, now) {
        (s, None)
    } else {
        let acted = recent(s.actions, now, FLAP_WINDOW);
        let suppressed = acted.len() >= FLAP_LIMIT;
        (
            Memory { actions: acted.push(now), last: Some(now), ..s },
            Some(
                Finding {
                    rule_id: rule.id,
                    trigger: trigger->0,
                    count: pids.len(),
                    spawns_per_min: s.spawns.len(),
                    pids,
                    action: if suppressed {
                        ActionView::Notify
                    } else {
                        rule.action
                    },
                    suppressed,
                },
            ),
        )
    }
}

/// What is remembered under an id.
pub open spec fn recall(mem: Map<Seq<char>, Memory>, id: Seq<char>) -> Memory {
    if mem.contains_key(id) {
        mem[id]
    } else {
        nothing_known()
    }
}

/// The first `n` rules in turn, each on what the ones before it left behind.
pub open spec fn sweep(
    rules: Seq<RuleView>,
    mem: Map<Seq<char>, Memory>,
    hits: Seq<Seq<u32>>,
    now: u64,
    n: int,
) -> (Map<Seq<char>, Memory>, Seq<Finding>)
    decreases n,
{
    if n <= 0 {
        (mem, seq![])
    } else {
        let (before, found) = sweep(rules, mem, hits, now, n - 1);
        let rule = rules[n - 1];
        let (m, verdict) = judge(rule, recall(before, rule.id), hits[n - 1], now);
        (
            before.insert(rule.id, m),
            match verdict {
                Some(v) => found.push(v),
                None => found,
            },
        )
    }
}

/// Why a rule is left out on this host, or `None` where it is kept.
pub open spec fn left_out(rule: RuleView, host: Probe) -> Option<Seq<char>> {
    match gate::blocked_by(rule.enabled_if, host) {
        Some(why) => Some(rule.id + ": "@ + why),
        None => match pattern_error(rule.pattern) {
            None => None,
            Some(e) => Some(rule.id + ": invalid pattern ("@ + e + ")"@),
        },
    }
}

/// The rules kept of the first `n`, in order.
pub open spec fn kept(rules: Seq<RuleView>, hosts: Seq<Probe>, n: int) -> Seq<RuleView>
    decreases n,
{
    if n <= 0 {
        seq![]
    } else if left_out(rules[n - 1], hosts[n - 1]) is None {
        kept(rules, hosts, n - 1).push(rules[n - 1])
    } else {
        kept(rules, hosts, n - 1)
    }
}

/// The reasons for those left out of the first `n`, in order.
pub open spec fn reasons(rules: Seq<RuleView>, hosts: Seq<Probe>, n: int) -> Seq<Seq<char>>
    decreases n,
{
    if n <= 0 {
        seq![]
    } else {
        match left_out(rules[n - 1], hosts[n - 1]) {
            None => reasons(rules, hosts, n - 1),
            Some(why) => reasons(rules, hosts, n - 1).push(why),
        }
    }
}

pub open spec fn rule_views(rules: Seq<StormRule>) -> Seq<RuleView> {
    rules.map_values(|r: StormRule| r@)
}

pub open spec fn pid_views(hits: Seq<Vec<u32>>) -> Seq<Seq<u32>> {
    hits.map_values(|v: Vec<u32>| v@)
}

pub open spec fn findings(v: Seq<StormVerdict>) -> Seq<Finding> {
    v.map_values(|x: StormVerdict| x@)
}

/// The processes of a table whose command line matches.
pub open spec fn matching_pids(pattern: Seq<char>, table: Seq<(u32, String)>) -> Seq<u32> {
    table.filter(|p: (u32, String)| matched(pattern, p.1@)).map_values(|p: (u32, String)| p.0)
}

// ---------------------------------------------------------------------------
// The detector
// ---------------------------------------------------------------------------

/// What is remembered of one rule, under its id.
struct RuleState {
    id: String,
    known: HashSet<u32>,
    spawns: Vec<u64>,
    actions: Vec<u64>,
    last: Option<u64>,
    primed: bool,
}

impl RuleState {
    spec fn memory(self) -> Memory {
        Memory {
            known: self.known@,
            spawns: self.spawns@,
            actions: self.actions@,
            last: self.last,
            primed: self.primed,
        }
    }
}

spec fn memories(states: Seq<RuleState>) -> Map<Seq<char>, Memory>
    decreases states.len(),
{
    if states.len() == 0 {
        Map::empty()
    } else {
        memories(states.drop_last()).insert(states.last().id@, states.last().memory())
    }
}

spec fn ids_differ(states: Seq<RuleState>) -> bool {
    forall|i: int, j: int|
        0 <= i < j < states.len() ==> #[trigger] states[i].id@ != #[trigger] states[j].id@
}

proof fn lemma_memory_at(states: Seq<RuleState>, i: int)
    requires
        ids_differ(states),
        0 <= i < states.len(),
    ensures
        memories(states).contains_key(states[i].id@),
        memories(states)[states[i].id@] == states[i].memory(),
    decreases states.len(),
{
    if i < states.len() - 1 {
        let rest = states.drop_last();
        assert(ids_differ(rest)) by {
            assert forall|a: int, b: int| 0 <= a < b < rest.len() implies #[trigger] rest[a].id@
                != #[trigger] rest[b].id@ by {
                assert(states[a].id@ != states[b].id@);
            }
        }
        lemma_memory_at(rest, i);
        assert(rest[i] == states[i]);
        assert(states[i].id@ != states[states.len() - 1].id@);
    }
}

proof fn lemma_memory_of(states: Seq<RuleState>, k: Seq<char>) -> (i: int)
    requires
        memories(states).contains_key(k),
    ensures
        0 <= i < states.len(),
        states[i].id@ == k,
    decreases states.len(),
{
    if states.len() == 0 {
        assert(!memories(states).contains_key(k));
        0
    } else if k == states.last().id@ {
        states.len() - 1
    } else {
        let rest = states.drop_last();
        assert(memories(rest).contains_key(k));
        let i = lemma_memory_of(rest, k);
        assert(rest[i] == states[i]);
        i
    }
}

proof fn lemma_memories_update(states: Seq<RuleState>, i: int, s: RuleState)
    requires
        ids_differ(states),
        0 <= i < states.len(),
        s.id@ == states[i].id@,
    ensures
        ids_differ(states.update(i, s)),
        memories(states.update(i, s)) == memories(states).insert(s.id@, s.memory()),
{
    let next = states.update(i, s);
    assert(ids_differ(next)) by {
        assert forall|a: int, b: int| 0 <= a < b < next.len() implies #[trigger] next[a].id@
            != #[trigger] next[b].id@ by {
            assert(next[a].id@ == states[a].id@);
            assert(next[b].id@ == states[b].id@);
        }
    }
    let a = memories(next);
    let b = memories(states).insert(s.id@, s.memory());
    assert forall|k: Seq<char>| #[trigger] a.dom().contains(k) implies b.dom().contains(k) && a[k]
        == b[k] by {
        let j = lemma_memory_of(next, k);
        lemma_memory_at(next, j);
        lemma_memory_at(states, j);
        if j != i {
            assert(next[j] == states[j]);
            assert(next[j].id@ != next[i].id@);
        }
    }
    assert forall|k: Seq<char>| #[trigger] b.dom().contains(k) implies a.dom().contains(k) by {
        if k == s.id@ {
            lemma_memory_at(next, i);
        } else {
            let j = lemma_memory_of(states, k);
            lemma_memory_at(next, j);
            assert(next[j].id@ == states[j].id@);
        }
    }
    assert(a.dom() =~= b.dom());
    assert(a =~= b);
}

pub struct StormDetector {
    rules: Vec<StormRule>,
    patterns: Vec<Regex>,
    states: Vec<RuleState>,
    clock: Clock,
}

impl StormDetector {
    /// Each rule has its compiled pattern, and no two states share an id.
    pub closed spec fn wf(&self) -> bool {
        &&& self.patterns@.len() == self.rules@.len()
        &&& forall|i: int|
            0 <= i < self.rules@.len() ==> pattern_of(#[trigger] self.patterns@[i])
                == self.rules@[i].pattern@
        &&& ids_differ(self.states@)
    }

    /// The rules that are active here.
    pub closed spec fn rules(&self) -> Seq<RuleView> {
        rule_views(self.rules@)
    }

    /// What is remembered, by rule id.
    pub closed spec fn mem(&self) -> Map<Seq<char>, Memory> {
        memories(self.states@)
    }
}


impl Clone for StormAction {
    fn clone(&self) -> (r: Self)
        ensures
            r@ == self@,
    {
        match self {
            StormAction::Notify => StormAction::Notify,
            StormAction::KillMatched => StormAction::KillMatched,
            StormAction::Command(argv) => StormAction::Command(text::copy_all(argv)),
        }
    }
}

impl Default for StormAction {
    fn default() -> (r: Self)
        ensures
            r@ == ActionView::Notify,
    {
        StormAction::Notify
    }
}

impl Clone for StormRule {
    fn clone(&self) -> (r: Self)
        ensures
            r@ == self@,
    {
        StormRule {
            id: self.id.clone(),
            pattern: self.pattern.clone(),
            max_count: self.max_count,
            max_spawns_per_min: self.max_spawns_per_min,
            action: self.action.clone(),
            enabled_if: self.enabled_if.clone(),
            cooldown_secs: self.cooldown_secs,
        }
    }
}

impl StormVerdict {
    /// One line for the log.
    pub fn describe(&self) -> (r: String)
        ensures
            r@ == "storm `"@ + self.rule_id@ + "`: "@ + (match self.trigger {
                StormTrigger::CountExceeded => text::dec(self.count as nat) + " processes"@,
                StormTrigger::RateExceeded => text::dec(self.spawns_per_min as nat)
                    + " spawns/min"@,
            }),
    {
        let mut out = "storm `".to_string();
        out.append(self.rule_id.as_str());
        out.append("`: ");
        let ghost head = out@;
        match self.trigger {
            StormTrigger::CountExceeded => {
                text::push_dec(&mut out, self.count as u64);
                out.append(" processes");
                assert(out@ =~= head + (text::dec(self.count as nat) + " processes"@));
            },
            StormTrigger::RateExceeded => {
                text::push_dec(&mut out, self.spawns_per_min as u64);
                out.append(" spawns/min");
                assert(out@ =~= head + (text::dec(self.spawns_per_min as nat) + " spawns/min"@));
            },
        }
        out
    }
}

/// The moments that are less than `secs` seconds old.
fn keep_recent(moments: &Vec<u64>, now: u64, secs: u64) -> (r: Vec<u64>)
    ensures
        r@ == recent(moments@, now, secs),
{
    let ghost keep = |t: u64| clock::within_secs(now, t, secs);
    let mut out: Vec<u64> = Vec::new();
    let mut i: usize = 0;
    proof {
        text::lemma_filter_none(moments@, keep);
    }
    while i < moments.len()
        invariant
            i <= moments.len(),
            keep == (|t: u64| clock::within_secs(now, t, secs)),
            out@ == moments@.take(i as int).filter(keep),
        decreases moments.len() - i,
    {
        proof {
            text::lemma_filter_next(moments@, keep, i as int);
        }
        if clock::is_within_secs(now, moments[i], secs) {
            out.push(moments[i]);
        }
        i += 1;
    }
    assert(moments@.take(i as int) =~= moments@);
    out
}

/// The distinct pids, and how many of them are not among the known.
fn census(pids: &Vec<u32>, known: &HashSet<u32>) -> (r: (HashSet<u32>, usize))
    ensures
        r.0@ == pids@.to_set(),
        r.1 == pids@.to_set().difference(known@).len(),
{
    broadcast use vstd::std_specs::hash::group_hash_axioms;

    let mut current: HashSet<u32> = HashSet::new();
    let mut fresh: usize = 0;
    let mut i: usize = 0;
    proof {
        assert(pids@.take(0).to_set() =~= Set::empty());
        assert(Set::<u32>::empty().difference(known@) =~= Set::empty());
    }
    while i < pids.len()
        invariant
            i <= pids.len(),
            current@ == pids@.take(i as int).to_set(),
            current@.finite(),
            fresh == current@.difference(known@).len(),
            fresh <= i,
        decreases pids.len() - i,
    {
        broadcast use vstd::std_specs::hash::group_hash_axioms;

        let p = pids[i];
        let ghost prev = current@;
        proof {
            let t = pids@.take(i + 1);
            assert(t.drop_last() =~= pids@.take(i as int));
            assert(t.to_set() =~= prev.insert(p)) by {
                assert forall|x: u32| t.contains(x) <==> prev.insert(p).contains(x) by {
                    if t.contains(x) {
                        let k = choose|k: int| 0 <= k < t.len() && t[k] == x;
                        if k < i {
                            assert(pids@.take(i as int)[k] == x);
                        }
                    }
                    if prev.contains(x) {
                        let k = choose|k: int| 0 <= k < i && pids@.take(i as int)[k] == x;
                        assert(t[k] == x);
                    }
                    if x == p {
                        assert(t[i as int] == x);
                    }
                }
            }
        }
        let added = current.insert(p);
        proof {
            if known@.contains(p) {
                assert(prev.insert(p).difference(known@) =~= prev.difference(known@));
            } else {
                assert(prev.insert(p).difference(known@) =~= prev.difference(known@).insert(p));
            }
        }
        if added && !known.contains(&p) {
            fresh += 1;
        }
        i += 1;
    }
    assert(pids@.take(i as int) =~= pids@);
    (current, fresh)
}

/// One rule on one pass.
fn judge_rule(rule: &StormRule, state: &mut RuleState, pids: &Vec<u32>, now: u64) -> (r: Option<
    StormVerdict,
>)
    ensures
        final(state).id == old(state).id,
        final(state).memory() == judge(rule@, old(state).memory(), pids@, now).0,
        match r {
            Some(v) => judge(rule@, old(state).memory(), pids@, now).1 == Some(v@),
            None => judge(rule@, old(state).memory(), pids@, now).1 is None,
        },
{
    let ghost m = state.memory();
    let (current, fresh) = census(pids, &state.known);
    let mut spawns: Vec<u64> = Vec::new();
    let mut k: usize = 0;
    while k < state.spawns.len()
        invariant
            k <= state.spawns@.len(),
            spawns@ == state.spawns@.take(k as int),
        decreases state.spawns@.len() - k,
    {
        spawns.push(state.spawns[k]);
        k += 1;
    }
    assert(spawns@ =~= m.spawns);
    if state.primed {
        let mut n: usize = 0;
        while n < fresh
            invariant
                n <= fresh,
                spawns@ == m.spawns + Seq::new(n as nat, |i: int| now),
            decreases fresh - n,
        {
            spawns.push(now);
            n += 1;
            assert(spawns@ =~= m.spawns + Seq::new(n as nat, |i: int| now));
        }
    } else {
        assert(spawns@ =~= m.spawns + Seq::new(0, |i: int| now));
    }
    state.primed = true;
    state.known = current;
    state.spawns = keep_recent(&spawns, now, RATE_WINDOW);
    let ghost s = noticed(m, pids@, now);
    assert(state.memory() =~= s);

    let count: usize = pids.len();
    let rate: usize = state.spawns.len();
    let over: bool = match rule.max_spawns_per_min {
        Some(limit) => rate as i128 > limit as i128,
        None => false,
    };
    let trigger = if count > rule.max_count {
        StormTrigger::CountExceeded
    } else if over {
        StormTrigger::RateExceeded
    } else {
        return None;
    };
    match state.last {
        Some(last) => {
            if clock::is_within_secs(now, last, rule.cooldown_secs) {
                return None;
            }
        },
        None => {},
    }
    let mut acted = keep_recent(&state.actions, now, FLAP_WINDOW);
    let suppressed = acted.len() >= FLAP_LIMIT;
    acted.push(now);
    state.last = Some(now);
    state.actions = acted;
    assert(state.memory() =~= judge(rule@, m, pids@, now).0);
    let mut named: Vec<u32> = Vec::new();
    let mut i: usize = 0;
    while i < pids.len()
        invariant
            i <= pids.len(),
            named@ == pids@.take(i as int),
        decreases pids.len() - i,
    {
        named.push(pids[i]);
        i += 1;
    }
    assert(named@ =~= pids@);
    let action = if suppressed {
        StormAction::Notify
    } else {
        rule.action.clone()
    };
    Some(
        StormVerdict {
            rule_id: rule.id.clone(),
            trigger,
            count,
            spawns_per_min: rate,
            pids: named,
            action,
            suppressed,
        },
    )
}


impl StormDetector {
    /// Compiles rules, discarding any with an invalid regex or unmet capability
    /// gate. A profile authored on another machine loses only what it cannot
    /// support here. `hosts` says, for each rule, what the host has of the
    /// things that its gate asks for.
    pub fn new(rules: Vec<StormRule>, hosts: &Vec<Probe>) -> (r: (Self, Vec<String>))
        requires
            hosts@.len() == rules@.len(),
        ensures
            r.0.wf(),
            r.0.rules() == kept(rule_views(rules@), hosts@, rules@.len() as int),
            r.0.mem() == Map::<Seq<char>, Memory>::empty(),
            text::strs(r.1@) == reasons(rule_views(rules@), hosts@, rules@.len() as int),
    {
        let ghost all = rule_views(rules@);
        let mut keep: Vec<StormRule> = Vec::new();
        let mut patterns: Vec<Regex> = Vec::new();
        let mut skipped: Vec<String> = Vec::new();
        let mut i: usize = 0;
        while i < rules.len()
            invariant
                i <= rules.len(),
                hosts@.len() == rules@.len(),
                all == rule_views(rules@),
                patterns@.len() == keep@.len(),
                forall|k: int|
                    0 <= k < keep@.len() ==> pattern_of(#[trigger] patterns@[k])
                        == keep@[k].pattern@,
                rule_views(keep@) == kept(all, hosts@, i as int),
                text::strs(skipped@) == reasons(all, hosts@, i as int),
            decreases rules.len() - i,
        {
            let rule = rules[i].clone();
            let ghost old_keep = keep@;
            let ghost old_skipped = skipped@;
            match rule.enabled_if.evaluate(hosts[i]) {
                GateOutcome::Blocked(why) => {
                    let mut line = rule.id.clone();
                    line.append(": ");
                    line.append(why.as_str());
                    proof {
                        text::lemma_strs_push(old_skipped, line);
                    }
                    skipped.push(line);
                },
                GateOutcome::Satisfied => {
                    match compile(rule.pattern.as_str()) {
                        Ok(re) => {
                            keep.push(rule);
                            patterns.push(re);
                            assert(rule_views(keep@) =~= rule_views(old_keep).push(all[i as int]));
                        },
                        Err(e) => {
                            let mut line = rule.id.clone();
                            line.append(": invalid pattern (");
                            line.append(e.as_str());
                            line.append(")");
                            proof {
                                text::lemma_strs_push(old_skipped, line);
                            }
                            skipped.push(line);
                        },
                    }
                },
            }
            i += 1;
        }
        (StormDetector { rules: keep, patterns, states: Vec::new(), clock: Clock::start() }, skipped)
    }

    pub fn rule_count(&self) -> (r: usize)
        ensures
            r == self.rules().len(),
    {
        self.rules.len()
    }

    /// For each active rule, the processes of a table whose command line its
    /// pattern matches.
    pub fn matching(&self, table: &Vec<(u32, String)>) -> (r: Vec<Vec<u32>>)
        requires
            self.wf(),
        ensures
            r@.len() == self.rules().len(),
            forall|i: int|
                0 <= i < r@.len() ==> (#[trigger] r@[i])@ == matching_pids(
                    self.rules()[i].pattern,
                    table@,
                ),
    {
        let mut out: Vec<Vec<u32>> = Vec::new();
        let mut i: usize = 0;
        while i < self.patterns.len()
            invariant
                i <= self.patterns@.len(),
                self.wf(),
                out@.len() == i,
                forall|k: int|
                    0 <= k < i ==> (#[trigger] out@[k])@ == matching_pids(
                        self.rules()[k].pattern,
                        table@,
                    ),
            decreases self.patterns@.len() - i,
        {
            let pids = pids_matching(&self.patterns[i], table);
            assert(self.rules()[i as int].pattern == self.rules@[i as int].pattern@);
            out.push(pids);
            i += 1;
        }
        out
    }

    /// One detection pass at a given time. Returns a verdict per rule that has
    /// tripped.
    ///
    /// `matches` supplies the pids matching each rule, handed in rather than
    /// scanned for so that the whole detector works without a process table.
    pub fn evaluate_at(&mut self, matches: &Vec<Vec<u32>>, now: u64) -> (r: Vec<StormVerdict>)
        requires
            old(self).wf(),
            matches@.len() == old(self).rules().len(),
        ensures
            final(self).wf(),
            final(self).rules() == old(self).rules(),
            (final(self).mem(), findings(r@)) == sweep(
                old(self).rules(),
                old(self).mem(),
                pid_views(matches@),
                now,
                matches@.len() as int,
            ),
    {
        let ghost rules = self.rules();
        let ghost start = self.mem();
        let ghost hits = pid_views(matches@);
        let mut verdicts: Vec<StormVerdict> = Vec::new();
        let mut i: usize = 0;
        assert(findings(verdicts@) =~= seq![]);
        while i < self.rules.len()
            invariant
                i <= self.rules@.len(),
                matches@.len() == self.rules@.len(),
                self.wf(),
                self.rules() == rules,
                hits == pid_views(matches@),
                (self.mem(), findings(verdicts@)) == sweep(rules, start, hits, now, i as int),
            decreases self.rules@.len() - i,
        {
            let ghost before = self.mem();
            let ghost found = findings(verdicts@);
            let ghost id = self.rules@[i as int].id@;
            assert(rules[i as int] == self.rules@[i as int]@);
            let at = self.state_of(i);
            assert(recall(self.mem(), id) == self.states@[at as int].memory()) by {
                lemma_memory_at(self.states@, at as int);
            }
            let ghost states = self.states@;
            let verdict = judge_rule(&self.rules[i], &mut self.states[at], &matches[i], now);
            proof {
                lemma_memories_update(states, at as int, self.states@[at as int]);
                assert(self.states@ =~= states.update(at as int, self.states@[at as int]));
                assert(self.mem() =~= before.insert(
                    id,
                    judge(rules[i as int], recall(before, id), hits[i as int], now).0,
                ));
            }
            match verdict {
                Some(v) => {
                    verdicts.push(v);
                    assert(findings(verdicts@) =~= found.push(v@));
                },
                None => {},
            }
            i += 1;
        }
        verdicts
    }

    /// One detection pass, now.
    pub fn evaluate(&mut self, matches: &Vec<Vec<u32>>) -> (r: Vec<StormVerdict>)
        requires
            old(self).wf(),
            matches@.len() == old(self).rules().len(),
        ensures
            final(self).wf(),
            final(self).rules() == old(self).rules(),
            exists|now: u64|
                (final(self).mem(), findings(r@)) == #[trigger] sweep(
                    old(self).rules(),
                    old(self).mem(),
                    pid_views(matches@),
                    now,
                    matches@.len() as int,
                ),
    {
        let now = self.clock.now();
        self.evaluate_at(matches, now)
    }

    /// The place of the state for rule `i`, made where there is none.
    fn state_of(&mut self, i: usize) -> (at: usize)
        requires
            old(self).wf(),
            i < old(self).rules@.len(),
        ensures
            final(self).wf(),
            final(self).rules@ == old(self).rules@,
            final(self).patterns@ == old(self).patterns@,
            at < final(self).states@.len(),
            final(self).states@[at as int].id@ == old(self).rules@[i as int].id@,
            final(self).states@[at as int].memory() == recall(
                old(self).mem(),
                old(self).rules@[i as int].id@,
            ),
            forall|m: Memory|
                final(self).mem().insert(old(self).rules@[i as int].id@, m) == #[trigger] old(
                    self,
                ).mem().insert(old(self).rules@[i as int].id@, m),
    {
        let ghost states = self.states@;
        let ghost id = self.rules@[i as int].id@;
        let mut k: usize = 0;
        while k < self.states.len()
            invariant
                k <= self.states@.len(),
                i < self.rules@.len(),
                *self == *old(self),
                self.wf(),
                id == self.rules@[i as int].id@,
                forall|j: int| 0 <= j < k ==> self.states@[j].id@ != id,
            decreases self.states@.len() - k,
        {
            if text::same(self.states[k].id.as_str(), self.rules[i].id.as_str()) {
                proof {
                    lemma_memory_at(self.states@, k as int);
                }
                return k;
            }
            k += 1;
        }
        let fresh = RuleState {
            id: self.rules[i].id.clone(),
            known: HashSet::new(),
            spawns: Vec::new(),
            actions: Vec::new(),
            last: None,
            primed: false,
        };
        proof {
            assert(fresh.memory() =~= nothing_known());
            if memories(states).contains_key(id) {
                let j = lemma_memory_of(states, id);
                assert(states[j].id@ != id);
            }
            assert(states.push(fresh).drop_last() =~= states);
        }
        self.states.push(fresh);
        proof {
            assert forall|m: Memory| self.mem().insert(id, m) == #[trigger] memories(states).insert(
                id,
                m,
            ) by {
                assert(self.mem().insert(id, m) =~= memories(states).insert(id, m));
            }
        }
        k
    }
}

/// The processes of a table whose command line a pattern matches.
fn pids_matching(re: &Regex, table: &Vec<(u32, String)>) -> (r: Vec<u32>)
    ensures
        r@ == matching_pids(pattern_of(*re), table@),
{
    let ghost keep = |p: (u32, String)| matched(pattern_of(*re), p.1@);
    let ghost pick = |p: (u32, String)| p.0;
    let mut out: Vec<u32> = Vec::new();
    let mut i: usize = 0;
    proof {
        text::lemma_filter_none(table@, keep);
    }
    while i < table.len()
        invariant
            i <= table.len(),
            keep == (|p: (u32, String)| matched(pattern_of(*re), p.1@)),
            pick == (|p: (u32, String)| p.0),
            out@ =~= table@.take(i as int).filter(keep).map_values(pick),
        decreases table.len() - i,
    {
        proof {
            text::lemma_filter_next(table@, keep, i as int);
        }
        if is_match(re, table[i].1.as_str()) {
            out.push(table[i].0);
        }
        i += 1;
    }
    assert(table@.take(i as int) =~= table@);
    out
}

/// The rules that ship.
pub open spec fn builtin() -> Seq<RuleView> {
    seq![
        RuleView {
            id: "quickshell-conflictkiller-recursion"@,
            pattern: "qs\\s+-p\\s+.*killDialog\\.qml"@,
            max_count: 2,
            max_spawns_per_min: Some(4i64),
            action: ActionView::KillMatched,
            enabled_if: GateView { binary: Some("qs"@), ..gate::open_gate() },
            cooldown_secs: 15,
        },
    ]
}

/// Rules that ship by default.
///
/// Only the recursion that motivated this module, expressed generically. It is
/// gated on `qs` being installed, so on a machine without quickshell it simply
/// never loads.
pub fn builtin_rules() -> (r: Vec<StormRule>)
    ensures
        rule_views(r@) == builtin(),
{
    let mut out: Vec<StormRule> = Vec::new();
    out.push(
        StormRule {
            id: "quickshell-conflictkiller-recursion".to_string(),
            pattern: "qs\\s+-p\\s+.*killDialog\\.qml".to_string(),
            // The dialog is meant to be a singleton the user dismisses, so two is
            // already conclusive evidence of recursion rather than normal use.
            max_count: 2,
            max_spawns_per_min: Some(4),
            action: StormAction::KillMatched,
            enabled_if: Gate {
                binary: Some("qs".to_string()),
                path: None,
                process: None,
                enabled: None,
            },
            cooldown_secs: 15,
        },
    );
    assert(rule_views(out@) =~= builtin());
    out
}

// ---------------------------------------------------------------------------
// Laws
// ---------------------------------------------------------------------------

/// A first pass never fires on rate: whatever was running already, a rule whose
/// count limit is not exceeded and whose rate limit is not negative says
/// nothing.
pub proof fn first_pass_only_primes(rule: RuleView, pids: Seq<u32>, now: u64)
    requires
        pids.len() <= rule.max_count,
        rule.max_spawns_per_min matches Some(limit) ==> limit >= 0,
    ensures
        judge(rule, nothing_known(), pids, now).1 is None,
        judge(rule, nothing_known(), pids, now).0.primed,
        judge(rule, nothing_known(), pids, now).0.known == pids.to_set(),
{
    let none = Seq::<u64>::empty() + Seq::new(0, |i: int| now);
    assert(none =~= Seq::<u64>::empty());
    assert(recent(none, now, RATE_WINDOW).len() == 0) by {
        reveal(Seq::filter);
    }
}

/// A set of processes that does not change adds no spawns, however often it is
/// looked at.
pub proof fn a_stable_set_spawns_nothing(rule: RuleView, m: Memory, pids: Seq<u32>, now: u64)
    requires
        m.primed,
        m.known == pids.to_set(),
    ensures
        judge(rule, m, pids, now).0.spawns == recent(m.spawns, now, RATE_WINDOW),
        judge(rule, m, pids, now).0.spawns.len() <= m.spawns.len(),
{
    assert(pids.to_set().difference(m.known) =~= Set::empty());
    assert(m.spawns + Seq::new(0, |i: int| now) =~= m.spawns);
    m.spawns.lemma_filter_len(|t: u64| clock::within_secs(now, t, RATE_WINDOW));
}

/// After an action nothing more is said of the rule until its cooldown is over.
pub proof fn cooldown_holds(
    rule: RuleView,
    m: Memory,
    first: Seq<u32>,
    then: u64,
    second: Seq<u32>,
    now: u64,
)
    requires
        judge(rule, m, first, then).1 is Some,
        clock::within_secs(now, then, rule.cooldown_secs),
    ensures
        judge(rule, judge(rule, m, first, then).0, second, now).1 is None,
{
}

/// A verdict that acts comes only while fewer than [`FLAP_LIMIT`] actions lie
/// within the flap window; past that the rule only reports.
pub proof fn flapping_only_reports(rule: RuleView, m: Memory, pids: Seq<u32>, now: u64)
    ensures
        judge(rule, m, pids, now).1 matches Some(v) ==> {
            &&& v.suppressed == (recent(m.actions, now, FLAP_WINDOW).len() >= FLAP_LIMIT)
            &&& v.suppressed ==> v.action == ActionView::Notify
            &&& !v.suppressed ==> v.action == rule.action
        },
{
}

/// A verdict names exactly the processes that matched, and comes only where a
/// limit is exceeded.
pub proof fn a_verdict_is_earned(rule: RuleView, m: Memory, pids: Seq<u32>, now: u64)
    ensures
        judge(rule, m, pids, now).1 matches Some(v) ==> {
            &&& v.pids == pids
            &&& v.rule_id == rule.id
            &&& pids.len() > rule.max_count || (rule.max_spawns_per_min is Some
                && v.spawns_per_min > rule.max_spawns_per_min->0)
        },
{
}

// ---------------------------------------------------------------------------
// A rule over many passes
// ---------------------------------------------------------------------------

/// A pass as one rule sees it: the processes that match, and when.
pub struct Pass {
    pub pids: Seq<u32>,
    pub now: u64,
}

/// What is remembered of a rule after its passes, one after another.
pub open spec fn lived(rule: RuleView, h: Seq<Pass>) -> Memory
    decreases h.len(),
{
    if h.len() == 0 {
        nothing_known()
    } else {
        judge(rule, lived(rule, h.drop_last()), h.last().pids, h.last().now).0
    }
}

/// What was said of a rule at one of its passes.
pub open spec fn said(rule: RuleView, h: Seq<Pass>, k: int) -> Option<Finding> {
    judge(rule, lived(rule, h.take(k)), h[k].pids, h[k].now).1
}

/// No pass is made before an earlier one.
pub open spec fn in_order(h: Seq<Pass>) -> bool {
    forall|i: int, j: int| 0 <= i < j < h.len() ==> (#[trigger] h[i]).now <= (#[trigger] h[j]).now
}

/// The processes that match at a pass and did not at the one before it. At the
/// first pass of all there are none.
pub open spec fn newcomers(h: Seq<Pass>, k: int) -> nat {
    if k <= 0 {
        0
    } else {
        h[k].pids.to_set().difference(h[k - 1].pids.to_set()).len()
    }
}

/// The newcomers of those of the first `n` passes that lie within a minute of
/// `now`.
pub open spec fn spawned(h: Seq<Pass>, now: u64, n: int) -> nat
    decreases n,
{
    if n <= 0 {
        0
    } else {
        spawned(h, now, n - 1) + (if now < h[n - 1].now + 60_000_000_000 {
            newcomers(h, n - 1)
        } else {
            0
        })
    }
}

/// What is recent at a time was recent at any earlier one.
proof fn lemma_recent_twice(moments: Seq<u64>, then: u64, now: u64, secs: u64)
    requires
        then <= now,
    ensures
        recent(recent(moments, then, secs), now, secs) == recent(moments, now, secs),
    decreases moments.len(),
{
    reveal(Seq::filter);
    if moments.len() > 0 {
        let d = moments.drop_last();
        let t = moments.last();
        lemma_recent_twice(d, then, now, secs);
        if clock::within_secs(then, t, secs) {
            let r = recent(d, then, secs);
            assert(recent(moments, then, secs) == r.push(t));
            assert(r.push(t).drop_last() =~= r);
        } else {
            assert(!clock::within_secs(now, t, secs));
        }
    }
}

/// Moments that are all the same are recent together.
proof fn lemma_recent_added(moments: Seq<u64>, t: u64, n: nat, now: u64, secs: u64)
    ensures
        recent(moments + Seq::new(n, |i: int| t), now, secs).len() == recent(
            moments,
            now,
            secs,
        ).len() + (if clock::within_secs(now, t, secs) {
            n
        } else {
            0
        }),
    decreases n,
{
    reveal(Seq::filter);
    let all = moments + Seq::new(n, |i: int| t);
    if n == 0 {
        assert(all =~= moments);
    } else {
        let m = (n - 1) as nat;
        lemma_recent_added(moments, t, m, now, secs);
        assert(all.drop_last() =~= moments + Seq::new(m, |i: int| t));
    }
}

proof fn lemma_lived(rule: RuleView, h: Seq<Pass>)
    ensures
        lived(rule, h).primed == (h.len() > 0),
        h.len() > 0 ==> lived(rule, h).known == h.last().pids.to_set(),
        lived(rule, h).last matches Some(t) ==> exists|k: int|
            0 <= k < h.len() && (#[trigger] said(rule, h, k)) is Some && h[k].now == t,
    decreases h.len(),
{
    if h.len() > 0 {
        let g = h.drop_last();
        let n = h.len() - 1;
        lemma_lived(rule, g);
        assert(h.take(n) =~= g);
        if lived(rule, h).last is Some {
            if said(rule, h, n) is Some {
                assert(h[n].now == lived(rule, h).last->0);
            } else {
                let t = lived(rule, g).last->0;
                let k = choose|k: int|
                    0 <= k < g.len() && (#[trigger] said(rule, g, k)) is Some && g[k].now == t;
                assert(g.take(k) =~= h.take(k));
                assert(said(rule, h, k) is Some && h[k].now == t);
            }
        }
    }
}

proof fn lemma_spawned_before(h: Seq<Pass>, now: u64, n: int)
    requires
        0 <= n < h.len(),
    ensures
        spawned(h.drop_last(), now, n) == spawned(h, now, n),
    decreases n,
{
    if n > 0 {
        lemma_spawned_before(h, now, n - 1);
    }
}

/// The spawns that are remembered are the newcomers of the last minute.
proof fn lemma_spawned(rule: RuleView, h: Seq<Pass>, now: u64)
    requires
        in_order(h),
        forall|i: int| 0 <= i < h.len() ==> (#[trigger] h[i]).now <= now,
    ensures
        recent(lived(rule, h).spawns, now, RATE_WINDOW).len() == spawned(h, now, h.len() as int),
    decreases h.len(),
{
    if h.len() == 0 {
        reveal(Seq::filter);
        assert(recent(lived(rule, h).spawns, now, RATE_WINDOW).len() == 0);
    } else {
        let g = h.drop_last();
        let p = h[h.len() - 1];
        assert(in_order(g)) by {
            assert forall|i: int, j: int| 0 <= i < j < g.len() implies (#[trigger] g[i]).now <= (
            #[trigger] g[j]).now by {
                assert(g[i] == h[i] && g[j] == h[j]);
            }
        }
        assert forall|i: int| 0 <= i < g.len() implies (#[trigger] g[i]).now <= now by {
            assert(g[i] == h[i]);
        }
        lemma_spawned(rule, g, now);
        lemma_lived(rule, g);
        lemma_spawned_before(h, now, h.len() - 1);
        let m = lived(rule, g);
        let b = born(m, p.pids);
        assert(b == newcomers(h, h.len() - 1));
        let all = m.spawns + Seq::new(b, |i: int| p.now);
        assert(lived(rule, h).spawns == recent(all, p.now, RATE_WINDOW));
        assert(p.now <= now);
        lemma_recent_twice(all, p.now, now, RATE_WINDOW);
        lemma_recent_added(m.spawns, p.now, b, now, RATE_WINDOW);
    }
}

/// At a pass the spawns that count are the newcomers of the minute before it.
proof fn lemma_rate(rule: RuleView, h: Seq<Pass>)
    requires
        h.len() > 0,
        in_order(h),
    ensures
        noticed(lived(rule, h.drop_last()), h.last().pids, h.last().now).spawns.len() == spawned(
            h,
            h.last().now,
            h.len() as int,
        ),
{
    let p = h[h.len() - 1];
    let m = lived(rule, h.drop_last());
    assert forall|i: int| 0 <= i < h.len() implies (#[trigger] h[i]).now <= p.now by {
        if i < h.len() - 1 {
            assert(h[i].now <= h[h.len() - 1].now);
        }
    }
    lemma_spawned(rule, h, p.now);
    let all = m.spawns + Seq::new(born(m, p.pids), |i: int| p.now);
    assert(lived(rule, h).spawns == noticed(m, p.pids, p.now).spawns);
    lemma_recent_twice(all, p.now, p.now, RATE_WINDOW);
}

/// Where the cooldown since every verdict is over, the rule does not cool.
proof fn lemma_cooled(rule: RuleView, h: Seq<Pass>)
    requires
        h.len() > 0,
        forall|k: int|
            0 <= k < h.len() - 1 && (#[trigger] said(rule, h, k)) is Some ==> !clock::within_secs(
                h.last().now,
                h[k].now,
                rule.cooldown_secs,
            ),
    ensures
        !cooling(rule, lived(rule, h.drop_last()), h.last().now),
{
    let g = h.drop_last();
    let m = lived(rule, g);
    lemma_lived(rule, g);
    if m.last is Some {
        let k = choose|k: int|
            0 <= k < g.len() && (#[trigger] said(rule, g, k)) is Some && g[k].now == m.last->0;
        assert(g.take(k) =~= h.take(k));
        assert(g[k] == h[k]);
        assert(said(rule, h, k) is Some);
    }
}

/// A rule that does not cool speaks where a limit is exceeded.
proof fn lemma_verdict(rule: RuleView, m: Memory, pids: Seq<u32>, now: u64)
    requires
        !cooling(rule, m, now),
    ensures
        ({
            let spawns = noticed(m, pids, now).spawns.len();
            let trigger = tripped(rule, pids.len(), spawns);
            let verdict = judge(rule, m, pids, now).1;
            &&& verdict is Some <==> trigger is Some
            &&& verdict matches Some(v) ==> {
                &&& v.rule_id == rule.id
                &&& Some(v.trigger) == trigger
                &&& v.count == pids.len()
                &&& v.spawns_per_min == spawns
                &&& v.pids == pids
            }
        }),
{
}

/// Over any passes at times that never go back: where the rule's cooldown since
/// each of its verdicts is over, the last pass gives a verdict exactly where
/// more processes match than may, or where more appeared within the last minute
/// than may, each process being counted at every pass at which it matches and
/// did not at the pass before. The verdict tells which limit it is, the count
/// first, and what matched.
pub proof fn a_rule_counts_the_last_minute(rule: RuleView, h: Seq<Pass>)
    requires
        h.len() > 0,
        in_order(h),
        forall|k: int|
            0 <= k < h.len() - 1 && (#[trigger] said(rule, h, k)) is Some ==> !clock::within_secs(
                h.last().now,
                h[k].now,
                rule.cooldown_secs,
            ),
    ensures
        ({
            let p = h.last();
            let rate = spawned(h, p.now, h.len() as int);
            let verdict = said(rule, h, h.len() - 1);
            let many = p.pids.len() > rule.max_count;
            &&& verdict is Some <==> many || (rule.max_spawns_per_min is Some && rate
                > rule.max_spawns_per_min->0)
            &&& verdict matches Some(v) ==> {
                &&& v.rule_id == rule.id
                &&& v.trigger == (if many {
                    StormTrigger::CountExceeded
                } else {
                    StormTrigger::RateExceeded
                })
                &&& v.count == p.pids.len()
                &&& v.spawns_per_min == rate
                &&& v.pids == p.pids
            }
        }),
{
    assert(h.take(h.len() - 1) =~= h.drop_last());
    lemma_rate(rule, h);
    lemma_cooled(rule, h);
    lemma_verdict(rule, lived(rule, h.drop_last()), h.last().pids, h.last().now);
}

/// A pass as the whole detector sees it: what matches each rule, and when.
pub struct Look {
    pub hits: Seq<Seq<u32>>,
    pub now: u64,
}

/// What is remembered of all rules after passes, one after another.
pub open spec fn watched(rules: Seq<RuleView>, h: Seq<Look>) -> Map<Seq<char>, Memory>
    decreases h.len(),
{
    if h.len() == 0 {
        Map::empty()
    } else {
        sweep(
            rules,
            watched(rules, h.drop_last()),
            h.last().hits,
            h.last().now,
            rules.len() as int,
        ).0
    }
}

/// The passes as the rule at `i` sees them.
pub open spec fn passes(h: Seq<Look>, i: int) -> Seq<Pass> {
    h.map_values(|l: Look| Pass { pids: l.hits[i], now: l.now })
}

/// No other rule has the id of the one at `i`.
pub open spec fn alone(rules: Seq<RuleView>, i: int) -> bool {
    0 <= i < rules.len() && forall|j: int|
        0 <= j < rules.len() && j != i ==> (#[trigger] rules[j]).id != rules[i].id
}

/// The verdicts speak of one rule as `verdict` does: not at all, or that way.
pub open spec fn speaks(found: Seq<Finding>, id: Seq<char>, verdict: Option<Finding>) -> bool {
    &&& forall|k: int|
        0 <= k < found.len() && (#[trigger] found[k]).rule_id == id ==> Some(found[k]) == verdict
    &&& verdict is Some ==> exists|k: int|
        0 <= k < found.len() && (#[trigger] found[k]).rule_id == id
}

proof fn lemma_sweep_one(
    rules: Seq<RuleView>,
    mem: Map<Seq<char>, Memory>,
    hits: Seq<Seq<u32>>,
    now: u64,
    n: int,
    i: int,
)
    requires
        alone(rules, i),
        0 <= n <= rules.len(),
    ensures
        ({
            let (after, found) = sweep(rules, mem, hits, now, n);
            let id = rules[i].id;
            let (m, verdict) = judge(rules[i], recall(mem, id), hits[i], now);
            &&& n <= i ==> recall(after, id) == recall(mem, id) && speaks(found, id, None)
            &&& n > i ==> recall(after, id) == m && speaks(found, id, verdict)
        }),
    decreases n,
{
    if n > 0 {
        lemma_sweep_one(rules, mem, hits, now, n - 1, i);
        let (before, found) = sweep(rules, mem, hits, now, n - 1);
        let rule = rules[n - 1];
        let id = rules[i].id;
        let (m, said) = judge(rule, recall(before, rule.id), hits[n - 1], now);
        let all = sweep(rules, mem, hits, now, n).1;
        let verdict = judge(rules[i], recall(mem, id), hits[i], now).1;
        if said is Some {
            assert(all == found.push(said->0));
            assert(said->0.rule_id == rule.id);
            assert(all[found.len() as int] == said->0);
        }
        if n - 1 != i {
            assert(rule.id != id);
            let want = if n <= i {
                None
            } else {
                verdict
            };
            assert(speaks(all, id, want)) by {
                if want is Some {
                    let k = choose|k: int| 0 <= k < found.len() && (#[trigger] found[k]).rule_id == id;
                    assert(all[k] == found[k]);
                }
                assert forall|k: int|
                    0 <= k < all.len() && (#[trigger] all[k]).rule_id == id implies Some(all[k])
                    == want by {
                    assert(k < found.len());
                    assert(found[k] == all[k]);
                }
            }
        } else {
            assert forall|k: int|
                0 <= k < all.len() && (#[trigger] all[k]).rule_id == id implies Some(all[k])
                == verdict by {
                if k < found.len() {
                    assert(found[k] == all[k]);
                }
            }
        }
    }
}

/// A rule with an id of its own goes by its own passes alone: what a pass over
/// all rules says of it is what its own history says, whatever the other rules
/// are and match.
pub proof fn a_rule_goes_by_its_own_passes(rules: Seq<RuleView>, h: Seq<Look>, i: int)
    requires
        alone(rules, i),
        h.len() > 0,
    ensures
        ({
            let found = sweep(
                rules,
                watched(rules, h.drop_last()),
                h.last().hits,
                h.last().now,
                rules.len() as int,
            ).1;
            speaks(found, rules[i].id, said(rules[i], passes(h, i), h.len() - 1))
        }),
{
    let g = h.drop_last();
    lemma_watched(rules, g, i);
    lemma_sweep_one(
        rules,
        watched(rules, g),
        h.last().hits,
        h.last().now,
        rules.len() as int,
        i,
    );
    assert(passes(h, i).take(h.len() - 1) =~= passes(g, i));
}

/// The verdicts of the last of many passes over all rules, as to one rule with
/// an id of its own whose cooldown is over: one of them is of that rule exactly
/// where more processes match than may, or more appeared within the last minute
/// than may.
pub proof fn a_pass_finds_what_the_last_minute_shows(rules: Seq<RuleView>, h: Seq<Look>, i: int)
    requires
        alone(rules, i),
        h.len() > 0,
        in_order(passes(h, i)),
        forall|k: int|
            0 <= k < h.len() - 1 && (#[trigger] said(rules[i], passes(h, i), k)) is Some
                ==> !clock::within_secs(h.last().now, h[k].now, rules[i].cooldown_secs),
    ensures
        ({
            let rule = rules[i];
            let pids = h.last().hits[i];
            let rate = spawned(passes(h, i), h.last().now, h.len() as int);
            let many = pids.len() > rule.max_count;
            let found = sweep(
                rules,
                watched(rules, h.drop_last()),
                h.last().hits,
                h.last().now,
                rules.len() as int,
            ).1;
            &&& (exists|k: int| 0 <= k < found.len() && (#[trigger] found[k]).rule_id == rule.id)
                <==> many || (rule.max_spawns_per_min is Some && rate
                > rule.max_spawns_per_min->0)
            &&& forall|k: int|
                0 <= k < found.len() && (#[trigger] found[k]).rule_id == rule.id ==> {
                    &&& found[k].trigger == (if many {
                        StormTrigger::CountExceeded
                    } else {
                        StormTrigger::RateExceeded
                    })
                    &&& found[k].count == pids.len()
                    &&& found[k].spawns_per_min == rate
                    &&& found[k].pids == pids
                }
        }),
{
    let p = passes(h, i);
    assert(p.last() == (Pass { pids: h.last().hits[i], now: h.last().now }));
    assert forall|k: int| 0 <= k < p.len() - 1 && (#[trigger] said(rules[i], p, k)) is Some implies
        !clock::within_secs(p.last().now, p[k].now, rules[i].cooldown_secs) by {
        assert(p[k].now == h[k].now);
    }
    a_rule_counts_the_last_minute(rules[i], p);
    a_rule_goes_by_its_own_passes(rules, h, i);
}

proof fn lemma_watched(rules: Seq<RuleView>, h: Seq<Look>, i: int)
    requires
        alone(rules, i),
    ensures
        recall(watched(rules, h), rules[i].id) == lived(rules[i], passes(h, i)),
    decreases h.len(),
{
    if h.len() > 0 {
        let g = h.drop_last();
        lemma_watched(rules, g, i);
        lemma_sweep_one(
            rules,
            watched(rules, g),
            h.last().hits,
            h.last().now,
            rules.len() as int,
            i,
        );
        assert(passes(h, i).drop_last() =~= passes(g, i));
    }
}

/// At how many of the first `n` passes something was said of the rule, counting
/// those less than ten minutes before `now`.
pub open spec fn spoken(rule: RuleView, h: Seq<Pass>, now: u64, n: int) -> nat
    decreases n,
{
    if n <= 0 {
        0
    } else {
        spoken(rule, h, now, n - 1) + (if said(rule, h, n - 1) is Some && now < h[n - 1].now
            + 600_000_000_000 {
            1nat
        } else {
            0
        })
    }
}

proof fn lemma_spoken_before(rule: RuleView, h: Seq<Pass>, now: u64, n: int)
    requires
        0 <= n < h.len(),
    ensures
        spoken(rule, h.drop_last(), now, n) == spoken(rule, h, now, n),
    decreases n,
{
    if n > 0 {
        lemma_spoken_before(rule, h, now, n - 1);
        assert(h.drop_last().take(n - 1) =~= h.take(n - 1));
        assert(h.drop_last()[n - 1] == h[n - 1]);
    }
}

/// The actions that are remembered are those of the last ten minutes.
proof fn lemma_spoken(rule: RuleView, h: Seq<Pass>, now: u64)
    requires
        in_order(h),
        forall|i: int| 0 <= i < h.len() ==> (#[trigger] h[i]).now <= now,
    ensures
        recent(lived(rule, h).actions, now, FLAP_WINDOW).len() == spoken(
            rule,
            h,
            now,
            h.len() as int,
        ),
    decreases h.len(),
{
    if h.len() == 0 {
        reveal(Seq::filter);
        assert(recent(lived(rule, h).actions, now, FLAP_WINDOW).len() == 0);
    } else {
        let g = h.drop_last();
        let p = h[h.len() - 1];
        let m = lived(rule, g);
        lemma_in_order_before(h);
        assert forall|i: int| 0 <= i < g.len() implies (#[trigger] g[i]).now <= now by {
            assert(g[i] == h[i]);
        }
        lemma_spoken(rule, g, now);
        lemma_spoken_before(rule, h, now, h.len() - 1);
        assert(h.take(h.len() - 1) =~= g);
        assert(p.now <= now);
        lemma_acted(rule, m, p.pids, p.now, now);
    }
}

proof fn lemma_in_order_before(h: Seq<Pass>)
    requires
        in_order(h),
        h.len() > 0,
    ensures
        in_order(h.drop_last()),
{
    let g = h.drop_last();
    assert forall|i: int, j: int| 0 <= i < j < g.len() implies (#[trigger] g[i]).now <= (
    #[trigger] g[j]).now by {
        assert(g[i] == h[i] && g[j] == h[j]);
    }
}

/// One pass adds its own action, where it acts, to those that are recent.
proof fn lemma_acted(rule: RuleView, m: Memory, pids: Seq<u32>, then: u64, now: u64)
    requires
        then <= now,
    ensures
        ({
            let (after, verdict) = judge(rule, m, pids, then);
            recent(after.actions, now, FLAP_WINDOW).len() == recent(m.actions, now, FLAP_WINDOW).len()
                + (if verdict is Some && clock::within_secs(now, then, FLAP_WINDOW) {
                1nat
            } else {
                0
            })
        }),
{
    let acted = recent(m.actions, then, FLAP_WINDOW);
    lemma_recent_twice(m.actions, then, now, FLAP_WINDOW);
    lemma_recent_added(acted, then, 1, now, FLAP_WINDOW);
    assert(acted + Seq::new(1, |i: int| then) =~= acted.push(then));
}

/// Over any passes at times that never go back: a verdict of the last of them is
/// demoted to a report exactly where the rule spoke at three or more earlier
/// passes within the ten minutes before it; else it asks for what the rule asks
/// for.
pub proof fn a_rule_that_keeps_acting_is_demoted(rule: RuleView, h: Seq<Pass>)
    requires
        h.len() > 0,
        in_order(h),
    ensures
        said(rule, h, h.len() - 1) matches Some(v) ==> {
            let often = spoken(rule, h, h.last().now, h.len() - 1) >= 3;
            &&& v.suppressed == often
            &&& v.action == (if often {
                ActionView::Notify
            } else {
                rule.action
            })
        },
{
    let g = h.drop_last();
    let now = h.last().now;
    assert(h.take(h.len() - 1) =~= g);
    lemma_in_order_before(h);
    assert forall|i: int| 0 <= i < g.len() implies (#[trigger] g[i]).now <= now by {
        assert(h[i].now <= h[h.len() - 1].now);
    }
    lemma_spoken(rule, g, now);
    lemma_spoken_before(rule, h, now, h.len() - 1);
}

/// What is remembered as the last verdict is no older than any verdict.
proof fn lemma_last_said(rule: RuleView, h: Seq<Pass>, i: int)
    requires
        in_order(h),
        0 <= i < h.len(),
        said(rule, h, i) is Some,
    ensures
        lived(rule, h).last is Some,
        lived(rule, h).last->0 >= h[i].now,
    decreases h.len(),
{
    let g = h.drop_last();
    let n = h.len() - 1;
    assert(h.take(n) =~= g);
    if i < n {
        assert(g.take(i) =~= h.take(i));
        assert(g[i] == h[i]);
        lemma_in_order_before(h);
        lemma_last_said(rule, g, i);
        assert(h[i].now <= h[n].now);
    }
}

/// Over any passes at times that never go back, two verdicts of one rule are at
/// least its cooldown apart.
pub proof fn verdicts_are_a_cooldown_apart(rule: RuleView, h: Seq<Pass>, i: int)
    requires
        in_order(h),
        0 <= i < h.len() - 1,
        said(rule, h, i) is Some,
        said(rule, h, h.len() - 1) is Some,
    ensures
        h[i].now + rule.cooldown_secs * 1_000_000_000 <= h.last().now,
{
    let g = h.drop_last();
    assert(h.take(h.len() - 1) =~= g);
    assert(g.take(i) =~= h.take(i));
    assert(g[i] == h[i]);
    lemma_in_order_before(h);
    lemma_last_said(rule, g, i);
    assert(h[i].now <= h[h.len() - 1].now);
}

/// What a pass over all rules says of one with an id of its own is demoted by
/// that rule's own verdicts of the last ten minutes, three or more of them.
pub proof fn a_pass_demotes_what_keeps_acting(rules: Seq<RuleView>, h: Seq<Look>, i: int, k: int)
    requires
        alone(rules, i),
        h.len() > 0,
        in_order(passes(h, i)),
        ({
            let found = sweep(
                rules,
                watched(rules, h.drop_last()),
                h.last().hits,
                h.last().now,
                rules.len() as int,
            ).1;
            0 <= k < found.len() && found[k].rule_id == rules[i].id
        }),
    ensures
        ({
            let found = sweep(
                rules,
                watched(rules, h.drop_last()),
                h.last().hits,
                h.last().now,
                rules.len() as int,
            ).1;
            let often = spoken(rules[i], passes(h, i), h.last().now, h.len() - 1) >= 3;
            &&& found[k].suppressed == often
            &&& found[k].action == (if often {
                ActionView::Notify
            } else {
                rules[i].action
            })
        }),
{
    let p = passes(h, i);
    assert(p.last() == (Pass { pids: h.last().hits[i], now: h.last().now }));
    a_rule_that_keeps_acting_is_demoted(rules[i], p);
    a_rule_goes_by_its_own_passes(rules, h, i);
}

/// What a pattern picks of a table: the processes whose command lines it matches,
/// in the order of the table, each time they stand there, and no others.
pub proof fn matching_goes_line_by_line(pattern: Seq<char>, table: Seq<(u32, String)>, n: int)
    requires
        0 <= n < table.len(),
    ensures
        matching_pids(pattern, table.take(n + 1)) == (if matched(pattern, table[n].1@) {
            matching_pids(pattern, table.take(n)).push(table[n].0)
        } else {
            matching_pids(pattern, table.take(n))
        }),
        matching_pids(pattern, table.take(0)).len() == 0,
{
    reveal(Seq::filter);
    assert(table.take(n + 1).drop_last() =~= table.take(n));
    assert(table.take(n + 1).last() == table[n]);
    assert(matching_pids(pattern, table.take(n + 1)) =~= (if matched(pattern, table[n].1@) {
        matching_pids(pattern, table.take(n)).push(table[n].0)
    } else {
        matching_pids(pattern, table.take(n))
    }));
}

/// A rule is kept exactly where its host meets its conditions and its pattern can
/// be compiled; a reason is given for each one that is not.
pub proof fn every_rule_is_kept_or_explained(rules: Seq<RuleView>, hosts: Seq<Probe>, n: int)
    requires
        0 <= n,
    ensures
        kept(rules, hosts, n).len() + reasons(rules, hosts, n).len() == n,
        n > 0 ==> ({
            let r = rules[n - 1];
            let ok = gate::blocked_by(r.enabled_if, hosts[n - 1]) is None && pattern_error(r.pattern)
                is None;
            &&& ok ==> kept(rules, hosts, n) == kept(rules, hosts, n - 1).push(r)
            &&& !ok ==> kept(rules, hosts, n) == kept(rules, hosts, n - 1)
        }),
    decreases n,
{
    if n > 0 {
        every_rule_is_kept_or_explained(rules, hosts, n - 1);
    }
}

/// One rule ships: it ends every copy of the dialog that quickshell opens on itself
/// once there are more than two or they come faster than four a minute, rests for
/// fifteen seconds between, and is kept only where quickshell is installed.
pub proof fn one_rule_ships(i: int)
    requires
        0 <= i < builtin().len(),
    ensures
        builtin().len() == 1,
        builtin()[i].id == "quickshell-conflictkiller-recursion"@,
        builtin()[i].pattern == "qs\\s+-p\\s+.*killDialog\\.qml"@,
        builtin()[i].max_count == 2,
        builtin()[i].max_spawns_per_min == Some(4i64),
        builtin()[i].action is KillMatched,
        builtin()[i].cooldown_secs == 15,
        builtin()[i].enabled_if.binary == Some("qs"@),
        builtin()[i].enabled_if.path is None,
        builtin()[i].enabled_if.process is None,
        builtin()[i].enabled_if.enabled is None,
{
}

} // verus!
