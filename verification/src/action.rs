//! What interventions decide.
//!
//! Every signal goes through [`crate::safety::SafetyGuard`], which is the only
//! way to obtain a pid that may be signalled.

use crate::text;
use vstd::prelude::*;

verus! {

/// How long a process that was killed is given to be gone, and how long to wait
/// between looks at one that was asked to go, in milliseconds.
pub const KILL_GRACE_MS: u64 = 200;

pub const LOOK_EVERY_MS: u64 = 100;

/// A process that runs, from `/proc/<pid>/stat`: its state follows the last
/// closing bracket, since its name may hold spaces and brackets.
pub open spec fn runs(stat: Seq<char>) -> bool {
    match text::rsplit_once(stat, ')') {
        Some((_, rest)) => text::words(rest).len() > 0 && text::words(rest)[0] != "Z"@,
        None => false,
    }
}

/// Liveness by `/proc` presence rather than by a null signal.
///
/// A null signal cannot distinguish a live process from a zombie, and a zombie
/// has already released its memory — treating one as still running would make
/// Prism escalate against a process that is, for its purposes, gone. None where
/// there is no such file.
pub fn alive(stat: Option<&str>) -> (r: bool)
    ensures
        r == (match stat {
            Some(s) => runs(s@),
            None => false,
        }),
{
    match stat {
        None => false,
        Some(s) => match text::split_last(s, ')') {
            None => false,
            Some((_, rest)) => {
                let w = text::words_of(rest.as_str());
                assert(text::strs(w@).len() == w@.len());
                if w.len() == 0 {
                    return false;
                }
                assert(text::words(rest@)[0] == w@[0]@);
                !text::same(w[0].as_str(), "Z")
            },
        },
    }
}

/// Those of the first `n` pids that are alive, or those that are not.
pub open spec fn picked(pids: Seq<u32>, alive: Seq<bool>, wanted: bool, n: int) -> Seq<u32>
    decreases n,
{
    if n <= 0 {
        seq![]
    } else if alive[n - 1] == wanted {
        picked(pids, alive, wanted, n - 1).push(pids[n - 1])
    } else {
        picked(pids, alive, wanted, n - 1)
    }
}

fn pick(pids: &Vec<u32>, alive: &Vec<bool>, wanted: bool) -> (r: Vec<u32>)
    requires
        alive@.len() == pids@.len(),
    ensures
        r@ == picked(pids@, alive@, wanted, pids@.len() as int),
{
    let mut out: Vec<u32> = Vec::new();
    let mut i: usize = 0;
    while i < pids.len()
        invariant
            i <= pids.len(),
            alive@.len() == pids@.len(),
            out@ == picked(pids@, alive@, wanted, i as int),
        decreases pids.len() - i,
    {
        if alive[i] == wanted {
            out.push(pids[i]);
        }
        i += 1;
    }
    out
}

/// Those that ignored being asked to go.
pub fn stubborn(pids: &Vec<u32>, alive: &Vec<bool>) -> (r: Vec<u32>)
    requires
        alive@.len() == pids@.len(),
    ensures
        r@ == picked(pids@, alive@, true, pids@.len() as int),
{
    pick(pids, alive, true)
}

/// Those that are confirmed gone. A process that exits on its own counts: the
/// goal is that it is no longer running, not that Prism personally killed it.
pub fn gone(pids: &Vec<u32>, alive: &Vec<bool>) -> (r: Vec<u32>)
    requires
        alive@.len() == pids@.len(),
    ensures
        r@ == picked(pids@, alive@, false, pids@.len() as int),
{
    pick(pids, alive, false)
}

/// What is done next about processes that were asked to go.
#[derive(Debug)]
pub enum Next {
    /// Some are still there and may yet go: wait a little and look again.
    Look,
    /// Time is up: these are killed.
    Kill(Vec<u32>),
    /// None is left.
    Settled,
}

pub enum NextView {
    Look,
    Kill(Seq<u32>),
    Settled,
}

impl View for Next {
    type V = NextView;

    open spec fn view(&self) -> NextView {
        match *self {
            Next::Look => NextView::Look,
            Next::Kill(p) => NextView::Kill(p@),
            Next::Settled => NextView::Settled,
        }
    }
}

/// What is done next about processes that were asked to go, given which of them
/// are alive at a time.
pub open spec fn decided(pids: Seq<u32>, alive: Seq<bool>, now: u64, deadline: u64) -> NextView {
    let left = picked(pids, alive, true, pids.len() as int);
    if left.len() == 0 {
        NextView::Settled
    } else if now < deadline {
        NextView::Look
    } else {
        NextView::Kill(left)
    }
}

/// What is done next about processes that were asked to go. They are given until
/// the deadline; whatever remains then is killed.
pub fn next_step(pids: &Vec<u32>, alive: &Vec<bool>, now: u64, deadline: u64) -> (r: Next)
    requires
        alive@.len() == pids@.len(),
    ensures
        r@ == decided(pids@, alive@, now, deadline),
{
    let left = stubborn(pids, alive);
    if left.len() == 0 {
        Next::Settled
    } else if now < deadline {
        Next::Look
    } else {
        Next::Kill(left)
    }
}

/// Nothing is killed before the deadline, and only what is still alive is; after
/// it nothing is waited for.
pub proof fn killing_comes_last(pids: Seq<u32>, alive: Seq<bool>, now: u64, deadline: u64)
    ensures
        decided(pids, alive, now, deadline) is Kill ==> now >= deadline,
        decided(pids, alive, now, deadline) matches NextView::Kill(p) ==> p == picked(
            pids,
            alive,
            true,
            pids.len() as int,
        ),
        now >= deadline ==> !(decided(pids, alive, now, deadline) is Look),
{
}

/// Every process is either gone or stubborn.
pub proof fn nothing_is_lost_count_of(pids: Seq<u32>, alive: Seq<bool>, n: int)
    requires
        0 <= n <= pids.len(),
        alive.len() == pids.len(),
    ensures
        picked(pids, alive, true, n).len() + picked(pids, alive, false, n).len() == n,
    decreases n,
{
    if n > 0 {
        nothing_is_lost_count_of(pids, alive, n - 1);
    }
}

/// A process runs while the word behind its name, which may hold brackets itself,
/// is anything but that of a zombie.
pub proof fn a_zombie_does_not_run(head: Seq<char>, rest: Seq<char>, other: Seq<char>)
    requires
        !rest.contains(')'),
        !other.contains(')'),
    ensures
        runs(head + ")"@ + rest) <==> text::words(rest).len() > 0 && text::words(rest)[0] != "Z"@,
        !runs(other),
{
    reveal_strlit(")");
    let s = head + ")"@ + rest;
    let n = head.len() as int;
    assert(s[n] == ')');
    assert forall|j: int| n < j < s.len() implies s[j] != ')' by {
        assert(s[j] == rest[j - n - 1]);
        assert(rest.contains(rest[j - n - 1]));
    }
    text::lemma_rpos_is(s, ')', n);
    assert(s.skip(n + 1) =~= rest);
    text::lemma_rpos(other, ')');
    let k = text::rpos(other, ')');
    if k >= 0 {
        assert(other.contains(other[k]));
    }
}

/// Who is picked: each one of whom it holds, in order, and no one else.
pub proof fn each_is_picked_of_whom_it_holds(
    pids: Seq<u32>,
    alive: Seq<bool>,
    wanted: bool,
    n: int,
)
    requires
        0 <= n < pids.len(),
    ensures
        alive[n] == wanted ==> picked(pids, alive, wanted, n + 1) == picked(
            pids,
            alive,
            wanted,
            n,
        ).push(pids[n]),
        alive[n] != wanted ==> picked(pids, alive, wanted, n + 1) == picked(pids, alive, wanted, n),
        picked(pids, alive, wanted, 0).len() == 0,
{
}

/// One of the first `n` pids that is alive.
pub open spec fn is_alive(pids: Seq<u32>, alive: Seq<bool>, n: int, pid: u32) -> bool {
    exists|i: int| 0 <= i < n && alive[i] && #[trigger] pids[i] == pid
}

proof fn lemma_none_picked(pids: Seq<u32>, alive: Seq<bool>, n: int)
    requires
        0 <= n <= pids.len(),
    ensures
        picked(pids, alive, true, n).len() == 0 <==> forall|i: int|
            0 <= i < n ==> !#[trigger] alive[i],
        forall|k: int|
            0 <= k < picked(pids, alive, true, n).len() ==> is_alive(
                pids,
                alive,
                n,
                #[trigger] picked(pids, alive, true, n)[k],
            ),
    decreases n,
{
    if n > 0 {
        lemma_none_picked(pids, alive, n - 1);
        let before = picked(pids, alive, true, n - 1);
        let p = picked(pids, alive, true, n);
        assert forall|k: int| 0 <= k < p.len() implies is_alive(pids, alive, n, #[trigger] p[k]) by {
            if k < before.len() {
                assert(p[k] == before[k]);
                let i = choose|i: int| 0 <= i < n - 1 && alive[i] && #[trigger] pids[i] == before[k];
                assert(pids[i] == p[k]);
            } else {
                assert(pids[n - 1] == p[k]);
            }
        }
        if alive[n - 1] {
            assert(p.len() > 0);
        }
    }
}

/// What is done: nothing more once none is alive; while some are, another look
/// until the deadline, and from then on an end to exactly those.
pub proof fn what_is_done_about_those_that_stay(
    pids: Seq<u32>,
    alive: Seq<bool>,
    now: u64,
    deadline: u64,
)
    ensures
        decided(pids, alive, now, deadline) is Settled <==> forall|i: int|
            0 <= i < pids.len() ==> !#[trigger] alive[i],
        (exists|i: int| 0 <= i < pids.len() && #[trigger] alive[i]) && now < deadline ==> decided(
            pids,
            alive,
            now,
            deadline,
        ) is Look,
        (exists|i: int| 0 <= i < pids.len() && #[trigger] alive[i]) && now >= deadline ==> decided(
            pids,
            alive,
            now,
            deadline,
        ) is Kill,
        decided(pids, alive, now, deadline) matches NextView::Kill(p) ==> forall|k: int|
            0 <= k < p.len() ==> is_alive(pids, alive, pids.len() as int, #[trigger] p[k]),
{
    lemma_none_picked(pids, alive, pids.len() as int);
}

} // verus!
