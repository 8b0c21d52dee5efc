//! Asking the OS which tracked processes are still alive, and the sweeps
//! that act on the answer.

use vstd::prelude::*;
use crate::entry::{ProcessEntry, Status};
use crate::table::{entries_view, reap_spec, revive_pids, sorted_by_start_desc, timeout_kills, EntryView, ProcessTable};

verus! {

#[verifier::external_type_specification]
#[verifier::external_body]
pub struct ExSystem(sysinfo::System);

#[verifier::external_type_specification]
#[verifier::external_body]
pub struct ExProcessStatus(sysinfo::ProcessStatus);

/// What the OS shows under a pid: nothing, or the process in one of the
/// states that sysinfo reports.
#[derive(Clone, Copy, Debug, PartialEq, Eq, Structural)]
pub enum PidState {
    /// No process has the pid.
    Missing,
    Idle,
    Run,
    Sleep,
    Stop,
    /// Exited, waiting to be collected by its parent.
    Zombie,
    Tracing,
    /// Exited.
    Dead,
    Wakekill,
    Waking,
    Parked,
    LockBlocked,
    UninterruptibleDiskSleep,
    Unknown(u32),
}

/// A process counts as alive when it exists and has not exited: a zombie
/// or a dead task has.
pub open spec fn state_alive(st: PidState) -> bool {
    !(st is Missing) && !(st is Zombie) && !(st is Dead)
}

impl PidState {
    pub fn is_alive(&self) -> (r: bool)
        ensures
            r == state_alive(*self),
    {
        match self {
            PidState::Missing => false,
            PidState::Zombie => false,
            PidState::Dead => false,
            _ => true,
        }
    }
}

/// Relies on `sysinfo::System::new_all`: a snapshot of the processes of
/// this machine, taken now.
#[verifier::external_body]
fn process_snapshot() -> sysinfo::System {
    sysinfo::System::new_all()
}

/// Relies on `sysinfo::System::process` and `sysinfo::Process::status`: the
/// status that the snapshot holds under `pid`, if it holds that pid.
#[verifier::external_body]
fn process_status(sys: &sysinfo::System, pid: u32) -> Option<sysinfo::ProcessStatus> {
    match sys.process(sysinfo::Pid::from_u32(pid)) {
        Some(p) => Some(p.status()),
        None => None,
    }
}

/// Relies on `sysinfo::ProcessStatus` having these variants: each is carried
/// over to the state of the same name.
#[verifier::external_body]
fn state_of(st: sysinfo::ProcessStatus) -> PidState {
    match st {
        sysinfo::ProcessStatus::Idle => PidState::Idle,
        sysinfo::ProcessStatus::Run => PidState::Run,
        sysinfo::ProcessStatus::Sleep => PidState::Sleep,
        sysinfo::ProcessStatus::Stop => PidState::Stop,
        sysinfo::ProcessStatus::Zombie => PidState::Zombie,
        sysinfo::ProcessStatus::Tracing => PidState::Tracing,
        sysinfo::ProcessStatus::Dead => PidState::Dead,
        sysinfo::ProcessStatus::Wakekill => PidState::Wakekill,
        sysinfo::ProcessStatus::Waking => PidState::Waking,
        sysinfo::ProcessStatus::Parked => PidState::Parked,
        sysinfo::ProcessStatus::LockBlocked => PidState::LockBlocked,
        sysinfo::ProcessStatus::UninterruptibleDiskSleep => PidState::UninterruptibleDiskSleep,
        sysinfo::ProcessStatus::Unknown(n) => PidState::Unknown(n),
    }
}

/// What the snapshot shows under `pid`.
fn probe_pid(sys: &sysinfo::System, pid: u32) -> PidState {
    match process_status(sys, pid) {
        Some(st) => state_of(st),
        None => PidState::Missing,
    }
}

/// The pids of the running entries of `s`, in table order.
pub open spec fn running_pids(s: Seq<EntryView>) -> Seq<u32>
    decreases s.len(),
{
    if s.len() == 0 {
        seq![]
    } else if s.last().1.status == Status::Running {
        running_pids(s.drop_last()).push(s.last().0)
    } else {
        running_pids(s.drop_last())
    }
}

/// The pids whose state counts as alive, in order.
pub open spec fn alive_filter(pids: Seq<u32>, states: Seq<PidState>) -> Seq<u32>
    decreases pids.len(),
{
    if pids.len() == 0 || states.len() == 0 {
        seq![]
    } else if state_alive(states[states.len() - 1]) {
        alive_filter(pids.drop_last(), states.drop_last()).push(pids.last())
    } else {
        alive_filter(pids.drop_last(), states.drop_last())
    }
}

/// Keeps the pids whose probed state counts as alive.
pub fn alive_among(pids: &Vec<u32>, states: &Vec<PidState>) -> (r: Vec<u32>)
    requires
        pids@.len() == states@.len(),
    ensures
        r@ == alive_filter(pids@, states@),
{
    let mut r: Vec<u32> = Vec::new();
    let mut i: usize = 0;
    while i < pids.len()
        invariant
            i <= pids@.len(),
            pids@.len() == states@.len(),
            r@ == alive_filter(pids@.subrange(0, i as int), states@.subrange(0, i as int)),
        decreases pids@.len() - i,
    {
        assert(pids@.subrange(0, i + 1).drop_last() =~= pids@.subrange(0, i as int));
        assert(states@.subrange(0, i + 1).drop_last() =~= states@.subrange(0, i as int));
        if states[i].is_alive() {
            r.push(pids[i]);
        }
        i = i + 1;
    }
    assert(pids@.subrange(0, i as int) =~= pids@);
    assert(states@.subrange(0, i as int) =~= states@);
    r
}

/// Whether some running entry of `s` has the pid `pid`.
pub open spec fn running_pid(s: Seq<EntryView>, pid: u32) -> bool {
    exists|j: int| 0 <= j < s.len() && (#[trigger] s[j]).0 == pid && s[j].1.status == Status::Running
}

/// The pids of the running entries of `table` whose process the OS shows
/// alive now, in table order. What the OS shows is up to the machine; the
/// choice made on it is `alive_among`'s.
pub fn live_pids(table: &ProcessTable) -> (r: Vec<u32>)
    ensures
        exists|states: Seq<PidState>|
            states.len() == running_pids(table@).len() && r@ == alive_filter(running_pids(table@), states),
        forall|k: int| 0 <= k < r@.len() ==> running_pid(table@, #[trigger] r@[k]),
{
    let sys = process_snapshot();
    let entries = table.entries();
    let mut pids: Vec<u32> = Vec::new();
    let mut states: Vec<PidState> = Vec::new();
    let mut i: usize = 0;
    while i < entries.len()
        invariant
            i <= entries@.len(),
            crate::table::entries_view(entries@) == table@,
            pids@ == running_pids(table@.subrange(0, i as int)),
            states@.len() == pids@.len(),
        decreases entries@.len() - i,
    {
        assert(table@.subrange(0, i + 1).drop_last() =~= table@.subrange(0, i as int));
        assert(table@[i as int] == entries@[i as int]@);
        if entries[i].info.status.is_running() {
            let pid = entries[i].pid;
            pids.push(pid);
            states.push(probe_pid(&sys, pid));
        }
        i = i + 1;
    }
    assert(table@.subrange(0, i as int) =~= table@);
    let r = alive_among(&pids, &states);
    proof {
        lemma_alive_filter_running(table@, states@);
    }
    r
}

/// What `alive_filter` keeps out of the running pids is a running pid.
proof fn lemma_alive_filter_running(s: Seq<EntryView>, states: Seq<PidState>)
    requires
        states.len() == running_pids(s).len(),
    ensures
        forall|k: int| 0 <= k < alive_filter(running_pids(s), states).len()
            ==> running_pid(s, #[trigger] alive_filter(running_pids(s), states)[k]),
    decreases s.len(),
{
    if s.len() > 0 {
        let t = s.drop_last();
        let rp = running_pids(s);
        let a = alive_filter(rp, states);
        if s.last().1.status == Status::Running {
            let st = states.drop_last();
            lemma_alive_filter_running(t, st);
            assert(rp.drop_last() =~= running_pids(t));
            let at = alive_filter(running_pids(t), st);
            assert forall|k: int| 0 <= k < a.len() implies running_pid(s, #[trigger] a[k]) by {
                if k < at.len() {
                    assert(a[k] == at[k]);
                    let j = choose|j: int| 0 <= j < t.len() && (#[trigger] t[j]).0 == at[k] && t[j].1.status == Status::Running;
                    assert(s[j] == t[j]);
                } else {
                    assert(a[k] == s.last().0);
                    assert(s[s.len() - 1] == s.last());
                }
            }
        } else {
            lemma_alive_filter_running(t, states);
            assert forall|k: int| 0 <= k < a.len() implies running_pid(s, #[trigger] a[k]) by {
                let j = choose|j: int| 0 <= j < t.len() && (#[trigger] t[j]).0 == a[k] && t[j].1.status == Status::Running;
                assert(s[j] == t[j]);
            }
        }
    }
}

/// What a reap hands back.
pub struct ReapOutcome {
    /// The pids to signal for their timeout, in table order.
    pub kills: Vec<u32>,
    /// Every entry of the table as reaped, latest start first.
    pub entries: Vec<ProcessEntry>,
}

/// Reaps the table at `now_ms` against the processes alive now: see
/// `ProcessTable::reap`. Hands back the pids to signal for their timeout
/// and every entry of the reaped table, latest start first.
pub fn reap_processes(table: &mut ProcessTable, now_ms: u64) -> (r: ReapOutcome)
    requires
        old(table).wf(),
    ensures
        final(table).wf(),
        exists|live: Seq<u32>|
            final(table)@ == reap_spec(old(table)@, now_ms, live) && r.kills@ == timeout_kills(
                old(table)@,
                now_ms,
                live,
            ),
        forall|k: int| 0 <= k < r.kills@.len() ==> crate::table::signalable(#[trigger] r.kills@[k]),
        r.entries@.len() == final(table)@.len(),
        sorted_by_start_desc(entries_view(r.entries@)),
        forall|k: int| 0 <= k < r.entries@.len() ==> final(table)@.contains(#[trigger] r.entries@[k]@),
        forall|k: int| 0 <= k < final(table)@.len() ==> entries_view(r.entries@).contains(#[trigger] final(table)@[k]),
{
    let live = live_pids(table);
    let kills = table.reap(now_ms, &live);
    assert(table@ == reap_spec(old(table)@, now_ms, live@));
    let entries = table.sorted_by_start();
    ReapOutcome { kills, entries }
}

/// The pids of the entries recorded as running whose process is gone now:
/// the ones to relaunch. Terminal entries are never among them.
pub fn revive_dead_processes(table: &ProcessTable) -> (r: Vec<u32>)
    ensures
        exists|live: Seq<u32>| r@ == revive_pids(table@, live),
{
    let live = live_pids(table);
    table.revive_candidates(&live)
}

} // verus!
