//! The process table: the tracked processes, one entry per OS process id,
//! and the lifecycle rules that act on it.

use vstd::prelude::*;
use crate::entry::{ProcessEntry, ProcessInfo, ProcessRecord, Status};
use crate::launch::split_command;
use crate::text::{decimal_text, decimal_u64, parse_u64, same_text, split_words, strings_view, u64_to_text};

verus! {

/// An entry of the table as a value: the pid and what is recorded for it.
pub type EntryView = (u32, ProcessRecord);

pub open spec fn entries_view(v: Seq<ProcessEntry>) -> Seq<EntryView> {
    v.map_values(|e: ProcessEntry| e@)
}

/// No pid occurs twice.
pub open spec fn distinct_pids(s: Seq<EntryView>) -> bool {
    forall|i: int, j: int| 0 <= i < s.len() && 0 <= j < s.len() && i != j ==> s[i].0 != s[j].0
}

/// The index of the entry for `pid`, or -1 when there is none.
pub open spec fn pid_index(s: Seq<EntryView>, pid: u32) -> int
    decreases s.len(),
{
    if s.len() == 0 {
        -1
    } else if s.last().0 == pid {
        s.len() - 1
    } else {
        pid_index(s.drop_last(), pid)
    }
}

pub open spec fn has_pid(s: Seq<EntryView>, pid: u32) -> bool {
    pid_index(s, pid) >= 0
}

/// What the table records for `pid`.
pub open spec fn lookup(s: Seq<EntryView>, pid: u32) -> Option<ProcessRecord> {
    if has_pid(s, pid) {
        Some(s[pid_index(s, pid)].1)
    } else {
        None
    }
}

/// The table after recording `rec` under `pid`: an entry for the same pid is
/// replaced in place, a new pid is added at the end.
pub open spec fn register_spec(s: Seq<EntryView>, pid: u32, rec: ProcessRecord) -> Seq<EntryView> {
    if has_pid(s, pid) {
        s.update(pid_index(s, pid), (pid, rec))
    } else {
        s.push((pid, rec))
    }
}

/// The table without the entry for `pid`.
pub open spec fn remove_spec(s: Seq<EntryView>, pid: u32) -> Seq<EntryView> {
    if has_pid(s, pid) {
        s.remove(pid_index(s, pid))
    } else {
        s
    }
}

pub proof fn lemma_pid_index(s: Seq<EntryView>, pid: u32)
    ensures
        -1 <= pid_index(s, pid) < s.len(),
        pid_index(s, pid) >= 0 ==> s[pid_index(s, pid)].0 == pid,
        pid_index(s, pid) == -1 <==> forall|i: int| 0 <= i < s.len() ==> s[i].0 != pid,
        distinct_pids(s) ==> forall|i: int|
            0 <= i < s.len() && (#[trigger] s[i]).0 == pid ==> pid_index(s, pid) == i,
    decreases s.len(),
{
    if s.len() > 0 {
        let t = s.drop_last();
        lemma_pid_index(t, pid);
        assert forall|i: int| 0 <= i < t.len() implies t[i] == s[i] by {}
        if distinct_pids(s) {
            assert(distinct_pids(t));
        }
    }
}

proof fn lemma_register_keeps_distinct(s: Seq<EntryView>, pid: u32, rec: ProcessRecord)
    requires
        distinct_pids(s),
    ensures
        distinct_pids(register_spec(s, pid, rec)),
{
    lemma_pid_index(s, pid);
}

proof fn lemma_remove_keeps_distinct(s: Seq<EntryView>, pid: u32)
    requires
        distinct_pids(s),
    ensures
        distinct_pids(remove_spec(s, pid)),
        !has_pid(remove_spec(s, pid), pid),
{
    lemma_pid_index(s, pid);
    let t = remove_spec(s, pid);
    lemma_pid_index(t, pid);
    if has_pid(s, pid) {
        let k = pid_index(s, pid);
        assert forall|i: int| 0 <= i < t.len() implies t[i].0 != pid by {
            if i < k {
                assert(t[i] == s[i]);
            } else {
                assert(t[i] == s[i + 1]);
            }
        }
    }
}


/// `rec` with its status replaced.
pub open spec fn with_status(rec: ProcessRecord, st: Status) -> ProcessRecord {
    ProcessRecord { status: st, ..rec }
}

/// A manual stop: a running entry for `pid` becomes `KilledManual`; anything
/// else is left as it is.
pub open spec fn stop_spec(s: Seq<EntryView>, pid: u32) -> Seq<EntryView> {
    if has_pid(s, pid) && s[pid_index(s, pid)].1.status == Status::Running {
        s.update(pid_index(s, pid), (pid, with_status(s[pid_index(s, pid)].1, Status::KilledManual)))
    } else {
        s
    }
}

/// The running entries of `s`, in order.
pub open spec fn running_only(s: Seq<EntryView>) -> Seq<EntryView>
    decreases s.len(),
{
    if s.len() == 0 {
        s
    } else if s.last().1.status == Status::Running {
        running_only(s.drop_last()).push(s.last())
    } else {
        running_only(s.drop_last())
    }
}

/// Whether a timeout is set and at least that long has passed since the start.
pub open spec fn times_out(rec: ProcessRecord, now_ms: u64) -> bool {
    match rec.timeout_ms {
        Some(t) => now_ms as int - rec.start_time_ms as int >= t as int,
        None => false,
    }
}

/// One entry after a reap: a running process that is gone has completed; a
/// live one past its timeout is killed; everything else stays.
pub open spec fn reaped(rec: ProcessRecord, now_ms: u64, alive: bool) -> ProcessRecord {
    if rec.status != Status::Running {
        rec
    } else if !alive {
        with_status(rec, Status::Completed)
    } else if times_out(rec, now_ms) {
        with_status(rec, Status::KilledTimeout)
    } else {
        rec
    }
}

/// The table after a reap at `now_ms`, where `live` lists the live pids.
pub open spec fn reap_spec(s: Seq<EntryView>, now_ms: u64, live: Seq<u32>) -> Seq<EntryView> {
    s.map_values(|e: EntryView| (e.0, reaped(e.1, now_ms, live.contains(e.0))))
}

/// A pid that the OS hands out and that a signal can target alone:
/// 1 to `i32::MAX`. A signal to 0, or to a value that wraps when read as a
/// signed pid, would reach the caller's own group or every process.
pub open spec fn signalable(pid: u32) -> bool {
    1 <= pid && pid <= i32::MAX
}

/// The target that signals the process group led by `pid`.
pub fn group_target(pid: u32) -> (r: Option<i32>)
    ensures
        r == if signalable(pid) {
            Some((-(pid as int)) as i32)
        } else {
            None
        },
{
    if pid >= 1 && pid <= 2147483647 {
        Some(-(pid as i32))
    } else {
        None
    }
}

/// The pids that a reap kills for their timeout, in table order. Only
/// signalable pids are ever listed.
pub open spec fn timeout_kills(s: Seq<EntryView>, now_ms: u64, live: Seq<u32>) -> Seq<u32>
    decreases s.len(),
{
    if s.len() == 0 {
        seq![]
    } else {
        let k = timeout_kills(s.drop_last(), now_ms, live);
        let e = s.last();
        if e.1.status == Status::Running && live.contains(e.0) && times_out(e.1, now_ms) && signalable(e.0) {
            k.push(e.0)
        } else {
            k
        }
    }
}

/// A reap never asks to signal a pid that is not signalable.
pub proof fn lemma_kills_signalable(s: Seq<EntryView>, now_ms: u64, live: Seq<u32>)
    ensures
        forall|k: int| 0 <= k < timeout_kills(s, now_ms, live).len()
            ==> signalable(#[trigger] timeout_kills(s, now_ms, live)[k]),
    decreases s.len(),
{
    if s.len() > 0 {
        lemma_kills_signalable(s.drop_last(), now_ms, live);
        let t = timeout_kills(s.drop_last(), now_ms, live);
        let r = timeout_kills(s, now_ms, live);
        assert forall|k: int| 0 <= k < r.len() implies signalable(#[trigger] r[k]) by {
            if k < t.len() {
                assert(r[k] == t[k]);
            }
        }
    }
}

/// The pids of the entries still recorded as running whose process is gone,
/// in table order: the ones to revive.
pub open spec fn revive_pids(s: Seq<EntryView>, live: Seq<u32>) -> Seq<u32>
    decreases s.len(),
{
    if s.len() == 0 {
        seq![]
    } else {
        let k = revive_pids(s.drop_last(), live);
        let e = s.last();
        if e.1.status == Status::Running && !live.contains(e.0) {
            k.push(e.0)
        } else {
            k
        }
    }
}

/// Whether some running entry carries `name` as its display name.
pub open spec fn running_named(s: Seq<EntryView>, name: Seq<char>) -> bool {
    exists|i: int| 0 <= i < s.len() && (#[trigger] s[i]).1.display_name == name && s[i].1.status == Status::Running
}

/// The first index whose entry satisfies `p`, or -1.
pub open spec fn first_match(s: Seq<EntryView>, p: spec_fn(EntryView) -> bool) -> int
    decreases s.len(),
{
    if s.len() == 0 {
        -1
    } else {
        let k = first_match(s.drop_last(), p);
        if k >= 0 {
            k
        } else if p(s.last()) {
            s.len() - 1
        } else {
            -1
        }
    }
}

/// The pid that a target names: the entry whose pid is spelled exactly
/// `target`, or else the first entry whose display name is `target`.
pub open spec fn resolve_spec(s: Seq<EntryView>, target: Seq<char>) -> Option<u32> {
    let k = first_match(s, |e: EntryView| decimal_text(e.0 as nat) == target);
    let j = first_match(s, |e: EntryView| e.1.display_name == target);
    if k >= 0 {
        Some(s[k].0)
    } else if j >= 0 {
        Some(s[j].0)
    } else {
        None
    }
}

/// Entries that run in order of start time, latest first.
pub open spec fn sorted_by_start_desc(s: Seq<EntryView>) -> bool {
    forall|i: int, j: int| 0 <= i < j < s.len() ==> s[i].1.start_time_ms >= s[j].1.start_time_ms
}

/// What a relaunch records: the same command, files, timeout and names,
/// running again from `now_ms`.
pub open spec fn relaunched(rec: ProcessRecord, now_ms: u64) -> ProcessRecord {
    ProcessRecord { status: Status::Running, start_time_ms: now_ms, ..rec }
}

proof fn lemma_first_match_prefix(s: Seq<EntryView>, p: spec_fn(EntryView) -> bool, n: int)
    requires
        0 <= n <= s.len(),
        first_match(s.subrange(0, n), p) >= 0,
    ensures
        first_match(s, p) == first_match(s.subrange(0, n), p),
    decreases s.len() - n,
{
    if n < s.len() {
        assert(s.subrange(0, n + 1).drop_last() =~= s.subrange(0, n));
        lemma_first_match_prefix(s, p, n + 1);
    } else {
        assert(s.subrange(0, n) =~= s);
    }
}

/// `running_only(s)` keeps, in order, a subsequence of `s`: the entries of
/// `s` that run, each once.
proof fn lemma_running_only_sub(s: Seq<EntryView>)
    ensures
        running_only(s).len() <= s.len(),
        forall|i: int| 0 <= i < running_only(s).len() ==> s.contains(#[trigger] running_only(s)[i]),
        forall|i: int| 0 <= i < running_only(s).len() ==> (#[trigger] running_only(s)[i]).1.status == Status::Running,
        forall|i: int| 0 <= i < s.len() && (#[trigger] s[i]).1.status == Status::Running ==> running_only(s).contains(s[i]),
        distinct_pids(s) ==> distinct_pids(running_only(s)),
    decreases s.len(),
{
    if s.len() > 0 {
        let t = s.drop_last();
        lemma_running_only_sub(t);
        let r = running_only(s);
        let rt = running_only(t);
        assert forall|i: int| 0 <= i < t.len() implies t[i] == s[i] by {}
        assert forall|i: int| 0 <= i < r.len() implies s.contains(#[trigger] r[i]) by {
            if i < rt.len() {
                assert(r[i] == rt[i]);
                let j = choose|j: int| 0 <= j < t.len() && t[j] == rt[i];
                assert(s[j] == r[i]);
            } else {
                assert(r[i] == s[s.len() - 1]);
            }
        }
        assert forall|i: int| 0 <= i < s.len() && (#[trigger] s[i]).1.status == Status::Running implies r.contains(s[i]) by {
            if i < t.len() {
                assert(t[i] == s[i]);
                let j = choose|j: int| 0 <= j < rt.len() && rt[j] == t[i];
                assert(r[j] == rt[j]);
            } else {
                assert(r[r.len() - 1] == s[i]);
            }
        }
        if distinct_pids(s) {
            assert(distinct_pids(t));
            if s.last().1.status == Status::Running {
                assert forall|i: int, j: int| 0 <= i < r.len() && 0 <= j < r.len() && i != j implies r[i].0 != r[j].0 by {
                    if i < rt.len() && j < rt.len() {
                        assert(r[i] == rt[i] && r[j] == rt[j]);
                    } else if i < rt.len() {
                        assert(r[i] == rt[i]);
                        let k = choose|k: int| 0 <= k < t.len() && t[k] == rt[i];
                        assert(s[k] == r[i]);
                        assert(r[j] == s[s.len() - 1]);
                    } else {
                        assert(r[j] == rt[j]);
                        let k = choose|k: int| 0 <= k < t.len() && t[k] == rt[j];
                        assert(s[k] == r[j]);
                        assert(r[i] == s[s.len() - 1]);
                    }
                }
            }
        }
    }
}


/// Whether `pid` occurs in `v`.
pub fn contains_pid(v: &Vec<u32>, pid: u32) -> (r: bool)
    ensures
        r == v@.contains(pid),
{
    let mut i: usize = 0;
    while i < v.len()
        invariant
            i <= v@.len(),
            forall|k: int| 0 <= k < i ==> v@[k] != pid,
        decreases v@.len() - i,
    {
        if v[i] == pid {
            assert(v@[i as int] == pid);
            return true;
        }
        i = i + 1;
    }
    false
}

/// The pid that a table key spells: a decimal in the range of OS pids,
/// 1 to `i32::MAX`. Anything else spells no pid.
pub open spec fn pid_of_text(t: Seq<char>) -> Option<u32> {
    match decimal_u64(t) {
        Some(n) => if 1 <= n && n <= i32::MAX {
            Some(n as u32)
        } else {
            None
        },
        None => None,
    }
}

pub fn parse_pid(t: &str) -> (r: Option<u32>)
    ensures
        r == pid_of_text(t@),
{
    match parse_u64(t) {
        Some(n) => if 1 <= n && n <= 2147483647 {
            Some(n as u32)
        } else {
            None
        },
        None => None,
    }
}

/// What relaunching an entry runs: the program and arguments that its
/// stored command line splits into at whitespace, in its own working
/// directory, writing to its own log file.
pub struct RespawnPlan {
    pub program: String,
    pub args: Vec<String>,
    pub working_dir: String,
    pub log_file: String,
}

/// Whether `p` relaunches the command recorded in `rec`.
pub open spec fn respawn_plan_is(p: RespawnPlan, rec: ProcessRecord) -> bool {
    &&& split_words(rec.cmd).len() > 0
    &&& p.program@ == split_words(rec.cmd)[0]
    &&& strings_view(p.args@) == split_words(rec.cmd).drop_first()
    &&& p.working_dir@ == rec.working_dir
    &&& p.log_file@ == rec.log_file
}

/// Whether `pid`'s entry is recorded as running.
pub open spec fn running_at(s: Seq<EntryView>, pid: u32) -> bool {
    lookup(s, pid) matches Some(rec) && rec.status == Status::Running
}

/// The tracked processes: a sequence of entries with distinct pids, in the
/// order in which they were first recorded.
pub struct ProcessTable {
    entries: Vec<ProcessEntry>,
}

impl View for ProcessTable {
    type V = Seq<EntryView>;

    closed spec fn view(&self) -> Seq<EntryView> {
        entries_view(self.entries@)
    }
}

impl ProcessTable {
    /// Every table that this module hands out has distinct pids.
    pub open spec fn wf(&self) -> bool {
        distinct_pids(self@)
    }

    /// An empty table.
    pub fn new() -> (r: ProcessTable)
        ensures
            r@ == Seq::<EntryView>::empty(),
            r.wf(),
    {
        let r = ProcessTable { entries: Vec::new() };
        assert(r@ =~= Seq::<EntryView>::empty());
        r
    }

    pub fn len(&self) -> (r: usize)
        ensures
            r == self@.len(),
    {
        self.entries.len()
    }

    /// The entries, in table order.
    pub fn entries(&self) -> (r: &Vec<ProcessEntry>)
        ensures
            entries_view(r@) == self@,
    {
        &self.entries
    }

    /// The position of the entry for `pid`.
    pub fn find_index(&self, pid: u32) -> (r: Option<usize>)
        requires
            self.wf(),
        ensures
            match r {
                Some(i) => i < self@.len() && pid_index(self@, pid) == i,
                None => !has_pid(self@, pid),
            },
    {
        proof {
            lemma_pid_index(self@, pid);
        }
        let mut i: usize = 0;
        while i < self.entries.len()
            invariant
                i <= self.entries@.len(),
                self@.len() == self.entries@.len(),
                self.wf(),
                forall|k: int| 0 <= k < i ==> self@[k].0 != pid,
            decreases self.entries@.len() - i,
        {
            if self.entries[i].pid == pid {
                assert(self@.len() == self.entries@.len());
                assert(self@[i as int].0 == pid);
                proof {
                    lemma_pid_index(self@, pid);
                }
                return Some(i);
            }
            i = i + 1;
        }
        None
    }

    /// What is recorded for `pid`.
    pub fn get(&self, pid: u32) -> (r: Option<&ProcessInfo>)
        requires
            self.wf(),
        ensures
            match r {
                Some(info) => lookup(self@, pid) == Some(info@),
                None => lookup(self@, pid).is_none(),
            },
    {
        match self.find_index(pid) {
            Some(i) => Some(&self.entries[i].info),
            None => None,
        }
    }

    /// Records `info` under `pid`, replacing what was recorded for that pid.
    pub fn register(&mut self, pid: u32, info: ProcessInfo)
        requires
            old(self).wf(),
        ensures
            final(self).wf(),
            final(self)@ == register_spec(old(self)@, pid, info@),
    {
        let ghost rec = info@;
        proof {
            lemma_register_keeps_distinct(self@, pid, rec);
        }
        match self.find_index(pid) {
            Some(i) => {
                self.entries.set(i, ProcessEntry { pid, info });
                assert(self@ =~= old(self)@.update(i as int, (pid, rec)));
            },
            None => {
                self.entries.push(ProcessEntry { pid, info });
                assert(self@ =~= old(self)@.push((pid, rec)));
            },
        }
    }

    /// Records a manual stop of `pid`: a running entry becomes
    /// `KilledManual`. Returns whether it was running.
    pub fn mark_stopped(&mut self, pid: u32) -> (was_running: bool)
        requires
            old(self).wf(),
        ensures
            final(self).wf(),
            final(self)@ == stop_spec(old(self)@, pid),
            was_running == (lookup(old(self)@, pid) matches Some(r) && r.status == Status::Running),
    {
        proof {
            lemma_pid_index(self@, pid);
        }
        match self.find_index(pid) {
            Some(i) => {
                if self.entries[i].info.status.is_running() {
                    let mut e = self.entries.remove(i);
                    e.info.status = Status::KilledManual;
                    self.entries.insert(i, e);
                    assert(self@ =~= stop_spec(old(self)@, pid));
                    true
                } else {
                    false
                }
            },
            None => false,
        }
    }

    /// Whether `pid` is recorded and running.
    pub fn is_running(&self, pid: u32) -> (r: bool)
        requires
            self.wf(),
        ensures
            r == (lookup(self@, pid) matches Some(rec) && rec.status == Status::Running),
    {
        match self.get(pid) {
            Some(info) => info.status.is_running(),
            None => false,
        }
    }

    /// Deletes every entry that is not running; the running ones stay, in
    /// order. Returns how many were deleted.
    pub fn prune(&mut self) -> (removed: usize)
        requires
            old(self).wf(),
        ensures
            final(self).wf(),
            final(self)@ == running_only(old(self)@),
            removed == old(self)@.len() - final(self)@.len(),
    {
        let ghost s = self@;
        let n = self.entries.len();
        let mut kept: Vec<ProcessEntry> = Vec::new();
        let mut i: usize = 0;
        while i < n
            invariant
                n == s.len(),
                i <= n,
                entries_view(self.entries@) == s.subrange(i as int, n as int),
                entries_view(kept@) == running_only(s.subrange(0, i as int)),
                kept@.len() <= i,
            decreases n - i,
        {
            assert(entries_view(self.entries@).len() == self.entries@.len());
            let ghost pre = self.entries@;
            let e = self.entries.remove(0);
            assert(entries_view(pre)[0] == s.subrange(i as int, n as int)[0]);
            assert(e@ == s[i as int]);
            assert(s.subrange(0, i + 1).drop_last() =~= s.subrange(0, i as int));
            assert forall|k: int| 0 <= k < self.entries@.len() implies entries_view(self.entries@)[k] == s.subrange(i + 1, n as int)[k] by {
                assert(self.entries@[k] == pre[k + 1]);
                assert(entries_view(pre)[k + 1] == s.subrange(i as int, n as int)[k + 1]);
            }
            assert(entries_view(self.entries@) =~= s.subrange(i + 1, n as int));
            if e.info.status.is_running() {
                kept.push(e);
                assert(entries_view(kept@) =~= running_only(s.subrange(0, i as int)).push(e@));
            }
            i = i + 1;
        }
        let removed = n - kept.len();
        self.entries = kept;
        assert(s.subrange(0, n as int) =~= s);
        proof {
            lemma_running_only_sub(s);
        }
        removed
    }

    /// One sweep over the running entries: an entry whose process is not in
    /// `live` becomes `Completed`; a live one whose timeout has run out at
    /// `now_ms` becomes `KilledTimeout`. Returns the pids to signal for
    /// their timeout, in table order: only signalable ones.
    pub fn reap(&mut self, now_ms: u64, live: &Vec<u32>) -> (kills: Vec<u32>)
        requires
            old(self).wf(),
        ensures
            final(self).wf(),
            final(self)@ == reap_spec(old(self)@, now_ms, live@),
            kills@ == timeout_kills(old(self)@, now_ms, live@),
            forall|k: int| 0 <= k < kills@.len() ==> signalable(#[trigger] kills@[k]),
    {
        let ghost s = self@;
        let n = self.entries.len();
        let mut kills: Vec<u32> = Vec::new();
        let mut i: usize = 0;
        while i < n
            invariant
                n == s.len(),
                i <= n,
                self.entries@.len() == n,
                forall|k: int| 0 <= k < i ==> (#[trigger] self.entries@[k])@ == (s[k].0, reaped(s[k].1, now_ms, live@.contains(s[k].0))),
                forall|k: int| i <= k < n ==> (#[trigger] self.entries@[k])@ == s[k],
                kills@ == timeout_kills(s.subrange(0, i as int), now_ms, live@),
            decreases n - i,
        {
            assert(s.subrange(0, i + 1).drop_last() =~= s.subrange(0, i as int));
            assert(self.entries@[i as int]@ == s[i as int]);
            if self.entries[i].info.status.is_running() {
                let pid = self.entries[i].pid;
                let alive = contains_pid(live, pid);
                if !alive {
                    let mut e = self.entries.remove(i);
                    e.info.status = Status::Completed;
                    self.entries.insert(i, e);
                } else {
                    let info = &self.entries[i].info;
                    let expired = match info.timeout_ms {
                        Some(t) => now_ms >= info.start_time_ms && now_ms - info.start_time_ms >= t,
                        None => false,
                    };
                    if expired {
                        let mut e = self.entries.remove(i);
                        e.info.status = Status::KilledTimeout;
                        self.entries.insert(i, e);
                        if pid >= 1 && pid <= 2147483647 {
                            kills.push(pid);
                        }
                    }
                }
            }
            i = i + 1;
        }
        assert(s.subrange(0, n as int) =~= s);
        assert(self@ =~= reap_spec(s, now_ms, live@));
        proof {
            lemma_kills_signalable(s, now_ms, live@);
        }
        kills
    }

    /// The pids of the entries recorded as running whose process is not in
    /// `live`, in table order. Terminal entries are never among them.
    pub fn revive_candidates(&self, live: &Vec<u32>) -> (r: Vec<u32>)
        ensures
            r@ == revive_pids(self@, live@),
    {
        let ghost s = self@;
        let mut r: Vec<u32> = Vec::new();
        let mut i: usize = 0;
        while i < self.entries.len()
            invariant
                s == self@,
                s.len() == self.entries@.len(),
                i <= s.len(),
                r@ == revive_pids(s.subrange(0, i as int), live@),
            decreases s.len() - i,
        {
            assert(s.subrange(0, i + 1).drop_last() =~= s.subrange(0, i as int));
            assert(self.entries@[i as int]@ == s[i as int]);
            if self.entries[i].info.status.is_running() && !contains_pid(live, self.entries[i].pid) {
                r.push(self.entries[i].pid);
            }
            i = i + 1;
        }
        assert(s.subrange(0, i as int) =~= s);
        r
    }

    /// Whether a running entry carries the display name `name`.
    pub fn has_running_named(&self, name: &str) -> (r: bool)
        ensures
            r == running_named(self@, name@),
    {
        let ghost s = self@;
        let mut i: usize = 0;
        while i < self.entries.len()
            invariant
                s == self@,
                s.len() == self.entries@.len(),
                i <= s.len(),
                forall|k: int| 0 <= k < i ==> !((#[trigger] s[k]).1.display_name == name@ && s[k].1.status == Status::Running),
            decreases s.len() - i,
        {
            assert(self.entries@[i as int]@ == s[i as int]);
            if self.entries[i].info.status.is_running() && same_text(self.entries[i].info.display_name.as_str(), name) {
                return true;
            }
            i = i + 1;
        }
        false
    }

    /// The pid that `target` names: an entry whose pid is spelled exactly
    /// `target`, or else the first entry whose display name is `target`.
    pub fn resolve_target(&self, target: &str) -> (r: Option<u32>)
        ensures
            r == resolve_spec(self@, target@),
    {
        let ghost s = self@;
        let ghost by_pid = |e: EntryView| decimal_text(e.0 as nat) == target@;
        let ghost by_name = |e: EntryView| e.1.display_name == target@;
        let mut i: usize = 0;
        while i < self.entries.len()
            invariant
                s == self@,
                s.len() == self.entries@.len(),
                i <= s.len(),
                by_pid == (|e: EntryView| decimal_text(e.0 as nat) == target@),
                first_match(s.subrange(0, i as int), by_pid) == -1,
            decreases s.len() - i,
        {
            assert(s.subrange(0, i + 1).drop_last() =~= s.subrange(0, i as int));
            assert(self.entries@[i as int]@ == s[i as int]);
            let spelled = u64_to_text(self.entries[i].pid as u64);
            if same_text(spelled.as_str(), target) {
                proof {
                    lemma_first_match_prefix(s, by_pid, i + 1);
                }
                return Some(self.entries[i].pid);
            }
            i = i + 1;
        }
        assert(s.subrange(0, i as int) =~= s);
        let mut j: usize = 0;
        while j < self.entries.len()
            invariant
                s == self@,
                s.len() == self.entries@.len(),
                j <= s.len(),
                first_match(s, by_pid) == -1,
                by_pid == (|e: EntryView| decimal_text(e.0 as nat) == target@),
                by_name == (|e: EntryView| e.1.display_name == target@),
                first_match(s.subrange(0, j as int), by_name) == -1,
            decreases s.len() - j,
        {
            assert(s.subrange(0, j + 1).drop_last() =~= s.subrange(0, j as int));
            assert(self.entries@[j as int]@ == s[j as int]);
            if same_text(self.entries[j].info.display_name.as_str(), target) {
                proof {
                    lemma_first_match_prefix(s, by_name, j + 1);
                }
                return Some(self.entries[j].pid);
            }
            j = j + 1;
        }
        assert(s.subrange(0, j as int) =~= s);
        None
    }

    /// Replaces the entry for `old_pid` by one under `new_pid` that records
    /// the same command, files, timeout and names, running from `now_ms`.
    /// Returns whether `old_pid` was recorded; if not, nothing changes.
    pub fn relaunch(&mut self, old_pid: u32, new_pid: u32, now_ms: u64) -> (r: bool)
        requires
            old(self).wf(),
        ensures
            final(self).wf(),
            r == has_pid(old(self)@, old_pid),
            r ==> final(self)@ == register_spec(
                remove_spec(old(self)@, old_pid),
                new_pid,
                relaunched(lookup(old(self)@, old_pid).unwrap(), now_ms),
            ),
            !r ==> final(self)@ == old(self)@,
    {
        match self.remove(old_pid) {
            Some(info) => {
                let info = ProcessInfo { status: Status::Running, start_time_ms: now_ms, ..info };
                self.register(new_pid, info);
                true
            },
            None => false,
        }
    }

    /// How to relaunch `pid`'s entry, if it is recorded and its command line
    /// holds a word.
    pub fn respawn_plan(&self, pid: u32) -> (r: Option<RespawnPlan>)
        requires
            self.wf(),
        ensures
            match r {
                Some(p) => lookup(self@, pid) matches Some(rec) && respawn_plan_is(p, rec),
                None => !(lookup(self@, pid) matches Some(rec) && split_words(rec.cmd).len() > 0),
            },
    {
        match self.get(pid) {
            Some(info) => match split_command(info.cmd_str.as_str()) {
                Some(c) => Some(
                    RespawnPlan {
                        program: c.program,
                        args: c.args,
                        working_dir: info.working_dir.clone(),
                        log_file: info.log_file.clone(),
                    },
                ),
                None => None,
            },
            None => None,
        }
    }

    /// How to revive `pid`: its relaunch, when its entry is still recorded as
    /// running. A stopped or finished entry is never revived.
    pub fn revive_plan(&self, pid: u32) -> (r: Option<RespawnPlan>)
        requires
            self.wf(),
        ensures
            match r {
                Some(p) => running_at(self@, pid) && respawn_plan_is(p, lookup(self@, pid).unwrap()),
                None => !(running_at(self@, pid) && split_words(lookup(self@, pid).unwrap().cmd).len() > 0),
            },
    {
        if self.is_running(pid) {
            self.respawn_plan(pid)
        } else {
            None
        }
    }

    /// Records the outcome of a revive of `pid`: when its entry is still
    /// running and a process was started, the entry is replaced by one
    /// under the new pid, as `relaunch` does; otherwise nothing changes.
    /// Returns whether the table changed.
    pub fn apply_revive(&mut self, pid: u32, spawned: Option<u32>, now_ms: u64) -> (r: bool)
        requires
            old(self).wf(),
        ensures
            final(self).wf(),
            r == (spawned is Some && running_at(old(self)@, pid)),
            r ==> final(self)@ == register_spec(
                remove_spec(old(self)@, pid),
                spawned.unwrap(),
                relaunched(lookup(old(self)@, pid).unwrap(), now_ms),
            ),
            !r ==> final(self)@ == old(self)@,
    {
        if self.is_running(pid) {
            self.finish_relaunch(pid, spawned, now_ms)
        } else {
            false
        }
    }

    /// Completes a relaunch of `old_pid` once a start was tried: with the
    /// new process's pid, as `relaunch` does; when nothing could be started,
    /// the table stays as it is. Returns whether the table changed.
    pub fn finish_relaunch(&mut self, old_pid: u32, spawned: Option<u32>, now_ms: u64) -> (r: bool)
        requires
            old(self).wf(),
        ensures
            final(self).wf(),
            r == (spawned is Some && has_pid(old(self)@, old_pid)),
            r ==> final(self)@ == register_spec(
                remove_spec(old(self)@, old_pid),
                spawned.unwrap(),
                relaunched(lookup(old(self)@, old_pid).unwrap(), now_ms),
            ),
            !r ==> final(self)@ == old(self)@,
    {
        match spawned {
            Some(new_pid) => self.relaunch(old_pid, new_pid, now_ms),
            None => false,
        }
    }


    /// Hands the entries out ordered by start time, latest first.
    pub fn into_sorted_by_start(self) -> (r: Vec<ProcessEntry>)
        ensures
            r@.len() == self@.len(),
            sorted_by_start_desc(entries_view(r@)),
            forall|k: int| 0 <= k < r@.len() ==> self@.contains(#[trigger] r@[k]@),
            forall|k: int| 0 <= k < self@.len() ==> entries_view(r@).contains(#[trigger] self@[k]),
    {
        sort_by_start_desc(self.entries)
    }

    /// The entries ordered by start time, latest first, the table kept.
    pub fn sorted_by_start(&self) -> (r: Vec<ProcessEntry>)
        ensures
            r@.len() == self@.len(),
            sorted_by_start_desc(entries_view(r@)),
            forall|k: int| 0 <= k < r@.len() ==> self@.contains(#[trigger] r@[k]@),
            forall|k: int| 0 <= k < self@.len() ==> entries_view(r@).contains(#[trigger] self@[k]),
    {
        let mut copy: Vec<ProcessEntry> = Vec::new();
        let mut i: usize = 0;
        while i < self.entries.len()
            invariant
                i <= self.entries@.len(),
                entries_view(copy@) == self@.subrange(0, i as int),
            decreases self.entries@.len() - i,
        {
            let e = self.entries[i].duplicate();
            let ghost pre = copy@;
            copy.push(e);
            assert(entries_view(copy@) =~= entries_view(pre).push(e@));
            assert(self@.subrange(0, i + 1) =~= self@.subrange(0, i as int).push(self@[i as int]));
            i = i + 1;
        }
        assert(self@.subrange(0, i as int) =~= self@);
        sort_by_start_desc(copy)
    }

    /// Deletes the entry for `pid` and hands back what it recorded.
    pub fn remove(&mut self, pid: u32) -> (r: Option<ProcessInfo>)
        requires
            old(self).wf(),
        ensures
            final(self).wf(),
            final(self)@ == remove_spec(old(self)@, pid),
            match r {
                Some(info) => lookup(old(self)@, pid) == Some(info@),
                None => lookup(old(self)@, pid).is_none(),
            },
    {
        proof {
            lemma_remove_keeps_distinct(self@, pid);
        }
        match self.find_index(pid) {
            Some(i) => {
                let e = self.entries.remove(i);
                assert(self@ =~= old(self)@.remove(i as int));
                Some(e.info)
            },
            None => None,
        }
    }
}

/// Orders entries by start time, latest first.
pub fn sort_by_start_desc(v: Vec<ProcessEntry>) -> (r: Vec<ProcessEntry>)
    ensures
        r@.len() == v@.len(),
        sorted_by_start_desc(entries_view(r@)),
        forall|k: int| 0 <= k < r@.len() ==> entries_view(v@).contains(#[trigger] r@[k]@),
        forall|k: int| 0 <= k < v@.len() ==> entries_view(r@).contains(#[trigger] entries_view(v@)[k]),
{
    let ghost s = entries_view(v@);
    let mut rest = v;
    let mut out: Vec<ProcessEntry> = Vec::new();
    proof {
        assert forall|k: int| 0 <= k < rest@.len() implies s.contains(#[trigger] rest@[k]@) by {
            assert(s[k] == rest@[k]@);
        }
        assert forall|k: int| 0 <= k < s.len() implies entries_view(out@).contains(#[trigger] s[k])
            || entries_view(rest@).contains(s[k]) by {
            assert(entries_view(rest@)[k] == s[k]);
        }
    }
    while rest.len() > 0
        invariant
            out@.len() + rest@.len() == s.len(),
            forall|k: int| 0 <= k < out@.len() ==> s.contains(#[trigger] out@[k]@),
            forall|k: int| 0 <= k < rest@.len() ==> s.contains(#[trigger] rest@[k]@),
            forall|k: int| 0 <= k < s.len() ==> entries_view(out@).contains(#[trigger] s[k])
                || entries_view(rest@).contains(s[k]),
            sorted_by_start_desc(entries_view(out@)),
            forall|a: int, b: int| 0 <= a < out@.len() && 0 <= b < rest@.len()
                ==> out@[a].info.start_time_ms >= rest@[b].info.start_time_ms,
        decreases rest@.len(),
    {
        let mut m: usize = 0;
        let mut j: usize = 1;
        while j < rest.len()
            invariant
                rest@.len() > 0,
                m < rest@.len(),
                1 <= j <= rest@.len(),
                forall|b: int| 0 <= b < j ==> rest@[m as int].info.start_time_ms >= #[trigger] rest@[b].info.start_time_ms,
            decreases rest@.len() - j,
        {
            if rest[j].info.start_time_ms > rest[m].info.start_time_ms {
                m = j;
            }
            j = j + 1;
        }
        let ghost pre_rest = rest@;
        let ghost pre_out = out@;
        let e = rest.remove(m);
        out.push(e);
        proof {
            assert forall|k: int| 0 <= k < rest@.len() implies s.contains(#[trigger] rest@[k]@) by {
                if k < m {
                    assert(rest@[k] == pre_rest[k]);
                } else {
                    assert(rest@[k] == pre_rest[k + 1]);
                }
            }
            assert forall|k: int| 0 <= k < out@.len() implies s.contains(#[trigger] out@[k]@) by {
                if k < pre_out.len() {
                    assert(out@[k] == pre_out[k]);
                }
            }
            assert forall|k: int| 0 <= k < s.len() implies entries_view(out@).contains(#[trigger] s[k])
                || entries_view(rest@).contains(s[k]) by {
                if entries_view(pre_out).contains(s[k]) {
                    let a = choose|a: int| 0 <= a < pre_out.len() && entries_view(pre_out)[a] == s[k];
                    assert(entries_view(out@)[a] == s[k]);
                } else {
                    let b = choose|b: int| 0 <= b < pre_rest.len() && entries_view(pre_rest)[b] == s[k];
                    if b < m {
                        assert(entries_view(rest@)[b] == s[k]);
                    } else if b == m {
                        assert(entries_view(out@)[pre_out.len() as int] == s[k]);
                    } else {
                        assert(entries_view(rest@)[b - 1] == s[k]);
                    }
                }
            }
            assert forall|a: int, b: int| 0 <= a < out@.len() && 0 <= b < rest@.len()
                implies out@[a].info.start_time_ms >= rest@[b].info.start_time_ms by {
                if b < m {
                    assert(rest@[b] == pre_rest[b]);
                } else {
                    assert(rest@[b] == pre_rest[b + 1]);
                }
                if a < pre_out.len() {
                    assert(out@[a] == pre_out[a]);
                }
            }
            assert forall|a: int, b: int| 0 <= a < b < entries_view(out@).len()
                implies entries_view(out@)[a].1.start_time_ms >= entries_view(out@)[b].1.start_time_ms by {
                if b < pre_out.len() {
                    assert(entries_view(out@)[a] == entries_view(pre_out)[a]);
                    assert(entries_view(out@)[b] == entries_view(pre_out)[b]);
                } else {
                    assert(out@[a] == pre_out[a]);
                    assert(out@[b] == pre_rest[m as int]);
                }
            }
        }
    }
    out
}

/// Records a freshly launched process under `pid`: status `Running`, started
/// at `now_ms`.
pub fn register_process(
    table: &mut ProcessTable,
    pid: u32,
    cmd_str: String,
    timeout_ms: Option<u64>,
    log_file: String,
    script_name: String,
    working_dir: String,
    display_name: String,
    now_ms: u64,
)
    requires
        old(table).wf(),
    ensures
        final(table).wf(),
        final(table)@ == register_spec(
            old(table)@,
            pid,
            ProcessRecord {
                cmd: cmd_str@,
                log_file: log_file@,
                status: Status::Running,
                start_time_ms: now_ms,
                timeout_ms: timeout_ms,
                script_name: script_name@,
                working_dir: working_dir@,
                display_name: display_name@,
            },
        ),
{
    let info = ProcessInfo {
        cmd_str,
        log_file,
        status: Status::Running,
        start_time_ms: now_ms,
        timeout_ms,
        script_name,
        working_dir,
        display_name,
    };
    table.register(pid, info);
}

/// The table after recording each of `regs` in turn, starting from `s`.
pub open spec fn register_all(s: Seq<EntryView>, regs: Seq<EntryView>) -> Seq<EntryView>
    decreases regs.len(),
{
    if regs.len() == 0 {
        s
    } else {
        register_spec(register_all(s, regs.drop_last()), regs.last().0, regs.last().1)
    }
}

/// Each recording extends the chain: recording `(pid, rec)` after `regs`
/// gives the table of `regs` followed by `(pid, rec)`. A run of
/// `register_process` calls is thus one `register_all`.
pub proof fn lemma_register_step(s: Seq<EntryView>, regs: Seq<EntryView>, pid: u32, rec: ProcessRecord)
    ensures
        register_spec(register_all(s, regs), pid, rec) == register_all(s, regs.push((pid, rec))),
{
    assert(regs.push((pid, rec)).drop_last() =~= regs);
}

/// Registering processes with distinct pids one after another, starting
/// from an empty table, leaves exactly one entry for each, none lost.
/// `register_process` is one such step, with a running record.
pub proof fn lemma_sequential_registers(regs: Seq<EntryView>)
    requires
        distinct_pids(regs),
    ensures
        register_all(Seq::empty(), regs) == regs,
        register_all(Seq::empty(), regs).len() == regs.len(),
        distinct_pids(register_all(Seq::empty(), regs)),
        forall|i: int| 0 <= i < regs.len() ==> lookup(register_all(Seq::empty(), regs), (#[trigger] regs[i]).0) == Some(regs[i].1),
        forall|i: int| 0 <= i < regs.len() && regs[i].1.status == Status::Running
            ==> (#[trigger] register_all(Seq::empty(), regs)[i]).1.status == Status::Running,
    decreases regs.len(),
{
    if regs.len() > 0 {
        let t = regs.drop_last();
        assert(distinct_pids(t));
        lemma_sequential_registers(t);
        lemma_pid_index(t, regs.last().0);
        assert(!has_pid(t, regs.last().0));
        assert(t.push(regs.last()) =~= regs);
    }
    assert forall|i: int| 0 <= i < regs.len() implies lookup(register_all(Seq::empty(), regs), (#[trigger] regs[i]).0) == Some(regs[i].1) by {
        lemma_pid_index(regs, regs[i].0);
    }
}

/// Reaping twice in a row, with the same live processes at the same time,
/// gives the table of the first reap, and the second reap kills nothing.
pub proof fn lemma_reap_idempotent(s: Seq<EntryView>, now_ms: u64, live: Seq<u32>)
    ensures
        reap_spec(reap_spec(s, now_ms, live), now_ms, live) == reap_spec(s, now_ms, live),
        timeout_kills(reap_spec(s, now_ms, live), now_ms, live) == Seq::<u32>::empty(),
    decreases s.len(),
{
    let r = reap_spec(s, now_ms, live);
    assert(reap_spec(r, now_ms, live) =~= r);
    if s.len() > 0 {
        lemma_reap_idempotent(s.drop_last(), now_ms, live);
        assert(r.drop_last() =~= reap_spec(s.drop_last(), now_ms, live));
    } else {
        assert(r.len() == 0);
    }
}

/// A live running entry with a timeout of `t` is marked `KilledTimeout` by a
/// reap exactly when at least `t` has passed since its start; before that it
/// stays running.
pub proof fn lemma_timeout_boundary(s: Seq<EntryView>, now_ms: u64, live: Seq<u32>, i: int)
    requires
        0 <= i < s.len(),
        s[i].1.status == Status::Running,
        s[i].1.timeout_ms is Some,
        live.contains(s[i].0),
    ensures
        reap_spec(s, now_ms, live)[i].1.status == Status::KilledTimeout
            <==> now_ms as int - s[i].1.start_time_ms as int >= s[i].1.timeout_ms.unwrap() as int,
        reap_spec(s, now_ms, live)[i].1.status == Status::Running
            <==> (now_ms as int - s[i].1.start_time_ms as int) < (s[i].1.timeout_ms.unwrap() as int),
{
}

/// Every pid picked for revival is the pid of an entry recorded as running.
pub proof fn lemma_revive_picks_running(s: Seq<EntryView>, live: Seq<u32>)
    ensures
        forall|k: int| 0 <= k < revive_pids(s, live).len() ==> exists|j: int|
            0 <= j < s.len() && s[j].0 == #[trigger] revive_pids(s, live)[k] && s[j].1.status
                == Status::Running && !live.contains(s[j].0),
    decreases s.len(),
{
    if s.len() > 0 {
        let t = s.drop_last();
        lemma_revive_picks_running(t, live);
        let r = revive_pids(s, live);
        let rt = revive_pids(t, live);
        assert forall|k: int| 0 <= k < r.len() implies exists|j: int|
            0 <= j < s.len() && s[j].0 == #[trigger] r[k] && s[j].1.status == Status::Running
                && !live.contains(s[j].0) by {
            if k < rt.len() {
                assert(r[k] == rt[k]);
                let j = choose|j: int| 0 <= j < t.len() && t[j].0 == rt[k] && t[j].1.status
                    == Status::Running && !live.contains(t[j].0);
                assert(s[j] == t[j]);
            } else {
                assert(r[k] == s[s.len() - 1].0);
            }
        }
    }
}

/// An entry stopped by hand stays as it is through every reap and is never
/// picked for revival.
pub proof fn lemma_manual_stop_is_sticky(s: Seq<EntryView>, now_ms: u64, live: Seq<u32>, i: int)
    requires
        distinct_pids(s),
        0 <= i < s.len(),
        s[i].1.status == Status::KilledManual,
    ensures
        reap_spec(s, now_ms, live)[i] == s[i],
        !revive_pids(s, live).contains(s[i].0),
{
    lemma_revive_picks_running(s, live);
    if revive_pids(s, live).contains(s[i].0) {
        let k = choose|k: int| 0 <= k < revive_pids(s, live).len() && revive_pids(s, live)[k] == s[i].0;
        let j = choose|j: int| 0 <= j < s.len() && s[j].0 == revive_pids(s, live)[k] && s[j].1.status
            == Status::Running && !live.contains(s[j].0);
        assert(j != i);
    }
}

/// A restart of a recorded process whose new pid is not yet recorded
/// leaves as many entries as before: the old pid is gone, and the one new
/// entry is running under the new pid.
pub proof fn lemma_restart_replaces(s: Seq<EntryView>, old_pid: u32, new_pid: u32, now_ms: u64)
    requires
        distinct_pids(s),
        has_pid(s, old_pid),
        new_pid != old_pid,
        !has_pid(s, new_pid),
    ensures
        ({
            let rec = relaunched(lookup(s, old_pid).unwrap(), now_ms);
            let t = register_spec(remove_spec(s, old_pid), new_pid, rec);
            &&& t.len() == s.len()
            &&& distinct_pids(t)
            &&& !has_pid(t, old_pid)
            &&& lookup(t, new_pid) == Some(rec)
            &&& rec.status == Status::Running
            &&& forall|pid: u32| pid != old_pid && pid != new_pid ==> lookup(t, pid) == lookup(s, pid)
        }),
{
    let rec = relaunched(lookup(s, old_pid).unwrap(), now_ms);
    let u = remove_spec(s, old_pid);
    let t = register_spec(u, new_pid, rec);
    let k = pid_index(s, old_pid);
    lemma_pid_index(s, old_pid);
    lemma_pid_index(s, new_pid);
    lemma_remove_keeps_distinct(s, old_pid);
    lemma_pid_index(u, new_pid);
    assert(!has_pid(u, new_pid)) by {
        assert forall|i: int| 0 <= i < u.len() implies u[i].0 != new_pid by {
            if i < k {
                assert(u[i] == s[i]);
            } else {
                assert(u[i] == s[i + 1]);
            }
        }
    }
    assert(t == u.push((new_pid, rec)));
    lemma_register_keeps_distinct(u, new_pid, rec);
    lemma_pid_index(t, new_pid);
    lemma_pid_index(t, old_pid);
    lemma_pid_index(u, old_pid);
    assert(!has_pid(t, old_pid)) by {
        assert forall|i: int| 0 <= i < t.len() implies t[i].0 != old_pid by {
            if i < u.len() {
                assert(t[i] == u[i]);
            }
        }
    }
    assert(t[t.len() - 1].0 == new_pid);
    assert forall|pid: u32| pid != old_pid && pid != new_pid implies lookup(t, pid) == lookup(s, pid) by {
        lemma_pid_index(s, pid);
        lemma_pid_index(u, pid);
        lemma_pid_index(t, pid);
        if has_pid(s, pid) {
            let j = pid_index(s, pid);
            let j2 = if j < k { j } else { j - 1 };
            assert(u[j2] == s[j]);
            assert(t[j2] == u[j2]);
        } else {
            if has_pid(t, pid) {
                let j = pid_index(t, pid);
                assert(j < u.len());
                assert(t[j] == u[j]);
                if j < k {
                    assert(u[j] == s[j]);
                } else {
                    assert(u[j] == s[j + 1]);
                }
            }
        }
    }
}

/// Terminal statuses are final: neither a reap nor a manual stop changes an
/// entry that is no longer running, and both keep every pid in its place.
pub proof fn lemma_terminal_entries_stay(s: Seq<EntryView>, now_ms: u64, live: Seq<u32>, pid: u32, i: int)
    requires
        0 <= i < s.len(),
        s[i].1.status != Status::Running,
    ensures
        reap_spec(s, now_ms, live)[i] == s[i],
        stop_spec(s, pid)[i] == s[i],
        reap_spec(s, now_ms, live).len() == s.len(),
        stop_spec(s, pid).len() == s.len(),
{
    lemma_pid_index(s, pid);
}

/// Pruning keeps every running entry and nothing else, and a prune right
/// after a prune removes nothing.
pub proof fn lemma_prune_idempotent(s: Seq<EntryView>)
    ensures
        running_only(running_only(s)) == running_only(s),
        forall|i: int| 0 <= i < s.len() && (#[trigger] s[i]).1.status == Status::Running ==> running_only(s).contains(s[i]),
        forall|i: int| 0 <= i < running_only(s).len() ==> (#[trigger] running_only(s)[i]).1.status == Status::Running,
    decreases s.len(),
{
    lemma_running_only_sub(s);
    if s.len() > 0 {
        let t = s.drop_last();
        lemma_prune_idempotent(t);
        let rt = running_only(t);
        if s.last().1.status == Status::Running {
            assert(rt.push(s.last()).drop_last() =~= rt);
        }
    }
}

} // verus!
