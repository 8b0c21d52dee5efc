//! The schedule table and the decisions of one scheduler tick: which named
//! jobs are due, and which of them must be launched because no running
//! process carries their correlation name.

use vstd::prelude::*;
use crate::table::{running_named, EntryView, ProcessTable};
use crate::text::{chars_of, decimal_u64, parse_u64, string_of, strings_view};

verus! {

/// The display name that marks the scheduler daemon's own entry.
pub const DAEMON_NAME: &'static str = "scheduler-daemon";

/// A recurring job, kept running by the scheduler. Times are seconds since
/// the Unix epoch.
#[derive(Clone, Debug)]
pub struct ScheduledJob {
    pub name: String,
    pub command: String,
    pub args: Vec<String>,
    pub frequency: String,
    pub start_at: u64,
    pub working_dir: String,
    pub last_run: Option<u64>,
    pub enabled: bool,
}

/// The mathematical value of a `ScheduledJob`.
pub struct JobView {
    pub name: Seq<char>,
    pub command: Seq<char>,
    pub args: Seq<Seq<char>>,
    pub frequency: Seq<char>,
    pub start_at: u64,
    pub working_dir: Seq<char>,
    pub last_run: Option<u64>,
    pub enabled: bool,
}

impl View for ScheduledJob {
    type V = JobView;

    open spec fn view(&self) -> JobView {
        JobView {
            name: self.name@,
            command: self.command@,
            args: strings_view(self.args@),
            frequency: self.frequency@,
            start_at: self.start_at,
            working_dir: self.working_dir@,
            last_run: self.last_run,
            enabled: self.enabled,
        }
    }
}

pub open spec fn jobs_view(v: Seq<ScheduledJob>) -> Seq<JobView> {
    v.map_values(|j: ScheduledJob| j@)
}

/// The seconds that one unit letter stands for.
pub open spec fn unit_seconds(c: char) -> Option<u64> {
    if c == 's' {
        Some(1)
    } else if c == 'm' {
        Some(60)
    } else if c == 'h' {
        Some(3600)
    } else if c == 'd' {
        Some(86400)
    } else {
        None
    }
}

/// A frequency in seconds: a decimal magnitude followed by one unit letter,
/// with a product that fits in 64 bits.
pub open spec fn frequency_value(f: Seq<char>) -> Option<u64> {
    if f.len() < 2 {
        None
    } else {
        match (decimal_u64(f.drop_last()), unit_seconds(f.last())) {
            (Some(n), Some(u)) => if n * u <= u64::MAX {
                Some((n * u) as u64)
            } else {
                None
            },
            _ => None,
        }
    }
}

/// The seconds between checks of a job; a spelling that is not a frequency
/// means one minute.
pub open spec fn frequency_secs(f: Seq<char>) -> u64 {
    match frequency_value(f) {
        Some(v) => v,
        None => 60,
    }
}

/// Reads a frequency such as `"10s"`, `"1m"`, `"2h"` or `"3d"`.
pub fn frequency_value_of(freq: &str) -> (r: Option<u64>)
    ensures
        r == frequency_value(freq@),
{
    let cs = chars_of(freq);
    if cs.len() < 2 {
        return None;
    }
    let unit = cs[cs.len() - 1];
    let mut head: Vec<char> = cs.clone();
    head.pop();
    assert(head@ =~= freq@.drop_last());
    let head_text = string_of(&head);
    let mult: u64 = if unit == 's' {
        1
    } else if unit == 'm' {
        60
    } else if unit == 'h' {
        3600
    } else if unit == 'd' {
        86400
    } else {
        return None;
    };
    match parse_u64(head_text.as_str()) {
        Some(n) => n.checked_mul(mult),
        None => None,
    }
}

/// The seconds between checks of a job: the frequency it spells, or 60 when
/// it spells none.
pub fn parse_frequency(freq: &str) -> (r: u64)
    ensures
        r == frequency_secs(freq@),
{
    match frequency_value_of(freq) {
        Some(v) => v,
        None => 60,
    }
}

/// The display name under which a job's running instance is tracked.
pub open spec fn correlation_name(job_name: Seq<char>) -> Seq<char> {
    "S:"@ + job_name
}

pub fn correlation_name_of(job_name: &str) -> (r: String)
    ensures
        r@ == correlation_name(job_name@),
{
    String::from_str("S:").concat(job_name)
}

/// Whether a tick at `now` checks the job: it is enabled, past its start,
/// and never checked or last checked at least one period ago.
pub open spec fn is_due(j: JobView, now: u64) -> bool {
    &&& j.enabled
    &&& now >= j.start_at
    &&& match j.last_run {
        None => true,
        Some(l) => now as int - l as int >= frequency_secs(j.frequency) as int,
    }
}

/// Whether a tick launches the job: it is due and no running entry carries
/// its correlation name.
pub open spec fn should_spawn(j: JobView, table: Seq<EntryView>, now: u64) -> bool {
    is_due(j, now) && !running_named(table, correlation_name(j.name))
}

/// The job after a tick: a due job records `now` as its last check.
pub open spec fn ticked(j: JobView, now: u64) -> JobView {
    if is_due(j, now) {
        JobView { last_run: Some(now), ..j }
    } else {
        j
    }
}

/// The positions of the jobs that a tick launches, in order.
pub open spec fn spawn_indices(js: Seq<JobView>, table: Seq<EntryView>, now: u64) -> Seq<usize>
    decreases js.len(),
{
    if js.len() == 0 {
        seq![]
    } else {
        let k = spawn_indices(js.drop_last(), table, now);
        if should_spawn(js.last(), table, now) {
            k.push((js.len() - 1) as usize)
        } else {
            k
        }
    }
}

/// What a tick asks of its caller.
pub struct TickOutcome {
    /// Positions in the schedule table of the jobs to launch.
    pub spawn: Vec<usize>,
    /// Whether some job's last check moved, so that the table must be saved.
    pub changed: bool,
}

pub fn is_due_exec(job: &ScheduledJob, now: u64) -> (r: bool)
    ensures
        r == is_due(job@, now),
{
    if !job.enabled || now < job.start_at {
        return false;
    }
    match job.last_run {
        None => true,
        Some(l) => {
            let freq = parse_frequency(job.frequency.as_str());
            now >= l && now - l >= freq
        },
    }
}

/// One tick over the schedule table at `now`, against the process table as
/// it stands after a reap. Every due job records `now` as its last check,
/// whether it is launched or already running; the others are left as they
/// are.
pub fn scheduler_tick(jobs: &mut Vec<ScheduledJob>, table: &ProcessTable, now: u64) -> (r: TickOutcome)
    ensures
        final(jobs)@.len() == old(jobs)@.len(),
        forall|i: int| 0 <= i < old(jobs)@.len() ==> (#[trigger] final(jobs)@[i])@ == ticked(old(jobs)@[i]@, now),
        r.spawn@ == spawn_indices(jobs_view(old(jobs)@), table@, now),
        r.changed == exists|i: int| 0 <= i < old(jobs)@.len() && is_due(#[trigger] old(jobs)@[i]@, now),
{
    let ghost js = jobs_view(jobs@);
    let n = jobs.len();
    let mut spawn: Vec<usize> = Vec::new();
    let mut changed = false;
    let mut i: usize = 0;
    while i < n
        invariant
            n == js.len(),
            i <= n,
            jobs@.len() == n,
            forall|k: int| 0 <= k < i ==> (#[trigger] jobs@[k])@ == ticked(js[k], now),
            forall|k: int| i <= k < n ==> (#[trigger] jobs@[k])@ == js[k],
            spawn@ == spawn_indices(js.subrange(0, i as int), table@, now),
            changed == exists|k: int| 0 <= k < i && is_due(#[trigger] js[k], now),
        decreases n - i,
    {
        assert(js.subrange(0, i + 1).drop_last() =~= js.subrange(0, i as int));
        assert(jobs@[i as int]@ == js[i as int]);
        if is_due_exec(&jobs[i], now) {
            let target = correlation_name_of(jobs[i].name.as_str());
            if !table.has_running_named(target.as_str()) {
                spawn.push(i);
            }
            let mut job = jobs.remove(i);
            job.last_run = Some(now);
            jobs.insert(i, job);
            changed = true;
        }
        i = i + 1;
    }
    assert(js.subrange(0, n as int) =~= js);
    proof {
        if changed {
            let k = choose|k: int| 0 <= k < n && is_due(#[trigger] js[k], now);
            assert(js[k] == old(jobs)@[k]@);
        } else {
            assert forall|k: int| 0 <= k < n implies !is_due(#[trigger] old(jobs)@[k]@, now) by {
                assert(js[k] == old(jobs)@[k]@);
            }
        }
    }
    TickOutcome { spawn, changed }
}

/// The command line that launches a job: its command, then its arguments.
pub fn job_launch_args(job: &ScheduledJob) -> (r: Vec<String>)
    ensures
        strings_view(r@) == seq![job.command@] + strings_view(job.args@),
{
    let mut r: Vec<String> = Vec::new();
    r.push(job.command.clone());
    let mut i: usize = 0;
    while i < job.args.len()
        invariant
            i <= job.args@.len(),
            strings_view(r@) == seq![job.command@] + strings_view(job.args@).subrange(0, i as int),
        decreases job.args@.len() - i,
    {
        let ghost pre = r@;
        let a = job.args[i].clone();
        assert(a@ == job.args@[i as int]@);
        r.push(a);
        assert(strings_view(r@) =~= strings_view(pre).push(a@));
        assert(strings_view(job.args@).subrange(0, i + 1) =~= strings_view(job.args@).subrange(0, i as int).push(job.args@[i as int]@));
        assert(strings_view(r@) =~= seq![job.command@] + strings_view(job.args@).subrange(0, i + 1));
        i = i + 1;
    }
    assert(strings_view(job.args@).subrange(0, i as int) =~= strings_view(job.args@));
    r
}

/// A position is among the launches of a tick exactly when the job there
/// should be launched; the positions come in increasing order.
pub proof fn lemma_spawn_indices(js: Seq<JobView>, table: Seq<EntryView>, now: u64)
    requires
        js.len() <= usize::MAX,
    ensures
        forall|i: int| 0 <= i < js.len() ==> (spawn_indices(js, table, now).contains(i as usize)
            <==> should_spawn(#[trigger] js[i], table, now)),
        forall|k: int| 0 <= k < spawn_indices(js, table, now).len() ==> (#[trigger] spawn_indices(js, table, now)[k]) < js.len(),
        forall|a: int, b: int| 0 <= a < b < spawn_indices(js, table, now).len()
            ==> spawn_indices(js, table, now)[a] < spawn_indices(js, table, now)[b],
    decreases js.len(),
{
    if js.len() > 0 {
        let t = js.drop_last();
        lemma_spawn_indices(t, table, now);
        let r = spawn_indices(js, table, now);
        let rt = spawn_indices(t, table, now);
        assert forall|i: int| 0 <= i < js.len() implies (r.contains(i as usize) <==> should_spawn(#[trigger] js[i], table, now)) by {
            if i < t.len() {
                assert(t[i] == js[i]);
                if r.contains(i as usize) {
                    let k = choose|k: int| 0 <= k < r.len() && r[k] == i as usize;
                    if k < rt.len() {
                        assert(rt[k] == r[k]);
                    }
                }
                if rt.contains(i as usize) {
                    let k = choose|k: int| 0 <= k < rt.len() && rt[k] == i as usize;
                    assert(r[k] == rt[k]);
                }
            } else {
                if should_spawn(js[i], table, now) {
                    assert(r[r.len() - 1] == i as usize);
                } else {
                    assert(r == rt);
                }
            }
        }
    }
}

/// A disabled job is neither launched nor changed by a tick, however long
/// it has waited.
pub proof fn lemma_disabled_job_idle(js: Seq<JobView>, table: Seq<EntryView>, now: u64, i: int)
    requires
        js.len() <= usize::MAX,
        0 <= i < js.len(),
        !js[i].enabled,
    ensures
        !spawn_indices(js, table, now).contains(i as usize),
        ticked(js[i], now) == js[i],
{
    lemma_spawn_indices(js, table, now);
}

/// A due job that a running entry already represents is not launched again;
/// the tick only records the check.
pub proof fn lemma_running_job_not_duplicated(js: Seq<JobView>, table: Seq<EntryView>, now: u64, i: int)
    requires
        js.len() <= usize::MAX,
        0 <= i < js.len(),
        js[i].enabled,
        is_due(js[i], now),
        running_named(table, correlation_name(js[i].name)),
    ensures
        !spawn_indices(js, table, now).contains(i as usize),
        ticked(js[i], now) == (JobView { last_run: Some(now), ..js[i] }),
{
    lemma_spawn_indices(js, table, now);
}

/// Entries that carry a job's correlation name but are not running (a
/// manual kill among them) do not hold the job back: when it is due, the
/// tick launches a fresh instance.
pub proof fn lemma_stopped_job_relaunched(js: Seq<JobView>, table: Seq<EntryView>, now: u64, i: int)
    requires
        js.len() <= usize::MAX,
        0 <= i < js.len(),
        is_due(js[i], now),
        forall|k: int| 0 <= k < table.len() && (#[trigger] table[k]).1.display_name == correlation_name(js[i].name)
            ==> table[k].1.status != crate::entry::Status::Running,
    ensures
        spawn_indices(js, table, now).contains(i as usize),
{
    lemma_spawn_indices(js, table, now);
}

/// The index of the first job named `name`, or -1.
pub open spec fn job_index(js: Seq<JobView>, name: Seq<char>) -> int
    decreases js.len(),
{
    if js.len() == 0 {
        -1
    } else {
        let k = job_index(js.drop_last(), name);
        if k >= 0 {
            k
        } else if js.last().name == name {
            js.len() - 1
        } else {
            -1
        }
    }
}

fn find_job(jobs: &Vec<ScheduledJob>, name: &str) -> (r: Option<usize>)
    ensures
        match r {
            Some(i) => i < jobs@.len() && job_index(jobs_view(jobs@), name@) == i,
            None => job_index(jobs_view(jobs@), name@) == -1,
        },
{
    let ghost js = jobs_view(jobs@);
    let mut i: usize = 0;
    while i < jobs.len()
        invariant
            js == jobs_view(jobs@),
            i <= jobs@.len(),
            job_index(js.subrange(0, i as int), name@) == -1,
        decreases jobs@.len() - i,
    {
        assert(js.subrange(0, i + 1).drop_last() =~= js.subrange(0, i as int));
        assert(js[i as int] == jobs@[i as int]@);
        if crate::text::same_text(jobs[i].name.as_str(), name) {
            proof {
                lemma_job_index_prefix(js, name@, i + 1);
            }
            return Some(i);
        }
        i = i + 1;
    }
    assert(js.subrange(0, i as int) =~= js);
    None
}

proof fn lemma_job_index_prefix(js: Seq<JobView>, name: Seq<char>, n: int)
    requires
        0 <= n <= js.len(),
        job_index(js.subrange(0, n), name) >= 0,
    ensures
        job_index(js, name) == job_index(js.subrange(0, n), name),
    decreases js.len() - n,
{
    if n < js.len() {
        assert(js.subrange(0, n + 1).drop_last() =~= js.subrange(0, n));
        lemma_job_index_prefix(js, name, n + 1);
    } else {
        assert(js.subrange(0, n) =~= js);
    }
}

/// Adds `job` at the end of the schedule table, unless a job of that name is
/// already there. Returns whether it was added.
pub fn add_job(jobs: &mut Vec<ScheduledJob>, job: ScheduledJob) -> (added: bool)
    ensures
        added == (job_index(jobs_view(old(jobs)@), job@.name) == -1),
        added ==> jobs_view(final(jobs)@) == jobs_view(old(jobs)@).push(job@),
        !added ==> final(jobs)@ == old(jobs)@,
{
    match find_job(jobs, job.name.as_str()) {
        Some(_) => false,
        None => {
            let ghost pre = jobs@;
            let ghost jv = job@;
            jobs.push(job);
            assert(jobs_view(jobs@) =~= jobs_view(pre).push(jv));
            true
        },
    }
}

/// Turns off the job named `name`, keeping its history. Returns whether
/// such a job was found.
pub fn disable_job(jobs: &mut Vec<ScheduledJob>, name: &str) -> (found: bool)
    ensures
        found == (job_index(jobs_view(old(jobs)@), name@) >= 0),
        found ==> jobs_view(final(jobs)@) == jobs_view(old(jobs)@).update(
            job_index(jobs_view(old(jobs)@), name@),
            JobView { enabled: false, ..jobs_view(old(jobs)@)[job_index(jobs_view(old(jobs)@), name@)] },
        ),
        !found ==> final(jobs)@ == old(jobs)@,
{
    match find_job(jobs, name) {
        Some(i) => {
            let ghost pre = jobs_view(jobs@);
            let mut job = jobs.remove(i);
            job.enabled = false;
            jobs.insert(i, job);
            assert(jobs_view(jobs@) =~= pre.update(i as int, JobView { enabled: false, ..pre[i as int] }));
            true
        },
        None => false,
    }
}

/// Deletes the job named `name`. Returns whether such a job was found.
pub fn remove_job(jobs: &mut Vec<ScheduledJob>, name: &str) -> (found: bool)
    ensures
        found == (job_index(jobs_view(old(jobs)@), name@) >= 0),
        found ==> jobs_view(final(jobs)@) == jobs_view(old(jobs)@).remove(job_index(jobs_view(old(jobs)@), name@)),
        !found ==> final(jobs)@ == old(jobs)@,
{
    match find_job(jobs, name) {
        Some(i) => {
            let ghost pre = jobs_view(jobs@);
            jobs.remove(i);
            assert(jobs_view(jobs@) =~= pre.remove(i as int));
            true
        },
        None => false,
    }
}

/// Whether a scheduler daemon is already recorded as running.
pub fn daemon_running(table: &ProcessTable) -> (r: bool)
    ensures
        r == running_named(table@, DAEMON_NAME@),
{
    table.has_running_named(DAEMON_NAME)
}

} // verus!
