//! Waiting for a server to be ready, and for a process to end.

use vstd::prelude::*;

use crate::console::error::Error;
#[allow(unused_imports)]
use crate::lists;
#[allow(unused_imports)]
use crate::scan;
use crate::scan::{is_white, join, split_lines, trim};
#[allow(unused_imports)]
use crate::text;
use crate::text::{decimal_text, find_last, text_chars};

verus! {

/// A thousandth of a second, in nanoseconds.
pub const MILLISECOND: u64 = 1_000_000;

/// How long a server may take to become ready.
pub const READY_TIMEOUT: u64 = 30_000_000_000;

/// How long a process may take to end once it was asked to.
pub const STOP_TIMEOUT: u64 = 15_000_000_000;

/// How long a killed process may take to disappear.
pub const KILL_TIMEOUT: u64 = 2_000_000_000;

/// What happened to somebody who waits.
#[derive(Debug, Clone, Copy, PartialEq, Eq, Structural)]
pub enum WaitEvent {
    /// The time is now this.
    Time(u64),
    /// What was waited for was looked at, and is there or not.
    Probed(bool),
}

/// What somebody who waits does next.
#[derive(Debug, Clone, Copy, PartialEq, Eq, Structural)]
pub enum WaitStep {
    /// Look whether it is there.
    Probe,
    /// Do nothing for that long.
    Pause(u64),
    /// It is there.
    Ready,
    /// The time is over.
    TimedOut,
}

/// A wait that ends at `deadline`, with a look every `interval`, in
/// nanoseconds.
#[derive(Debug, Clone, Copy, PartialEq, Eq, Structural)]
pub struct Wait {
    pub deadline: u64,
    pub interval: u64,
}

impl Wait {
    pub fn new(now: u64, timeout: u64, interval: u64) -> (w: Self)
        requires
            now + timeout <= u64::MAX,
        ensures
            w.deadline == now + timeout,
            w.interval == interval,
    {
        Wait { deadline: now + timeout, interval }
    }

    /// What follows on an event: a look as long as there is time, and a pause
    /// after each look that was in vain.
    pub fn next(&self, event: WaitEvent) -> (s: WaitStep)
        ensures
            s == (match event {
                WaitEvent::Time(now) => if now < self.deadline {
                    WaitStep::Probe
                } else {
                    WaitStep::TimedOut
                },
                WaitEvent::Probed(true) => WaitStep::Ready,
                WaitEvent::Probed(false) => WaitStep::Pause(self.interval),
            }),
    {
        match event {
            WaitEvent::Time(now) => if now < self.deadline {
                WaitStep::Probe
            } else {
                WaitStep::TimedOut
            },
            WaitEvent::Probed(there) => if there {
                WaitStep::Ready
            } else {
                WaitStep::Pause(self.interval)
            },
        }
    }
}

/// What somebody who polls does next.
#[derive(Debug, Clone, Copy, PartialEq, Eq, Structural)]
pub enum PollStep {
    /// What was waited for is there.
    Found,
    /// The time is over.
    TimedOut,
    /// Do nothing for that long, and look again.
    Pause(u64),
}

/// A wait that starts with a look, looks every `interval`, and gives up with
/// the first look in vain at `deadline` or later, in nanoseconds.
#[derive(Debug, Clone, Copy, PartialEq, Eq, Structural)]
pub struct Poll {
    pub deadline: u64,
    pub interval: u64,
}

impl Poll {
    pub fn new(now: u64, timeout: u64, interval: u64) -> (p: Self)
        requires
            now + timeout <= u64::MAX,
        ensures
            p.deadline == now + timeout,
            p.interval == interval,
    {
        Poll { deadline: now + timeout, interval }
    }

    /// What follows on a look at the time `now`.
    pub fn looked(&self, found: bool, now: u64) -> (s: PollStep)
        ensures
            s == (if found {
                PollStep::Found
            } else if now >= self.deadline {
                PollStep::TimedOut
            } else {
                PollStep::Pause(self.interval)
            }),
    {
        if found {
            PollStep::Found
        } else if now >= self.deadline {
            PollStep::TimedOut
        } else {
            PollStep::Pause(self.interval)
        }
    }
}

/// The wait for a key-value server.
pub fn wait_for_ready(now: u64, timeout: u64) -> (w: Wait)
    requires
        now + timeout <= u64::MAX,
    ensures
        w.deadline == now + timeout,
        w.interval == 10 * MILLISECOND,
{
    Wait::new(now, timeout, 10 * MILLISECOND)
}

/// The error of a key-value server that did not become ready.
pub fn not_ready_error() -> (e: Error)
    ensures
        e.is_io("did not become healthy within timeout"@),
{
    Error::Io("did not become healthy within timeout".to_owned())
}

/// The wait for a group's leader.
pub fn wait_for_leader(now: u64, timeout: u64) -> (w: Wait)
    requires
        now + timeout <= u64::MAX,
    ensures
        w.deadline == now + timeout,
        w.interval == 25 * MILLISECOND,
{
    Wait::new(now, timeout, 25 * MILLISECOND)
}

/// A group as a server reports it. A leader of 0 is none.
#[derive(Debug, Clone, Copy, PartialEq, Eq, Structural)]
pub struct GroupStatus {
    pub group_id: u64,
    pub leader_id: u64,
}

/// Whether a group is reported with a leader. The first report of the group
/// counts.
pub fn leader_elected(groups: &Vec<GroupStatus>, group_id: u64) -> (r: bool)
    ensures
        r == (match lists::first_index(groups@, |g: GroupStatus| g.group_id == group_id) {
            Some(i) => groups@[i].leader_id != 0,
            None => false,
        }),
{
    let accepts = |g: &GroupStatus| -> (b: bool)
        ensures
            b == (g.group_id == group_id)
    { g.group_id == group_id };
    match lists::position(groups, accepts, Ghost(|g: GroupStatus| g.group_id == group_id)) {
        Some(i) => groups[i].leader_id != 0,
        None => false,
    }
}

/// A time span as the `Debug` formatting of `std::time::Duration` shows it.
pub uninterp spec fn duration_shown(nanos: u64) -> Seq<char>;

/// The `Debug` formatting of `std::time::Duration`.
#[verifier::external_body]
fn duration_text(nanos: u64) -> (s: String)
    ensures
        s@ == duration_shown(nanos),
{
    format!("{:?}", std::time::Duration::from_nanos(nanos))
}

/// The error of a group that elected no leader, for a time span shown as
/// `timeout`.
pub fn no_leader_error_after(
    mgmt_url: &str,
    store_id: u64,
    group_id: u64,
    timeout: &str,
) -> (e: Error)
    ensures
        e.is_upstream(
            mgmt_url@,
            "group "@ + text::decimal(group_id as nat) + " in store "@ + text::decimal(
                store_id as nat,
            ) + " did not elect a leader within "@ + timeout@,
        ),
{
    let mut s = "group ".to_owned();
    s.append(decimal_text(group_id).as_str());
    s.append(" in store ");
    s.append(decimal_text(store_id).as_str());
    s.append(" did not elect a leader within ");
    s.append(timeout);
    Error::upstream(mgmt_url, s)
}

/// The error of a group that elected no leader.
pub fn no_leader_error(mgmt_url: &str, store_id: u64, group_id: u64, timeout: u64) -> (e: Error)
    ensures
        e.is_upstream(
            mgmt_url@,
            "group "@ + text::decimal(group_id as nat) + " in store "@ + text::decimal(
                store_id as nat,
            ) + " did not elect a leader within "@ + duration_shown(timeout),
        ),
{
    let shown = duration_text(timeout);
    no_leader_error_after(mgmt_url, store_id, group_id, shown.as_str())
}

/// The wait for a database.
pub fn wait_for_diskdb_ready(now: u64, timeout: u64) -> (w: Wait)
    requires
        now + timeout <= u64::MAX,
    ensures
        w.deadline == now + timeout,
        w.interval == 50 * MILLISECOND,
{
    Wait::new(now, timeout, 50 * MILLISECOND)
}

/// Where a database's health is asked for.
pub fn health_url(url: &str) -> (s: String)
    ensures
        s@ == url@ + "/health"@,
{
    let mut s = url.to_owned();
    s.append("/health");
    s
}

/// The last lines of a log, at most twenty, the last one first.
pub open spec fn log_tail(log: Seq<char>) -> Seq<char> {
    let all = scan::lines(log);
    let n = if all.len() < 20 {
        all.len()
    } else {
        20
    };
    scan::joined(Seq::new(n, |i: int| all[all.len() - 1 - i]), "\n"@)
}

pub fn diskdb_log_tail(log: &str) -> (s: String)
    ensures
        s@ == log_tail(log@),
{
    let all = split_lines(log);
    let mut tail: Vec<String> = Vec::new();
    let n: usize = all.len();
    while tail.len() < 20 && tail.len() < n
        invariant
            n == all@.len(),
            tail@.len() <= n,
            tail@.len() <= 20,
            forall|j: int| 0 <= j < tail@.len() ==> (#[trigger] tail@[j])@ == all@[n - 1 - j]@,
        decreases n - tail@.len(),
    {
        let k: usize = n - 1 - tail.len();
        tail.push(all[k].clone());
    }
    proof {
        let t = scan::texts(all@);
        assert(scan::texts(tail@) =~= Seq::new(tail@.len(), |i: int| t[t.len() - 1 - i]));
    }
    join(&tail, "\n")
}

fn client_failure(detail: &str) -> (s: String)
    ensures
        s@ == "client build failed: "@ + detail@,
{
    let mut s = "client build failed: ".to_owned();
    s.append(detail);
    s
}

/// The error of a server that could not even be asked for a leader.
pub fn client_error(url: &str, detail: &str) -> (e: Error)
    ensures
        e.is_upstream(url@, "client build failed: "@ + detail@),
{
    Error::upstream(url, client_failure(detail))
}

/// The error of a server that was started and could not even be asked whether
/// it is ready.
pub fn readiness_client_error(detail: &str) -> (e: Error)
    ensures
        e.is_io("client build failed: "@ + detail@),
{
    Error::Io(client_failure(detail))
}

/// The error of a database whose process ended before it was ready. `status`
/// is the process's status and `log` its output.
pub fn exited_error(pid: u32, status: &str, log: &str) -> (e: Error)
    ensures
        e.is_io(
            "DiskDB child exited before readiness (pid="@ + text::decimal(pid as nat)
                + ", status="@ + status@ + ")\n--- log tail ---\n"@ + log_tail(log@),
        ),
{
    let mut s = "DiskDB child exited before readiness (pid=".to_owned();
    s.append(decimal_text(pid as u64).as_str());
    s.append(", status=");
    s.append(status);
    s.append(")\n--- log tail ---\n");
    s.append(diskdb_log_tail(log).as_str());
    Error::Io(s)
}

/// The error of a database that did not become ready, for a time span shown
/// as `timeout`.
pub fn unhealthy_error_after(timeout: &str, pid: u32, alive: bool, log: &str) -> (e: Error)
    ensures
        e.is_io(
            "did not become healthy within "@ + timeout@ + " (pid="@ + text::decimal(pid as nat)
                + ", alive="@ + (if alive {
                "true"@
            } else {
                "false"@
            }) + ")\n--- log tail ---\n"@ + log_tail(log@),
        ),
{
    let mut s = "did not become healthy within ".to_owned();
    s.append(timeout);
    s.append(" (pid=");
    s.append(decimal_text(pid as u64).as_str());
    s.append(", alive=");
    s.append(
        if alive {
            "true"
        } else {
            "false"
        },
    );
    s.append(")\n--- log tail ---\n");
    s.append(diskdb_log_tail(log).as_str());
    Error::Io(s)
}

/// The error of a database that did not become ready.
pub fn unhealthy_error(timeout: u64, pid: u32, alive: bool, log: &str) -> (e: Error)
    ensures
        e.is_io(
            "did not become healthy within "@ + duration_shown(timeout) + " (pid="@
                + text::decimal(pid as nat) + ", alive="@ + (if alive {
                "true"@
            } else {
                "false"@
            }) + ")\n--- log tail ---\n"@ + log_tail(log@),
        ),
{
    let shown = duration_text(timeout);
    unhealthy_error_after(shown.as_str(), pid, alive, log)
}

/// What follows the last closing bracket of a process's status line, white
/// space at its start left out: its state comes first.
pub open spec fn process_state(stat: Seq<char>) -> Seq<char> {
    scan::trimmed_start(
        match text::last_index(stat, ')') {
            Some(i) => stat.skip(i + 1),
            None => stat,
        },
    )
}

/// Whether a process is there and has not ended, by the status line that the
/// system has for it. A zombie has ended.
pub open spec fn alive_by(stat: Option<Seq<char>>) -> bool {
    match stat {
        Some(s) => process_state(s).len() > 0 && process_state(s)[0] != 'Z',
        None => false,
    }
}

/// Whether a process is there and has not ended, by its status line.
pub fn process_is_alive(stat: Option<&str>) -> (r: bool)
    ensures
        r == alive_by(
            match stat {
                Some(s) => Some(s@),
                None => None,
            },
        ),
{
    match stat {
        Some(s) => {
            let v = text_chars(s);
            let n: usize = v.len();
            assert(n == v@.len());
            let mut i: usize = match find_last(&v, ')') {
                Some(k) => k + 1,
                None => 0,
            };
            let ghost rest = v@.skip(i as int);
            assert(text::last_index(s@, ')') is None ==> rest =~= s@);
            while i < v.len() && is_white(v[i])
                invariant
                    i <= v@.len(),
                    scan::trimmed_start(rest) == scan::trimmed_start(v@.skip(i as int)),
                decreases v@.len() - i,
            {
                assert(v@.skip(i as int).drop_first() =~= v@.skip(i + 1));
                i = i + 1;
            }
            assert(scan::trimmed_start(rest) == v@.skip(i as int));
            i < v.len() && v[i] != 'Z'
        },
        None => false,
    }
}

/// Whether a process is there and has not ended, by the state that `ps` reports
/// of it: it reports none of a process that is gone.
pub fn process_is_alive_by_ps(output: Option<&str>) -> (r: bool)
    ensures
        r == match output {
            Some(s) => scan::trimmed(s@).len() > 0 && scan::trimmed(s@)[0] != 'Z',
            None => false,
        },
{
    match output {
        Some(s) => {
            let state = trim(s);
            let v = text_chars(state.as_str());
            v.len() > 0 && v[0] != 'Z'
        },
        None => false,
    }
}

/// How far the ending of a process has come.
#[derive(Debug, Clone, Copy, PartialEq, Eq, Structural)]
pub enum StopPhase {
    /// It is to be asked to end.
    Asking,
    /// It was asked to end.
    Asked { deadline: u64 },
    /// It did not end and is to be killed.
    Killing,
    /// It was killed.
    Killed { deadline: u64 },
    /// It ended when asked, or did not.
    Over { ended: bool },
}

/// What is done next to end a process.
#[derive(Debug, Clone, Copy, PartialEq, Eq, Structural)]
pub enum StopStep {
    /// Ask it to end.
    SendTerm,
    /// Look whether it is alive.
    Look,
    /// Do nothing for that long.
    Pause(u64),
    /// Kill it.
    SendKill,
    /// Nothing more; whether it ended when asked.
    Finished(bool),
}

/// The ending of a process: it is asked to end, looked at until it did or the
/// time is over, and then killed.
#[derive(Debug, Clone, Copy, PartialEq, Eq, Structural)]
pub struct StopProcess {
    pub pid: u32,
    pub timeout: u64,
    pub phase: StopPhase,
}

/// Ends a process, which has a quarter of a minute to do so.
pub fn stop_pid(pid: u32) -> (s: StopProcess)
    ensures
        s == (StopProcess { pid, timeout: STOP_TIMEOUT, phase: StopPhase::Asking }),
{
    stop_pid_with_timeout(pid, STOP_TIMEOUT)
}

/// Ends a process, which has `timeout` nanoseconds to do so.
pub fn stop_pid_with_timeout(pid: u32, timeout: u64) -> (s: StopProcess)
    ensures
        s == (StopProcess { pid, timeout, phase: StopPhase::Asking }),
{
    StopProcess { pid, timeout, phase: StopPhase::Asking }
}

impl StopProcess {
    /// What is done next at a time. The process is looked at as long as there
    /// is time; then it is killed, or given up.
    pub fn at(&mut self, now: u64) -> (s: StopStep)
        ensures
            final(self).pid == old(self).pid,
            final(self).timeout == old(self).timeout,
            match old(self).phase {
                StopPhase::Asking => s == StopStep::SendTerm && final(self).phase == old(self).phase,
                StopPhase::Asked { deadline } => if now < deadline {
                    s == StopStep::Look && final(self).phase == old(self).phase
                } else {
                    s == StopStep::SendKill && final(self).phase == StopPhase::Killing
                },
                StopPhase::Killing => s == StopStep::SendKill && final(self).phase == old(self).phase,
                StopPhase::Killed { deadline } => if now < deadline {
                    s == StopStep::Look && final(self).phase == old(self).phase
                } else {
                    s == StopStep::Finished(false) && final(self).phase == (StopPhase::Over {
                        ended: false,
                    })
                },
                StopPhase::Over { ended } => s == StopStep::Finished(ended) && final(self).phase
                    == old(self).phase,
            },
    {
        match self.phase {
            StopPhase::Asking => StopStep::SendTerm,
            StopPhase::Asked { deadline } => if now < deadline {
                StopStep::Look
            } else {
                self.phase = StopPhase::Killing;
                StopStep::SendKill
            },
            StopPhase::Killing => StopStep::SendKill,
            StopPhase::Killed { deadline } => if now < deadline {
                StopStep::Look
            } else {
                self.phase = StopPhase::Over { ended: false };
                StopStep::Finished(false)
            },
            StopPhase::Over { ended } => StopStep::Finished(ended),
        }
    }

    /// Takes note that the process was asked to end. Where it could not be
    /// asked, it is gone and nothing more is done.
    pub fn asked(&mut self, success: bool, now: u64)
        requires
            old(self).phase == StopPhase::Asking,
            now + old(self).timeout <= u64::MAX,
        ensures
            final(self).pid == old(self).pid,
            final(self).timeout == old(self).timeout,
            final(self).phase == (if success {
                StopPhase::Asked { deadline: (now + old(self).timeout) as u64 }
            } else {
                StopPhase::Over { ended: false }
            }),
    {
        self.phase = if success {
            StopPhase::Asked { deadline: now + self.timeout }
        } else {
            StopPhase::Over { ended: false }
        };
    }

    /// Takes note that the process was killed.
    pub fn killed(&mut self, now: u64)
        requires
            old(self).phase == StopPhase::Killing,
            now + KILL_TIMEOUT <= u64::MAX,
        ensures
            final(self).pid == old(self).pid,
            final(self).timeout == old(self).timeout,
            final(self).phase == (StopPhase::Killed { deadline: (now + KILL_TIMEOUT) as u64 }),
    {
        self.phase = StopPhase::Killed { deadline: now + KILL_TIMEOUT };
    }

    /// Takes note of a look at the process. One that is gone before it was
    /// killed ended when asked.
    pub fn looked(&mut self, alive: bool) -> (s: StopStep)
        requires
            old(self).phase is Asked || old(self).phase is Killed,
        ensures
            final(self).pid == old(self).pid,
            final(self).timeout == old(self).timeout,
            if alive {
                s == StopStep::Pause((10 * MILLISECOND) as u64) && final(self).phase == old(self).phase
            } else {
                s == StopStep::Finished(old(self).phase is Asked) && final(self).phase == (
                StopPhase::Over { ended: old(self).phase is Asked })
            },
    {
        if alive {
            return StopStep::Pause(10 * MILLISECOND);
        }
        let ended = match self.phase {
            StopPhase::Asked { .. } => true,
            _ => false,
        };
        self.phase = StopPhase::Over { ended };
        StopStep::Finished(ended)
    }
}

/// The time spans, in nanoseconds: a server has thirty seconds to become ready,
/// a process fifteen to end once asked and two once killed.
pub proof fn lemma_time_spans()
    ensures
        MILLISECOND == 1_000_000,
        READY_TIMEOUT == 30 * 1_000 * MILLISECOND,
        STOP_TIMEOUT == 15 * 1_000 * MILLISECOND,
        KILL_TIMEOUT == 2 * 1_000 * MILLISECOND,
{
}

/// The tail of a log is its lines from the last one back, twenty at most.
pub proof fn lemma_log_tail_backwards(log: Seq<char>, tail: Seq<Seq<char>>)
    requires
        tail.len() == (if scan::lines(log).len() < 20 {
            scan::lines(log).len()
        } else {
            20
        }),
        forall|i: int|
            0 <= i < tail.len() ==> #[trigger] tail[i] == scan::lines(log)[scan::lines(log).len() - 1
                - i],
    ensures
        log_tail(log) == scan::joined(tail, "\n"@),
{
    let all = scan::lines(log);
    let n = tail.len();
    assert(Seq::new(n, |i: int| all[all.len() - 1 - i]) =~= tail);
}

/// A process is alive just where its state, the first character that is not
/// white behind its name, is not that of a zombie.
pub proof fn lemma_alive_by_state(name: Seq<char>, state: char, rest: Seq<char>)
    requires
        !scan::white(state),
        state != ')',
        forall|i: int| 0 <= i < rest.len() ==> #[trigger] rest[i] != ')',
    ensures
        alive_by(Some(name + seq![')', ' ', state] + rest)) <==> state != 'Z',
        process_state(name + seq![')', ' ', state] + rest) == seq![state] + rest,
        !alive_by(None),
        !alive_by(Some(name + seq![')'])),
{
    let stat = name + seq![')', ' ', state] + rest;
    let k = name.len() as int;
    text::lemma_last_index(stat, ')');
    assert(stat[k] == ')');
    let p = text::last_index(stat, ')')->0;
    if p > k {
        assert(stat[k + 1] == ' ');
        assert(stat[k + 2] == state);
        if p > k + 2 {
            assert(stat[p] == rest[p - k - 3]);
        }
    }
    assert(p == k);
    let behind = stat.skip(k + 1);
    assert(behind[0] == ' ');
    assert(behind.drop_first() =~= seq![state] + rest);
    assert(behind.drop_first()[0] == state);
    reveal_with_fuel(scan::trimmed_start, 3);
    let bare = name + seq![')'];
    text::lemma_last_index(bare, ')');
    assert(bare[k] == ')');
    assert(bare.skip(text::last_index(bare, ')')->0 + 1).len() == 0);
}

/// A status line without a name is its own state.
pub proof fn lemma_state_without_name(stat: Seq<char>)
    requires
        forall|i: int| 0 <= i < stat.len() ==> #[trigger] stat[i] != ')',
    ensures
        process_state(stat) == scan::trimmed_start(stat),
        stat.len() == 0 ==> !alive_by(Some(stat)),
{
    text::lemma_last_index(stat, ')');
}

} // verus!
