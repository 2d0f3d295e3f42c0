//! The monitor: what one check of a target concludes from what was
//! observed, the state kept per target, and how the polling loop answers
//! its commands. The observing (files, clocks, scripts) is the caller's.
use vstd::prelude::*;

use crate::config::{Config, TargetConfig};
use crate::status::{header_of, severity, Status};
use crate::text::{
    decimal_seq, from_utf8_lossy, join_first_lines, join_lines_seq, lines, lines_seq, same_text,
    string_of, u64_to_decimal, utf8_lossy, views,
};

verus! {

/// A point in time, carried through unchanged.
#[verifier::external_type_specification]
#[verifier::external_body]
pub struct ExSystemTime(std::time::SystemTime);

/// What the monitor knows of one target.
#[derive(Debug)]
pub struct TargetState {
    pub name: String,
    pub label: String,
    pub status: Status,
    pub tail_text: String,
    pub last_checked: std::time::SystemTime,
    pub last_modified: Option<std::time::SystemTime>,
    pub pid: Option<u32>,
}

/// A message from the monitor to the tray.
#[derive(Debug)]
pub enum MonitorUpdate {
    TargetUpdate {
        name: String,
        status: Status,
        tail_text: String,
        pid: Option<u32>,
        last_modified: Option<std::time::SystemTime>,
    },
}

/// A request from the tray to the monitor.
#[derive(Debug)]
pub enum MonitorCommand {
    PollNow,
    Quit,
    Stop { target_name: String },
    Restart { target_name: String },
}

/// The outcome of one check of a target.
#[derive(Debug)]
pub struct CheckResult {
    pub status: Status,
    pub tail_text: String,
    pub last_modified: Option<std::time::SystemTime>,
    pub pid: Option<u32>,
}

/// What was found of a target's log file.
#[derive(Debug)]
pub enum LogProbe {
    /// The file's metadata could not be read.
    Missing,
    /// The file is there. `modified` is its modification time when the
    /// system gives one; `age_secs` and `age_nanos` are then the time since
    /// that moment (zero if it lies in the future).
    Found { modified: Option<std::time::SystemTime>, age_secs: u64, age_nanos: u32 },
}

/// What running a target's check script gave.
#[derive(Debug)]
pub enum ScriptOutcome {
    /// The script ran to its end.
    Finished { stdout: Vec<u8>, stderr: Vec<u8>, success: bool },
    /// The script did not end within the time allowed.
    TimedOut,
    /// The script could not be started; `message` says why.
    LaunchFailed { message: String },
}

/// Everything observed of a target in one poll: its log (when it has one),
/// its script's outcome (when it has a script) and its running process
/// (when it names a pid file or a pid pattern).
#[derive(Debug)]
pub struct TargetProbe {
    pub log: Option<LogProbe>,
    pub script: Option<ScriptOutcome>,
    pub pid: Option<u32>,
}

/// How long a script may run: twice the poll interval.
pub fn script_timeout_secs(config: &Config) -> (r: u64)
    requires
        config.poll_interval_secs * 2 <= u64::MAX,
    ensures
        r == config.poll_interval_secs * 2,
{
    config.poll_interval_secs * 2
}

// ---------------------------------------------------------------------
// Reading a script's output
// ---------------------------------------------------------------------

/// At most the first 50 lines.
pub open spec fn first_50(ls: Seq<Seq<char>>) -> Seq<Seq<char>> {
    ls.take(if ls.len() < 50 { ls.len() as int } else { 50 })
}

/// The status and tail text that a finished script reports, from its
/// decoded output: the exit status gives `Okay` or `Error` unless the
/// first line of standard output is a status header, which then wins and
/// is dropped; the tail is the first 50 remaining lines, or, when none
/// remain, the first 50 lines of standard error.
pub open spec fn script_report(out: Seq<char>, err: Seq<char>, success: bool) -> (Status, Seq<char>) {
    let ls = lines_seq(out);
    let base = if success {
        Status::Okay
    } else {
        Status::Error
    };
    let has_header = ls.len() > 0 && header_of(ls[0]) is Some;
    let status = if has_header {
        header_of(ls[0])->0
    } else {
        base
    };
    let rest = if has_header {
        ls.drop_first()
    } else {
        ls
    };
    let tail = if rest.len() == 0 {
        if err.len() > 0 {
            join_lines_seq(first_50(lines_seq(err)))
        } else {
            Seq::empty()
        }
    } else {
        join_lines_seq(first_50(rest))
    };
    (status, tail)
}

/// The status and tail text that a finished script reports, from the bytes
/// it wrote and whether it exited successfully.
pub fn interpret_script_output(stdout: &[u8], stderr: &[u8], success: bool) -> (r: (Status, String))
    ensures
        (r.0, r.1@) == script_report(utf8_lossy(stdout@), utf8_lossy(stderr@), success),
{
    let out = from_utf8_lossy(stdout);
    let err = from_utf8_lossy(stderr);
    let mut ls = lines(out.as_str());
    let ghost all = views(ls@);
    let mut status = if success {
        Status::Okay
    } else {
        Status::Error
    };
    let mut header_found = false;
    if ls.len() > 0 {
        assert(views(ls@)[0] == ls@[0]@);
        match Status::from_header(ls[0].as_str()) {
            Some(h) => {
                status = h;
                ls.remove(0);
                header_found = true;
                assert(views(ls@) =~= all.drop_first());
            },
            None => {},
        }
    }
    let tail = if ls.len() == 0 {
        if !err.as_str().is_empty() {
            let err_lines = lines(err.as_str());
            join_first_lines(&err_lines, 50)
        } else {
            String::new()
        }
    } else {
        join_first_lines(&ls, 50)
    };
    (status, tail)
}

/// What a script outcome reports: the finished script's report, `Error`
/// with `(timed out)` after a time-out, or the failure to start it.
pub open spec fn script_result(o: ScriptOutcome) -> Result<(Status, Seq<char>), Seq<char>> {
    match o {
        ScriptOutcome::Finished { stdout, stderr, success } => Ok(
            script_report(utf8_lossy(stdout@), utf8_lossy(stderr@), success),
        ),
        ScriptOutcome::TimedOut => Ok((Status::Error, "(timed out)"@)),
        ScriptOutcome::LaunchFailed { message } => Err("failed to run script: "@ + message@),
    }
}

/// What a script outcome reports, or why the script could not be run.
pub fn interpret_script_outcome(o: &ScriptOutcome) -> (r: Result<(Status, String), String>)
    ensures
        match (r, script_result(*o)) {
            (Ok((s, t)), Ok((s2, t2))) => s == s2 && t@ == t2,
            (Err(e), Err(e2)) => e@ == e2,
            _ => false,
        },
{
    match o {
        ScriptOutcome::Finished { stdout, stderr, success } => Ok(
            interpret_script_output(stdout.as_slice(), stderr.as_slice(), *success),
        ),
        ScriptOutcome::TimedOut => Ok((Status::Error, string_of("(timed out)"))),
        ScriptOutcome::LaunchFailed { message } => {
            let mut e = string_of("failed to run script: ");
            e.append(message.as_str());
            Err(e)
        },
    }
}

// ---------------------------------------------------------------------
// One check
// ---------------------------------------------------------------------

/// Seconds after which an unchanged log counts as stalled: the target's
/// `stoppage_after_secs`, 600 when unset.
pub open spec fn stoppage_secs(t: TargetConfig) -> u64 {
    match t.stoppage_after_secs {
        Some(s) => s,
        None => 600,
    }
}

/// An age of `secs` seconds and `nanos` nanoseconds is longer than `limit`
/// whole seconds.
pub open spec fn age_exceeds(secs: u64, nanos: u32, limit: u64) -> bool {
    secs > limit || (secs == limit && nanos > 0)
}

/// What the log check concludes: status, tail text, modification time.
pub open spec fn log_check(t: TargetConfig, log: Option<LogProbe>) -> (Status, Seq<char>, Option<std::time::SystemTime>) {
    if t.log is Some && log is Some {
        match log->0 {
            LogProbe::Missing => (Status::Error, "log file not found: "@ + t.log->0@, None),
            LogProbe::Found { modified, age_secs, age_nanos } => match modified {
                Some(m) => if age_exceeds(age_secs, age_nanos, stoppage_secs(t)) {
                    (
                        Status::Warn,
                        "log unchanged for "@ + decimal_seq(stoppage_secs(t) as nat) + "s"@,
                        Some(m),
                    )
                } else {
                    (Status::Okay, Seq::empty(), Some(m))
                },
                None => (Status::Okay, Seq::empty(), None),
            },
        }
    } else {
        (Status::Okay, Seq::empty(), None)
    }
}

/// The target names a way to find its process.
pub open spec fn tracks_pid(t: TargetConfig) -> bool {
    t.pid_file is Some || t.pid_pattern is Some
}

/// What one check of a target concludes, as (status, tail text,
/// modification time, pid): the log check first; then the script, whose
/// report replaces status and tail; then, for a target that tracks its
/// process, a missing pid turns an `Okay` into `Warn` with `pid not found`.
pub open spec fn check_outcome(t: TargetConfig, p: TargetProbe) -> (Status, Seq<char>, Option<std::time::SystemTime>, Option<u32>) {
    let (s1, tail1, modified) = log_check(t, p.log);
    let (s2, tail2) = if t.script is Some && p.script is Some {
        match script_result(p.script->0) {
            Ok((s, tail)) => (s, tail),
            Err(e) => (Status::Error, "script error: "@ + e),
        }
    } else {
        (s1, tail1)
    };
    if tracks_pid(t) {
        if p.pid is None && s2 == Status::Okay {
            (Status::Warn, "pid not found"@, modified, None)
        } else {
            (s2, tail2, modified, p.pid)
        }
    } else {
        (s2, tail2, modified, None)
    }
}

/// Checks a target from what was observed of it.
pub fn check_target(target: &TargetConfig, probe: &TargetProbe) -> (r: CheckResult)
    ensures
        (r.status, r.tail_text@, r.last_modified, r.pid) == check_outcome(*target, *probe),
{
    let mut status = Status::Okay;
    let mut tail_text = String::new();
    let mut last_modified: Option<std::time::SystemTime> = None;
    let mut pid: Option<u32> = None;
    if let Some(log_path) = &target.log {
        if let Some(log) = &probe.log {
            match log {
                LogProbe::Missing => {
                    status = Status::Error;
                    let mut t = string_of("log file not found: ");
                    t.append(log_path.as_str());
                    tail_text = t;
                },
                LogProbe::Found { modified, age_secs, age_nanos } => {
                    if let Some(m) = modified {
                        last_modified = Some(*m);
                        let stoppage = match target.stoppage_after_secs {
                            Some(s) => s,
                            None => 600,
                        };
                        if (*age_secs > stoppage || (*age_secs == stoppage && *age_nanos > 0))
                            && status == Status::Okay {
                            status = Status::Warn;
                            let mut t = string_of("log unchanged for ");
                            let digits = u64_to_decimal(stoppage);
                            t.append(digits.as_str());
                            t.append("s");
                            tail_text = t;
                        }
                    }
                },
            }
        }
    }
    if target.script.is_some() {
        if let Some(outcome) = &probe.script {
            match interpret_script_outcome(outcome) {
                Ok((s, t)) => {
                    status = s;
                    tail_text = t;
                },
                Err(e) => {
                    status = Status::Error;
                    let mut t = string_of("script error: ");
                    t.append(e.as_str());
                    tail_text = t;
                },
            }
        }
    }
    if target.pid_file.is_some() || target.pid_pattern.is_some() {
        pid = probe.pid;
        if pid.is_none() && status == Status::Okay {
            status = Status::Warn;
            tail_text = string_of("pid not found");
        }
    }
    CheckResult { status, tail_text, last_modified, pid }
}


// ---------------------------------------------------------------------
// The state kept per target
// ---------------------------------------------------------------------

/// The label shown for a target: its own label, or its name.
pub open spec fn label_of(t: TargetConfig) -> Seq<char> {
    match t.label {
        Some(l) => l@,
        None => t.name@,
    }
}

/// No two states share a name.
pub open spec fn unique_names(states: Seq<TargetState>) -> bool {
    forall|i: int, j: int|
        0 <= i < states.len() && 0 <= j < states.len() && i != j ==> (#[trigger] states[i]).name@
            != (#[trigger] states[j]).name@
}

/// Target `j` is the last of the first `k` targets that has its name.
pub open spec fn last_of_name(ts: Seq<TargetConfig>, k: int, j: int) -> bool {
    &&& 0 <= j < k
    &&& forall|m: int| j < m < k ==> (#[trigger] ts[m]).name@ != ts[j].name@
}

/// The states that the monitor starts from, for the first `k` targets:
/// one per distinct name, labelled as the last target of that name, all
/// `Okay` with no tail, checked at `now`, with no modification time and no
/// pid.
pub open spec fn initial_states(ts: Seq<TargetConfig>, k: int, states: Seq<TargetState>, now: std::time::SystemTime) -> bool {
    &&& unique_names(states)
    &&& forall|j: int| 0 <= j < k ==> exists|i: int| 0 <= i < states.len() && (#[trigger] states[i]).name@ == (#[trigger] ts[j]).name@
    &&& forall|i: int| 0 <= i < states.len() ==> exists|j: int| last_of_name(ts, k, j) && (#[trigger] ts[j]).name@ == (#[trigger] states[i]).name@ && states[i].label@ == label_of(ts[j])
    &&& forall|i: int| 0 <= i < states.len() ==> {
        &&& (#[trigger] states[i]).status == Status::Okay
        &&& states[i].tail_text@.len() == 0
        &&& states[i].last_checked == now
        &&& states[i].last_modified is None
        &&& states[i].pid is None
    }
}

/// The per-target states of the monitor, one per target name.
#[derive(Debug)]
pub struct MonitorStates {
    pub states: Vec<TargetState>,
}

/// The position of the state named `name`, if any.
pub fn find_state(states: &Vec<TargetState>, name: &str) -> (r: Option<usize>)
    ensures
        match r {
            Some(i) => i < states.len() && states@[i as int].name@ == name@ && forall|m: int|
                0 <= m < i ==> (#[trigger] states@[m]).name@ != name@,
            None => forall|i: int| 0 <= i < states.len() ==> (#[trigger] states@[i]).name@ != name@,
        },
{
    let mut i: usize = 0;
    while i < states.len()
        invariant
            i <= states.len(),
            forall|m: int| 0 <= m < i ==> (#[trigger] states@[m]).name@ != name@,
        decreases states.len() - i,
    {
        if same_text(states[i].name.as_str(), name) {
            return Some(i);
        }
        i = i + 1;
    }
    None
}

impl MonitorStates {
    /// The starting states for the targets of a configuration.
    pub fn new(config: &Config, now: std::time::SystemTime) -> (r: MonitorStates)
        ensures
            initial_states(config.targets@, config.targets@.len() as int, r.states@, now),
            covers(config.targets@, r.states@),
    {
        let ghost ts = config.targets@;
        let mut states: Vec<TargetState> = Vec::new();
        let mut k: usize = 0;
        while k < config.targets.len()
            invariant
                ts == config.targets@,
                k <= ts.len(),
                initial_states(ts, k as int, states@, now),
            decreases ts.len() - k,
        {
            let t = &config.targets[k];
            let label = match &t.label {
                Some(l) => l.clone(),
                None => t.name.clone(),
            };
            let fresh = TargetState {
                name: t.name.clone(),
                label,
                status: Status::Okay,
                tail_text: String::new(),
                last_checked: now,
                last_modified: None,
                pid: None,
            };
            let ghost before = states@;
            match find_state(&states, t.name.as_str()) {
                Some(i) => {
                    states.set(i, fresh);
                    proof {
                        assert forall|a: int, b: int|
                            0 <= a < states@.len() && 0 <= b < states@.len() && a != b implies (#[trigger] states@[a]).name@
                                != (#[trigger] states@[b]).name@ by {
                            assert(before[a].name@ != before[b].name@);
                        }
                        assert forall|j: int| 0 <= j < k + 1 implies exists|m: int| 0 <= m < states@.len() && (#[trigger] states@[m]).name@ == (#[trigger] ts[j]).name@ by {
                            if j < k {
                                let m = choose|m: int| 0 <= m < before.len() && (#[trigger] before[m]).name@ == ts[j].name@;
                                assert(states@[m].name@ == before[m].name@);
                            } else {
                                assert(states@[i as int].name@ == ts[j].name@);
                            }
                        }
                        assert forall|m: int| 0 <= m < states@.len() implies exists|j: int| last_of_name(ts, k + 1, j) && (#[trigger] ts[j]).name@ == (#[trigger] states@[m]).name@ && states@[m].label@ == label_of(ts[j]) by {
                            if m == i {
                                assert(last_of_name(ts, k + 1, k as int));
                                assert(ts[k as int].name@ == states@[m].name@);
                            } else {
                                let j = choose|j: int| last_of_name(ts, k as int, j) && (#[trigger] ts[j]).name@ == (#[trigger] before[m]).name@ && before[m].label@ == label_of(ts[j]);
                                assert(before[m].name@ != before[i as int].name@);
                                assert(last_of_name(ts, k + 1, j));
                            }
                        }
                    }
                },
                None => {
                    states.push(fresh);
                    proof {
                        assert forall|a: int, b: int|
                            0 <= a < states@.len() && 0 <= b < states@.len() && a != b implies (#[trigger] states@[a]).name@
                                != (#[trigger] states@[b]).name@ by {
                            if a < before.len() && b < before.len() {
                                assert(before[a].name@ != before[b].name@);
                            }
                        }
                        assert forall|j: int| 0 <= j < k + 1 implies exists|m: int| 0 <= m < states@.len() && (#[trigger] states@[m]).name@ == (#[trigger] ts[j]).name@ by {
                            if j < k {
                                let m = choose|m: int| 0 <= m < before.len() && (#[trigger] before[m]).name@ == ts[j].name@;
                                assert(states@[m] == before[m]);
                            } else {
                                assert(states@[before.len() as int].name@ == ts[j].name@);
                            }
                        }
                        assert forall|m: int| 0 <= m < states@.len() implies exists|j: int| last_of_name(ts, k + 1, j) && (#[trigger] ts[j]).name@ == (#[trigger] states@[m]).name@ && states@[m].label@ == label_of(ts[j]) by {
                            if m == before.len() {
                                assert(last_of_name(ts, k + 1, k as int));
                                assert(ts[k as int].name@ == states@[m].name@);
                            } else {
                                assert(states@[m] == before[m]);
                                let j = choose|j: int| last_of_name(ts, k as int, j) && (#[trigger] ts[j]).name@ == (#[trigger] before[m]).name@ && before[m].label@ == label_of(ts[j]);
                                assert(last_of_name(ts, k + 1, j));
                            }
                        }
                    }
                },
            }
            k = k + 1;
        }
        proof {
            Self::lemma_new_covers(ts, states@, now);
        }
        MonitorStates { states }
    }

    /// Records the check of a target in its state and returns the update to
    /// send to the tray; `None` when no state has the target's name.
    pub fn record(&mut self, target: &TargetConfig, result: &CheckResult, now: std::time::SystemTime) -> (r: Option<MonitorUpdate>)
        ensures
            match find_index(old(self).states@, target.name@) {
                Some(i) => {
                    &&& final(self).states@ == old(self).states@.update(i, TargetState {
                        name: old(self).states@[i].name,
                        label: old(self).states@[i].label,
                        status: result.status,
                        tail_text: result.tail_text,
                        last_checked: now,
                        last_modified: result.last_modified,
                        pid: result.pid,
                    })
                    &&& r matches Some(MonitorUpdate::TargetUpdate { name, status, tail_text, pid, last_modified })
                    &&& name@ == target.name@
                    &&& status == result.status
                    &&& tail_text == result.tail_text
                    &&& pid == result.pid
                    &&& last_modified == result.last_modified
                },
                None => final(self).states@ == old(self).states@ && r is None,
            },
    {
        match find_state(&self.states, target.name.as_str()) {
            Some(i) => {
                proof {
                    lemma_find_index_first(old(self).states@, target.name@, i as int);
                }
                let state = TargetState {
                    name: self.states[i].name.clone(),
                    label: self.states[i].label.clone(),
                    status: result.status,
                    tail_text: result.tail_text.clone(),
                    last_checked: now,
                    last_modified: result.last_modified,
                    pid: result.pid,
                };
                self.states.set(i, state);
                Some(MonitorUpdate::TargetUpdate {
                    name: target.name.clone(),
                    status: result.status,
                    tail_text: result.tail_text.clone(),
                    pid: result.pid,
                    last_modified: result.last_modified,
                })
            },
            None => {
                proof {
                    lemma_find_index_absent(old(self).states@, target.name@);
                }
                None
            },
        }
    }
}

/// `i` is the position of the first state named `name`.
pub open spec fn first_state_named(states: Seq<TargetState>, name: Seq<char>, i: int) -> bool {
    &&& 0 <= i < states.len()
    &&& states[i].name@ == name
    &&& forall|m: int| 0 <= m < i ==> (#[trigger] states[m]).name@ != name
}

/// The position of the first state named `name`.
pub open spec fn find_index(states: Seq<TargetState>, name: Seq<char>) -> Option<int> {
    if exists|i: int| first_state_named(states, name, i) {
        Some(choose|i: int| first_state_named(states, name, i))
    } else {
        None
    }
}

pub proof fn lemma_find_index_first(states: Seq<TargetState>, name: Seq<char>, i: int)
    requires
        first_state_named(states, name, i),
    ensures
        find_index(states, name) == Some(i),
{
    let c = choose|c: int| first_state_named(states, name, c);
    if c < i {
        assert(states[c].name@ != name);
    } else if c > i {
        assert(states[i].name@ != name);
    }
}

pub proof fn lemma_find_index_absent(states: Seq<TargetState>, name: Seq<char>)
    requires
        forall|i: int| 0 <= i < states.len() ==> (#[trigger] states[i]).name@ != name,
    ensures
        find_index(states, name) is None,
{
    if exists|i: int| first_state_named(states, name, i) {
        let c = choose|c: int| first_state_named(states, name, c);
        assert(states[c].name@ != name);
    }
}


/// Every target of the configuration has a state from the start, so each
/// poll reports every target.
pub proof fn lemma_every_target_reported(ts: Seq<TargetConfig>, states: Seq<TargetState>, now: std::time::SystemTime, j: int)
    requires
        initial_states(ts, ts.len() as int, states, now),
        0 <= j < ts.len(),
    ensures
        find_index(states, ts[j].name@) is Some,
{
    let i = choose|i: int| 0 <= i < states.len() && (#[trigger] states[i]).name@ == (#[trigger] ts[j]).name@;
    assert(states[i].name@ == ts[j].name@);
    assert(exists|f: int| first_state_named(states, ts[j].name@, f)) by {
        lemma_first_of_name_exists(states, ts[j].name@, i);
    }
}

pub proof fn lemma_first_of_name_exists(states: Seq<TargetState>, name: Seq<char>, i: int)
    requires
        0 <= i < states.len(),
        states[i].name@ == name,
    ensures
        exists|f: int| first_state_named(states, name, f),
    decreases i,
{
    if exists|m: int| 0 <= m < i && (#[trigger] states[m]).name@ == name {
        let m = choose|m: int| 0 <= m < i && (#[trigger] states[m]).name@ == name;
        lemma_first_of_name_exists(states, name, m);
    } else {
        assert(first_state_named(states, name, i));
    }
}

/// Recording a check changes no state's name, so the states stay one per
/// name and keep covering the same targets.
pub proof fn lemma_record_keeps_names(states: Seq<TargetState>, i: int, s: TargetState)
    requires
        0 <= i < states.len(),
        s.name == states[i].name,
    ensures
        forall|k: int| 0 <= k < states.len() ==> (#[trigger] states.update(i, s)[k]).name == states[k].name,
        unique_names(states) ==> unique_names(states.update(i, s)),
{
    let u = states.update(i, s);
    assert forall|k: int| 0 <= k < states.len() implies (#[trigger] u[k]).name == states[k].name by {}
    if unique_names(states) {
        assert forall|a: int, b: int|
            0 <= a < u.len() && 0 <= b < u.len() && a != b implies (#[trigger] u[a]).name@
                != (#[trigger] u[b]).name@ by {
            assert(u[a].name == states[a].name);
            assert(u[b].name == states[b].name);
        }
    }
}

// ---------------------------------------------------------------------
// The polling loop's answers to commands
// ---------------------------------------------------------------------

/// Where in the polling loop a command arrives.
#[derive(Debug, Clone, Copy, PartialEq, Eq, Structural)]
pub enum CommandPhase {
    /// The one look at the queue before a round of checks.
    BeforeChecks,
    /// Emptying the queue before the checks.
    Draining,
    /// Waiting, after the checks, for the next round.
    Waiting,
}

/// What the polling loop does about a command.
#[derive(Debug)]
pub enum MonitorAction {
    /// Go on with the loop.
    Proceed,
    /// Leave the loop.
    EndLoop,
    /// Send this update, then end the process.
    NotifyAndExit(MonitorUpdate),
    /// Stop the named target.
    StopTarget(String),
    /// Restart the named target.
    RestartTarget(String),
}

/// The update sent just before the monitor ends the process: an empty
/// name, `Okay`, no tail, no pid, no modification time.
pub open spec fn is_farewell(u: MonitorUpdate) -> bool {
    match u {
        MonitorUpdate::TargetUpdate { name, status, tail_text, pid, last_modified } => {
            &&& name@.len() == 0
            &&& status == Status::Okay
            &&& tail_text@.len() == 0
            &&& pid is None
            &&& last_modified is None
        },
    }
}

/// What the polling loop does about a command, by where it arrives: a
/// `Quit` ends the loop, except while draining, where it sends the farewell
/// update and ends the process; while draining, `Stop` and `Restart` act
/// on their target; any other command is passed over.
pub fn command_action(cmd: MonitorCommand, phase: CommandPhase) -> (r: MonitorAction)
    ensures
        match (cmd, phase) {
            (MonitorCommand::Quit, CommandPhase::Draining) => r matches MonitorAction::NotifyAndExit(u) && is_farewell(u),
            (MonitorCommand::Quit, _) => r is EndLoop,
            (MonitorCommand::Stop { target_name }, CommandPhase::Draining) => r == MonitorAction::StopTarget(target_name),
            (MonitorCommand::Restart { target_name }, CommandPhase::Draining) => r == MonitorAction::RestartTarget(target_name),
            _ => r is Proceed,
        },
{
    match (cmd, phase) {
        (MonitorCommand::Quit, CommandPhase::Draining) => MonitorAction::NotifyAndExit(
            MonitorUpdate::TargetUpdate {
                name: String::new(),
                status: Status::Okay,
                tail_text: String::new(),
                pid: None,
                last_modified: None,
            },
        ),
        (MonitorCommand::Quit, _) => MonitorAction::EndLoop,
        (MonitorCommand::Stop { target_name }, CommandPhase::Draining) => MonitorAction::StopTarget(target_name),
        (MonitorCommand::Restart { target_name }, CommandPhase::Draining) => MonitorAction::RestartTarget(target_name),
        _ => MonitorAction::Proceed,
    }
}

/// Two state lists with the same names at the same places find the same
/// position for every name.
pub proof fn lemma_find_index_same_names(a: Seq<TargetState>, b: Seq<TargetState>, name: Seq<char>)
    requires
        a.len() == b.len(),
        forall|k: int| 0 <= k < a.len() ==> (#[trigger] a[k]).name@ == b[k].name@,
    ensures
        find_index(a, name) == find_index(b, name),
{
    if exists|i: int| first_state_named(a, name, i) {
        let i = choose|i: int| first_state_named(a, name, i);
        assert forall|m: int| 0 <= m < i implies (#[trigger] b[m]).name@ != name by {
            assert(a[m].name@ == b[m].name@);
        }
        assert(a[i].name@ == b[i].name@);
        assert(first_state_named(b, name, i));
        lemma_find_index_first(a, name, i);
        lemma_find_index_first(b, name, i);
    } else {
        if exists|i: int| first_state_named(b, name, i) {
            let i = choose|i: int| first_state_named(b, name, i);
            assert forall|m: int| 0 <= m < i implies (#[trigger] a[m]).name@ != name by {
                assert(a[m].name@ == b[m].name@);
            }
            assert(a[i].name@ == b[i].name@);
            assert(first_state_named(a, name, i));
        }
    }
}

/// Every target has a state under its name.
pub open spec fn covers(ts: Seq<TargetConfig>, states: Seq<TargetState>) -> bool {
    forall|j: int| 0 <= j < ts.len() ==> (#[trigger] find_index(states, ts[j].name@)) is Some
}

/// The update reports the check `c` of target `t`.
pub open spec fn reports_check(u: MonitorUpdate, t: TargetConfig, c: CheckResult) -> bool {
    match u {
        MonitorUpdate::TargetUpdate { name, status, tail_text, pid, last_modified } => {
            &&& name@ == t.name@
            &&& status == c.status
            &&& tail_text == c.tail_text
            &&& pid == c.pid
            &&& last_modified == c.last_modified
        },
    }
}

/// The state holds what the round's entry found.
pub open spec fn holds_entry(s: TargetState, e: RoundEntry) -> bool {
    &&& s.status == e.result.status
    &&& s.tail_text == e.result.tail_text
    &&& s.last_checked == e.checked_at
    &&& s.last_modified == e.result.last_modified
    &&& s.pid == e.result.pid
}

/// One target's check in a polling round, with the moment it was made.
#[derive(Debug)]
pub struct RoundEntry {
    pub result: CheckResult,
    pub checked_at: std::time::SystemTime,
}

impl MonitorStates {
    /// The starting states cover every target and hold one state per name.
    proof fn lemma_new_covers(ts: Seq<TargetConfig>, states: Seq<TargetState>, now: std::time::SystemTime)
        requires
            initial_states(ts, ts.len() as int, states, now),
        ensures
            covers(ts, states),
            unique_names(states),
    {
        assert forall|j: int| 0 <= j < ts.len() implies (#[trigger] find_index(states, ts[j].name@)) is Some by {
            lemma_every_target_reported(ts, states, now, j);
        }
    }

    /// Records one polling round: the checks of all targets, in
    /// configuration order. Each target yields one update, in that order,
    /// reporting its check; each state then holds the check of the last
    /// target of its name; names and labels stay as they were.
    pub fn record_round(&mut self, targets: &Vec<TargetConfig>, entries: &Vec<RoundEntry>) -> (r: Vec<MonitorUpdate>)
        requires
            entries.len() == targets.len(),
            covers(targets@, old(self).states@),
            unique_names(old(self).states@),
        ensures
            r.len() == targets.len(),
            forall|i: int| 0 <= i < r.len() ==> reports_check(#[trigger] r@[i], targets@[i], entries@[i].result),
            final(self).states@.len() == old(self).states@.len(),
            forall|k: int| 0 <= k < old(self).states@.len() ==> {
                &&& (#[trigger] final(self).states@[k]).name == old(self).states@[k].name
                &&& final(self).states@[k].label == old(self).states@[k].label
            },
            forall|k: int, j: int|
                0 <= k < old(self).states@.len() && last_of_name(targets@, targets@.len() as int, j)
                    && (#[trigger] targets@[j]).name@ == (#[trigger] old(self).states@[k]).name@
                    ==> holds_entry(final(self).states@[k], entries@[j]),
            forall|k: int|
                0 <= k < old(self).states@.len() && (forall|j: int| 0 <= j < targets@.len() ==> (#[trigger] targets@[j]).name@ != old(self).states@[k].name@)
                    ==> #[trigger] final(self).states@[k] == old(self).states@[k],
            covers(targets@, final(self).states@),
            unique_names(final(self).states@),
    {
        let ghost s0 = self.states@;
        let ghost ts = targets@;
        let mut r: Vec<MonitorUpdate> = Vec::new();
        let mut i: usize = 0;
        while i < targets.len()
            invariant
                ts == targets@,
                entries.len() == targets.len(),
                i <= targets.len(),
                covers(ts, s0),
                unique_names(s0),
                r.len() == i,
                forall|m: int| 0 <= m < r.len() ==> reports_check(#[trigger] r@[m], ts[m], entries@[m].result),
                self.states@.len() == s0.len(),
                forall|k: int| 0 <= k < s0.len() ==> {
                    &&& (#[trigger] self.states@[k]).name == s0[k].name
                    &&& self.states@[k].label == s0[k].label
                },
                forall|k: int, j: int|
                    0 <= k < s0.len() && last_of_name(ts, i as int, j) && (#[trigger] ts[j]).name@ == (#[trigger] s0[k]).name@
                        ==> holds_entry(self.states@[k], entries@[j]),
                forall|k: int|
                    0 <= k < s0.len() && (forall|j: int| 0 <= j < i ==> (#[trigger] ts[j]).name@ != s0[k].name@)
                        ==> #[trigger] self.states@[k] == s0[k],
            decreases targets.len() - i,
        {
            let ghost before = self.states@;
            let ghost name = ts[i as int].name@;
            proof {
                assert forall|k: int| 0 <= k < s0.len() implies (#[trigger] s0[k]).name@ == before[k].name@ by {
                    assert(before[k].name == s0[k].name);
                }
                lemma_find_index_same_names(s0, before, name);
                assert(find_index(s0, ts[i as int].name@) is Some);
            }
            let ghost k0 = find_index(before, name)->0;
            proof {
                let c = choose|c: int| first_state_named(before, name, c);
                assert(first_state_named(before, name, k0));
            }
            let e = &entries[i];
            let u = self.record(&targets[i], &e.result, e.checked_at);
            match u {
                Some(u) => {
                    r.push(u);
                },
                None => {
                    assert(false);
                },
            }
            proof {
                assert(self.states@ == before.update(k0, self.states@[k0]));
                assert forall|k: int, j: int|
                    0 <= k < s0.len() && last_of_name(ts, i + 1, j) && (#[trigger] ts[j]).name@ == (#[trigger] s0[k]).name@
                        implies holds_entry(self.states@[k], entries@[j]) by {
                    if k == k0 {
                        if j != i {
                            assert(ts[i as int].name@ == s0[k].name@);
                        }
                    } else {
                        assert(s0[k].name@ != s0[k0].name@);
                        assert(j != i);
                        assert(last_of_name(ts, i as int, j));
                    }
                }
                assert forall|k: int|
                    0 <= k < s0.len() && (forall|j: int| 0 <= j < i + 1 ==> (#[trigger] ts[j]).name@ != s0[k].name@)
                        implies #[trigger] self.states@[k] == s0[k] by {
                    assert(ts[i as int].name@ != s0[k].name@);
                    assert(k != k0);
                }
            }
            i = i + 1;
        }
        proof {
            assert forall|k: int| 0 <= k < s0.len() implies (#[trigger] s0[k]).name@ == self.states@[k].name@ by {
                assert(self.states@[k].name == s0[k].name);
            }
            assert forall|j: int| 0 <= j < ts.len() implies (#[trigger] find_index(self.states@, ts[j].name@)) is Some by {
                lemma_find_index_same_names(s0, self.states@, ts[j].name@);
            }
            assert forall|a: int, b: int|
                0 <= a < self.states@.len() && 0 <= b < self.states@.len() && a != b implies (#[trigger] self.states@[a]).name@
                    != (#[trigger] self.states@[b]).name@ by {
                assert(self.states@[a].name == s0[a].name);
                assert(self.states@[b].name == s0[b].name);
            }
        }
        r
    }
}

/// The stdout lines a script leaves after its optional status header.
pub open spec fn stdout_body_lines(out: Seq<char>) -> Seq<Seq<char>> {
    let ls = lines_seq(out);
    if ls.len() > 0 && header_of(ls[0]) is Some {
        ls.drop_first()
    } else {
        ls
    }
}

/// Standard output wins the tail: when at least one line of standard
/// output remains after the optional status header, the tail is the first
/// 50 of those lines joined by newlines, whatever standard error holds;
/// two runs that differ only in standard error report the same tail.
pub proof fn lemma_stdout_lines_make_the_tail(out: Seq<char>, err: Seq<char>, err2: Seq<char>, success: bool)
    requires
        stdout_body_lines(out).len() > 0,
    ensures
        script_report(out, err, success).1 == join_lines_seq(
            stdout_body_lines(out).take(
                if stdout_body_lines(out).len() < 50 { stdout_body_lines(out).len() as int } else { 50 },
            ),
        ),
        script_report(out, err, success).1 == script_report(out, err2, success).1,
{
}

/// A script's own report is never hidden by the other checks: when the
/// target has a script and it ran, the check's status is at least as
/// severe as the script's; a script `Error` comes out unchanged with the
/// script's tail; and the status differs from the script's only when a
/// tracked process was not found and turned an `Okay` into `Warn`.
pub proof fn lemma_script_report_kept(t: TargetConfig, p: TargetProbe, s: Status, tail: Seq<char>)
    requires
        t.script is Some,
        p.script is Some,
        script_result(p.script->0) == Ok::<(Status, Seq<char>), Seq<char>>((s, tail)),
    ensures
        severity(check_outcome(t, p).0) >= severity(s),
        s == Status::Error ==> check_outcome(t, p).0 == Status::Error && check_outcome(t, p).1 == tail,
        check_outcome(t, p).0 != s ==> s == Status::Okay && check_outcome(t, p).0 == Status::Warn
            && p.pid is None && (t.pid_file is Some || t.pid_pattern is Some),
{
}

/// When no line of standard output remains after the optional header, the
/// tail is the first 50 lines of standard error, joined by newlines (empty
/// when standard error is empty). The status never depends on standard
/// error: a status header on the first stdout line decides it, and
/// otherwise the exit status does (`Okay` on success, `Error` otherwise).
pub proof fn lemma_stderr_only_as_fallback(out: Seq<char>, err: Seq<char>, err2: Seq<char>, success: bool)
    ensures
        stdout_body_lines(out).len() == 0 ==> script_report(out, err, success).1 == (if err.len() == 0 {
            Seq::<char>::empty()
        } else {
            join_lines_seq(lines_seq(err).take(if lines_seq(err).len() < 50 { lines_seq(err).len() as int } else { 50 }))
        }),
        script_report(out, err, success).0 == script_report(out, err2, success).0,
        script_report(out, err, success).0 == (if lines_seq(out).len() > 0 && header_of(lines_seq(out)[0]) is Some {
            header_of(lines_seq(out)[0])->0
        } else if success {
            Status::Okay
        } else {
            Status::Error
        }),
{
}

} // verus!
