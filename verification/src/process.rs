//! Finding, stopping and restarting the process of a target: the decisions
//! and the texts; the signals and the spawning stay with the caller.
use vstd::prelude::*;

use crate::config::{Config, TargetConfig};
use crate::text::{
    contains, from_utf8_lossy, has_substring, i8_to_decimal, lines, lines_seq, parse_u32,
    parse_u32_seq, signed_decimal_seq, split_whitespace, string_of, trim, trim_seq, u64_to_decimal,
    decimal_seq, opt_view, utf8_lossy, views, words_seq,
};

verus! {

/// The pid that the content of a pid file names: the content trimmed of
/// white space, read as a decimal `u32`.
pub fn parse_pid(content: &str) -> (r: Option<u32>)
    ensures
        r == parse_u32_seq(trim_seq(content@)),
{
    let t = trim(content);
    parse_u32(t.as_str())
}

/// The directory that exists under `/proc` while process `pid` runs.
pub fn proc_path(pid: u32) -> (r: String)
    ensures
        r@ == "/proc/"@ + decimal_seq(pid as nat),
{
    let mut r = string_of("/proc/");
    let digits = u64_to_decimal(pid as u64);
    r.append(digits.as_str());
    r
}

/// A `ps aux` line names a process of the pattern: it holds the pattern
/// and is not the line of a `grep`.
pub open spec fn ps_line_matches(line: Seq<char>, pattern: Seq<char>) -> bool {
    has_substring(line, pattern) && !has_substring(line, "grep"@)
}

/// The pid column of a `ps aux` line: its second word, read as a decimal
/// `u32`.
pub open spec fn ps_line_pid(line: Seq<char>) -> Option<u32> {
    let w = words_seq(line);
    if w.len() > 1 {
        parse_u32_seq(w[1])
    } else {
        None
    }
}

/// The pid of the first line that matches the pattern and has a readable
/// pid column.
pub open spec fn pid_in_lines(ls: Seq<Seq<char>>, pattern: Seq<char>) -> Option<u32>
    decreases ls.len(),
{
    if ls.len() == 0 {
        None
    } else if ps_line_matches(ls[0], pattern) && ps_line_pid(ls[0]) is Some {
        ps_line_pid(ls[0])
    } else {
        pid_in_lines(ls.drop_first(), pattern)
    }
}

/// The pid of the first process in the output of `ps aux` whose line holds
/// the pattern, skipping `grep` lines and lines without a readable pid.
pub fn pid_from_ps_output(stdout: &[u8], pattern: &str) -> (r: Option<u32>)
    ensures
        r == pid_in_lines(lines_seq(utf8_lossy(stdout@)), pattern@),
{
    let text = from_utf8_lossy(stdout);
    let ls = lines(text.as_str());
    let ghost all = views(ls@);
    let mut i: usize = 0;
    assert(all.subrange(0, all.len() as int) =~= all);
    while i < ls.len()
        invariant
            all == views(ls@),
            all == lines_seq(utf8_lossy(stdout@)),
            i <= ls.len(),
            pid_in_lines(all, pattern@) == pid_in_lines(all.subrange(i as int, all.len() as int), pattern@),
        decreases ls.len() - i,
    {
        let line = ls[i].as_str();
        let ghost rest = all.subrange(i as int, all.len() as int);
        assert(rest[0] == line@);
        assert(rest.drop_first() =~= all.subrange(i + 1, all.len() as int));
        if contains(line, pattern) && !contains(line, "grep") {
            let words = split_whitespace(line);
            if words.len() > 1 {
                assert(views(words@)[1] == words@[1]@);
                let p = parse_u32(words[1].as_str());
                if p.is_some() {
                    return p;
                }
            }
        }
        i = i + 1;
    }
    assert(all.subrange(all.len() as int, all.len() as int) =~= Seq::<Seq<char>>::empty());
    None
}

/// `i` is the position of the first target named `name`.
pub open spec fn first_target_named(ts: Seq<TargetConfig>, name: Seq<char>, i: int) -> bool {
    &&& 0 <= i < ts.len()
    &&& ts[i].name@ == name
    &&& forall|j: int| 0 <= j < i ==> (#[trigger] ts[j]).name@ != name
}

/// Index of the first target named `name`.
pub open spec fn first_named(ts: Seq<TargetConfig>, name: Seq<char>) -> Option<int> {
    if exists|i: int| first_target_named(ts, name, i) {
        Some(choose|i: int| first_target_named(ts, name, i))
    } else {
        None
    }
}

proof fn lemma_first_named(ts: Seq<TargetConfig>, name: Seq<char>, i: int)
    requires
        first_target_named(ts, name, i),
    ensures
        first_named(ts, name) == Some(i),
{
    let c = choose|c: int| first_target_named(ts, name, c);
    if c < i {
        assert(ts[c].name@ != name);
    } else if c > i {
        assert(ts[i].name@ != name);
    }
}

proof fn lemma_first_named_none(ts: Seq<TargetConfig>, name: Seq<char>)
    requires
        forall|j: int| 0 <= j < ts.len() ==> (#[trigger] ts[j]).name@ != name,
    ensures
        first_named(ts, name) is None,
{
    if exists|i: int| first_target_named(ts, name, i) {
        let c = choose|c: int| first_target_named(ts, name, c);
        assert(ts[c].name@ != name);
    }
}

/// The index of the first target of the configuration named `name`.
pub fn find_target(config: &Config, name: &str) -> (r: Option<usize>)
    ensures
        match r {
            Some(i) => first_target_named(config.targets@, name@, i as int),
            None => forall|j: int|
                0 <= j < config.targets.len() ==> (#[trigger] config.targets@[j]).name@ != name@,
        },
        r matches Some(i) ==> first_named(config.targets@, name@) == Some(i as int),
        r is None ==> first_named(config.targets@, name@) is None,
{
    let mut i: usize = 0;
    while i < config.targets.len()
        invariant
            i <= config.targets.len(),
            forall|j: int| 0 <= j < i ==> (#[trigger] config.targets@[j]).name@ != name@,
        decreases config.targets.len() - i,
    {
        if crate::text::same_text(config.targets[i].name.as_str(), name) {
            proof {
                lemma_first_named(config.targets@, name@, i as int);
            }
            return Some(i);
        }
        i = i + 1;
    }
    proof {
        lemma_first_named_none(config.targets@, name@);
    }
    None
}

/// Seconds to wait for a target to stop after the polite signal: its
/// `stoppage_after_secs`, 10 when unset, at most 30.
pub fn stop_grace_secs(target: &TargetConfig) -> (r: u64)
    ensures
        r == (match target.stoppage_after_secs {
            Some(s) => if s < 30 { s } else { 30 },
            None => 10,
        }),
{
    let wait = match target.stoppage_after_secs {
        Some(s) => s,
        None => 10,
    };
    if wait < 30 {
        wait
    } else {
        30
    }
}

/// The `ionice -c` number of a scheduling class: `3` for `idle`, `2` for
/// `best-effort`, `1` for `realtime`, and `3` for any other class.
pub open spec fn ionice_number(class: Seq<char>) -> Seq<char> {
    if class == "best-effort"@ {
        "2"@
    } else if class == "realtime"@ {
        "1"@
    } else {
        "3"@
    }
}

/// The class is one that `ionice_number` knows by name.
pub open spec fn known_ionice_class(class: Seq<char>) -> bool {
    class == "idle"@ || class == "best-effort"@ || class == "realtime"@
}

/// The command that restarts a target.
#[derive(Debug)]
pub struct RestartCommand {
    /// The program to run: `ionice`.
    pub program: String,
    pub args: Vec<String>,
    /// The configured scheduling class was not one of the known ones, and
    /// the idle class is used instead.
    pub unknown_class: bool,
}

/// The arguments of a restart: the scheduling class, then `nice` with the
/// niceness, the restart script, and `--log` with the log when there is one.
pub open spec fn restart_args(config: Config, script: Seq<char>, log: Option<Seq<char>>) -> Seq<Seq<char>> {
    let base = seq![
        "-c"@,
        ionice_number(config.default_ionice_class@),
        "nice"@,
        "-n"@,
        signed_decimal_seq(config.default_nice as int),
        script,
    ];
    match log {
        Some(l) => base + seq!["--log"@, l],
        None => base,
    }
}

/// The command that restarts a target: `ionice -c <class> nice -n <nice>
/// <restart_script> [--log <log>]`; `None` when the target has no restart
/// script.
pub fn restart_command(config: &Config, target: &TargetConfig) -> (r: Option<RestartCommand>)
    ensures
        target.restart_script is None ==> r is None,
        target.restart_script is Some ==> (r matches Some(c) && {
            &&& c.program@ == "ionice"@
            &&& views(c.args@) == restart_args(
                *config,
                target.restart_script->0@,
                opt_view(target.log),
            )
            &&& c.unknown_class == !known_ionice_class(config.default_ionice_class@)
        }),
{
    let script = match &target.restart_script {
        Some(s) => s,
        None => return None,
    };
    let class = config.default_ionice_class.as_str();
    proof {
        reveal_strlit("idle");
        reveal_strlit("best-effort");
        reveal_strlit("realtime");
    }
    let (number, unknown) = if crate::text::same_text(class, "idle") {
        (string_of("3"), false)
    } else if crate::text::same_text(class, "best-effort") {
        (string_of("2"), false)
    } else if crate::text::same_text(class, "realtime") {
        (string_of("1"), false)
    } else {
        (string_of("3"), true)
    };
    proof {
        reveal_strlit("2");
        reveal_strlit("3");
        reveal_strlit("1");
        assert("idle"@ != "best-effort"@ && "idle"@ != "realtime"@ && "best-effort"@ != "realtime"@) by {
            assert("idle"@.len() != "best-effort"@.len());
            assert("idle"@.len() != "realtime"@.len());
            assert("best-effort"@.len() != "realtime"@.len());
        }
    }
    let mut args: Vec<String> = Vec::new();
    args.push(string_of("-c"));
    args.push(number);
    args.push(string_of("nice"));
    args.push(string_of("-n"));
    args.push(i8_to_decimal(config.default_nice));
    args.push(script.clone());
    if let Some(log) = &target.log {
        args.push(string_of("--log"));
        args.push(log.clone());
    }
    let ghost want = restart_args(
        *config,
        script@,
        opt_view(target.log),
    );
    assert(views(args@) =~= want);
    Some(RestartCommand { program: string_of("ionice"), args, unknown_class: unknown })
}

/// What to do when the single-instance lock file already exists.
#[derive(Clone, Copy, Debug)]
pub enum LockDecision {
    /// Another instance, with this pid, holds the lock.
    Refuse(u32),
    /// The lock is stale or unreadable: remove it and try again.
    ClearAndRetry,
}

/// The decision on an existing lock file, from the pid it names (if it
/// names one) and whether that process is alive: refuse only when a live
/// process holds it.
pub fn lock_decision(holder: Option<u32>, holder_alive: bool) -> (r: LockDecision)
    ensures
        r == (match holder {
            Some(pid) => if holder_alive { LockDecision::Refuse(pid) } else { LockDecision::ClearAndRetry },
            None => LockDecision::ClearAndRetry,
        }),
{
    match holder {
        Some(pid) => if holder_alive {
            LockDecision::Refuse(pid)
        } else {
            LockDecision::ClearAndRetry
        },
        None => LockDecision::ClearAndRetry,
    }
}

/// The next step in finding a target's pid.
#[derive(Clone, Copy, Debug)]
pub enum PidLookup {
    /// The pid is known.
    Found(u32),
    /// Search the process list for the target's pattern.
    SearchPattern,
    /// The target's pid cannot be found.
    NotFound,
}

/// The pid file comes first: the pid it names, when that process runs;
/// otherwise the target's pattern, when it has one. `live_file_pid` is the
/// pid read from the pid file when that process is alive.
pub fn pid_lookup(target: &TargetConfig, live_file_pid: Option<u32>) -> (r: PidLookup)
    ensures
        r == (match live_file_pid {
            Some(pid) if target.pid_file.is_some() => PidLookup::Found(pid),
            _ => if target.pid_pattern.is_some() { PidLookup::SearchPattern } else { PidLookup::NotFound },
        }),
{
    if target.pid_file.is_some() {
        if let Some(pid) = live_file_pid {
            return PidLookup::Found(pid);
        }
    }
    if target.pid_pattern.is_some() {
        PidLookup::SearchPattern
    } else {
        PidLookup::NotFound
    }
}

} // verus!
