//! The configuration: which targets to watch and how, its defaults, and
//! the rules a configuration must follow.
use vstd::prelude::*;

use crate::text::{same_text, string_of};

verus! {

/// The whole configuration file.
#[derive(Debug, Clone)]
pub struct Config {
    pub version: String,
    pub poll_interval_secs: u64,
    pub autostart: bool,
    pub default_nice: i8,
    pub default_ionice_class: String,
    pub icons: IconConfig,
    pub targets: Vec<TargetConfig>,
}

/// File names of the three tray icons.
#[derive(Debug, Clone)]
pub struct IconConfig {
    pub ok: String,
    pub warn: String,
    pub err: String,
}

/// One monitored target.
#[derive(Debug, Clone)]
pub struct TargetConfig {
    pub name: String,
    pub label: Option<String>,
    pub script: Option<String>,
    pub log: Option<String>,
    pub pid_file: Option<String>,
    pub pid_pattern: Option<String>,
    pub restart_script: Option<String>,
    pub stoppage_after_secs: Option<u64>,
}

impl Default for IconConfig {
    fn default() -> (r: Self)
        ensures
            r.ok@ == "icon-ok.svg"@,
            r.warn@ == "icon-warn.svg"@,
            r.err@ == "icon-err.svg"@,
    {
        IconConfig {
            ok: string_of("icon-ok.svg"),
            warn: string_of("icon-warn.svg"),
            err: string_of("icon-err.svg"),
        }
    }
}

/// Seconds between two polls when the file does not say.
pub fn default_poll_interval() -> (r: u64)
    ensures
        r == 5,
{
    5
}

/// Whether to start with the session when the file does not say.
pub fn default_autostart() -> (r: bool)
    ensures
        r,
{
    true
}

/// Niceness of restarted jobs when the file does not say.
pub fn default_nice() -> (r: i8)
    ensures
        r == 10,
{
    10
}

/// I/O scheduling class of restarted jobs when the file does not say.
pub fn default_ionice_class() -> (r: String)
    ensures
        r@ == "idle"@,
{
    string_of("idle")
}

impl Config {
    /// Builds a configuration from the fields that a file holds; every
    /// field it leaves out takes its default.
    pub fn from_fields(
        version: String,
        poll_interval_secs: Option<u64>,
        autostart: Option<bool>,
        default_nice: Option<i8>,
        default_ionice_class: Option<String>,
        icons: Option<IconConfig>,
        targets: Vec<TargetConfig>,
    ) -> (r: Config)
        ensures
            r.version == version,
            r.poll_interval_secs == (match poll_interval_secs {
                Some(v) => v,
                None => 5,
            }),
            r.autostart == (match autostart {
                Some(v) => v,
                None => true,
            }),
            r.default_nice == (match default_nice {
                Some(v) => v,
                None => 10,
            }),
            default_ionice_class is Some ==> r.default_ionice_class == default_ionice_class->0,
            default_ionice_class is None ==> r.default_ionice_class@ == "idle"@,
            icons is Some ==> r.icons == icons->0,
            icons is None ==> {
                &&& r.icons.ok@ == "icon-ok.svg"@
                &&& r.icons.warn@ == "icon-warn.svg"@
                &&& r.icons.err@ == "icon-err.svg"@
            },
            r.targets == targets,
    {
        Config {
            version,
            poll_interval_secs: match poll_interval_secs {
                Some(v) => v,
                None => default_poll_interval(),
            },
            autostart: match autostart {
                Some(v) => v,
                None => default_autostart(),
            },
            default_nice: match default_nice {
                Some(v) => v,
                None => self::default_nice(),
            },
            default_ionice_class: match default_ionice_class {
                Some(v) => v,
                None => self::default_ionice_class(),
            },
            icons: match icons {
                Some(v) => v,
                None => IconConfig::default(),
            },
            targets,
        }
    }
}

// ---------------------------------------------------------------------
// Validation
// ---------------------------------------------------------------------

/// What can be wrong with one target.
#[derive(Debug, Clone, Copy, PartialEq, Eq, Structural)]
pub enum TargetProblem {
    EmptyName,
    DuplicateName,
    NoScriptOrLog,
    BothPidSources,
}

/// What can be wrong with a configuration, in the order the checks run.
#[derive(Debug, Clone, Copy, PartialEq, Eq, Structural)]
pub enum ConfigProblem {
    Version,
    Target(usize, TargetProblem),
    IoniceClass,
}

/// Why a configuration was refused.
#[derive(Debug)]
pub enum ConfigError {
    UnsupportedVersion { version: String },
    EmptyTargetName,
    DuplicateTargetName { name: String },
    MissingScriptAndLog { name: String },
    BothPidFileAndPattern { name: String },
    InvalidIoniceClass,
}

/// The only configuration version understood: `1`.
pub open spec fn supported_version(v: Seq<char>) -> bool {
    v == seq!['1']
}

/// The I/O scheduling classes a configuration may name.
pub open spec fn valid_ionice_class(c: Seq<char>) -> bool {
    ||| c == seq!['i', 'd', 'l', 'e']
    ||| c == seq!['b', 'e', 's', 't', '-', 'e', 'f', 'f', 'o', 'r', 't']
    ||| c == seq!['r', 'e', 'a', 'l', 't', 'i', 'm', 'e']
}

/// The name of target `i` is also the name of an earlier target.
pub open spec fn name_seen_before(ts: Seq<TargetConfig>, i: int) -> bool {
    exists|j: int| 0 <= j < i && (#[trigger] ts[j]).name@ == ts[i].name@
}

/// What is wrong with target `i`, given the targets before it, checked in
/// this order: empty name, a name used before, neither script nor log,
/// both a pid file and a pid pattern.
pub open spec fn target_problem(ts: Seq<TargetConfig>, i: int) -> Option<TargetProblem> {
    let t = ts[i];
    if t.name@.len() == 0 {
        Some(TargetProblem::EmptyName)
    } else if name_seen_before(ts, i) {
        Some(TargetProblem::DuplicateName)
    } else if t.script is None && t.log is None {
        Some(TargetProblem::NoScriptOrLog)
    } else if t.pid_file is Some && t.pid_pattern is Some {
        Some(TargetProblem::BothPidSources)
    } else {
        None
    }
}

/// The first problem among the first `k` targets, with its index.
pub open spec fn first_target_problem(ts: Seq<TargetConfig>, k: nat) -> Option<(int, TargetProblem)>
    decreases k,
{
    if k == 0 {
        None
    } else {
        match first_target_problem(ts, (k - 1) as nat) {
            Some(p) => Some(p),
            None => match target_problem(ts, k - 1) {
                Some(tp) => Some((k - 1, tp)),
                None => None,
            },
        }
    }
}

/// The first thing wrong with a configuration: its version, then its
/// targets in order, then its I/O scheduling class.
pub open spec fn config_problem(c: Config) -> Option<ConfigProblem> {
    if !supported_version(c.version@) {
        Some(ConfigProblem::Version)
    } else {
        match first_target_problem(c.targets@, c.targets@.len()) {
            Some((i, tp)) => Some(ConfigProblem::Target(i as usize, tp)),
            None => if !valid_ionice_class(c.default_ionice_class@) {
                Some(ConfigProblem::IoniceClass)
            } else {
                None
            },
        }
    }
}

/// `e` is the error that reports problem `p` of configuration `c`.
pub open spec fn reports(c: Config, p: ConfigProblem, e: ConfigError) -> bool {
    match (p, e) {
        (ConfigProblem::Version, ConfigError::UnsupportedVersion { version }) => version@
            == c.version@,
        (
            ConfigProblem::Target(_, TargetProblem::EmptyName),
            ConfigError::EmptyTargetName,
        ) => true,
        (
            ConfigProblem::Target(i, TargetProblem::DuplicateName),
            ConfigError::DuplicateTargetName { name },
        ) => name@ == c.targets@[i as int].name@,
        (
            ConfigProblem::Target(i, TargetProblem::NoScriptOrLog),
            ConfigError::MissingScriptAndLog { name },
        ) => name@ == c.targets@[i as int].name@,
        (
            ConfigProblem::Target(i, TargetProblem::BothPidSources),
            ConfigError::BothPidFileAndPattern { name },
        ) => name@ == c.targets@[i as int].name@,
        (ConfigProblem::IoniceClass, ConfigError::InvalidIoniceClass) => true,
        _ => false,
    }
}

/// The text of an error.
pub open spec fn error_message(e: ConfigError) -> Seq<char> {
    match e {
        ConfigError::UnsupportedVersion { version } => "unsupported config version: "@
            + version@,
        ConfigError::EmptyTargetName => "target name must not be empty"@,
        ConfigError::DuplicateTargetName { name } => "duplicate target name: "@ + name@,
        ConfigError::MissingScriptAndLog { name } => "target '"@ + name@
            + "' must have at least one of 'script' or 'log'"@,
        ConfigError::BothPidFileAndPattern { name } => "target '"@ + name@
            + "' has both 'pid_file' and 'pid_pattern'; use one"@,
        ConfigError::InvalidIoniceClass => "default_ionice_class must be one of: idle, best-effort, realtime"@,
    }
}

impl ConfigError {
    /// The message that reports this error.
    pub fn message(&self) -> (r: String)
        ensures
            r@ == error_message(*self),
    {
        match self {
            ConfigError::UnsupportedVersion { version } => {
                let mut r = string_of("unsupported config version: ");
                r.append(version.as_str());
                r
            },
            ConfigError::EmptyTargetName => string_of("target name must not be empty"),
            ConfigError::DuplicateTargetName { name } => {
                let mut r = string_of("duplicate target name: ");
                r.append(name.as_str());
                r
            },
            ConfigError::MissingScriptAndLog { name } => {
                let mut r = string_of("target '");
                r.append(name.as_str());
                r.append("' must have at least one of 'script' or 'log'");
                r
            },
            ConfigError::BothPidFileAndPattern { name } => {
                let mut r = string_of("target '");
                r.append(name.as_str());
                r.append("' has both 'pid_file' and 'pid_pattern'; use one");
                r
            },
            ConfigError::InvalidIoniceClass => string_of(
                "default_ionice_class must be one of: idle, best-effort, realtime",
            ),
        }
    }
}

proof fn lemma_first_target_problem_step(ts: Seq<TargetConfig>, k: nat)
    requires
        k < ts.len(),
        first_target_problem(ts, k) is None,
        target_problem(ts, k as int) is None,
    ensures
        first_target_problem(ts, k + 1) is None,
{
    assert(first_target_problem(ts, k + 1) == (match first_target_problem(ts, k) {
        Some(p) => Some(p),
        None => match target_problem(ts, k as int) {
            Some(tp) => Some((k as int, tp)),
            None => None,
        },
    }));
}

impl Config {
    /// The first problem of the configuration, looked for in this order:
    /// the version must be `1`; each target, in order, must have a
    /// non-empty name not used by an earlier target, a script or a log, and
    /// not both a pid file and a pid pattern; the I/O scheduling class must
    /// be one of `idle`, `best-effort`, `realtime`.
    pub fn problem(&self) -> (r: Option<ConfigProblem>)
        ensures
            r == config_problem(*self),
    {
        proof {
            reveal_strlit("1");
            reveal_strlit("idle");
            reveal_strlit("best-effort");
            reveal_strlit("realtime");
        }
        assert("1"@ =~= seq!['1']);
        if !same_text(self.version.as_str(), "1") {
            return Some(ConfigProblem::Version);
        }
        let n = self.targets.len();
        let ghost ts = self.targets@;
        let mut i: usize = 0;
        while i < n
            invariant
                n == self.targets.len(),
                ts == self.targets@,
                i <= n,
                supported_version(self.version@),
                first_target_problem(ts, i as nat) is None,
            decreases n - i,
        {
            let t = &self.targets[i];
            if t.name.as_str().is_empty() {
                assert(target_problem(ts, i as int) == Some(TargetProblem::EmptyName));
                proof {
                    lemma_first_target_problem_found(ts, i as nat, n as nat);
                }
                return Some(ConfigProblem::Target(i, TargetProblem::EmptyName));
            }
            let mut j: usize = 0;
            while j < i
                invariant
                    n == self.targets.len(),
                    ts == self.targets@,
                    j <= i < n,
                    t == self.targets@[i as int],
                    first_target_problem(ts, i as nat) is None,
                    ts[i as int].name@.len() > 0,
                    supported_version(self.version@),
                    forall|m: int| 0 <= m < j ==> (#[trigger] ts[m]).name@ != ts[i as int].name@,
                decreases i - j,
            {
                if same_text(self.targets[j].name.as_str(), t.name.as_str()) {
                    assert(name_seen_before(ts, i as int));
                    assert(target_problem(ts, i as int) == Some(TargetProblem::DuplicateName));
                    proof {
                        lemma_first_target_problem_found(ts, i as nat, n as nat);
                    }
                    return Some(ConfigProblem::Target(i, TargetProblem::DuplicateName));
                }
                j = j + 1;
            }
            assert(!name_seen_before(ts, i as int));
            if t.script.is_none() && t.log.is_none() {
                assert(target_problem(ts, i as int) == Some(TargetProblem::NoScriptOrLog));
                proof {
                    lemma_first_target_problem_found(ts, i as nat, n as nat);
                }
                return Some(ConfigProblem::Target(i, TargetProblem::NoScriptOrLog));
            }
            if t.pid_file.is_some() && t.pid_pattern.is_some() {
                assert(target_problem(ts, i as int) == Some(TargetProblem::BothPidSources));
                proof {
                    lemma_first_target_problem_found(ts, i as nat, n as nat);
                }
                return Some(ConfigProblem::Target(i, TargetProblem::BothPidSources));
            }
            proof {
                lemma_first_target_problem_step(ts, i as nat);
            }
            i = i + 1;
        }
        assert("idle"@ =~= seq!['i', 'd', 'l', 'e']);
        assert("best-effort"@ =~= seq!['b', 'e', 's', 't', '-', 'e', 'f', 'f', 'o', 'r', 't']);
        assert("realtime"@ =~= seq!['r', 'e', 'a', 'l', 't', 'i', 'm', 'e']);
        let class = self.default_ionice_class.as_str();
        if same_text(class, "idle") || same_text(class, "best-effort") || same_text(class, "realtime") {
            None
        } else {
            Some(ConfigProblem::IoniceClass)
        }
    }

    /// Checks the configuration and reports its first problem (see
    /// `problem`) as an error.
    pub fn validate(&self) -> (r: Result<(), ConfigError>)
        ensures
            r is Ok <==> config_problem(*self) is None,
            r matches Err(e) ==> reports(*self, config_problem(*self)->0, e),
    {
        let p = self.problem();
        proof {
            lemma_problem_index_bound(*self);
        }
        match p {
            None => Ok(()),
            Some(ConfigProblem::Version) => Err(ConfigError::UnsupportedVersion { version: self.version.clone() }),
            Some(ConfigProblem::Target(_, TargetProblem::EmptyName)) => Err(ConfigError::EmptyTargetName),
            Some(ConfigProblem::Target(i, TargetProblem::DuplicateName)) => Err(
                ConfigError::DuplicateTargetName { name: self.targets[i].name.clone() },
            ),
            Some(ConfigProblem::Target(i, TargetProblem::NoScriptOrLog)) => Err(
                ConfigError::MissingScriptAndLog { name: self.targets[i].name.clone() },
            ),
            Some(ConfigProblem::Target(i, TargetProblem::BothPidSources)) => Err(
                ConfigError::BothPidFileAndPattern { name: self.targets[i].name.clone() },
            ),
            Some(ConfigProblem::IoniceClass) => Err(ConfigError::InvalidIoniceClass),
        }
    }

    /// How many targets, from the first, validation examines in full: all
    /// of them when no target has a problem, none when the version is
    /// wrong, else those before the first target with a problem.
    pub fn targets_fully_checked(&self) -> (r: usize)
        ensures
            r == (match config_problem(*self) {
                Some(ConfigProblem::Version) => 0,
                Some(ConfigProblem::Target(i, _)) => i,
                _ => self.targets.len(),
            }),
    {
        match self.problem() {
            Some(ConfigProblem::Version) => 0,
            Some(ConfigProblem::Target(i, _)) => i,
            _ => self.targets.len(),
        }
    }
}

proof fn lemma_first_target_problem_bound(ts: Seq<TargetConfig>, k: nat)
    ensures
        first_target_problem(ts, k) matches Some((i, _)) ==> 0 <= i < k,
    decreases k,
{
    if k > 0 {
        lemma_first_target_problem_bound(ts, (k - 1) as nat);
    }
}

/// A target problem names a target of the configuration.
proof fn lemma_problem_index_bound(c: Config)
    ensures
        config_problem(c) matches Some(ConfigProblem::Target(i, _)) ==> i < c.targets@.len(),
{
    lemma_first_target_problem_bound(c.targets@, c.targets@.len());
}



/// Once a problem is found at index `k` after `k` clean targets, it is the
/// first problem of the whole list.
proof fn lemma_first_target_problem_found(ts: Seq<TargetConfig>, k: nat, n: nat)
    requires
        k < n <= ts.len(),
        first_target_problem(ts, k) is None,
        target_problem(ts, k as int) is Some,
    ensures
        first_target_problem(ts, n) == Some((k as int, target_problem(ts, k as int)->0)),
    decreases n - k,
{
    if n > k + 1 {
        lemma_first_target_problem_found(ts, k, (n - 1) as nat);
    }
}

/// Before the first problem, every target is clean.
proof fn lemma_no_first_problem(ts: Seq<TargetConfig>, k: nat, i: int)
    requires
        k <= ts.len(),
        first_target_problem(ts, k) is None,
        0 <= i < k,
    ensures
        target_problem(ts, i) is None,
    decreases k,
{
    if i < k - 1 {
        lemma_no_first_problem(ts, (k - 1) as nat, i);
    }
}

/// In a configuration that passes validation every target has a name of
/// its own, not empty and shared with no other target, has a script or a
/// log, and does not name both a pid file and a pid pattern; the version
/// is `1` and the I/O scheduling class is a known one.
pub proof fn lemma_valid_config(c: Config)
    requires
        config_problem(c) is None,
    ensures
        supported_version(c.version@),
        valid_ionice_class(c.default_ionice_class@),
        forall|i: int| 0 <= i < c.targets@.len() ==> (#[trigger] c.targets@[i]).name@.len() > 0,
        forall|i: int, j: int|
            0 <= i < j < c.targets@.len() ==> (#[trigger] c.targets@[i]).name@
                != (#[trigger] c.targets@[j]).name@,
        forall|i: int|
            0 <= i < c.targets@.len() ==> (#[trigger] c.targets@[i]).script is Some
                || c.targets@[i].log is Some,
        forall|i: int|
            0 <= i < c.targets@.len() ==> !((#[trigger] c.targets@[i]).pid_file is Some
                && c.targets@[i].pid_pattern is Some),
{
    let ts = c.targets@;
    assert forall|i: int| 0 <= i < ts.len() implies target_problem(ts, i) is None by {
        lemma_no_first_problem(ts, ts.len(), i);
    }
    assert forall|i: int, j: int| 0 <= i < j < ts.len() implies (#[trigger] ts[i]).name@
        != (#[trigger] ts[j]).name@ by {
        assert(target_problem(ts, j) is None);
        if ts[i].name@ == ts[j].name@ {
            assert(name_seen_before(ts, j));
        }
    }
    assert forall|i: int| 0 <= i < ts.len() implies (#[trigger] ts[i]).name@.len() > 0 by {
        assert(target_problem(ts, i) is None);
    }
    assert forall|i: int| 0 <= i < ts.len() implies (#[trigger] ts[i]).script is Some
        || ts[i].log is Some by {
        assert(target_problem(ts, i) is None);
    }
    assert forall|i: int| 0 <= i < ts.len() implies !((#[trigger] ts[i]).pid_file is Some
        && ts[i].pid_pattern is Some) by {
        assert(target_problem(ts, i) is None);
    }
}

/// A configuration with none of the problems that validation looks for is
/// accepted: version `1`, a known ionice class (`idle`, `best-effort` or
/// `realtime`), and targets that each have a non-empty name that no other
/// target uses, at least one of a script or a log, and not both a pid file
/// and a pid pattern.
pub proof fn lemma_valid_config_accepted(c: Config)
    requires
        c.version@ == seq!['1'],
        c.default_ionice_class@ == seq!['i', 'd', 'l', 'e']
            || c.default_ionice_class@ == seq!['b', 'e', 's', 't', '-', 'e', 'f', 'f', 'o', 'r', 't']
            || c.default_ionice_class@ == seq!['r', 'e', 'a', 'l', 't', 'i', 'm', 'e'],
        forall|i: int| 0 <= i < c.targets@.len() ==> (#[trigger] c.targets@[i]).name@.len() > 0,
        forall|i: int, j: int|
            0 <= i < j < c.targets@.len() ==> (#[trigger] c.targets@[i]).name@
                != (#[trigger] c.targets@[j]).name@,
        forall|i: int|
            0 <= i < c.targets@.len() ==> (#[trigger] c.targets@[i]).script is Some
                || c.targets@[i].log is Some,
        forall|i: int|
            0 <= i < c.targets@.len() ==> !((#[trigger] c.targets@[i]).pid_file is Some
                && c.targets@[i].pid_pattern is Some),
    ensures
        config_problem(c) is None,
{
    let ts = c.targets@;
    assert forall|i: int| 0 <= i < ts.len() implies target_problem(ts, i) is None by {
        if name_seen_before(ts, i) {
            let j = choose|j: int| 0 <= j < i && (#[trigger] ts[j]).name@ == ts[i].name@;
            assert(ts[j].name@ != ts[i].name@);
        }
    }
    lemma_no_problem_up_to(ts, ts.len());
}

proof fn lemma_no_problem_up_to(ts: Seq<TargetConfig>, k: nat)
    requires
        k <= ts.len(),
        forall|i: int| 0 <= i < ts.len() ==> #[trigger] target_problem(ts, i) is None,
    ensures
        first_target_problem(ts, k) is None,
    decreases k,
{
    if k > 0 {
        lemma_no_problem_up_to(ts, (k - 1) as nat);
        assert(target_problem(ts, k - 1) is None);
    }
}

} // verus!
