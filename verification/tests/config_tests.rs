use general_sys_tray_app::config::{
    Config, ConfigError, ConfigProblem, IconConfig, TargetConfig, TargetProblem,
};
use serde_yaml::Value;

fn opt_string(v: &Value, key: &str) -> Option<String> {
    v.get(key).and_then(|x| x.as_str()).map(|s| s.to_string())
}

/// Reads a YAML document into a configuration, leaving absent fields to
/// the library's defaults.
fn config_from_yaml(yaml: &str) -> Config {
    let doc: Value = serde_yaml::from_str(yaml).expect("parse failed");
    let icons = doc.get("icons").map(|i| IconConfig {
        ok: opt_string(i, "ok").expect("icons.ok"),
        warn: opt_string(i, "warn").expect("icons.warn"),
        err: opt_string(i, "err").expect("icons.err"),
    });
    let targets = doc
        .get("targets")
        .and_then(|t| t.as_sequence())
        .expect("targets")
        .iter()
        .map(|t| TargetConfig {
            name: opt_string(t, "name").expect("name"),
            label: opt_string(t, "label"),
            script: opt_string(t, "script"),
            log: opt_string(t, "log"),
            pid_file: opt_string(t, "pid_file"),
            pid_pattern: opt_string(t, "pid_pattern"),
            restart_script: opt_string(t, "restart_script"),
            stoppage_after_secs: t.get("stoppage_after_secs").and_then(|x| x.as_u64()),
        })
        .collect();
    Config::from_fields(
        opt_string(&doc, "version").expect("version"),
        doc.get("poll_interval_secs").and_then(|x| x.as_u64()),
        doc.get("autostart").and_then(|x| x.as_bool()),
        doc.get("default_nice").and_then(|x| x.as_i64()).map(|n| i8::try_from(n).expect("nice")),
        opt_string(&doc, "default_ionice_class"),
        icons,
        targets,
    )
}

fn valid_yaml() -> String {
    r#"
version: "1"
targets:
  - name: backup
    script: /usr/local/bin/backup-status.sh
    log: /var/log/backup.log
    pid_file: /run/backup.pid
"#
    .to_string()
}

#[test]
fn parses_minimal_config_with_defaults() {
    let yaml = r#"
version: "1"
targets:
  - name: job
    script: /bin/true
"#;
    let config = config_from_yaml(yaml);
    assert_eq!(config.poll_interval_secs, 5);
    assert!(config.autostart);
    assert_eq!(config.default_nice, 10);
    assert_eq!(config.default_ionice_class, "idle");
    assert_eq!(config.icons.ok, "icon-ok.svg");
    assert!(config.validate().is_ok());
}

#[test]
fn validates_valid_config() {
    let config = config_from_yaml(&valid_yaml());
    assert!(config.validate().is_ok());
}

#[test]
fn rejects_wrong_version() {
    let yaml = valid_yaml().replacen("\"1\"", "\"2\"", 1);
    let config = config_from_yaml(&yaml);
    assert!(config.validate().is_err());
}

#[test]
fn rejects_target_without_script_and_log() {
    let yaml = r#"
version: "1"
targets:
  - name: job
"#;
    let config = config_from_yaml(yaml);
    assert!(config.validate().is_err());
}

#[test]
fn rejects_duplicate_names() {
    let yaml = r#"
version: "1"
targets:
  - name: job
    script: /bin/true
  - name: job
    log: /var/log/job.log
"#;
    let config = config_from_yaml(yaml);
    assert!(config.validate().is_err());
}

#[test]
fn rejects_both_pid_file_and_pattern() {
    let yaml = r#"
version: "1"
targets:
  - name: job
    script: /bin/true
    pid_file: /run/job.pid
    pid_pattern: "job.*"
"#;
    let config = config_from_yaml(yaml);
    assert!(config.validate().is_err());
}

#[test]
fn rejects_bad_ionice_class() {
    let yaml = valid_yaml().replace("targets:", "default_ionice_class: bogus\ntargets:");
    let config = config_from_yaml(&yaml);
    assert!(config.validate().is_err());
}

fn target(name: &str) -> TargetConfig {
    TargetConfig {
        name: name.to_string(),
        label: None,
        script: Some("/bin/true".to_string()),
        log: None,
        pid_file: None,
        pid_pattern: None,
        restart_script: None,
        stoppage_after_secs: None,
    }
}

fn config_with(targets: Vec<TargetConfig>) -> Config {
    Config::from_fields("1".to_string(), None, None, None, None, None, targets)
}

#[test]
fn explicit_fields_override_defaults() {
    let icons = IconConfig { ok: "a".into(), warn: "b".into(), err: "c".into() };
    let c = Config::from_fields("1".into(), Some(9), Some(false), Some(-3), Some("realtime".into()), Some(icons), vec![]);
    assert_eq!(c.poll_interval_secs, 9);
    assert!(!c.autostart);
    assert_eq!(c.default_nice, -3);
    assert_eq!(c.default_ionice_class, "realtime");
    assert_eq!(c.icons.warn, "b");
    let d = IconConfig::default();
    assert_eq!((d.ok.as_str(), d.warn.as_str(), d.err.as_str()), ("icon-ok.svg", "icon-warn.svg", "icon-err.svg"));
}

#[test]
fn reports_each_problem_with_its_message() {
    let mut c = config_with(vec![target("a")]);
    c.version = "2".into();
    let e = c.validate().unwrap_err();
    assert!(matches!(e, ConfigError::UnsupportedVersion { .. }));
    assert_eq!(e.message(), "unsupported config version: 2");

    let c = config_with(vec![target("")]);
    let e = c.validate().unwrap_err();
    assert!(matches!(e, ConfigError::EmptyTargetName));
    assert_eq!(e.message(), "target name must not be empty");

    let c = config_with(vec![target("a"), target("b"), target("a")]);
    let e = c.validate().unwrap_err();
    assert_eq!(e.message(), "duplicate target name: a");

    let mut t = target("x");
    t.script = None;
    let e = config_with(vec![target("a"), t]).validate().unwrap_err();
    assert_eq!(e.message(), "target 'x' must have at least one of 'script' or 'log'");

    let mut t = target("y");
    t.pid_file = Some("/run/y.pid".into());
    t.pid_pattern = Some("y".into());
    let e = config_with(vec![t]).validate().unwrap_err();
    assert_eq!(e.message(), "target 'y' has both 'pid_file' and 'pid_pattern'; use one");

    let mut c = config_with(vec![target("a")]);
    c.default_ionice_class = "Idle".into();
    let e = c.validate().unwrap_err();
    assert_eq!(e.message(), "default_ionice_class must be one of: idle, best-effort, realtime");
}

#[test]
fn first_problem_wins() {
    // The empty name comes before the later duplicate.
    let c = config_with(vec![target(""), target("b"), target("b")]);
    assert!(matches!(c.validate().unwrap_err(), ConfigError::EmptyTargetName));
    // A bad version is reported before anything about targets.
    let mut c = config_with(vec![target("")]);
    c.version = "".into();
    assert!(matches!(c.validate().unwrap_err(), ConfigError::UnsupportedVersion { .. }));
    // Every known class passes.
    for class in ["idle", "best-effort", "realtime"] {
        let mut c = config_with(vec![target("a")]);
        c.default_ionice_class = class.into();
        assert!(c.validate().is_ok());
    }
    // No targets at all is fine.
    assert!(config_with(vec![]).validate().is_ok());
}

#[test]
fn counts_targets_checked_in_full() {
    let c = config_with(vec![target("a"), target("b"), target("a"), target("c")]);
    assert_eq!(c.targets_fully_checked(), 2);
    assert_eq!(c.problem(), Some(ConfigProblem::Target(2, TargetProblem::DuplicateName)));
    let mut c = config_with(vec![target("a")]);
    c.version = "0".into();
    assert_eq!(c.targets_fully_checked(), 0);
    c.version = "1".into();
    c.default_ionice_class = "x".into();
    assert_eq!(c.targets_fully_checked(), 1);
    assert_eq!(c.problem(), Some(ConfigProblem::IoniceClass));
    c.default_ionice_class = "idle".into();
    assert_eq!(c.problem(), None);
}
