use general_sys_tray_app::appdata::{choose_runtime_dir, join_path, AppData};
use general_sys_tray_app::config::{Config, TargetConfig};
use general_sys_tray_app::process::{
    find_target, lock_decision, parse_pid, pid_from_ps_output, pid_lookup, proc_path,
    restart_command, stop_grace_secs, LockDecision, PidLookup,
};

fn target(name: &str) -> TargetConfig {
    TargetConfig {
        name: name.to_string(),
        label: None,
        script: Some("/bin/true".to_string()),
        log: None,
        pid_file: None,
        pid_pattern: None,
        restart_script: None,
        stoppage_after_secs: None,
    }
}

#[test]
fn parses_pid_files() {
    assert_eq!(parse_pid("1234\n"), Some(1234));
    assert_eq!(parse_pid("  77  "), Some(77));
    assert_eq!(parse_pid("x"), None);
    assert_eq!(parse_pid(""), None);
    assert_eq!(parse_pid("12 34"), None);
}

#[test]
fn proc_paths() {
    assert_eq!(proc_path(1), "/proc/1");
    assert_eq!(proc_path(4294967295), "/proc/4294967295");
}

#[test]
fn finds_pid_in_ps_output() {
    let out = b"USER PID %CPU COMMAND\n\
root 10 0.0 grep backup\n\
root 11 0.0 other\n\
alice 4242 1.0 /usr/bin/backup --daemon\n\
alice 4343 1.0 /usr/bin/backup --again\n";
    assert_eq!(pid_from_ps_output(out, "backup"), Some(4242));
    assert_eq!(pid_from_ps_output(out, "nothing"), None);
    // A matching line without a readable pid is passed over.
    let out2 = b"a backup\nbob xx backup\nbob 7 backup\n";
    assert_eq!(pid_from_ps_output(out2, "backup"), Some(7));
    // Invalid UTF-8 is replaced, not fatal.
    let out3 = b"u 9 \xff job\n";
    assert_eq!(pid_from_ps_output(out3, "job"), Some(9));
}

#[test]
fn finds_first_target_by_name() {
    let c = Config::from_fields("1".into(), None, None, None, None, None, vec![target("a"), target("b"), target("b")]);
    assert_eq!(find_target(&c, "b"), Some(1));
    assert_eq!(find_target(&c, "a"), Some(0));
    assert_eq!(find_target(&c, "c"), None);
}

#[test]
fn grace_period_is_capped() {
    let mut t = target("a");
    assert_eq!(stop_grace_secs(&t), 10);
    t.stoppage_after_secs = Some(5);
    assert_eq!(stop_grace_secs(&t), 5);
    t.stoppage_after_secs = Some(600);
    assert_eq!(stop_grace_secs(&t), 30);
}

#[test]
fn builds_restart_commands() {
    let mut c = Config::from_fields("1".into(), None, None, Some(-5), Some("best-effort".into()), None, vec![]);
    let mut t = target("a");
    assert!(restart_command(&c, &t).is_none());
    t.restart_script = Some("/opt/restart.sh".into());
    t.log = Some("/var/log/a.log".into());
    let cmd = restart_command(&c, &t).unwrap();
    assert_eq!(cmd.program, "ionice");
    assert_eq!(cmd.args, vec!["-c", "2", "nice", "-n", "-5", "/opt/restart.sh", "--log", "/var/log/a.log"]);
    assert!(!cmd.unknown_class);
    c.default_ionice_class = "weird".into();
    c.default_nice = 10;
    t.log = None;
    let cmd = restart_command(&c, &t).unwrap();
    assert_eq!(cmd.args, vec!["-c", "3", "nice", "-n", "10", "/opt/restart.sh"]);
    assert!(cmd.unknown_class);
    c.default_ionice_class = "realtime".into();
    assert_eq!(restart_command(&c, &t).unwrap().args[1], "1");
    c.default_ionice_class = "idle".into();
    let cmd = restart_command(&c, &t).unwrap();
    assert_eq!(cmd.args[1], "3");
    assert!(!cmd.unknown_class);
}

#[test]
fn paths_join_like_std() {
    let cases = [("/home/u", ".config"), ("/home/u/", "x"), ("", "x"), ("/a", "/abs"), ("a", "")];
    for (base, p) in cases {
        let expected = std::path::Path::new(base).join(p).to_string_lossy().to_string();
        assert_eq!(join_path(base, p), expected, "{:?} {:?}", base, p);
    }
}

#[test]
fn app_data_layout() {
    let a = AppData::layout("/home/u", "/run/user/1000");
    assert_eq!(a.config_dir, "/home/u/.config/general-sys-tray-app");
    assert_eq!(a.icons_dir, "/home/u/.config/general-sys-tray-app/icons");
    assert_eq!(a.state_dir, "/home/u/.config/general-sys-tray-app/state");
    assert_eq!(a.lock_file, "/home/u/.config/general-sys-tray-app/app.lock");
    assert_eq!(a.socket_file, "/run/user/1000/general-sys-tray-app.sock");
    assert_eq!(a.config_path(), "/home/u/.config/general-sys-tray-app/config.yaml");
    assert_eq!(a.icon_path("icon-ok.svg"), "/home/u/.config/general-sys-tray-app/icons/icon-ok.svg");
    assert_eq!(a.target_state_path("backup"), "/home/u/.config/general-sys-tray-app/state/backup.json");
}

#[test]
fn runtime_dir_choice() {
    assert_eq!(choose_runtime_dir(Some("/run/x".into()), Some("/t".into())), "/run/x");
    assert_eq!(choose_runtime_dir(Some("".into()), Some("/t".into())), "/t");
    assert_eq!(choose_runtime_dir(None, None), "/tmp");
    assert_eq!(choose_runtime_dir(None, Some("".into())), "");
}

#[test]
fn lock_refused_only_by_a_live_holder() {
    assert!(matches!(lock_decision(Some(42), true), LockDecision::Refuse(42)));
    assert!(matches!(lock_decision(Some(42), false), LockDecision::ClearAndRetry));
    assert!(matches!(lock_decision(None, false), LockDecision::ClearAndRetry));
    assert!(matches!(lock_decision(None, true), LockDecision::ClearAndRetry));
}

#[test]
fn pid_file_comes_before_pattern() {
    let mut t = TargetConfig {
        name: "t".into(),
        label: None,
        script: None,
        log: None,
        pid_file: Some("/run/t.pid".into()),
        pid_pattern: Some("tdaemon".into()),
        restart_script: None,
        stoppage_after_secs: None,
    };
    assert!(matches!(pid_lookup(&t, Some(7)), PidLookup::Found(7)));
    assert!(matches!(pid_lookup(&t, None), PidLookup::SearchPattern));
    t.pid_pattern = None;
    assert!(matches!(pid_lookup(&t, None), PidLookup::NotFound));
    t.pid_file = None;
    assert!(matches!(pid_lookup(&t, Some(7)), PidLookup::NotFound));
}
