use general_sys_tray_app::app_icon::{fallback_icon_rgba, status_color};
use general_sys_tray_app::config::{Config, TargetConfig};
use general_sys_tray_app::monitor::{
    check_target, command_action, interpret_script_output, script_timeout_secs, CheckResult,
    CommandPhase, LogProbe, MonitorAction, MonitorCommand, MonitorStates, MonitorUpdate,
    RoundEntry, ScriptOutcome, TargetProbe,
};
use general_sys_tray_app::status::Status;
use std::time::{Duration, SystemTime};

fn target(name: &str) -> TargetConfig {
    TargetConfig {
        name: name.to_string(),
        label: None,
        script: None,
        log: None,
        pid_file: None,
        pid_pattern: None,
        restart_script: None,
        stoppage_after_secs: None,
    }
}

fn probe() -> TargetProbe {
    TargetProbe { log: None, script: None, pid: None }
}

#[test]
fn script_output_with_header() {
    let (s, t) = interpret_script_output(b"# warn\nline1\nline2\n", b"", true);
    assert_eq!(s, Status::Warn);
    assert_eq!(t, "line1\nline2");
}

#[test]
fn script_output_without_header_uses_exit_status() {
    let (s, t) = interpret_script_output(b"all good\n", b"", true);
    assert_eq!((s, t.as_str()), (Status::Okay, "all good"));
    let (s, t) = interpret_script_output(b"", b"boom\nmore\n", false);
    assert_eq!((s, t.as_str()), (Status::Error, "boom\nmore"));
    let (s, t) = interpret_script_output(b"# ERR\n", b"", true);
    assert_eq!((s, t.as_str()), (Status::Error, ""));
    let (s, t) = interpret_script_output(b"", b"", true);
    assert_eq!((s, t.as_str()), (Status::Okay, ""));
}

#[test]
fn script_tail_keeps_fifty_lines() {
    let out: String = (0..80).map(|i| format!("{}\n", i)).collect();
    let (_, t) = interpret_script_output(out.as_bytes(), b"", true);
    assert_eq!(t.lines().count(), 50);
    assert!(t.ends_with("49"));
}

#[test]
fn log_checks() {
    let mut t = target("a");
    t.log = Some("/var/log/a.log".into());
    let mut p = probe();
    p.log = Some(LogProbe::Missing);
    let r = check_target(&t, &p);
    assert_eq!(r.status, Status::Error);
    assert_eq!(r.tail_text, "log file not found: /var/log/a.log");

    let m = SystemTime::UNIX_EPOCH + Duration::from_secs(1000);
    p.log = Some(LogProbe::Found { modified: Some(m), age_secs: 600, age_nanos: 1 });
    let r = check_target(&t, &p);
    assert_eq!(r.status, Status::Warn);
    assert_eq!(r.tail_text, "log unchanged for 600s");
    assert_eq!(r.last_modified, Some(m));

    p.log = Some(LogProbe::Found { modified: Some(m), age_secs: 600, age_nanos: 0 });
    let r = check_target(&t, &p);
    assert_eq!((r.status, r.tail_text.as_str()), (Status::Okay, ""));

    t.stoppage_after_secs = Some(5);
    p.log = Some(LogProbe::Found { modified: Some(m), age_secs: 6, age_nanos: 0 });
    assert_eq!(check_target(&t, &p).tail_text, "log unchanged for 5s");

    p.log = Some(LogProbe::Found { modified: None, age_secs: 0, age_nanos: 0 });
    let r = check_target(&t, &p);
    assert_eq!((r.status, r.last_modified), (Status::Okay, None));
}

#[test]
fn script_result_replaces_log_result() {
    let mut t = target("a");
    t.log = Some("/l".into());
    t.script = Some("/s".into());
    let mut p = probe();
    p.log = Some(LogProbe::Missing);
    p.script = Some(ScriptOutcome::Finished { stdout: b"fine\n".to_vec(), stderr: vec![], success: true });
    let r = check_target(&t, &p);
    assert_eq!((r.status, r.tail_text.as_str()), (Status::Okay, "fine"));

    p.script = Some(ScriptOutcome::TimedOut);
    let r = check_target(&t, &p);
    assert_eq!((r.status, r.tail_text.as_str()), (Status::Error, "(timed out)"));

    p.script = Some(ScriptOutcome::LaunchFailed { message: "No such file".into() });
    let r = check_target(&t, &p);
    assert_eq!((r.status, r.tail_text.as_str()), (Status::Error, "script error: failed to run script: No such file"));
}

#[test]
fn missing_pid_only_lowers_okay() {
    let mut t = target("a");
    t.pid_file = Some("/run/a.pid".into());
    let r = check_target(&t, &probe());
    assert_eq!((r.status, r.tail_text.as_str(), r.pid), (Status::Warn, "pid not found", None));

    let mut p = probe();
    p.pid = Some(99);
    let r = check_target(&t, &p);
    assert_eq!((r.status, r.pid), (Status::Okay, Some(99)));

    t.log = Some("/l".into());
    let mut p = probe();
    p.log = Some(LogProbe::Missing);
    let r = check_target(&t, &p);
    assert_eq!(r.status, Status::Error);
    assert_eq!(r.tail_text, "log file not found: /l");

    // A pid observed for a target that does not track one is ignored.
    let t2 = target("b");
    let mut p = probe();
    p.pid = Some(5);
    assert_eq!(check_target(&t2, &p).pid, None);
}

#[test]
fn monitor_states_one_per_name() {
    let mut a2 = target("a");
    a2.label = Some("Second A".into());
    let c = Config::from_fields("1".into(), None, None, None, None, None, vec![target("a"), target("b"), a2]);
    let now = SystemTime::UNIX_EPOCH;
    let mut m = MonitorStates::new(&c, now);
    assert_eq!(m.states.len(), 2);
    let a = m.states.iter().find(|s| s.name == "a").unwrap();
    assert_eq!(a.label, "Second A");
    assert_eq!(a.status, Status::Okay);

    let later = now + Duration::from_secs(5);
    let result = CheckResult { status: Status::Warn, tail_text: "t".into(), last_modified: None, pid: Some(3) };
    let u = m.record(&c.targets[1], &result, later).unwrap();
    let MonitorUpdate::TargetUpdate { name, status, tail_text, pid, .. } = u;
    assert_eq!((name.as_str(), status, tail_text.as_str(), pid), ("b", Status::Warn, "t", Some(3)));
    let b = m.states.iter().find(|s| s.name == "b").unwrap();
    assert_eq!((b.status, b.last_checked), (Status::Warn, later));

    let result = CheckResult { status: Status::Okay, tail_text: String::new(), last_modified: None, pid: None };
    assert!(m.record(&target("zzz"), &result, later).is_none());
}

#[test]
fn round_reports_every_target_in_order() {
    let mut a2 = target("a");
    a2.label = Some("Second A".into());
    let c = Config::from_fields("1".into(), None, None, None, None, None, vec![target("a"), target("b"), a2]);
    let now = SystemTime::UNIX_EPOCH;
    let mut m = MonitorStates::new(&c, now);
    let t1 = now + Duration::from_secs(1);
    let t2 = now + Duration::from_secs(2);
    let t3 = now + Duration::from_secs(3);
    let entries = vec![
        RoundEntry { result: CheckResult { status: Status::Warn, tail_text: "first".into(), last_modified: None, pid: Some(1) }, checked_at: t1 },
        RoundEntry { result: CheckResult { status: Status::Okay, tail_text: "b".into(), last_modified: None, pid: None }, checked_at: t2 },
        RoundEntry { result: CheckResult { status: Status::Error, tail_text: "second".into(), last_modified: Some(t1), pid: Some(2) }, checked_at: t3 },
    ];
    let updates = m.record_round(&c.targets, &entries);
    let seen: Vec<(String, Status, String, Option<u32>)> = updates
        .into_iter()
        .map(|u| {
            let MonitorUpdate::TargetUpdate { name, status, tail_text, pid, .. } = u;
            (name, status, tail_text, pid)
        })
        .collect();
    assert_eq!(
        seen,
        vec![
            ("a".to_string(), Status::Warn, "first".to_string(), Some(1)),
            ("b".to_string(), Status::Okay, "b".to_string(), None),
            ("a".to_string(), Status::Error, "second".to_string(), Some(2)),
        ]
    );
    // Two states remain; the one named twice holds the later check.
    assert_eq!(m.states.len(), 2);
    let a = m.states.iter().find(|s| s.name == "a").unwrap();
    assert_eq!((a.status, a.last_checked, a.last_modified, a.pid), (Status::Error, t3, Some(t1), Some(2)));
    assert_eq!(a.label, "Second A");
    let b = m.states.iter().find(|s| s.name == "b").unwrap();
    assert_eq!((b.status, b.last_checked), (Status::Okay, t2));
}

#[test]
fn commands_by_phase() {
    assert!(matches!(command_action(MonitorCommand::Quit, CommandPhase::BeforeChecks), MonitorAction::EndLoop));
    assert!(matches!(command_action(MonitorCommand::Quit, CommandPhase::Waiting), MonitorAction::EndLoop));
    match command_action(MonitorCommand::Quit, CommandPhase::Draining) {
        MonitorAction::NotifyAndExit(MonitorUpdate::TargetUpdate { name, status, .. }) => {
            assert!(name.is_empty());
            assert_eq!(status, Status::Okay);
        }
        other => panic!("unexpected {:?}", other),
    }
    match command_action(MonitorCommand::Stop { target_name: "x".into() }, CommandPhase::Draining) {
        MonitorAction::StopTarget(n) => assert_eq!(n, "x"),
        other => panic!("unexpected {:?}", other),
    }
    match command_action(MonitorCommand::Restart { target_name: "y".into() }, CommandPhase::Draining) {
        MonitorAction::RestartTarget(n) => assert_eq!(n, "y"),
        other => panic!("unexpected {:?}", other),
    }
    assert!(matches!(command_action(MonitorCommand::PollNow, CommandPhase::Draining), MonitorAction::Proceed));
    assert!(matches!(command_action(MonitorCommand::Stop { target_name: "x".into() }, CommandPhase::Waiting), MonitorAction::Proceed));
}

#[test]
fn timeout_is_twice_the_interval() {
    let c = Config::from_fields("1".into(), Some(7), None, None, None, None, vec![]);
    assert_eq!(script_timeout_secs(&c), 14);
}

#[test]
fn fallback_icon_is_a_disc() {
    let v = fallback_icon_rgba(Status::Warn);
    assert_eq!(v.len(), 4096);
    let px = |x: usize, y: usize| &v[4 * (32 * y + x)..4 * (32 * y + x) + 4];
    assert_eq!(px(16, 16), &[0xff, 0xa5, 0x00, 0xff]);
    assert_eq!(px(0, 0), &[0, 0, 0, 0]);
    assert_eq!(px(16, 0), &[0xff, 0xa5, 0x00, 0xff]);
    assert_eq!(px(0, 16), &[0xff, 0xa5, 0x00, 0xff]);
    assert_eq!(px(31, 31), &[0, 0, 0, 0]);
    // Same disc as the distance test in floating point.
    for y in 0..32u32 {
        for x in 0..32u32 {
            let dx = x as f32 - 16.0;
            let dy = y as f32 - 16.0;
            let inside = (dx * dx + dy * dy).sqrt() <= 16.0;
            assert_eq!(px(x as usize, y as usize)[3] == 255, inside);
        }
    }
    assert_eq!(status_color(Status::Error), (0xff, 0, 0));
    assert_eq!(status_color(Status::Okay), (0, 0xff, 0));
}
