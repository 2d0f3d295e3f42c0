use general_sys_tray_app::appdata::AppData;
use general_sys_tray_app::config::{Config, TargetConfig};
use general_sys_tray_app::monitor::MonitorUpdate;
use general_sys_tray_app::status::Status;
use general_sys_tray_app::ui::{
    menu_event_actions, summary_rows, tail_text_of, tail_window_title, MenuAction, MenuNode,
    TrayApp,
};
use std::sync::Arc;
use std::time::SystemTime;

fn target(name: &str, label: Option<&str>) -> TargetConfig {
    TargetConfig {
        name: name.to_string(),
        label: label.map(|l| l.to_string()),
        script: Some("/bin/true".to_string()),
        log: None,
        pid_file: None,
        pid_pattern: None,
        restart_script: None,
        stoppage_after_secs: None,
    }
}

fn app() -> TrayApp {
    let mut web = target("web", Some("Web server"));
    web.log = Some("/var/log/web.log".into());
    web.restart_script = Some("/opt/restart-web".into());
    let config = Config::from_fields("1".into(), None, None, None, None, None, vec![web, target("db", None)]);
    TrayApp::new(Arc::new(config), AppData::layout("/home/u", "/tmp"))
}

fn update(name: &str, status: Status, tail: &str) -> MonitorUpdate {
    MonitorUpdate::TargetUpdate { name: name.into(), status, tail_text: tail.into(), pid: None, last_modified: None }
}

#[test]
fn init_builds_the_menu() {
    let mut a = app();
    let init = a.init();
    assert_eq!(init.tooltip, "general-sys-tray-app");
    assert_eq!(init.icon, Status::Okay);
    assert_eq!(init.menu.len(), 5);
    match &init.menu[0] {
        MenuNode::Submenu { title, enabled, items } => {
            assert_eq!(title, "Targets");
            assert!(*enabled);
            let texts: Vec<(&str, bool)> = items.iter().map(|e| (e.text.as_str(), e.enabled)).collect();
            assert_eq!(
                texts,
                vec![
                    ("\u{2713} Web server", false),
                    ("  Show tail: Web server", true),
                    ("  Open log in viewer", true),
                    ("  Restart \"Web server\"", true),
                    ("  Stop \"Web server\"", true),
                    ("\u{2713} db", false),
                    ("  Show tail: db", true),
                    ("  Open log in viewer", false),
                    ("  Restart \"db\"", false),
                    ("  Stop \"db\"", true),
                ]
            );
            assert_eq!(items[0].header_of.as_deref(), Some("web"));
            assert_eq!(items[5].header_of.as_deref(), Some("db"));
        }
        other => panic!("unexpected {:?}", other),
    }
    assert!(matches!(init.menu[1], MenuNode::Separator));
    match &init.menu[3] {
        MenuNode::Item(e) => assert_eq!(e.text, "Preferences\u{2026}"),
        other => panic!("unexpected {:?}", other),
    }
}

#[test]
fn updates_change_only_what_changed() {
    let mut a = app();
    a.init();
    let now = SystemTime::now();
    let ch = a.handle_update(update("db", Status::Warn, "slow"), now);
    assert_eq!(ch.icon, Some(Status::Warn));
    assert_eq!(ch.headers.len(), 1);
    assert_eq!(ch.headers[0].name, "db");
    assert_eq!(ch.headers[0].text, "\u{26a0} db");

    // The same update again changes nothing on screen.
    let ch = a.handle_update(update("db", Status::Warn, "still slow"), now);
    assert_eq!(ch.icon, None);
    assert!(ch.headers.is_empty());

    // A better status elsewhere keeps the worst one shown.
    let ch = a.handle_update(update("web", Status::Okay, ""), now);
    assert_eq!(ch.icon, None);
    assert!(ch.headers.is_empty());

    let ch = a.handle_update(update("web", Status::Error, "down"), now);
    assert_eq!(ch.icon, Some(Status::Error));
    assert_eq!(ch.headers[0].text, "\u{2717} Web server");
    assert_eq!(tail_text_of(&a, "web"), "down");
    assert_eq!(tail_text_of(&a, "nobody"), "");

    // The farewell update with an empty name is ignored.
    let ch = a.handle_update(update("", Status::Okay, ""), now);
    assert_eq!(ch.icon, None);
    assert!(ch.headers.is_empty());
    assert_eq!(a.targets().len(), 2);
}

#[test]
fn menu_choices() {
    let a = app();
    assert_eq!(menu_event_actions(a.config(), "Quit"), vec![MenuAction::Quit, MenuAction::Quit]);
    assert_eq!(menu_event_actions(a.config(), "Poll now"), vec![MenuAction::PollNow, MenuAction::PollNow]);
    assert_eq!(menu_event_actions(a.config(), "  Show tail: db"), vec![MenuAction::ShowTail(1)]);
    assert_eq!(menu_event_actions(a.config(), "Open log in viewer"), vec![MenuAction::OpenLog(0)]);
    assert_eq!(menu_event_actions(a.config(), "Restart \"Web server\""), vec![MenuAction::Restart(0)]);
    assert_eq!(menu_event_actions(a.config(), "Restart \"db\""), Vec::<MenuAction>::new());
    assert_eq!(menu_event_actions(a.config(), "Stop \"db\""), vec![MenuAction::Stop(1)]);
    assert_eq!(menu_event_actions(a.config(), "7"), Vec::<MenuAction>::new());
}

#[test]
fn summary_and_tail_window() {
    let mut a = app();
    a.handle_update(update("db", Status::Error, "gone"), SystemTime::now());
    let rows = summary_rows(&a);
    assert_eq!(rows.len(), 2);
    assert_eq!((rows[0].glyph.as_str(), rows[0].label.as_str(), rows[0].tail.as_str()), ("", "Web server", ""));
    assert_eq!((rows[1].glyph.as_str(), rows[1].label.as_str(), rows[1].tail.as_str()), ("\u{2717}", "db", "gone"));
    assert_eq!(tail_window_title(&a.config().targets[0]), "Tail: Web server");
}

#[test]
fn header_texts_follow_successive_updates() {
    let mut a = app();
    a.init();
    let texts = |a: &TrayApp| -> Vec<(String, String)> {
        a.header_texts().iter().map(|h| (h.name.clone(), h.text.clone())).collect()
    };
    assert_eq!(
        texts(&a),
        vec![("web".to_string(), "\u{2713} Web server".to_string()), ("db".to_string(), "\u{2713} db".to_string())]
    );
    let now = SystemTime::now();
    let ch = a.handle_update(update("db", Status::Error, "x"), now);
    assert_eq!(ch.headers.len(), 1);
    assert_eq!(
        texts(&a),
        vec![("web".to_string(), "\u{2713} Web server".to_string()), ("db".to_string(), "\u{2717} db".to_string())]
    );
    // Back to the first text: rewritten once more, and only that entry.
    let ch = a.handle_update(update("db", Status::Okay, ""), now);
    assert_eq!(ch.headers.len(), 1);
    assert_eq!(ch.headers[0].text, "\u{2713} db");
    assert_eq!(texts(&a)[1].1, "\u{2713} db");
}

#[test]
fn one_record_and_one_header_per_name() {
    let config = Config::from_fields(
        "1".into(),
        None,
        None,
        None,
        None,
        None,
        vec![target("a", None), target("b", None), target("a", Some("Again"))],
    );
    let mut a = TrayApp::new(Arc::new(config), AppData::layout("/home/u", "/tmp"));
    a.init();
    let names: Vec<String> = a.header_texts().iter().map(|h| h.name.clone()).collect();
    assert_eq!(names, vec!["a".to_string(), "b".to_string()]);
    let now = SystemTime::now();
    a.handle_update(update("a", Status::Warn, "x"), now);
    let ch = a.handle_update(update("a", Status::Error, "y"), now);
    assert_eq!(a.targets().len(), 1);
    assert_eq!(ch.headers.len(), 1);
    assert_eq!(a.last_agg(), Some(Status::Error));
}
