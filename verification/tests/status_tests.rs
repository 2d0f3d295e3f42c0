use general_sys_tray_app::app_icon::aggregate_status;
use general_sys_tray_app::status::Status;
use std::collections::HashMap;

#[test]
fn header_parsing() {
    assert_eq!(Status::from_header("# ok"), Some(Status::Okay));
    assert_eq!(Status::from_header("# warn"), Some(Status::Warn));
    assert_eq!(Status::from_header("# err"), Some(Status::Error));
    assert_eq!(Status::from_header("  # OK  "), Some(Status::Okay));
    assert_eq!(Status::from_header("# nope"), None);
    assert_eq!(Status::from_header("ok"), None);
    assert_eq!(Status::from_header(""), None);
}

#[test]
fn aggregate_prefers_worst_status() {
    let mut statuses = HashMap::new();
    statuses.insert("a".to_string(), Status::Okay);
    statuses.insert("b".to_string(), Status::Okay);
    let values: Vec<Status> = statuses.values().copied().collect();
    let agg = aggregate_status(&values);
    assert_eq!(agg, Status::Okay);

    statuses.insert("c".to_string(), Status::Warn);
    let values: Vec<Status> = statuses.values().copied().collect();
    let agg = aggregate_status(&values);
    assert_eq!(agg, Status::Warn);

    statuses.insert("d".to_string(), Status::Error);
    let values: Vec<Status> = statuses.values().copied().collect();
    let agg = aggregate_status(&values);
    assert_eq!(agg, Status::Error);
}

#[test]
fn aggregate_of_nothing_is_okay() {
    assert_eq!(aggregate_status(&[]), Status::Okay);
    assert_eq!(aggregate_status(&[Status::Warn, Status::Okay]), Status::Warn);
    assert_eq!(aggregate_status(&[Status::Error, Status::Warn]), Status::Error);
}

#[test]
fn aggregate_is_order_independent() {
    let a = [Status::Okay, Status::Warn, Status::Okay];
    let b = [Status::Warn, Status::Okay, Status::Okay];
    assert_eq!(aggregate_status(&a), aggregate_status(&b));
}

#[test]
fn status_names_and_glyphs() {
    assert_eq!(Status::Okay.as_str(), "ok");
    assert_eq!(Status::Warn.as_str(), "warn");
    assert_eq!(Status::Error.as_str(), "err");
    assert_eq!(Status::Okay.glyph(), "\u{2713}");
    assert_eq!(Status::Warn.glyph(), "\u{26a0}");
    assert_eq!(Status::Error.glyph(), "\u{2717}");
}

#[test]
fn header_round_trip() {
    for s in [Status::Okay, Status::Warn, Status::Error] {
        let line = format!("# {}", s.as_str());
        assert_eq!(Status::from_header(&line), Some(s));
    }
}

#[test]
fn header_ignores_surrounding_white_space() {
    assert_eq!(Status::from_header("\t# warn\r\n"), Some(Status::Warn));
    assert_eq!(Status::from_header("\u{a0}# err\u{3000}"), Some(Status::Error));
    assert_eq!(Status::from_header("#  ok"), None);
}

#[test]
fn header_is_case_insensitive() {
    assert_eq!(Status::from_header("# WaRn"), Some(Status::Warn));
    assert_eq!(Status::from_header("# ERR"), Some(Status::Error));
    // The Kelvin sign lower-cases to an ASCII `k`.
    assert_eq!(Status::from_header("# o\u{212a}"), Some(Status::Okay));
}

#[test]
fn lowered_header_needs_exact_text() {
    assert_eq!(Status::from_lowered_header("# ok"), Some(Status::Okay));
    assert_eq!(Status::from_lowered_header("# OK"), None);
    assert_eq!(Status::from_lowered_header(" # ok"), None);
}

#[test]
fn statuses_are_ordered_by_severity() {
    assert!(Status::Okay < Status::Warn);
    assert!(Status::Warn < Status::Error);
}
