use sb_agent_core::cli::{common_arg, version_text, CommonArg};
use sb_agent_core::intake_auth::{race_step, RaceStep};
use sb_agent_core::net::reachability_order;
use sb_agent_core::status::{default_socket_path, socket_file_name, status_error_message, StatusFailure, StatusPayload};
use sb_agent_core::tui::{quits, state_color, uptime_secs, KeyView, StateColor};
use sb_agent_core::logging::{is_stale_log, MAX_LOG_AGE_SECS};
use sb_agent_core::updater::{first_step, step_after_check, CheckOutcome, UpdaterConfig, UpdaterStep};
use std::time::Duration;

#[test]
fn common_args_are_recognised() {
    assert!(matches!(common_arg(Some("--version")), CommonArg::Version));
    assert!(matches!(common_arg(Some("-V")), CommonArg::Version));
    assert!(matches!(common_arg(Some("status")), CommonArg::Status));
    assert!(matches!(common_arg(Some("top")), CommonArg::Top));
    assert!(matches!(common_arg(Some("run")), CommonArg::Continue));
    assert!(matches!(common_arg(None), CommonArg::Continue));
    assert_eq!(version_text("oxipulse", "1.2.3"), "oxipulse 1.2.3");
}

#[test]
fn status_socket_names() {
    assert_eq!(default_socket_path("oxi-pulse"), r"\\.\pipe\sb-agent-oxi-pulse");
    assert_eq!(socket_file_name("oxi-pulse"), "oxi-pulse.sock");
}

#[test]
fn top_colours_and_uptime() {
    assert!(matches!(state_color("running"), StateColor::Green));
    assert!(matches!(state_color("starting"), StateColor::Yellow));
    assert!(matches!(state_color("stopping"), StateColor::Red));
    assert!(matches!(state_color("degraded"), StateColor::White));
    assert_eq!(uptime_secs(100, 40), 60);
    assert_eq!(uptime_secs(i64::MAX, -1), i64::MAX);
    assert_eq!(uptime_secs(i64::MIN, 1), i64::MIN);
}

#[test]
fn ipv4_addresses_are_tried_first_in_order() {
    assert_eq!(reachability_order(&vec![false, true, false, true]), vec![1, 3, 0, 2]);
    assert_eq!(reachability_order(&vec![]), Vec::<usize>::new());
}

#[test]
fn token_race_rereads_then_gives_up() {
    assert!(matches!(race_step(0, Some("t".to_string())), RaceStep::Use(t) if t == "t"));
    assert!(matches!(race_step(0, None), RaceStep::WaitAndReread));
    assert!(matches!(race_step(3, None), RaceStep::WaitAndReread));
    assert!(matches!(race_step(4, None), RaceStep::GiveUp));
}

#[test]
fn updater_defaults_and_overrides() {
    let cfg = UpdaterConfig::new("SecuryBlack", "nexus-agent", "nexus-agent", "0.1.0");
    assert_eq!(cfg.startup_delay, Duration::from_secs(60));
    assert_eq!(cfg.check_interval, Duration::from_secs(86_400));
    assert_eq!(cfg.github_repo, "nexus-agent");
    let cfg = cfg.with_startup_delay(Duration::from_secs(300)).with_check_interval(Duration::from_secs(10));
    assert_eq!(cfg.startup_delay, Duration::from_secs(300));
    assert_eq!(cfg.check_interval, Duration::from_secs(10));
    assert_eq!(cfg.github_owner, "SecuryBlack");
    assert_eq!(cfg.current_version, "0.1.0");
}

#[test]
fn top_quits_on_q_esc_and_ctrl_c_presses() {
    assert!(quits(true, KeyView::Q));
    assert!(quits(true, KeyView::Esc));
    assert!(quits(true, KeyView::CtrlC));
    assert!(!quits(true, KeyView::Other));
    assert!(!quits(false, KeyView::Q));
}

#[test]
fn stale_logs_are_old_log_files() {
    let week = MAX_LOG_AGE_SECS;
    assert_eq!(week, 7 * 24 * 3600);
    assert!(is_stale_log(Some("log"), Some((week + 1, 0)), week));
    assert!(is_stale_log(Some("log"), Some((week, 1)), week));
    assert!(!is_stale_log(Some("log"), Some((week, 0)), week));
    assert!(!is_stale_log(Some("txt"), Some((week * 2, 0)), week));
    assert!(!is_stale_log(None, Some((week * 2, 0)), week));
    assert!(!is_stale_log(Some("log"), None, week));
}

#[test]
fn updater_waits_then_exits_only_after_an_update() {
    let cfg = UpdaterConfig::new("o", "r", "b", "1.0.0").with_check_interval(Duration::from_secs(5));
    assert!(matches!(first_step(&cfg), UpdaterStep::WaitThenCheck(d) if d == Duration::from_secs(60)));
    assert!(matches!(step_after_check(&cfg, CheckOutcome::Updated), UpdaterStep::Exit(0)));
    for outcome in [CheckOutcome::UpToDate, CheckOutcome::Failed, CheckOutcome::Panicked] {
        assert!(matches!(step_after_check(&cfg, outcome), UpdaterStep::WaitThenCheck(d) if d == Duration::from_secs(5)));
    }
}

#[test]
fn status_payload_reflects_updates() {
    let mut p = StatusPayload::starting("test-agent", "1.0.0", 42, serde_json::Value::Null);
    assert_eq!(p.state, "starting");
    assert_eq!(p.since_unix, 42);
    assert!(p.details.is_null());
    p.set_state("running".to_string());
    p.set_details(serde_json::from_str("{\"foo\":\"bar\"}").unwrap());
    assert_eq!(p.state, "running");
    assert_eq!(p.details["foo"], "bar");
    assert_eq!(p.agent, "test-agent");
    assert_eq!(p.version, "1.0.0");
}

#[test]
fn status_error_texts() {
    assert_eq!(status_error_message(StatusFailure::Read, "eof"), "could not read from status socket: eof");
    assert_eq!(status_error_message(StatusFailure::Parse, "x"), "could not parse status payload: x");
}
