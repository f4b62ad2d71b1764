use sb_agent_core::command_intake_client::{
    client_error_message, is_blank_line, line_shape, reply_step, ClientFailure, LineShape, ReplyStep,
};
use sb_agent_core::command_intake::{
    authorize, default_socket_path, dispatch_step, DispatchAction, DispatchEvent, RunningCommand, effective_timeout_secs, plan_dispatch, socket_file_name, stamp_progress,
    CommandEnvelope, CommandOutcome, CommandProgress, CommandResponse, DispatchPlan, IntakeError, SeenCommands,
    SEEN_CAPACITY,
};

fn envelope(id: &str, command_type: &str, timeout_secs: u32, token: &str) -> CommandEnvelope {
    CommandEnvelope {
        command_id: id.to_string(),
        command_type: command_type.to_string(),
        payload: serde_json::Value::Null,
        timeout_secs,
        auth_token: token.to_string(),
    }
}

fn response(id: &str, stdout: &str) -> CommandResponse {
    CommandResponse::from_outcome(id.to_string(), CommandOutcome::ok(stdout), 7)
}

#[test]
fn plan_dispatch_rejects_unknown_command_type() {
    let seen = SeenCommands::new();
    let plan = plan_dispatch(&seen, &envelope("1", "does_not_exist", 5, ""), false);
    assert!(matches!(plan, DispatchPlan::Rejected(IntakeError::UnknownCommandType(t)) if t == "does_not_exist"));
}

#[test]
fn plan_dispatch_is_idempotent_for_repeated_command_id() {
    let mut seen = SeenCommands::new();
    let env = envelope("same-id", "count", 5, "");
    assert!(matches!(plan_dispatch(&seen, &env, true), DispatchPlan::Run { timeout_secs: 5 }));
    seen.insert("same-id".to_string(), response("same-id", "done"));
    match plan_dispatch(&seen, &env, true) {
        DispatchPlan::Cached(r) => {
            assert_eq!(r.stdout, "done");
            assert_eq!(r.command_id, "same-id");
        }
        _ => panic!("a repeated command id must return its first response"),
    }
    assert!(matches!(plan_dispatch(&seen, &env, false), DispatchPlan::Cached(_)));
}

#[test]
fn plan_dispatch_uses_default_timeout_when_none_given() {
    let seen = SeenCommands::new();
    assert!(matches!(plan_dispatch(&seen, &envelope("1", "x", 0, ""), true), DispatchPlan::Run { timeout_secs: 300 }));
    assert_eq!(effective_timeout_secs(0), 300);
    assert_eq!(effective_timeout_secs(12), 12);
}

#[test]
fn stamp_progress_sets_the_command_id() {
    let p = CommandProgress {
        command_id: "n/a".to_string(),
        stage: "working".to_string(),
        message: "halfway".to_string(),
        percent: 50,
    };
    let stamped = stamp_progress(p, "1");
    assert_eq!(stamped.command_id, "1");
    assert_eq!(stamped.stage, "working");
    assert_eq!(stamped.message, "halfway");
    assert_eq!(stamped.percent, 50);
}

#[test]
fn seen_commands_remember_the_latest_256() {
    let mut seen = SeenCommands::new();
    for i in 0..(SEEN_CAPACITY + 1) {
        let id = format!("id-{i}");
        seen.insert(id.clone(), response(&id, "ok"));
    }
    assert!(seen.get("id-0").is_none());
    assert!(seen.get("id-1").is_some());
    assert_eq!(seen.get(&format!("id-{SEEN_CAPACITY}")).unwrap().command_id, format!("id-{SEEN_CAPACITY}"));
    seen.insert("id-1".to_string(), response("id-1", "again"));
    assert_eq!(seen.get("id-1").unwrap().stdout, "again");
    assert!(seen.get("id-2").is_some());
}

#[test]
fn authorize_requires_the_exact_token() {
    assert!(authorize("secret", &envelope("1", "echo", 5, "secret")).is_ok());
    let refused = authorize("secret", &envelope("1", "echo", 5, "definitely-not-the-real-token"));
    match refused {
        Err(e) => {
            assert!(matches!(e, IntakeError::InvalidAuthToken));
            assert!(e.message().contains("auth_token"));
        }
        Ok(()) => panic!("a wrong token must be refused"),
    }
    assert!(authorize("secret", &envelope("1", "echo", 5, "")).is_err());
}

#[test]
fn outcomes_and_error_texts() {
    let ok = CommandOutcome::ok("done");
    assert!(ok.success && ok.stdout == "done" && ok.stderr.is_empty() && ok.exit_code == 0);
    let failed = CommandOutcome::failed("denied");
    assert!(!failed.success && failed.stdout.is_empty() && failed.stderr == "denied" && failed.exit_code == 1);
    assert_eq!(IntakeError::UnknownCommandType("x".to_string()).message(), "unknown command_type: x");
    assert_eq!(IntakeError::Timeout.message(), "command timed out");
    let r = CommandResponse::from_outcome("c".to_string(), CommandOutcome::failed("e"), 42);
    assert!(r.command_id == "c" && !r.success && r.stderr == "e" && r.exit_code == 1 && r.duration_ms == 42);
}

#[test]
fn intake_socket_names() {
    assert_eq!(default_socket_path("nexus"), r"\\.\pipe\sb-agent-cmd-nexus");
    assert_eq!(socket_file_name("nexus"), "nexus-cmd.sock");
}

#[test]
fn reply_lines_are_told_apart_by_keys() {
    assert!(matches!(line_shape(true, true), LineShape::Error));
    assert!(matches!(line_shape(true, false), LineShape::Error));
    assert!(matches!(line_shape(false, true), LineShape::Response));
    assert!(matches!(line_shape(false, false), LineShape::Progress));
    assert!(is_blank_line(""));
    assert!(is_blank_line(" \t\r"));
    assert!(!is_blank_line(" {} "));
}

#[test]
fn reply_steps_follow_the_protocol() {
    assert!(matches!(reply_step("  "), ReplyStep::Skip));
    assert!(matches!(reply_step("not json"), ReplyStep::Unparsable));
    assert!(matches!(reply_step("{\"error\":\"x\",\"duration_ms\":1}"), ReplyStep::Rejected));
    assert!(matches!(reply_step("{\"command_id\":\"1\",\"duration_ms\":3}"), ReplyStep::Final));
    assert!(matches!(reply_step("{\"command_id\":\"1\",\"percent\":50}"), ReplyStep::Progress));
}

#[test]
fn dispatch_steps_forward_progress_and_remember_the_response() {
    let mut seen = SeenCommands::new();
    let progress = CommandProgress {
        command_id: "n/a".to_string(),
        stage: "working".to_string(),
        message: "halfway".to_string(),
        percent: 50,
    };
    let mut forwarded = Vec::new();
    if let DispatchAction::Forward(p) = dispatch_step(&mut seen, "1", DispatchEvent::Progress(progress), 3) {
        forwarded.push(p);
    }
    assert_eq!(forwarded.len(), 1);
    assert_eq!(forwarded[0].percent, 50);
    assert_eq!(forwarded[0].command_id, "1");
    assert!(seen.get("1").is_none());
    match dispatch_step(&mut seen, "1", DispatchEvent::HandlerDone(CommandOutcome::ok("done")), 9) {
        DispatchAction::Respond(r) => {
            assert!(r.success && r.stdout == "done" && r.command_id == "1" && r.duration_ms == 9);
        }
        _ => panic!("a finished handler must produce the response"),
    }
    assert_eq!(seen.get("1").unwrap().stdout, "done");
    assert!(matches!(
        dispatch_step(&mut seen, "2", DispatchEvent::DeadlinePassed, 5000),
        DispatchAction::GiveUp(IntakeError::Timeout)
    ));
    assert!(seen.get("2").is_none());
}

#[test]
fn running_command_sends_nothing_after_finishing() {
    let mut seen = SeenCommands::new();
    let mut run = RunningCommand::start("7");
    let p = CommandProgress { command_id: String::new(), stage: "s".to_string(), message: "m".to_string(), percent: 1 };
    assert!(matches!(run.step(&mut seen, DispatchEvent::Progress(p.clone()), 1), Some(DispatchAction::Forward(_))));
    assert!(matches!(
        run.step(&mut seen, DispatchEvent::HandlerDone(CommandOutcome::ok("x")), 2),
        Some(DispatchAction::Respond(_))
    ));
    assert!(run.step(&mut seen, DispatchEvent::Progress(p), 3).is_none());
    assert!(run.step(&mut seen, DispatchEvent::DeadlinePassed, 4).is_none());
    assert_eq!(seen.get("7").unwrap().duration_ms, 2);
}

#[test]
fn client_error_texts() {
    assert_eq!(client_error_message(ClientFailure::Rejected, "nope"), "command rejected: nope");
    assert_eq!(client_error_message(ClientFailure::Connect, "refused"), "could not connect to command intake: refused");
    assert_eq!(client_error_message(ClientFailure::NoResponse, "ignored"), "command intake closed without a final response");
}
