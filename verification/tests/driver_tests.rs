use minlambda::driver::{
    cycle_step, encode_error_body, next_path, plan_recovery, plan_response, recovery_outcome,
    CycleAction, CycleEvent, CycleOutcome, HandlerOutcome,
};

#[test]
fn next_path_is_fixed() {
    assert_eq!(next_path(), b"invocation/next");
}

#[test]
fn success_posts_payload_to_response_path() {
    let plan = plan_response(b"req-1", &HandlerOutcome::Success(b"\"ok\"".to_vec()));
    assert_eq!(plan.path, b"invocation/req-1/response");
    assert_eq!(plan.body, b"\"ok\"");
}

#[test]
fn handler_failure_posts_report_to_error_path() {
    let plan = plan_response(
        b"req-2",
        &HandlerOutcome::Failure {
            error_type: b"my::Error".to_vec(),
            error_message: b"it broke".to_vec(),
        },
    );
    assert_eq!(plan.path, b"invocation/req-2/error");
    assert_ne!(plan.path, b"invocation/req-2/response");
    assert_eq!(
        plan.body,
        b"{\"errorType\":\"my::Error\",\"errorMessage\":\"it broke\"}"
    );
}

#[test]
fn recovery_report_targets_init_error_path() {
    let plan = plan_recovery(b"connection refused");
    assert_eq!(plan.path, b"init/error");
    assert_eq!(
        plan.body,
        b"{\"errorType\":\"minlambda::Error\",\"errorMessage\":\"connection refused\"}"
    );
}

#[test]
fn failed_recovery_report_is_fatal() {
    assert_eq!(recovery_outcome(true), CycleOutcome::Continue);
    assert_eq!(recovery_outcome(false), CycleOutcome::Fatal);
}

#[test]
fn error_body_escapes_json() {
    assert_eq!(
        encode_error_body(b"t", b"say \"hi\" \\ now"),
        b"{\"errorType\":\"t\",\"errorMessage\":\"say \\\"hi\\\" \\\\ now\"}"
    );
    assert_eq!(
        encode_error_body(b"t", b"line\nbreak\ttab\rcr"),
        b"{\"errorType\":\"t\",\"errorMessage\":\"line\\nbreak\\ttab\\rcr\"}"
    );
    assert_eq!(
        encode_error_body(b"t", &[0x01, 0x1f]),
        b"{\"errorType\":\"t\",\"errorMessage\":\"\\u0001\\u001f\"}"
    );
}

#[test]
fn failed_fetch_attempts_recovery_report_then_restarts() {
    let action = cycle_step(CycleEvent::FetchFailed {
        message: b"connection refused".to_vec(),
    });
    match action {
        CycleAction::Post { plan, recovery } => {
            assert!(recovery);
            assert_eq!(plan.path, b"init/error");
            assert_eq!(
                plan.body,
                b"{\"errorType\":\"minlambda::Error\",\"errorMessage\":\"connection refused\"}"
            );
        }
        other => panic!("unexpected action: {:?}", other),
    }
    assert_eq!(cycle_step(CycleEvent::RecoveryDone { ok: true }), CycleAction::Fetch);
    assert_eq!(cycle_step(CycleEvent::RecoveryDone { ok: false }), CycleAction::Abort);
}

#[test]
fn handler_failure_is_posted_to_error_path_not_success_path() {
    let action = cycle_step(CycleEvent::HandlerDone {
        request_id: b"id-9".to_vec(),
        outcome: HandlerOutcome::Failure {
            error_type: b"app::Error".to_vec(),
            error_message: b"boom".to_vec(),
        },
    });
    match action {
        CycleAction::Post { plan, recovery } => {
            assert!(!recovery);
            assert_eq!(plan.path, b"invocation/id-9/error");
            assert_ne!(plan.path, b"invocation/id-9/response");
            assert_eq!(
                plan.body,
                b"{\"errorType\":\"app::Error\",\"errorMessage\":\"boom\"}"
            );
        }
        other => panic!("unexpected action: {:?}", other),
    }
}

#[test]
fn finished_respond_restarts_and_failed_respond_reports() {
    assert_eq!(cycle_step(CycleEvent::RespondDone { failure: None }), CycleAction::Fetch);
    let action = cycle_step(CycleEvent::RespondDone {
        failure: Some(b"broken pipe".to_vec()),
    });
    match action {
        CycleAction::Post { plan, recovery } => {
            assert!(recovery);
            assert_eq!(plan.path, b"init/error");
        }
        other => panic!("unexpected action: {:?}", other),
    }
}

#[test]
fn error_body_parses_as_json() {
    let message = "quotes \" and \\ and\ncontrol \u{1}";
    let ours = encode_error_body(b"minlambda::Error", message.as_bytes());
    let parsed: serde_json::Value = serde_json::from_slice(&ours).unwrap();
    assert_eq!(parsed.get("errorType").unwrap().as_str().unwrap(), "minlambda::Error");
    assert_eq!(parsed.get("errorMessage").unwrap().as_str().unwrap(), message);
}
