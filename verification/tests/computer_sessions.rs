use chatcmd_runtime::computer::sessions::{
    ActionFailure, BrowserSessionRecord, ComputerSessions, DebugTarget, SessionAccess, act_observation, capture_after,
    check_action_count, devtools_port, page_target,
};
use chatcmd_runtime::computer::{ComputerObservation, SessionOwner, owner};
use chatcmd_runtime::context::OperationContext;

fn context(agent: &str, task: Option<&str>) -> OperationContext {
    let mut context = OperationContext::new("request", agent, "computer");
    context.task_id = task.map(|t| t.to_owned());
    context
}

fn record(id: &str, owner: SessionOwner) -> BrowserSessionRecord {
    BrowserSessionRecord {
        session_id: id.to_owned(),
        owner,
        width: 1280,
        height: 720,
        web_socket_url: format!("ws://127.0.0.1/{id}"),
    }
}

#[test]
fn session_limit_counts_only_running_browsers() {
    let ctx = context("agent", Some("task"));
    let mut table = ComputerSessions::new();
    assert!(table.admit_start(&vec![]).is_ok());
    for id in ["a", "b", "c", "d"] {
        table.insert(record(id, owner(&ctx)));
    }
    let error = table.admit_start(&vec![true, true, true, true]).unwrap_err();
    assert_eq!(error.code, "busy");
    assert!(error.retryable);
    assert_eq!(table.sessions.len(), 4);
    assert!(table.admit_start(&vec![true, false, true, true]).is_ok());
    let ids: Vec<&str> = table.sessions.iter().map(|s| s.session_id.as_str()).collect();
    assert_eq!(ids, vec!["a", "c", "d"]);
}

#[test]
fn recording_a_session_twice_replaces_it() {
    let ctx = context("agent", None);
    let mut table = ComputerSessions::new();
    table.insert(record("a", owner(&ctx)));
    let mut again = record("a", owner(&ctx));
    again.width = 800;
    table.insert(again);
    assert_eq!(table.sessions.len(), 1);
    assert_eq!(table.sessions[0].width, 800);
}

#[test]
fn sessions_are_invisible_to_other_owners() {
    let mine = context("agent", Some("task"));
    let other_task = context("agent", Some("other"));
    let other_agent = context("intruder", Some("task"));
    let mut table = ComputerSessions::new();
    table.insert(record("s1", owner(&mine)));
    assert_eq!(table.find(&mine, "s1").unwrap(), 0);
    assert_eq!(table.find(&other_task, "s1").unwrap_err().code, "computer_session_not_found");
    assert_eq!(table.access(&other_agent, "s1", false).unwrap_err().code, "computer_session_not_found");
    assert_eq!(table.close(&other_agent, "s1").unwrap_err().code, "computer_session_not_found");
    assert_eq!(table.sessions.len(), 1);
    assert_eq!(table.find(&mine, "missing").unwrap_err().code, "computer_session_not_found");
    let access = table.access(&mine, "s1", false).unwrap();
    assert_eq!(access.session_id, "s1");
    assert_eq!((access.width, access.height), (1280, 720));
    assert_eq!(access.web_socket_url, "ws://127.0.0.1/s1");
    let closed = table.close(&mine, "s1").unwrap();
    assert_eq!(closed.session_id, "s1");
    assert!(table.sessions.is_empty());
    assert_eq!(table.close(&mine, "s1").unwrap_err().code, "computer_session_not_found");
}

#[test]
fn ended_browser_forgets_its_session() {
    let ctx = context("agent", None);
    let mut table = ComputerSessions::new();
    table.insert(record("s1", owner(&ctx)));
    table.insert(record("s2", owner(&ctx)));
    assert_eq!(table.access(&ctx, "s1", true).unwrap_err().code, "computer_session_ended");
    assert_eq!(table.sessions.len(), 1);
    assert_eq!(table.sessions[0].session_id, "s2");
    assert_eq!(table.access(&ctx, "s1", false).unwrap_err().code, "computer_session_not_found");
}

#[test]
fn action_batches_hold_one_to_thirty_two_actions() {
    assert_eq!(check_action_count(0).unwrap_err().code, "invalid_arguments");
    assert!(check_action_count(1).is_ok());
    assert!(check_action_count(32).is_ok());
    assert_eq!(check_action_count(33).unwrap_err().code, "invalid_arguments");
    assert!(!capture_after(false, false, false));
    assert!(capture_after(false, false, true));
    assert!(capture_after(false, true, false));
    assert!(capture_after(true, false, false));
}

fn access() -> SessionAccess {
    SessionAccess { session_id: "s1".to_owned(), width: 1024, height: 768, web_socket_url: "ws://x".to_owned() }
}

#[test]
fn act_result_counts_completed_actions() {
    let o = act_observation(&access(), None, 3, None);
    assert_eq!(o.completed_action_count, Some(3));
    assert!(o.execution_warning.is_none());
    assert_eq!(o.session_id, "s1");
    assert!(o.screenshot_base64.is_none());
    assert_eq!((o.width, o.height), (1024, 768));

    let failure = ActionFailure { completed_action_count: 1, connection_lost: false, error_text: "boom".to_owned() };
    let o = act_observation(&access(), Some(Err("gone".to_owned())), 3, Some(failure));
    assert_eq!(o.completed_action_count, Some(1));
    let warning = o.execution_warning.unwrap();
    assert_eq!(warning.completed_action_count, 1);
    assert!(!warning.retry_action);
    assert_eq!(warning.message, "action 2 may have partially executed; inspect the browser state before continuing: boom");
    assert_eq!(
        o.verification_warning.as_deref(),
        Some("browser action may already have occurred; observe again without replaying it: gone")
    );

    let captured = ComputerObservation {
        session_id: "s1".to_owned(),
        url: "https://example.com/".to_owned(),
        title: "Example".to_owned(),
        width: 1024,
        height: 768,
        screenshot_base64: Some("AAAA".to_owned()),
        verification_warning: None,
        completed_action_count: None,
        execution_warning: None,
    };
    let lost = ActionFailure { completed_action_count: 0, connection_lost: true, error_text: String::new() };
    let o = act_observation(&access(), Some(Ok(captured)), 2, Some(lost));
    assert_eq!(o.url, "https://example.com/");
    assert_eq!(o.completed_action_count, Some(0));
    assert_eq!(
        o.execution_warning.unwrap().message,
        "no action was sent; the browser connection was lost; observe the session before continuing"
    );
}

#[test]
fn page_target_is_the_first_page() {
    let targets = vec![
        DebugTarget { target_type: "service_worker".to_owned(), web_socket_debugger_url: Some("ws://worker".to_owned()) },
        DebugTarget { target_type: "page".to_owned(), web_socket_debugger_url: Some("ws://page".to_owned()) },
        DebugTarget { target_type: "page".to_owned(), web_socket_debugger_url: Some("ws://other".to_owned()) },
    ];
    assert_eq!(page_target(&targets).unwrap(), "ws://page");
    let no_url = vec![DebugTarget { target_type: "page".to_owned(), web_socket_debugger_url: None }];
    let error = page_target(&no_url).unwrap_err();
    assert_eq!(error.code, "computer_backend_error");
    assert!(error.retryable);
    assert_eq!(page_target(&vec![]).unwrap_err().code, "computer_backend_error");
}

#[test]
fn devtools_port_is_read_from_the_first_line() {
    assert_eq!(devtools_port("9222\n/devtools/browser/abc\n"), Some(9222));
    assert_eq!(devtools_port("9222\r\n/devtools"), Some(9222));
    assert_eq!(devtools_port("9222"), Some(9222));
    assert_eq!(devtools_port("+80\n"), Some(80));
    assert_eq!(devtools_port(""), None);
    assert_eq!(devtools_port("\n9222"), None);
    assert_eq!(devtools_port("70000\n"), None);
    assert_eq!(devtools_port("9222\r"), None);
}
