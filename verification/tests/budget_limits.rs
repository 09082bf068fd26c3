use chatcmd_runtime::budget::{AdmissionController, BudgetTracker, BudgetUsage, ProgressLimiter, ToolBudget};

#[test]
fn policy_intersection_never_allows_caller_to_raise_caps() {
    let hard = ToolBudget { max_files: Some(10), max_bytes_read: Some(100), ..ToolBudget::default() };
    let caller = ToolBudget { max_files: Some(99), max_bytes_read: Some(50), ..ToolBudget::default() };
    let effective = ToolBudget::intersect(&[hard, caller]);
    assert_eq!(effective.max_files, Some(10));
    assert_eq!(effective.max_bytes_read, Some(50));
}

#[test]
fn counters_are_exact_at_boundary_and_do_not_overshoot() {
    let mut tracker = BudgetTracker::new(ToolBudget { max_bytes_read: Some(8), ..ToolBudget::default() }, 0);
    tracker.consume_read_bytes(8, 0).expect("boundary accepted");
    assert_eq!(tracker.consume_read_bytes(1, 0).expect_err("over budget").code, "byteBudgetExceeded");
    assert_eq!(tracker.finish_usage(0).bytes_read, 8);
}

#[test]
fn cancellation_is_typed_and_includes_usage() {
    let mut tracker = BudgetTracker::new(ToolBudget::default(), 0);
    tracker.consume_entries(2, 0).expect("within budget");
    tracker.cancel();
    let error = tracker.checkpoint(0).expect_err("cancelled");
    assert_eq!(error.code, "operationCancelled");
    assert!(error.message.contains("\"entries\":2"));
}

#[test]
fn admission_rejects_and_releases_capacity() {
    let mut controller = AdmissionController::new(1, 1, 10);
    let permit = controller.try_admit("actor", 1, 10).expect("first permit");
    let error = controller.try_admit("actor", 1, 1).expect_err("capacity exhausted");
    assert_eq!(error.code, "admissionDenied");
    assert!(error.retryable);
    controller.release(permit);
    controller.try_admit("actor", 1, 10).expect("released");
}

#[test]
fn progress_is_bounded_but_terminal_is_always_allowed() {
    let mut limiter = ProgressLimiter::new(u32::MAX, 1);
    assert!(limiter.should_emit(false, 0));
    assert!(!limiter.should_emit(false, 0));
    assert!(limiter.should_emit(true, 0));
}

#[test]
fn intersecting_with_an_unlimited_layer_keeps_every_limit() {
    let hard = ToolBudget { max_entries: Some(5), deadline: Some(40), max_open_files: Some(3), ..ToolBudget::default() };
    let effective = ToolBudget::intersect(&[hard, ToolBudget::default()]);
    assert_eq!(effective.max_entries, Some(5));
    assert_eq!(effective.deadline, Some(40));
    assert_eq!(effective.max_open_files, Some(3));
    assert_eq!(effective.max_files, None);
    let none = ToolBudget::intersect(&[]);
    assert_eq!(none.max_bytes_written, None);
}

#[test]
fn deadline_passes_with_a_typed_retryable_error() {
    let budget = ToolBudget::default().with_timeout(100, 0);
    assert_eq!(budget.deadline, Some(101));
    let saturated = ToolBudget::default().with_timeout(u64::MAX - 1, 10);
    assert_eq!(saturated.deadline, Some(u64::MAX));
    let mut tracker = BudgetTracker::new(budget, 100);
    tracker.set_phase("scanning");
    tracker.checkpoint(100).expect("before the deadline");
    let error = tracker.checkpoint(101).expect_err("deadline");
    assert_eq!(error.code, "timeBudgetExceeded");
    assert!(error.retryable);
    assert_eq!(error.phase.as_deref(), Some("scanning"));
    assert_eq!(error.usage.expect("usage").elapsed_ms, 1);
}

#[test]
fn usage_renders_as_compact_json() {
    let usage = BudgetUsage { files: 1, entries: 2, bytes_read: 30, bytes_written: 4, output_bytes: 5, progress_events: 6, elapsed_ms: 70 };
    assert_eq!(
        usage.to_json(),
        "{\"files\":1,\"entries\":2,\"bytesRead\":30,\"bytesWritten\":4,\"outputBytes\":5,\"progressEvents\":6,\"elapsedMs\":70}"
    );
}

#[test]
fn each_counter_reports_its_own_code() {
    let budget = ToolBudget {
        max_files: Some(0),
        max_entries: Some(0),
        max_bytes_written: Some(0),
        max_output_bytes: Some(0),
        max_progress_events: Some(0),
        ..ToolBudget::default()
    };
    let mut tracker = BudgetTracker::new(budget, 0);
    assert_eq!(tracker.consume_files(1, 0).expect_err("files").code, "fileBudgetExceeded");
    assert_eq!(tracker.consume_entries(1, 0).expect_err("entries").code, "entryBudgetExceeded");
    assert_eq!(tracker.consume_write_bytes(1, 0).expect_err("bytes").code, "byteBudgetExceeded");
    assert_eq!(tracker.reserve_output(1, 0).expect_err("output").code, "outputBudgetExceeded");
    assert_eq!(tracker.consume_progress_event(0).expect_err("progress").code, "progressBudgetExceeded");
    tracker.record_files(u64::MAX);
    tracker.record_files(1);
    assert_eq!(tracker.finish_usage(0).files, u64::MAX);
}

#[test]
fn admission_limits_memory_and_actors_separately() {
    let mut controller = AdmissionController::new(2, 1, 10);
    let first = controller.try_admit("a", 1, 6).expect("first");
    assert_eq!(controller.try_admit("b", 1, 5).expect_err("memory").code, "admissionDenied");
    assert_eq!(controller.try_admit("a", 1, 1).expect_err("actor").code, "admissionDenied");
    let second = controller.try_admit("b", 1, 4).expect("other actor");
    controller.release(first);
    controller.release(second);
    controller.try_admit("a", 1, 10).expect("all released");
}

#[test]
fn progress_is_spaced_by_the_rate() {
    let mut limiter = ProgressLimiter::new(2, 10);
    assert!(limiter.should_emit(false, 0));
    assert!(!limiter.should_emit(false, 499_999_999));
    assert!(limiter.should_emit(false, 500_000_000));
    let mut silent = ProgressLimiter::new(0, 10);
    assert!(silent.should_emit(false, 0));
    assert!(!silent.should_emit(false, u64::MAX));
}
