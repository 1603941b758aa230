use boop_core::sandbox::{Bridge, Deadline, ExecutionResult, SelectionContext, Termination};

fn ctx(full: &str, selections: Vec<(usize, usize)>) -> SelectionContext {
    SelectionContext { full_text: full.as_bytes().to_vec(), selections }
}

fn expect_transformed(r: ExecutionResult, text: &str) {
    match r {
        ExecutionResult::Transformed(t) => assert_eq!(t, text.as_bytes().to_vec()),
        other => panic!("expected Transformed, got {:?}", other),
    }
}

fn expect_error(r: ExecutionResult, msg: &str) {
    match r {
        ExecutionResult::Error(m) => assert_eq!(m, msg.as_bytes().to_vec()),
        other => panic!("expected Error, got {:?}", other),
    }
}

#[test]
fn replace_full_yields_transformed() {
    let mut bridge = Bridge::new(ctx("abc", vec![]), vec![]);
    assert_eq!(bridge.full_text(), &b"abc".to_vec());
    bridge.replace_full(b"X".to_vec());
    expect_transformed(bridge.into_result(Termination::Completed), "X");
}

#[test]
fn uncaught_error_yields_error_and_host_continues() {
    let bridge = Bridge::new(ctx("abc", vec![]), vec![]);
    expect_error(
        bridge.into_result(Termination::Raised(b"bad input".to_vec())),
        "bad input",
    );
    // The failure was contained in the result: the host goes on and can
    // run the next invocation.
    let mut next = Bridge::new(ctx("abc", vec![]), vec![]);
    next.replace_full(b"ok".to_vec());
    expect_transformed(next.into_result(Termination::Completed), "ok");
}

#[test]
fn runaway_script_is_cancelled_within_budget_checkpoints() {
    let deadline = Deadline::new(1_000, 2_000);
    // Simulate an infinite loop: the interpreter hits a checkpoint every
    // 100 ms of wall clock until the host requests interruption.
    let mut now: u64 = 1_000;
    let mut checkpoints: u32 = 0;
    while !deadline.expired(now) {
        now += 100;
        checkpoints += 1;
        assert!(checkpoints <= 20, "checkpoint loop must stop after the budget");
    }
    assert_eq!(now, 3_000);
    let bridge = Bridge::new(ctx("abc", vec![]), vec![]);
    let r = bridge.into_result(Termination::DeadlineExceeded);
    assert!(matches!(r, ExecutionResult::Cancelled));
}

#[test]
fn deadline_never_fires_before_start_or_budget() {
    let deadline = Deadline::new(1_000, 2_000);
    assert!(!deadline.expired(0));
    assert!(!deadline.expired(1_000));
    assert!(!deadline.expired(2_999));
    assert!(deadline.expired(3_000));
    assert!(deadline.expired(u64::MAX));
}

#[test]
fn silent_completion_is_noop() {
    let bridge = Bridge::new(ctx("abc", vec![(0, 1)]), vec![]);
    let r = bridge.into_result(Termination::Completed);
    assert!(matches!(r, ExecutionResult::NoOp));
}

#[test]
fn selection_replacement_is_spliced() {
    let mut bridge = Bridge::new(ctx("hello world", vec![(0, 5), (6, 11)]), vec![]);
    assert_eq!(bridge.selection_count(), 2);
    assert_eq!(bridge.selection_text(1), Some(b"world".to_vec()));
    assert!(bridge.replace_selection(1, b"WORLD".to_vec()));
    expect_transformed(bridge.into_result(Termination::Completed), "hello WORLD");
}

#[test]
fn replacing_both_selections_splices_both() {
    let mut bridge = Bridge::new(ctx("a-b-c", vec![(0, 1), (4, 5)]), vec![]);
    assert!(bridge.replace_selection(0, b"AA".to_vec()));
    assert!(bridge.replace_selection(1, b"CC".to_vec()));
    expect_transformed(bridge.into_result(Termination::Completed), "AA-b-CC");
}

#[test]
fn replace_selection_out_of_range_changes_nothing() {
    let mut bridge = Bridge::new(ctx("abc", vec![(0, 1)]), vec![]);
    assert!(!bridge.replace_selection(5, b"X".to_vec()));
    let r = bridge.into_result(Termination::Completed);
    assert!(matches!(r, ExecutionResult::NoOp));
}

#[test]
fn full_replacement_wins_over_selection_replacement() {
    let mut bridge = Bridge::new(ctx("abc", vec![(0, 1)]), vec![]);
    assert!(bridge.replace_selection(0, b"Z".to_vec()));
    bridge.replace_full(b"whole".to_vec());
    expect_transformed(bridge.into_result(Termination::Completed), "whole");
}

#[test]
fn posted_error_beats_output_and_first_message_wins() {
    let mut bridge = Bridge::new(ctx("abc", vec![]), vec![]);
    bridge.replace_full(b"X".to_vec());
    bridge.post_error(b"first".to_vec());
    bridge.post_error(b"second".to_vec());
    expect_error(bridge.into_result(Termination::Completed), "first");
}

#[test]
fn deadline_beats_everything() {
    let mut bridge = Bridge::new(ctx("abc", vec![]), vec![]);
    bridge.replace_full(b"X".to_vec());
    bridge.post_error(b"late".to_vec());
    let r = bridge.into_result(Termination::DeadlineExceeded);
    assert!(matches!(r, ExecutionResult::Cancelled));
}

#[test]
fn config_values_are_readable_and_infos_are_kept() {
    let config = vec![
        (b"indent".to_vec(), b"4".to_vec()),
        (b"mode".to_vec(), b"strict".to_vec()),
    ];
    let mut bridge = Bridge::new(ctx("abc", vec![]), config);
    assert_eq!(bridge.config_value(&b"mode".to_vec()), Some(&b"strict".to_vec()));
    assert_eq!(bridge.config_value(&b"missing".to_vec()), None);
    bridge.post_info(b"note".to_vec());
    assert!(!bridge.is_done());
    bridge.signal_done();
    assert!(bridge.is_done());
    let r = bridge.into_result(Termination::Completed);
    assert!(matches!(r, ExecutionResult::NoOp));
}
