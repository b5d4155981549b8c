use mongobar::document::Doc;
use mongobar::executor::{
    admission_allows, full_run_model, plan_ops, progress_total, spawn_step, stream_run_model,
    worker_waits_at_barrier, ClientPool, DriverCall, OpRunMode, SpawnDecision,
};
use mongobar::op_logs::OpReadMode;
use mongobar::op_row::{Op, OpRow};
use mongobar::signal::Signal;

fn text(s: &str) -> Doc {
    Doc::Text(s.to_owned())
}

fn find_row(id: &str) -> OpRow {
    let mut r = OpRow::default();
    r.id = id.to_owned();
    r.op = Op::Find;
    r.db = "shop".to_owned();
    r.coll = "orders".to_owned();
    r.ns = "shop.orders".to_owned();
    r.cmd = Doc::Obj(vec![
        ("find".to_owned(), text("orders")),
        ("lsid".to_owned(), Doc::Int(1)),
        ("$db".to_owned(), text("shop")),
    ]);
    r
}

#[test]
fn a_find_issues_one_cursor_command_with_the_envelope_stripped() {
    let calls = plan_ops(&find_row("f1"), &OpRunMode::Readonly);
    assert_eq!(calls.len(), 1);
    match &calls[0] {
        DriverCall::RunCursorCommand { db, cmd } => {
            assert_eq!(db, "shop");
            assert_eq!(cmd.get("find"), Some(&text("orders")));
            assert_eq!(cmd.get("lsid"), None);
            assert_eq!(cmd.get("$db"), None);
        },
        other => panic!("unexpected call: {:?}", other),
    }
}

#[test]
fn writes_are_skipped_in_the_read_only_mode() {
    let mut r = OpRow::default();
    r.op = Op::Insert;
    r.cmd = Doc::Obj(vec![(
        "documents".to_owned(),
        Doc::Arr(vec![Doc::Obj(vec![("_id".to_owned(), text("a"))])]),
    )]);
    assert_eq!(plan_ops(&r, &OpRunMode::Readonly).len(), 0);
    assert_eq!(plan_ops(&r, &OpRunMode::ReadWrite).len(), 1);
}

#[test]
fn inserts_shed_the_version_field() {
    let mut r = OpRow::default();
    r.op = Op::Insert;
    r.coll = "c".to_owned();
    r.cmd = Doc::Obj(vec![(
        "documents".to_owned(),
        Doc::Arr(vec![Doc::Obj(vec![
            ("_id".to_owned(), text("a")),
            ("__v".to_owned(), Doc::Int(0)),
        ])]),
    )]);
    let calls = plan_ops(&r, &OpRunMode::ReadWrite);
    match &calls[0] {
        DriverCall::InsertOne { doc, .. } => {
            assert_eq!(doc.get("_id"), Some(&text("a")));
            assert_eq!(doc.get("__v"), None);
        },
        other => panic!("unexpected call: {:?}", other),
    }
}

#[test]
fn update_entries_without_a_query_are_passed_over() {
    let mut r = OpRow::default();
    r.op = Op::Update;
    r.cmd = Doc::Obj(vec![(
        "updates".to_owned(),
        Doc::Arr(vec![
            Doc::Obj(vec![
                ("q".to_owned(), Doc::Obj(vec![])),
                ("u".to_owned(), Doc::Obj(vec![])),
            ]),
            Doc::Obj(vec![("u".to_owned(), Doc::Obj(vec![]))]),
        ]),
    )]);
    assert_eq!(plan_ops(&r, &OpRunMode::ReadWrite).len(), 1);
}

#[test]
fn the_spawn_controller_follows_its_order() {
    assert_eq!(spawn_step(2, 0, 2, 2, 0), SpawnDecision::Finish);
    assert_eq!(spawn_step(2, 1, 2, 2, 1), SpawnDecision::Stop);
    assert_eq!(spawn_step(2, 0, 1, 2, 0), SpawnDecision::Sleep);
    assert_eq!(spawn_step(2, 1, 0, 2, 0), SpawnDecision::Spawn(2));
}

#[test]
fn the_barrier_holds_only_initial_workers_on_multi_pass_runs() {
    assert!(worker_waits_at_barrier(0, 4, 2));
    assert!(!worker_waits_at_barrier(5, 4, 2));
    assert!(!worker_waits_at_barrier(0, 4, 1));
    assert!(worker_waits_at_barrier(0, 4, 0));
}

#[test]
fn the_admission_gate_blocks_at_the_limit() {
    assert!(admission_allows(0, 100));
    assert!(admission_allows(4, 3));
    assert!(!admission_allows(4, 4));
    assert!(!admission_allows(1, 2));
}

#[test]
fn the_progress_denominator_multiplies_under_full_line() {
    let full = OpReadMode::FullLine(None);
    assert_eq!(progress_total(1, 2, 4, &full), 8);
    assert_eq!(progress_total(5, 3, 2, &full), 30);
    assert_eq!(progress_total(5, 0, 2, &full), 0);
    assert_eq!(progress_total(5, 3, 2, &OpReadMode::StreamLine), 5);
}

#[test]
fn the_pool_grows_one_handle_per_block() {
    let mut pool = ClientPool::new(2);
    assert_eq!(pool.get(), (true, 0));
    assert_eq!(pool.get(), (false, 0));
    assert_eq!(pool.get(), (true, 1));
    assert_eq!(pool.get(), (false, 1));
    assert_eq!(pool.get(), (true, 2));
}

#[test]
fn a_streaming_run_dispatches_the_log_once_in_order() {
    let log = vec![find_row("f1"), find_row("f2"), find_row("f3")];
    let schedule = vec![0u64, 1u64];
    let mut signal = Signal::new();
    let dispatched = stream_run_model(&log, 2, 1, &schedule, None, &mut signal);
    assert_eq!(dispatched.len(), 3);
    let ids: Vec<&str> = dispatched.iter().map(|(_, r)| r.id.as_str()).collect();
    assert_eq!(ids, vec!["f1", "f2", "f3"]);
    assert_eq!(dispatched[0].0, 0);
    assert_eq!(dispatched[1].0, 1);
    assert_eq!(signal.get(), 0);
}

#[test]
fn a_streaming_run_repeats_the_log_once_per_pass() {
    let log = vec![find_row("f1"), find_row("f2")];
    let schedule = vec![0u64, 1u64, 0u64];
    let mut signal = Signal::new();
    let dispatched = stream_run_model(&log, 2, 3, &schedule, None, &mut signal);
    let ids: Vec<&str> = dispatched.iter().map(|(_, r)| r.id.as_str()).collect();
    assert_eq!(ids, vec!["f1", "f2", "f1", "f2", "f1", "f2"]);
    assert_eq!(signal.get(), 0);
}

#[test]
fn a_stop_request_retires_the_streaming_run() {
    let log = vec![find_row("f1"), find_row("f2"), find_row("f3")];
    let schedule = vec![0u64];
    let mut signal = Signal::new();
    let dispatched = stream_run_model(&log, 1, 1, &schedule, Some(1), &mut signal);
    assert_eq!(dispatched.len(), 1);
    assert_eq!(signal.get(), 2);
}

#[test]
fn a_stop_request_halts_later_passes_too() {
    let log = vec![find_row("f1"), find_row("f2")];
    let schedule = vec![0u64];
    let mut signal = Signal::new();
    let dispatched = stream_run_model(&log, 1, 5, &schedule, Some(3), &mut signal);
    let ids: Vec<&str> = dispatched.iter().map(|(_, r)| r.id.as_str()).collect();
    assert_eq!(ids, vec!["f1", "f2", "f1"]);
    assert_eq!(signal.get(), 2);
}

#[test]
fn a_full_line_run_reaches_its_denominator() {
    let mut signal = Signal::new();
    let progress = full_run_model(1, 2, 4, None, &mut signal);
    assert_eq!(progress, 8);
    assert_eq!(signal.get(), 0);
}

#[test]
fn a_stopped_full_line_run_stays_under_its_denominator() {
    let mut signal = Signal::new();
    let progress = full_run_model(10, 2, 4, Some(5), &mut signal);
    assert_eq!(progress, 5);
    assert_eq!(signal.get(), 2);
}
