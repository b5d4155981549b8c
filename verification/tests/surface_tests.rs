use mongobar::config::Mongobar;
use mongobar::convert::row_from_audit;
use mongobar::document::Doc;
use mongobar::hash::to_sha3;
use mongobar::metrics::{ind_keys, Indicator, Metric};
use mongobar::op_row::Op;
use mongobar::regexp::reg_filter_line;
use mongobar::reverse::reverse_log_content;
use mongobar::signal::Signal;
use mongobar::json::row_to_line;
use mongobar::op_logs::parse_row_line;

#[test]
fn reversing_reverses_the_nonempty_lines() {
    let input = b"one\ntwo\n\nthree\n".to_vec();
    let out = reverse_log_content(&input);
    assert_eq!(out, b"three\ntwo\none\n".to_vec());
}

#[test]
fn reversing_twice_preserves_the_line_sequence() {
    let input = b"a\nbb\nccc".to_vec();
    let once = reverse_log_content(&input);
    let twice = reverse_log_content(&once);
    assert_eq!(twice, b"a\nbb\nccc\n".to_vec());
}

#[test]
fn signals_step_from_running_to_stopped() {
    let mut s = Signal::new();
    assert_eq!(s.get(), 0);
    s.set(1);
    assert_eq!(s.get(), 1);
    s.set(2);
    assert_eq!(s.get(), 2);
    s.set(0);
    assert_eq!(s.get(), 0);
}

#[test]
fn metrics_count_and_queue() {
    let mut m = Metric::new();
    m.increment();
    m.add(5);
    m.sub(2);
    assert_eq!(m.get(), 4);
    m.set(9);
    assert_eq!(m.get(), 9);
    m.push("one".to_owned());
    m.push("two".to_owned());
    m.update(0, "first".to_owned());
    m.update(9, "third".to_owned());
    assert_eq!(m.logs(), vec!["first", "two", "third"]);
    let drained = m.consumers();
    assert_eq!(drained.len(), 3);
    assert_eq!(m.logs().len(), 0);
}

#[test]
fn keyed_aggregates_fold_hits() {
    let mut m = Metric::new();
    m.map_add("k", 10, "eg-one");
    m.map_add("k", 20, "eg-two");
    m.map_add("other", 1, "eg-three");
    assert_eq!(m.map_keys(), vec!["k", "other"]);
    let bucket = m.map_get("k").unwrap();
    assert_eq!(bucket.count, 2);
    assert_eq!(bucket.sum, 30);
    assert_eq!(bucket.egs, vec!["eg-one"]);
    assert!(m.map_get("absent").is_none());
}

#[test]
fn the_registry_hands_out_named_metrics() {
    let mut ind = Indicator::new();
    ind.init(ind_keys());
    assert_eq!(ind.len(), 12);
    let i = ind.find("progress").unwrap();
    ind.metric_at_mut(i).add(7);
    assert_eq!(ind.metric_at(i).get(), 7);
    assert_eq!(ind.take("progress").get(), 7);
    // consumers never fail to read: an unknown name reads as a default
    assert_eq!(ind.take("unknown").get(), 0);
    assert_eq!(ind.take("unknown").logs().len(), 0);
    ind.reset();
    assert_eq!(ind.metric_at(i).get(), 0);
}

#[test]
fn the_executor_metric_names_are_fixed() {
    let keys = ind_keys();
    assert_eq!(keys.len(), 12);
    assert_eq!(keys[0], "boot_worker");
    assert_eq!(keys[5], "progress_total");
    assert_eq!(keys[11], "dyn_cc_limit");
}

#[test]
fn workspaces_lay_their_files_out_by_name() {
    let m = Mongobar::new(".", "qxg");
    assert_eq!(m.dir, "./.mongobar");
    assert_eq!(m.cwd(), "./.mongobar/qxg");
    assert_eq!(m.op_file_oplogs, "./.mongobar/qxg/oplogs.op");
    assert_eq!(m.op_file_revert, "./.mongobar/qxg/revert.op");
    assert_eq!(m.op_file_resume, "./.mongobar/qxg/resume.op");
    assert_eq!(m.op_file_data, "./.mongobar/qxg/data.op");
    assert_eq!(m.op_state_file, "./.mongobar/qxg/state.json");
}

#[test]
fn configuration_merges_only_what_is_given() {
    let mut m = Mongobar::new(".", "qxg");
    assert_eq!(m.config.thread_count, 10);
    assert_eq!(m.config.loop_count, 1000);
    m.merge_config_uri(Some("mongodb://localhost".to_owned()));
    m.merge_config_uri(None);
    m.merge_config_thread_count(Some(4));
    m.merge_config_loop_count(None);
    m.merge_config_rebuild(Some(true));
    assert_eq!(m.config.uri, "mongodb://localhost");
    assert_eq!(m.config.thread_count, 4);
    assert_eq!(m.config.loop_count, 1000);
    assert_eq!(m.config.rebuild, Some(true));
}

#[test]
fn digests_are_stable_hex_of_the_command() {
    let a = to_sha3("hello");
    let b = to_sha3("hello");
    let c = to_sha3("other");
    assert_eq!(a, b);
    assert_ne!(a, c);
    assert_eq!(a.len(), 32);
    assert!(a.chars().all(|ch| ch.is_ascii_hexdigit()));
}

#[test]
fn audit_rows_become_records() {
    let command = "{\"args\":{\"find\":\"orders\"},\"extra\":1}";
    let row = row_from_audit("find", "shop", "orders", command, 42).unwrap();
    assert!(matches!(row.op, Op::Find));
    assert_eq!(row.db, "shop");
    assert_eq!(row.coll, "orders");
    assert_eq!(row.ns, "shop.orders");
    assert_eq!(row.ts, 42);
    assert_eq!(row.id, to_sha3(command));
    assert_eq!(
        row.cmd,
        Doc::Obj(vec![("find".to_owned(), Doc::Text("orders".to_owned()))])
    );
    assert!(row_from_audit("find", "d", "c", "{\"noargs\":1}", 0).is_none());
    assert!(row_from_audit("find", "d", "c", "not json", 0).is_none());
}

#[test]
fn written_lines_read_back_as_the_same_record() {
    let mut row = mongobar::op_row::OpRow::default();
    row.id = "i1".to_owned();
    row.op = Op::Insert;
    row.db = "shop".to_owned();
    row.coll = "orders".to_owned();
    row.ns = "shop.orders".to_owned();
    row.ts = 9;
    row.cmd = Doc::Obj(vec![(
        "documents".to_owned(),
        Doc::Arr(vec![Doc::Obj(vec![("_id".to_owned(), Doc::Text("a".to_owned()))])]),
    )]);
    let line = row_to_line(&row);
    assert!(!line.contains('\n'));
    let back = parse_row_line(&line).unwrap();
    assert_eq!(back, row);
}

#[test]
fn line_filtering_keeps_matching_lines() {
    let lines = vec!["alpha".to_owned(), "beta".to_owned(), "alpine".to_owned()];
    let kept = reg_filter_line(&lines, "^al").unwrap();
    assert_eq!(kept, vec!["alpha", "alpine"]);
    assert!(reg_filter_line(&lines, "(").is_none());
}
