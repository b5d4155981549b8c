use mongobar::op_logs::{read_line_record, StreamReader};
use mongobar::op_row::{Op, OpRow};
use mongobar::document::Doc;

fn row(id: &str) -> OpRow {
    let mut r = OpRow::default();
    r.id = id.to_owned();
    r.op = Op::Find;
    r
}

#[test]
fn streaming_hands_records_out_in_file_order() {
    let mut reader = StreamReader::new(3);
    let req = reader.needs_refill().unwrap();
    assert_eq!(req.from, 0);
    assert_eq!(req.count, 3);
    reader.refill(vec![row("a"), row("b"), row("c")]);
    assert!(reader.needs_refill().is_none());
    assert_eq!(reader.next().unwrap().id, "a");
    assert_eq!(reader.next().unwrap().id, "b");
    assert_eq!(reader.next().unwrap().id, "c");
    assert!(reader.next().is_none());
    assert!(reader.next().is_none());
}

#[test]
fn an_empty_log_ends_immediately() {
    let mut reader = StreamReader::new(0);
    assert!(reader.needs_refill().is_none());
    assert!(reader.next().is_none());
}

#[test]
fn comment_lines_read_as_the_empty_record() {
    let line = "# skip me".to_owned();
    let (record, rewind) = read_line_record(Some(&line), false).unwrap();
    let record = record.unwrap();
    assert!(matches!(record.op, Op::Nop));
    assert_eq!(record.id, "");
    assert_eq!(record.cmd, Doc::Null);
    assert!(!rewind);
}

#[test]
fn the_file_end_rewinds_unless_disallowed() {
    assert_eq!(read_line_record(None, false).unwrap(), (None, true));
    assert_eq!(read_line_record(None, true).unwrap(), (None, false));
}

#[test]
fn a_malformed_line_is_refused() {
    let line = "{broken".to_owned();
    assert!(read_line_record(Some(&line), false).is_none());
}
