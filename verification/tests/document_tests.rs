use mongobar::document::Doc;
use mongobar::json::parse_json_line;
use mongobar::op_logs::{full_load, parse_row_line, LogError};
use mongobar::op_row::Op;

fn text(s: &str) -> Doc {
    Doc::Text(s.to_owned())
}

#[test]
fn objects_answer_their_first_binding() {
    let d = Doc::Obj(vec![
        ("a".to_owned(), Doc::Int(1)),
        ("b".to_owned(), Doc::Int(2)),
        ("a".to_owned(), Doc::Int(3)),
    ]);
    assert_eq!(d.get("a"), Some(&Doc::Int(1)));
    assert_eq!(d.get("b"), Some(&Doc::Int(2)));
    assert_eq!(d.get("c"), None);
    assert_eq!(Doc::Null.get("a"), None);
}

#[test]
fn without_sheds_every_binding_of_the_key() {
    let d = Doc::Obj(vec![
        ("lsid".to_owned(), Doc::Int(1)),
        ("find".to_owned(), text("orders")),
        ("lsid".to_owned(), Doc::Int(2)),
    ]);
    let r = d.without("lsid");
    assert_eq!(r, Doc::Obj(vec![("find".to_owned(), text("orders"))]));
}

#[test]
fn deep_clone_copies_the_whole_tree() {
    let d = Doc::Arr(vec![Doc::Obj(vec![("k".to_owned(), Doc::Bool(true))]), Doc::Num("1.5".to_owned())]);
    assert_eq!(d.deep_clone(), d);
}

#[test]
fn json_lines_parse_into_documents() {
    let d = parse_json_line("{\"a\": 1, \"b\": [true, null, \"x\"]}").unwrap();
    assert_eq!(d.get("a"), Some(&Doc::Int(1)));
    assert_eq!(
        d.get("b"),
        Some(&Doc::Arr(vec![Doc::Bool(true), Doc::Null, text("x")]))
    );
    assert!(parse_json_line("{nope").is_none());
}

#[test]
fn record_lines_parse_into_records() {
    let line = "{\"id\":\"abc\",\"op\":\"Find\",\"db\":\"shop\",\"coll\":\"orders\",\"cmd\":{\"find\":\"orders\",\"lsid\":1},\"ns\":\"shop.orders\",\"ts\":7}";
    let row = parse_row_line(line).unwrap();
    assert_eq!(row.id, "abc");
    assert!(matches!(row.op, Op::Find));
    assert_eq!(row.db, "shop");
    assert_eq!(row.coll, "orders");
    assert_eq!(row.ns, "shop.orders");
    assert_eq!(row.ts, 7);
    // loading strips the envelope from find commands
    assert_eq!(row.cmd.get("lsid"), None);
    assert_eq!(row.cmd.get("find"), Some(&text("orders")));
    assert_eq!(row.args.get("find"), Some(&text("orders")));
}

#[test]
fn records_missing_a_field_do_not_parse() {
    assert!(parse_row_line("{\"id\":\"abc\",\"op\":\"Find\"}").is_none());
    assert!(parse_row_line("{\"id\":\"abc\",\"op\":\"What\",\"db\":\"d\",\"coll\":\"c\",\"cmd\":{},\"ns\":\"d.c\",\"ts\":0}").is_none());
}

#[test]
fn full_load_drops_comments_and_empty_lines() {
    let line = "{\"id\":\"abc\",\"op\":\"Count\",\"db\":\"shop\",\"coll\":\"orders\",\"cmd\":{},\"ns\":\"shop.orders\",\"ts\":1}";
    let lines = vec![
        "# a comment".to_owned(),
        String::new(),
        line.to_owned(),
    ];
    let rows = full_load(&lines, None).unwrap();
    assert_eq!(rows.len(), 1);
    assert!(matches!(rows[0].op, Op::Count));
}

#[test]
fn full_load_applies_the_filter() {
    let find = "{\"id\":\"a\",\"op\":\"Find\",\"db\":\"d\",\"coll\":\"c\",\"cmd\":{},\"ns\":\"d.c\",\"ts\":1}";
    let count = "{\"id\":\"b\",\"op\":\"Count\",\"db\":\"d\",\"coll\":\"c\",\"cmd\":{},\"ns\":\"d.c\",\"ts\":2}";
    let lines = vec![find.to_owned(), count.to_owned()];
    let rows = full_load(&lines, Some("Count")).unwrap();
    assert_eq!(rows.len(), 1);
    assert_eq!(rows[0].id, "b");
}

#[test]
fn full_load_reports_a_bad_pattern() {
    let lines = vec!["x".to_owned()];
    assert_eq!(full_load(&lines, Some("(")), Err(LogError::BadPattern));
}

#[test]
fn full_load_reports_the_bad_line() {
    let good = "{\"id\":\"a\",\"op\":\"Find\",\"db\":\"d\",\"coll\":\"c\",\"cmd\":{},\"ns\":\"d.c\",\"ts\":1}";
    let lines = vec![good.to_owned(), "not json".to_owned()];
    assert_eq!(full_load(&lines, None), Err(LogError::BadLine(1)));
}
