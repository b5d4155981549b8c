use mongobar::document::Doc;
use mongobar::hash::to_sha3;
use mongobar::key::{
    deep_build_key, dedup_string_vec, join_string_vec, key_shape_check, mode_filter_line,
    sort_string_vec, str_leq_check,
};
use mongobar::op_row::{Op, OpRow};

fn text(s: &str) -> Doc {
    Doc::Text(s.to_owned())
}

fn owned(v: &[&str]) -> Vec<String> {
    v.iter().map(|s| s.to_string()).collect()
}

#[test]
fn texts_compare_lexicographically() {
    assert!(str_leq_check("", "a"));
    assert!(str_leq_check("a", "a"));
    assert!(str_leq_check("a", "ab"));
    assert!(!str_leq_check("ab", "a"));
    assert!(str_leq_check("abc", "abd"));
    assert!(!str_leq_check("b", "ab"));
}

#[test]
fn sorting_and_dedup_and_join() {
    let sorted = sort_string_vec(owned(&["b", "a", "c", "a"]));
    assert_eq!(sorted, owned(&["a", "a", "b", "c"]));
    let distinct = dedup_string_vec(&sorted);
    assert_eq!(distinct, owned(&["a", "b", "c"]));
    assert_eq!(join_string_vec(&distinct, ":"), "a:b:c");
    assert_eq!(join_string_vec(&distinct, ""), "abc");
    assert_eq!(join_string_vec(&owned(&[]), ":"), "");
}

#[test]
fn deep_keys_mask_digits_and_descend() {
    let d = Doc::Obj(vec![
        ("top1".to_owned(), Doc::Obj(vec![("inner".to_owned(), Doc::Int(1))])),
        (
            "list".to_owned(),
            Doc::Arr(vec![Doc::Obj(vec![("x9".to_owned(), Doc::Null)])]),
        ),
    ]);
    assert_eq!(deep_build_key(&d), owned(&["top[n]", "inner", "list", "x[n]"]));
}

#[test]
fn find_records_key_on_their_filter() {
    let mut r = OpRow::default();
    r.op = Op::Find;
    r.coll = "orders".to_owned();
    r.cmd = Doc::Obj(vec![(
        "filter".to_owned(),
        Doc::Obj(vec![
            ("zeta".to_owned(), Doc::Int(1)),
            ("alpha".to_owned(), Doc::Int(2)),
        ]),
    )]);
    assert!(key_shape_check(&r));
    let key = r.build_key();
    let digest = to_sha3("alphazeta");
    assert_eq!(key, format!("orders:Find:{}", digest));
}

#[test]
fn update_records_key_on_query_and_update_keys() {
    let mut r = OpRow::default();
    r.op = Op::Update;
    r.coll = "items".to_owned();
    r.cmd = Doc::Obj(vec![(
        "updates".to_owned(),
        Doc::Arr(vec![Doc::Obj(vec![
            ("q".to_owned(), Doc::Obj(vec![("b".to_owned(), Doc::Int(1))])),
            (
                "u".to_owned(),
                Doc::Obj(vec![
                    ("set2".to_owned(), Doc::Int(1)),
                    ("set2".to_owned(), Doc::Int(2)),
                ]),
            ),
        ])]),
    )]);
    assert!(key_shape_check(&r));
    let key = r.build_key();
    let digest = to_sha3(&format!("b>>{}", "set[n]"));
    assert_eq!(key, format!("items:Update:{}", digest));
}

#[test]
fn an_update_record_without_an_update_array_keys_as_none() {
    let mut r = OpRow::default();
    r.op = Op::Update;
    r.cmd = Doc::Obj(vec![("updates".to_owned(), Doc::Int(3))]);
    assert!(key_shape_check(&r));
    assert_eq!(r.build_key(), "None");
}

#[test]
fn update_records_without_entries_fall_back_to_their_query() {
    let mut r = OpRow::default();
    r.op = Op::Update;
    r.coll = "c".to_owned();
    r.cmd = Doc::Obj(vec![(
        "q".to_owned(),
        Doc::Obj(vec![("k".to_owned(), text("v"))]),
    )]);
    assert!(key_shape_check(&r));
    assert_eq!(r.build_key(), format!("c:Update:{}", to_sha3("k")));
}

#[test]
fn key_shape_checking_refuses_entries_without_a_query() {
    let mut r = OpRow::default();
    r.op = Op::Update;
    r.cmd = Doc::Obj(vec![(
        "updates".to_owned(),
        Doc::Arr(vec![Doc::Obj(vec![("u".to_owned(), Doc::Obj(vec![]))])]),
    )]);
    assert!(!key_shape_check(&r));
}

#[test]
fn lines_filter_by_grouping_key() {
    let find = "{\"id\":\"a\",\"op\":\"Find\",\"db\":\"d\",\"coll\":\"orders\",\"cmd\":{\"filter\":{\"alpha\":2,\"zeta\":1}},\"ns\":\"d.orders\",\"ts\":1}";
    let count = "{\"id\":\"b\",\"op\":\"Count\",\"db\":\"d\",\"coll\":\"orders\",\"cmd\":{},\"ns\":\"d.orders\",\"ts\":2}";
    let lines = vec![find.to_owned(), "  ".to_owned(), count.to_owned()];
    let key = format!("orders:Find:{}", to_sha3("alphazeta"));
    let kept = mode_filter_line(&lines, &key).unwrap();
    assert_eq!(kept, vec![find.to_owned()]);
    let bad = vec!["not json".to_owned()];
    assert_eq!(mode_filter_line(&bad, &key), Err(0));
}
