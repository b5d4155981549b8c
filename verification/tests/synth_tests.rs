use mongobar::document::Doc;
use mongobar::op_row::{Op, OpRow};
use mongobar::synth::{
    export_row, fm_revert_row, resume_insert_row, revert_insert_row, revert_plan, resume_plan,
    update_snapshot_row, update_snapshot_rows, RevertPlan, ResumePlan,
};

fn text(s: &str) -> Doc {
    Doc::Text(s.to_owned())
}

fn insert_row_ab() -> OpRow {
    let mut r = OpRow::default();
    r.id = "i1".to_owned();
    r.op = Op::Insert;
    r.db = "shop".to_owned();
    r.coll = "orders".to_owned();
    r.ns = "shop.orders".to_owned();
    r.ts = 5;
    r.cmd = Doc::Obj(vec![(
        "documents".to_owned(),
        Doc::Arr(vec![
            Doc::Obj(vec![("_id".to_owned(), text("a"))]),
            Doc::Obj(vec![("_id".to_owned(), text("b"))]),
        ]),
    )]);
    r
}

#[test]
fn reverting_an_insert_deletes_the_inserted_ids() {
    let out = revert_insert_row(&insert_row_ab());
    assert!(matches!(out.op, Op::Delete));
    assert_eq!(out.ns, "shop.orders");
    assert_eq!(out.id, "i1");
    let deletes = match out.cmd.get("deletes") {
        Some(Doc::Arr(items)) => items,
        other => panic!("deletes missing: {:?}", other),
    };
    assert_eq!(deletes.len(), 1);
    assert_eq!(deletes[0].get("limit"), Some(&Doc::Int(0)));
    let q = deletes[0].get("q").unwrap();
    let id_q = q.get("_id").unwrap();
    assert_eq!(
        id_q.get("$in"),
        Some(&Doc::Arr(vec![text("a"), text("b")]))
    );
}

#[test]
fn reverting_an_update_restores_each_snapshot_by_id() {
    let mut base = OpRow::default();
    base.op = Op::Update;
    base.ns = "shop.items".to_owned();
    let q = Doc::Obj(vec![("_id".to_owned(), text("x"))]);
    let found = Doc::Obj(vec![
        ("_id".to_owned(), text("x")),
        ("v".to_owned(), Doc::Int(1)),
    ]);
    let out = update_snapshot_row(&base, &q, &found);
    assert!(matches!(out.op, Op::Update));
    let updates = match out.cmd.get("updates") {
        Some(Doc::Arr(items)) => items,
        other => panic!("updates missing: {:?}", other),
    };
    assert_eq!(updates.len(), 1);
    let entry = &updates[0];
    assert_eq!(
        entry.get("q"),
        Some(&Doc::Obj(vec![("_id".to_owned(), text("x"))]))
    );
    assert_eq!(
        entry.get("u"),
        Some(&Doc::Obj(vec![("$set".to_owned(), found.deep_clone())]))
    );
    assert_eq!(entry.get("multi"), Some(&Doc::Bool(false)));
    assert_eq!(entry.get("upsert"), Some(&Doc::Bool(false)));
}

#[test]
fn one_record_per_matched_document() {
    let mut base = OpRow::default();
    base.op = Op::Update;
    let q = Doc::Obj(vec![]);
    let found = vec![
        Doc::Obj(vec![("_id".to_owned(), Doc::Int(1))]),
        Doc::Obj(vec![("_id".to_owned(), Doc::Int(2))]),
        Doc::Obj(vec![("_id".to_owned(), Doc::Int(3))]),
    ];
    let rows = update_snapshot_rows(&base, &q, &found);
    assert_eq!(rows.len(), 3);
    for (i, row) in rows.iter().enumerate() {
        let updates = match row.cmd.get("updates") {
            Some(Doc::Arr(items)) => items,
            _ => panic!("updates missing"),
        };
        let entry_q = updates[0].get("q").unwrap();
        assert_eq!(entry_q.get("_id"), Some(&Doc::Int(1 + i as i64)));
    }
}

#[test]
fn a_removal_is_reverted_by_reinserting_the_snapshot() {
    let base = OpRow::default();
    let found = Doc::Obj(vec![("_id".to_owned(), text("z"))]);
    let out = fm_revert_row(&base, true, &found);
    assert!(matches!(out.op, Op::Insert));
    assert_eq!(
        out.cmd.get("documents"),
        Some(&Doc::Arr(vec![found.deep_clone()]))
    );
}

#[test]
fn a_modification_is_reverted_by_restoring_the_snapshot() {
    let base = OpRow::default();
    let found = Doc::Obj(vec![("_id".to_owned(), text("z"))]);
    let out = fm_revert_row(&base, false, &found);
    assert!(matches!(out.op, Op::Update));
    let updates = match out.cmd.get("updates") {
        Some(Doc::Arr(items)) => items,
        _ => panic!("updates missing"),
    };
    assert_eq!(
        updates[0].get("q"),
        Some(&Doc::Obj(vec![("_id".to_owned(), text("z"))]))
    );
}

#[test]
fn resuming_an_insert_updates_live_ids_and_deletes_missing_ones() {
    let base = OpRow::default();
    let live = Doc::Obj(vec![("_id".to_owned(), text("a")), ("v".to_owned(), Doc::Int(2))]);
    let updated = resume_insert_row(&base, &text("a"), Some(&live));
    assert!(matches!(updated.op, Op::Update));
    let gone = resume_insert_row(&base, &text("b"), None);
    assert!(matches!(gone.op, Op::Delete));
    let deletes = match gone.cmd.get("deletes") {
        Some(Doc::Arr(items)) => items,
        _ => panic!("deletes missing"),
    };
    assert_eq!(
        deletes[0].get("q"),
        Some(&Doc::Obj(vec![("_id".to_owned(), text("b"))]))
    );
}

#[test]
fn exporting_wraps_each_snapshot_in_an_insert() {
    let base = OpRow::default();
    let found = Doc::Obj(vec![("_id".to_owned(), text("a"))]);
    let out = export_row(&base, &found);
    assert!(matches!(out.op, Op::Insert));
    assert_eq!(
        out.cmd.get("documents"),
        Some(&Doc::Arr(vec![found.deep_clone()]))
    );
}

#[test]
fn plans_follow_the_record_kind() {
    match revert_plan(&insert_row_ab()) {
        RevertPlan::Append(row) => assert!(matches!(row.op, Op::Delete)),
        other => panic!("unexpected plan: {:?}", std::mem::discriminant(&other)),
    }
    let mut find = OpRow::default();
    find.op = Op::Find;
    assert!(matches!(revert_plan(&find), RevertPlan::Skip));
    let mut delete = OpRow::default();
    delete.op = Op::Delete;
    assert!(matches!(revert_plan(&delete), RevertPlan::Skip));
    assert!(matches!(
        resume_plan(&insert_row_ab()),
        ResumePlan::LookupInserted(_)
    ));
    let mut fm = OpRow::default();
    fm.op = Op::FindAndModify;
    fm.cmd = Doc::Obj(vec![
        ("remove".to_owned(), Doc::Bool(true)),
        ("query".to_owned(), Doc::Obj(vec![])),
    ]);
    assert!(matches!(resume_plan(&fm), ResumePlan::Skip));
    match revert_plan(&fm) {
        RevertPlan::SnapshotFindModify { remove, .. } => assert!(remove),
        _ => panic!("unexpected plan"),
    }
}
