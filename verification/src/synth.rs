//! The revert and resume synthesizers, and the snapshot exporter.
//!
//! Both passes walk the operation log forward and append compensating
//! records to a second log, which is then reversed on disk so that a
//! forward replay of it undoes the run's effects in reverse order. For
//! every record the library plans what to do: append a fixed record,
//! snapshot live documents first, or nothing. Running the snapshot
//! queries is the caller's work; the library builds the compensating
//! records from whatever documents came back.

use vstd::prelude::*;

use crate::document::{doc_get_v, lookup_v, Doc, DocV};
use crate::op_row::{Op, OpRow, OpRowV};

verus! {

/// One key-value pair as a document object.
pub fn obj1(k: &str, v: Doc) -> (r: Doc)
    ensures
        r@ == DocV::Obj(seq![(k@, v@)]),
{
    let ghost kv = (k@, v@);
    let mut fields: Vec<(String, Doc)> = Vec::new();
    fields.push((k.to_owned(), v));
    proof {
        crate::document::lemma_fields_view_index(fields@);
        assert(crate::document::fields_view(fields@) =~= seq![kv]);
    }
    Doc::Obj(fields)
}

/// Two key-value pairs as a document object.
pub fn obj2(k1: &str, v1: Doc, k2: &str, v2: Doc) -> (r: Doc)
    ensures
        r@ == DocV::Obj(seq![(k1@, v1@), (k2@, v2@)]),
{
    let ghost kv1 = (k1@, v1@);
    let ghost kv2 = (k2@, v2@);
    let mut fields: Vec<(String, Doc)> = Vec::new();
    fields.push((k1.to_owned(), v1));
    fields.push((k2.to_owned(), v2));
    proof {
        crate::document::lemma_fields_view_index(fields@);
        assert(crate::document::fields_view(fields@) =~= seq![kv1, kv2]);
    }
    Doc::Obj(fields)
}

/// Four key-value pairs as a document object.
pub fn obj4(k1: &str, v1: Doc, k2: &str, v2: Doc, k3: &str, v3: Doc, k4: &str, v4: Doc) -> (r: Doc)
    ensures
        r@ == DocV::Obj(seq![(k1@, v1@), (k2@, v2@), (k3@, v3@), (k4@, v4@)]),
{
    let ghost kv1 = (k1@, v1@);
    let ghost kv2 = (k2@, v2@);
    let ghost kv3 = (k3@, v3@);
    let ghost kv4 = (k4@, v4@);
    let mut fields: Vec<(String, Doc)> = Vec::new();
    fields.push((k1.to_owned(), v1));
    fields.push((k2.to_owned(), v2));
    fields.push((k3.to_owned(), v3));
    fields.push((k4.to_owned(), v4));
    proof {
        crate::document::lemma_fields_view_index(fields@);
        assert(crate::document::fields_view(fields@) =~= seq![kv1, kv2, kv3, kv4]);
    }
    Doc::Obj(fields)
}

/// A one-element document array.
pub fn arr1(v: Doc) -> (r: Doc)
    ensures
        r@ == DocV::Arr(seq![v@]),
{
    let ghost vv = v@;
    let mut items: Vec<Doc> = Vec::new();
    items.push(v);
    proof {
        crate::document::lemma_docs_view_index(items@);
        assert(crate::document::docs_view(items@) =~= seq![vv]);
    }
    Doc::Arr(items)
}

/// A compensating record: the source record's identity and target with a
/// new kind and payload.
pub open spec fn compensating_row_v(base: OpRowV, op: Op, cmd: DocV) -> OpRowV {
    OpRowV {
        id: base.id,
        op,
        db: base.db,
        coll: base.coll,
        cmd,
        ns: base.ns,
        ts: base.ts,
        args: DocV::Null,
    }
}

/// Builds a compensating record from the source record.
pub fn compensating_row(base: &OpRow, op: Op, cmd: Doc) -> (r: OpRow)
    ensures
        r@ == compensating_row_v(base@, op, cmd@),
{
    OpRow {
        id: base.id.clone(),
        op,
        db: base.db.clone(),
        coll: base.coll.clone(),
        cmd,
        ns: base.ns.clone(),
        ts: base.ts,
        args: Doc::Null,
    }
}

/// The `_id` of each inserted document, in order.
pub open spec fn ids_of_docs_v(docs: Seq<DocV>) -> Seq<DocV>
    decreases docs.len(),
{
    if docs.len() == 0 {
        Seq::empty()
    } else {
        seq![doc_get_v(docs[0], "_id"@)->Some_0] + ids_of_docs_v(docs.drop_first())
    }
}

/// An insert record's documents each carry an `_id`.
pub open spec fn insert_shape_ok(r: OpRowV) -> bool {
    &&& doc_get_v(r.cmd, "documents"@) matches Option::Some(DocV::Arr(docs))
    &&& forall|i: int|
        0 <= i < doc_get_v(r.cmd, "documents"@)->Some_0->Arr_0.len() ==> doc_get_v(
            #[trigger] doc_get_v(r.cmd, "documents"@)->Some_0->Arr_0[i],
            "_id"@,
        ) is Some
}

/// The delete payload that reverts an insert: one delete of every
/// inserted `_id`, unbounded.
pub open spec fn revert_insert_cmd_v(ids: Seq<DocV>) -> DocV {
    DocV::Obj(
        seq![
            (
                "deletes"@,
                DocV::Arr(
                    seq![
                        DocV::Obj(
                            seq![
                                (
                                    "q"@,
                                    DocV::Obj(
                                        seq![
                                            ("_id"@, DocV::Obj(seq![("$in"@, DocV::Arr(ids))])),
                                        ],
                                    ),
                                ),
                                ("limit"@, DocV::Int(0)),
                            ],
                        ),
                    ],
                ),
            ),
        ],
    )
}

/// The compensating record for an insert: one delete record over the
/// inserted ids.
pub open spec fn revert_insert_row_v(r: OpRowV) -> OpRowV {
    compensating_row_v(
        r,
        Op::Delete,
        revert_insert_cmd_v(ids_of_docs_v(doc_get_v(r.cmd, "documents"@)->Some_0->Arr_0)),
    )
}

/// Builds the record that reverts an insert: exactly one delete whose
/// query holds every inserted `_id` under `$in`, with no limit.
pub fn revert_insert_row(row: &OpRow) -> (r: OpRow)
    requires
        row@.op == Op::Insert,
        insert_shape_ok(row@),
    ensures
        r@ == revert_insert_row_v(row@),
        r@.op == Op::Delete,
{
    broadcast use crate::document::lemma_docs_view_index;

    let docs: &Vec<Doc> = match row.cmd.get("documents") {
        Some(Doc::Arr(docs)) => docs,
        _ => {
            proof {
                assert(false);
            }
            return OpRow::default();
        },
    };
    let ghost dv = crate::document::docs_view(docs@);
    proof {
        assert(dv =~= doc_get_v(row@.cmd, "documents"@)->Some_0->Arr_0);
        assert(dv.skip(0) =~= dv);
    }
    let mut ids: Vec<Doc> = Vec::new();
    let mut i: usize = 0;
    while i < docs.len()
        invariant
            0 <= i <= docs@.len(),
            dv == crate::document::docs_view(docs@),
            dv.len() == docs@.len(),
            forall|k: int| 0 <= k < docs@.len() ==> dv[k] == crate::document::doc_view(docs@[k]),
            forall|k: int| 0 <= k < dv.len() ==> doc_get_v(#[trigger] dv[k], "_id"@) is Some,
            ids_of_docs_v(dv) =~= crate::document::docs_view(ids@) + ids_of_docs_v(
                dv.skip(i as int),
            ),
        decreases docs@.len() - i,
    {
        proof {
            assert(dv.skip(i as int).drop_first() =~= dv.skip(i + 1));
            assert(dv.skip(i as int)[0] == dv[i as int]);
        }
        let id: Doc = match docs[i].get("_id") {
            Some(id) => id.deep_clone(),
            None => {
                proof {
                    assert(false);
                }
                Doc::Null
            },
        };
        let ghost prev = ids@;
        ids.push(id);
        proof {
            crate::document::lemma_docs_view_index(prev);
            crate::document::lemma_docs_view_index(ids@);
            assert(crate::document::docs_view(ids@) =~= crate::document::docs_view(prev).push(
                ids@.last()@,
            ));
            assert(crate::document::docs_view(ids@) + ids_of_docs_v(dv.skip(i + 1))
                =~= crate::document::docs_view(prev) + ids_of_docs_v(dv.skip(i as int)));
        }
        i = i + 1;
    }
    proof {
        assert(crate::document::docs_view(ids@) =~= ids_of_docs_v(dv));
    }
    let q = obj1("_id", obj1("$in", Doc::Arr(ids)));
    let delete_entry = obj2("q", q, "limit", Doc::Int(0));
    let cmd = obj1("deletes", arr1(delete_entry));
    proof {
        assert(cmd@ =~~= revert_insert_cmd_v(ids_of_docs_v(dv)));
    }
    compensating_row(row, Op::Delete, cmd)
}

/// Law: reverting an insert. For any insert record whose documents carry
/// ids, the synthesizer's compensating record is a single delete on the
/// same namespace whose query lists exactly the inserted ids, in order,
/// under `_id.$in`, with limit 0.
pub proof fn lemma_revert_insert(r: OpRowV)
    requires
        r.op == Op::Insert,
        insert_shape_ok(r),
    ensures
        ({
            let out = revert_insert_row_v(r);
            let ids = ids_of_docs_v(doc_get_v(r.cmd, "documents"@)->Some_0->Arr_0);
            &&& out.op == Op::Delete
            &&& out.ns == r.ns
            &&& out.db == r.db
            &&& out.coll == r.coll
            &&& doc_get_v(out.cmd, "deletes"@) matches Option::Some(DocV::Arr(ds))
            &&& doc_get_v(out.cmd, "deletes"@)->Some_0->Arr_0.len() == 1
            &&& ({
                let d = doc_get_v(out.cmd, "deletes"@)->Some_0->Arr_0[0];
                &&& doc_get_v(d, "limit"@) == Option::Some(DocV::Int(0))
                &&& doc_get_v(d, "q"@) matches Option::Some(q)
                &&& doc_get_v(doc_get_v(d, "q"@)->Some_0, "_id"@) matches Option::Some(idq)
                &&& doc_get_v(
                    doc_get_v(doc_get_v(d, "q"@)->Some_0, "_id"@)->Some_0,
                    "$in"@,
                ) == Option::Some(DocV::Arr(ids))
            })
        }),
{
    reveal_strlit("deletes");
    reveal_strlit("q");
    reveal_strlit("limit");
    reveal_strlit("_id");
    reveal_strlit("$in");
    let out = revert_insert_row_v(r);
    let ids = ids_of_docs_v(doc_get_v(r.cmd, "documents"@)->Some_0->Arr_0);
    assert(doc_get_v(out.cmd, "deletes"@) is Some);
    let d = doc_get_v(out.cmd, "deletes"@)->Some_0->Arr_0[0];
    let qv = DocV::Obj(seq![("_id"@, DocV::Obj(seq![("$in"@, DocV::Arr(ids))]))]);
    assert(d == DocV::Obj(seq![("q"@, qv), ("limit"@, DocV::Int(0))]));
    assert("q"@.len() == 1);
    assert("limit"@.len() == 5);
    assert("q"@ != "limit"@);
    assert(doc_get_v(d, "q"@) == Option::Some(qv));
    let dfields = seq![("q"@, qv), ("limit"@, DocV::Int(0))];
    assert(lookup_v(dfields, "limit"@) == lookup_v(dfields.drop_first(), "limit"@));
    assert(dfields.drop_first() =~= seq![("limit"@, DocV::Int(0))]);
    assert(lookup_v(seq![("limit"@, DocV::Int(0))], "limit"@) == Option::Some(DocV::Int(0)));
    assert(doc_get_v(d, "limit"@) == Option::Some(DocV::Int(0)));
    assert(doc_get_v(qv, "_id"@) == Option::Some(DocV::Obj(seq![("$in"@, DocV::Arr(ids))])));
    assert(doc_get_v(DocV::Obj(seq![("$in"@, DocV::Arr(ids))]), "$in"@) == Option::Some(
        DocV::Arr(ids),
    ));
}

/// The update payload that restores one live document by its `_id`: a
/// single update setting the whole snapshot, with the multi and upsert
/// flags read off the query document, absent flags counting as false.
pub open spec fn restore_update_cmd_v(q: DocV, found: DocV) -> DocV {
    DocV::Obj(
        seq![
            (
                "updates"@,
                DocV::Arr(
                    seq![
                        DocV::Obj(
                            seq![
                                (
                                    "q"@,
                                    DocV::Obj(
                                        seq![("_id"@, doc_get_v(found, "_id"@)->Some_0)],
                                    ),
                                ),
                                ("u"@, DocV::Obj(seq![("$set"@, found)])),
                                ("multi"@, DocV::Bool(flag_of_v(q, "multi"@))),
                                ("upsert"@, DocV::Bool(flag_of_v(q, "upsert"@))),
                            ],
                        ),
                    ],
                ),
            ),
        ],
    )
}

/// A boolean field of a document, absent or non-boolean counting false.
pub open spec fn flag_of_v(d: DocV, key: Seq<char>) -> bool {
    match doc_get_v(d, key) {
        Option::Some(DocV::Bool(b)) => b,
        _ => false,
    }
}

/// Reads a boolean field, absent or non-boolean counting false.
pub fn read_flag(d: &Doc, key: &str) -> (r: bool)
    ensures
        r == flag_of_v(d@, key@),
{
    match d.get(key) {
        Some(Doc::Bool(b)) => *b,
        _ => false,
    }
}

/// The compensating record restoring one snapshot for an update record.
pub open spec fn update_snapshot_row_v(base: OpRowV, q: DocV, found: DocV) -> OpRowV {
    compensating_row_v(base, Op::Update, restore_update_cmd_v(q, found))
}

/// Builds the record that restores one live document snapshotted before
/// an update: an update by the document's `_id` setting the whole
/// snapshot back.
pub fn update_snapshot_row(base: &OpRow, q: &Doc, found: &Doc) -> (r: OpRow)
    requires
        doc_get_v(found@, "_id"@) is Some,
    ensures
        r@ == update_snapshot_row_v(base@, q@, found@),
        r@.op == Op::Update,
{
    let id: Doc = match found.get("_id") {
        Some(id) => id.deep_clone(),
        None => {
            proof {
                assert(false);
            }
            Doc::Null
        },
    };
    let entry = obj4(
        "q",
        obj1("_id", id),
        "u",
        obj1("$set", found.deep_clone()),
        "multi",
        Doc::Bool(read_flag(q, "multi")),
        "upsert",
        Doc::Bool(read_flag(q, "upsert")),
    );
    let cmd = obj1("updates", arr1(entry));
    proof {
        assert(cmd@ =~~= restore_update_cmd_v(q@, found@));
    }
    compensating_row(base, Op::Update, cmd)
}

/// The compensating records for the documents one update query matched,
/// in the order they came back.
pub open spec fn update_snapshot_rows_v(base: OpRowV, q: DocV, found: Seq<DocV>) -> Seq<OpRowV>
    decreases found.len(),
{
    if found.len() == 0 {
        Seq::empty()
    } else {
        seq![update_snapshot_row_v(base, q, found[0])] + update_snapshot_rows_v(
            base,
            q,
            found.drop_first(),
        )
    }
}

/// Builds the records that restore every live document one update query
/// matched: exactly one update per matched document, each restoring that
/// document by its `_id`.
pub fn update_snapshot_rows(base: &OpRow, q: &Doc, found: &Vec<Doc>) -> (r: Vec<OpRow>)
    requires
        forall|i: int|
            0 <= i < found@.len() ==> doc_get_v(
                (#[trigger] found@[i])@,
                "_id"@,
            ) is Some,
    ensures
        crate::views::rows_view(r@) == update_snapshot_rows_v(
            base@,
            q@,
            crate::document::docs_view(found@),
        ),
        r@.len() == found@.len(),
{
    broadcast use crate::document::lemma_docs_view_index, crate::views::lemma_rows_view_index;

    let ghost fv = crate::document::docs_view(found@);
    proof {
        assert(fv.skip(0) =~= fv);
    }
    let mut out: Vec<OpRow> = Vec::new();
    let mut i: usize = 0;
    while i < found.len()
        invariant
            0 <= i <= found@.len(),
            fv == crate::document::docs_view(found@),
            fv.len() == found@.len(),
            forall|k: int|
                0 <= k < found@.len() ==> fv[k] == crate::document::doc_view(found@[k]),
            forall|k: int|
                0 <= k < found@.len() ==> doc_get_v((#[trigger] found@[k])@, "_id"@) is Some,
            out@.len() == i,
            update_snapshot_rows_v(base@, q@, fv) =~= crate::views::rows_view(out@)
                + update_snapshot_rows_v(base@, q@, fv.skip(i as int)),
        decreases found@.len() - i,
    {
        proof {
            assert(fv.skip(i as int).drop_first() =~= fv.skip(i + 1));
            assert(fv.skip(i as int)[0] == fv[i as int]);
        }
        let ghost prev = out@;
        let row = update_snapshot_row(base, q, &found[i]);
        out.push(row);
        proof {
            crate::views::lemma_rows_view_index(prev);
            crate::views::lemma_rows_view_index(out@);
            assert(crate::views::rows_view(out@) =~= crate::views::rows_view(prev).push(
                out@.last()@,
            ));
            assert(crate::views::rows_view(out@) + update_snapshot_rows_v(
                base@,
                q@,
                fv.skip(i + 1),
            ) =~= crate::views::rows_view(prev) + update_snapshot_rows_v(
                base@,
                q@,
                fv.skip(i as int),
            ));
        }
        i = i + 1;
    }
    proof {
        assert(update_snapshot_rows_v(base@, q@, fv) =~= crate::views::rows_view(out@));
    }
    out
}

/// Law: reverting an update. For an update record whose query matched
/// the documents that came back, the synthesizer appends exactly one
/// update record per matched document, each restoring that document by
/// setting the whole snapshot under its `_id`.
pub proof fn lemma_revert_update(base: OpRowV, q: DocV, found: Seq<DocV>)
    ensures
        update_snapshot_rows_v(base, q, found).len() == found.len(),
        forall|i: int|
            0 <= i < found.len() ==> #[trigger] update_snapshot_rows_v(base, q, found)[i]
                == update_snapshot_row_v(base, q, found[i]),
        forall|i: int|
            0 <= i < found.len() ==> ({
                let out = #[trigger] update_snapshot_rows_v(base, q, found)[i];
                let entry = doc_get_v(out.cmd, "updates"@)->Some_0->Arr_0[0];
                &&& out.op == Op::Update
                &&& out.ns == base.ns
                &&& doc_get_v(out.cmd, "updates"@) matches Option::Some(DocV::Arr(entries))
                &&& doc_get_v(out.cmd, "updates"@)->Some_0->Arr_0.len() == 1
                &&& doc_get_v(entry, "q"@) == Option::Some(
                    DocV::Obj(seq![("_id"@, doc_get_v(found[i], "_id"@)->Some_0)]),
                )
                &&& doc_get_v(entry, "u"@) == Option::Some(
                    DocV::Obj(seq![("$set"@, found[i])]),
                )
            }),
    decreases found.len(),
{
    if found.len() != 0 {
        lemma_revert_update(base, q, found.drop_first());
        assert forall|i: int| 0 <= i < found.len() implies #[trigger] update_snapshot_rows_v(
            base,
            q,
            found,
        )[i] == update_snapshot_row_v(base, q, found[i]) by {
            if i > 0 {
                assert(found.drop_first()[i - 1] == found[i]);
            }
        }
    }
    assert forall|i: int| 0 <= i < found.len() implies ({
        let out = #[trigger] update_snapshot_rows_v(base, q, found)[i];
        let entry = doc_get_v(out.cmd, "updates"@)->Some_0->Arr_0[0];
        &&& out.op == Op::Update
        &&& out.ns == base.ns
        &&& doc_get_v(out.cmd, "updates"@) matches Option::Some(DocV::Arr(entries))
        &&& doc_get_v(out.cmd, "updates"@)->Some_0->Arr_0.len() == 1
        &&& doc_get_v(entry, "q"@) == Option::Some(
            DocV::Obj(seq![("_id"@, doc_get_v(found[i], "_id"@)->Some_0)]),
        )
        &&& doc_get_v(entry, "u"@) == Option::Some(DocV::Obj(seq![("$set"@, found[i])]))
    }) by {
        lemma_restore_update_shape(q, found[i]);
    }
}

/// The restoring payload looks up as built: one update entry whose `q`
/// names the snapshot's `_id` and whose `u` sets the whole snapshot.
proof fn lemma_restore_update_shape(q: DocV, found: DocV)
    ensures
        ({
            let cmd = restore_update_cmd_v(q, found);
            let entry = doc_get_v(cmd, "updates"@)->Some_0->Arr_0[0];
            &&& doc_get_v(cmd, "updates"@) matches Option::Some(DocV::Arr(entries))
            &&& doc_get_v(cmd, "updates"@)->Some_0->Arr_0.len() == 1
            &&& doc_get_v(entry, "q"@) == Option::Some(
                DocV::Obj(seq![("_id"@, doc_get_v(found, "_id"@)->Some_0)]),
            )
            &&& doc_get_v(entry, "u"@) == Option::Some(DocV::Obj(seq![("$set"@, found)]))
        }),
{
    reveal_strlit("updates");
    reveal_strlit("q");
    reveal_strlit("u");
    reveal_strlit("multi");
    reveal_strlit("upsert");
    reveal_strlit("_id");
    reveal_strlit("$set");
    let cmd = restore_update_cmd_v(q, found);
    let qv = DocV::Obj(seq![("_id"@, doc_get_v(found, "_id"@)->Some_0)]);
    let uv = DocV::Obj(seq![("$set"@, found)]);
    let fields = seq![
        ("q"@, qv),
        ("u"@, uv),
        ("multi"@, DocV::Bool(flag_of_v(q, "multi"@))),
        ("upsert"@, DocV::Bool(flag_of_v(q, "upsert"@))),
    ];
    let entry = doc_get_v(cmd, "updates"@)->Some_0->Arr_0[0];
    assert(entry == DocV::Obj(fields));
    assert("q"@.len() == 1 && "u"@.len() == 1 && "multi"@.len() == 5 && "upsert"@.len() == 6);
    assert("q"@[0] == 'q' && "u"@[0] == 'u');
    assert("q"@ != "u"@ && "q"@ != "multi"@ && "q"@ != "upsert"@);
    assert(lookup_v(fields, "q"@) == Option::Some(qv));
    assert(lookup_v(fields, "u"@) == lookup_v(fields.drop_first(), "u"@));
    let tail = seq![
        ("u"@, uv),
        ("multi"@, DocV::Bool(flag_of_v(q, "multi"@))),
        ("upsert"@, DocV::Bool(flag_of_v(q, "upsert"@))),
    ];
    assert(fields.drop_first() =~= tail);
    assert(lookup_v(tail, "u"@) == Option::Some(uv));
    assert(lookup_v(fields, "u"@) == Option::Some(uv));
}

/// A document's `_id`, or null when it has none.
pub open spec fn id_or_null_v(d: DocV) -> DocV {
    match doc_get_v(d, "_id"@) {
        Option::Some(v) => v,
        Option::None => DocV::Null,
    }
}

/// Reads a document's `_id`, or null when it has none.
pub fn id_or_null(d: &Doc) -> (r: Doc)
    ensures
        r@ == id_or_null_v(d@),
{
    match d.get("_id") {
        Some(id) => id.deep_clone(),
        None => Doc::Null,
    }
}

/// The insert payload carrying one snapshot document.
pub open spec fn snapshot_insert_cmd_v(found: DocV) -> DocV {
    DocV::Obj(seq![("documents"@, DocV::Arr(seq![found]))])
}

/// The update payload restoring one snapshot by a given id, with both
/// flags off.
pub open spec fn restore_by_id_cmd_v(id: DocV, found: DocV) -> DocV {
    DocV::Obj(
        seq![
            (
                "updates"@,
                DocV::Arr(
                    seq![
                        DocV::Obj(
                            seq![
                                ("q"@, DocV::Obj(seq![("_id"@, id)])),
                                ("u"@, DocV::Obj(seq![("$set"@, found)])),
                                ("multi"@, DocV::Bool(false)),
                                ("upsert"@, DocV::Bool(false)),
                            ],
                        ),
                    ],
                ),
            ),
        ],
    )
}

/// The delete payload removing one id, unbounded.
pub open spec fn delete_by_id_cmd_v(id: DocV) -> DocV {
    DocV::Obj(
        seq![
            (
                "deletes"@,
                DocV::Arr(
                    seq![
                        DocV::Obj(
                            seq![
                                ("q"@, DocV::Obj(seq![("_id"@, id)])),
                                ("limit"@, DocV::Int(0)),
                            ],
                        ),
                    ],
                ),
            ),
        ],
    )
}

/// The compensating record for one snapshot of a find-and-modify: a
/// removal is compensated by re-inserting the snapshot; a modification
/// by restoring the snapshot under its own id, or null when it has none.
pub open spec fn fm_revert_row_v(base: OpRowV, remove: bool, found: DocV) -> OpRowV {
    if remove {
        compensating_row_v(base, Op::Insert, snapshot_insert_cmd_v(found))
    } else {
        compensating_row_v(base, Op::Update, restore_by_id_cmd_v(id_or_null_v(found), found))
    }
}

/// Builds the record compensating one find-and-modify snapshot.
pub fn fm_revert_row(base: &OpRow, remove: bool, found: &Doc) -> (r: OpRow)
    ensures
        r@ == fm_revert_row_v(base@, remove, found@),
{
    if remove {
        let cmd = obj1("documents", arr1(found.deep_clone()));
        proof {
            assert(cmd@ =~~= snapshot_insert_cmd_v(found@));
        }
        compensating_row(base, Op::Insert, cmd)
    } else {
        let entry = obj4(
            "q",
            obj1("_id", id_or_null(found)),
            "u",
            obj1("$set", found.deep_clone()),
            "multi",
            Doc::Bool(false),
            "upsert",
            Doc::Bool(false),
        );
        let cmd = obj1("updates", arr1(entry));
        proof {
            assert(cmd@ =~~= restore_by_id_cmd_v(id_or_null_v(found@), found@));
        }
        compensating_row(base, Op::Update, cmd)
    }
}

/// The compensating records for every snapshot of a find-and-modify.
pub open spec fn fm_revert_rows_v(base: OpRowV, remove: bool, found: Seq<DocV>) -> Seq<OpRowV>
    decreases found.len(),
{
    if found.len() == 0 {
        Seq::empty()
    } else {
        seq![fm_revert_row_v(base, remove, found[0])] + fm_revert_rows_v(
            base,
            remove,
            found.drop_first(),
        )
    }
}

/// Builds the records compensating every find-and-modify snapshot, in
/// the order the documents came back.
pub fn fm_revert_rows(base: &OpRow, remove: bool, found: &Vec<Doc>) -> (r: Vec<OpRow>)
    ensures
        crate::views::rows_view(r@) == fm_revert_rows_v(
            base@,
            remove,
            crate::document::docs_view(found@),
        ),
        r@.len() == found@.len(),
{
    broadcast use crate::document::lemma_docs_view_index, crate::views::lemma_rows_view_index;

    let ghost fv = crate::document::docs_view(found@);
    proof {
        assert(fv.skip(0) =~= fv);
    }
    let mut out: Vec<OpRow> = Vec::new();
    let mut i: usize = 0;
    while i < found.len()
        invariant
            0 <= i <= found@.len(),
            fv == crate::document::docs_view(found@),
            fv.len() == found@.len(),
            forall|k: int| 0 <= k < found@.len() ==> fv[k] == crate::document::doc_view(found@[k]),
            out@.len() == i,
            fm_revert_rows_v(base@, remove, fv) =~= crate::views::rows_view(out@)
                + fm_revert_rows_v(base@, remove, fv.skip(i as int)),
        decreases found@.len() - i,
    {
        proof {
            assert(fv.skip(i as int).drop_first() =~= fv.skip(i + 1));
            assert(fv.skip(i as int)[0] == fv[i as int]);
        }
        let ghost prev = out@;
        let row = fm_revert_row(base, remove, &found[i]);
        out.push(row);
        proof {
            crate::views::lemma_rows_view_index(prev);
            crate::views::lemma_rows_view_index(out@);
            assert(crate::views::rows_view(out@) =~= crate::views::rows_view(prev).push(
                out@.last()@,
            ));
            assert(crate::views::rows_view(out@) + fm_revert_rows_v(base@, remove, fv.skip(i + 1))
                =~= crate::views::rows_view(prev) + fm_revert_rows_v(
                base@,
                remove,
                fv.skip(i as int),
            ));
        }
        i = i + 1;
    }
    proof {
        assert(fm_revert_rows_v(base@, remove, fv) =~= crate::views::rows_view(out@));
    }
    out
}

/// The reconciling record for one inserted id after a replay: when the
/// id is live on the target, re-apply the live document; when it is
/// gone, delete the id.
pub open spec fn resume_insert_row_v(base: OpRowV, id: DocV, found: Option<DocV>) -> OpRowV {
    match found {
        Option::Some(d) => compensating_row_v(base, Op::Update, restore_by_id_cmd_v(id, d)),
        Option::None => compensating_row_v(base, Op::Delete, delete_by_id_cmd_v(id)),
    }
}

/// Builds the record reconciling one inserted id after a replay.
pub fn resume_insert_row(base: &OpRow, id: &Doc, found: Option<&Doc>) -> (r: OpRow)
    ensures
        r@ == resume_insert_row_v(
            base@,
            id@,
            match found {
                Option::Some(d) => Option::Some(d@),
                Option::None => Option::None,
            },
        ),
{
    match found {
        Some(d) => {
            let entry = obj4(
                "q",
                obj1("_id", id.deep_clone()),
                "u",
                obj1("$set", d.deep_clone()),
                "multi",
                Doc::Bool(false),
                "upsert",
                Doc::Bool(false),
            );
            let cmd = obj1("updates", arr1(entry));
            proof {
                assert(cmd@ =~~= restore_by_id_cmd_v(id@, d@));
            }
            compensating_row(base, Op::Update, cmd)
        },
        None => {
            let entry = obj2("q", obj1("_id", id.deep_clone()), "limit", Doc::Int(0));
            let cmd = obj1("deletes", arr1(entry));
            proof {
                assert(cmd@ =~~= delete_by_id_cmd_v(id@));
            }
            compensating_row(base, Op::Delete, cmd)
        },
    }
}

/// The exported record for one snapshot: an insert carrying it.
pub open spec fn export_row_v(base: OpRowV, found: DocV) -> OpRowV {
    compensating_row_v(base, Op::Insert, snapshot_insert_cmd_v(found))
}

/// Builds the exported record carrying one snapshot document.
pub fn export_row(base: &OpRow, found: &Doc) -> (r: OpRow)
    ensures
        r@ == export_row_v(base@, found@),
{
    let cmd = obj1("documents", arr1(found.deep_clone()));
    proof {
        assert(cmd@ =~~= snapshot_insert_cmd_v(found@));
    }
    compensating_row(base, Op::Insert, cmd)
}

/// The exported records for every snapshot a query matched.
pub open spec fn export_rows_v(base: OpRowV, found: Seq<DocV>) -> Seq<OpRowV>
    decreases found.len(),
{
    if found.len() == 0 {
        Seq::empty()
    } else {
        seq![export_row_v(base, found[0])] + export_rows_v(base, found.drop_first())
    }
}

/// Builds the exported records for every snapshot a query matched, in
/// the order the documents came back.
pub fn export_rows(base: &OpRow, found: &Vec<Doc>) -> (r: Vec<OpRow>)
    ensures
        crate::views::rows_view(r@) == export_rows_v(base@, crate::document::docs_view(found@)),
        r@.len() == found@.len(),
{
    broadcast use crate::document::lemma_docs_view_index, crate::views::lemma_rows_view_index;

    let ghost fv = crate::document::docs_view(found@);
    proof {
        assert(fv.skip(0) =~= fv);
    }
    let mut out: Vec<OpRow> = Vec::new();
    let mut i: usize = 0;
    while i < found.len()
        invariant
            0 <= i <= found@.len(),
            fv == crate::document::docs_view(found@),
            fv.len() == found@.len(),
            forall|k: int| 0 <= k < found@.len() ==> fv[k] == crate::document::doc_view(found@[k]),
            out@.len() == i,
            export_rows_v(base@, fv) =~= crate::views::rows_view(out@) + export_rows_v(
                base@,
                fv.skip(i as int),
            ),
        decreases found@.len() - i,
    {
        proof {
            assert(fv.skip(i as int).drop_first() =~= fv.skip(i + 1));
            assert(fv.skip(i as int)[0] == fv[i as int]);
        }
        let ghost prev = out@;
        let row = export_row(base, &found[i]);
        out.push(row);
        proof {
            crate::views::lemma_rows_view_index(prev);
            crate::views::lemma_rows_view_index(out@);
            assert(crate::views::rows_view(out@) =~= crate::views::rows_view(prev).push(
                out@.last()@,
            ));
            assert(crate::views::rows_view(out@) + export_rows_v(base@, fv.skip(i + 1))
                =~= crate::views::rows_view(prev) + export_rows_v(base@, fv.skip(i as int)));
        }
        i = i + 1;
    }
    proof {
        assert(export_rows_v(base@, fv) =~= crate::views::rows_view(out@));
    }
    out
}

/// The query document of each update entry, in order.
pub open spec fn update_qs_v(ups: Seq<DocV>) -> Seq<DocV>
    decreases ups.len(),
{
    if ups.len() == 0 {
        Seq::empty()
    } else {
        seq![doc_get_v(ups[0], "q"@)->Some_0] + update_qs_v(ups.drop_first())
    }
}

/// An update record's entries each carry an object query.
pub open spec fn update_q_shape_ok(r: OpRowV) -> bool {
    &&& doc_get_v(r.cmd, "updates"@) matches Option::Some(DocV::Arr(ups))
    &&& forall|i: int|
        0 <= i < doc_get_v(r.cmd, "updates"@)->Some_0->Arr_0.len() ==> (doc_get_v(
            #[trigger] doc_get_v(r.cmd, "updates"@)->Some_0->Arr_0[i],
            "q"@,
        ) matches Option::Some(q) && q is Obj)
}

/// Reads the query documents out of an update record, in order.
pub fn update_queries(row: &OpRow) -> (r: Vec<Doc>)
    requires
        update_q_shape_ok(row@),
    ensures
        crate::document::docs_view(r@) == update_qs_v(
            doc_get_v(row@.cmd, "updates"@)->Some_0->Arr_0,
        ),
{
    broadcast use crate::document::lemma_docs_view_index;

    let ups: &Vec<Doc> = match row.cmd.get("updates") {
        Some(Doc::Arr(ups)) => ups,
        _ => {
            proof {
                assert(false);
            }
            return Vec::new();
        },
    };
    let ghost uv = crate::document::docs_view(ups@);
    proof {
        assert(uv =~= doc_get_v(row@.cmd, "updates"@)->Some_0->Arr_0);
        assert(uv.skip(0) =~= uv);
    }
    let mut out: Vec<Doc> = Vec::new();
    let mut i: usize = 0;
    while i < ups.len()
        invariant
            0 <= i <= ups@.len(),
            uv == crate::document::docs_view(ups@),
            uv.len() == ups@.len(),
            forall|k: int| 0 <= k < ups@.len() ==> uv[k] == crate::document::doc_view(ups@[k]),
            forall|k: int|
                0 <= k < uv.len() ==> (doc_get_v(#[trigger] uv[k], "q"@) matches Option::Some(
                    q,
                ) && q is Obj),
            update_qs_v(uv) =~= crate::document::docs_view(out@) + update_qs_v(uv.skip(i as int)),
        decreases ups@.len() - i,
    {
        proof {
            assert(uv.skip(i as int).drop_first() =~= uv.skip(i + 1));
            assert(uv.skip(i as int)[0] == uv[i as int]);
        }
        let q: Doc = match ups[i].get("q") {
            Some(q) => q.deep_clone(),
            None => {
                proof {
                    assert(false);
                }
                Doc::Null
            },
        };
        let ghost prev = out@;
        out.push(q);
        proof {
            crate::document::lemma_docs_view_index(prev);
            crate::document::lemma_docs_view_index(out@);
            assert(crate::document::docs_view(out@) =~= crate::document::docs_view(prev).push(
                out@.last()@,
            ));
            assert(crate::document::docs_view(out@) + update_qs_v(uv.skip(i + 1))
                =~= crate::document::docs_view(prev) + update_qs_v(uv.skip(i as int)));
        }
        i = i + 1;
    }
    proof {
        assert(update_qs_v(uv) =~= crate::document::docs_view(out@));
    }
    out
}

/// The inserted documents' ids, in order, read off an insert record.
pub fn insert_ids(row: &OpRow) -> (r: Vec<Doc>)
    requires
        insert_shape_ok(row@),
    ensures
        crate::document::docs_view(r@) == ids_of_docs_v(
            doc_get_v(row@.cmd, "documents"@)->Some_0->Arr_0,
        ),
{
    broadcast use crate::document::lemma_docs_view_index;

    let docs: &Vec<Doc> = match row.cmd.get("documents") {
        Some(Doc::Arr(docs)) => docs,
        _ => {
            proof {
                assert(false);
            }
            return Vec::new();
        },
    };
    let ghost dv = crate::document::docs_view(docs@);
    proof {
        assert(dv =~= doc_get_v(row@.cmd, "documents"@)->Some_0->Arr_0);
        assert(dv.skip(0) =~= dv);
    }
    let mut out: Vec<Doc> = Vec::new();
    let mut i: usize = 0;
    while i < docs.len()
        invariant
            0 <= i <= docs@.len(),
            dv == crate::document::docs_view(docs@),
            dv.len() == docs@.len(),
            forall|k: int| 0 <= k < docs@.len() ==> dv[k] == crate::document::doc_view(docs@[k]),
            forall|k: int| 0 <= k < dv.len() ==> doc_get_v(#[trigger] dv[k], "_id"@) is Some,
            ids_of_docs_v(dv) =~= crate::document::docs_view(out@) + ids_of_docs_v(
                dv.skip(i as int),
            ),
        decreases docs@.len() - i,
    {
        proof {
            assert(dv.skip(i as int).drop_first() =~= dv.skip(i + 1));
            assert(dv.skip(i as int)[0] == dv[i as int]);
        }
        let id: Doc = match docs[i].get("_id") {
            Some(id) => id.deep_clone(),
            None => {
                proof {
                    assert(false);
                }
                Doc::Null
            },
        };
        let ghost prev = out@;
        out.push(id);
        proof {
            crate::document::lemma_docs_view_index(prev);
            crate::document::lemma_docs_view_index(out@);
            assert(crate::document::docs_view(out@) =~= crate::document::docs_view(prev).push(
                out@.last()@,
            ));
            assert(crate::document::docs_view(out@) + ids_of_docs_v(dv.skip(i + 1))
                =~= crate::document::docs_view(prev) + ids_of_docs_v(dv.skip(i as int)));
        }
        i = i + 1;
    }
    proof {
        assert(ids_of_docs_v(dv) =~= crate::document::docs_view(out@));
    }
    out
}

/// A find-and-modify record carries its removal flag and an object query.
pub open spec fn fm_shape_ok(r: OpRowV) -> bool {
    &&& doc_get_v(r.cmd, "remove"@) is Some
    &&& doc_get_v(r.cmd, "query"@) matches Option::Some(q) && q is Obj
}

/// A record's payload has the shape its synthesis pass requires of it.
pub open spec fn synth_shape_ok(r: OpRowV) -> bool {
    match r.op {
        Op::Insert => insert_shape_ok(r),
        Op::Update => update_q_shape_ok(r),
        Op::FindAndModify => fm_shape_ok(r),
        _ => true,
    }
}

/// What the revert pass does with one record.
pub enum RevertPlan {
    /// No compensation.
    Skip,
    /// Append exactly this record.
    Append(OpRow),
    /// Run each query on the record's collection; for each matching
    /// document append the record `update_snapshot_row` builds for it.
    SnapshotUpdates(Vec<Doc>),
    /// Run the query on the record's collection; for each matching
    /// document append the record `fm_revert_row` builds for it.
    SnapshotFindModify { query: Doc, remove: bool },
}

/// Plans the revert pass for one record: an insert is compensated by one
/// delete of the inserted ids; an update by snapshots of what its
/// queries match now; a find-and-modify by snapshots of what its query
/// matches; reads and deletes get no compensation.
pub fn revert_plan(row: &OpRow) -> (r: RevertPlan)
    requires
        synth_shape_ok(row@),
    ensures
        match row@.op {
            Op::Insert => r matches RevertPlan::Append(out) && out@ == revert_insert_row_v(row@),
            Op::Update => r matches RevertPlan::SnapshotUpdates(qs)
                && crate::document::docs_view(qs@) == update_qs_v(
                doc_get_v(row@.cmd, "updates"@)->Some_0->Arr_0,
            ),
            Op::FindAndModify => r matches RevertPlan::SnapshotFindModify { query, remove }
                && query@ == doc_get_v(row@.cmd, "query"@)->Some_0 && remove == flag_of_v(
                row@.cmd,
                "remove"@,
            ),
            _ => r is Skip,
        },
{
    match row.op {
        Op::Insert => RevertPlan::Append(revert_insert_row(row)),
        Op::Update => RevertPlan::SnapshotUpdates(update_queries(row)),
        Op::FindAndModify => {
            let query: Doc = match row.cmd.get("query") {
                Some(q) => q.deep_clone(),
                None => {
                    proof {
                        assert(false);
                    }
                    Doc::Null
                },
            };
            let remove = read_flag(&row.cmd, "remove");
            RevertPlan::SnapshotFindModify { query, remove }
        },
        _ => RevertPlan::Skip,
    }
}

/// What the resume pass does with one record.
pub enum ResumePlan {
    /// No reconciliation.
    Skip,
    /// Look each id up on the live target; append what
    /// `resume_insert_row` builds from each outcome.
    LookupInserted(Vec<Doc>),
    /// Run each query on the record's collection; for each matching
    /// document append the record `update_snapshot_row` builds for it.
    SnapshotUpdates(Vec<Doc>),
    /// Run the query on the record's collection; for each matching
    /// document append the record `fm_revert_row` builds for it, as for
    /// a modification.
    SnapshotFindModify { query: Doc },
}

/// Plans the resume pass for one record: an insert is reconciled id by
/// id against the live target; an update by snapshots of what its
/// queries match now; a modifying find-and-modify by snapshots of what
/// its query matches; reads, deletes and removals get no reconciliation.
pub fn resume_plan(row: &OpRow) -> (r: ResumePlan)
    requires
        synth_shape_ok(row@),
    ensures
        match row@.op {
            Op::Insert => r matches ResumePlan::LookupInserted(ids)
                && crate::document::docs_view(ids@) == ids_of_docs_v(
                doc_get_v(row@.cmd, "documents"@)->Some_0->Arr_0,
            ),
            Op::Update => r matches ResumePlan::SnapshotUpdates(qs)
                && crate::document::docs_view(qs@) == update_qs_v(
                doc_get_v(row@.cmd, "updates"@)->Some_0->Arr_0,
            ),
            Op::FindAndModify => if flag_of_v(row@.cmd, "remove"@) {
                r is Skip
            } else {
                r matches ResumePlan::SnapshotFindModify { query } && query@ == doc_get_v(
                    row@.cmd,
                    "query"@,
                )->Some_0
            },
            _ => r is Skip,
        },
{
    match row.op {
        Op::Insert => ResumePlan::LookupInserted(insert_ids(row)),
        Op::Update => ResumePlan::SnapshotUpdates(update_queries(row)),
        Op::FindAndModify => {
            if read_flag(&row.cmd, "remove") {
                ResumePlan::Skip
            } else {
                let query: Doc = match row.cmd.get("query") {
                    Some(q) => q.deep_clone(),
                    None => {
                        proof {
                            assert(false);
                        }
                        Doc::Null
                    },
                };
                ResumePlan::SnapshotFindModify { query }
            }
        },
        _ => ResumePlan::Skip,
    }
}

/// What the export pass does with one record.
pub enum ExportPlan {
    /// Nothing to export.
    Skip,
    /// Run each query on the record's collection; for each matching
    /// document append the record `export_row` builds for it.
    SnapshotUpdates(Vec<Doc>),
    /// Run the query on the record's collection; for each matching
    /// document append the record `export_row` builds for it.
    SnapshotFindModify { query: Doc },
}

/// Plans the export pass for one record: updates and modifying
/// find-and-modify records have the documents they touch snapshotted as
/// insert records; everything else exports nothing.
pub fn export_plan(row: &OpRow) -> (r: ExportPlan)
    requires
        synth_shape_ok(row@),
    ensures
        match row@.op {
            Op::Update => r matches ExportPlan::SnapshotUpdates(qs)
                && crate::document::docs_view(qs@) == update_qs_v(
                doc_get_v(row@.cmd, "updates"@)->Some_0->Arr_0,
            ),
            Op::FindAndModify => if flag_of_v(row@.cmd, "remove"@) {
                r is Skip
            } else {
                r matches ExportPlan::SnapshotFindModify { query } && query@ == doc_get_v(
                    row@.cmd,
                    "query"@,
                )->Some_0
            },
            _ => r is Skip,
        },
{
    match row.op {
        Op::Update => ExportPlan::SnapshotUpdates(update_queries(row)),
        Op::FindAndModify => {
            if read_flag(&row.cmd, "remove") {
                ExportPlan::Skip
            } else {
                let query: Doc = match row.cmd.get("query") {
                    Some(q) => q.deep_clone(),
                    None => {
                        proof {
                            assert(false);
                        }
                        Doc::Null
                    },
                };
                ExportPlan::SnapshotFindModify { query }
            }
        },
        _ => ExportPlan::Skip,
    }
}

/// Tests whether every document of an array carries an `_id`.
pub fn docs_have_ids(docs: &Vec<Doc>) -> (r: bool)
    ensures
        r == forall|i: int|
            0 <= i < crate::document::docs_view(docs@).len() ==> doc_get_v(
                #[trigger] crate::document::docs_view(docs@)[i],
                "_id"@,
            ) is Some,
{
    broadcast use crate::document::lemma_docs_view_index;

    let ghost dv = crate::document::docs_view(docs@);
    let mut i: usize = 0;
    while i < docs.len()
        invariant
            0 <= i <= docs@.len(),
            dv == crate::document::docs_view(docs@),
            dv.len() == docs@.len(),
            forall|k: int| 0 <= k < docs@.len() ==> dv[k] == crate::document::doc_view(docs@[k]),
            forall|k: int| 0 <= k < i ==> doc_get_v(#[trigger] dv[k], "_id"@) is Some,
        decreases docs@.len() - i,
    {
        if docs[i].get("_id").is_none() {
            proof {
                assert(doc_get_v(dv[i as int], "_id"@) is None);
            }
            return false;
        }
        i = i + 1;
    }
    true
}

/// Tests whether a record's payload has the shape its synthesis pass
/// requires, so a caller can refuse a malformed record instead of
/// synthesizing from it.
pub fn synth_shape_check(row: &OpRow) -> (r: bool)
    ensures
        r == synth_shape_ok(row@),
{
    broadcast use crate::document::lemma_docs_view_index;

    match row.op {
        Op::Insert => match row.cmd.get("documents") {
            Some(Doc::Arr(docs)) => {
                proof {
                    assert(crate::document::docs_view(docs@) == doc_get_v(
                        row@.cmd,
                        "documents"@,
                    )->Some_0->Arr_0);
                }
                docs_have_ids(docs)
            },
            _ => false,
        },
        Op::Update => match row.cmd.get("updates") {
            Some(Doc::Arr(ups)) => {
                proof {
                    assert(crate::document::docs_view(ups@) == doc_get_v(
                        row@.cmd,
                        "updates"@,
                    )->Some_0->Arr_0);
                }
                entries_have_obj_queries(ups)
            },
            _ => false,
        },
        Op::FindAndModify => {
            let has_remove = match row.cmd.get("remove") {
                Some(_) => true,
                None => false,
            };
            let has_query = match row.cmd.get("query") {
                Some(Doc::Obj(_)) => true,
                _ => false,
            };
            has_remove && has_query
        },
        _ => true,
    }
}

/// Tests whether every update entry carries an object query.
fn entries_have_obj_queries(ups: &Vec<Doc>) -> (r: bool)
    ensures
        r == forall|i: int|
            0 <= i < crate::document::docs_view(ups@).len() ==> (doc_get_v(
                #[trigger] crate::document::docs_view(ups@)[i],
                "q"@,
            ) matches Option::Some(q) && q is Obj),
{
    broadcast use crate::document::lemma_docs_view_index;

    let ghost uv = crate::document::docs_view(ups@);
    let mut i: usize = 0;
    while i < ups.len()
        invariant
            0 <= i <= ups@.len(),
            uv == crate::document::docs_view(ups@),
            uv.len() == ups@.len(),
            forall|k: int| 0 <= k < ups@.len() ==> uv[k] == crate::document::doc_view(ups@[k]),
            forall|k: int|
                0 <= k < i ==> (doc_get_v(#[trigger] uv[k], "q"@) matches Option::Some(q) && q
                    is Obj),
        decreases ups@.len() - i,
    {
        match ups[i].get("q") {
            Some(Doc::Obj(_)) => {},
            _ => {
                proof {
                    assert(!(doc_get_v(uv[i as int], "q"@) matches Option::Some(q) && q is Obj));
                }
                return false;
            },
        }
        i = i + 1;
    }
    true
}

} // verus!
