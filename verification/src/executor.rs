//! The executor's logic: dispatch planning, scheduling decisions, and the
//! run model.
//!
//! A worker handles one record by issuing one or more driver calls. The
//! library plans those calls — which command goes to which database and
//! collection, with which payload, under which run mode — as data; its
//! caller performs them against the target and reports outcomes. The
//! module also holds the spawn controller's decision rule, the admission
//! gate, the progress accounting, and a step-by-step model of a whole
//! run, on which the run's ordering and stop laws are stated.

use vstd::prelude::*;

use crate::document::{doc_get_v, Doc, DocV};
use crate::op_logs::{OpReadMode, StreamReader, BUFF_SIZE};
use crate::signal::{Signal, SIG_RUNNING, SIG_STOPPED, SIG_STOP_REQUESTED};
use crate::views::rows_view;
use crate::op_row::{strip_envelope_v, Op, OpRow, OpRowV};

verus! {

/// How a run treats mutating records.
#[derive(Debug, Clone)]
pub enum OpRunMode {
    /// Handlers for insert, update, delete and find-and-modify do nothing.
    Readonly,
    /// Every handler issues its calls.
    ReadWrite,
}

/// One call for the driver to make.
#[derive(Debug, PartialEq)]
pub enum DriverCall {
    /// Run a cursor command against a database.
    RunCursorCommand { db: String, cmd: Doc },
    /// Run a plain command against a database.
    RunCommand { db: String, cmd: Doc },
    /// Run an aggregation pipeline on a collection.
    Aggregate { db: String, coll: String, pipeline: Vec<Doc> },
    /// Run a find on a collection bounded to a batch size.
    FindWithLimit { db: String, coll: String, limit: i64 },
    /// Insert one document into a collection.
    InsertOne { db: String, coll: String, doc: Doc },
    /// Update every document matching `q` with `u`.
    UpdateMany { db: String, coll: String, q: Doc, u: Doc },
    /// Delete every document matching `q`.
    DeleteMany { db: String, coll: String, q: Doc },
    /// Find one document matching `query` and delete it.
    FindOneAndDelete { db: String, coll: String, query: Doc },
}

/// The mathematical shape of a driver call.
#[verifier::ext_equal]
pub ghost enum DriverCallV {
    /// Run a cursor command against a database.
    RunCursorCommand { db: Seq<char>, cmd: DocV },
    /// Run a plain command against a database.
    RunCommand { db: Seq<char>, cmd: DocV },
    /// Run an aggregation pipeline on a collection.
    Aggregate { db: Seq<char>, coll: Seq<char>, pipeline: Seq<DocV> },
    /// Run a find on a collection bounded to a batch size.
    FindWithLimit { db: Seq<char>, coll: Seq<char>, limit: i64 },
    /// Insert one document into a collection.
    InsertOne { db: Seq<char>, coll: Seq<char>, doc: DocV },
    /// Update every document matching `q` with `u`.
    UpdateMany { db: Seq<char>, coll: Seq<char>, q: DocV, u: DocV },
    /// Delete every document matching `q`.
    DeleteMany { db: Seq<char>, coll: Seq<char>, q: DocV },
    /// Find one document matching `query` and delete it.
    FindOneAndDelete { db: Seq<char>, coll: Seq<char>, query: DocV },
}

impl View for DriverCall {
    type V = DriverCallV;

    open spec fn view(&self) -> DriverCallV {
        match self {
            DriverCall::RunCursorCommand { db, cmd } => DriverCallV::RunCursorCommand {
                db: db@,
                cmd: cmd@,
            },
            DriverCall::RunCommand { db, cmd } => DriverCallV::RunCommand { db: db@, cmd: cmd@ },
            DriverCall::Aggregate { db, coll, pipeline } => DriverCallV::Aggregate {
                db: db@,
                coll: coll@,
                pipeline: crate::document::docs_view(pipeline@),
            },
            DriverCall::FindWithLimit { db, coll, limit } => DriverCallV::FindWithLimit {
                db: db@,
                coll: coll@,
                limit: *limit,
            },
            DriverCall::InsertOne { db, coll, doc } => DriverCallV::InsertOne {
                db: db@,
                coll: coll@,
                doc: doc@,
            },
            DriverCall::UpdateMany { db, coll, q, u } => DriverCallV::UpdateMany {
                db: db@,
                coll: coll@,
                q: q@,
                u: u@,
            },
            DriverCall::DeleteMany { db, coll, q } => DriverCallV::DeleteMany {
                db: db@,
                coll: coll@,
                q: q@,
            },
            DriverCall::FindOneAndDelete { db, coll, query } => DriverCallV::FindOneAndDelete {
                db: db@,
                coll: coll@,
                query: query@,
            },
        }
    }
}

/// The views of a sequence of driver calls, in order.
pub open spec fn calls_view(s: Seq<DriverCall>) -> Seq<DriverCallV>
    decreases s,
{
    if s.len() == 0 {
        Seq::empty()
    } else {
        seq![s[0]@] + calls_view(s.drop_first())
    }
}

/// A call-sequence view has the element views, in place.
pub broadcast proof fn lemma_calls_view_index(s: Seq<DriverCall>)
    ensures
        (#[trigger] calls_view(s)).len() == s.len(),
        forall|i: int| 0 <= i < s.len() ==> calls_view(s)[i] == s[i]@,
    decreases s,
{
    if s.len() != 0 {
        lemma_calls_view_index(s.drop_first());
        assert forall|i: int| 0 <= i < s.len() implies calls_view(s)[i] == s[i]@ by {
            if i > 0 {
                assert(s.drop_first()[i - 1] == s[i]);
            }
        }
    }
}

/// The envelope a get-more's originating command sheds before re-issue.
pub open spec fn strip_getmore_v(d: DocV) -> DocV {
    crate::document::doc_without_v(
        crate::document::doc_without_v(crate::document::doc_without_v(d, "lsid"@), "$clusterTime"@),
        "$db"@,
    )
}

/// The record's payload has the shape its handler requires of it: the
/// log is assumed trustworthy, so a handler never meets anything else.
pub open spec fn plan_shape_ok(r: OpRowV) -> bool {
    match r.op {
        Op::Aggregate => doc_get_v(r.cmd, "pipeline"@) matches Option::Some(DocV::Arr(items))
            && forall|i: int| 0 <= i < items.len() ==> (#[trigger] items[i]) is Obj,
        Op::Insert => doc_get_v(r.cmd, "documents"@) matches Option::Some(DocV::Arr(docs))
            && forall|i: int| 0 <= i < docs.len() ==> (#[trigger] docs[i]) is Obj,
        Op::Update => doc_get_v(r.cmd, "updates"@) matches Option::Some(DocV::Arr(ups)) && forall|
            i: int,
        | 0 <= i < ups.len() ==> (#[trigger] ups[i]) is Obj,
        Op::Delete => doc_get_v(r.cmd, "deletes"@) matches Option::Some(DocV::Arr(ds)) && forall|
            i: int,
        | 0 <= i < ds.len() ==> (#[trigger] ds[i]) is Obj,
        Op::FindAndModify => doc_get_v(r.cmd, "query"@) matches Option::Some(q) && q is Obj,
        Op::GetMore => match doc_get_v(r.cmd, "originatingCommand"@) {
            Option::Some(oc) => oc is Obj,
            Option::None => doc_get_v(r.cmd, "batchSize"@) matches Option::Some(DocV::Int(_)),
        },
        _ => true,
    }
}

/// The update calls an update batch issues: one update-many per entry
/// that carries an object `q` and an object `u`; other entries are
/// passed over.
pub open spec fn update_calls_v(db: Seq<char>, coll: Seq<char>, ups: Seq<DocV>) -> Seq<DriverCallV>
    decreases ups.len(),
{
    if ups.len() == 0 {
        Seq::empty()
    } else {
        let rest = update_calls_v(db, coll, ups.drop_first());
        let head = ups[0];
        if (doc_get_v(head, "q"@) matches Option::Some(q) && q is Obj) && (doc_get_v(head, "u"@)
            matches Option::Some(u) && u is Obj) {
            seq![
                DriverCallV::UpdateMany {
                    db,
                    coll,
                    q: doc_get_v(head, "q"@)->Some_0,
                    u: doc_get_v(head, "u"@)->Some_0,
                },
            ] + rest
        } else {
            rest
        }
    }
}

/// The insert calls an insert batch issues: one insert per document,
/// each with any `__v` field shed.
pub open spec fn insert_calls_v(db: Seq<char>, coll: Seq<char>, docs: Seq<DocV>) -> Seq<
    DriverCallV,
>
    decreases docs.len(),
{
    if docs.len() == 0 {
        Seq::empty()
    } else {
        seq![
            DriverCallV::InsertOne {
                db,
                coll,
                doc: crate::document::doc_without_v(docs[0], "__v"@),
            },
        ] + insert_calls_v(db, coll, docs.drop_first())
    }
}

/// The delete calls a delete batch issues: one delete-many per entry
/// that carries an object `q`; other entries are passed over.
pub open spec fn delete_calls_v(db: Seq<char>, coll: Seq<char>, ds: Seq<DocV>) -> Seq<DriverCallV>
    decreases ds.len(),
{
    if ds.len() == 0 {
        Seq::empty()
    } else {
        let rest = delete_calls_v(db, coll, ds.drop_first());
        if doc_get_v(ds[0], "q"@) matches Option::Some(q) && q is Obj {
            seq![DriverCallV::DeleteMany { db, coll, q: doc_get_v(ds[0], "q"@)->Some_0 }] + rest
        } else {
            rest
        }
    }
}

/// The calls a record's handler issues, by the dispatch table: reads run
/// in either mode; writes only in the read-write mode; the no-operation
/// and generic-command kinds are skipped.
pub open spec fn plan_ops_v(r: OpRowV, mode: OpRunMode) -> Seq<DriverCallV> {
    match r.op {
        Op::Find => seq![
            DriverCallV::RunCursorCommand { db: r.db, cmd: strip_envelope_v(r.cmd) },
        ],
        Op::Count => seq![DriverCallV::RunCommand { db: r.db, cmd: strip_envelope_v(r.cmd) }],
        Op::Aggregate => seq![
            DriverCallV::Aggregate {
                db: r.db,
                coll: r.coll,
                pipeline: doc_get_v(r.cmd, "pipeline"@)->Some_0->Arr_0,
            },
        ],
        Op::GetMore => match doc_get_v(r.cmd, "originatingCommand"@) {
            Option::Some(oc) => seq![
                DriverCallV::RunCursorCommand { db: r.db, cmd: strip_getmore_v(oc) },
            ],
            Option::None => seq![
                DriverCallV::FindWithLimit {
                    db: r.db,
                    coll: r.coll,
                    limit: doc_get_v(r.cmd, "batchSize"@)->Some_0->Int_0,
                },
            ],
        },
        Op::Insert => match mode {
            OpRunMode::ReadWrite => insert_calls_v(
                r.db,
                r.coll,
                doc_get_v(r.cmd, "documents"@)->Some_0->Arr_0,
            ),
            OpRunMode::Readonly => Seq::empty(),
        },
        Op::Update => match mode {
            OpRunMode::ReadWrite => update_calls_v(
                r.db,
                r.coll,
                doc_get_v(r.cmd, "updates"@)->Some_0->Arr_0,
            ),
            OpRunMode::Readonly => Seq::empty(),
        },
        Op::Delete => match mode {
            OpRunMode::ReadWrite => delete_calls_v(
                r.db,
                r.coll,
                doc_get_v(r.cmd, "deletes"@)->Some_0->Arr_0,
            ),
            OpRunMode::Readonly => Seq::empty(),
        },
        Op::FindAndModify => match mode {
            OpRunMode::ReadWrite => seq![
                DriverCallV::FindOneAndDelete {
                    db: r.db,
                    coll: r.coll,
                    query: doc_get_v(r.cmd, "query"@)->Some_0,
                },
            ],
            OpRunMode::Readonly => Seq::empty(),
        },
        Op::Nop => Seq::empty(),
        Op::Command => Seq::empty(),
    }
}

/// Plans the driver calls for one record under the given run mode,
/// following the dispatch table exactly.
pub fn plan_ops(row: &OpRow, mode: &OpRunMode) -> (r: Vec<DriverCall>)
    requires
        plan_shape_ok(row@),
    ensures
        calls_view(r@) == plan_ops_v(row@, *mode),
{
    broadcast use lemma_calls_view_index, crate::document::lemma_docs_view_index;

    let read_write: bool = match mode {
        OpRunMode::ReadWrite => true,
        OpRunMode::Readonly => false,
    };
    let mut out: Vec<DriverCall> = Vec::new();
    match row.op {
        Op::Find => {
            let cmd = crate::op_row::strip_envelope(&row.cmd);
            out.push(DriverCall::RunCursorCommand { db: row.db.clone(), cmd });
        },
        Op::Count => {
            let cmd = crate::op_row::strip_envelope(&row.cmd);
            out.push(DriverCall::RunCommand { db: row.db.clone(), cmd });
        },
        Op::Aggregate => {
            let items: &Vec<Doc> = match row.cmd.get("pipeline") {
                Some(Doc::Arr(items)) => items,
                _ => {
                    proof {
                        assert(false);
                    }
                    return out;
                },
            };
            let mut pipeline: Vec<Doc> = Vec::new();
            let mut i: usize = 0;
            while i < items.len()
                invariant
                    0 <= i <= items@.len(),
                    crate::document::docs_view(pipeline@) =~= crate::document::docs_view(
                        items@,
                    ).take(i as int),
                decreases items@.len() - i,
            {
                let ghost prev = pipeline@;
                pipeline.push(items[i].deep_clone());
                proof {
                    crate::document::lemma_docs_view_index(prev);
                    crate::document::lemma_docs_view_index(pipeline@);
                    crate::document::lemma_docs_view_index(items@);
                    assert(crate::document::docs_view(pipeline@) =~= crate::document::docs_view(
                        items@,
                    ).take(i + 1));
                }
                i = i + 1;
            }
            proof {
                crate::document::lemma_docs_view_index(items@);
                assert(crate::document::docs_view(pipeline@) =~= crate::document::docs_view(
                    items@,
                ));
            }
            out.push(
                DriverCall::Aggregate { db: row.db.clone(), coll: row.coll.clone(), pipeline },
            );
        },
        Op::GetMore => {
            match row.cmd.get("originatingCommand") {
                Some(oc) => {
                    let cmd = oc.without("lsid").without("$clusterTime").without("$db");
                    out.push(DriverCall::RunCursorCommand { db: row.db.clone(), cmd });
                },
                None => {
                    let limit: i64 = match row.cmd.get("batchSize") {
                        Some(Doc::Int(n)) => *n,
                        _ => {
                            proof {
                                assert(false);
                            }
                            return out;
                        },
                    };
                    out.push(
                        DriverCall::FindWithLimit {
                            db: row.db.clone(),
                            coll: row.coll.clone(),
                            limit,
                        },
                    );
                },
            }
        },
        Op::Insert => {
            if read_write {
                let docs: &Vec<Doc> = match row.cmd.get("documents") {
                    Some(Doc::Arr(docs)) => docs,
                    _ => {
                        proof {
                            assert(false);
                        }
                        return out;
                    },
                };
                let ghost dv = crate::document::docs_view(docs@);
                proof {
                    assert(dv.skip(0) =~= dv);
                }
                let mut i: usize = 0;
                while i < docs.len()
                    invariant
                        0 <= i <= docs@.len(),
                        dv == crate::document::docs_view(docs@),
                        dv.len() == docs@.len(),
                        forall|k: int|
                            0 <= k < docs@.len() ==> dv[k] == crate::document::doc_view(docs@[k]),
                        insert_calls_v(row@.db, row@.coll, dv) =~= calls_view(out@)
                            + insert_calls_v(row@.db, row@.coll, dv.skip(i as int)),
                    decreases docs@.len() - i,
                {
                    proof {
                        assert(dv.skip(i as int).drop_first() =~= dv.skip(i + 1));
                        assert(dv.skip(i as int)[0] == dv[i as int]);
                    }
                    let ghost prev = out@;
                    let doc = docs[i].without("__v");
                    out.push(DriverCall::InsertOne { db: row.db.clone(), coll: row.coll.clone(), doc });
                    proof {
                        lemma_calls_view_index(prev);
                        lemma_calls_view_index(out@);
                        assert(calls_view(out@) =~= calls_view(prev).push(out@.last()@));
                        assert(calls_view(out@) + insert_calls_v(row@.db, row@.coll, dv.skip(i + 1))
                            =~= calls_view(prev) + insert_calls_v(row@.db, row@.coll, dv.skip(i as int)));
                    }
                    i = i + 1;
                }
                proof {
                    assert(insert_calls_v(row@.db, row@.coll, dv) =~= calls_view(out@));
                }
            }
        },
        Op::Update => {
            if read_write {
                let ups: &Vec<Doc> = match row.cmd.get("updates") {
                    Some(Doc::Arr(ups)) => ups,
                    _ => {
                        proof {
                            assert(false);
                        }
                        return out;
                    },
                };
                let ghost uv = crate::document::docs_view(ups@);
                proof {
                    assert(uv.skip(0) =~= uv);
                }
                let mut i: usize = 0;
                while i < ups.len()
                    invariant
                        0 <= i <= ups@.len(),
                        uv == crate::document::docs_view(ups@),
                        uv.len() == ups@.len(),
                        forall|k: int|
                            0 <= k < ups@.len() ==> uv[k] == crate::document::doc_view(ups@[k]),
                        update_calls_v(row@.db, row@.coll, uv) =~= calls_view(out@)
                            + update_calls_v(row@.db, row@.coll, uv.skip(i as int)),
                    decreases ups@.len() - i,
                {
                    proof {
                        assert(uv.skip(i as int).drop_first() =~= uv.skip(i + 1));
                        assert(uv.skip(i as int)[0] == uv[i as int]);
                    }
                    let q_found: Option<&Doc> = ups[i].get("q");
                    let issue: bool = match q_found {
                        Some(Doc::Obj(_)) => match ups[i].get("u") {
                            Some(Doc::Obj(_)) => true,
                            _ => false,
                        },
                        _ => false,
                    };
                    if issue {
                        let q: Doc = match ups[i].get("q") {
                            Some(q) => q.deep_clone(),
                            None => Doc::Null,
                        };
                        let u: Doc = match ups[i].get("u") {
                            Some(u) => u.deep_clone(),
                            None => Doc::Null,
                        };
                        let ghost prev = out@;
                        out.push(
                            DriverCall::UpdateMany {
                                db: row.db.clone(),
                                coll: row.coll.clone(),
                                q,
                                u,
                            },
                        );
                        proof {
                            lemma_calls_view_index(prev);
                            lemma_calls_view_index(out@);
                            assert(calls_view(out@) =~= calls_view(prev).push(out@.last()@));
                            assert(calls_view(out@) + update_calls_v(
                                row@.db,
                                row@.coll,
                                uv.skip(i + 1),
                            ) =~= calls_view(prev) + update_calls_v(
                                row@.db,
                                row@.coll,
                                uv.skip(i as int),
                            ));
                        }
                    }
                    i = i + 1;
                }
                proof {
                    assert(update_calls_v(row@.db, row@.coll, uv) =~= calls_view(out@));
                }
            }
        },
        Op::Delete => {
            if read_write {
                let ds: &Vec<Doc> = match row.cmd.get("deletes") {
                    Some(Doc::Arr(ds)) => ds,
                    _ => {
                        proof {
                            assert(false);
                        }
                        return out;
                    },
                };
                let ghost dv = crate::document::docs_view(ds@);
                proof {
                    assert(dv.skip(0) =~= dv);
                }
                let mut i: usize = 0;
                while i < ds.len()
                    invariant
                        0 <= i <= ds@.len(),
                        dv == crate::document::docs_view(ds@),
                        dv.len() == ds@.len(),
                        forall|k: int|
                            0 <= k < ds@.len() ==> dv[k] == crate::document::doc_view(ds@[k]),
                        delete_calls_v(row@.db, row@.coll, dv) =~= calls_view(out@)
                            + delete_calls_v(row@.db, row@.coll, dv.skip(i as int)),
                    decreases ds@.len() - i,
                {
                    proof {
                        assert(dv.skip(i as int).drop_first() =~= dv.skip(i + 1));
                        assert(dv.skip(i as int)[0] == dv[i as int]);
                    }
                    let issue: bool = match ds[i].get("q") {
                        Some(Doc::Obj(_)) => true,
                        _ => false,
                    };
                    if issue {
                        let q: Doc = match ds[i].get("q") {
                            Some(q) => q.deep_clone(),
                            None => Doc::Null,
                        };
                        let ghost prev = out@;
                        out.push(
                            DriverCall::DeleteMany { db: row.db.clone(), coll: row.coll.clone(), q },
                        );
                        proof {
                            lemma_calls_view_index(prev);
                            lemma_calls_view_index(out@);
                            assert(calls_view(out@) =~= calls_view(prev).push(out@.last()@));
                            assert(calls_view(out@) + delete_calls_v(
                                row@.db,
                                row@.coll,
                                dv.skip(i + 1),
                            ) =~= calls_view(prev) + delete_calls_v(
                                row@.db,
                                row@.coll,
                                dv.skip(i as int),
                            ));
                        }
                    }
                    i = i + 1;
                }
                proof {
                    assert(delete_calls_v(row@.db, row@.coll, dv) =~= calls_view(out@));
                }
            }
        },
        Op::FindAndModify => {
            if read_write {
                let query: Doc = match row.cmd.get("query") {
                    Some(q) => q.deep_clone(),
                    None => {
                        proof {
                            assert(false);
                        }
                        return out;
                    },
                };
                out.push(
                    DriverCall::FindOneAndDelete {
                        db: row.db.clone(),
                        coll: row.coll.clone(),
                        query,
                    },
                );
            }
        },
        Op::Nop => {},
        Op::Command => {},
    }
    out
}

/// What the spawn controller does at one turn of its loop.
#[derive(Debug, PartialEq, Eq, Structural)]
pub enum SpawnDecision {
    /// Every worker of the elastic total is done: leave the loop.
    Finish,
    /// A stop was requested: leave the loop.
    Stop,
    /// The elastic total is already running: idle briefly and look again.
    Sleep,
    /// Spawn one worker with this index.
    Spawn(u64),
}

/// The spawn controller's rule, in its order: exit when the done count
/// reaches the elastic total, then on any stop request, idle when the
/// total is already created, else spawn the next worker.
pub open spec fn spec_spawn_step(
    thread_count: u64,
    dyn_threads: u64,
    done_workers: u64,
    created: u64,
    signal_value: u8,
) -> SpawnDecision {
    let total = thread_count + dyn_threads;
    if done_workers >= total {
        SpawnDecision::Finish
    } else if signal_value != 0 {
        SpawnDecision::Stop
    } else if created >= total {
        SpawnDecision::Sleep
    } else {
        SpawnDecision::Spawn(created)
    }
}

/// Decides one turn of the spawn controller's loop.
pub fn spawn_step(
    thread_count: u64,
    dyn_threads: u64,
    done_workers: u64,
    created: u64,
    signal_value: u8,
) -> (d: SpawnDecision)
    requires
        thread_count + dyn_threads <= u64::MAX,
    ensures
        d == spec_spawn_step(thread_count, dyn_threads, done_workers, created, signal_value),
{
    let total = thread_count + dyn_threads;
    if done_workers >= total {
        SpawnDecision::Finish
    } else if signal_value != 0 {
        SpawnDecision::Stop
    } else if created >= total {
        SpawnDecision::Sleep
    } else {
        SpawnDecision::Spawn(created)
    }
}

/// Whether a worker waits at the startup barrier: only the initial
/// thread-count workers synchronize their start, and not on a
/// single-pass run.
pub fn worker_waits_at_barrier(thread_index: u64, thread_count: u64, loop_count: u64) -> (r: bool)
    ensures
        r == (thread_index < thread_count && loop_count != 1),
{
    thread_index < thread_count && loop_count != 1
}

/// The admission gate: a worker may take a record unless a concurrency
/// limit is set and the in-flight count has reached it.
pub fn admission_allows(dyn_cc_limit: u64, querying: u64) -> (r: bool)
    ensures
        r == !(dyn_cc_limit > 0 && querying >= dyn_cc_limit),
{
    !(dyn_cc_limit > 0 && querying >= dyn_cc_limit)
}

/// The progress denominator of a run: zero on an endless run; the log
/// length times the loop count times the worker total under full-line
/// reading; the log length alone under the shared streaming and
/// sequential readers.
pub open spec fn spec_progress_total(
    log_len: u64,
    loop_count: u64,
    total_workers: u64,
    mode: OpReadMode,
) -> int {
    if loop_count == 0 {
        0
    } else {
        match mode {
            OpReadMode::FullLine(_) => log_len * loop_count * total_workers,
            _ => log_len as int,
        }
    }
}

/// Computes the progress denominator. Under full-line reading with a
/// loop count this is exactly the log length times the loop count times
/// the worker total.
pub fn progress_total(log_len: u64, loop_count: u64, total_workers: u64, mode: &OpReadMode) -> (r:
    u64)
    requires
        log_len * loop_count <= u64::MAX,
        log_len * loop_count * total_workers <= u64::MAX,
    ensures
        r == spec_progress_total(log_len, loop_count, total_workers, *mode),
{
    if loop_count == 0 {
        0
    } else {
        match mode {
            OpReadMode::FullLine(_) => {
                proof {
                    assert(log_len * loop_count >= 0 && (total_workers > 0 ==> log_len * loop_count
                        * total_workers >= log_len * loop_count)) by (nonlinear_arith);
                }
                (log_len * loop_count) * total_workers
            },
            _ => log_len,
        }
    }
}

/// The bank of database client handles: each handle carries a fixed
/// number of driver connections, and handles are dealt out in blocks of
/// that size, growing the bank on demand.
pub struct ClientPool {
    every_size: u64,
    num_clients: u64,
    get_index: u64,
}

impl ClientPool {
    /// Connections per handle.
    pub closed spec fn spec_every_size(self) -> u64 {
        self.every_size
    }

    /// Handles created so far.
    pub closed spec fn spec_num_clients(self) -> u64 {
        self.num_clients
    }

    /// Handouts made so far.
    pub closed spec fn spec_get_index(self) -> u64 {
        self.get_index
    }

    /// The pool's invariant: a handle exists for every handout made.
    pub open spec fn wf(self) -> bool {
        &&& self.spec_every_size() >= 1
        &&& self.spec_get_index() <= self.spec_num_clients() * self.spec_every_size()
    }

    /// An empty bank dealing `every_size` handouts per handle.
    pub fn new(every_size: u64) -> (r: ClientPool)
        requires
            every_size >= 1,
        ensures
            r.wf(),
            r.spec_every_size() == every_size,
            r.spec_num_clients() == 0,
            r.spec_get_index() == 0,
    {
        ClientPool { every_size, num_clients: 0, get_index: 0 }
    }

    /// Handouts made so far, readable so a caller can test the handout
    /// bounds before asking for a handle.
    pub fn handouts(&self) -> (r: u64)
        ensures
            r == self.spec_get_index(),
    {
        self.get_index
    }

    /// Handles created so far.
    pub fn handles(&self) -> (r: u64)
        ensures
            r == self.spec_num_clients(),
    {
        self.num_clients
    }

    /// Handouts served by each handle.
    pub fn block_size(&self) -> (r: u64)
        ensures
            r == self.spec_every_size(),
    {
        self.every_size
    }

    /// Deals out one handle: on the n-th handout, handle n divided by
    /// the block size, creating it first when the bank is exhausted.
    /// Returns whether a new handle must be created, and the index of
    /// the handle to use, always a valid index afterwards.
    pub fn get(&mut self) -> (r: (bool, u64))
        requires
            old(self).wf(),
            old(self).spec_get_index() <= u64::MAX - old(self).spec_every_size(),
            old(self).spec_num_clients() < u64::MAX,
        ensures
            final(self).wf(),
            final(self).spec_every_size() == old(self).spec_every_size(),
            final(self).spec_get_index() == old(self).spec_get_index() + 1,
            r.0 == (old(self).spec_get_index() >= old(self).spec_num_clients() * old(
                self,
            ).spec_every_size()),
            final(self).spec_num_clients() == old(self).spec_num_clients() + (if r.0 {
                1int
            } else {
                0int
            }),
            r.1 == old(self).spec_get_index() / old(self).spec_every_size(),
            r.1 < final(self).spec_num_clients(),
    {
        let ghost idx = self.get_index as int;
        let ghost e = self.every_size as int;
        let ghost n0 = self.num_clients as int;
        let create = self.get_index / self.every_size >= self.num_clients;
        proof {
            assert((idx / e >= n0) == (idx >= n0 * e)) by (nonlinear_arith)
                requires
                    e >= 1,
                    idx >= 0,
                    n0 >= 0,
            ;
            assert((n0 + 1) * e == n0 * e + e) by (nonlinear_arith);
        }
        if create {
            self.num_clients = self.num_clients + 1;
        }
        let block_index = self.get_index / self.every_size;
        proof {
            let n = self.num_clients as int;
            assert(idx < n * e ==> idx / e < n) by (nonlinear_arith)
                requires
                    e >= 1,
                    idx >= 0,
                    n >= 0,
            ;
            if create {
                assert(idx <= n0 * e);
                assert(idx < n * e);
            } else {
                assert(idx < n * e);
            }
        }
        self.get_index = self.get_index + 1;
        (create, block_index)
    }
}

/// The record each dispatch carries, in dispatch order.
pub open spec fn dispatched_rows(s: Seq<(u64, OpRow)>) -> Seq<OpRowV>
    decreases s,
{
    if s.len() == 0 {
        Seq::empty()
    } else {
        seq![s[0].1@] + dispatched_rows(s.drop_first())
    }
}

/// A dispatch-sequence view has the record views, in place.
pub broadcast proof fn lemma_dispatched_rows_index(s: Seq<(u64, OpRow)>)
    ensures
        (#[trigger] dispatched_rows(s)).len() == s.len(),
        forall|i: int| 0 <= i < s.len() ==> dispatched_rows(s)[i] == s[i].1@,
    decreases s,
{
    if s.len() != 0 {
        lemma_dispatched_rows_index(s.drop_first());
        assert forall|i: int| 0 <= i < s.len() implies dispatched_rows(s)[i] == s[i].1@ by {
            if i > 0 {
                assert(s.drop_first()[i - 1] == s[i]);
            }
        }
    }
}

/// The log's records repeated: this many copies, one after another.
pub open spec fn repeat_rows(s: Seq<OpRowV>, l: int) -> Seq<OpRowV>
    decreases l,
{
    if l <= 0 {
        Seq::empty()
    } else {
        repeat_rows(s, l - 1) + s
    }
}

proof fn lemma_repeat_rows_len(s: Seq<OpRowV>, l: int)
    requires
        l >= 0,
    ensures
        repeat_rows(s, l).len() == l * s.len(),
    decreases l,
{
    if l > 0 {
        lemma_repeat_rows_len(s, l - 1);
        assert(l * s.len() == (l - 1) * s.len() + s.len()) by (nonlinear_arith);
    } else {
        assert(l * s.len() == 0) by (nonlinear_arith)
            requires
                l == 0,
        ;
    }
}

proof fn lemma_repeat_rows_prefix(s: Seq<OpRowV>, a: int, b: int)
    requires
        0 <= a <= b,
    ensures
        repeat_rows(s, a) == repeat_rows(s, b).take(a * s.len()),
    decreases b - a,
{
    lemma_repeat_rows_len(s, a);
    lemma_repeat_rows_len(s, b);
    if a == b {
        assert(repeat_rows(s, b).take(a * s.len()) =~= repeat_rows(s, b));
    } else {
        lemma_repeat_rows_prefix(s, a, b - 1);
        lemma_repeat_rows_len(s, b - 1);
        assert(a * s.len() <= (b - 1) * s.len()) by (nonlinear_arith)
            requires
                a <= b - 1,
                s.len() >= 0,
        ;
        assert(repeat_rows(s, b).take(a * s.len()) =~= repeat_rows(s, b - 1).take(a * s.len()));
    }
}

/// Models one streaming run end to end: each of `loop_count` passes
/// streams the whole log once through a fresh reader shared by the
/// workers, the schedule picks which worker takes each turn, the signal
/// is polled before every record, and when a stop request arrives every
/// worker retires after its in-flight record, after which the run marks
/// the signal stopped.
///
/// Law (dispatch multiset): without a stop, the records dispatched
/// across the workers are the log's records in file order, repeated once
/// per pass — so their multiset equals the log's multiset counted
/// loop-count times, each delivery going to exactly one worker.
///
/// Law (cooperative stop): with a stop requested once `k` records are
/// out, no record beyond the k-th is dispatched, and the run ends with
/// the signal stopped.
pub fn stream_run_model(
    log: &Vec<OpRow>,
    workers: u64,
    loop_count: u64,
    schedule: &Vec<u64>,
    stop_after: Option<u64>,
    signal: &mut Signal,
) -> (dispatched: Vec<(u64, OpRow)>)
    requires
        workers >= 1,
        loop_count >= 1,
        schedule@.len() >= 1,
        forall|k: int| 0 <= k < schedule@.len() ==> schedule@[k] < workers,
        log@.len() <= usize::MAX - 2 * BUFF_SIZE,
        log@.len() * loop_count <= usize::MAX,
        stop_after matches Option::Some(k) ==> k >= 1,
        old(signal).spec_get() == SIG_RUNNING,
    ensures
        forall|k: int| 0 <= k < dispatched@.len() ==> (#[trigger] dispatched@[k]).0 < workers,
        dispatched@.len() <= log@.len() * loop_count,
        stop_after is None ==> {
            &&& dispatched_rows(dispatched@) == repeat_rows(rows_view(log@), loop_count as int)
            &&& dispatched_rows(dispatched@).to_multiset() == repeat_rows(
                rows_view(log@),
                loop_count as int,
            ).to_multiset()
            &&& final(signal).spec_get() == SIG_RUNNING
        },
        stop_after matches Option::Some(k) ==> {
            &&& dispatched_rows(dispatched@) == repeat_rows(
                rows_view(log@),
                loop_count as int,
            ).take(vstd::math::min(k as int, log@.len() * loop_count))
            &&& (k <= log@.len() * loop_count ==> final(signal).spec_get() == SIG_STOPPED)
            &&& (k > log@.len() * loop_count ==> final(signal).spec_get() == SIG_RUNNING)
        },
{
    broadcast use crate::views::lemma_rows_view_index, lemma_dispatched_rows_index;

    let ghost lv = rows_view(log@);
    let log_n: usize = log.len();
    let sched_n: usize = schedule.len();
    let mut dispatched: Vec<(u64, OpRow)> = Vec::new();
    let mut p: u64 = 0;
    proof {
        assert(dispatched_rows(dispatched@) =~= repeat_rows(lv, 0).take(0));
    }
    loop
        invariant
            lv == rows_view(log@),
            lv.len() == log@.len(),
            forall|k: int| 0 <= k < log@.len() ==> lv[k] == log@[k]@,
            workers >= 1,
            loop_count >= 1,
            schedule@.len() >= 1,
            schedule@.len() <= usize::MAX,
            log@.len() <= usize::MAX,
            sched_n == schedule@.len(),
            log_n == log@.len(),
            forall|k: int| 0 <= k < schedule@.len() ==> schedule@[k] < workers,
            log@.len() <= usize::MAX - 2 * BUFF_SIZE,
            log@.len() * loop_count <= usize::MAX,
            stop_after matches Option::Some(k) ==> k >= 1,
            0 <= p <= loop_count,
            dispatched@.len() <= p * lv.len(),
            dispatched_rows(dispatched@) == repeat_rows(lv, p as int).take(
                dispatched@.len() as int,
            ),
            forall|k: int| 0 <= k < dispatched@.len() ==> (#[trigger] dispatched@[k]).0 < workers,
            stop_after matches Option::Some(k) ==> dispatched@.len() <= k,
            signal.spec_get() == (match stop_after {
                Option::Some(k) => if dispatched@.len() >= k {
                    SIG_STOP_REQUESTED as u8
                } else {
                    SIG_RUNNING as u8
                },
                Option::None => SIG_RUNNING as u8,
            }),
            signal.spec_get() == SIG_RUNNING ==> dispatched@.len() == p * lv.len(),
        ensures
            0 <= p <= loop_count,
            dispatched@.len() <= p * lv.len(),
            dispatched_rows(dispatched@) == repeat_rows(lv, p as int).take(
                dispatched@.len() as int,
            ),
            forall|k: int| 0 <= k < dispatched@.len() ==> (#[trigger] dispatched@[k]).0 < workers,
            stop_after matches Option::Some(k) ==> dispatched@.len() <= k,
            signal.spec_get() == (match stop_after {
                Option::Some(k) => if dispatched@.len() >= k {
                    SIG_STOP_REQUESTED as u8
                } else {
                    SIG_RUNNING as u8
                },
                Option::None => SIG_RUNNING as u8,
            }),
            signal.spec_get() == SIG_RUNNING ==> p == loop_count && dispatched@.len() == p
                * lv.len(),
        decreases loop_count - p,
    {
        proof {
            lemma_repeat_rows_len(lv, p as int);
        }
        if p >= loop_count {
            break;
        }
        if signal.get() != 0 {
            proof {
                lemma_repeat_rows_len(lv, p + 1);
                lemma_repeat_rows_prefix(lv, p as int, p + 1);
                assert(repeat_rows(lv, p + 1).take(dispatched@.len() as int) =~= repeat_rows(
                    lv,
                    p as int,
                ).take(dispatched@.len() as int));
            }
            p = p + 1;
            continue;
        }
        proof {
            assert((p + 1) * lv.len() <= loop_count * lv.len()) by (nonlinear_arith)
                requires
                    p + 1 <= loop_count,
                    lv.len() >= 0,
            ;
            assert(loop_count * lv.len() == lv.len() * loop_count) by (nonlinear_arith);
        }
        let ghost base = dispatched@;
        let ghost base_len = dispatched@.len() as int;
        let mut reader = StreamReader::new(log_n);
        let mut turn: usize = 0;
        proof {
            assert(reader.supplied_seq() =~= lv.take(reader.supplied_seq().len() as int));
            assert(dispatched_rows(base) + reader.returned_seq() =~= dispatched_rows(base));
        }
        loop
            invariant
                reader.wf(),
                reader.spec_length() == log@.len(),
                lv == rows_view(log@),
                lv.len() == log@.len(),
                forall|k: int| 0 <= k < log@.len() ==> lv[k] == log@[k]@,
                loop_count >= 1,
                p < loop_count,
                schedule@.len() >= 1,
                schedule@.len() <= usize::MAX,
                log@.len() <= usize::MAX,
                sched_n == schedule@.len(),
                log_n == log@.len(),
                0 <= turn < schedule@.len(),
                forall|k: int| 0 <= k < schedule@.len() ==> schedule@[k] < workers,
                log@.len() <= usize::MAX - 2 * BUFF_SIZE,
                log@.len() * loop_count <= usize::MAX,
                stop_after matches Option::Some(k) ==> k >= 1,
                base_len == base.len(),
                base_len == p * lv.len(),
                (p + 1) * lv.len() <= log@.len() * loop_count,
                dispatched_rows(base) == repeat_rows(lv, p as int).take(base_len),
                forall|k: int| 0 <= k < base.len() ==> (#[trigger] base[k]).0 < workers,
                reader.supplied_seq() == lv.take(reader.supplied_seq().len() as int),
                dispatched@.len() == base_len + reader.spec_index(),
                dispatched@ =~= base + dispatched@.skip(base_len),
                dispatched_rows(dispatched@) == dispatched_rows(base) + reader.returned_seq(),
                forall|k: int|
                    0 <= k < dispatched@.len() ==> (#[trigger] dispatched@[k]).0 < workers,
                stop_after matches Option::Some(k) ==> dispatched@.len() <= k,
                signal.spec_get() == (match stop_after {
                    Option::Some(k) => if dispatched@.len() >= k {
                        SIG_STOP_REQUESTED as u8
                    } else {
                        SIG_RUNNING as u8
                    },
                    Option::None => SIG_RUNNING as u8,
                }),
            ensures
                dispatched@.len() == base_len + reader.spec_index(),
                reader.spec_index() <= log@.len(),
                dispatched_rows(dispatched@) == dispatched_rows(base) + reader.returned_seq(),
                reader.returned_seq() == lv.take(reader.spec_index() as int),
                forall|k: int|
                    0 <= k < dispatched@.len() ==> (#[trigger] dispatched@[k]).0 < workers,
                stop_after matches Option::Some(k) ==> dispatched@.len() <= k,
                signal.spec_get() == (match stop_after {
                    Option::Some(k) => if dispatched@.len() >= k {
                        SIG_STOP_REQUESTED as u8
                    } else {
                        SIG_RUNNING as u8
                    },
                    Option::None => SIG_RUNNING as u8,
                }),
                signal.spec_get() != 0 || reader.spec_index() == log@.len(),
            decreases log@.len() - reader.spec_index(),
        {
            proof {
                crate::op_logs::lemma_stream_order(reader);
            }
            match reader.needs_refill() {
                Some(req) => {
                    let mut batch: Vec<OpRow> = Vec::new();
                    let mut j: usize = 0;
                    proof {
                        assert(req.from + req.count <= log@.len());
                    }
                    while j < req.count
                        invariant
                            log@.len() <= usize::MAX,
                            req.from + req.count <= log@.len(),
                            0 <= j <= req.count,
                            batch@.len() == j,
                            forall|t: int|
                                0 <= t < j ==> (#[trigger] batch@[t])@ == log@[req.from + t]@,
                        decreases req.count - j,
                    {
                        batch.push(log[req.from + j].duplicate());
                        j = j + 1;
                    }
                    proof {
                        crate::views::lemma_rows_view_index(batch@);
                        assert(rows_view(batch@) =~= lv.subrange(
                            req.from as int,
                            req.from + req.count,
                        ));
                    }
                    reader.refill(batch);
                    proof {
                        crate::op_logs::lemma_stream_order(reader);
                        assert(reader.supplied_seq() =~= lv.take(
                            reader.supplied_seq().len() as int,
                        ));
                    }
                },
                None => {},
            }
            if signal.get() != 0 {
                break;
            }
            let worker = schedule[turn];
            let ghost ret0 = reader.returned_seq();
            match reader.next() {
                Some(row) => {
                    let ghost prev = dispatched@;
                    dispatched.push((worker, row));
                    proof {
                        crate::op_logs::lemma_stream_order(reader);
                        lemma_dispatched_rows_index(prev);
                        lemma_dispatched_rows_index(dispatched@);
                        assert(dispatched_rows(prev) == dispatched_rows(base) + ret0);
                        assert(dispatched_rows(dispatched@) =~= dispatched_rows(prev).push(
                            dispatched@.last().1@,
                        ));
                        assert(dispatched_rows(dispatched@) =~= dispatched_rows(base)
                            + reader.returned_seq());
                        assert(dispatched@ =~= base + dispatched@.skip(base_len));
                    }
                    match stop_after {
                        Some(k) => {
                            if dispatched.len() as u64 >= k && signal.get() == 0 {
                                signal.set(SIG_STOP_REQUESTED);
                            }
                        },
                        None => {},
                    }
                },
                None => {
                    proof {
                        crate::op_logs::lemma_stream_order(reader);
                    }
                    break;
                },
            }
            turn = (turn + 1) % schedule.len();
        }
        proof {
            lemma_repeat_rows_len(lv, p as int);
            lemma_repeat_rows_len(lv, p + 1);
            assert(repeat_rows(lv, p + 1) == repeat_rows(lv, p as int) + lv);
            assert(repeat_rows(lv, p as int).take(base_len) =~= repeat_rows(lv, p as int));
            assert(dispatched_rows(dispatched@) =~= repeat_rows(lv, p + 1).take(
                dispatched@.len() as int,
            ));
            assert((p + 1) * lv.len() == p * lv.len() + lv.len()) by (nonlinear_arith);
        }
        p = p + 1;
    }
    if signal.get() == SIG_STOP_REQUESTED {
        signal.set(SIG_STOPPED);
    }
    proof {
        lemma_repeat_rows_len(lv, p as int);
        lemma_repeat_rows_len(lv, loop_count as int);
        lemma_repeat_rows_prefix(lv, p as int, loop_count as int);
        assert(p * lv.len() <= loop_count * lv.len()) by (nonlinear_arith)
            requires
                0 <= p <= loop_count,
                lv.len() >= 0,
        ;
        assert(lv.len() * loop_count == loop_count * lv.len()) by (nonlinear_arith);
        assert(dispatched_rows(dispatched@) =~= repeat_rows(lv, loop_count as int).take(
            dispatched@.len() as int,
        ));
        if stop_after is None {
            assert(dispatched_rows(dispatched@) =~= repeat_rows(lv, loop_count as int));
        }
    }
    dispatched
}

/// Models one full-line run: each worker makes `loop_count` passes over
/// the in-memory log, counting progress once per record, and polls the
/// signal before every record; a stop request set partway retires every
/// worker after its in-flight record, and the run then marks the signal
/// stopped.
///
/// Law (progress bound): progress never exceeds the progress
/// denominator — the log length times the loop count times the worker
/// count — and without a stop it reaches it exactly.
pub fn full_run_model(
    log_len: u64,
    loop_count: u64,
    workers: u64,
    stop_after: Option<u64>,
    signal: &mut Signal,
) -> (progress: u64)
    requires
        loop_count >= 1,
        loop_count * workers <= u64::MAX,
        log_len * loop_count <= u64::MAX,
        log_len * loop_count * workers <= u64::MAX,
        stop_after matches Option::Some(k) ==> k >= 1,
        old(signal).spec_get() == SIG_RUNNING,
    ensures
        progress <= log_len * loop_count * workers,
        stop_after is None ==> progress == log_len * loop_count * workers
            && final(signal).spec_get() == SIG_RUNNING,
        stop_after matches Option::Some(k) ==> {
            &&& progress == vstd::math::min(k as int, log_len * loop_count * workers)
            &&& (k <= log_len * loop_count * workers ==> final(signal).spec_get() == SIG_STOPPED)
            &&& (k > log_len * loop_count * workers ==> final(signal).spec_get() == SIG_RUNNING)
        },
{
    let ghost total: int = log_len * loop_count * workers;
    let mut progress: u64 = 0;
    let mut w: u64 = 0;
    let mut stopped: bool = false;
    proof {
        assert(0 * (loop_count * log_len) == 0) by (nonlinear_arith);
        assert(workers * (loop_count * log_len) == log_len * loop_count * workers)
            by (nonlinear_arith);
    }
    while w < workers
        invariant
            0 <= w <= workers,
            loop_count >= 1,
            total == log_len * loop_count * workers,
            total <= u64::MAX,
            workers * (loop_count * log_len) == total,
            stop_after matches Option::Some(k) ==> k >= 1,
            !stopped ==> progress == w * (loop_count * log_len),
            stopped ==> progress <= w * (loop_count * log_len),
            progress <= total,
            w * (loop_count * log_len) <= total,
            signal.spec_get() == (if stopped {
                SIG_STOP_REQUESTED as u8
            } else {
                SIG_RUNNING as u8
            }),
            stopped ==> (stop_after matches Option::Some(k) && progress == k),
            !stopped ==> (stop_after matches Option::Some(k) ==> progress < k),
        decreases workers - w,
    {
        proof {
            assert((w + 1) * (loop_count * log_len) == w * (loop_count * log_len) + loop_count
                * log_len) by (nonlinear_arith);
            assert((w + 1) * (loop_count * log_len) <= workers * (loop_count * log_len))
                by (nonlinear_arith)
                requires
                    w + 1 <= workers,
                    loop_count * log_len >= 0,
            ;
            assert(0 * log_len == 0) by (nonlinear_arith);
            assert(loop_count * log_len <= loop_count * log_len);
        }
        let ghost w_base: int = w * (loop_count * log_len);
        let mut l: u64 = 0;
        while l < loop_count
            invariant
                0 <= l <= loop_count,
                total <= u64::MAX,
                w_base >= 0,
                w_base + loop_count * log_len <= total,
                stop_after matches Option::Some(k) ==> k >= 1,
                l * log_len <= loop_count * log_len,
                l * log_len >= 0,
                !stopped ==> progress == w_base + l * log_len,
                stopped ==> progress <= w_base + l * log_len,
                progress <= total,
                signal.spec_get() == (if stopped {
                    SIG_STOP_REQUESTED as u8
                } else {
                    SIG_RUNNING as u8
                }),
                stopped ==> (stop_after matches Option::Some(k) && progress == k),
                !stopped ==> (stop_after matches Option::Some(k) ==> progress < k),
            decreases loop_count - l,
        {
            proof {
                assert((l + 1) * log_len == l * log_len + log_len) by (nonlinear_arith);
                assert((l + 1) * log_len <= loop_count * log_len) by (nonlinear_arith)
                    requires
                        l + 1 <= loop_count,
                        log_len >= 0,
                ;
            }
            let ghost l_base: int = w_base + l * log_len;
            let mut i: u64 = 0;
            while i < log_len
                invariant
                    0 <= i <= log_len,
                    total <= u64::MAX,
                    l_base >= 0,
                    l_base + log_len <= total,
                    stop_after matches Option::Some(k) ==> k >= 1,
                    !stopped ==> progress == l_base + i,
                    stopped ==> progress <= l_base + i,
                    progress <= total,
                    signal.spec_get() == (if stopped {
                        SIG_STOP_REQUESTED as u8
                    } else {
                        SIG_RUNNING as u8
                    }),
                    stopped ==> (stop_after matches Option::Some(k) && progress == k),
                    !stopped ==> (stop_after matches Option::Some(k) ==> progress < k),
                ensures
                    stopped || i == log_len,
                decreases log_len - i,
            {
                if signal.get() != 0 {
                    break;
                }
                progress = progress + 1;
                match stop_after {
                    Some(k) => {
                        if progress >= k && signal.get() == 0 {
                            signal.set(SIG_STOP_REQUESTED);
                            stopped = true;
                        }
                    },
                    None => {},
                }
                i = i + 1;
            }
            proof {
                assert((l + 1) * log_len == l * log_len + log_len) by (nonlinear_arith);
                assert((l + 1) * log_len <= loop_count * log_len) by (nonlinear_arith)
                    requires
                        l + 1 <= loop_count,
                        log_len >= 0,
                ;
            }
            l = l + 1;
        }
        proof {
            assert((w + 1) * (loop_count * log_len) == w * (loop_count * log_len) + loop_count
                * log_len) by (nonlinear_arith);
        }
        w = w + 1;
    }
    if signal.get() == SIG_STOP_REQUESTED {
        signal.set(SIG_STOPPED);
    }
    progress
}

/// Tests whether every document of an array is an object.
fn all_obj(items: &Vec<Doc>) -> (r: bool)
    ensures
        r == forall|i: int|
            0 <= i < crate::document::docs_view(items@).len() ==> (
            #[trigger] crate::document::docs_view(items@)[i]) is Obj,
{
    broadcast use crate::document::lemma_docs_view_index;

    let ghost dv = crate::document::docs_view(items@);
    let mut i: usize = 0;
    while i < items.len()
        invariant
            0 <= i <= items@.len(),
            dv == crate::document::docs_view(items@),
            dv.len() == items@.len(),
            forall|k: int| 0 <= k < items@.len() ==> dv[k] == crate::document::doc_view(items@[k]),
            forall|k: int| 0 <= k < i ==> (#[trigger] dv[k]) is Obj,
        decreases items@.len() - i,
    {
        match &items[i] {
            Doc::Obj(_) => {},
            _ => {
                proof {
                    assert(!(dv[i as int] is Obj));
                }
                return false;
            },
        }
        i = i + 1;
    }
    true
}

/// Tests whether a record's payload has the shape its handler requires,
/// so a caller can refuse a malformed record instead of dispatching it.
pub fn plan_shape_check(row: &OpRow) -> (r: bool)
    ensures
        r == plan_shape_ok(row@),
{
    match row.op {
        Op::Aggregate => match row.cmd.get("pipeline") {
            Some(Doc::Arr(items)) => all_obj(items),
            _ => false,
        },
        Op::Insert => match row.cmd.get("documents") {
            Some(Doc::Arr(docs)) => all_obj(docs),
            _ => false,
        },
        Op::Update => match row.cmd.get("updates") {
            Some(Doc::Arr(ups)) => all_obj(ups),
            _ => false,
        },
        Op::Delete => match row.cmd.get("deletes") {
            Some(Doc::Arr(ds)) => all_obj(ds),
            _ => false,
        },
        Op::FindAndModify => match row.cmd.get("query") {
            Some(Doc::Obj(_)) => true,
            _ => false,
        },
        Op::GetMore => match row.cmd.get("originatingCommand") {
            Some(Doc::Obj(_)) => true,
            Some(_) => false,
            None => match row.cmd.get("batchSize") {
                Some(Doc::Int(_)) => true,
                _ => false,
            },
        },
        _ => true,
    }
}

} // verus!
