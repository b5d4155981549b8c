//! The normalized trace entry: one captured operation.
//!
//! A record carries the operation kind, the target namespace split into
//! database and collection, the original command payload as a structured
//! document, a content-hash id for diagnostic correlation, and the capture
//! time in milliseconds.

use vstd::prelude::*;

use crate::document::{doc_get_v, doc_view, doc_without_v, Doc, DocV};

verus! {

/// The operation kind: a closed set of supported commands.
#[derive(Clone, Copy, Debug, PartialEq, Eq, Structural)]
pub enum Op {
    /// No operation: skipped by every handler.
    Nop,
    /// An insert of one or more documents.
    Insert,
    /// An update batch.
    Update,
    /// A delete batch.
    Delete,
    /// A find (cursor) command.
    Find,
    /// A count command.
    Count,
    /// A generic command.
    Command,
    /// An aggregation pipeline.
    Aggregate,
    /// A find-and-modify command.
    FindAndModify,
    /// A get-more on an earlier cursor.
    GetMore,
}

/// The operation kind written in a serialized record, by its wire name.
/// The no-operation kind is written `None` on the wire.
pub open spec fn op_of_wire_name(s: Seq<char>) -> Option<Op> {
    if s == "None"@ {
        Option::Some(Op::Nop)
    } else if s == "Insert"@ {
        Option::Some(Op::Insert)
    } else if s == "Update"@ {
        Option::Some(Op::Update)
    } else if s == "Delete"@ {
        Option::Some(Op::Delete)
    } else if s == "Find"@ {
        Option::Some(Op::Find)
    } else if s == "Count"@ {
        Option::Some(Op::Count)
    } else if s == "Command"@ {
        Option::Some(Op::Command)
    } else if s == "Aggregate"@ {
        Option::Some(Op::Aggregate)
    } else if s == "FindAndModify"@ {
        Option::Some(Op::FindAndModify)
    } else if s == "GetMore"@ {
        Option::Some(Op::GetMore)
    } else {
        Option::None
    }
}

/// The operation kind named by an audit row's lower-case operation type;
/// an unknown name maps to the no-operation kind.
pub open spec fn op_of_audit_name(s: Seq<char>) -> Op {
    if s == "update"@ {
        Op::Update
    } else if s == "delete"@ {
        Op::Delete
    } else if s == "find"@ {
        Op::Find
    } else if s == "count"@ {
        Op::Count
    } else if s == "aggregate"@ {
        Op::Aggregate
    } else if s == "findAndModify"@ {
        Op::FindAndModify
    } else if s == "getMore"@ {
        Op::GetMore
    } else if s == "insert"@ {
        Op::Insert
    } else {
        Op::Nop
    }
}

/// Equality of two string slices, by the characters.
pub fn str_eq(a: &str, b: &str) -> (r: bool)
    ensures
        r == (a@ == b@),
{
    let ao: String = a.to_owned();
    let bo: String = b.to_owned();
    ao == bo
}

impl Op {
    /// The kind a serialized record's wire name denotes, if any.
    pub fn from_wire_name(s: &str) -> (r: Option<Op>)
        ensures
            r == op_of_wire_name(s@),
    {
        if str_eq(s, "None") {
            Some(Op::Nop)
        } else if str_eq(s, "Insert") {
            Some(Op::Insert)
        } else if str_eq(s, "Update") {
            Some(Op::Update)
        } else if str_eq(s, "Delete") {
            Some(Op::Delete)
        } else if str_eq(s, "Find") {
            Some(Op::Find)
        } else if str_eq(s, "Count") {
            Some(Op::Count)
        } else if str_eq(s, "Command") {
            Some(Op::Command)
        } else if str_eq(s, "Aggregate") {
            Some(Op::Aggregate)
        } else if str_eq(s, "FindAndModify") {
            Some(Op::FindAndModify)
        } else if str_eq(s, "GetMore") {
            Some(Op::GetMore)
        } else {
            None
        }
    }

    /// The kind an audit row's operation type denotes; unknown types are
    /// taken as no-operation.
    pub fn from_audit_name(s: &str) -> (r: Op)
        ensures
            r == op_of_audit_name(s@),
    {
        if str_eq(s, "update") {
            Op::Update
        } else if str_eq(s, "delete") {
            Op::Delete
        } else if str_eq(s, "find") {
            Op::Find
        } else if str_eq(s, "count") {
            Op::Count
        } else if str_eq(s, "aggregate") {
            Op::Aggregate
        } else if str_eq(s, "findAndModify") {
            Op::FindAndModify
        } else if str_eq(s, "getMore") {
            Op::GetMore
        } else if str_eq(s, "insert") {
            Op::Insert
        } else {
            Op::Nop
        }
    }
}

/// One operation log record.
#[derive(Debug, PartialEq)]
pub struct OpRow {
    /// Content hash of the original command, for diagnostic correlation.
    pub id: String,
    /// The operation kind.
    pub op: Op,
    /// The target database.
    pub db: String,
    /// The target collection.
    pub coll: String,
    /// The command payload.
    pub cmd: Doc,
    /// The namespace: database, a dot, collection.
    pub ns: String,
    /// Capture time in milliseconds.
    pub ts: i64,
    /// For find and count records, the command payload with its envelope
    /// fields stripped, made ready ahead of dispatch; null otherwise.
    pub args: Doc,
}

/// The mathematical shape of a record.
#[verifier::ext_equal]
pub ghost struct OpRowV {
    /// Content hash of the original command.
    pub id: Seq<char>,
    /// The operation kind.
    pub op: Op,
    /// The target database.
    pub db: Seq<char>,
    /// The target collection.
    pub coll: Seq<char>,
    /// The command payload.
    pub cmd: DocV,
    /// The namespace.
    pub ns: Seq<char>,
    /// Capture time in milliseconds.
    pub ts: i64,
    /// The pre-stripped payload for find and count records.
    pub args: DocV,
}

impl View for OpRow {
    type V = OpRowV;

    open spec fn view(&self) -> OpRowV {
        OpRowV {
            id: self.id@,
            op: self.op,
            db: self.db@,
            coll: self.coll@,
            cmd: self.cmd@,
            ns: self.ns@,
            ts: self.ts,
            args: self.args@,
        }
    }
}

impl Default for OpRow {
    /// The empty record: the no-operation kind, empty names, null payload.
    fn default() -> (r: OpRow)
        ensures
            r@.op == Op::Nop,
            r@.id == Seq::<char>::empty(),
            r@.db == Seq::<char>::empty(),
            r@.coll == Seq::<char>::empty(),
            r@.ns == Seq::<char>::empty(),
            r@.ts == 0,
            r@.cmd == DocV::Null,
            r@.args == DocV::Null,
    {
        OpRow {
            id: String::new(),
            op: Op::Nop,
            db: String::new(),
            coll: String::new(),
            cmd: Doc::Null,
            ns: String::new(),
            ts: 0,
            args: Doc::Null,
        }
    }
}

impl OpRow {
    /// A deep copy: the copy has the original's shape.
    pub fn duplicate(&self) -> (r: OpRow)
        ensures
            r@ == self@,
    {
        OpRow {
            id: self.id.clone(),
            op: self.op,
            db: self.db.clone(),
            coll: self.coll.clone(),
            cmd: self.cmd.deep_clone(),
            ns: self.ns.clone(),
            ts: self.ts,
            args: self.args.deep_clone(),
        }
    }
}

/// The envelope fields every handler strips before issuing a command.
pub open spec fn strip_envelope_v(d: DocV) -> DocV {
    doc_without_v(
        doc_without_v(
            doc_without_v(doc_without_v(doc_without_v(d, "lsid"@), "$clusterTime"@), "$db"@),
            "cursor"@,
        ),
        "cursorId"@,
    )
}

/// Strips the envelope fields from a command payload.
pub fn strip_envelope(d: &Doc) -> (r: Doc)
    ensures
        r@ == strip_envelope_v(d@),
{
    d.without("lsid").without("$clusterTime").without("$db").without("cursor").without("cursorId")
}

/// What loading does to a freshly deserialized record: find and count
/// records have the envelope stripped from the payload and the result
/// also placed beside it, ready for dispatch.
pub open spec fn trans_row_v(r: OpRowV) -> OpRowV {
    if r.op == Op::Find || r.op == Op::Count {
        OpRowV { cmd: strip_envelope_v(r.cmd), args: strip_envelope_v(r.cmd), ..r }
    } else {
        r
    }
}

/// Prepares a freshly deserialized record for dispatch.
pub fn trans_value_to_doc(item: OpRow) -> (r: OpRow)
    ensures
        r@ == trans_row_v(item@),
{
    match item.op {
        Op::Find | Op::Count => {
            let stripped = strip_envelope(&item.cmd);
            let args = stripped.deep_clone();
            OpRow { cmd: stripped, args, ..item }
        },
        _ => item,
    }
}

/// The record a document denotes, if it has every field of the record
/// schema with the right shape: text `id`, `op`, `db`, `coll` and `ns`,
/// an integer `ts`, a wire-named operation kind, and any `cmd`.
pub open spec fn row_of_doc_v(d: DocV) -> Option<OpRowV> {
    match doc_get_v(d, "id"@) {
        Option::Some(DocV::Text(id)) => match doc_get_v(d, "op"@) {
            Option::Some(DocV::Text(opname)) => match op_of_wire_name(opname) {
                Option::Some(op) => match doc_get_v(d, "db"@) {
                    Option::Some(DocV::Text(db)) => match doc_get_v(d, "coll"@) {
                        Option::Some(DocV::Text(coll)) => match doc_get_v(d, "ns"@) {
                            Option::Some(DocV::Text(ns)) => match doc_get_v(d, "ts"@) {
                                Option::Some(DocV::Int(ts)) => match doc_get_v(d, "cmd"@) {
                                    Option::Some(cmd) => Option::Some(
                                        OpRowV {
                                            id,
                                            op,
                                            db,
                                            coll,
                                            cmd,
                                            ns,
                                            ts,
                                            args: DocV::Null,
                                        },
                                    ),
                                    _ => Option::None,
                                },
                                _ => Option::None,
                            },
                            _ => Option::None,
                        },
                        _ => Option::None,
                    },
                    _ => Option::None,
                },
                _ => Option::None,
            },
            _ => Option::None,
        },
        _ => Option::None,
    }
}

/// Reads a record out of a parsed document. Returns the record exactly
/// when the document matches the record schema.
pub fn row_from_doc(d: &Doc) -> (r: Option<OpRow>)
    ensures
        match r {
            Option::Some(row) => row_of_doc_v(d@) == Option::Some(row@),
            Option::None => row_of_doc_v(d@) is None,
        },
{
    let id: String = match d.get("id") {
        Some(Doc::Text(s)) => s.clone(),
        _ => {
            return None;
        },
    };
    let opname: &String = match d.get("op") {
        Some(Doc::Text(s)) => s,
        _ => {
            return None;
        },
    };
    let op: Op = match Op::from_wire_name(opname.as_str()) {
        Some(op) => op,
        _ => {
            return None;
        },
    };
    let db: String = match d.get("db") {
        Some(Doc::Text(s)) => s.clone(),
        _ => {
            return None;
        },
    };
    let coll: String = match d.get("coll") {
        Some(Doc::Text(s)) => s.clone(),
        _ => {
            return None;
        },
    };
    let ns: String = match d.get("ns") {
        Some(Doc::Text(s)) => s.clone(),
        _ => {
            return None;
        },
    };
    let ts: i64 = match d.get("ts") {
        Some(Doc::Int(n)) => *n,
        _ => {
            return None;
        },
    };
    let cmd: Doc = match d.get("cmd") {
        Some(c) => c.deep_clone(),
        _ => {
            return None;
        },
    };
    Some(OpRow { id, op, db, coll, cmd, ns, ts, args: Doc::Null })
}

} // verus!
