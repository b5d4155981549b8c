//! Converting one external audit row into an op record.
//!
//! The audit source hands over an operation type, the target database
//! and collection, the original command as JSON text, and a time. The
//! record takes the command's digest as its id, the command's `args`
//! field as its payload, and the names as its target.

use vstd::prelude::*;

use crate::document::{doc_get_v, Doc};
use crate::hash::{shake128_hex_of, to_sha3};
use crate::json::{json_doc_of, parse_json_line};
use crate::op_row::{op_of_audit_name, Op, OpRow};

verus! {

/// Builds the op record for one audit row. Returns the record exactly
/// when the command text is valid JSON carrying an `args` field: the
/// digest of the command text as id, the audit operation type as kind,
/// the names as target with the dotted namespace, the `args` field as
/// payload, and the row's time.
pub fn row_from_audit(optype: &str, db: &str, coll: &str, command: &str, time: i64) -> (r: Option<
    OpRow,
>)
    ensures
        match r {
            Option::Some(row) => {
                &&& json_doc_of(command@) matches Option::Some(d) && doc_get_v(d, "args"@)
                    == Option::Some(row@.cmd)
                &&& row@.id == shake128_hex_of(command@)
                &&& row@.op == op_of_audit_name(optype@)
                &&& row@.db == db@
                &&& row@.coll == coll@
                &&& row@.ns == db@ + "."@ + coll@
                &&& row@.ts == time
                &&& row@.args == crate::document::DocV::Null
            },
            Option::None => match json_doc_of(command@) {
                Option::Some(d) => doc_get_v(d, "args"@) is None,
                Option::None => true,
            },
        },
{
    let parsed: Doc = match parse_json_line(command) {
        Some(d) => d,
        None => {
            return None;
        },
    };
    let cmd: Doc = match parsed.get("args") {
        Some(args) => args.deep_clone(),
        None => {
            return None;
        },
    };
    let mut ns: String = db.to_owned();
    ns.append(".");
    ns.append(coll);
    Some(
        OpRow {
            id: to_sha3(command),
            op: Op::from_audit_name(optype),
            db: db.to_owned(),
            coll: coll.to_owned(),
            cmd,
            ns,
            ts: time,
            args: Doc::Null,
        },
    )
}

} // verus!
