//! The JSON text boundary: parsing an op-log line into a document, and
//! writing a document back out as one line.
//!
//! Whether a line is valid JSON, and which value it denotes, depend on
//! the characters alone; the library names that result and trusts the
//! JSON parser for it. Object keys come back in the parser's canonical
//! key order. The write direction is named too: serializing a document
//! is deterministic in the document, and the compact output holds no
//! line break, which is what keeps the line-per-record framing sound.

use serde_json::Value;
use vstd::prelude::*;

use crate::document::{Doc, DocV};
use crate::op_row::{OpRow, OpRowV};

verus! {

/// The outside JSON value type, declared so a conversion can take it.
#[verifier::external_type_specification]
#[verifier::external_body]
pub struct ExJsonValue(serde_json::Value);

/// The document a text denotes when it is valid JSON: the JSON parse of
/// the characters, with objects in the parser's canonical key order.
pub uninterp spec fn json_doc_of(s: Seq<char>) -> Option<DocV>;

/// Converts a parsed JSON value into a document, one arm per variant:
/// integers that fit 64 bits stay integers, any other number keeps its
/// decimal text. Trusted only as part of [`parse_json_line`], whose
/// contract names the combined result.
#[verifier::external_body]
fn value_to_doc(v: &Value) -> Doc {
    match v {
        Value::Null => Doc::Null,
        Value::Bool(b) => Doc::Bool(*b),
        Value::Number(n) => match n.as_i64() {
            Some(i) => Doc::Int(i),
            None => Doc::Num(n.to_string()),
        },
        Value::String(s) => Doc::Text(s.clone()),
        Value::Array(a) => Doc::Arr(a.iter().map(value_to_doc).collect()),
        Value::Object(m) => Doc::Obj(
            m.iter().map(|(k, v)| (k.clone(), value_to_doc(v))).collect(),
        ),
    }
}

/// Relies on serde_json::from_str: parses one line of JSON text; the
/// result is a function of the characters alone, named `json_doc_of`.
#[verifier::external_body]
pub fn parse_json_line(line: &str) -> (r: Option<Doc>)
    ensures
        match r {
            Option::Some(d) => json_doc_of(line@) == Option::Some(d@),
            Option::None => json_doc_of(line@) is None,
        },
{
    match serde_json::from_str::<Value>(line) {
        Ok(v) => Some(value_to_doc(&v)),
        Err(_) => None,
    }
}

/// The one-line JSON text a document serializes to: deterministic in the
/// document, with objects written in the serializer's canonical key
/// order.
pub uninterp spec fn json_line_of(d: DocV) -> Seq<char>;

/// Converts a document into a JSON value, one arm per variant: integers
/// become numbers, other numeric texts become numbers where they read as
/// one and strings otherwise. Trusted only as part of
/// [`write_json_line`], whose contract names the combined result.
#[verifier::external_body]
fn doc_to_value(d: &Doc) -> Value {
    match d {
        Doc::Null => Value::Null,
        Doc::Bool(b) => Value::Bool(*b),
        Doc::Int(n) => Value::Number((*n).into()),
        Doc::Num(t) => match serde_json::from_str::<serde_json::Number>(t) {
            Ok(n) => Value::Number(n),
            Err(_) => Value::String(t.clone()),
        },
        Doc::Text(t) => Value::String(t.clone()),
        Doc::Arr(items) => Value::Array(items.iter().map(doc_to_value).collect()),
        Doc::Obj(fields) => Value::Object(
            fields.iter().map(|(k, v)| (k.clone(), doc_to_value(v))).collect(),
        ),
    }
}

/// Relies on serde_json::to_string over a value built arm by arm from
/// the document: the result is a function of the document alone, named
/// `json_line_of`; the compact form never holds a line break (control
/// characters in strings are escaped), and serializing such a value
/// cannot fail.
#[verifier::external_body]
pub fn write_json_line(d: &Doc) -> (r: String)
    ensures
        r@ == json_line_of(d@),
        forall|i: int| 0 <= i < r@.len() ==> r@[i] != '\n',
{
    match serde_json::to_string(&doc_to_value(d)) {
        Ok(line) => line,
        Err(_) => String::new(),
    }
}

/// A record as the document its log line serializes: every field of the
/// record schema, the kind under its wire name.
pub open spec fn row_doc_v(r: OpRowV) -> DocV {
    DocV::Obj(
        seq![
            ("id"@, DocV::Text(r.id)),
            ("op"@, DocV::Text(crate::key::op_label_v(r.op))),
            ("db"@, DocV::Text(r.db)),
            ("coll"@, DocV::Text(r.coll)),
            ("cmd"@, r.cmd),
            ("ns"@, DocV::Text(r.ns)),
            ("ts"@, DocV::Int(r.ts)),
        ],
    )
}

/// Writes one record as its op-log line: the serialization of its
/// record-schema document, holding no line break.
pub fn row_to_line(row: &OpRow) -> (r: String)
    ensures
        r@ == json_line_of(row_doc_v(row@)),
        forall|i: int| 0 <= i < r@.len() ==> r@[i] != '\n',
{
    let mut fields: Vec<(String, Doc)> = Vec::new();
    fields.push(("id".to_owned(), Doc::Text(row.id.clone())));
    fields.push(("op".to_owned(), Doc::Text(crate::key::op_label(row.op))));
    fields.push(("db".to_owned(), Doc::Text(row.db.clone())));
    fields.push(("coll".to_owned(), Doc::Text(row.coll.clone())));
    fields.push(("cmd".to_owned(), row.cmd.deep_clone()));
    fields.push(("ns".to_owned(), Doc::Text(row.ns.clone())));
    fields.push(("ts".to_owned(), Doc::Int(row.ts)));
    proof {
        crate::document::lemma_fields_view_index(fields@);
        assert(crate::document::fields_view(fields@) =~= seq![
            ("id"@, DocV::Text(row@.id)),
            ("op"@, DocV::Text(crate::key::op_label_v(row@.op))),
            ("db"@, DocV::Text(row@.db)),
            ("coll"@, DocV::Text(row@.coll)),
            ("cmd"@, row@.cmd),
            ("ns"@, DocV::Text(row@.ns)),
            ("ts"@, DocV::Int(row@.ts)),
        ]);
    }
    let d = Doc::Obj(fields);
    proof {
        assert(d@ =~~= row_doc_v(row@));
    }
    write_json_line(&d)
}

} // verus!
