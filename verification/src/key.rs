//! The diagnostic grouping key of a record: the shape of its command,
//! with digit runs masked, sorted, joined and digested.

use vstd::prelude::*;

use crate::document::{doc_get_v, doc_view, Doc, DocV};
use crate::hash::{shake128_hex_of, to_sha3};
use crate::op_row::{Op, OpRow, OpRowV};
use crate::text::{replace_number, replace_number_v};
use crate::views::{lemma_strs_view_index, strs_view};

verus! {

/// Lexicographic order on texts, by character code.
pub open spec fn str_leq(a: Seq<char>, b: Seq<char>) -> bool
    decreases a.len(),
{
    if a.len() == 0 {
        true
    } else if b.len() == 0 {
        false
    } else if (a[0] as int) < (b[0] as int) {
        true
    } else if (a[0] as int) > (b[0] as int) {
        false
    } else {
        str_leq(a.drop_first(), b.drop_first())
    }
}

/// Compares two texts lexicographically, by character code.
pub fn str_leq_check(a: &str, b: &str) -> (r: bool)
    ensures
        r == str_leq(a@, b@),
{
    let an = a.unicode_len();
    let bn = b.unicode_len();
    let mut i: usize = 0;
    proof {
        assert(a@.skip(0) =~= a@);
        assert(b@.skip(0) =~= b@);
    }
    while i < an && i < bn
        invariant
            0 <= i <= an,
            0 <= i <= bn,
            an == a@.len(),
            bn == b@.len(),
            str_leq(a@, b@) == str_leq(a@.skip(i as int), b@.skip(i as int)),
        decreases an - i,
    {
        proof {
            assert(a@.skip(i as int).drop_first() =~= a@.skip(i + 1));
            assert(b@.skip(i as int).drop_first() =~= b@.skip(i + 1));
            assert(a@.skip(i as int)[0] == a@[i as int]);
            assert(b@.skip(i as int)[0] == b@[i as int]);
        }
        let ca = a.get_char(i) as u32;
        let cb = b.get_char(i) as u32;
        if ca < cb {
            return true;
        }
        if ca > cb {
            return false;
        }
        i = i + 1;
    }
    proof {
        if i >= an {
            assert(a@.skip(i as int).len() == 0);
        } else {
            assert(b@.skip(i as int).len() == 0);
            assert(a@.skip(i as int).len() > 0);
        }
    }
    i >= an
}

/// Insertion into a lexicographically ascending sequence, before the
/// first element not below the value.
pub open spec fn insert_str(s: Seq<Seq<char>>, v: Seq<char>) -> Seq<Seq<char>>
    decreases s.len(),
{
    if s.len() == 0 {
        seq![v]
    } else if str_leq(v, s[0]) {
        seq![v] + s
    } else {
        seq![s[0]] + insert_str(s.drop_first(), v)
    }
}

/// The sequence sorted lexicographically by repeated insertion.
pub open spec fn sort_strs(s: Seq<Seq<char>>) -> Seq<Seq<char>>
    decreases s.len(),
{
    if s.len() == 0 {
        Seq::empty()
    } else {
        insert_str(sort_strs(s.drop_first()), s[0])
    }
}

proof fn lemma_insert_str_split(s: Seq<Seq<char>>, v: Seq<char>, i: int)
    requires
        0 <= i <= s.len(),
        forall|k: int| 0 <= k < i ==> !str_leq(v, #[trigger] s[k]),
        i < s.len() ==> str_leq(v, s[i]),
    ensures
        insert_str(s, v) =~= s.take(i) + seq![v] + s.skip(i),
    decreases i,
{
    if i == 0 {
        assert(s.take(0) + seq![v] + s.skip(0) =~= seq![v] + s);
        if s.len() == 0 {
            assert(insert_str(s, v) =~= seq![v] + s);
        }
    } else {
        lemma_insert_str_split(s.drop_first(), v, i - 1);
        assert(s.drop_first().take(i - 1) =~= s.take(i).drop_first());
        assert(s.drop_first().skip(i - 1) =~= s.skip(i));
        assert(insert_str(s, v) == seq![s[0]] + insert_str(s.drop_first(), v));
    }
}

/// Inserts a text into a lexicographically ascending vector.
fn insert_sorted_str(v: &mut Vec<String>, value: String)
    ensures
        strs_view(final(v)@) == insert_str(strs_view(old(v)@), value@),
{
    broadcast use lemma_strs_view_index;

    let ghost sv = strs_view(v@);
    let ghost vv = value@;
    let mut i: usize = 0;
    while i < v.len() && !str_leq_check(value.as_str(), v[i].as_str())
        invariant
            0 <= i <= v@.len(),
            sv == strs_view(v@),
            sv.len() == v@.len(),
            forall|k: int| 0 <= k < v@.len() ==> sv[k] == v@[k]@,
            vv == value@,
            forall|k: int| 0 <= k < i ==> !str_leq(vv, #[trigger] sv[k]),
        decreases v@.len() - i,
    {
        i = i + 1;
    }
    proof {
        lemma_insert_str_split(sv, vv, i as int);
    }
    v.insert(i, value);
    proof {
        lemma_strs_view_index(v@);
        assert(strs_view(v@) =~= sv.take(i as int) + seq![vv] + sv.skip(i as int));
    }
}

/// Sorts a vector of texts lexicographically.
pub fn sort_string_vec(input: Vec<String>) -> (r: Vec<String>)
    ensures
        strs_view(r@) == sort_strs(strs_view(input@)),
{
    broadcast use lemma_strs_view_index;

    let ghost iv = strs_view(input@);
    let mut out: Vec<String> = Vec::new();
    let mut input = input;
    proof {
        assert(iv.skip(iv.len() as int) =~= Seq::<Seq<char>>::empty());
        assert(sort_strs(iv.skip(iv.len() as int)) =~= strs_view(out@));
    }
    loop
        invariant
            input@.len() <= iv.len(),
            strs_view(input@) == iv.take(input@.len() as int),
            strs_view(out@) == sort_strs(iv.skip(input@.len() as int)),
        ensures
            input@.len() == 0,
            strs_view(out@) == sort_strs(iv),
        decreases input@.len(),
    {
        let ghost before = input@;
        match input.pop() {
            Some(last) => {
                proof {
                    lemma_strs_view_index(before);
                    lemma_strs_view_index(input@);
                    assert(strs_view(before) == iv.take(before.len() as int));
                    assert(strs_view(before)[before.len() - 1] == last@);
                    assert(iv.take(before.len() as int)[before.len() - 1] == iv[before.len() - 1]);
                    assert(strs_view(input@) =~= iv.take(input@.len() as int));
                    assert(last@ == iv[input@.len() as int]);
                    assert(iv.skip(before.len() - 1).drop_first() =~= iv.skip(
                        before.len() as int,
                    ));
                    assert(iv.skip(before.len() - 1)[0] == iv[before.len() - 1]);
                }
                insert_sorted_str(&mut out, last);
            },
            None => {
                proof {
                    assert(iv.skip(0) =~= iv);
                }
                break;
            },
        }
    }
    out
}

/// A sorted sequence with adjacent repeats taken out.
pub open spec fn dedup_adjacent(s: Seq<Seq<char>>) -> Seq<Seq<char>>
    decreases s.len(),
{
    if s.len() == 0 {
        Seq::empty()
    } else if s.len() == 1 {
        s
    } else if s[0] == s[1] {
        dedup_adjacent(s.drop_first())
    } else {
        seq![s[0]] + dedup_adjacent(s.drop_first())
    }
}

/// Takes adjacent repeats out of a vector of texts.
pub fn dedup_string_vec(input: &Vec<String>) -> (r: Vec<String>)
    ensures
        strs_view(r@) == dedup_adjacent(strs_view(input@)),
{
    broadcast use lemma_strs_view_index;

    let ghost iv = strs_view(input@);
    let mut out: Vec<String> = Vec::new();
    let mut i: usize = 0;
    proof {
        assert(iv.skip(0) =~= iv);
    }
    while i < input.len()
        invariant
            0 <= i <= input@.len(),
            iv == strs_view(input@),
            iv.len() == input@.len(),
            forall|k: int| 0 <= k < input@.len() ==> iv[k] == input@[k]@,
            dedup_adjacent(iv) =~= strs_view(out@) + dedup_adjacent(iv.skip(i as int)),
        decreases input@.len() - i,
    {
        proof {
            assert(iv.skip(i as int).drop_first() =~= iv.skip(i + 1));
            assert(iv.skip(i as int)[0] == iv[i as int]);
            if i + 1 < iv.len() {
                assert(iv.skip(i as int)[1] == iv[i + 1]);
            }
        }
        let keep: bool = if i + 1 < input.len() {
            !crate::op_row::str_eq(input[i].as_str(), input[i + 1].as_str())
        } else {
            true
        };
        if keep {
            let ghost prev = out@;
            out.push(input[i].clone());
            proof {
                lemma_strs_view_index(prev);
                lemma_strs_view_index(out@);
                assert(strs_view(out@) =~= strs_view(prev).push(out@.last()@));
                assert(strs_view(out@) + dedup_adjacent(iv.skip(i + 1)) =~= strs_view(prev)
                    + dedup_adjacent(iv.skip(i as int)));
            }
        }
        i = i + 1;
    }
    proof {
        assert(dedup_adjacent(iv) =~= strs_view(out@));
    }
    out
}

/// The texts joined with a separator between them.
pub open spec fn join_sep(s: Seq<Seq<char>>, sep: Seq<char>) -> Seq<char>
    decreases s.len(),
{
    if s.len() == 0 {
        Seq::empty()
    } else if s.len() == 1 {
        s[0]
    } else {
        s[0] + sep + join_sep(s.drop_first(), sep)
    }
}

/// Joins a vector of texts with a separator between them.
pub fn join_string_vec(input: &Vec<String>, sep: &str) -> (r: String)
    ensures
        r@ == join_sep(strs_view(input@), sep@),
{
    broadcast use lemma_strs_view_index;

    let ghost iv = strs_view(input@);
    let mut out = String::new();
    let mut i: usize = 0;
    proof {
        assert(iv.skip(0) =~= iv);
        if iv.len() == 0 {
            assert(out@ =~= join_sep(iv, sep@));
        }
    }
    while i < input.len()
        invariant
            0 <= i <= input@.len(),
            iv == strs_view(input@),
            iv.len() == input@.len(),
            forall|k: int| 0 <= k < input@.len() ==> iv[k] == input@[k]@,
            i == 0 ==> out@ == Seq::<char>::empty(),
            0 < i ==> join_sep(iv, sep@) == out@ + (if i < iv.len() {
                sep@ + join_sep(iv.skip(i as int), sep@)
            } else {
                Seq::<char>::empty()
            }),
        decreases input@.len() - i,
    {
        proof {
            assert(iv.skip(i as int).drop_first() =~= iv.skip(i + 1));
            assert(iv.skip(i as int)[0] == iv[i as int]);
        }
        if i > 0 {
            out.append(sep);
        }
        out.append(input[i].as_str());
        i = i + 1;
    }
    proof {
        if iv.len() > 0 {
            assert(out@ =~= join_sep(iv, sep@));
        }
    }
    out
}

/// The masked key names of every object in the document, depth first:
/// each key with its digit runs masked, then the keys inside its value.
pub open spec fn deep_keys_v(d: DocV) -> Seq<Seq<char>>
    decreases d,
{
    match d {
        DocV::Obj(fields) => field_keys_v(fields),
        DocV::Arr(items) => item_keys_v(items),
        _ => Seq::empty(),
    }
}

/// The masked keys of an object's fields, in order.
pub open spec fn field_keys_v(fields: Seq<(Seq<char>, DocV)>) -> Seq<Seq<char>>
    decreases fields,
{
    if fields.len() == 0 {
        Seq::empty()
    } else {
        seq![replace_number_v(fields[0].0)] + deep_keys_v(fields[0].1) + field_keys_v(
            fields.drop_first(),
        )
    }
}

/// The masked keys inside an array's elements, in order.
pub open spec fn item_keys_v(items: Seq<DocV>) -> Seq<Seq<char>>
    decreases items,
{
    if items.len() == 0 {
        Seq::empty()
    } else {
        deep_keys_v(items[0]) + item_keys_v(items.drop_first())
    }
}

/// Collects the masked key names of every object in the document, depth
/// first.
pub fn deep_build_key(v: &Doc) -> (r: Vec<String>)
    ensures
        strs_view(r@) == deep_keys_v(v@),
    decreases v,
{
    broadcast use lemma_strs_view_index;

    match v {
        Doc::Obj(fields) => {
            let ghost fv = crate::document::fields_view(fields@);
            proof {
                crate::document::lemma_fields_view_index(fields@);
                assert(fv.skip(0) =~= fv);
            }
            let mut out: Vec<String> = Vec::new();
            let mut i: usize = 0;
            while i < fields.len()
                invariant
                    0 <= i <= fields@.len(),
                    fv == crate::document::fields_view(fields@),
                    fv.len() == fields@.len(),
                    forall|k: int|
                        0 <= k < fields@.len() ==> fv[k] == (
                            fields@[k].0@,
                            crate::document::doc_view(fields@[k].1),
                        ),
                    field_keys_v(fv) =~= strs_view(out@) + field_keys_v(fv.skip(i as int)),
                    *v matches Doc::Obj(them) && them == fields,
                decreases fields@.len() - i,
            {
                broadcast use lemma_strs_view_index;

                proof {
                    assert(fv.skip(i as int).drop_first() =~= fv.skip(i + 1));
                    assert(fv.skip(i as int)[0] == fv[i as int]);
                    assert(decreases_to!(*v => *fields));
                    assert(decreases_to!(*fields => fields@));
                    assert(decreases_to!(fields@ => fields@[i as int]));
                    assert(decreases_to!(fields@[i as int] => fields@[i as int].1));
                }
                let ghost prev = out@;
                out.push(replace_number(fields[i].0.as_str()));
                proof {
                    lemma_strs_view_index(prev);
                    lemma_strs_view_index(out@);
                    assert(strs_view(out@) =~= strs_view(prev).push(out@.last()@));
                }
                let ghost mid = out@;
                let mut sub = deep_build_key(&fields[i].1);
                let ghost subv = strs_view(sub@);
                out.append(&mut sub);
                proof {
                    lemma_strs_view_index(mid);
                    lemma_strs_view_index(out@);
                    assert(strs_view(out@) =~= strs_view(mid) + subv);
                    assert(strs_view(out@) + field_keys_v(fv.skip(i + 1)) =~= strs_view(prev)
                        + field_keys_v(fv.skip(i as int)));
                }
                i = i + 1;
            }
            proof {
                assert(field_keys_v(fv) =~= strs_view(out@));
            }
            out
        },
        Doc::Arr(items) => {
            let ghost dv = crate::document::docs_view(items@);
            proof {
                crate::document::lemma_docs_view_index(items@);
                assert(dv.skip(0) =~= dv);
            }
            let mut out: Vec<String> = Vec::new();
            let mut i: usize = 0;
            while i < items.len()
                invariant
                    0 <= i <= items@.len(),
                    dv == crate::document::docs_view(items@),
                    dv.len() == items@.len(),
                    forall|k: int|
                        0 <= k < items@.len() ==> dv[k] == crate::document::doc_view(items@[k]),
                    item_keys_v(dv) =~= strs_view(out@) + item_keys_v(dv.skip(i as int)),
                    *v matches Doc::Arr(them) && them == items,
                decreases items@.len() - i,
            {
                broadcast use lemma_strs_view_index;

                proof {
                    assert(dv.skip(i as int).drop_first() =~= dv.skip(i + 1));
                    assert(dv.skip(i as int)[0] == dv[i as int]);
                    assert(decreases_to!(*v => *items));
                    assert(decreases_to!(*items => items@));
                    assert(decreases_to!(items@ => items@[i as int]));
                }
                let ghost prev = out@;
                let mut sub = deep_build_key(&items[i]);
                let ghost subv = strs_view(sub@);
                out.append(&mut sub);
                proof {
                    lemma_strs_view_index(prev);
                    lemma_strs_view_index(out@);
                    assert(strs_view(out@) =~= strs_view(prev) + subv);
                    assert(strs_view(out@) + item_keys_v(dv.skip(i + 1)) =~= strs_view(prev)
                        + item_keys_v(dv.skip(i as int)));
                }
                i = i + 1;
            }
            proof {
                assert(item_keys_v(dv) =~= strs_view(out@));
            }
            out
        },
        _ => Vec::new(),
    }
}

/// The label of an operation kind, as written in a grouping key. The
/// no-operation kind reads `None`.
pub open spec fn op_label_v(op: Op) -> Seq<char> {
    match op {
        Op::Nop => "None"@,
        Op::Insert => "Insert"@,
        Op::Update => "Update"@,
        Op::Delete => "Delete"@,
        Op::Find => "Find"@,
        Op::Count => "Count"@,
        Op::Command => "Command"@,
        Op::Aggregate => "Aggregate"@,
        Op::FindAndModify => "FindAndModify"@,
        Op::GetMore => "GetMore"@,
    }
}

/// Writes the label of an operation kind.
pub fn op_label(op: Op) -> (r: String)
    ensures
        r@ == op_label_v(op),
{
    match op {
        Op::Nop => "None".to_owned(),
        Op::Insert => "Insert".to_owned(),
        Op::Update => "Update".to_owned(),
        Op::Delete => "Delete".to_owned(),
        Op::Find => "Find".to_owned(),
        Op::Count => "Count".to_owned(),
        Op::Command => "Command".to_owned(),
        Op::Aggregate => "Aggregate".to_owned(),
        Op::FindAndModify => "FindAndModify".to_owned(),
        Op::GetMore => "GetMore".to_owned(),
    }
}

/// The masked keys of each update entry's query, in order.
pub open spec fn update_q_keys_v(ups: Seq<DocV>) -> Seq<Seq<char>>
    decreases ups.len(),
{
    if ups.len() == 0 {
        Seq::empty()
    } else {
        deep_keys_v(doc_get_v(ups[0], "q"@)->Some_0) + update_q_keys_v(ups.drop_first())
    }
}

/// The masked keys of each update entry's update document, in order.
pub open spec fn update_u_keys_v(ups: Seq<DocV>) -> Seq<Seq<char>>
    decreases ups.len(),
{
    if ups.len() == 0 {
        Seq::empty()
    } else {
        deep_keys_v(doc_get_v(ups[0], "u"@)->Some_0) + update_u_keys_v(ups.drop_first())
    }
}

/// An update record's entries each carry a query and an update document,
/// which the key builder reads.
pub open spec fn key_shape_ok(r: OpRowV) -> bool {
    (r.op == Op::Update && (doc_get_v(r.cmd, "updates"@) matches Option::Some(u) && u is Arr))
        ==> forall|i: int|
        0 <= i < doc_get_v(r.cmd, "updates"@)->Some_0->Arr_0.len() ==> doc_get_v(
            #[trigger] doc_get_v(r.cmd, "updates"@)->Some_0->Arr_0[i],
            "q"@,
        ) is Some && (doc_get_v(doc_get_v(r.cmd, "updates"@)->Some_0->Arr_0[i], "u"@) is Some)
}

/// The sorted key list a record's grouping key digests: for a find, the
/// keys of its filter; for an update batch, the query keys, a marker,
/// and the distinct update keys joined; for anything else, the keys of
/// the whole payload.
pub open spec fn key_list_v(r: OpRowV) -> Seq<Seq<char>> {
    match r.op {
        Op::Find => sort_strs(
            deep_keys_v(
                match doc_get_v(r.cmd, "filter"@) {
                    Option::Some(f) => f,
                    Option::None => DocV::Null,
                },
            ),
        ),
        Op::Update => match doc_get_v(r.cmd, "updates"@) {
            Option::Some(u) => {
                let ups = u->Arr_0;
                sort_strs(update_q_keys_v(ups)) + seq![">>"@] + seq![
                    join_sep(dedup_adjacent(sort_strs(update_u_keys_v(ups))), ":"@),
                ]
            },
            Option::None => match doc_get_v(r.cmd, "q"@) {
                Option::Some(q) => sort_strs(deep_keys_v(q)),
                Option::None => sort_strs(deep_keys_v(r.cmd)),
            },
        },
        _ => sort_strs(deep_keys_v(r.cmd)),
    }
}

/// A record's grouping key: its collection, its kind's label, and the
/// digest of its sorted key list, colon-separated. An update record
/// whose update list is not an array keys as `None`.
pub open spec fn build_key_v(r: OpRowV) -> Seq<char> {
    if r.op == Op::Update && (doc_get_v(r.cmd, "updates"@) matches Option::Some(u) && !(u
        is Arr)) {
        "None"@
    } else {
        r.coll + ":"@ + op_label_v(r.op) + ":"@ + shake128_hex_of(
            join_sep(key_list_v(r), Seq::empty()),
        )
    }
}

impl OpRow {
    /// Builds the record's grouping key.
    pub fn build_key(&self) -> (r: String)
        requires
            key_shape_ok(self@),
        ensures
            r@ == build_key_v(self@),
    {
        broadcast use lemma_strs_view_index;

        let keys: Vec<String> = match self.op {
            Op::Find => {
                let base = match self.cmd.get("filter") {
                    Some(f) => deep_build_key(f),
                    None => deep_build_key(&Doc::Null),
                };
                sort_string_vec(base)
            },
            Op::Update => match self.cmd.get("updates") {
                Some(u) => match u {
                    Doc::Arr(ups) => {
                        let ghost uv = crate::document::docs_view(ups@);
                        proof {
                            crate::document::lemma_docs_view_index(ups@);
                            assert(uv =~= doc_get_v(self@.cmd, "updates"@)->Some_0->Arr_0);
                            assert(uv.skip(0) =~= uv);
                        }
                        let mut qkeys: Vec<String> = Vec::new();
                        let mut ukeys: Vec<String> = Vec::new();
                        let mut i: usize = 0;
                        while i < ups.len()
                            invariant
                                0 <= i <= ups@.len(),
                                uv == crate::document::docs_view(ups@),
                                uv.len() == ups@.len(),
                                forall|k: int|
                                    0 <= k < ups@.len() ==> uv[k] == crate::document::doc_view(
                                        ups@[k],
                                    ),
                                forall|k: int|
                                    0 <= k < uv.len() ==> doc_get_v(#[trigger] uv[k], "q"@)
                                        is Some && doc_get_v(uv[k], "u"@) is Some,
                                update_q_keys_v(uv) =~= strs_view(qkeys@) + update_q_keys_v(
                                    uv.skip(i as int),
                                ),
                                update_u_keys_v(uv) =~= strs_view(ukeys@) + update_u_keys_v(
                                    uv.skip(i as int),
                                ),
                            decreases ups@.len() - i,
                        {
                            broadcast use lemma_strs_view_index;

                            proof {
                                assert(uv.skip(i as int).drop_first() =~= uv.skip(i + 1));
                                assert(uv.skip(i as int)[0] == uv[i as int]);
                            }
                            let q = match ups[i].get("q") {
                                Some(q) => q,
                                None => {
                                    proof {
                                        assert(false);
                                    }
                                    return String::new();
                                },
                            };
                            let ghost prev_q = qkeys@;
                            let mut qsub = deep_build_key(q);
                            let ghost qsubv = strs_view(qsub@);
                            qkeys.append(&mut qsub);
                            proof {
                                lemma_strs_view_index(prev_q);
                                lemma_strs_view_index(qkeys@);
                                assert(strs_view(qkeys@) =~= strs_view(prev_q) + qsubv);
                                assert(strs_view(qkeys@) + update_q_keys_v(uv.skip(i + 1))
                                    =~= strs_view(prev_q) + update_q_keys_v(uv.skip(i as int)));
                            }
                            let uval = match ups[i].get("u") {
                                Some(uval) => uval,
                                None => {
                                    proof {
                                        assert(false);
                                    }
                                    return String::new();
                                },
                            };
                            let ghost prev_u = ukeys@;
                            let mut usub = deep_build_key(uval);
                            let ghost usubv = strs_view(usub@);
                            ukeys.append(&mut usub);
                            proof {
                                lemma_strs_view_index(prev_u);
                                lemma_strs_view_index(ukeys@);
                                assert(strs_view(ukeys@) =~= strs_view(prev_u) + usubv);
                                assert(strs_view(ukeys@) + update_u_keys_v(uv.skip(i + 1))
                                    =~= strs_view(prev_u) + update_u_keys_v(uv.skip(i as int)));
                            }
                            i = i + 1;
                        }
                        proof {
                            assert(update_q_keys_v(uv) =~= strs_view(qkeys@));
                            assert(update_u_keys_v(uv) =~= strs_view(ukeys@));
                        }
                        let mut sorted_q = sort_string_vec(qkeys);
                        let sorted_u = sort_string_vec(ukeys);
                        let distinct_u = dedup_string_vec(&sorted_u);
                        let joined_u = join_string_vec(&distinct_u, ":");
                        let ghost before_marker = strs_view(sorted_q@);
                        sorted_q.push(">>".to_owned());
                        proof {
                            lemma_strs_view_index(sorted_q@);
                            assert(strs_view(sorted_q@) =~= before_marker.push(">>"@));
                        }
                        let ghost before_join = strs_view(sorted_q@);
                        sorted_q.push(joined_u);
                        proof {
                            lemma_strs_view_index(sorted_q@);
                            assert(strs_view(sorted_q@) =~= before_join.push(
                                join_sep(dedup_adjacent(sort_strs(update_u_keys_v(uv))), ":"@),
                            ));
                            assert(strs_view(sorted_q@) =~= key_list_v(self@));
                        }
                        sorted_q
                    },
                    _ => {
                        return "None".to_owned();
                    },
                },
                None => match self.cmd.get("q") {
                    Some(q) => sort_string_vec(deep_build_key(q)),
                    None => sort_string_vec(deep_build_key(&self.cmd)),
                },
            },
            _ => sort_string_vec(deep_build_key(&self.cmd)),
        };
        proof {
            assert(strs_view(keys@) == key_list_v(self@));
        }
        let joined = join_string_vec(&keys, "");
        proof {
            reveal_strlit("");
            assert(""@ =~= Seq::<char>::empty());
            assert(joined@ == join_sep(key_list_v(self@), Seq::empty()));
        }
        let digest = to_sha3(joined.as_str());
        let mut out = self.coll.clone();
        out.append(":");
        out.append(op_label(self.op).as_str());
        out.append(":");
        out.append(digest.as_str());
        proof {
            assert(out@ =~= self@.coll + ":"@ + op_label_v(self.op) + ":"@ + shake128_hex_of(
                join_sep(key_list_v(self@), Seq::empty()),
            ));
        }
        out
    }
}

/// Tests whether a record's payload has the shape the key builder
/// requires, so a caller can refuse a malformed record instead of
/// keying it.
pub fn key_shape_check(row: &OpRow) -> (r: bool)
    ensures
        r == key_shape_ok(row@),
{
    broadcast use crate::document::lemma_docs_view_index;

    match row.op {
        Op::Update => match row.cmd.get("updates") {
            Some(Doc::Arr(ups)) => {
                let ghost uv = crate::document::docs_view(ups@);
                proof {
                    assert(uv =~= doc_get_v(row@.cmd, "updates"@)->Some_0->Arr_0);
                }
                let mut i: usize = 0;
                while i < ups.len()
                    invariant
                        0 <= i <= ups@.len(),
                        uv == crate::document::docs_view(ups@),
                        uv.len() == ups@.len(),
                        row@.op == Op::Update,
                        doc_get_v(row@.cmd, "updates"@) matches Option::Some(u) && u is Arr,
                        uv == doc_get_v(row@.cmd, "updates"@)->Some_0->Arr_0,
                        forall|k: int|
                            0 <= k < ups@.len() ==> uv[k] == crate::document::doc_view(ups@[k]),
                        forall|k: int|
                            0 <= k < i ==> doc_get_v(#[trigger] uv[k], "q"@) is Some && (
                            doc_get_v(uv[k], "u"@) is Some),
                    decreases ups@.len() - i,
                {
                    if ups[i].get("q").is_none() || ups[i].get("u").is_none() {
                        proof {
                            assert(!(doc_get_v(uv[i as int], "q"@) is Some && (doc_get_v(
                                uv[i as int],
                                "u"@,
                            ) is Some)));
                            assert(doc_get_v(row@.cmd, "updates"@) matches Option::Some(u) && u
                                is Arr);
                            let ws = doc_get_v(row@.cmd, "updates"@)->Some_0->Arr_0;
                            assert(ws == uv);
                            assert(!(doc_get_v(ws[i as int], "q"@) is Some && (doc_get_v(
                                ws[i as int],
                                "u"@,
                            ) is Some)));
                            assert(!key_shape_ok(row@));
                        }
                        return false;
                    }
                    i = i + 1;
                }
                true
            },
            _ => true,
        },
        _ => true,
    }
}

/// The character is a blank: a space, tab, carriage return or line feed.
pub open spec fn is_space_v(c: char) -> bool {
    c == ' ' || c == '\t' || c == '\r' || c == '\n'
}

/// The text holds nothing but blanks.
pub open spec fn is_blank_v(s: Seq<char>) -> bool {
    forall|i: int| 0 <= i < s.len() ==> is_space_v(#[trigger] s[i])
}

/// Tests whether a text holds nothing but blanks.
pub fn is_blank(s: &str) -> (r: bool)
    ensures
        r == is_blank_v(s@),
{
    let n = s.unicode_len();
    let mut i: usize = 0;
    while i < n
        invariant
            0 <= i <= n,
            n == s@.len(),
            forall|k: int| 0 <= k < i ==> is_space_v(#[trigger] s@[k]),
        decreases n - i,
    {
        let c = s.get_char(i);
        if !(c == ' ' || c == '\t' || c == '\r' || c == '\n') {
            return false;
        }
        i = i + 1;
    }
    true
}

/// The record a line denotes, read by the record schema without the
/// dispatch preparation.
pub open spec fn raw_row_of_line_v(s: Seq<char>) -> Option<OpRowV> {
    match crate::json::json_doc_of(s) {
        Option::Some(d) => crate::op_row::row_of_doc_v(d),
        Option::None => Option::None,
    }
}

/// The non-blank lines whose record keys as `key`, in order.
pub open spec fn mode_matches_v(lines: Seq<Seq<char>>, key: Seq<char>) -> Seq<Seq<char>>
    decreases lines.len(),
{
    if lines.len() == 0 {
        Seq::empty()
    } else {
        let rest = mode_matches_v(lines.drop_first(), key);
        if is_blank_v(lines[0]) {
            rest
        } else {
            match raw_row_of_line_v(lines[0]) {
                Option::Some(r) => if build_key_v(r) == key {
                    seq![lines[0]] + rest
                } else {
                    rest
                },
                Option::None => rest,
            }
        }
    }
}

/// Filters a file's lines by grouping key: the non-blank lines whose
/// record keys as `key`, in order. A line that should hold a keyable
/// record and does not is reported by its index.
pub fn mode_filter_line(lines: &Vec<String>, key: &str) -> (r: Result<Vec<String>, usize>)
    ensures
        match r {
            Result::Ok(kept) => strs_view(kept@) == mode_matches_v(strs_view(lines@), key@),
            Result::Err(i) => i < lines@.len() && !is_blank_v(strs_view(lines@)[i as int]) && (
            match raw_row_of_line_v(strs_view(lines@)[i as int]) {
                Option::Some(row) => !key_shape_ok(row),
                Option::None => true,
            }),
        },
{
    broadcast use lemma_strs_view_index;

    let ghost lv = strs_view(lines@);
    proof {
        assert(lv.skip(0) =~= lv);
    }
    let mut kept: Vec<String> = Vec::new();
    let mut i: usize = 0;
    while i < lines.len()
        invariant
            0 <= i <= lines@.len(),
            lv == strs_view(lines@),
            lv.len() == lines@.len(),
            forall|k: int| 0 <= k < lines@.len() ==> lv[k] == lines@[k]@,
            mode_matches_v(lv, key@) =~= strs_view(kept@) + mode_matches_v(
                lv.skip(i as int),
                key@,
            ),
        decreases lines@.len() - i,
    {
        proof {
            assert(lv.skip(i as int).drop_first() =~= lv.skip(i + 1));
            assert(lv.skip(i as int)[0] == lv[i as int]);
        }
        if !is_blank(lines[i].as_str()) {
            let row = match crate::json::parse_json_line(lines[i].as_str()) {
                Some(d) => crate::op_row::row_from_doc(&d),
                None => None,
            };
            match row {
                Some(row) => {
                    if !key_shape_check(&row) {
                        return Err(i);
                    }
                    if crate::op_row::str_eq(row.build_key().as_str(), key) {
                        let ghost prev = kept@;
                        kept.push(lines[i].clone());
                        proof {
                            lemma_strs_view_index(prev);
                            lemma_strs_view_index(kept@);
                            assert(strs_view(kept@) =~= strs_view(prev).push(kept@.last()@));
                            assert(strs_view(kept@) + mode_matches_v(lv.skip(i + 1), key@)
                                =~= strs_view(prev) + mode_matches_v(lv.skip(i as int), key@));
                        }
                    }
                },
                None => {
                    return Err(i);
                },
            }
        }
        i = i + 1;
    }
    proof {
        assert(mode_matches_v(lv, key@) =~= strs_view(kept@));
    }
    Ok(kept)
}

} // verus!
