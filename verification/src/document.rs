//! The structured command document carried by an op record.
//!
//! A document is a JSON-shaped tree: null, boolean, integer, other numeric
//! literal (kept as its decimal text), text, array, or object. An object
//! is an ordered list of key-value pairs; a key may in principle repeat,
//! and lookups take the first occurrence, as a JSON reader does.
//!
//! Contracts speak of [`DocV`], the mathematical shape of a document,
//! reached through the view operator.

use vstd::prelude::*;

verus! {

/// A JSON-shaped document value.
#[derive(Debug, PartialEq)]
pub enum Doc {
    /// A JSON null.
    Null,
    /// A JSON boolean.
    Bool(bool),
    /// A JSON number that fits a signed 64-bit integer.
    Int(i64),
    /// Any other JSON numeric literal, kept as its decimal text.
    Num(String),
    /// A JSON string.
    Text(String),
    /// A JSON array.
    Arr(Vec<Doc>),
    /// A JSON object: key-value pairs in order.
    Obj(Vec<(String, Doc)>),
}

/// The mathematical shape of a document.
#[verifier::ext_equal]
pub ghost enum DocV {
    /// A JSON null.
    Null,
    /// A JSON boolean.
    Bool(bool),
    /// A JSON number that fits a signed 64-bit integer.
    Int(i64),
    /// Any other JSON numeric literal, as its decimal text.
    Num(Seq<char>),
    /// A JSON string.
    Text(Seq<char>),
    /// A JSON array.
    Arr(Seq<DocV>),
    /// A JSON object: key-value pairs in order.
    Obj(Seq<(Seq<char>, DocV)>),
}

/// The shape of one document.
pub open spec fn doc_view(d: Doc) -> DocV
    decreases d,
{
    match d {
        Doc::Null => DocV::Null,
        Doc::Bool(b) => DocV::Bool(b),
        Doc::Int(n) => DocV::Int(n),
        Doc::Num(t) => DocV::Num(t@),
        Doc::Text(t) => DocV::Text(t@),
        Doc::Arr(items) => DocV::Arr(docs_view(items@)),
        Doc::Obj(fields) => DocV::Obj(fields_view(fields@)),
    }
}

/// The shapes of a sequence of documents, in order.
pub open spec fn docs_view(s: Seq<Doc>) -> Seq<DocV>
    decreases s,
{
    if s.len() == 0 {
        Seq::empty()
    } else {
        seq![doc_view(s[0])] + docs_view(s.drop_first())
    }
}

/// The shapes of an object's fields, in order.
pub open spec fn fields_view(s: Seq<(String, Doc)>) -> Seq<(Seq<char>, DocV)>
    decreases s,
{
    if s.len() == 0 {
        Seq::empty()
    } else {
        seq![(s[0].0@, doc_view(s[0].1))] + fields_view(s.drop_first())
    }
}

impl View for Doc {
    type V = DocV;

    open spec fn view(&self) -> DocV {
        doc_view(*self)
    }
}

/// A document-sequence view has the element views, in place.
pub broadcast proof fn lemma_docs_view_index(s: Seq<Doc>)
    ensures
        (#[trigger] docs_view(s)).len() == s.len(),
        forall|i: int| 0 <= i < s.len() ==> docs_view(s)[i] == doc_view(s[i]),
    decreases s,
{
    if s.len() != 0 {
        lemma_docs_view_index(s.drop_first());
        assert forall|i: int| 0 <= i < s.len() implies docs_view(s)[i] == doc_view(s[i]) by {
            if i > 0 {
                assert(s.drop_first()[i - 1] == s[i]);
            }
        }
    }
}

/// A field-sequence view has the entry views, in place.
pub broadcast proof fn lemma_fields_view_index(s: Seq<(String, Doc)>)
    ensures
        (#[trigger] fields_view(s)).len() == s.len(),
        forall|i: int| 0 <= i < s.len() ==> fields_view(s)[i] == (s[i].0@, doc_view(s[i].1)),
    decreases s,
{
    if s.len() != 0 {
        lemma_fields_view_index(s.drop_first());
        assert forall|i: int| 0 <= i < s.len() implies fields_view(s)[i] == (
            s[i].0@,
            doc_view(s[i].1),
        ) by {
            if i > 0 {
                assert(s.drop_first()[i - 1] == s[i]);
            }
        }
    }
}

/// The first value bound to `key` among `fields`, if any.
pub open spec fn lookup_v(fields: Seq<(Seq<char>, DocV)>, key: Seq<char>) -> Option<DocV>
    decreases fields.len(),
{
    if fields.len() == 0 {
        Option::None
    } else if fields[0].0 == key {
        Option::Some(fields[0].1)
    } else {
        lookup_v(fields.drop_first(), key)
    }
}

/// The value bound to `key` when `d` is an object holding one, if any.
pub open spec fn doc_get_v(d: DocV, key: Seq<char>) -> Option<DocV> {
    match d {
        DocV::Obj(fields) => lookup_v(fields, key),
        _ => Option::None,
    }
}

/// The fields with every binding of `key` taken out.
pub open spec fn without_key_v(fields: Seq<(Seq<char>, DocV)>, key: Seq<char>) -> Seq<
    (Seq<char>, DocV),
>
    decreases fields.len(),
{
    if fields.len() == 0 {
        fields
    } else if fields[0].0 == key {
        without_key_v(fields.drop_first(), key)
    } else {
        seq![fields[0]] + without_key_v(fields.drop_first(), key)
    }
}

/// The document with every binding of `key` taken out of its top object,
/// when it is an object; anything else unchanged.
pub open spec fn doc_without_v(d: DocV, key: Seq<char>) -> DocV {
    match d {
        DocV::Obj(fields) => DocV::Obj(without_key_v(fields, key)),
        _ => d,
    }
}

/// Equality of a key with a literal, by the characters.
pub fn str_key_eq(a: &String, b: &str) -> (r: bool)
    ensures
        r == (a@ == b@),
{
    let bs: String = b.to_owned();
    *a == bs
}

impl Doc {
    /// The value bound to `key` when this is an object, if any.
    pub fn get<'a>(&'a self, key: &str) -> (r: Option<&'a Doc>)
        ensures
            match r {
                Option::Some(d) => doc_get_v(self@, key@) == Option::Some(d@),
                Option::None => doc_get_v(self@, key@) is None,
            },
    {
        broadcast use lemma_fields_view_index;

        match self {
            Doc::Obj(fields) => {
                let ghost fv = fields_view(fields@);
                proof {
                    assert(fv.skip(0) =~= fv);
                }
                let mut i: usize = 0;
                while i < fields.len()
                    invariant
                        0 <= i <= fields@.len(),
                        fv == fields_view(fields@),
                        fv.len() == fields@.len(),
                        forall|k: int|
                            0 <= k < fields@.len() ==> fv[k] == (
                                fields@[k].0@,
                                doc_view(fields@[k].1),
                            ),
                        lookup_v(fv, key@) == lookup_v(fv.skip(i as int), key@),
                        *self matches Doc::Obj(them) && them == fields,
                    decreases fields@.len() - i,
                {
                    proof {
                        assert(fv.skip(i as int).drop_first() =~= fv.skip(i + 1));
                        assert(fv.skip(i as int)[0] == fv[i as int]);
                    }
                    if str_key_eq(&fields[i].0, key) {
                        return Some(&fields[i].1);
                    }
                    i = i + 1;
                }
                None
            },
            _ => None,
        }
    }

    /// A deep copy: the copy has the original's shape.
    pub fn deep_clone(&self) -> (r: Doc)
        ensures
            r@ == self@,
        decreases self,
    {
        match self {
            Doc::Null => Doc::Null,
            Doc::Bool(b) => Doc::Bool(*b),
            Doc::Int(n) => Doc::Int(*n),
            Doc::Num(t) => Doc::Num(t.clone()),
            Doc::Text(t) => Doc::Text(t.clone()),
            Doc::Arr(items) => {
                let mut out: Vec<Doc> = Vec::new();
                let mut i: usize = 0;
                while i < items.len()
                    invariant
                        0 <= i <= items@.len(),
                        docs_view(out@) =~= docs_view(items@).take(i as int),
                        *self matches Doc::Arr(them) && them == items,
                    decreases items@.len() - i,
                {
                    broadcast use lemma_docs_view_index;

                    proof {
                        assert(decreases_to!(*self => *items));
                        assert(decreases_to!(*items => items@));
                        assert(decreases_to!(items@ => items@[i as int]));
                    }
                    let copied = items[i].deep_clone();
                    out.push(copied);
                    proof {
                        assert(docs_view(out@) =~= docs_view(items@).take(i + 1));
                    }
                    i = i + 1;
                }
                proof {
                    broadcast use lemma_docs_view_index;

                    assert(docs_view(out@) =~= docs_view(items@));
                }
                Doc::Arr(out)
            },
            Doc::Obj(fields) => {
                let mut out: Vec<(String, Doc)> = Vec::new();
                let mut i: usize = 0;
                while i < fields.len()
                    invariant
                        0 <= i <= fields@.len(),
                        fields_view(out@) =~= fields_view(fields@).take(i as int),
                        *self matches Doc::Obj(them) && them == fields,
                    decreases fields@.len() - i,
                {
                    broadcast use lemma_fields_view_index;

                    proof {
                        assert(decreases_to!(*self => *fields));
                        assert(decreases_to!(*fields => fields@));
                        assert(decreases_to!(fields@ => fields@[i as int]));
                        assert(decreases_to!(fields@[i as int] => fields@[i as int].1));
                    }
                    let entry_key = fields[i].0.clone();
                    let entry_val = fields[i].1.deep_clone();
                    out.push((entry_key, entry_val));
                    proof {
                        assert(fields_view(out@) =~= fields_view(fields@).take(i + 1));
                    }
                    i = i + 1;
                }
                proof {
                    broadcast use lemma_fields_view_index;

                    assert(fields_view(out@) =~= fields_view(fields@));
                }
                Doc::Obj(out)
            },
        }
    }

    /// When this is an object, the same object with every binding of
    /// `key` taken out; anything else is returned unchanged.
    pub fn without(&self, key: &str) -> (r: Doc)
        ensures
            r@ == doc_without_v(self@, key@),
    {
        broadcast use lemma_fields_view_index;

        match self {
            Doc::Obj(fields) => {
                let ghost fv = fields_view(fields@);
                proof {
                    assert(fv.skip(0) =~= fv);
                }
                let mut out: Vec<(String, Doc)> = Vec::new();
                let mut i: usize = 0;
                while i < fields.len()
                    invariant
                        0 <= i <= fields@.len(),
                        fv == fields_view(fields@),
                        fv.len() == fields@.len(),
                        forall|k: int|
                            0 <= k < fields@.len() ==> fv[k] == (
                                fields@[k].0@,
                                doc_view(fields@[k].1),
                            ),
                        without_key_v(fv, key@) =~= fields_view(out@) + without_key_v(
                            fv.skip(i as int),
                            key@,
                        ),
                        *self matches Doc::Obj(them) && them == fields,
                    decreases fields@.len() - i,
                {
                    broadcast use lemma_fields_view_index;

                    proof {
                        assert(fv.skip(i as int).drop_first() =~= fv.skip(i + 1));
                        assert(fv.skip(i as int)[0] == fv[i as int]);
                    }
                    if !str_key_eq(&fields[i].0, key) {
                        let entry_key = fields[i].0.clone();
                        let entry_val = fields[i].1.deep_clone();
                        out.push((entry_key, entry_val));
                        proof {
                            assert(fields_view(out@) =~= fields_view(out@.drop_last()).push(
                                (entry_key@, entry_val@),
                            ));
                            assert(fields_view(out@) + without_key_v(fv.skip(i + 1), key@)
                                =~= without_key_v(fv, key@));
                        }
                    }
                    i = i + 1;
                }
                proof {
                    assert(without_key_v(fv, key@) =~= fields_view(out@));
                }
                Doc::Obj(out)
            },
            _ => self.deep_clone(),
        }
    }
}

} // verus!
