//! Views of sequences of library values, with their index laws.

use vstd::prelude::*;

use crate::op_row::{OpRow, OpRowV};

verus! {

/// The views of a sequence of strings, in order.
pub open spec fn strs_view(s: Seq<String>) -> Seq<Seq<char>>
    decreases s,
{
    if s.len() == 0 {
        Seq::empty()
    } else {
        seq![s[0]@] + strs_view(s.drop_first())
    }
}

/// A string-sequence view has the element views, in place.
pub broadcast proof fn lemma_strs_view_index(s: Seq<String>)
    ensures
        (#[trigger] strs_view(s)).len() == s.len(),
        forall|i: int| 0 <= i < s.len() ==> strs_view(s)[i] == s[i]@,
    decreases s,
{
    if s.len() != 0 {
        lemma_strs_view_index(s.drop_first());
        assert forall|i: int| 0 <= i < s.len() implies strs_view(s)[i] == s[i]@ by {
            if i > 0 {
                assert(s.drop_first()[i - 1] == s[i]);
            }
        }
    }
}

/// The views of a sequence of records, in order.
pub open spec fn rows_view(s: Seq<OpRow>) -> Seq<OpRowV>
    decreases s,
{
    if s.len() == 0 {
        Seq::empty()
    } else {
        seq![s[0]@] + rows_view(s.drop_first())
    }
}

/// A record-sequence view has the element views, in place.
pub broadcast proof fn lemma_rows_view_index(s: Seq<OpRow>)
    ensures
        (#[trigger] rows_view(s)).len() == s.len(),
        forall|i: int| 0 <= i < s.len() ==> rows_view(s)[i] == s[i]@,
    decreases s,
{
    if s.len() != 0 {
        lemma_rows_view_index(s.drop_first());
        assert forall|i: int| 0 <= i < s.len() implies rows_view(s)[i] == s[i]@ by {
            if i > 0 {
                assert(s.drop_first()[i - 1] == s[i]);
            }
        }
    }
}

} // verus!
