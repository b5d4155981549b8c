//! The file-reverse transform used by the synthesizers.
//!
//! A synthesized log is written forward and then reversed, so that
//! replaying it forward undoes the run's effects in reverse
//! chronological order. The transform works on the file's bytes: the
//! sequence of non-empty lines of the output is the reverse of the
//! input's, each line kept byte for byte, and every line leaves with a
//! trailing newline.

use vstd::prelude::*;

verus! {

/// The newline byte.
pub const NL: u8 = 10;

/// The sequence has no newline byte.
pub open spec fn nl_free(s: Seq<u8>) -> bool {
    forall|i: int| 0 <= i < s.len() ==> s[i] != NL
}

/// The non-empty lines of `b` after a partial line `cur` already read.
pub open spec fn lines_from(cur: Seq<u8>, b: Seq<u8>) -> Seq<Seq<u8>>
    decreases b.len(),
{
    if b.len() == 0 {
        if cur.len() > 0 {
            seq![cur]
        } else {
            Seq::empty()
        }
    } else if b[0] == NL {
        (if cur.len() > 0 {
            seq![cur]
        } else {
            Seq::<Seq<u8>>::empty()
        }) + lines_from(Seq::empty(), b.drop_first())
    } else {
        lines_from(cur.push(b[0]), b.drop_first())
    }
}

/// The non-empty lines of a byte text, in order, without their newlines.
pub open spec fn lines_of(b: Seq<u8>) -> Seq<Seq<u8>> {
    lines_from(Seq::empty(), b)
}

/// The lines joined back in reverse order, each followed by a newline.
pub open spec fn joined_rev(ls: Seq<Seq<u8>>) -> Seq<u8>
    decreases ls.len(),
{
    if ls.len() == 0 {
        Seq::empty()
    } else {
        ls.last() + seq![NL] + joined_rev(ls.drop_last())
    }
}

/// The views of a sequence of byte vectors, in order.
pub open spec fn bytes_view(s: Seq<Vec<u8>>) -> Seq<Seq<u8>>
    decreases s,
{
    if s.len() == 0 {
        Seq::empty()
    } else {
        seq![s[0]@] + bytes_view(s.drop_first())
    }
}

/// A byte-vector-sequence view has the element views, in place.
pub broadcast proof fn lemma_bytes_view_index(s: Seq<Vec<u8>>)
    ensures
        (#[trigger] bytes_view(s)).len() == s.len(),
        forall|i: int| 0 <= i < s.len() ==> bytes_view(s)[i] == s[i]@,
    decreases s,
{
    if s.len() != 0 {
        lemma_bytes_view_index(s.drop_first());
        assert forall|i: int| 0 <= i < s.len() implies bytes_view(s)[i] == s[i]@ by {
            if i > 0 {
                assert(s.drop_first()[i - 1] == s[i]);
            }
        }
    }
}

/// Splits a byte text into its non-empty lines, in order.
pub fn split_lines(input: &Vec<u8>) -> (r: Vec<Vec<u8>>)
    ensures
        bytes_view(r@) == lines_of(input@),
{
    broadcast use lemma_bytes_view_index;

    let mut acc: Vec<Vec<u8>> = Vec::new();
    let mut cur: Vec<u8> = Vec::new();
    let mut i: usize = 0;
    proof {
        assert(input@.skip(0) =~= input@);
        assert(bytes_view(acc@) + lines_from(cur@, input@) =~= lines_of(input@));
    }
    while i < input.len()
        invariant
            0 <= i <= input@.len(),
            lines_of(input@) =~= bytes_view(acc@) + lines_from(cur@, input@.skip(i as int)),
        decreases input@.len() - i,
    {
        broadcast use lemma_bytes_view_index;

        proof {
            assert(input@.skip(i as int).drop_first() =~= input@.skip(i + 1));
            assert(input@.skip(i as int)[0] == input@[i as int]);
        }
        let b = input[i];
        if b == NL {
            if cur.len() > 0 {
                let ghost prev_acc = acc@;
                let ghost line = cur@;
                let full = cur;
                cur = Vec::new();
                acc.push(full);
                proof {
                    lemma_bytes_view_index(prev_acc);
                    lemma_bytes_view_index(acc@);
                    assert(bytes_view(acc@) =~= bytes_view(prev_acc).push(line));
                    assert(bytes_view(acc@) + lines_from(cur@, input@.skip(i + 1))
                        =~= bytes_view(prev_acc) + lines_from(line, input@.skip(i as int)));
                }
            } else {
                proof {
                    assert(cur@ =~= Seq::<u8>::empty());
                    assert(lines_from(cur@, input@.skip(i as int)) =~= lines_from(
                        cur@,
                        input@.skip(i + 1),
                    ));
                }
            }
        } else {
            let ghost old_cur = cur@;
            cur.push(b);
            proof {
                assert(cur@ =~= old_cur.push(input@[i as int]));
                assert(lines_from(old_cur, input@.skip(i as int)) == lines_from(
                    cur@,
                    input@.skip(i + 1),
                ));
            }
        }
        i = i + 1;
    }
    proof {
        assert(input@.skip(input@.len() as int) =~= Seq::<u8>::empty());
    }
    if cur.len() > 0 {
        let ghost prev_acc = acc@;
        let ghost line = cur@;
        acc.push(cur);
        proof {
            lemma_bytes_view_index(prev_acc);
            lemma_bytes_view_index(acc@);
            assert(bytes_view(acc@) =~= bytes_view(prev_acc).push(line));
            assert(bytes_view(acc@) =~= lines_of(input@));
        }
    } else {
        proof {
            assert(bytes_view(acc@) =~= lines_of(input@));
        }
    }
    acc
}

/// Reverses a log's content: the output's non-empty lines are the
/// input's in reverse order, each byte for byte and newline-terminated.
pub fn reverse_log_content(input: &Vec<u8>) -> (out: Vec<u8>)
    ensures
        out@ == joined_rev(lines_of(input@)),
        lines_of(out@) == lines_of(input@).reverse(),
{
    broadcast use lemma_bytes_view_index;

    let mut lines = split_lines(input);
    let ghost all = bytes_view(lines@);
    let mut out: Vec<u8> = Vec::new();
    proof {
        assert(out@ + joined_rev(bytes_view(lines@)) =~= joined_rev(all));
    }
    loop
        invariant
            joined_rev(all) =~= out@ + joined_rev(bytes_view(lines@)),
            all == lines_of(input@),
        ensures
            out@ == joined_rev(all),
        decreases lines@.len(),
    {
        let ghost before = lines@;
        match lines.pop() {
            Some(mut line) => {
                let ghost lv = line@;
                proof {
                    lemma_bytes_view_index(before);
                    lemma_bytes_view_index(lines@);
                    assert(lines@ =~= before.drop_last());
                    assert(bytes_view(before) =~= bytes_view(lines@).push(lv));
                    assert(bytes_view(before).last() == lv);
                    assert(bytes_view(before).drop_last() =~= bytes_view(lines@));
                }
                out.append(&mut line);
                out.push(NL);
                proof {
                    assert(out@ + joined_rev(bytes_view(lines@)) =~= joined_rev(all));
                }
            },
            None => {
                proof {
                    assert(bytes_view(lines@) =~= Seq::<Seq<u8>>::empty());
                    assert(joined_rev(bytes_view(lines@)) =~= Seq::<u8>::empty());
                    assert(out@ =~= joined_rev(all));
                }
                break;
            },
        }
    }
    proof {
        lemma_lines_all_clean(Seq::empty(), input@);
        lemma_lines_of_joined(all);
    }
    out
}

/// Every line the split yields is non-empty and free of newlines.
proof fn lemma_lines_all_clean(cur: Seq<u8>, b: Seq<u8>)
    requires
        nl_free(cur),
    ensures
        forall|i: int|
            0 <= i < lines_from(cur, b).len() ==> (#[trigger] lines_from(cur, b)[i]).len() > 0
                && nl_free(lines_from(cur, b)[i]),
    decreases b.len(),
{
    if b.len() == 0 {
    } else if b[0] == NL {
        lemma_lines_all_clean(Seq::empty(), b.drop_first());
        let rest = lines_from(Seq::empty(), b.drop_first());
        assert forall|i: int| 0 <= i < lines_from(cur, b).len() implies (#[trigger] lines_from(
            cur,
            b,
        )[i]).len() > 0 && nl_free(lines_from(cur, b)[i]) by {
            if cur.len() > 0 {
                if i > 0 {
                    assert(lines_from(cur, b)[i] == rest[i - 1]);
                }
            } else {
                assert(lines_from(cur, b)[i] == rest[i]);
            }
        }
    } else {
        assert(nl_free(cur.push(b[0])));
        lemma_lines_all_clean(cur.push(b[0]), b.drop_first());
        assert forall|i: int| 0 <= i < lines_from(cur, b).len() implies (#[trigger] lines_from(
            cur,
            b,
        )[i]).len() > 0 && nl_free(lines_from(cur, b)[i]) by {
            assert(lines_from(cur, b)[i] == lines_from(cur.push(b[0]), b.drop_first())[i]);
        }
    }
}

/// Scanning a newline-free run extends the partial line and goes on.
proof fn lemma_lines_from_extend(cur: Seq<u8>, l: Seq<u8>, rest: Seq<u8>)
    requires
        nl_free(l),
    ensures
        lines_from(cur, l + rest) == lines_from(cur + l, rest),
    decreases l.len(),
{
    if l.len() == 0 {
        assert(l + rest =~= rest);
        assert(cur + l =~= cur);
    } else {
        assert((l + rest)[0] == l[0]);
        assert((l + rest).drop_first() =~= l.drop_first() + rest);
        lemma_lines_from_extend(cur.push(l[0]), l.drop_first(), rest);
        assert(cur.push(l[0]) + l.drop_first() =~= cur + l);
    }
}

/// Splitting a joined line off the front: a non-empty newline-free line
/// followed by a newline contributes itself, then the rest's lines.
proof fn lemma_lines_of_head(l: Seq<u8>, r: Seq<u8>)
    requires
        nl_free(l),
        l.len() > 0,
    ensures
        lines_of(l + seq![NL] + r) == seq![l] + lines_of(r),
{
    assert(l + seq![NL] + r =~= l + (seq![NL] + r));
    lemma_lines_from_extend(Seq::empty(), l, seq![NL] + r);
    assert(Seq::<u8>::empty() + l =~= l);
    assert((seq![NL] + r)[0] == NL);
    assert((seq![NL] + r).drop_first() =~= r);
    assert(lines_from(l, seq![NL] + r) =~= seq![l] + lines_from(Seq::empty(), r));
}

/// The lines of a reverse-joined line sequence are that sequence,
/// reversed, when every line is non-empty and newline-free.
proof fn lemma_lines_of_joined(ls: Seq<Seq<u8>>)
    requires
        forall|i: int| 0 <= i < ls.len() ==> (#[trigger] ls[i]).len() > 0 && nl_free(ls[i]),
    ensures
        lines_of(joined_rev(ls)) == ls.reverse(),
    decreases ls.len(),
{
    if ls.len() == 0 {
        assert(lines_of(joined_rev(ls)) =~= ls.reverse());
    } else {
        assert(forall|i: int|
            0 <= i < ls.drop_last().len() ==> (#[trigger] ls.drop_last()[i]).len() > 0 && nl_free(
                ls.drop_last()[i],
            ));
        lemma_lines_of_joined(ls.drop_last());
        lemma_lines_of_head(ls.last(), joined_rev(ls.drop_last()));
        assert(lines_of(joined_rev(ls)) =~= seq![ls.last()] + ls.drop_last().reverse());
        assert(seq![ls.last()] + ls.drop_last().reverse() =~= ls.reverse());
    }
}

/// Law: reversing a log twice. Reversing the reversed content yields a
/// file whose non-empty-line sequence is byte-equal to the original's.
pub proof fn lemma_reverse_involutive(b: Seq<u8>)
    ensures
        lines_of(joined_rev(lines_of(joined_rev(lines_of(b))))) == lines_of(b),
{
    lemma_lines_all_clean(Seq::empty(), b);
    lemma_lines_of_joined(lines_of(b));
    let once = lines_of(b).reverse();
    assert(forall|i: int| 0 <= i < once.len() ==> (#[trigger] once[i]).len() > 0 && nl_free(
        once[i],
    ));
    lemma_lines_of_joined(once);
    assert(once.reverse() =~= lines_of(b));
}

} // verus!
