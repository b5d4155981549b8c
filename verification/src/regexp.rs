//! The regular-expression boundary used by the log filters.
//!
//! Whether a pattern is a valid regular expression, and whether it
//! matches a line, depend on the pattern and the line alone; the library
//! names both results and trusts the regex crate for them.

use vstd::prelude::*;

verus! {

/// The pattern is a valid regular expression.
pub uninterp spec fn regex_pattern_ok(p: Seq<char>) -> bool;

/// The pattern matches somewhere in the text. Meaningful only for
/// patterns that are valid regular expressions.
pub uninterp spec fn regex_match_of(p: Seq<char>, s: Seq<char>) -> bool;

/// Relies on regex::Regex::new: whether the pattern compiles depends on
/// its characters alone, named `regex_pattern_ok`.
#[verifier::external_body]
pub fn regex_pattern_valid(pattern: &str) -> (r: bool)
    ensures
        r == regex_pattern_ok(pattern@),
{
    regex::Regex::new(pattern).is_ok()
}

/// Relies on regex::Regex::new and regex::Regex::is_match: compiles the
/// pattern and tests the line; the match result is a function of the two
/// texts alone, named `regex_match_of`.
#[verifier::external_body]
pub fn regex_match(pattern: &str, line: &str) -> (r: Option<bool>)
    ensures
        (r is Some) == regex_pattern_ok(pattern@),
        r matches Some(b) ==> b == regex_match_of(pattern@, line@),
{
    match regex::Regex::new(pattern) {
        Ok(re) => Some(re.is_match(line)),
        Err(_) => None,
    }
}

/// The lines the pattern matches, in order.
pub open spec fn matching_lines_v(lines: Seq<Seq<char>>, p: Seq<char>) -> Seq<Seq<char>>
    decreases lines.len(),
{
    if lines.len() == 0 {
        Seq::empty()
    } else {
        let rest = matching_lines_v(lines.drop_first(), p);
        if regex_match_of(p, lines[0]) {
            seq![lines[0]] + rest
        } else {
            rest
        }
    }
}

/// Filters a file's lines by a regular expression: the matching lines,
/// in order, or nothing when the pattern is not a valid regular
/// expression.
pub fn reg_filter_line(lines: &Vec<String>, filter: &str) -> (r: Option<Vec<String>>)
    ensures
        (r is Some) == regex_pattern_ok(filter@),
        r matches Some(kept) ==> crate::views::strs_view(kept@) == matching_lines_v(
            crate::views::strs_view(lines@),
            filter@,
        ),
{
    broadcast use crate::views::lemma_strs_view_index;

    if !regex_pattern_valid(filter) {
        return None;
    }
    let ghost lv = crate::views::strs_view(lines@);
    proof {
        assert(lv.skip(0) =~= lv);
    }
    let mut kept: Vec<String> = Vec::new();
    let mut i: usize = 0;
    while i < lines.len()
        invariant
            0 <= i <= lines@.len(),
            regex_pattern_ok(filter@),
            lv == crate::views::strs_view(lines@),
            lv.len() == lines@.len(),
            forall|k: int| 0 <= k < lines@.len() ==> lv[k] == lines@[k]@,
            matching_lines_v(lv, filter@) =~= crate::views::strs_view(kept@) + matching_lines_v(
                lv.skip(i as int),
                filter@,
            ),
        decreases lines@.len() - i,
    {
        proof {
            assert(lv.skip(i as int).drop_first() =~= lv.skip(i + 1));
            assert(lv.skip(i as int)[0] == lv[i as int]);
        }
        let is_hit: bool = match regex_match(filter, lines[i].as_str()) {
            Some(b) => b,
            None => {
                proof {
                    assert(false);
                }
                false
            },
        };
        if is_hit {
            let ghost prev = kept@;
            kept.push(lines[i].clone());
            proof {
                crate::views::lemma_strs_view_index(prev);
                crate::views::lemma_strs_view_index(kept@);
                assert(crate::views::strs_view(kept@) =~= crate::views::strs_view(prev).push(
                    kept@.last()@,
                ));
                assert(crate::views::strs_view(kept@) + matching_lines_v(lv.skip(i + 1), filter@)
                    =~= crate::views::strs_view(prev) + matching_lines_v(
                    lv.skip(i as int),
                    filter@,
                ));
            }
        }
        i = i + 1;
    }
    proof {
        assert(matching_lines_v(lv, filter@) =~= crate::views::strs_view(kept@));
    }
    Some(kept)
}

} // verus!
