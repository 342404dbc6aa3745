//! The tool's listing of remote branches, one per line.
use vstd::prelude::*;
use crate::filter::{trim, trim_chars};
use crate::text::{chars_of, contains_chars, contains_seq, string_of};

verus! {

/// The lines of `s`: the pieces between line breaks, the last one possibly empty.
pub open spec fn split_lines(s: Seq<char>) -> Seq<Seq<char>>
    decreases s.len(),
{
    if s.len() == 0 {
        seq![seq![]]
    } else if s.last() == '\n' {
        split_lines(s.drop_last()).push(seq![])
    } else {
        let ls = split_lines(s.drop_last());
        ls.update(ls.len() - 1, ls.last().push(s.last()))
    }
}

/// A trimmed line names a branch: it is not empty and is not the symbolic `HEAD ->` pointer.
pub open spec fn names_branch(t: Seq<char>) -> bool {
    t.len() > 0 && !contains_seq(t, "HEAD ->"@)
}

/// The trimmed lines of `lines` that name a branch, in order.
pub open spec fn branch_lines(lines: Seq<Seq<char>>) -> Seq<Seq<char>>
    decreases lines.len(),
{
    if lines.len() == 0 {
        seq![]
    } else if names_branch(trim(lines.last())) {
        branch_lines(lines.drop_last()).push(trim(lines.last()))
    } else {
        branch_lines(lines.drop_last())
    }
}

/// The branch references in a listing: each line trimmed, with empty lines and the
/// symbolic `HEAD ->` pointer left out.
pub open spec fn listed_branches(text: Seq<char>) -> Seq<Seq<char>> {
    branch_lines(split_lines(text))
}

fn take_line(out: &mut Vec<String>, line: &Vec<char>, marker: &Vec<char>)
    requires
        marker@ == "HEAD ->"@,
    ensures
        names_branch(trim(line@)) ==> final(out).deep_view() == old(out).deep_view().push(
            trim(line@),
        ),
        !names_branch(trim(line@)) ==> final(out).deep_view() == old(out).deep_view(),
{
    let t = trim_chars(line);
    if t.len() > 0 && !contains_chars(&t, marker) {
        let ghost before = out.deep_view();
        out.push(string_of(&t));
        assert(out.deep_view() =~= before.push(trim(line@)));
    }
}

/// Reads the branch references out of the tool's listing.
pub fn parse_branch_list(text: &str) -> (r: Vec<String>)
    ensures
        r.deep_view() == listed_branches(text@),
{
    let s = chars_of(text);
    let marker = chars_of("HEAD ->");
    let mut r: Vec<String> = Vec::new();
    let mut cur: Vec<char> = Vec::new();
    let mut i: usize = 0;
    while i < s.len()
        invariant
            0 <= i <= s@.len(),
            s@ == text@,
            marker@ == "HEAD ->"@,
            split_lines(s@.take(i as int)).len() > 0,
            cur@ == split_lines(s@.take(i as int)).last(),
            r.deep_view() == branch_lines(split_lines(s@.take(i as int)).drop_last()),
        decreases s@.len() - i,
    {
        let ghost ls = split_lines(s@.take(i as int));
        assert(s@.take(i + 1).drop_last() =~= s@.take(i as int));
        assert(s@.take(i + 1).last() == s@[i as int]);
        if s[i] == '\n' {
            take_line(&mut r, &cur, &marker);
            cur = Vec::new();
            proof {
                let nl = split_lines(s@.take(i + 1));
                assert(nl == ls.push(seq![]));
                assert(nl.drop_last() =~= ls);
                assert(ls.drop_last().push(ls.last()) =~= ls);
            }
        } else {
            cur.push(s[i]);
            proof {
                let nl = split_lines(s@.take(i + 1));
                assert(nl.drop_last() =~= ls.drop_last());
            }
        }
        i += 1;
    }
    assert(s@.take(s@.len() as int) =~= s@);
    let ghost ls = split_lines(s@);
    take_line(&mut r, &cur, &marker);
    assert(ls.drop_last().push(ls.last()) =~= ls);
    r
}

} // verus!
