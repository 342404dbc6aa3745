//! The plain-text stale-branch report.
use vstd::prelude::*;
use crate::age::{select_stale, stale_records};
use crate::filter::{records_view, BranchRecord};
use crate::report::{
    group_by_author, grouped, groups_view, lemma_grouping_preserves_count, lemma_total_rearranged,
    order_by_count, ordered_by_count, total, AuthorGroup,
};
use crate::text::{chars_of, extend_chars, string_of};

verus! {

/// The character of decimal digit `d`.
pub open spec fn digit(d: int) -> char {
    if d == 0 {
        '0'
    } else if d == 1 {
        '1'
    } else if d == 2 {
        '2'
    } else if d == 3 {
        '3'
    } else if d == 4 {
        '4'
    } else if d == 5 {
        '5'
    } else if d == 6 {
        '6'
    } else if d == 7 {
        '7'
    } else if d == 8 {
        '8'
    } else {
        '9'
    }
}

/// The decimal digits of `n`, without leading zeros.
pub open spec fn decimal(n: nat) -> Seq<char>
    decreases n,
{
    if n < 10 {
        seq![digit(n as int)]
    } else {
        decimal(n / 10).push(digit((n % 10) as int))
    }
}

/// `i` in decimal, with a leading `-` when negative.
pub open spec fn signed_decimal(i: int) -> Seq<char> {
    if i < 0 {
        seq!['-'] + decimal((-i) as nat)
    } else {
        decimal(i as nat)
    }
}

/// `s` followed by spaces up to `width` characters.
pub open spec fn padded(s: Seq<char>, width: int) -> Seq<char> {
    if s.len() < width {
        s + Seq::new((width - s.len()) as nat, |i: int| ' ')
    } else {
        s
    }
}

/// The names separated by a comma and a space.
pub open spec fn joined(names: Seq<Seq<char>>) -> Seq<char>
    decreases names.len(),
{
    if names.len() == 0 {
        seq![]
    } else if names.len() == 1 {
        names[0]
    } else {
        joined(names.drop_last()) + ", "@ + names.last()
    }
}

/// The length of the longest author name.
pub open spec fn name_width(gs: Seq<(Seq<char>, Seq<Seq<char>>)>) -> int
    decreases gs.len(),
{
    if gs.len() == 0 {
        0
    } else {
        let w = name_width(gs.drop_last());
        if gs.last().0.len() > w {
            gs.last().0.len() as int
        } else {
            w
        }
    }
}

/// One author's line: the name padded to `width`, the count and the branches.
pub open spec fn report_line(g: (Seq<char>, Seq<Seq<char>>), width: int) -> Seq<char> {
    padded(g.0, width) + "\t"@ + decimal(g.1.len()) + " old branches\t"@ + joined(g.1) + "\n"@
}

/// The lines of all groups, in order.
pub open spec fn report_lines(gs: Seq<(Seq<char>, Seq<Seq<char>>)>, width: int) -> Seq<char>
    decreases gs.len(),
{
    if gs.len() == 0 {
        seq![]
    } else {
        report_lines(gs.drop_last(), width) + report_line(gs.last(), width)
    }
}

/// The report on groups `gs` for a window of `days` days: a single sentence when there
/// is no group, else a header with the branch total, a blank line and one line per group.
pub open spec fn report_text(gs: Seq<(Seq<char>, Seq<Seq<char>>)>, days: int) -> Seq<char> {
    if gs.len() == 0 {
        "No Branches were found older than "@ + signed_decimal(days)
            + " days with the given criteria.\n"@
    } else {
        "Found a total of "@ + decimal(total(gs) as nat) + " branches older than "@
            + signed_decimal(days) + " days with the given criteria\n\n"@ + report_lines(
            gs,
            name_width(gs),
        )
    }
}

fn digit_char(d: u64) -> (c: char)
    requires
        d < 10,
    ensures
        c == digit(d as int),
{
    if d == 0 {
        '0'
    } else if d == 1 {
        '1'
    } else if d == 2 {
        '2'
    } else if d == 3 {
        '3'
    } else if d == 4 {
        '4'
    } else if d == 5 {
        '5'
    } else if d == 6 {
        '6'
    } else if d == 7 {
        '7'
    } else if d == 8 {
        '8'
    } else {
        '9'
    }
}

/// Appends the decimal digits of `n`.
pub fn push_decimal(out: &mut Vec<char>, n: u64)
    ensures
        final(out)@ == old(out)@ + decimal(n as nat),
    decreases n,
{
    if n >= 10 {
        push_decimal(out, n / 10);
    }
    out.push(digit_char(n % 10));
    assert(out@ =~= old(out)@ + decimal(n as nat));
}

/// Appends `v` in decimal, with a leading `-` when negative.
pub fn push_signed_decimal(out: &mut Vec<char>, v: i64)
    ensures
        final(out)@ == old(out)@ + signed_decimal(v as int),
{
    if v < 0 {
        out.push('-');
        let m: u64 = if v == i64::MIN {
            9223372036854775808
        } else {
            (0 - v) as u64
        };
        push_decimal(out, m);
        assert(out@ =~= old(out)@ + signed_decimal(v as int));
    } else {
        push_decimal(out, v as u64);
    }
}

fn push_joined(out: &mut Vec<char>, names: &Vec<String>)
    ensures
        final(out)@ == old(out)@ + joined(names.deep_view()),
{
    let ghost nv = names.deep_view();
    let sep = chars_of(", ");
    let mut j: usize = 0;
    while j < names.len()
        invariant
            0 <= j <= names@.len(),
            nv == names.deep_view(),
            sep@ == ", "@,
            out@ == old(out)@ + joined(nv.take(j as int)),
        decreases names@.len() - j,
    {
        if j > 0 {
            extend_chars(out, &sep);
        }
        extend_chars(out, &chars_of(names[j].as_str()));
        assert(nv.take(j + 1).drop_last() =~= nv.take(j as int));
        j += 1;
        assert(out@ =~= old(out)@ + joined(nv.take(j as int)));
    }
    assert(nv.take(names@.len() as int) =~= nv);
}

proof fn lemma_total_prefix(gs: Seq<(Seq<char>, Seq<Seq<char>>)>, i: int)
    requires
        0 <= i <= gs.len(),
    ensures
        0 <= total(gs.take(i)) <= total(gs),
    decreases gs.len(),
{
    if i == gs.len() {
        assert(gs.take(i) =~= gs);
        if gs.len() > 0 {
            lemma_total_prefix(gs.drop_last(), 0);
        }
    } else {
        lemma_total_prefix(gs.drop_last(), i);
        assert(gs.drop_last().take(i) =~= gs.take(i));
    }
}

/// Renders the report on `groups`, in their order, for a window of `days` days.
pub fn render_report(groups: &Vec<AuthorGroup>, days: i64) -> (r: String)
    requires
        total(groups_view(groups@)) <= u64::MAX,
    ensures
        r@ == report_text(groups_view(groups@), days as int),
{
    let ghost gv = groups_view(groups@);
    let mut out: Vec<char> = Vec::new();
    if groups.len() == 0 {
        extend_chars(&mut out, &chars_of("No Branches were found older than "));
        push_signed_decimal(&mut out, days);
        extend_chars(&mut out, &chars_of(" days with the given criteria.\n"));
        return string_of(&out);
    }
    let mut count: u64 = 0;
    let mut width: usize = 0;
    let mut i: usize = 0;
    while i < groups.len()
        invariant
            0 <= i <= groups@.len(),
            gv == groups_view(groups@),
            total(gv) <= u64::MAX,
            count == total(gv.take(i as int)),
            width == name_width(gv.take(i as int)),
        decreases groups@.len() - i,
    {
        proof {
            lemma_total_prefix(gv, i + 1);
            assert(gv.take(i + 1).drop_last() =~= gv.take(i as int));
        }
        count = count + groups[i].branches.len() as u64;
        let n = chars_of(groups[i].author.as_str()).len();
        if n > width {
            width = n;
        }
        i += 1;
    }
    assert(gv.take(groups@.len() as int) =~= gv);
    extend_chars(&mut out, &chars_of("Found a total of "));
    push_decimal(&mut out, count);
    extend_chars(&mut out, &chars_of(" branches older than "));
    push_signed_decimal(&mut out, days);
    extend_chars(&mut out, &chars_of(" days with the given criteria\n\n"));
    let ghost head = out@;
    let tab = chars_of("\t");
    let label = chars_of(" old branches\t");
    let newline = chars_of("\n");
    let mut k: usize = 0;
    while k < groups.len()
        invariant
            0 <= k <= groups@.len(),
            gv == groups_view(groups@),
            width == name_width(gv),
            tab@ == "\t"@,
            label@ == " old branches\t"@,
            newline@ == "\n"@,
            out@ == head + report_lines(gv.take(k as int), width as int),
        decreases groups@.len() - k,
    {
        let ghost before = out@;
        let name = chars_of(groups[k].author.as_str());
        extend_chars(&mut out, &name);
        let mut p: usize = name.len();
        while p < width
            invariant
                name@.len() <= p <= width || width < name@.len() == p,
                out@ == before + name@ + Seq::new((p - name@.len()) as nat, |i: int| ' '),
            decreases width - p,
        {
            out.push(' ');
            p += 1;
            assert(out@ =~= before + name@ + Seq::new((p - name@.len()) as nat, |i: int| ' '));
        }
        assert(before + name@ + Seq::new((p - name@.len()) as nat, |i: int| ' ') =~= before + padded(
            gv[k as int].0,
            width as int,
        ));
        extend_chars(&mut out, &tab);
        push_decimal(&mut out, groups[k].branches.len() as u64);
        extend_chars(&mut out, &label);
        push_joined(&mut out, &groups[k].branches);
        extend_chars(&mut out, &newline);
        assert(gv.take(k + 1).drop_last() =~= gv.take(k as int));
        k += 1;
        assert(out@ =~= head + report_lines(gv.take(k as int), width as int));
    }
    string_of(&out)
}

proof fn lemma_stale_len(rs: Seq<(Seq<char>, Seq<char>, int)>, cutoff: int)
    ensures
        stale_records(rs, cutoff).len() <= rs.len(),
    decreases rs.len(),
{
    if rs.len() > 0 {
        lemma_stale_len(rs.drop_last(), cutoff);
    }
}

/// The per-author counts of a report add up to the number of branches fed in: however
/// the groups of `rs` are ordered, they hold `rs.len()` branches.
pub proof fn lemma_report_counts_every_branch(
    rs: Seq<(Seq<char>, Seq<char>, int)>,
    o: Seq<(Seq<char>, Seq<Seq<char>>)>,
)
    requires
        ordered_by_count(o, grouped(rs)),
    ensures
        total(o) == rs.len(),
{
    lemma_grouping_preserves_count(rs);
    lemma_total_rearranged(o, grouped(rs));
}

/// The report on the records whose commit is older than `cutoff`, for a window of
/// `days` days: stale records grouped by author, larger groups first.
pub fn stale_report(records: &Vec<BranchRecord>, cutoff: i64, days: i64) -> (r: String)
    ensures
        exists|o: Seq<(Seq<char>, Seq<Seq<char>>)>|
            ordered_by_count(o, grouped(stale_records(records_view(records@), cutoff as int)))
                && r@ == report_text(o, days as int),
{
    let stale = select_stale(records, cutoff);
    let n = stale.len();
    assert(n <= u64::MAX);
    let groups = group_by_author(&stale);
    let ordered = order_by_count(&groups);
    proof {
        lemma_stale_len(records_view(records@), cutoff as int);
        lemma_report_counts_every_branch(records_view(stale@), groups_view(ordered@));
        assert(records_view(stale@).len() == stale@.len());
        assert(records_view(records@).len() == records@.len());
    }
    let r = render_report(&ordered, days);
    assert(ordered_by_count(
        groups_view(ordered@),
        grouped(stale_records(records_view(records@), cutoff as int)),
    ));
    r
}

} // verus!
