//! Commit times: reading them from the tool's output, the cutoff, and staleness.
use vstd::prelude::*;
use crate::filter::{records_view, trim, trim_chars, BranchRecord};
use crate::text::{chars_of, string_of};

verus! {

/// Seconds in one day.
pub const SECONDS_PER_DAY: i64 = 86400;

/// The layout of the tool's commit timestamps, `YYYY-MM-DD HH:MM:SS ±HHMM`, written
/// with strftime-style specifiers.
pub open spec fn timestamp_layout() -> Seq<char> {
    "%Y-%m-%d %H:%M:%S %z"@
}

/// The instant, in seconds since the Unix epoch, that parsing `text` with the
/// strftime-style `layout` gives, or `None` where `text` does not fit `layout`.
pub uninterp spec fn parsed_instant(text: Seq<char>, layout: Seq<char>) -> Option<i64>;

/// Relies on chrono's `DateTime::parse_from_str`, whose result goes to seconds since the
/// epoch through `DateTime::timestamp`: the outcome depends on the two strings alone.
#[verifier::external_body]
fn parse_instant(text: &str, layout: &str) -> (r: Option<i64>)
    ensures
        r == parsed_instant(text@, layout@),
{
    match chrono::DateTime::parse_from_str(text, layout) {
        Ok(t) => Some(t.timestamp()),
        Err(_) => None,
    }
}

/// A commit time that does not have the expected layout.
#[derive(Debug, PartialEq, Eq)]
pub struct TimestampError {
    /// The text that failed to parse.
    pub text: String,
}

/// `l` is the first line of `s`: a leading part of it without a line break, followed
/// by a line break or by the end of `s`.
pub open spec fn is_first_line(s: Seq<char>, l: Seq<char>) -> bool {
    l.len() <= s.len() && l == s.subrange(0, l.len() as int) && (forall|k: int|
        0 <= k < l.len() ==> l[k] != '\n') && (l.len() == s.len() || s[l.len() as int] == '\n')
}

/// The first line of `s`.
pub open spec fn first_line(s: Seq<char>) -> Seq<char> {
    choose|l: Seq<char>| is_first_line(s, l)
}

/// `s` without one surrounding pair of quote characters, each removed where present.
pub open spec fn strip_quotes(s: Seq<char>) -> Seq<char> {
    let a = if s.len() > 0 && s[0] == '"' {
        s.subrange(1, s.len() as int)
    } else {
        s
    };
    if a.len() > 0 && a.last() == '"' {
        a.drop_last()
    } else {
        a
    }
}

/// The timestamp text in the tool's output: its first line, trimmed, unquoted.
pub open spec fn timestamp_field(output: Seq<char>) -> Seq<char> {
    strip_quotes(trim(first_line(output)))
}

/// The first line of `s`, without its line break.
pub fn first_line_chars(s: &Vec<char>) -> (r: Vec<char>)
    ensures
        r@ == first_line(s@),
{
    let mut r: Vec<char> = Vec::new();
    let mut i: usize = 0;
    while i < s.len() && s[i] != '\n'
        invariant
            0 <= i <= s@.len(),
            r@ == s@.subrange(0, i as int),
            forall|k: int| 0 <= k < i ==> s@[k] != '\n',
        decreases s@.len() - i,
    {
        r.push(s[i]);
        i += 1;
        assert(s@.subrange(0, i as int) =~= s@.subrange(0, i - 1).push(s@[i - 1]));
    }
    assert(is_first_line(s@, r@));
    assert(first_line(s@) == r@) by {
        let l = first_line(s@);
        assert(is_first_line(s@, l));
        if l.len() < r@.len() {
            assert(s@[l.len() as int] == '\n');
        } else if l.len() > r@.len() {
            assert(l[r@.len() as int] == s@[r@.len() as int]);
        }
        assert(l =~= r@);
    }
    r
}

fn strip_quotes_chars(s: &Vec<char>) -> (r: Vec<char>)
    ensures
        r@ == strip_quotes(s@),
{
    let start: usize = if s.len() > 0 && s[0] == '"' { 1 } else { 0 };
    let end: usize = if s.len() > start && s[s.len() - 1] == '"' { s.len() - 1 } else { s.len() };
    let mut r: Vec<char> = Vec::new();
    let mut i: usize = start;
    while i < end
        invariant
            start <= i <= end <= s@.len(),
            r@ == s@.subrange(start as int, i as int),
        decreases end - i,
    {
        r.push(s[i]);
        i += 1;
        assert(s@.subrange(start as int, i as int) =~= s@.subrange(start as int, i - 1).push(
            s@[i - 1],
        ));
    }
    assert(r@ =~= strip_quotes(s@));
    r
}

/// The timestamp text in the tool's output: its first line, trimmed, with a surrounding
/// pair of quote characters removed.
pub fn extract_timestamp(output: &str) -> (r: String)
    ensures
        r@ == timestamp_field(output@),
{
    let line = first_line_chars(&chars_of(output));
    let t = trim_chars(&line);
    string_of(&strip_quotes_chars(&t))
}

/// The commit instant that the tool's timestamp output denotes. A timestamp that does
/// not have the layout `YYYY-MM-DD HH:MM:SS ±HHMM` is an error.
pub fn commit_instant(output: &str) -> (r: Result<i64, TimestampError>)
    ensures
        parsed_instant(timestamp_field(output@), timestamp_layout()) matches Some(t) ==> r
            == Ok::<i64, TimestampError>(t),
        parsed_instant(timestamp_field(output@), timestamp_layout()) is None ==> (r matches Err(e)
            && e.text@ == timestamp_field(output@)),
{
    let text = extract_timestamp(output);
    match parse_instant(text.as_str(), "%Y-%m-%d %H:%M:%S %z") {
        Some(t) => Ok(t),
        None => Err(TimestampError { text }),
    }
}

/// The record of branch `name` from the tool's timestamp output and author output. The
/// author is the first line of its output, kept as emitted otherwise.
pub fn branch_record(name: &str, timestamp_output: &str, author_output: &str) -> (r: Result<
    BranchRecord,
    TimestampError,
>)
    ensures
        parsed_instant(timestamp_field(timestamp_output@), timestamp_layout()) matches Some(t) ==> (r matches Ok(rec) && rec@ == (name@, first_line(author_output@), t as int)),
        parsed_instant(timestamp_field(timestamp_output@), timestamp_layout()) is None ==> (r matches Err(e) && e.text@ == timestamp_field(timestamp_output@)),
{
    match commit_instant(timestamp_output) {
        Err(e) => Err(e),
        Ok(t) => {
            let author = string_of(&first_line_chars(&chars_of(author_output)));
            Ok(BranchRecord { name: name.to_owned(), author, committed: t })
        },
    }
}

/// The instant `days` days before `now`, both in seconds since the epoch.
pub open spec fn cutoff_of(now: int, days: int) -> int {
    now - days * 86400
}

/// The instant `days` days before `now`; `None` where it does not fit in an `i64`.
pub fn cutoff_instant(now: i64, days: i64) -> (r: Option<i64>)
    ensures
        r is Some <==> (i64::MIN <= days * 86400 <= i64::MAX && i64::MIN <= cutoff_of(now as int, days as int) <= i64::MAX),
        r matches Some(c) ==> c == cutoff_of(now as int, days as int),
{
    match days.checked_mul(SECONDS_PER_DAY) {
        None => None,
        Some(span) => now.checked_sub(span),
    }
}

/// Whether a commit at `committed` is older than `cutoff`: strictly earlier.
pub fn is_stale(committed: i64, cutoff: i64) -> (r: bool)
    ensures
        r == (committed < cutoff),
{
    committed < cutoff
}

/// The records of `rs` whose commit is strictly earlier than `cutoff`, in their order.
pub open spec fn stale_records(rs: Seq<(Seq<char>, Seq<char>, int)>, cutoff: int) -> Seq<
    (Seq<char>, Seq<char>, int),
>
    decreases rs.len(),
{
    if rs.len() == 0 {
        seq![]
    } else if rs.last().2 < cutoff {
        stale_records(rs.drop_last(), cutoff).push(rs.last())
    } else {
        stale_records(rs.drop_last(), cutoff)
    }
}

/// The records whose commit is strictly earlier than `cutoff`, in their order.
pub fn select_stale(records: &Vec<BranchRecord>, cutoff: i64) -> (r: Vec<BranchRecord>)
    ensures
        records_view(r@) == stale_records(records_view(records@), cutoff as int),
{
    let mut r: Vec<BranchRecord> = Vec::new();
    let mut i: usize = 0;
    while i < records.len()
        invariant
            0 <= i <= records@.len(),
            records_view(r@) == stale_records(records_view(records@).take(i as int), cutoff as int),
        decreases records@.len() - i,
    {
        let ghost before = records_view(records@).take(i as int);
        assert(records_view(records@).take(i + 1).drop_last() =~= before);
        assert(records_view(records@).take(i + 1).last() == records@[i as int]@);
        if is_stale(records[i].committed, cutoff) {
            let d = records[i].duplicate();
            let ghost old_r = r@;
            r.push(d);
            assert(records_view(r@) =~= records_view(old_r).push(d@));
        }
        i += 1;
    }
    assert(records_view(records@).take(records@.len() as int) =~= records_view(records@));
    r
}

/// An earlier cutoff keeps no record that a later one drops: every record stale under
/// `c1` is stale under `c2` when `c1 <= c2`.
pub proof fn lemma_earlier_cutoff_keeps_subset(
    rs: Seq<(Seq<char>, Seq<char>, int)>,
    c1: int,
    c2: int,
)
    requires
        c1 <= c2,
    ensures
        forall|x| stale_records(rs, c1).contains(x) ==> stale_records(rs, c2).contains(x),
    decreases rs.len(),
{
    if rs.len() > 0 {
        lemma_earlier_cutoff_keeps_subset(rs.drop_last(), c1, c2);
        let a = stale_records(rs.drop_last(), c1);
        let b = stale_records(rs.drop_last(), c2);
        assert forall|x| stale_records(rs, c1).contains(x) implies stale_records(rs, c2).contains(x) by {
            if rs.last().2 < c1 {
                if x != rs.last() {
                    assert(a.contains(x)) by {
                        let k = choose|k: int| 0 <= k < a.len() + 1 && a.push(rs.last())[k] == x;
                        assert(a[k] == x);
                    }
                    let j = choose|j: int| 0 <= j < b.len() && b[j] == x;
                    assert(b.push(rs.last())[j] == x);
                } else {
                    assert(b.push(rs.last())[b.len() as int] == x);
                }
            } else if rs.last().2 < c2 {
                let j = choose|j: int| 0 <= j < b.len() && b[j] == x;
                assert(b.push(rs.last())[j] == x);
            }
        }
    }
}

/// A longer window keeps no record that a shorter one drops: from the same `now`, every
/// record older than `d2` days is older than `d1` days when `d1 <= d2`.
pub proof fn lemma_longer_window_keeps_subset(
    rs: Seq<(Seq<char>, Seq<char>, int)>,
    now: int,
    d1: int,
    d2: int,
)
    requires
        d1 <= d2,
    ensures
        forall|x|
            stale_records(rs, cutoff_of(now, d2)).contains(x) ==> stale_records(
                rs,
                cutoff_of(now, d1),
            ).contains(x),
{
    assert(d1 * 86400 <= d2 * 86400) by (nonlinear_arith)
        requires
            d1 <= d2,
    ;
    lemma_earlier_cutoff_keeps_subset(rs, cutoff_of(now, d2), cutoff_of(now, d1));
}

} // verus!
