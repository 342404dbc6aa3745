//! Selection of stale branches: prefix exclusion and the age cutoff.
use vstd::prelude::*;
use crate::text::{chars_of, has_prefix, starts_with_chars};

verus! {

/// A remote branch with the time and author of its last commit.
pub struct BranchRecord {
    /// The short reference name, such as `origin/feature-x`.
    pub name: String,
    /// The display name of the last commit's author.
    pub author: String,
    /// The last commit's time, in seconds since the Unix epoch (UTC).
    pub committed: i64,
}

impl View for BranchRecord {
    type V = (Seq<char>, Seq<char>, int);

    open spec fn view(&self) -> (Seq<char>, Seq<char>, int) {
        (self.name@, self.author@, self.committed as int)
    }
}

impl BranchRecord {
    /// A copy with the same name, author and commit time.
    pub fn duplicate(&self) -> (r: BranchRecord)
        ensures
            r@ == self@,
    {
        BranchRecord { name: self.name.clone(), author: self.author.clone(), committed: self.committed }
    }
}

/// The views of a sequence of records.
pub open spec fn records_view(s: Seq<BranchRecord>) -> Seq<(Seq<char>, Seq<char>, int)> {
    s.map_values(|r: BranchRecord| r@)
}

/// Characters that surround names and timestamps in the tool's output.
pub open spec fn is_blank(c: char) -> bool {
    c == ' ' || c == '\t' || c == '\r' || c == '\n'
}

/// `s` without its leading blanks.
pub open spec fn trim_start(s: Seq<char>) -> Seq<char>
    decreases s.len(),
{
    if s.len() > 0 && is_blank(s[0]) {
        trim_start(s.subrange(1, s.len() as int))
    } else {
        s
    }
}

/// `s` without its trailing blanks.
pub open spec fn trim_end(s: Seq<char>) -> Seq<char>
    decreases s.len(),
{
    if s.len() > 0 && is_blank(s.last()) {
        trim_end(s.drop_last())
    } else {
        s
    }
}

/// `s` without leading or trailing blanks.
pub open spec fn trim(s: Seq<char>) -> Seq<char> {
    trim_end(trim_start(s))
}

/// Removes leading and trailing blanks.
pub fn trim_chars(s: &Vec<char>) -> (r: Vec<char>)
    ensures
        r@ == trim(s@),
{
    let mut lo: usize = 0;
    assert(s@.subrange(0, s@.len() as int) =~= s@);
    while lo < s.len() && (s[lo] == ' ' || s[lo] == '\t' || s[lo] == '\r' || s[lo] == '\n')
        invariant
            0 <= lo <= s@.len(),
            trim_start(s@.subrange(lo as int, s@.len() as int)) == trim_start(s@),
        decreases s@.len() - lo,
    {
        assert(s@.subrange(lo as int, s@.len() as int).subrange(1, s@.len() - lo) =~= s@.subrange(
            lo + 1,
            s@.len() as int,
        ));
        lo += 1;
    }
    let ghost front = s@.subrange(lo as int, s@.len() as int);
    assert(trim_start(front) == front);
    let mut hi: usize = s.len();
    while hi > lo && (s[hi - 1] == ' ' || s[hi - 1] == '\t' || s[hi - 1] == '\r' || s[hi - 1]
        == '\n')
        invariant
            lo <= hi <= s@.len(),
            front == s@.subrange(lo as int, s@.len() as int),
            trim_end(s@.subrange(lo as int, hi as int)) == trim_end(front),
        decreases hi - lo,
    {
        assert(s@.subrange(lo as int, hi as int).drop_last() =~= s@.subrange(lo as int, hi - 1));
        hi -= 1;
    }
    assert(trim_end(s@.subrange(lo as int, hi as int)) == s@.subrange(lo as int, hi as int));
    let mut r: Vec<char> = Vec::new();
    let mut i: usize = lo;
    while i < hi
        invariant
            lo <= i <= hi <= s@.len(),
            r@ == s@.subrange(lo as int, i as int),
        decreases hi - i,
    {
        r.push(s[i]);
        i += 1;
        assert(s@.subrange(lo as int, i as int) =~= s@.subrange(lo as int, i - 1).push(s@[i - 1]));
    }
    r
}

/// Branch `name`, once trimmed, starts with one of `excludes`.
pub open spec fn excluded(name: Seq<char>, excludes: Seq<Seq<char>>) -> bool {
    exists|k: int| 0 <= k < excludes.len() && has_prefix(trim(name), #[trigger] excludes[k])
}

/// The branches of `names` that no prefix of `excludes` rules out, in their order.
pub open spec fn kept(names: Seq<Seq<char>>, excludes: Seq<Seq<char>>) -> Seq<Seq<char>>
    decreases names.len(),
{
    if names.len() == 0 {
        seq![]
    } else if excluded(names.last(), excludes) {
        kept(names.drop_last(), excludes)
    } else {
        kept(names.drop_last(), excludes).push(names.last())
    }
}

/// Whether branch `name`, once trimmed, starts with one of `excludes` (case-sensitive).
/// An empty list rules nothing out.
pub fn is_excluded(name: &str, excludes: &Vec<String>) -> (r: bool)
    ensures
        r == excluded(name@, excludes.deep_view()),
{
    let n = trim_chars(&chars_of(name));
    let mut k: usize = 0;
    while k < excludes.len()
        invariant
            0 <= k <= excludes@.len(),
            n@ == trim(name@),
            forall|j: int| 0 <= j < k ==> !has_prefix(trim(name@), #[trigger] excludes.deep_view()[j]),
        decreases excludes@.len() - k,
    {
        let p = chars_of(excludes[k].as_str());
        if starts_with_chars(&n, &p) {
            assert(has_prefix(trim(name@), excludes.deep_view()[k as int]));
            return true;
        }
        k += 1;
    }
    false
}

/// The branches of `names` that `excludes` does not rule out, in their order.
pub fn filter_excluded(names: &Vec<String>, excludes: &Vec<String>) -> (r: Vec<String>)
    ensures
        r.deep_view() == kept(names.deep_view(), excludes.deep_view()),
{
    let mut r: Vec<String> = Vec::new();
    let mut i: usize = 0;
    while i < names.len()
        invariant
            0 <= i <= names@.len(),
            r.deep_view() == kept(names.deep_view().take(i as int), excludes.deep_view()),
        decreases names@.len() - i,
    {
        let ghost before = names.deep_view().take(i as int);
        assert(names.deep_view().take(i + 1).drop_last() =~= before);
        if !is_excluded(names[i].as_str(), excludes) {
            r.push(names[i].clone());
        }
        i += 1;
        assert(r.deep_view() =~= kept(names.deep_view().take(i as int), excludes.deep_view()));
    }
    assert(names.deep_view().take(names@.len() as int) =~= names.deep_view());
    r
}

/// Filtering a second time with the same exclusion prefixes changes nothing.
pub proof fn lemma_exclusion_idempotent(names: Seq<Seq<char>>, excludes: Seq<Seq<char>>)
    ensures
        kept(kept(names, excludes), excludes) == kept(names, excludes),
    decreases names.len(),
{
    if names.len() > 0 {
        lemma_exclusion_idempotent(names.drop_last(), excludes);
        let rest = kept(names.drop_last(), excludes);
        if !excluded(names.last(), excludes) {
            assert(rest.push(names.last()).drop_last() =~= rest);
        }
    }
}

} // verus!
