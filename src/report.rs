//! Grouping stale branches by author, ordering the groups, and the text report.
use rayon::slice::ParallelSliceMut;
use vstd::prelude::*;
use crate::filter::{records_view, BranchRecord};

verus! {

/// The stale branches of one author, in the order they were processed.
pub struct AuthorGroup {
    /// The author's display name.
    pub author: String,
    /// The names of the author's stale branches.
    pub branches: Vec<String>,
}

impl View for AuthorGroup {
    type V = (Seq<char>, Seq<Seq<char>>);

    open spec fn view(&self) -> (Seq<char>, Seq<Seq<char>>) {
        (self.author@, self.branches.deep_view())
    }
}

/// The views of a sequence of groups.
pub open spec fn groups_view(s: Seq<AuthorGroup>) -> Seq<(Seq<char>, Seq<Seq<char>>)> {
    s.map_values(|g: AuthorGroup| g@)
}

/// No two groups share an author.
pub open spec fn distinct_authors(gs: Seq<(Seq<char>, Seq<Seq<char>>)>) -> bool {
    forall|i: int, j: int| 0 <= i < j < gs.len() ==> gs[i].0 != gs[j].0
}

/// `gs` has a group for `author`.
pub open spec fn has_author(gs: Seq<(Seq<char>, Seq<Seq<char>>)>, author: Seq<char>) -> bool {
    exists|k: int| 0 <= k < gs.len() && #[trigger] gs[k].0 == author
}

/// The position of `author`'s group in `gs`.
pub open spec fn author_position(gs: Seq<(Seq<char>, Seq<Seq<char>>)>, author: Seq<char>) -> int {
    choose|k: int| 0 <= k < gs.len() && #[trigger] gs[k].0 == author
}

/// `gs` with `branch` added to the end of `author`'s group, or with a new group for
/// `author` at the end when there is none.
pub open spec fn add_branch(
    gs: Seq<(Seq<char>, Seq<Seq<char>>)>,
    author: Seq<char>,
    branch: Seq<char>,
) -> Seq<(Seq<char>, Seq<Seq<char>>)> {
    if has_author(gs, author) {
        let k = author_position(gs, author);
        gs.update(k, (author, gs[k].1.push(branch)))
    } else {
        gs.push((author, seq![branch]))
    }
}

/// The records grouped by author: groups in order of their author's first record, the
/// branches of each in record order.
pub open spec fn grouped(rs: Seq<(Seq<char>, Seq<char>, int)>) -> Seq<(Seq<char>, Seq<Seq<char>>)>
    decreases rs.len(),
{
    if rs.len() == 0 {
        seq![]
    } else {
        add_branch(grouped(rs.drop_last()), rs.last().1, rs.last().0)
    }
}

/// The number of branches over all groups.
pub open spec fn total(gs: Seq<(Seq<char>, Seq<Seq<char>>)>) -> int
    decreases gs.len(),
{
    if gs.len() == 0 {
        0
    } else {
        total(gs.drop_last()) + gs.last().1.len()
    }
}

proof fn lemma_grouped_distinct(rs: Seq<(Seq<char>, Seq<char>, int)>)
    ensures
        distinct_authors(grouped(rs)),
    decreases rs.len(),
{
    if rs.len() > 0 {
        lemma_grouped_distinct(rs.drop_last());
        let g = grouped(rs.drop_last());
        if !has_author(g, rs.last().1) {
            assert forall|i: int, j: int| 0 <= i < j < g.len() + 1 implies g.push(
                (rs.last().1, seq![rs.last().0]),
            )[i].0 != g.push((rs.last().1, seq![rs.last().0]))[j].0 by {
                if j == g.len() {
                    assert(g[i].0 != rs.last().1);
                }
            }
        }
    }
}

proof fn lemma_total_update(gs: Seq<(Seq<char>, Seq<Seq<char>>)>, k: int, v: (Seq<char>, Seq<Seq<char>>))
    requires
        0 <= k < gs.len(),
    ensures
        total(gs.update(k, v)) == total(gs) - gs[k].1.len() + v.1.len(),
    decreases gs.len(),
{
    if k < gs.len() - 1 {
        lemma_total_update(gs.drop_last(), k, v);
        assert(gs.update(k, v).drop_last() =~= gs.drop_last().update(k, v));
    } else {
        assert(gs.update(k, v).drop_last() =~= gs.drop_last());
    }
}

/// Grouping loses and adds no branch: the groups of `rs` hold `rs.len()` branches in all.
pub proof fn lemma_grouping_preserves_count(rs: Seq<(Seq<char>, Seq<char>, int)>)
    ensures
        total(grouped(rs)) == rs.len(),
    decreases rs.len(),
{
    if rs.len() > 0 {
        lemma_grouping_preserves_count(rs.drop_last());
        let g = grouped(rs.drop_last());
        if has_author(g, rs.last().1) {
            let k = author_position(g, rs.last().1);
            lemma_total_update(g, k, (rs.last().1, g[k].1.push(rs.last().0)));
        } else {
            assert(g.push((rs.last().1, seq![rs.last().0])).drop_last() =~= g);
        }
    }
}

/// A copy of a list of strings.
fn copy_strings(v: &Vec<String>) -> (r: Vec<String>)
    ensures
        r.deep_view() == v.deep_view(),
{
    let mut r: Vec<String> = Vec::new();
    let mut i: usize = 0;
    while i < v.len()
        invariant
            0 <= i <= v@.len(),
            r.deep_view() == v.deep_view().take(i as int),
        decreases v@.len() - i,
    {
        let s = v[i].clone();
        assert(s@ == v.deep_view()[i as int]);
        let ghost before = r.deep_view();
        r.push(s);
        assert(r.deep_view() =~= before.push(s@));
        i += 1;
        assert(r.deep_view() =~= v.deep_view().take(i as int));
    }
    assert(v.deep_view().take(v@.len() as int) =~= v.deep_view());
    r
}

impl AuthorGroup {
    /// A copy with the same author and branches.
    pub fn duplicate(&self) -> (r: AuthorGroup)
        ensures
            r@ == self@,
    {
        AuthorGroup { author: self.author.clone(), branches: copy_strings(&self.branches) }
    }

    /// The number of branches in the group.
    pub fn count(&self) -> (r: usize)
        ensures
            r == self@.1.len(),
    {
        self.branches.len()
    }
}

/// Groups records by author. Groups come in the order of their author's first record;
/// within a group, branches keep the order of the records.
pub fn group_by_author(records: &Vec<BranchRecord>) -> (r: Vec<AuthorGroup>)
    ensures
        groups_view(r@) == grouped(records_view(records@)),
{
    let ghost rv = records_view(records@);
    let mut r: Vec<AuthorGroup> = Vec::new();
    let mut i: usize = 0;
    while i < records.len()
        invariant
            0 <= i <= records@.len(),
            rv == records_view(records@),
            groups_view(r@) == grouped(rv.take(i as int)),
        decreases records@.len() - i,
    {
        proof {
            lemma_grouped_distinct(rv.take(i as int));
            assert(rv.take(i + 1).drop_last() =~= rv.take(i as int));
            assert(rv.take(i + 1).last() == records@[i as int]@);
        }
        let ghost g = groups_view(r@);
        let rec = &records[i];
        let mut k: usize = 0;
        let mut found = false;
        while k < r.len() && !found
            invariant
                0 <= k <= r@.len(),
                g == groups_view(r@),
                found ==> k < r@.len() && g[k as int].0 == rec.author@,
                forall|j: int| 0 <= j < k ==> #[trigger] g[j].0 != rec.author@,
            decreases r@.len() - k + (if found { 0int } else { 1int }),
        {
            if r[k].author == rec.author {
                found = true;
            } else {
                k += 1;
            }
        }
        if found {
            assert(g[k as int].0 == rec.author@);
            assert(has_author(g, rec.author@));
            assert(author_position(g, rec.author@) == k) by {
                let p = author_position(g, rec.author@);
                assert(0 <= p < g.len() && g[p].0 == rec.author@);
                if p != k {
                    assert(distinct_authors(g));
                }
            }
            let ghost r0 = r@;
            let mut grp = r.remove(k);
            assert(grp@ == g[k as int]);
            let nm = rec.name.clone();
            let ghost b0 = grp.branches.deep_view();
            grp.branches.push(nm);
            assert(grp.branches.deep_view() =~= b0.push(rec.name@));
            let ghost gv = grp@;
            r.insert(k, grp);
            assert(r@ =~= r0.update(k as int, r@[k as int]));
            assert(groups_view(r@) =~= g.update(k as int, gv));
            assert(groups_view(r@) =~= g.update(k as int, (rec.author@, g[k as int].1.push(rec.name@))));
        } else {
            assert(!has_author(g, rec.author@));
            let grp = AuthorGroup { author: rec.author.clone(), branches: vec![rec.name.clone()] };
            assert(grp@.1 =~= seq![rec.name@]);
            r.push(grp);
            assert(groups_view(r@) =~= g.push((rec.author@, seq![rec.name@])));
        }
        i += 1;
    }
    assert(rv.take(records@.len() as int) =~= rv);
    r
}

/// Pairs compare by their first field, then by their second.
pub open spec fn pair_le(a: (usize, usize), b: (usize, usize)) -> bool {
    a.0 < b.0 || (a.0 == b.0 && a.1 <= b.1)
}

/// Relies on rayon's `ParallelSliceMut::par_sort`: it rearranges the items into
/// ascending order, where tuples compare field by field.
#[verifier::external_body]
fn sort_pairs(v: &mut Vec<(usize, usize)>)
    ensures
        final(v)@.to_multiset() == old(v)@.to_multiset(),
        forall|i: int, j: int|
            0 <= i < j < final(v)@.len() ==> pair_le(#[trigger] final(v)@[i], #[trigger] final(v)@[j]),
{
    v.par_sort();
}

proof fn lemma_map_multiset<A, B>(s1: Seq<A>, s2: Seq<A>, f: spec_fn(A) -> B)
    requires
        s1.to_multiset() == s2.to_multiset(),
    ensures
        s1.map_values(f).to_multiset() == s2.map_values(f).to_multiset(),
    decreases s1.len(),
{
    broadcast use vstd::seq_lib::group_to_multiset_ensures;

    if s1.len() == 0 {
        assert(s1.to_multiset().len() == 0);
        assert(s2.to_multiset().len() == s1.to_multiset().len());
        assert(s2.len() == 0);
        assert(s1.map_values(f) =~= s2.map_values(f));
    } else {
        let x = s1.last();
        assert(s1.drop_last().push(x) =~= s1);
        assert(s1.to_multiset().count(x) > 0);
        assert(s2.contains(x));
        let j = choose|j: int| 0 <= j < s2.len() && s2[j] == x;
        let s2r = s2.remove(j);
        assert(s1.drop_last().to_multiset() =~= s2r.to_multiset());
        lemma_map_multiset(s1.drop_last(), s2r, f);
        assert(s1.map_values(f) =~= s1.drop_last().map_values(f).push(f(x)));
        assert(s2.map_values(f).remove(j) =~= s2r.map_values(f));
        assert(s2.map_values(f)[j] == f(x));
        assert(s2.map_values(f).to_multiset() =~= s2r.map_values(f).to_multiset().insert(f(x)));
    }
}

proof fn lemma_total_remove(gs: Seq<(Seq<char>, Seq<Seq<char>>)>, j: int)
    requires
        0 <= j < gs.len(),
    ensures
        total(gs.remove(j)) == total(gs) - gs[j].1.len(),
    decreases gs.len(),
{
    if j < gs.len() - 1 {
        lemma_total_remove(gs.drop_last(), j);
        assert(gs.remove(j).drop_last() =~= gs.drop_last().remove(j));
    } else {
        assert(gs.remove(j) =~= gs.drop_last());
    }
}

/// Rearranging groups keeps their branch total.
pub proof fn lemma_total_rearranged(a: Seq<(Seq<char>, Seq<Seq<char>>)>, b: Seq<(Seq<char>, Seq<Seq<char>>)>)
    requires
        a.to_multiset() == b.to_multiset(),
    ensures
        total(a) == total(b),
    decreases a.len(),
{
    broadcast use vstd::seq_lib::group_to_multiset_ensures;

    if a.len() == 0 {
        assert(b.to_multiset().len() == a.to_multiset().len());
        assert(b.len() == 0);
    } else {
        let x = a.last();
        assert(a.drop_last().push(x) =~= a);
        assert(a.to_multiset().count(x) > 0);
        assert(b.contains(x));
        let j = choose|j: int| 0 <= j < b.len() && b[j] == x;
        assert(a.drop_last().to_multiset() =~= b.remove(j).to_multiset());
        lemma_total_rearranged(a.drop_last(), b.remove(j));
        lemma_total_remove(b, j);
    }
}

/// `o` holds the groups of `g`, rearranged so that branch counts never increase; groups
/// with equal counts come in the order they have in `g`.
pub open spec fn ordered_by_count(
    o: Seq<(Seq<char>, Seq<Seq<char>>)>,
    g: Seq<(Seq<char>, Seq<Seq<char>>)>,
) -> bool {
    &&& o.to_multiset() == g.to_multiset()
    &&& forall|i: int, j: int| 0 <= i < j < o.len() ==> #[trigger] o[i].1.len() >= #[trigger] o[j].1.len()
    &&& forall|i: int, j: int|
        0 <= i < j < o.len() && #[trigger] o[i].1.len() == #[trigger] o[j].1.len() ==> exists|
            a: int,
            b: int,
        | 0 <= a <= b < g.len() && o[i] == #[trigger] g[a] && o[j] == #[trigger] g[b]
}

/// The sort keys of `gs`: for each group, the count's distance below `usize::MAX`, and
/// the group's position.
spec fn count_keys(gs: Seq<(Seq<char>, Seq<Seq<char>>)>) -> Seq<(usize, usize)> {
    Seq::new(gs.len(), |i: int| ((usize::MAX - gs[i].1.len()) as usize, i as usize))
}

/// The groups, rearranged so that larger branch counts come first. Groups with equal
/// counts keep their relative order.
pub fn order_by_count(groups: &Vec<AuthorGroup>) -> (r: Vec<AuthorGroup>)
    ensures
        ordered_by_count(groups_view(r@), groups_view(groups@)),
{
    broadcast use vstd::seq_lib::group_to_multiset_ensures;

    let ghost gv = groups_view(groups@);
    let mut keys: Vec<(usize, usize)> = Vec::new();
    let mut i: usize = 0;
    while i < groups.len()
        invariant
            0 <= i <= groups@.len(),
            gv == groups_view(groups@),
            keys@ =~= count_keys(gv).take(i as int),
            forall|j: int| 0 <= j < i ==> #[trigger] gv[j].1.len() <= usize::MAX,
        decreases groups@.len() - i,
    {
        assert(gv[i as int] == groups@[i as int]@);
        keys.push((usize::MAX - groups[i].count(), i));
        i += 1;
    }
    assert(keys@ =~= count_keys(gv));
    let ghost unsorted = keys@;
    sort_pairs(&mut keys);
    assert(keys@.to_multiset().len() == unsorted.to_multiset().len());
    assert forall|k: int| 0 <= k < keys@.len() implies #[trigger] keys@[k].1 < gv.len() && keys@[k]
        == unsorted[keys@[k].1 as int] by {
        assert(keys@.to_multiset().count(keys@[k]) > 0);
        assert(unsorted.contains(keys@[k]));
    }
    let mut r: Vec<AuthorGroup> = Vec::new();
    let mut k: usize = 0;
    while k < keys.len()
        invariant
            0 <= k <= keys@.len(),
            keys@.len() == gv.len(),
            gv == groups_view(groups@),
            forall|m: int| 0 <= m < keys@.len() ==> #[trigger] keys@[m].1 < gv.len() && keys@[m]
                == unsorted[keys@[m].1 as int],
            groups_view(r@) =~= keys@.take(k as int).map_values(|p: (usize, usize)| gv[p.1 as int]),
        decreases keys@.len() - k,
    {
        let d = groups[keys[k].1].duplicate();
        let ghost before = r@;
        r.push(d);
        assert(groups_view(r@) =~= groups_view(before).push(d@));
        k += 1;
        assert(keys@.take(k as int).map_values(|p: (usize, usize)| gv[p.1 as int]) =~= keys@.take(
            k - 1,
        ).map_values(|p: (usize, usize)| gv[p.1 as int]).push(gv[keys@[k - 1].1 as int]));
    }
    assert(keys@.take(keys@.len() as int) =~= keys@);
    proof {
        let f = |p: (usize, usize)| gv[p.1 as int];
        lemma_map_multiset(keys@, unsorted, f);
        assert(unsorted.map_values(f) =~= gv);
        assert forall|a: int, b: int| 0 <= a < b < groups_view(r@).len() implies #[trigger] groups_view(
            r@,
        )[a].1.len() >= #[trigger] groups_view(r@)[b].1.len() by {
            assert(pair_le(keys@[a], keys@[b]));
            let rv = groups_view(r@);
            assert(rv[a] == gv[keys@[a].1 as int]);
            assert(rv[b] == gv[keys@[b].1 as int]);
            assert(keys@[a] == unsorted[keys@[a].1 as int]);
            assert(keys@[b] == unsorted[keys@[b].1 as int]);
            assert(gv[keys@[a].1 as int].1.len() <= usize::MAX);
            assert(gv[keys@[b].1 as int].1.len() <= usize::MAX);
        }
        assert forall|a: int, b: int|
            0 <= a < b < groups_view(r@).len() && #[trigger] groups_view(r@)[a].1.len()
                == #[trigger] groups_view(r@)[b].1.len() implies exists|x: int, y: int|
            0 <= x <= y < gv.len() && groups_view(r@)[a] == #[trigger] gv[x] && groups_view(r@)[b]
                == #[trigger] gv[y] by {
            assert(pair_le(keys@[a], keys@[b]));
            let rv = groups_view(r@);
            assert(rv[a] == gv[keys@[a].1 as int]);
            assert(rv[b] == gv[keys@[b].1 as int]);
            assert(keys@[a] == unsorted[keys@[a].1 as int]);
            assert(keys@[b] == unsorted[keys@[b].1 as int]);
            assert(gv[keys@[a].1 as int].1.len() <= usize::MAX);
            assert(gv[keys@[b].1 as int].1.len() <= usize::MAX);
            assert(keys@[a].1 <= keys@[b].1);
        }
    }
    r
}

} // verus!
