//! Rules of the project store: sort order of new and legacy projects, the
//! order the user asks for, and timestamps.

use vstd::prelude::*;
use crate::models::{Info, Store};
use crate::text::{concat, decimal, str_eq, u64_to_decimal};

verus! {

/// Reads the system clock as whole seconds since the Unix epoch (0 when the
/// clock is before the epoch). Nothing is claimed of the value: it depends on
/// the clock.
#[verifier::external_body]
pub(crate) fn unix_time_secs() -> (r: u64) {
    std::time::SystemTime::now()
        .duration_since(std::time::UNIX_EPOCH)
        .unwrap_or(std::time::Duration::ZERO)
        .as_secs()
}

/// The text of a timestamp: the seconds in decimal followed by 'Z'.
pub open spec fn spec_timestamp_text(secs: u64) -> Seq<char> {
    decimal(secs as nat) + "Z"@
}

/// `s` is the timestamp text of some number of epoch seconds.
pub open spec fn is_timestamp(s: Seq<char>) -> bool {
    exists|secs: u64| s == spec_timestamp_text(secs)
}

/// Formats epoch seconds as a timestamp, e.g. "1710500000Z".
pub fn timestamp_text(secs: u64) -> (r: String)
    ensures
        r@ == spec_timestamp_text(secs),
{
    let d = u64_to_decimal(secs);
    concat(d.as_str(), "Z")
}

/// The current time as a timestamp ("<epoch seconds>Z").
pub fn now_timestamp() -> (r: String)
    ensures
        is_timestamp(r@),
{
    let secs = unix_time_secs();
    timestamp_text(secs)
}

// ---------------------------------------------------------------------------
// Sort order of new and legacy projects.
// ---------------------------------------------------------------------------

/// The sort order given to a new project: one more than the largest one in
/// use, or 0 when there is no project.
pub fn next_sort_order(data: &Store) -> (r: u32)
    requires
        forall|i: int| 0 <= i < data.projects@.len() ==> (#[trigger] data.projects@[i]).sort_order < u32::MAX,
    ensures
        data.projects@.len() == 0 ==> r == 0,
        data.projects@.len() > 0 ==> r > 0
            && (exists|i: int| 0 <= i < data.projects@.len() && (#[trigger] data.projects@[i]).sort_order + 1 == r)
            && (forall|i: int| 0 <= i < data.projects@.len() ==> (#[trigger] data.projects@[i]).sort_order < r),
{
    let n = data.projects.len();
    if n == 0 {
        return 0;
    }
    let mut max: u32 = data.projects[0].sort_order;
    let mut i: usize = 1;
    while i < n
        invariant
            n == data.projects@.len(),
            1 <= i <= n,
            exists|k: int| 0 <= k < n && (#[trigger] data.projects@[k]).sort_order == max,
            forall|k: int| 0 <= k < i ==> (#[trigger] data.projects@[k]).sort_order <= max,
        decreases n - i,
    {
        if data.projects[i].sort_order > max {
            max = data.projects[i].sort_order;
        }
        i = i + 1;
    }
    proof {
        let k = choose|k: int| 0 <= k < n && (#[trigger] data.projects@[k]).sort_order == max;
        assert(data.projects@[k].sort_order < u32::MAX);
    }
    max + 1
}

/// Every project of `ps` has sort order 0.
pub open spec fn all_zero_sort_order(ps: Seq<Info>) -> bool {
    forall|i: int| 0 <= i < ps.len() ==> (#[trigger] ps[i]).sort_order == 0
}

/// `new` is `old` with sort order `i` given to the `i`-th project (which is
/// the only change).
pub open spec fn renumbered(old: Seq<Info>, new: Seq<Info>) -> bool {
    &&& new.len() == old.len()
    &&& forall|i: int| 0 <= i < new.len() ==> (#[trigger] new[i]) == (Info { sort_order: i as u32, ..old[i] })
}

/// Gives each project its position as sort order.
pub fn renumber(projects: &mut Vec<Info>)
    ensures
        renumbered(old(projects)@, final(projects)@),
{
    let ghost orig = projects@;
    let n = projects.len();
    let mut out: Vec<Info> = Vec::new();
    let mut i: usize = 0;
    while i < n
        invariant
            n == projects@.len(),
            projects@ == orig,
            i <= n,
            out@.len() == i,
            forall|k: int| 0 <= k < i ==> (#[trigger] out@[k]) == (Info { sort_order: k as u32, ..orig[k] }),
        decreases n - i,
    {
        let mut p = projects[i].duplicate();
        p.sort_order = i as u32;
        out.push(p);
        i = i + 1;
    }
    *projects = out;
}

/// Projects stored before sort orders existed all read as 0: when there are
/// at least two projects and all have sort order 0, each gets its position
/// as sort order; otherwise nothing changes.
pub fn normalize_sort_order(data: &mut Store)
    ensures
        (old(data).projects@.len() > 1 && all_zero_sort_order(old(data).projects@))
            ==> renumbered(old(data).projects@, final(data).projects@),
        !(old(data).projects@.len() > 1 && all_zero_sort_order(old(data).projects@))
            ==> final(data).projects@ == old(data).projects@,
{
    let n = data.projects.len();
    if n <= 1 {
        return;
    }
    let mut i: usize = 0;
    while i < n
        invariant
            n == data.projects@.len(),
            i <= n,
            forall|k: int| 0 <= k < i ==> (#[trigger] data.projects@[k]).sort_order == 0,
        decreases n - i,
    {
        if data.projects[i].sort_order != 0 {
            return;
        }
        i = i + 1;
    }
    renumber(&mut data.projects);
}

// ---------------------------------------------------------------------------
// Reordering by a list of ids.
// ---------------------------------------------------------------------------

/// Last position before `n` where `ids` holds `id`.
pub open spec fn last_index_before(ids: Seq<Seq<char>>, id: Seq<char>, n: int) -> Option<int>
    decreases n,
{
    if n <= 0 || n > ids.len() {
        None
    } else if ids[n - 1] == id {
        Some(n - 1)
    } else {
        last_index_before(ids, id, n - 1)
    }
}

/// Where a project with `id` goes: the last position of `id` in `ids`, or
/// after every listed project when `id` is not listed.
pub open spec fn rank(ids: Seq<Seq<char>>, id: Seq<char>) -> int {
    match last_index_before(ids, id, ids.len() as int) {
        Some(k) => k,
        None => ids.len() as int,
    }
}

/// The ids as views.
pub open spec fn ids_view(ids: Seq<String>) -> Seq<Seq<char>> {
    ids.map_values(|s: String| s@)
}

/// The first position `j` of the ranked list `t` whose rank is greater than `r`.
pub open spec fn insertion_point(ids: Seq<Seq<char>>, t: Seq<Info>, r: int) -> int
    decreases t.len(),
{
    if t.len() == 0 {
        0
    } else if rank(ids, t[0].id@) > r {
        0
    } else {
        1 + insertion_point(ids, t.drop_first(), r)
    }
}

/// `t` with `x` inserted after every element of rank at most `x`'s.
pub open spec fn insert_ranked(ids: Seq<Seq<char>>, t: Seq<Info>, x: Info) -> Seq<Info> {
    t.insert(insertion_point(ids, t, rank(ids, x.id@)), x)
}

/// `ps` stably sorted by rank (insertion sort read as a definition).
pub open spec fn sort_by_rank(ids: Seq<Seq<char>>, ps: Seq<Info>) -> Seq<Info>
    decreases ps.len(),
{
    if ps.len() == 0 {
        ps
    } else {
        insert_ranked(ids, sort_by_rank(ids, ps.drop_last()), ps.last())
    }
}

/// The rank of a project id in `project_ids`.
fn rank_of(project_ids: &Vec<String>, id: &str) -> (r: usize)
    ensures
        r as int == rank(ids_view(project_ids@), id@),
{
    let ghost ids = ids_view(project_ids@);
    let n = project_ids.len();
    let mut k: usize = n;
    while k > 0
        invariant
            ids == ids_view(project_ids@),
            n == ids.len(),
            k <= n,
            last_index_before(ids, id@, n as int) == last_index_before(ids, id@, k as int),
        decreases k,
    {
        if str_eq(project_ids[k - 1].as_str(), id) {
            return k - 1;
        }
        k = k - 1;
    }
    n
}

proof fn lemma_insertion_point_bounds(ids: Seq<Seq<char>>, t: Seq<Info>, r: int)
    ensures
        0 <= insertion_point(ids, t, r) <= t.len(),
    decreases t.len(),
{
    if t.len() > 0 && rank(ids, t[0].id@) <= r {
        lemma_insertion_point_bounds(ids, t.drop_first(), r);
    }
}

/// Where in the ranked vector `t` a project of rank `r` is inserted.
fn find_insertion_point(ids: Ghost<Seq<Seq<char>>>, t: &Vec<Info>, ranks: &Vec<usize>, r: usize) -> (j: usize)
    requires
        ranks@.len() == t@.len(),
        forall|i: int| 0 <= i < t@.len() ==> (#[trigger] ranks@[i]) as int == rank(ids@, t@[i].id@),
    ensures
        j as int == insertion_point(ids@, t@, r as int),
{
    let mut j: usize = 0;
    proof { lemma_insertion_point_bounds(ids@, t@, r as int); }
    assert(t@.subrange(0, t@.len() as int) =~= t@);
    while j < t.len() && ranks[j] <= r
        invariant
            ranks@.len() == t@.len(),
            forall|i: int| 0 <= i < t@.len() ==> (#[trigger] ranks@[i]) as int == rank(ids@, t@[i].id@),
            j <= t@.len(),
            insertion_point(ids@, t@, r as int) == j + insertion_point(ids@, t@.subrange(j as int, t@.len() as int), r as int),
        decreases t@.len() - j,
    {
        proof {
            let s = t@.subrange(j as int, t@.len() as int);
            assert(s[0] == t@[j as int]);
            assert(s.drop_first() =~= t@.subrange(j + 1, t@.len() as int));
        }
        j = j + 1;
    }
    proof {
        let s = t@.subrange(j as int, t@.len() as int);
        if j < t@.len() {
            assert(s[0] == t@[j as int]);
        } else {
            assert(s.len() == 0);
        }
    }
    j
}

/// The projects stably sorted by the position of their id in `project_ids`
/// (its last position when listed twice); projects whose id is not listed
/// keep their relative order after all the listed ones. Each then gets its
/// position as sort order.
pub fn reorder_projects(projects: Vec<Info>, project_ids: &Vec<String>) -> (r: Vec<Info>)
    ensures
        renumbered(sort_by_rank(ids_view(project_ids@), projects@), r@),
{
    let ghost ids = ids_view(project_ids@);
    let n = projects.len();
    let mut sorted: Vec<Info> = Vec::new();
    let mut ranks: Vec<usize> = Vec::new();
    let mut i: usize = 0;
    assert(projects@.subrange(0, 0) =~= Seq::<Info>::empty());
    while i < n
        invariant
            n == projects@.len(),
            ids == ids_view(project_ids@),
            i <= n,
            sorted@ == sort_by_rank(ids, projects@.subrange(0, i as int)),
            ranks@.len() == sorted@.len(),
            forall|k: int| 0 <= k < sorted@.len() ==> (#[trigger] ranks@[k]) as int == rank(ids, sorted@[k].id@),
        decreases n - i,
    {
        let p = projects[i].duplicate();
        let rp = rank_of(project_ids, p.id.as_str());
        let j = find_insertion_point(Ghost(ids), &sorted, &ranks, rp);
        proof { lemma_insertion_point_bounds(ids, sorted@, rp as int); }
        let ghost before = sorted@;
        let ghost before_ranks = ranks@;
        sorted.insert(j, p);
        ranks.insert(j, rp);
        proof {
            let pre = projects@.subrange(0, i + 1);
            assert(pre.drop_last() =~= projects@.subrange(0, i as int));
            assert(pre.last() == projects@[i as int]);
            assert(sorted@ == before.insert(j as int, projects@[i as int]));
            assert forall|k: int| 0 <= k < sorted@.len() implies (#[trigger] ranks@[k]) as int == rank(ids, sorted@[k].id@) by {
                if k < j {
                    assert(ranks@[k] == before_ranks[k] && sorted@[k] == before[k]);
                } else if k > j {
                    assert(ranks@[k] == before_ranks[k - 1] && sorted@[k] == before[k - 1]);
                }
            }
        }
        i = i + 1;
    }
    assert(projects@.subrange(0, n as int) =~= projects@);
    renumber(&mut sorted);
    sorted
}


/// Reorders the loaded project list by the ids given (see
/// `reorder_projects`), stores it back and returns it. Loading the list
/// from the data folder and saving it there happen outside.
pub fn reorder_projects_in_path(data: &mut Store, project_ids: &Vec<String>) -> (r: Vec<Info>)
    ensures
        renumbered(sort_by_rank(ids_view(project_ids@), old(data).projects@), r@),
        final(data).projects@ == r@,
{
    let mut projects: Vec<Info> = Vec::new();
    std::mem::swap(&mut projects, &mut data.projects);
    let sorted = reorder_projects(projects, project_ids);
    let mut copy: Vec<Info> = Vec::new();
    let mut i: usize = 0;
    while i < sorted.len()
        invariant
            i <= sorted@.len(),
            copy@ == sorted@.take(i as int),
        decreases sorted@.len() - i,
    {
        copy.push(sorted[i].duplicate());
        i = i + 1;
        assert(copy@ =~= sorted@.take(i as int));
    }
    assert(sorted@.take(i as int) =~= sorted@);
    data.projects = copy;
    sorted
}

// ---------------------------------------------------------------------------
// Laws of reordering.
// ---------------------------------------------------------------------------

/// Ranks never decrease along `s`.
pub open spec fn rank_sorted(ids: Seq<Seq<char>>, s: Seq<Info>) -> bool {
    forall|i: int, j: int| 0 <= i < j < s.len() ==> rank(ids, (#[trigger] s[i]).id@) <= rank(ids, (#[trigger] s[j]).id@)
}

/// The projects of `s` of rank `r`, in order.
pub open spec fn with_rank(ids: Seq<Seq<char>>, s: Seq<Info>, r: int) -> Seq<Info> {
    s.filter(|p: Info| rank(ids, p.id@) == r)
}

proof fn lemma_insertion_point_split(ids: Seq<Seq<char>>, t: Seq<Info>, r: int)
    requires
        rank_sorted(ids, t),
    ensures
        forall|k: int| 0 <= k < insertion_point(ids, t, r) ==> rank(ids, (#[trigger] t[k]).id@) <= r,
        forall|k: int| insertion_point(ids, t, r) <= k < t.len() ==> rank(ids, (#[trigger] t[k]).id@) > r,
    decreases t.len(),
{
    lemma_insertion_point_bounds(ids, t, r);
    if t.len() > 0 {
        let d = t.drop_first();
        assert forall|i: int, j: int| 0 <= i < j < d.len() implies rank(ids, (#[trigger] d[i]).id@) <= rank(ids, (#[trigger] d[j]).id@) by {
            assert(d[i] == t[i + 1] && d[j] == t[j + 1]);
        }
        lemma_insertion_point_split(ids, d, r);
        if rank(ids, t[0].id@) > r {
            assert forall|k: int| 0 <= k < t.len() implies rank(ids, (#[trigger] t[k]).id@) > r by {
                if k > 0 {
                    assert(rank(ids, t[0].id@) <= rank(ids, t[k].id@));
                }
            }
        } else {
            assert forall|k: int| 1 <= k < t.len() implies #[trigger] t[k] == d[k - 1] by {}
            assert(insertion_point(ids, t, r) == insertion_point(ids, d, r) + 1);
            assert forall|k: int| insertion_point(ids, t, r) <= k < t.len() implies rank(ids, (#[trigger] t[k]).id@) > r by {
                assert(t[k] == d[k - 1]);
            }
            assert forall|k: int| 0 <= k < insertion_point(ids, t, r) implies rank(ids, (#[trigger] t[k]).id@) <= r by {
                if k > 0 {
                    assert(t[k] == d[k - 1]);
                }
            }
        }
    }
}

proof fn lemma_insert_ranked_sorted(ids: Seq<Seq<char>>, t: Seq<Info>, x: Info)
    requires
        rank_sorted(ids, t),
    ensures
        rank_sorted(ids, insert_ranked(ids, t, x)),
{
    let r = rank(ids, x.id@);
    let j = insertion_point(ids, t, r);
    lemma_insertion_point_bounds(ids, t, r);
    lemma_insertion_point_split(ids, t, r);
    let u = t.insert(j, x);
    assert forall|a: int, b: int| 0 <= a < b < u.len() implies rank(ids, (#[trigger] u[a]).id@) <= rank(ids, (#[trigger] u[b]).id@) by {
        if a < j && b < j {
            assert(u[a] == t[a] && u[b] == t[b]);
        } else if a < j && b == j {
            assert(u[a] == t[a]);
        } else if a < j {
            assert(u[a] == t[a] && u[b] == t[b - 1]);
        } else if a == j {
            assert(u[b] == t[b - 1]);
        } else {
            assert(u[a] == t[a - 1] && u[b] == t[b - 1]);
        }
    }
}

/// The result of reordering lists the projects in the order of their ids'
/// (last) positions in the id list, unlisted ones last.
pub proof fn law_reorder_follows_ids(ids: Seq<Seq<char>>, ps: Seq<Info>)
    ensures
        rank_sorted(ids, sort_by_rank(ids, ps)),
    decreases ps.len(),
{
    if ps.len() > 0 {
        law_reorder_follows_ids(ids, ps.drop_last());
        lemma_insert_ranked_sorted(ids, sort_by_rank(ids, ps.drop_last()), ps.last());
    }
}

proof fn lemma_insert_multiset<A>(t: Seq<A>, j: int, x: A)
    requires
        0 <= j <= t.len(),
    ensures
        t.insert(j, x).to_multiset() == t.to_multiset().insert(x),
{
    broadcast use vstd::seq_lib::group_to_multiset_ensures;
    broadcast use vstd::multiset::group_multiset_axioms;
    let u = t.insert(j, x);
    assert(u.remove(j) =~= t);
    assert(u[j] == x);
    assert(t.to_multiset() == u.to_multiset().remove(x));
    assert(u.contains(x));
    assert(u.to_multiset().count(x) > 0);
    assert(u.to_multiset() =~= u.to_multiset().remove(x).insert(x));
}

/// Reordering neither drops nor duplicates a project: the result is a
/// permutation of the input.
pub proof fn law_reorder_is_permutation(ids: Seq<Seq<char>>, ps: Seq<Info>)
    ensures
        sort_by_rank(ids, ps).to_multiset() == ps.to_multiset(),
    decreases ps.len(),
{
    broadcast use vstd::seq_lib::group_to_multiset_ensures;
    if ps.len() > 0 {
        law_reorder_is_permutation(ids, ps.drop_last());
        let t = sort_by_rank(ids, ps.drop_last());
        let x = ps.last();
        lemma_insertion_point_bounds(ids, t, rank(ids, x.id@));
        lemma_insert_multiset(t, insertion_point(ids, t, rank(ids, x.id@)), x);
        assert(ps.drop_last().push(x) =~= ps);
    }
}

proof fn lemma_filter_singleton(x: Info, p: spec_fn(Info) -> bool)
    ensures
        seq![x].filter(p) == (if p(x) { seq![x] } else { Seq::<Info>::empty() }),
{
    reveal(Seq::filter);
    assert(seq![x].drop_last() =~= Seq::<Info>::empty());
    assert(Seq::<Info>::empty().filter(p) =~= Seq::<Info>::empty());
}

proof fn lemma_filter_none(s: Seq<Info>, p: spec_fn(Info) -> bool)
    requires
        forall|k: int| 0 <= k < s.len() ==> !p(#[trigger] s[k]),
    ensures
        s.filter(p) == Seq::<Info>::empty(),
    decreases s.len(),
{
    reveal(Seq::filter);
    if s.len() > 0 {
        assert forall|k: int| 0 <= k < s.drop_last().len() implies !p(#[trigger] s.drop_last()[k]) by {
            assert(s.drop_last()[k] == s[k]);
        }
        lemma_filter_none(s.drop_last(), p);
        assert(!p(s.last()));
    }
}

proof fn lemma_filter_push(s: Seq<Info>, x: Info, p: spec_fn(Info) -> bool)
    ensures
        s.push(x).filter(p) == (if p(x) { s.filter(p).push(x) } else { s.filter(p) }),
{
    reveal(Seq::filter);
    assert(s.push(x).drop_last() =~= s);
}

/// Projects of equal rank (the same listed id, or all unlisted ones) keep
/// their relative order: reordering is stable.
pub proof fn law_reorder_is_stable(ids: Seq<Seq<char>>, ps: Seq<Info>, r: int)
    ensures
        with_rank(ids, sort_by_rank(ids, ps), r) == with_rank(ids, ps, r),
    decreases ps.len(),
{
    broadcast use vstd::seq_lib::group_filter_ensures;
    let p = |q: Info| rank(ids, q.id@) == r;
    if ps.len() == 0 {
    } else {
        law_reorder_is_stable(ids, ps.drop_last(), r);
        law_reorder_follows_ids(ids, ps.drop_last());
        let t = sort_by_rank(ids, ps.drop_last());
        let x = ps.last();
        let rx = rank(ids, x.id@);
        let j = insertion_point(ids, t, rx);
        lemma_insertion_point_bounds(ids, t, rx);
        lemma_insertion_point_split(ids, t, rx);
        let a = t.subrange(0, j);
        let b = t.subrange(j, t.len() as int);
        assert(t.insert(j, x) =~= a + seq![x] + b);
        assert(t =~= a + b);
        Seq::filter_distributes_over_add(a + seq![x], b, p);
        Seq::filter_distributes_over_add(a, seq![x], p);
        Seq::filter_distributes_over_add(a, b, p);
        lemma_filter_singleton(x, p);
        lemma_filter_push(ps.drop_last(), x, p);
        assert(ps.drop_last().push(x) =~= ps);
        if rx == r {
            assert forall|k: int| 0 <= k < b.len() implies !p(#[trigger] b[k]) by {
                assert(b[k] == t[j + k]);
            }
            lemma_filter_none(b, p);
            assert(b.filter(p) =~= Seq::<Info>::empty());
            assert(a.filter(p) + seq![x] + Seq::<Info>::empty() =~= a.filter(p).push(x));
            assert(a.filter(p) + Seq::<Info>::empty() =~= a.filter(p));
        } else {
            assert(a.filter(p) + Seq::<Info>::empty() =~= a.filter(p));
        }
    }
}

} // verus!
