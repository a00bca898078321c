//! The shells running in a terminal window and their working folders.
//!
//! The process table and each process's working folder are read outside;
//! here is which processes count and which folders are kept.

use vstd::prelude::*;
use std::collections::HashSet;
use crate::text::{lowercase, str_eq, to_lowercase};

verus! {

/// Executable names, in lower case, of the shells whose working folder is
/// read.
pub open spec fn shell_names() -> Seq<Seq<char>> {
    seq!["powershell.exe"@, "pwsh.exe"@, "cmd.exe"@, "bash.exe"@, "wsl.exe"@, "nu.exe"@, "fish.exe"@, "zsh.exe"@]
}

/// A process runs a shell when its executable name, in lower case, is one of
/// `shell_names`.
pub open spec fn spec_is_shell(exe_name: Seq<char>) -> bool {
    shell_names().contains(lowercase(exe_name))
}

/// Whether a process with this executable name is a shell.
pub fn is_shell_executable(exe_name: &str) -> (r: bool)
    ensures
        r == spec_is_shell(exe_name@),
{
    let l = to_lowercase(exe_name);
    let s = l.as_str();
    let r = str_eq(s, "powershell.exe") || str_eq(s, "pwsh.exe") || str_eq(s, "cmd.exe") || str_eq(s, "bash.exe")
        || str_eq(s, "wsl.exe") || str_eq(s, "nu.exe") || str_eq(s, "fish.exe") || str_eq(s, "zsh.exe");
    proof {
        let sv = shell_names();
        if r {
            if s@ == "powershell.exe"@ { assert(sv[0] == s@); }
            else if s@ == "pwsh.exe"@ { assert(sv[1] == s@); }
            else if s@ == "cmd.exe"@ { assert(sv[2] == s@); }
            else if s@ == "bash.exe"@ { assert(sv[3] == s@); }
            else if s@ == "wsl.exe"@ { assert(sv[4] == s@); }
            else if s@ == "nu.exe"@ { assert(sv[5] == s@); }
            else if s@ == "fish.exe"@ { assert(sv[6] == s@); }
            else { assert(sv[7] == s@); }
        } else {
            assert forall|k: int| 0 <= k < sv.len() implies sv[k] != s@ by {}
        }
    }
    r
}

/// `cwds` already holds `cwd`, ignoring case.
pub open spec fn has_folder(cwds: Seq<Seq<char>>, cwd: Seq<char>) -> bool {
    exists|k: int| 0 <= k < cwds.len() && lowercase(#[trigger] cwds[k]) == lowercase(cwd)
}

pub open spec fn folders_view(v: Seq<String>) -> Seq<Seq<char>> {
    v.map_values(|s: String| s@)
}

/// Adds a shell's working folder to the list unless it is empty or already
/// there (ignoring case).
pub fn add_shell_folder(cwds: &mut Vec<String>, cwd: String)
    ensures
        folders_view(final(cwds)@) == if cwd@.len() == 0 || has_folder(folders_view(old(cwds)@), cwd@) {
            folders_view(old(cwds)@)
        } else {
            folders_view(old(cwds)@).push(cwd@)
        },
{
    if cwd.as_str().unicode_len() == 0 {
        return;
    }
    let ghost fv = folders_view(cwds@);
    let target = to_lowercase(cwd.as_str());
    let mut i: usize = 0;
    while i < cwds.len()
        invariant
            fv == folders_view(cwds@),
            target@ == lowercase(cwd@),
            i <= cwds@.len(),
            forall|k: int| 0 <= k < i ==> lowercase(#[trigger] fv[k]) != lowercase(cwd@),
        decreases cwds@.len() - i,
    {
        let l = to_lowercase(cwds[i].as_str());
        assert(fv[i as int] == cwds@[i as int]@);
        if str_eq(l.as_str(), target.as_str()) {
            assert(lowercase(fv[i as int]) == lowercase(cwd@));
            return;
        }
        i = i + 1;
    }
    let ghost before = cwds@;
    cwds.push(cwd);
    assert(folders_view(cwds@) =~= folders_view(before).push(cwd@));
}

/// Entry `k` of the process table `(pid, parent pid, executable name)` is a
/// child of `parent`: its parent pid is `parent` and it is not listed as its
/// own parent.
pub open spec fn is_child_entry(procs: Seq<(u32, u32, String)>, k: int, parent: u32) -> bool {
    0 <= k < procs.len() && procs[k].1 == parent && procs[k].0 != parent
}

/// Some entry of the table makes `to` a child of `from`.
pub open spec fn parent_step(procs: Seq<(u32, u32, String)>, from: u32, to: u32) -> bool {
    exists|k: int| #[trigger] is_child_entry(procs, k, from) && procs[k].0 == to
}

/// `path` starts at `root` and each pid in it is a child of the one before.
pub open spec fn is_chain(procs: Seq<(u32, u32, String)>, root: u32, path: Seq<u32>) -> bool {
    &&& path.len() > 0
    &&& path[0] == root
    &&& forall|i: int| 0 <= i < path.len() - 1 ==> #[trigger] parent_step(procs, path[i], path[i + 1])
}

/// `pid` is `root` or one of its descendants in the process table.
pub open spec fn descends_from(procs: Seq<(u32, u32, String)>, root: u32, pid: u32) -> bool {
    exists|path: Seq<u32>| #[trigger] is_chain(procs, root, path) && path.last() == pid
}

pub open spec fn reaches(procs: Seq<(u32, u32, String)>, root: u32) -> spec_fn(u32) -> bool {
    |pid: u32| descends_from(procs, root, pid)
}

pub open spec fn in_set(s: Set<u32>) -> spec_fn(u32) -> bool {
    |pid: u32| s.contains(pid)
}

pub open spec fn is_pid(p: u32) -> spec_fn(u32) -> bool {
    |pid: u32| pid == p
}

/// The `(pid, executable name)` of each child entry of the table, in table
/// order, whose parent satisfies `parents`.
pub open spec fn entries_under(procs: Seq<(u32, u32, String)>, parents: spec_fn(u32) -> bool) -> Seq<(u32, Seq<char>)>
    decreases procs.len(),
{
    if procs.len() == 0 {
        Seq::empty()
    } else {
        let e = procs.last();
        let rest = entries_under(procs.drop_last(), parents);
        if parents(e.1) && e.0 != e.1 {
            rest.push((e.0, e.2@))
        } else {
            rest
        }
    }
}

/// Every child entry of the table whose parent is `root` or a descendant of
/// it.
pub open spec fn descendant_entries(procs: Seq<(u32, u32, String)>, root: u32) -> Seq<(u32, Seq<char>)> {
    entries_under(procs, reaches(procs, root))
}

pub open spec fn entry_views(r: Seq<(u32, String)>) -> Seq<(u32, Seq<char>)> {
    r.map_values(|e: (u32, String)| (e.0, e.1@))
}

proof fn lemma_step_extends(procs: Seq<(u32, u32, String)>, root: u32, v: u32, c: u32)
    requires
        descends_from(procs, root, v),
        parent_step(procs, v, c),
    ensures
        descends_from(procs, root, c),
{
    let path = choose|path: Seq<u32>| #[trigger] is_chain(procs, root, path) && path.last() == v;
    let p2 = path.push(c);
    assert forall|i: int| 0 <= i < p2.len() - 1 implies #[trigger] parent_step(procs, p2[i], p2[i + 1]) by {
        if i < path.len() - 1 {
            assert(p2[i] == path[i] && p2[i + 1] == path[i + 1]);
        } else {
            assert(p2[i] == v && p2[i + 1] == c);
        }
    }
    assert(is_chain(procs, root, p2));
    assert(p2.last() == c);
}

proof fn lemma_root_descends(procs: Seq<(u32, u32, String)>, root: u32)
    ensures
        descends_from(procs, root, root),
{
    let path = seq![root];
    assert(is_chain(procs, root, path));
    assert(path.last() == root);
}

proof fn lemma_closed_holds_chain(procs: Seq<(u32, u32, String)>, root: u32, s: Set<u32>, path: Seq<u32>, n: int)
    requires
        is_chain(procs, root, path),
        s.contains(root),
        forall|v: u32, c: u32| #![trigger s.contains(v), parent_step(procs, v, c)]
            s.contains(v) && parent_step(procs, v, c) ==> s.contains(c),
        0 <= n < path.len(),
    ensures
        s.contains(path[n]),
    decreases n,
{
    if n > 0 {
        lemma_closed_holds_chain(procs, root, s, path, n - 1);
        let i = n - 1;
        assert(parent_step(procs, path[i], path[i + 1]));
        assert(path[i + 1] == path[n]);
    }
}

proof fn lemma_entries_insert(procs: Seq<(u32, u32, String)>, s: Set<u32>, v: u32)
    requires
        !s.contains(v),
    ensures
        entries_under(procs, in_set(s.insert(v))).to_multiset() =~= entries_under(procs, in_set(s)).to_multiset().add(
            entries_under(procs, is_pid(v)).to_multiset(),
        ),
    decreases procs.len(),
{
    broadcast use vstd::seq_lib::group_to_multiset_ensures;
    if procs.len() > 0 {
        lemma_entries_insert(procs.drop_last(), s, v);
    }
}

/// The pids of a list of entries.
pub open spec fn pids_of(e: Seq<(u32, Seq<char>)>) -> Seq<u32> {
    e.map_values(|x: (u32, Seq<char>)| x.0)
}

/// The entries a last-in-first-out walk of the process table finds, from a
/// stack of pids and a set of pids already seen, in at most `steps` pops:
/// the pid on top is popped; if it was not seen yet, its child entries are
/// listed in table order and their pids pushed in that order.
pub open spec fn walk(procs: Seq<(u32, u32, String)>, stack: Seq<u32>, seen: Set<u32>, steps: nat) -> Seq<(u32, Seq<char>)>
    decreases steps,
{
    if steps == 0 || stack.len() == 0 {
        Seq::empty()
    } else {
        let p = stack.last();
        if seen.contains(p) {
            walk(procs, stack.drop_last(), seen, (steps - 1) as nat)
        } else {
            let found = entries_under(procs, is_pid(p));
            found + walk(procs, stack.drop_last() + pids_of(found), seen.insert(p), (steps - 1) as nat)
        }
    }
}

/// Enough pops for the walk of a table of `n` entries to empty its stack:
/// one for the root and at most `n` pushes for each of the at most `n + 1`
/// pids it can see.
pub open spec fn walk_steps(procs: Seq<(u32, u32, String)>) -> nat {
    1 + (procs.len() + 1) * procs.len()
}

/// The walk from `root` alone.
pub open spec fn walk_order(procs: Seq<(u32, u32, String)>, root: u32) -> Seq<(u32, Seq<char>)> {
    walk(procs, seq![root], Set::empty(), walk_steps(procs))
}

proof fn lemma_entries_len(procs: Seq<(u32, u32, String)>, f: spec_fn(u32) -> bool)
    ensures
        entries_under(procs, f).len() <= procs.len(),
    decreases procs.len(),
{
    if procs.len() > 0 {
        lemma_entries_len(procs.drop_last(), f);
    }
}

/// The `(pid, executable name)` of every process under `parent_pid` in the
/// process table `(pid, parent pid, executable name)`, in the order a
/// last-in-first-out walk from `parent_pid` finds them (`walk_order`): the
/// entries whose parent is `parent_pid` or one of its descendants, each once.
pub fn collect_descendants(parent_pid: u32, all_procs: &[(u32, u32, String)]) -> (r: Vec<(u32, String)>)
    ensures
        entry_views(r@) == walk_order(all_procs@, parent_pid),
        entry_views(r@).to_multiset() == descendant_entries(all_procs@, parent_pid).to_multiset(),
{
    broadcast use vstd::seq_lib::group_to_multiset_ensures;
    let ghost procs = all_procs@;
    let ghost n = procs.len();
    let ghost steps = walk_steps(procs);
    let ghost pids = procs.map_values(|e: (u32, u32, String)| e.0);
    let ghost cand = pids.to_set().insert(parent_pid);
    proof {
        vstd::seq_lib::seq_to_set_is_finite(pids);
        lemma_root_descends(procs, parent_pid);
        pids.lemma_cardinality_of_set();
        assert(cand.len() <= n + 1);
        assert(cand.len() * n <= (n + 1) * n) by (nonlinear_arith)
            requires
                cand.len() <= n + 1,
        ;
    }
    let mut result: Vec<(u32, String)> = Vec::new();
    let mut queue: Vec<u32> = vec![parent_pid];
    let mut visited: HashSet<u32> = HashSet::new();
    let ghost mut iters: nat = 0;
    assert(entries_under(procs, in_set(visited@)) =~= Seq::empty()) by {
        lemma_entries_empty_set(procs);
    }
    assert(walk_order(procs, parent_pid) =~= entry_views(result@) + walk(procs, queue@, visited@, steps));
    while queue.len() > 0
        invariant
            procs == all_procs@,
            n == procs.len(),
            steps == walk_steps(procs),
            cand == procs.map_values(|e: (u32, u32, String)| e.0).to_set().insert(parent_pid),
            cand.finite(),
            visited@.finite(),
            visited@.subset_of(cand),
            forall|x: u32| #[trigger] queue@.contains(x) ==> cand.contains(x) && descends_from(procs, parent_pid, x),
            forall|x: u32| #[trigger] visited@.contains(x) ==> descends_from(procs, parent_pid, x),
            visited@.contains(parent_pid) || queue@.contains(parent_pid),
            forall|v: u32, c: u32| #![trigger visited@.contains(v), parent_step(procs, v, c)]
                visited@.contains(v) && parent_step(procs, v, c) ==> visited@.contains(c) || queue@.contains(c),
            entry_views(result@).to_multiset() == entries_under(procs, in_set(visited@)).to_multiset(),
            iters + queue@.len() + (cand.len() - visited@.len()) * n <= steps,
            walk_order(procs, parent_pid) == entry_views(result@) + walk(procs, queue@, visited@, (steps - iters) as nat),
        decreases cand.len() - visited@.len(), queue@.len(),
    {
        let ghost q0 = queue@;
        let ghost r00 = entry_views(result@);
        let ghost left = (steps - iters) as nat;
        proof {
            vstd::set_lib::lemma_len_subset(visited@, cand);
            assert((cand.len() - visited@.len()) * n >= 0) by (nonlinear_arith)
                requires
                    cand.len() - visited@.len() >= 0,
                    n >= 0,
            ;
            assert(left >= 1);
        }
        let pid = queue.pop().unwrap();
        assert(q0 == queue@.push(pid));
        assert(queue@ =~= q0.drop_last());
        assert(q0.contains(pid)) by { assert(q0[q0.len() - 1] == pid); }
        assert forall|x: u32| #[trigger] queue@.contains(x) implies q0.contains(x) by {
            let i = choose|i: int| 0 <= i < queue@.len() && queue@[i] == x;
            assert(q0[i] == x);
        }
        let ghost v0 = visited@;
        proof {
            vstd::set_lib::lemma_len_subset(v0.insert(pid), cand);
        }
        let fresh = visited.insert(pid);
        if fresh {
            let ghost rv0 = entry_views(result@);
            let ghost qs = queue@;
            let mut j: usize = 0;
            assert(procs.take(0) =~= Seq::<(u32, u32, String)>::empty());
            assert(qs =~= qs + pids_of(entries_under(procs.take(0), is_pid(pid))));
            while j < all_procs.len()
                invariant
                    procs == all_procs@,
                    j <= procs.len(),
                    cand == procs.map_values(|e: (u32, u32, String)| e.0).to_set().insert(parent_pid),
                    descends_from(procs, parent_pid, pid),
                    queue@.len() >= qs.len(),
                    forall|i: int| 0 <= i < qs.len() ==> queue@[i] == qs[i],
                    forall|x: u32| #[trigger] queue@.contains(x) ==> cand.contains(x) && descends_from(procs, parent_pid, x),
                    forall|k: int| 0 <= k < j && #[trigger] is_child_entry(procs, k, pid) ==> queue@.contains(procs[k].0),
                    entry_views(result@) == rv0 + entries_under(procs.take(j as int), is_pid(pid)),
                    queue@ == qs + pids_of(entries_under(procs.take(j as int), is_pid(pid))),
                decreases procs.len() - j,
            {
                let ghost r0 = result@;
                let ghost qb = queue@;
                assert(procs.take(j as int + 1).drop_last() =~= procs.take(j as int));
                assert(procs.take(j as int + 1).last() == procs[j as int]);
                if all_procs[j].1 == pid && all_procs[j].0 != pid {
                    let child = all_procs[j].0;
                    let name = all_procs[j].2.clone();
                    result.push((child, name));
                    queue.push(child);
                    proof {
                        assert(entry_views(result@) =~= entry_views(r0).push((child, name@)));
                        let e0 = entries_under(procs.take(j as int), is_pid(pid));
                        assert(pids_of(e0.push((child, name@))) =~= pids_of(e0).push(child));
                        assert(queue@ =~= qs + pids_of(entries_under(procs.take(j as int + 1), is_pid(pid))));
                        assert(is_child_entry(procs, j as int, pid));
                        assert(parent_step(procs, pid, child));
                        lemma_step_extends(procs, parent_pid, pid, child);
                        let pids = procs.map_values(|e: (u32, u32, String)| e.0);
                        assert(pids[j as int] == child);
                        assert(cand.contains(child));
                        assert(queue@[queue@.len() - 1] == child);
                        assert forall|x: u32| #[trigger] queue@.contains(x) implies cand.contains(x) && descends_from(procs, parent_pid, x) by {
                            let i = choose|i: int| 0 <= i < queue@.len() && queue@[i] == x;
                            if i < qb.len() {
                                assert(qb[i] == x);
                                assert(qb.contains(x));
                            }
                        }
                        assert forall|k: int| 0 <= k < j + 1 && #[trigger] is_child_entry(procs, k, pid) implies queue@.contains(procs[k].0) by {
                            if k < j {
                                let i = choose|i: int| 0 <= i < qb.len() && qb[i] == procs[k].0;
                                assert(queue@[i] == procs[k].0);
                            }
                        }
                    }
                }
                j = j + 1;
            }
            proof {
                assert(procs.take(procs.len() as int) =~= procs);
                let found = entries_under(procs, is_pid(pid));
                lemma_entries_len(procs, is_pid(pid));
                assert(queue@.len() == qs.len() + found.len());
                vstd::seq_lib::lemma_multiset_commutative(rv0, found);
                lemma_entries_insert(procs, v0, pid);
                assert(visited@ == v0.insert(pid));
                assert(visited@.len() == v0.len() + 1);
                assert((cand.len() - v0.len() - 1) * n == (cand.len() - v0.len()) * n - n) by (nonlinear_arith);
                assert(walk(procs, q0, v0, left) == found + walk(procs, qs + pids_of(found), v0.insert(pid), (left - 1) as nat));
                assert(entry_views(result@) == rv0 + found);
                assert(walk_order(procs, parent_pid) =~= entry_views(result@) + walk(procs, queue@, visited@, (left - 1) as nat));
                assert forall|x: u32| #[trigger] visited@.contains(x) implies descends_from(procs, parent_pid, x) by {
                    if x != pid { assert(v0.contains(x)); }
                }
                assert forall|x: u32| #[trigger] qs.contains(x) implies queue@.contains(x) by {
                    let i = choose|i: int| 0 <= i < qs.len() && qs[i] == x;
                    assert(queue@[i] == x);
                }
                assert forall|v: u32, c: u32| #![trigger visited@.contains(v), parent_step(procs, v, c)]
                    visited@.contains(v) && parent_step(procs, v, c) implies visited@.contains(c) || queue@.contains(c) by {
                    if v == pid {
                        let k = choose|k: int| #[trigger] is_child_entry(procs, k, v) && procs[k].0 == c;
                        assert(queue@.contains(procs[k].0));
                    } else {
                        assert(v0.contains(v));
                        if !v0.contains(c) && c != pid {
                            assert(q0.contains(c));
                            let i = choose|i: int| 0 <= i < q0.len() && q0[i] == c;
                            assert(i < qs.len());
                            assert(qs[i] == c);
                            assert(qs.contains(c));
                        }
                    }
                }
            }
        } else {
            proof {
                assert(visited@ == v0);
                assert(walk(procs, q0, v0, left) == walk(procs, queue@, v0, (left - 1) as nat));
                assert forall|v: u32, c: u32| #![trigger visited@.contains(v), parent_step(procs, v, c)]
                    visited@.contains(v) && parent_step(procs, v, c) implies visited@.contains(c) || queue@.contains(c) by {
                    if !visited@.contains(c) {
                        assert(q0.contains(c));
                        let i = choose|i: int| 0 <= i < q0.len() && q0[i] == c;
                        if i < queue@.len() {
                            assert(queue@[i] == c);
                        }
                    }
                }
            }
        }
        proof {
            iters = iters + 1;
        }
    }
    proof {
        assert(walk(procs, queue@, visited@, (steps - iters) as nat) =~= Seq::empty());
        assert(walk_order(procs, parent_pid) =~= entry_views(result@));
        assert(visited@.contains(parent_pid));
        assert forall|p: u32| #[trigger] in_set(visited@)(p) == reaches(procs, parent_pid)(p) by {
            if descends_from(procs, parent_pid, p) {
                let path = choose|path: Seq<u32>| #[trigger] is_chain(procs, parent_pid, path) && path.last() == p;
                lemma_closed_holds_chain(procs, parent_pid, visited@, path, path.len() - 1);
            }
        }
        assert(in_set(visited@) =~= reaches(procs, parent_pid));
    }
    result
}

proof fn lemma_entries_empty_set(procs: Seq<(u32, u32, String)>)
    ensures
        entries_under(procs, in_set(Set::empty())) =~= Seq::<(u32, Seq<char>)>::empty(),
    decreases procs.len(),
{
    if procs.len() > 0 {
        lemma_entries_empty_set(procs.drop_last());
    }
}

} // verus!
