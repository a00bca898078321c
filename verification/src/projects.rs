//! Adding, editing and deleting projects in the loaded project list.
//!
//! Loading and saving the list, and looking at the disk, happen outside:
//! whether a path is a directory is asked through the `is_dir` argument.

use vstd::prelude::*;
use crate::error::AppError;
use crate::models::{Info, Store};
use crate::store::{next_sort_order, now_timestamp, spec_timestamp_text};
use crate::terminals::{hyphenated_uuid, new_uuid};
use crate::text::{owned, str_eq, trim_seq};
use crate::validation::{
    name_rejection, outcome_is, path_rejection, setting_string_rejection, validate_id, validate_name, validate_path,
    MAX_ID_LENGTH, MAX_NAME_LENGTH,
};
use crate::wt_settings::answered;

verus! {

/// The label used for project names in messages.
pub open spec fn project_name_label() -> Seq<char> {
    "프로젝트 이름"@
}

/// The message for a path that is not a directory.
pub open spec fn not_a_folder_message() -> Seq<char> {
    "유효하지 않은 폴더 경로입니다"@
}

/// Why a name and path are refused before the disk is asked, if they are.
pub open spec fn input_rejection(name: Seq<char>, path: Seq<char>) -> Option<Seq<char>> {
    if name_rejection(trim_seq(name), project_name_label(), MAX_NAME_LENGTH as nat) is Some {
        name_rejection(trim_seq(name), project_name_label(), MAX_NAME_LENGTH as nat)
    } else {
        path_rejection(trim_seq(path))
    }
}

/// `r` is the sort order a new project gets among `ps` (one more than the
/// largest, or 0).
pub open spec fn is_next_sort_order(ps: Seq<Info>, r: u32) -> bool {
    &&& ps.len() == 0 ==> r == 0
    &&& ps.len() > 0 ==> (exists|i: int| 0 <= i < ps.len() && (#[trigger] ps[i]).sort_order + 1 == r)
        && (forall|i: int| 0 <= i < ps.len() ==> (#[trigger] ps[i]).sort_order < r)
}

/// Every sort order leaves room for one more.
pub open spec fn sort_orders_bounded(ps: Seq<Info>) -> bool {
    forall|i: int| 0 <= i < ps.len() ==> (#[trigger] ps[i]).sort_order < u32::MAX
}

/// Validates a new project's name and path (trimmed), checks that the path
/// is a directory, and appends the project with a fresh id, the current
/// time and the next sort order.
pub fn add_project<F: Fn(&str) -> bool>(data: &mut Store, name: &str, path: &str, is_dir: F) -> (r: Result<Info, AppError>)
    requires
        forall|s: &str| call_requires(is_dir, (s,)),
        sort_orders_bounded(old(data).projects@),
    ensures
        input_rejection(name@, path@) is Some ==> outcome_is(r, input_rejection(name@, path@)) && *final(data) == *old(data),
        input_rejection(name@, path@) is None ==> match r {
            Err(e) => outcome_is(Err::<(), AppError>(e), Some(not_a_folder_message()))
                && answered(is_dir, trim_seq(path@), false)
                && *final(data) == *old(data),
            Ok(p) => answered(is_dir, trim_seq(path@), true)
                && p.name@ == trim_seq(name@)
                && p.path@ == trim_seq(path@)
                && hyphenated_uuid(p.id@)
                && (exists|secs: u64| p.created_at@ == spec_timestamp_text(secs))
                && is_next_sort_order(old(data).projects@, p.sort_order)
                && final(data).projects@ == old(data).projects@.push(p),
        },
{
    let new_name = validate_name(name, "프로젝트 이름", MAX_NAME_LENGTH)?;
    let new_path = validate_path(path)?;
    if !is_dir(new_path.as_str()) {
        return Err(AppError::Validation(owned("유효하지 않은 폴더 경로입니다")));
    }
    let sort_order = next_sort_order(data);
    let project = Info {
        id: new_uuid(),
        name: new_name,
        path: new_path,
        created_at: now_timestamp(),
        sort_order: sort_order,
    };
    data.projects.push(project.duplicate());
    Ok(project)
}

fn find_index(ps: &Vec<Info>, id: &str) -> (r: Option<usize>)
    ensures
        match r {
            Some(i) => i < ps@.len() && ps@[i as int].id@ == id@
                && forall|j: int| 0 <= j < i ==> (#[trigger] ps@[j]).id@ != id@,
            None => forall|j: int| 0 <= j < ps@.len() ==> (#[trigger] ps@[j]).id@ != id@,
        },
{
    let mut i: usize = 0;
    while i < ps.len()
        invariant
            i <= ps@.len(),
            forall|j: int| 0 <= j < i ==> (#[trigger] ps@[j]).id@ != id@,
        decreases ps@.len() - i,
    {
        if str_eq(ps[i].id.as_str(), id) {
            return Some(i);
        }
        i = i + 1;
    }
    None
}

/// `after` is `before` with the first project of id `id` replaced by `p`,
/// which keeps that project's id, creation time and sort order.
pub open spec fn edited_at(before: Seq<Info>, after: Seq<Info>, id: Seq<char>, p: Info) -> bool {
    exists|i: int| #[trigger] is_first_with_id(before, id, i)
        && p == (Info { name: p.name, path: p.path, ..before[i] })
        && after == before.update(i, p)
}

/// Position `i` holds the first project of id `id`.
pub open spec fn is_first_with_id(ps: Seq<Info>, id: Seq<char>, i: int) -> bool {
    &&& 0 <= i < ps.len()
    &&& ps[i].id@ == id
    &&& forall|j: int| 0 <= j < i ==> (#[trigger] ps[j]).id@ != id
}

/// Why an edit is refused before the disk is asked, if it is.
pub open spec fn update_rejection(id: Seq<char>, name: Seq<char>, path: Seq<char>) -> Option<Seq<char>> {
    if setting_string_rejection(id, "id"@, MAX_ID_LENGTH as nat) is Some {
        setting_string_rejection(id, "id"@, MAX_ID_LENGTH as nat)
    } else {
        input_rejection(name, path)
    }
}

/// Validates the id, the new name and the new path (trimmed), checks that
/// the path is a directory, then gives the first project with that id the
/// new name and path; `ProjectNotFound` when no project has the id.
pub fn update_project<F: Fn(&str) -> bool>(data: &mut Store, id: &str, name: &str, path: &str, is_dir: F) -> (r: Result<Info, AppError>)
    requires
        forall|s: &str| call_requires(is_dir, (s,)),
    ensures
        update_rejection(id@, name@, path@) is Some ==> outcome_is(r, update_rejection(id@, name@, path@)) && *final(data) == *old(data),
        update_rejection(id@, name@, path@) is None && r is Err ==> *final(data) == *old(data),
        update_rejection(id@, name@, path@) is None ==> match r {
            Err(AppError::ProjectNotFound(m)) => m@ == id@ && answered(is_dir, trim_seq(path@), true)
                && forall|j: int| 0 <= j < old(data).projects@.len() ==> (#[trigger] old(data).projects@[j]).id@ != id@,
            Err(e) => answered(is_dir, trim_seq(path@), false) && outcome_is(Err::<(), AppError>(e), Some(not_a_folder_message())),
            Ok(p) => answered(is_dir, trim_seq(path@), true)
                && p.name@ == trim_seq(name@)
                && p.path@ == trim_seq(path@)
                && edited_at(old(data).projects@, final(data).projects@, id@, p),
        },
{
    validate_id(id, "id")?;
    let new_name = validate_name(name, "프로젝트 이름", MAX_NAME_LENGTH)?;
    let new_path = validate_path(path)?;
    let found = is_dir(new_path.as_str());
    assert(answered(is_dir, trim_seq(path@), found));
    if !found {
        return Err(AppError::Validation(owned("유효하지 않은 폴더 경로입니다")));
    }
    match find_index(&data.projects, id) {
        None => {
            assert(answered(is_dir, trim_seq(path@), true));
            Err(AppError::ProjectNotFound(owned(id)))
        },
        Some(i) => {
            let old_p = data.projects[i].duplicate();
            let p = Info {
                id: old_p.id,
                name: new_name,
                path: new_path,
                created_at: old_p.created_at,
                sort_order: old_p.sort_order,
            };
            let ghost before = data.projects@;
            data.projects.set(i, p.duplicate());
            proof {
                assert(before[i as int].id@ == id@);
                assert(p == (Info { name: p.name, path: p.path, ..before[i as int] }));
                assert(data.projects@ == before.update(i as int, p));
                assert(p.name@ == trim_seq(name@));
                assert(p.path@ == trim_seq(path@));
                assert(before == old(data).projects@);
                assert(is_first_with_id(before, id@, i as int));
                assert(edited_at(before, data.projects@, id@, p));
            }
            Ok(p)
        },
    }
}

/// The projects whose id is not `id`, in order.
pub open spec fn without_id(ps: Seq<Info>, id: Seq<char>) -> Seq<Info>
    decreases ps.len(),
{
    if ps.len() == 0 {
        ps
    } else {
        let a = without_id(ps.drop_last(), id);
        if ps.last().id@ == id { a } else { a.push(ps.last()) }
    }
}

proof fn lemma_without_id_len(ps: Seq<Info>, id: Seq<char>)
    ensures
        without_id(ps, id).len() <= ps.len(),
        without_id(ps, id).len() == ps.len() <==> forall|j: int| 0 <= j < ps.len() ==> (#[trigger] ps[j]).id@ != id,
    decreases ps.len(),
{
    if ps.len() > 0 {
        let d = ps.drop_last();
        lemma_without_id_len(d, id);
        if ps.last().id@ != id {
            assert forall|j: int| 0 <= j < ps.len() implies (#[trigger] ps[j]).id@ != id <== (forall|k: int| 0 <= k < d.len() ==> (#[trigger] d[k]).id@ != id) by {
                if j < d.len() {
                    assert(ps[j] == d[j]);
                }
            }
            if forall|j: int| 0 <= j < ps.len() ==> (#[trigger] ps[j]).id@ != id {
                assert forall|k: int| 0 <= k < d.len() implies (#[trigger] d[k]).id@ != id by {
                    assert(d[k] == ps[k]);
                }
            }
        } else {
            assert(ps[ps.len() - 1].id@ == id);
        }
    }
}

/// Deletes every project with the id; `ProjectNotFound` when none has it.
pub fn delete_project(data: &mut Store, id: &str) -> (r: Result<bool, AppError>)
    ensures
        setting_string_rejection(id@, "id"@, MAX_ID_LENGTH as nat) is Some ==> outcome_is(r, setting_string_rejection(id@, "id"@, MAX_ID_LENGTH as nat))
            && *final(data) == *old(data),
        setting_string_rejection(id@, "id"@, MAX_ID_LENGTH as nat) is None ==> (
            if forall|j: int| 0 <= j < old(data).projects@.len() ==> (#[trigger] old(data).projects@[j]).id@ != id@ {
                (r matches Err(AppError::ProjectNotFound(m)) && m@ == id@) && *final(data) == *old(data)
            } else {
                (r matches Ok(b) && b) && final(data).projects@ == without_id(old(data).projects@, id@)
            }),
{
    validate_id(id, "id")?;
    let ghost ps = data.projects@;
    let mut kept: Vec<Info> = Vec::new();
    let mut i: usize = 0;
    assert(ps.take(0) =~= Seq::<Info>::empty());
    while i < data.projects.len()
        invariant
            ps == data.projects@,
            i <= ps.len(),
            kept@ == without_id(ps.take(i as int), id@),
        decreases ps.len() - i,
    {
        proof {
            assert(ps.take(i + 1).drop_last() =~= ps.take(i as int));
            assert(ps.take(i + 1).last() == ps[i as int]);
        }
        if !str_eq(data.projects[i].id.as_str(), id) {
            kept.push(data.projects[i].duplicate());
        }
        i = i + 1;
    }
    assert(ps.take(i as int) =~= ps);
    proof { lemma_without_id_len(ps, id@); }
    if kept.len() == data.projects.len() {
        return Err(AppError::ProjectNotFound(owned(id)));
    }
    data.projects = kept;
    Ok(true)
}

} // verus!
