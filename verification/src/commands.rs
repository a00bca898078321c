//! Checks and command lines behind the UI's terminal commands, and the
//! reminders that go with closing terminals.

use vstd::prelude::*;
use crate::error::AppError;
use crate::reminder::{lemma_without, without, Reminder};
use crate::monitor::{closed_ids, is_closed, law_closed_terminals_leave, law_open_terminals_stay, round_registry, Observation};
use crate::terminals::registry_wf;
use crate::terminals::{index_of, Manager, TerminalView};
use crate::text::{byte_len, concat, owned, usize_to_decimal, decimal};
use crate::validation::{has_control, outcome_is, setting_string_rejection, validate_id, validate_text_chars, MAX_ID_LENGTH};

verus! {

/// Longest terminal name accepted by a rename, in bytes.
pub const MAX_TERMINAL_NAME_LENGTH: usize = 50;
/// Longest tab title accepted when attaching a tab, in bytes.
pub const MAX_TAB_TITLE_LENGTH: usize = 200;
/// The program that opens Windows Terminal tabs.
pub const ALLOWED_TERMINAL_EXE: &'static str = "wt.exe";

/// Why a rename request is refused, if it is: a bad terminal id, a name
/// that is empty or longer than 50 bytes, or a name with a control
/// character.
pub open spec fn rename_request_rejection(terminal_id: Seq<char>, new_name: Seq<char>) -> Option<Seq<char>> {
    if setting_string_rejection(terminal_id, "terminal_id"@, MAX_ID_LENGTH as nat) is Some {
        setting_string_rejection(terminal_id, "terminal_id"@, MAX_ID_LENGTH as nat)
    } else if new_name.len() == 0 || byte_len(new_name) > MAX_TERMINAL_NAME_LENGTH {
        Some("터미널 이름은 1~50자여야 합니다"@)
    } else if has_control(new_name) {
        Some("터미널 이름에 허용되지 않는 제어 문자가 포함되어 있습니다"@)
    } else {
        None
    }
}

/// Checks a rename request (see `rename_request_rejection`).
pub fn validate_rename_request(terminal_id: &str, new_name: &str) -> (r: Result<(), AppError>)
    ensures
        outcome_is(r, rename_request_rejection(terminal_id@, new_name@)),
{
    validate_id(terminal_id, "terminal_id")?;
    if new_name.unicode_len() == 0 || new_name.len() > MAX_TERMINAL_NAME_LENGTH {
        proof { reveal_strlit("터미널 이름은 1~"); reveal_strlit("자여야 합니다"); }
        let n = usize_to_decimal(MAX_TERMINAL_NAME_LENGTH);
        let head = concat("터미널 이름은 1~", n.as_str());
        let msg = concat(head.as_str(), "자여야 합니다");
        proof {
            reveal_strlit("터미널 이름은 1~50자여야 합니다");
            assert(decimal(50) == seq!['5', '0']) by {
                reveal_with_fuel(decimal, 3);
            }
            assert(msg@ =~= "터미널 이름은 1~50자여야 합니다"@);
        }
        return Err(AppError::Validation(msg));
    }
    let r = validate_text_chars(new_name, "터미널 이름");
    proof {
        reveal_strlit("터미널 이름");
        reveal_strlit("에 허용되지 않는 제어 문자가 포함되어 있습니다");
        reveal_strlit("터미널 이름에 허용되지 않는 제어 문자가 포함되어 있습니다");
        assert("터미널 이름"@ + "에 허용되지 않는 제어 문자가 포함되어 있습니다"@ =~= "터미널 이름에 허용되지 않는 제어 문자가 포함되어 있습니다"@);
    }
    r
}

/// Most project ids a reorder request may carry.
pub const MAX_PROJECT_IDS_COUNT: usize = 1000;

/// The refusal of the first bad id from position `i` on, if any.
pub open spec fn first_id_rejection(ids: Seq<Seq<char>>, i: int) -> Option<Seq<char>>
    decreases ids.len() - i,
{
    if i < 0 || i >= ids.len() {
        None
    } else if setting_string_rejection(ids[i], "project_id"@, MAX_ID_LENGTH as nat) is Some {
        setting_string_rejection(ids[i], "project_id"@, MAX_ID_LENGTH as nat)
    } else {
        first_id_rejection(ids, i + 1)
    }
}

/// Why a reorder request is refused, if it is: more than 1000 ids, or the
/// first id that is not a valid id.
pub open spec fn reorder_request_rejection(ids: Seq<Seq<char>>) -> Option<Seq<char>> {
    if ids.len() > MAX_PROJECT_IDS_COUNT {
        Some("project_ids 배열이 너무 깁니다 (최대 1000개)"@)
    } else {
        first_id_rejection(ids, 0)
    }
}

/// Checks a reorder request (see `reorder_request_rejection`).
pub fn validate_reorder_request(project_ids: &Vec<String>) -> (r: Result<(), AppError>)
    ensures
        outcome_is(r, reorder_request_rejection(strings_view(project_ids@))),
{
    let ghost ids = strings_view(project_ids@);
    if project_ids.len() > MAX_PROJECT_IDS_COUNT {
        let n = usize_to_decimal(MAX_PROJECT_IDS_COUNT);
        let head = concat("project_ids 배열이 너무 깁니다 (최대 ", n.as_str());
        let msg = concat(head.as_str(), "개)");
        proof {
            reveal_strlit("project_ids 배열이 너무 깁니다 (최대 ");
            reveal_strlit("개)");
            reveal_strlit("project_ids 배열이 너무 깁니다 (최대 1000개)");
            assert(decimal(1000) == seq!['1', '0', '0', '0']) by {
                reveal_with_fuel(decimal, 5);
            }
            assert(msg@ =~= "project_ids 배열이 너무 깁니다 (최대 1000개)"@);
        }
        return Err(AppError::Validation(msg));
    }
    let mut i: usize = 0;
    while i < project_ids.len()
        invariant
            ids == strings_view(project_ids@),
            ids.len() <= MAX_PROJECT_IDS_COUNT,
            i <= ids.len(),
            first_id_rejection(ids, 0) == first_id_rejection(ids, i as int),
        decreases ids.len() - i,
    {
        assert(ids[i as int] == project_ids@[i as int]@);
        let r = validate_id(project_ids[i].as_str(), "project_id");
        if r.is_err() {
            return r;
        }
        i = i + 1;
    }
    Ok(())
}

/// Why a request to attach (or import) an outside tab is refused, if it
/// is: a bad project id, a null window handle, an empty runtime id, a title
/// that is empty or longer than 200 bytes, or a title with a control
/// character.
pub open spec fn attach_request_rejection(project_id: Seq<char>, hwnd: isize, runtime_id: Seq<i32>, tab_title: Seq<char>) -> Option<Seq<char>> {
    if setting_string_rejection(project_id, "project_id"@, MAX_ID_LENGTH as nat) is Some {
        setting_string_rejection(project_id, "project_id"@, MAX_ID_LENGTH as nat)
    } else if hwnd == 0 {
        Some("hwnd는 0일 수 없습니다"@)
    } else if runtime_id.len() == 0 {
        Some("runtime_id는 비어 있을 수 없습니다"@)
    } else if tab_title.len() == 0 || byte_len(tab_title) > MAX_TAB_TITLE_LENGTH {
        Some("탭 타이틀은 1~200자여야 합니다"@)
    } else if has_control(tab_title) {
        Some("탭 타이틀에 허용되지 않는 제어 문자가 포함되어 있습니다"@)
    } else {
        None
    }
}

/// Checks a request to attach an outside tab (see `attach_request_rejection`).
pub fn validate_attach_request(project_id: &str, hwnd: isize, runtime_id: &Vec<i32>, tab_title: &str) -> (r: Result<(), AppError>)
    ensures
        outcome_is(r, attach_request_rejection(project_id@, hwnd, runtime_id@, tab_title@)),
{
    validate_id(project_id, "project_id")?;
    if hwnd == 0 {
        return Err(AppError::Validation(owned("hwnd는 0일 수 없습니다")));
    }
    if runtime_id.len() == 0 {
        return Err(AppError::Validation(owned("runtime_id는 비어 있을 수 없습니다")));
    }
    if tab_title.unicode_len() == 0 || tab_title.len() > MAX_TAB_TITLE_LENGTH {
        let n = usize_to_decimal(MAX_TAB_TITLE_LENGTH);
        let head = concat("탭 타이틀은 1~", n.as_str());
        let msg = concat(head.as_str(), "자여야 합니다");
        proof {
            reveal_strlit("탭 타이틀은 1~");
            reveal_strlit("자여야 합니다");
            reveal_strlit("탭 타이틀은 1~200자여야 합니다");
            assert(decimal(200) == seq!['2', '0', '0']) by {
                reveal_with_fuel(decimal, 4);
            }
            assert(msg@ =~= "탭 타이틀은 1~200자여야 합니다"@);
        }
        return Err(AppError::Validation(msg));
    }
    let r = validate_text_chars(tab_title, "탭 타이틀");
    proof {
        reveal_strlit("탭 타이틀");
        reveal_strlit("에 허용되지 않는 제어 문자가 포함되어 있습니다");
        reveal_strlit("탭 타이틀에 허용되지 않는 제어 문자가 포함되어 있습니다");
        assert("탭 타이틀"@ + "에 허용되지 않는 제어 문자가 포함되어 있습니다"@ =~= "탭 타이틀에 허용되지 않는 제어 문자가 포함되어 있습니다"@);
    }
    r
}

/// What the file system said of a project path.
#[derive(Debug)]
pub enum PathKind {
    Directory,
    NotDirectory,
    /// Nothing is at the path; the message is the system's.
    Missing(String),
    /// The path could not be examined; the message says why.
    Unreadable(String),
}

/// Checks, before a terminal is opened from the UI, that the project path
/// is a directory: a validation error names a path that is not a directory
/// or does not exist; other failures are I/O errors.
pub fn check_project_dir(path: &str, kind: &PathKind) -> (r: Result<(), AppError>)
    ensures
        match kind {
            PathKind::Directory => r is Ok,
            PathKind::NotDirectory => outcome_is(r, Some("프로젝트 경로가 디렉터리가 아닙니다: "@ + path@)),
            PathKind::Missing(_) => outcome_is(r, Some("프로젝트 경로를 찾을 수 없습니다: "@ + path@)),
            PathKind::Unreadable(m) => r matches Err(AppError::Io(e)) && e@ == m@,
        },
{
    match kind {
        PathKind::Directory => Ok(()),
        PathKind::NotDirectory => Err(AppError::Validation(concat("프로젝트 경로가 디렉터리가 아닙니다: ", path))),
        PathKind::Missing(_) => Err(AppError::Validation(concat("프로젝트 경로를 찾을 수 없습니다: ", path))),
        PathKind::Unreadable(m) => Err(AppError::Io(m.clone())),
    }
}

/// Checks, when the terminal itself is opened, that the project path is a
/// directory: "Not a directory" for a path that is something else; any
/// failure to examine it (a missing path included) is an I/O error with the
/// system's message.
pub fn check_launch_dir(path: &str, kind: &PathKind) -> (r: Result<(), AppError>)
    ensures
        match kind {
            PathKind::Directory => r is Ok,
            PathKind::NotDirectory => outcome_is(r, Some("Not a directory: "@ + path@)),
            PathKind::Missing(m) => r matches Err(AppError::Io(e)) && e@ == m@,
            PathKind::Unreadable(m) => r matches Err(AppError::Io(e)) && e@ == m@,
        },
{
    match kind {
        PathKind::Directory => Ok(()),
        PathKind::NotDirectory => Err(AppError::Validation(concat("Not a directory: ", path))),
        PathKind::Missing(m) => Err(AppError::Io(m.clone())),
        PathKind::Unreadable(m) => Err(AppError::Io(m.clone())),
    }
}

/// The Windows Terminal window that holds a project's tabs.
pub open spec fn spec_window_name(project_id: Seq<char>) -> Seq<char> {
    "termi_"@ + project_id
}

/// The title of a tab opened for a project.
pub open spec fn spec_tab_title(project_name: Seq<char>) -> Seq<char> {
    "termi: "@ + project_name
}

pub open spec fn strings_view(v: Seq<String>) -> Seq<Seq<char>> {
    v.map_values(|s: String| s@)
}

/// Arguments of `wt.exe` that open a new tab for a project in the
/// project's window, titled after the project, in the project folder.
pub fn launch_args(project_id: &str, project_name: &str, project_path: &str) -> (r: Vec<String>)
    ensures
        strings_view(r@) == seq![
            "-w"@, spec_window_name(project_id@), "nt"@, "--title"@, spec_tab_title(project_name@), "-d"@, project_path@,
        ],
{
    let mut r: Vec<String> = Vec::new();
    r.push(owned("-w"));
    r.push(concat("termi_", project_id));
    r.push(owned("nt"));
    r.push(owned("--title"));
    r.push(concat("termi: ", project_name));
    r.push(owned("-d"));
    r.push(owned(project_path));
    assert(strings_view(r@) =~= seq![
        "-w"@, spec_window_name(project_id@), "nt"@, "--title"@, spec_tab_title(project_name@), "-d"@, project_path@,
    ]);
    r
}

/// Arguments of `wt.exe` that bring the tab at `index` of a project's
/// window to the front.
pub fn focus_tab_args(project_id: &str, index: usize) -> (r: Vec<String>)
    ensures
        strings_view(r@) == seq!["-w"@, spec_window_name(project_id@), "focus-tab"@, "-t"@, decimal(index as nat)],
{
    let mut r: Vec<String> = Vec::new();
    r.push(owned("-w"));
    r.push(concat("termi_", project_id));
    r.push(owned("focus-tab"));
    r.push(owned("-t"));
    r.push(usize_to_decimal(index));
    assert(strings_view(r@) =~= seq!["-w"@, spec_window_name(project_id@), "focus-tab"@, "-t"@, decimal(index as nat)]);
    r
}

// ---------------------------------------------------------------------------
// Reminders of closed terminals.
// ---------------------------------------------------------------------------

/// `s` without the entries equal to any of `xs`.
pub open spec fn without_all(s: Seq<Seq<char>>, xs: Seq<Seq<char>>) -> Seq<Seq<char>>
    decreases xs.len(),
{
    if xs.len() == 0 {
        s
    } else {
        without(without_all(s, xs.drop_last()), xs.last())
    }
}

/// Nothing that `xs` names is left after removing all of `xs`.
proof fn lemma_without_all_excludes(s: Seq<Seq<char>>, xs: Seq<Seq<char>>)
    ensures
        forall|k: int| 0 <= k < xs.len() ==> !without_all(s, xs).contains(#[trigger] xs[k]),
    decreases xs.len(),
{
    if xs.len() > 0 {
        let d = xs.drop_last();
        lemma_without_all_excludes(s, d);
        lemma_without(without_all(s, d), xs.last());
        assert forall|k: int| 0 <= k < xs.len() implies !without_all(s, xs).contains(#[trigger] xs[k]) by {
            if k < xs.len() - 1 {
                assert(xs[k] == d[k]);
            }
        }
    }
}

/// One poll of the title watch closes terminals completely: every terminal
/// the round (`monitor_step`) reports closed has left the registry and, once
/// the reminders of the closed terminals are stopped
/// (`stop_reminders_for_closed`), has no reminder running; every terminal
/// the round does not close (its window is alive and, when the window's
/// tabs were listed, its tab is among them) stays.
pub proof fn law_poll_closes_terminals(
    ts: Seq<TerminalView>,
    ob: Observation,
    prev: Seq<(isize, Seq<Seq<char>>)>,
    active: Seq<Seq<char>>,
)
    requires
        registry_wf(ts),
    ensures
        forall|x: int| 0 <= x < closed_ids(ts, ob, ts.len() as int).len() ==> {
            &&& forall|j: int| 0 <= j < round_registry(ts, ob, prev).len() ==>
                (#[trigger] round_registry(ts, ob, prev)[j]).instance.id != closed_ids(ts, ob, ts.len() as int)[x]
            &&& !without_all(active, closed_ids(ts, ob, ts.len() as int)).contains(#[trigger] closed_ids(ts, ob, ts.len() as int)[x])
        },
        forall|k: int| 0 <= k < ts.len() && !is_closed(#[trigger] ts[k], ob.tabs, ob.dead) ==>
            exists|j: int| 0 <= j < round_registry(ts, ob, prev).len()
                && (#[trigger] round_registry(ts, ob, prev)[j]).instance.id == ts[k].instance.id,
{
    let closed = closed_ids(ts, ob, ts.len() as int);
    lemma_without_all_excludes(active, closed);
    assert forall|x: int| 0 <= x < closed.len() implies {
        &&& forall|j: int| 0 <= j < round_registry(ts, ob, prev).len() ==>
            (#[trigger] round_registry(ts, ob, prev)[j]).instance.id != closed[x]
        &&& !without_all(active, closed).contains(#[trigger] closed[x])
    } by {
        law_closed_terminals_leave(ts, ob, prev, x);
    }
    assert forall|k: int| 0 <= k < ts.len() && !is_closed(#[trigger] ts[k], ob.tabs, ob.dead) implies
        exists|j: int| 0 <= j < round_registry(ts, ob, prev).len()
            && (#[trigger] round_registry(ts, ob, prev)[j]).instance.id == ts[k].instance.id by {
        law_open_terminals_stay(ts, ob, prev, k);
    }
}

/// Stops the reminders of the terminals found closed.
pub fn stop_reminders_for_closed(reminder: &mut Reminder, closed_ids: &Vec<String>)
    requires
        old(reminder).wf(),
    ensures
        final(reminder).wf(),
        final(reminder).spec_active() == without_all(old(reminder).spec_active(), strings_view(closed_ids@)),
        final(reminder).spec_enabled() == old(reminder).spec_enabled(),
{
    let ghost ids = strings_view(closed_ids@);
    let mut i: usize = 0;
    assert(ids.take(0) =~= Seq::<Seq<char>>::empty());
    while i < closed_ids.len()
        invariant
            ids == strings_view(closed_ids@),
            i <= closed_ids@.len(),
            reminder.wf(),
            reminder.spec_active() == without_all(old(reminder).spec_active(), ids.take(i as int)),
            reminder.spec_enabled() == old(reminder).spec_enabled(),
        decreases closed_ids@.len() - i,
    {
        proof {
            assert(ids.take(i + 1).drop_last() =~= ids.take(i as int));
            assert(ids.take(i + 1).last() == ids[i as int]);
        }
        let _ = reminder.stop_reminder(closed_ids[i].as_str());
        i = i + 1;
    }
    assert(ids.take(i as int) =~= ids);
}

/// Removes a terminal from the registry and stops its reminder.
pub fn close_and_stop_reminder(manager: &mut Manager, reminder: &mut Reminder, terminal_id: &str)
    requires
        old(manager).wf(),
        old(reminder).wf(),
    ensures
        final(manager).wf(),
        final(reminder).wf(),
        match index_of(old(manager).spec_terminals(), terminal_id@) {
            Some(i) => final(manager).spec_terminals() == old(manager).spec_terminals().remove(i),
            None => final(manager).spec_terminals() == old(manager).spec_terminals(),
        },
        final(reminder).spec_active() == without(old(reminder).spec_active(), terminal_id@),
{
    manager.remove(terminal_id);
    let _ = reminder.stop_reminder(terminal_id);
}

} // verus!
