//! Matching the tabs of outside terminal windows to projects, and choosing
//! which tabs are not managed yet.

use vstd::prelude::*;
use crate::error::AppError;
use crate::models::{ExternalTerminalInfo, Info, Instance, TabInfo};
use crate::monitor::{copy_tab_info, rid_eq, tab_view, tabs_view, TabView};
use crate::text::{
    chars_of, concat, contains_seq, lowercase, owned, replace_char, replace_char_seq, starts_with_seq,
    str_contains, str_eq, str_starts_with, string_from_range, to_lowercase, trim, trim_seq,
};
use crate::terminals::{
    attach_rejection, attached_terminal, count_project, has_room, hyphenated_uuid, next_tab, registry_wf,
    spec_insert, spec_new_instance, terminals_view, InstanceView, Manager, TerminalView, TITLE_PREFIX,
};
use crate::validation::outcome_is;
use crate::store::is_timestamp;

verus! {

/// The title of a tab opened by the application for the project, once the
/// prefix is removed and the rest trimmed, begins with the project's name.
pub open spec fn prefix_name_match(title: Seq<char>, p: Info) -> bool {
    starts_with_seq(title, TITLE_PREFIX@)
        && starts_with_seq(trim_seq(title.subrange(TITLE_PREFIX@.len() as int, title.len() as int)), p.name@)
}

/// The tab title contains the project path, ignoring case.
pub open spec fn path_in_title(title: Seq<char>, p: Info) -> bool {
    contains_seq(lowercase(title), lowercase(p.path@))
}

/// A path lowercased with '/' read as '\'.
pub open spec fn folded_path(s: Seq<char>) -> Seq<char> {
    replace_char_seq(lowercase(s), '/', '\\')
}

/// A shell's working directory is the project folder or inside it.
pub open spec fn cwd_in_project(cwd: Seq<char>, p: Info) -> bool {
    let c = folded_path(cwd);
    let q = folded_path(p.path@);
    c == q || starts_with_seq(c, q + seq!['\\'])
}

/// The matching rule of `kind`: 0, by name after the application's prefix;
/// 1, by path in the title; 2, by a shell's working directory.
pub open spec fn project_pred(kind: int, title: Seq<char>, cwd: Seq<char>, p: Info) -> bool {
    if kind == 0 {
        prefix_name_match(title, p)
    } else if kind == 1 {
        path_in_title(title, p)
    } else {
        cwd_in_project(cwd, p)
    }
}

/// The first project matched by rule `kind`.
pub open spec fn first_project(ps: Seq<Info>, kind: int, title: Seq<char>, cwd: Seq<char>) -> Option<int>
    decreases ps.len(),
{
    if ps.len() == 0 {
        None
    } else if project_pred(kind, title, cwd, ps[0]) {
        Some(0)
    } else {
        match first_project(ps.drop_first(), kind, title, cwd) {
            Some(i) => Some(i + 1),
            None => None,
        }
    }
}

proof fn lemma_first_project(ps: Seq<Info>, kind: int, title: Seq<char>, cwd: Seq<char>, i: int)
    requires
        0 <= i <= ps.len(),
        forall|j: int| 0 <= j < i ==> !project_pred(kind, title, cwd, #[trigger] ps[j]),
        i < ps.len() ==> project_pred(kind, title, cwd, ps[i]),
    ensures
        first_project(ps, kind, title, cwd) == (if i < ps.len() { Some(i) } else { None::<int> }),
    decreases ps.len(),
{
    if ps.len() > 0 && i > 0 {
        let d = ps.drop_first();
        assert forall|j: int| 0 <= j < i - 1 implies !project_pred(kind, title, cwd, #[trigger] d[j]) by {
            assert(d[j] == ps[j + 1]);
        }
        if i < ps.len() {
            assert(d[i - 1] == ps[i]);
        }
        lemma_first_project(d, kind, title, cwd, i - 1);
    }
}

/// The project a tab belongs to by its title, and whether it matched by the
/// application's prefix: first by name after "termi: ", then by path.
pub open spec fn spec_match_tab(title: Seq<char>, ps: Seq<Info>) -> Option<(int, bool)> {
    if starts_with_seq(title, TITLE_PREFIX@) && first_project(ps, 0, title, Seq::empty()) is Some {
        Some((first_project(ps, 0, title, Seq::empty()).unwrap(), true))
    } else if first_project(ps, 1, title, Seq::empty()) is Some {
        Some((first_project(ps, 1, title, Seq::empty()).unwrap(), false))
    } else {
        None
    }
}

/// The text of each string.
pub open spec fn string_views(v: Seq<String>) -> Seq<Seq<char>> {
    v.map_values(|c: String| c@)
}

/// The first working directory that lies in some project, with that project.
pub open spec fn first_cwd_match(cwds: Seq<Seq<char>>, ps: Seq<Info>) -> Option<int>
    decreases cwds.len(),
{
    if cwds.len() == 0 {
        None
    } else if first_project(ps, 2, Seq::empty(), cwds[0]) is Some {
        first_project(ps, 2, Seq::empty(), cwds[0])
    } else {
        first_cwd_match(cwds.drop_first(), ps)
    }
}

/// The project a tab belongs to by title, or else by the working directories
/// of the window's shells.
pub open spec fn spec_match_tab_with_cwds(title: Seq<char>, ps: Seq<Info>, cwds: Seq<Seq<char>>) -> Option<(int, bool)> {
    if spec_match_tab(title, ps) is Some {
        spec_match_tab(title, ps)
    } else {
        match first_cwd_match(cwds, ps) {
            Some(i) => Some((i, false)),
            None => None,
        }
    }
}

/// Whether a project matches a title or directory by rule `kind`.
fn project_matches(kind: u8, title: &str, title_rest: &str, title_lower: &str, cwd_folded: &str, p: &Info) -> (r: bool)
    requires
        kind <= 2,
        kind == 0 ==> starts_with_seq(title@, TITLE_PREFIX@) && title_rest@ == trim_seq(title@.subrange(TITLE_PREFIX@.len() as int, title@.len() as int)),
        kind == 1 ==> title_lower@ == lowercase(title@),
    ensures
        kind == 0 ==> r == project_pred(0, title@, Seq::empty(), *p),
        kind == 1 ==> r == project_pred(1, title@, Seq::empty(), *p),
        kind == 2 ==> (r == (cwd_folded@ == folded_path(p.path@) || starts_with_seq(cwd_folded@, folded_path(p.path@) + seq!['\\']))),
{
    if kind == 0 {
        str_starts_with(title_rest, p.name.as_str())
    } else if kind == 1 {
        let pl = to_lowercase(p.path.as_str());
        str_contains(title_lower, pl.as_str())
    } else {
        let pl = to_lowercase(p.path.as_str());
        let q = replace_char(pl.as_str(), '/', '\\');
        if str_eq(cwd_folded, q.as_str()) {
            return true;
        }
        let qs = concat(q.as_str(), "\\");
        proof {
            reveal_strlit("\\");
            assert(qs@ =~= q@ + seq!['\\']);
        }
        str_starts_with(cwd_folded, qs.as_str())
    }
}

/// The title once the application's prefix is removed, trimmed.
fn prefix_rest(title: &str) -> (r: String)
    requires
        starts_with_seq(title@, TITLE_PREFIX@),
    ensures
        r@ == trim_seq(title@.subrange(TITLE_PREFIX@.len() as int, title@.len() as int)),
{
    let v = chars_of(title);
    let p = chars_of(TITLE_PREFIX);
    let rest = string_from_range(&v, p.len(), v.len());
    trim(rest.as_str())
}

/// Matches a tab title to a project: a tab titled "termi: <name>..." goes to
/// the first project whose name begins the trimmed rest of the title
/// (reported as a prefixed tab); otherwise a tab whose title contains a
/// project's path, ignoring case, goes to the first such project.
pub fn match_tab_to_project(tab_title: &str, projects: &Vec<Info>) -> (r: Option<(Info, bool)>)
    ensures
        match spec_match_tab(tab_title@, projects@) {
            Some((i, b)) => r matches Some((p, b2)) && p == projects@[i] && b2 == b,
            None => r is None,
        },
{
    match match_tab_index(tab_title, projects) {
        Some((i, b)) => Some((projects[i].duplicate(), b)),
        None => None,
    }
}

/// Position of the project a tab belongs to by its title (see
/// `match_tab_to_project`), and whether it matched by the prefix.
pub fn match_tab_index(tab_title: &str, projects: &Vec<Info>) -> (r: Option<(usize, bool)>)
    ensures
        match spec_match_tab(tab_title@, projects@) {
            Some((i, b)) => r matches Some((k, b2)) && k == i && b2 == b && k < projects@.len(),
            None => r is None,
        },
{
    proof { lemma_first_project_bounds(projects@, tab_title@); }
    if str_starts_with(tab_title, TITLE_PREFIX) {
        let rest = prefix_rest(tab_title);
        let mut i: usize = 0;
        while i < projects.len()
            invariant
                starts_with_seq(tab_title@, TITLE_PREFIX@),
                rest@ == trim_seq(tab_title@.subrange(TITLE_PREFIX@.len() as int, tab_title@.len() as int)),
                i <= projects@.len(),
                forall|j: int| 0 <= j < i ==> !project_pred(0, tab_title@, Seq::empty(), #[trigger] projects@[j]),
            decreases projects@.len() - i,
        {
            if project_matches(0, tab_title, rest.as_str(), "", "", &projects[i]) {
                proof { lemma_first_project(projects@, 0, tab_title@, Seq::empty(), i as int); }
                return Some((i, true));
            }
            i = i + 1;
        }
        proof { lemma_first_project(projects@, 0, tab_title@, Seq::empty(), i as int); }
    }
    let lower = to_lowercase(tab_title);
    let mut i: usize = 0;
    while i < projects.len()
        invariant
            lower@ == lowercase(tab_title@),
            starts_with_seq(tab_title@, TITLE_PREFIX@) ==> first_project(projects@, 0, tab_title@, Seq::empty()) is None,
            i <= projects@.len(),
            forall|j: int| 0 <= j < i ==> !project_pred(1, tab_title@, Seq::empty(), #[trigger] projects@[j]),
        decreases projects@.len() - i,
    {
        if project_matches(1, tab_title, "", lower.as_str(), "", &projects[i]) {
            proof { lemma_first_project(projects@, 1, tab_title@, Seq::empty(), i as int); }
            return Some((i, false));
        }
        i = i + 1;
    }
    proof { lemma_first_project(projects@, 1, tab_title@, Seq::empty(), i as int); }
    None
}

proof fn lemma_first_project_bounds(ps: Seq<Info>, title: Seq<char>)
    ensures
        first_project(ps, 0, title, Seq::empty()) matches Some(i) ==> 0 <= i < ps.len(),
        first_project(ps, 1, title, Seq::empty()) matches Some(i) ==> 0 <= i < ps.len(),
{
    lemma_first_project_range(ps, 0, title, Seq::empty());
    lemma_first_project_range(ps, 1, title, Seq::empty());
}

proof fn lemma_first_project_range(ps: Seq<Info>, kind: int, title: Seq<char>, cwd: Seq<char>)
    ensures
        first_project(ps, kind, title, cwd) matches Some(i) ==> 0 <= i < ps.len(),
    decreases ps.len(),
{
    if ps.len() > 0 {
        lemma_first_project_range(ps.drop_first(), kind, title, cwd);
    }
}

proof fn lemma_first_cwd_range(cwds: Seq<Seq<char>>, ps: Seq<Info>)
    ensures
        first_cwd_match(cwds, ps) matches Some(i) ==> 0 <= i < ps.len(),
    decreases cwds.len(),
{
    if cwds.len() > 0 {
        lemma_first_project_range(ps, 2, Seq::empty(), cwds[0]);
        lemma_first_cwd_range(cwds.drop_first(), ps);
    }
}

/// Matches a tab to a project by its title (see `match_tab_to_project`), or
/// else by the working directories of the window's shells: the first
/// directory that is a project folder or lies inside one (ignoring case and
/// reading '/' as '\') gives the first such project.
pub fn match_tab_to_project_with_cwds(tab_title: &str, projects: &Vec<Info>, cwds: &Vec<String>) -> (r: Option<(Info, bool)>)
    ensures
        match spec_match_tab_with_cwds(tab_title@, projects@, string_views(cwds@)) {
            Some((i, b)) => r matches Some((p, b2)) && p == projects@[i] && b2 == b,
            None => r is None,
        },
{
    match match_tab_index_with_cwds(tab_title, projects, cwds) {
        Some((i, b)) => Some((projects[i].duplicate(), b)),
        None => None,
    }
}

/// Position of the project a tab belongs to by its title or its window's
/// shell folders (see `match_tab_to_project_with_cwds`), and whether it
/// matched by the prefix.
pub fn match_tab_index_with_cwds(tab_title: &str, projects: &Vec<Info>, cwds: &Vec<String>) -> (r: Option<(usize, bool)>)
    ensures
        match spec_match_tab_with_cwds(tab_title@, projects@, string_views(cwds@)) {
            Some((i, b)) => r matches Some((k, b2)) && k == i && b2 == b && k < projects@.len(),
            None => r is None,
        },
{
    let by_title = match_tab_index(tab_title, projects);
    if by_title.is_some() {
        return by_title;
    }
    let ghost cv = string_views(cwds@);
    let mut k: usize = 0;
    assert(cv.subrange(0, cv.len() as int) =~= cv);
    while k < cwds.len()
        invariant
            cv == string_views(cwds@),
            spec_match_tab(tab_title@, projects@) is None,
            k <= cwds@.len(),
            first_cwd_match(cv, projects@) == first_cwd_match(cv.subrange(k as int, cv.len() as int), projects@),
        decreases cwds@.len() - k,
    {
        let lower = to_lowercase(cwds[k].as_str());
        let folded = replace_char(lower.as_str(), '/', '\\');
        let mut i: usize = 0;
        while i < projects.len()
            invariant
                folded@ == folded_path(cv[k as int]),
                cv == string_views(cwds@),
                spec_match_tab(tab_title@, projects@) is None,
                first_cwd_match(cv, projects@) == first_cwd_match(cv.subrange(k as int, cv.len() as int), projects@),
                k < cv.len(),
                i <= projects@.len(),
                forall|j: int| 0 <= j < i ==> !project_pred(2, Seq::empty(), cv[k as int], #[trigger] projects@[j]),
            decreases projects@.len() - i,
        {
            if project_matches(2, "", "", "", folded.as_str(), &projects[i]) {
                proof {
                    lemma_first_project(projects@, 2, Seq::empty(), cv[k as int], i as int);
                    let s = cv.subrange(k as int, cv.len() as int);
                    assert(s[0] == cv[k as int]);
                }
                return Some((i, false));
            }
            i = i + 1;
        }
        proof {
            lemma_first_project(projects@, 2, Seq::empty(), cv[k as int], i as int);
            let s = cv.subrange(k as int, cv.len() as int);
            assert(s[0] == cv[k as int]);
            assert(s.drop_first() =~= cv.subrange(k + 1, cv.len() as int));
        }
        k = k + 1;
    }
    assert(cv.subrange(k as int, cv.len() as int) =~= Seq::<Seq<char>>::empty());
    None
}

// ---------------------------------------------------------------------------
// Outside windows that are not managed yet.
// ---------------------------------------------------------------------------

/// Some terminal is shown by the tab of window `h` with runtime id `rid`.
pub open spec fn tab_managed(ts: Seq<TerminalView>, h: isize, rid: Seq<i32>) -> bool {
    exists|i: int| 0 <= i < ts.len() && (#[trigger] ts[i]).hwnd == Some(h) && ts[i].runtime_id == Some(rid)
}

/// Window `h` shows a terminal the application opened whose tab is not
/// identified yet; the whole window counts as managed.
pub open spec fn window_reserved(ts: Seq<TerminalView>, h: isize) -> bool {
    exists|i: int| 0 <= i < ts.len() && (#[trigger] ts[i]).hwnd == Some(h) && ts[i].runtime_id is None && !ts[i].attached
}

/// The tabs of window `h` that no terminal shows, in order.
pub open spec fn unmanaged_tabs(ts: Seq<TerminalView>, h: isize, tabs: Seq<TabView>) -> Seq<TabView>
    decreases tabs.len(),
{
    if tabs.len() == 0 {
        Seq::empty()
    } else {
        let a = unmanaged_tabs(ts, h, tabs.drop_last());
        if tab_managed(ts, h, tabs.last().0) { a } else { a.push(tabs.last()) }
    }
}

/// An outside window as plain values: handle, title, tabs, shell folders.
pub type ExternalView = (isize, Seq<char>, Seq<TabView>, Seq<Seq<char>>);

pub open spec fn external_view(e: ExternalTerminalInfo) -> ExternalView {
    (e.hwnd, e.window_title@, tabs_view(e.tabs@), string_views(e.process_cwds@))
}

pub open spec fn externals_view(v: Seq<ExternalTerminalInfo>) -> Seq<ExternalView> {
    v.map_values(|e: ExternalTerminalInfo| external_view(e))
}

/// The windows, in order, that are not reserved and have unmanaged tabs,
/// each with only those tabs.
pub open spec fn discovered(ts: Seq<TerminalView>, ws: Seq<ExternalView>) -> Seq<ExternalView>
    decreases ws.len(),
{
    if ws.len() == 0 {
        Seq::empty()
    } else {
        let a = discovered(ts, ws.drop_last());
        let w = ws.last();
        let tabs = unmanaged_tabs(ts, w.0, w.2);
        if window_reserved(ts, w.0) || tabs.len() == 0 { a } else { a.push((w.0, w.1, tabs, w.3)) }
    }
}

/// A copy of a list of strings.
fn copy_strings(v: &Vec<String>) -> (r: Vec<String>)
    ensures
        string_views(r@) == string_views(v@),
{
    let mut r: Vec<String> = Vec::new();
    let mut i: usize = 0;
    while i < v.len()
        invariant
            i <= v@.len(),
            string_views(r@) == string_views(v@).take(i as int),
        decreases v@.len() - i,
    {
        let ghost before = r@;
        r.push(v[i].clone());
        assert(string_views(r@) =~= string_views(before).push(v@[i as int]@));
        assert(string_views(r@) =~= string_views(v@).take(i + 1));
        i = i + 1;
    }
    assert(string_views(v@).take(i as int) =~= string_views(v@));
    r
}

impl Manager {
    /// Whether a terminal shows the tab of window `hwnd` with runtime id `rid`.
    pub fn tab_is_managed(&self, hwnd: isize, rid: &Vec<i32>) -> (r: bool)
        ensures
            r == tab_managed(self.spec_terminals(), hwnd, rid@),
    {
        let ts = self.terminals_ref();
        let ghost tv = terminals_view(ts@);
        let mut i: usize = 0;
        while i < ts.len()
            invariant
                tv == terminals_view(ts@),
                tv == self.spec_terminals(),
                i <= ts@.len(),
                forall|k: int| 0 <= k < i ==> !((#[trigger] tv[k]).hwnd == Some(hwnd) && tv[k].runtime_id == Some(rid@)),
            decreases ts@.len() - i,
        {
            let mt = &ts[i];
            assert(tv[i as int] == mt@);
            if mt.hwnd == Some(hwnd) {
                match &mt.runtime_id {
                    Some(x) => {
                        if rid_eq(x, rid) {
                            assert(tv[i as int].hwnd == Some(hwnd) && tv[i as int].runtime_id == Some(rid@));
                            return true;
                        }
                    },
                    None => {},
                }
            }
            i = i + 1;
        }
        false
    }

    /// Whether window `hwnd` shows a terminal the application opened whose
    /// tab is not identified yet (see `window_reserved`).
    pub fn window_is_reserved(&self, hwnd: isize) -> (r: bool)
        ensures
            r == window_reserved(self.spec_terminals(), hwnd),
    {
        let ts = self.terminals_ref();
        let ghost tv = terminals_view(ts@);
        let mut i: usize = 0;
        while i < ts.len()
            invariant
                tv == terminals_view(ts@),
                tv == self.spec_terminals(),
                i <= ts@.len(),
                forall|k: int| 0 <= k < i ==> !((#[trigger] tv[k]).hwnd == Some(hwnd) && tv[k].runtime_id is None && !tv[k].attached),
            decreases ts@.len() - i,
        {
            let mt = &ts[i];
            assert(tv[i as int] == mt@);
            if mt.hwnd == Some(hwnd) && mt.runtime_id.is_none() && !mt.attached {
                assert(tv[i as int].hwnd == Some(hwnd) && tv[i as int].runtime_id is None && !tv[i as int].attached);
                return true;
            }
            i = i + 1;
        }
        false
    }

    /// The tabs of window `hwnd` that no terminal shows.
    pub fn unmanaged_tabs_of(&self, hwnd: isize, tabs: &Vec<TabInfo>) -> (r: Vec<TabInfo>)
        ensures
            tabs_view(r@) == unmanaged_tabs(self.spec_terminals(), hwnd, tabs_view(tabs@)),
    {
        let ghost tv = tabs_view(tabs@);
        let mut r: Vec<TabInfo> = Vec::new();
        let mut i: usize = 0;
        assert(tabs_view(r@) =~= unmanaged_tabs(self.spec_terminals(), hwnd, tv.take(0)));
        while i < tabs.len()
            invariant
                tv == tabs_view(tabs@),
                i <= tabs@.len(),
                tabs_view(r@) == unmanaged_tabs(self.spec_terminals(), hwnd, tv.take(i as int)),
            decreases tabs@.len() - i,
        {
            proof {
                assert(tv.take(i + 1).drop_last() =~= tv.take(i as int));
                assert(tv.take(i + 1).last() == tv[i as int]);
            }
            if !self.tab_is_managed(hwnd, &tabs[i].runtime_id) {
                let ghost before = r@;
                r.push(copy_tab_info(&tabs[i]));
                assert(tabs_view(r@) =~= tabs_view(before).push(tv[i as int]));
            }
            i = i + 1;
        }
        assert(tv.take(i as int) =~= tv);
        r
    }

    /// Of the outside windows given (each with all its tabs and shell
    /// folders), those the application does not manage, with only their
    /// unmanaged tabs: a window showing a terminal the application opened
    /// whose tab is not identified yet is left out, as is one with no tab
    /// left.
    pub fn discover_external_terminals(&self, windows: &Vec<ExternalTerminalInfo>) -> (r: Vec<ExternalTerminalInfo>)
        ensures
            externals_view(r@) == discovered(self.spec_terminals(), externals_view(windows@)),
    {
        let ghost wv = externals_view(windows@);
        let mut r: Vec<ExternalTerminalInfo> = Vec::new();
        let mut i: usize = 0;
        assert(externals_view(r@) =~= discovered(self.spec_terminals(), wv.take(0)));
        while i < windows.len()
            invariant
                wv == externals_view(windows@),
                i <= windows@.len(),
                externals_view(r@) == discovered(self.spec_terminals(), wv.take(i as int)),
            decreases windows@.len() - i,
        {
            proof {
                assert(wv.take(i + 1).drop_last() =~= wv.take(i as int));
                assert(wv.take(i + 1).last() == wv[i as int]);
            }
            let w = &windows[i];
            if !self.window_is_reserved(w.hwnd) {
                let tabs = self.unmanaged_tabs_of(w.hwnd, &w.tabs);
                if tabs.len() > 0 {
                    let ghost before = r@;
                    let e = ExternalTerminalInfo {
                        hwnd: w.hwnd,
                        window_title: w.window_title.clone(),
                        tabs: tabs,
                        process_cwds: copy_strings(&w.process_cwds),
                    };
                    r.push(e);
                    assert(externals_view(r@) =~= externals_view(before).push(external_view(e)));
                }
            }
            i = i + 1;
        }
        assert(wv.take(i as int) =~= wv);
        r
    }
}

// ---------------------------------------------------------------------------
// Attaching outside tabs at startup.
// ---------------------------------------------------------------------------

/// A tab to attach: its window and runtime id, the position of its project,
/// and whether its title carries the application's prefix.
#[derive(Debug)]
pub struct AttachPlan {
    pub hwnd: isize,
    pub runtime_id: Vec<i32>,
    pub project_index: usize,
    pub title_prefixed: bool,
}

/// A plan as plain values.
pub type PlanView = (isize, Seq<i32>, int, bool);

pub open spec fn plan_view(p: AttachPlan) -> PlanView {
    (p.hwnd, p.runtime_id@, p.project_index as int, p.title_prefixed)
}

pub open spec fn plans_view(v: Seq<AttachPlan>) -> Seq<PlanView> {
    v.map_values(|p: AttachPlan| plan_view(p))
}

/// The tabs of window `w` (among `tabs`, in order) that match a project.
pub open spec fn window_plans(w: ExternalView, ps: Seq<Info>, tabs: Seq<TabView>) -> Seq<PlanView>
    decreases tabs.len(),
{
    if tabs.len() == 0 {
        Seq::empty()
    } else {
        let a = window_plans(w, ps, tabs.drop_last());
        match spec_match_tab_with_cwds(tabs.last().1, ps, w.3) {
            Some((i, b)) => a.push((w.0, tabs.last().0, i, b)),
            None => a,
        }
    }
}

/// The tabs of all windows, window after window, that match a project.
pub open spec fn attach_plans(ps: Seq<Info>, ws: Seq<ExternalView>) -> Seq<PlanView>
    decreases ws.len(),
{
    if ws.len() == 0 {
        Seq::empty()
    } else {
        attach_plans(ps, ws.drop_last()) + window_plans(ws.last(), ps, ws.last().2)
    }
}

/// What to attach at startup: nothing when auto-attach is off or there is
/// no project, else every tab that matches a project.
pub open spec fn auto_plans(enabled: bool, ps: Seq<Info>, ws: Seq<ExternalView>) -> Seq<PlanView> {
    if !enabled || ps.len() == 0 { Seq::empty() } else { attach_plans(ps, ws) }
}

/// The tabs to attach at startup (see `auto_plans`), each matched by title
/// or by its window's shell folders (`match_tab_to_project_with_cwds`).
pub fn plan_auto_attach(auto_attach_enabled: bool, projects: &Vec<Info>, externals: &Vec<ExternalTerminalInfo>) -> (r: Vec<AttachPlan>)
    ensures
        plans_view(r@) == auto_plans(auto_attach_enabled, projects@, externals_view(externals@)),
        forall|k: int| 0 <= k < r@.len() ==> (#[trigger] r@[k]).project_index < projects@.len(),
{
    let mut r: Vec<AttachPlan> = Vec::new();
    if !auto_attach_enabled || projects.len() == 0 {
        assert(plans_view(r@) =~= Seq::<PlanView>::empty());
        return r;
    }
    let ghost ws = externals_view(externals@);
    let mut w: usize = 0;
    assert(plans_view(r@) =~= attach_plans(projects@, ws.take(0)));
    while w < externals.len()
        invariant
            ws == externals_view(externals@),
            w <= externals@.len(),
            plans_view(r@) == attach_plans(projects@, ws.take(w as int)),
            forall|k: int| 0 <= k < r@.len() ==> (#[trigger] r@[k]).project_index < projects@.len(),
        decreases externals@.len() - w,
    {
        let ext = &externals[w];
        let ghost wv = ws[w as int];
        let ghost base = r@;
        assert(wv == external_view(*ext));
        let mut k: usize = 0;
        assert(plans_view(r@) =~= plans_view(base) + window_plans(wv, projects@, wv.2.take(0)));
        while k < ext.tabs.len()
            invariant
                wv == external_view(*ext),
                k <= ext.tabs@.len(),
                plans_view(r@) == plans_view(base) + window_plans(wv, projects@, wv.2.take(k as int)),
                forall|j: int| 0 <= j < r@.len() ==> (#[trigger] r@[j]).project_index < projects@.len(),
            decreases ext.tabs@.len() - k,
        {
            let tab = &ext.tabs[k];
            proof {
                assert(wv.2.take(k + 1).drop_last() =~= wv.2.take(k as int));
                assert(wv.2.take(k + 1).last() == wv.2[k as int]);
                assert(wv.2[k as int] == tab_view(*tab));
            }
            match match_tab_index_with_cwds(tab.title.as_str(), projects, &ext.process_cwds) {
                Some((i, b)) => {
                    let ghost before = r@;
                    r.push(AttachPlan { hwnd: ext.hwnd, runtime_id: crate::terminals::copy_rid(&tab.runtime_id), project_index: i, title_prefixed: b });
                    assert(plans_view(r@) =~= plans_view(before).push((wv.0, wv.2[k as int].0, i as int, b)));
                },
                None => {},
            }
            k = k + 1;
        }
        proof {
            assert(wv.2.take(k as int) =~= wv.2);
            assert(ws.take(w + 1).drop_last() =~= ws.take(w as int));
            assert(ws.take(w + 1).last() == wv);
        }
        w = w + 1;
    }
    assert(ws.take(w as int) =~= ws);
    r
}

/// The registry after attaching the planned tabs with the given instances:
/// each tab is recorded as `attach_terminal` records it, counting as
/// renamed unless its title carries the prefix.
pub open spec fn attach_all(ts: Seq<TerminalView>, ps: Seq<Info>, plans: Seq<PlanView>, insts: Seq<InstanceView>) -> Seq<TerminalView>
    decreases plans.len(),
{
    if plans.len() == 0 {
        ts
    } else {
        let prev = attach_all(ts, ps, plans.drop_last(), insts.drop_last());
        let p = plans.last();
        spec_insert(prev, TerminalView {
            tab_renamed: !p.3,
            ..attached_terminal(insts.last(), next_tab(prev, ps[p.2].id@), p.0, p.1)
        })
    }
}

/// Each plan was accepted when its turn came (room left, valid project id
/// and name, a project directory) and got a fresh instance.
pub open spec fn attached_well(
    ts: Seq<TerminalView>,
    ps: Seq<Info>,
    dirs: Seq<bool>,
    plans: Seq<PlanView>,
    insts: Seq<InstanceView>,
    language: Seq<char>,
) -> bool {
    &&& insts.len() == plans.len()
    &&& forall|k: int| 0 <= k < plans.len() ==> #[trigger] step_accepts(
        attach_all(ts, ps, plans.take(k), insts.take(k)), ps, dirs, plans[k], insts[k], language)
}

/// A plan accepted in registry `cur`, given the instance it got.
pub open spec fn step_accepts(cur: Seq<TerminalView>, ps: Seq<Info>, dirs: Seq<bool>, p: PlanView, inst: InstanceView, language: Seq<char>) -> bool {
    let proj = ps[p.2];
    &&& has_room(cur, proj.id@)
    &&& attach_rejection(proj.id@, proj.name@, proj.path@, dirs[p.2]) is None
    &&& hyphenated_uuid(inst.id)
    &&& is_timestamp(inst.launched_at)
    &&& inst == spec_new_instance(inst.id, inst.launched_at, proj.id@, proj.name@, proj.path@, count_project(cur, proj.id@) + 1, language, true)
}

/// The message when the registry cannot take another terminal.
pub open spec fn no_room_message() -> Seq<char> {
    "no room for another terminal"@
}

/// The error of a refused plan in registry `cur`.
pub open spec fn step_refused(cur: Seq<TerminalView>, ps: Seq<Info>, dirs: Seq<bool>, p: PlanView, e: AppError) -> bool {
    let proj = ps[p.2];
    if !has_room(cur, proj.id@) {
        e is Terminal && e->Terminal_0@ == no_room_message()
    } else {
        attach_rejection(proj.id@, proj.name@, proj.path@, dirs[p.2]) is Some
            && outcome_is(Err::<(), AppError>(e), attach_rejection(proj.id@, proj.name@, proj.path@, dirs[p.2]))
    }
}

/// The first `k` plans were attached with `insts`, giving registry `fin`,
/// and plan `k` was refused with `e`.
pub open spec fn stopped_at(
    ts: Seq<TerminalView>,
    ps: Seq<Info>,
    dirs: Seq<bool>,
    plans: Seq<PlanView>,
    language: Seq<char>,
    k: int,
    insts: Seq<InstanceView>,
    fin: Seq<TerminalView>,
    e: AppError,
) -> bool {
    &&& 0 <= k < plans.len()
    &&& attached_well(ts, ps, dirs, plans.take(k), insts, language)
    &&& fin == attach_all(ts, ps, plans.take(k), insts)
    &&& step_refused(fin, ps, dirs, plans[k], e)
}

pub open spec fn instances_view(v: Seq<Instance>) -> Seq<InstanceView> {
    v.map_values(|i: Instance| i@)
}

impl Manager {
    /// Attaches, at startup, the outside tabs that match a project (see
    /// `plan_auto_attach`), in order; `project_dirs` says for each project
    /// whether its path is a directory. A tab whose title carries the
    /// application's prefix keeps its title watched. The first refused tab
    /// stops the run with its error; the tabs attached before it stay.
    pub fn auto_attach_on_startup(
        &mut self,
        auto_attach_enabled: bool,
        projects: &Vec<Info>,
        externals: &Vec<ExternalTerminalInfo>,
        project_dirs: &Vec<bool>,
        language: &str,
    ) -> (r: Result<Vec<Instance>, AppError>)
        requires
            old(self).wf(),
            project_dirs@.len() == projects@.len(),
        ensures
            final(self).wf(),
            match r {
                Ok(v) => {
                    let plans = auto_plans(auto_attach_enabled, projects@, externals_view(externals@));
                    &&& attached_well(old(self).spec_terminals(), projects@, project_dirs@, plans, instances_view(v@), language@)
                    &&& final(self).spec_terminals() == attach_all(old(self).spec_terminals(), projects@, plans, instances_view(v@))
                },
                Err(e) => exists|k: int, insts: Seq<InstanceView>| #[trigger] stopped_at(
                    old(self).spec_terminals(),
                    projects@,
                    project_dirs@,
                    auto_plans(auto_attach_enabled, projects@, externals_view(externals@)),
                    language@,
                    k,
                    insts,
                    final(self).spec_terminals(),
                    e,
                ),
            },
    {
        let plans = plan_auto_attach(auto_attach_enabled, projects, externals);
        let ghost pv = plans_view(plans@);
        let ghost ts0 = self.spec_terminals();
        let mut out: Vec<Instance> = Vec::new();
        let mut k: usize = 0;
        assert(pv.take(0) =~= Seq::<PlanView>::empty());
        assert(instances_view(out@) =~= Seq::<InstanceView>::empty());
        while k < plans.len()
            invariant
                self.wf(),
                pv == plans_view(plans@),
                pv == auto_plans(auto_attach_enabled, projects@, externals_view(externals@)),
                ts0 == old(self).spec_terminals(),
                project_dirs@.len() == projects@.len(),
                forall|j: int| 0 <= j < plans@.len() ==> (#[trigger] plans@[j]).project_index < projects@.len(),
                k <= plans@.len(),
                attached_well(ts0, projects@, project_dirs@, pv.take(k as int), instances_view(out@), language@),
                self.spec_terminals() == attach_all(ts0, projects@, pv.take(k as int), instances_view(out@)),
            decreases plans@.len() - k,
        {
            let p = &plans[k];
            let proj = &projects[p.project_index];
            let ghost cur = self.spec_terminals();
            let ghost pk = pv[k as int];
            assert(pk == plan_view(*p));
            proof {
                assert(pv.take(k + 1).drop_last() =~= pv.take(k as int));
                assert(pv.take(k + 1).last() == pk);
                assert(pv.take(k + 1).take(k as int) =~= pv.take(k as int));
            }
            if !self.has_room_for(proj.id.as_str()) {
                let e = AppError::Terminal(owned("no room for another terminal"));
                proof {
                    reveal_strlit("no room for another terminal");
                    assert(stopped_at(ts0, projects@, project_dirs@, pv, language@, k as int, instances_view(out@), self.spec_terminals(), e));
                }
                return Err(e);
            }
            let res = self.attach_terminal_as(
                p.hwnd,
                crate::terminals::copy_rid(&p.runtime_id),
                proj.id.as_str(),
                proj.name.as_str(),
                proj.path.as_str(),
                language,
                project_dirs[p.project_index],
                !p.title_prefixed,
            );
            match res {
                Ok(inst) => {
                    let ghost before = out@;
                    let ghost iv = inst@;
                    out.push(inst);
                    proof {
                        assert(instances_view(out@) =~= instances_view(before).push(iv));
                        assert(instances_view(out@).drop_last() =~= instances_view(before));
                        let insts2 = instances_view(out@);
                        let pl2 = pv.take(k + 1);
                        assert(step_accepts(cur, projects@, project_dirs@, pk, iv, language@));
                        assert forall|j: int| 0 <= j < pl2.len() implies #[trigger] step_accepts(
                            attach_all(ts0, projects@, pl2.take(j), insts2.take(j)), projects@, project_dirs@, pl2[j], insts2[j], language@) by {
                            if j < k {
                                assert(pl2.take(j) =~= pv.take(k as int).take(j));
                                assert(insts2.take(j) =~= instances_view(before).take(j));
                                assert(pl2[j] == pv.take(k as int)[j]);
                                assert(insts2[j] == instances_view(before)[j]);
                            } else {
                                assert(pl2.take(j) =~= pv.take(k as int));
                                assert(insts2.take(j) =~= instances_view(before));
                            }
                        }
                    }
                },
                Err(e) => {
                    proof {
                        assert(stopped_at(ts0, projects@, project_dirs@, pv, language@, k as int, instances_view(out@), self.spec_terminals(), e));
                    }
                    return Err(e);
                },
            }
            k = k + 1;
        }
        assert(pv.take(k as int) =~= pv);
        Ok(out)
    }
}

/// The number of tabs among `tabs` that match a project, by title or by the
/// window's shell folders `cwds`.
pub open spec fn matching_tab_count(ps: Seq<Info>, cwds: Seq<Seq<char>>, tabs: Seq<TabView>) -> nat
    decreases tabs.len(),
{
    if tabs.len() == 0 {
        0
    } else {
        matching_tab_count(ps, cwds, tabs.drop_last())
            + if spec_match_tab_with_cwds(tabs.last().1, ps, cwds) is Some { 1nat } else { 0nat }
    }
}

/// The number of matching tabs over all windows.
pub open spec fn matching_tabs_total(ps: Seq<Info>, ws: Seq<ExternalView>) -> nat
    decreases ws.len(),
{
    if ws.len() == 0 {
        0
    } else {
        matching_tabs_total(ps, ws.drop_last()) + matching_tab_count(ps, ws.last().3, ws.last().2)
    }
}

proof fn lemma_window_plans_has(w: ExternalView, ps: Seq<Info>, tabs: Seq<TabView>, k: int, i: int, b: bool)
    requires
        0 <= k < tabs.len(),
        spec_match_tab_with_cwds(tabs[k].1, ps, w.3) == Some((i, b)),
    ensures
        exists|p: int| 0 <= p < window_plans(w, ps, tabs).len() && #[trigger] window_plans(w, ps, tabs)[p] == (w.0, tabs[k].0, i, b),
    decreases tabs.len(),
{
    let d = tabs.drop_last();
    let a = window_plans(w, ps, d);
    if k == tabs.len() - 1 {
        assert(tabs.last() == tabs[k]);
        assert(window_plans(w, ps, tabs) == a.push((w.0, tabs[k].0, i, b)));
        assert(window_plans(w, ps, tabs)[a.len() as int] == (w.0, tabs[k].0, i, b));
    } else {
        assert(d[k] == tabs[k]);
        lemma_window_plans_has(w, ps, d, k, i, b);
        let p = choose|p: int| 0 <= p < a.len() && #[trigger] a[p] == (w.0, d[k].0, i, b);
        match spec_match_tab_with_cwds(tabs.last().1, ps, w.3) {
            Some((i2, b2)) => {
                assert(window_plans(w, ps, tabs) == a.push((w.0, tabs.last().0, i2, b2)));
                assert(window_plans(w, ps, tabs)[p] == a[p]);
            },
            None => {
                assert(window_plans(w, ps, tabs) == a);
            },
        }
    }
}

proof fn lemma_attach_plans_has(ps: Seq<Info>, ws: Seq<ExternalView>, x: int, k: int, i: int, b: bool)
    requires
        0 <= x < ws.len(),
        0 <= k < ws[x].2.len(),
        spec_match_tab_with_cwds(ws[x].2[k].1, ps, ws[x].3) == Some((i, b)),
    ensures
        exists|p: int| 0 <= p < attach_plans(ps, ws).len() && #[trigger] attach_plans(ps, ws)[p] == (ws[x].0, ws[x].2[k].0, i, b),
    decreases ws.len(),
{
    let d = ws.drop_last();
    let a = attach_plans(ps, d);
    let wp = window_plans(ws.last(), ps, ws.last().2);
    assert(attach_plans(ps, ws) == a + wp);
    if x == ws.len() - 1 {
        assert(ws.last() == ws[x]);
        lemma_window_plans_has(ws[x], ps, ws[x].2, k, i, b);
        let p = choose|p: int| 0 <= p < wp.len() && #[trigger] wp[p] == (ws[x].0, ws[x].2[k].0, i, b);
        assert((a + wp)[a.len() + p] == wp[p]);
    } else {
        assert(d[x] == ws[x]);
        lemma_attach_plans_has(ps, d, x, k, i, b);
        let p = choose|p: int| 0 <= p < a.len() && #[trigger] a[p] == (d[x].0, d[x].2[k].0, i, b);
        assert((a + wp)[p] == a[p]);
    }
}

proof fn lemma_window_plans_len(w: ExternalView, ps: Seq<Info>, tabs: Seq<TabView>)
    ensures
        window_plans(w, ps, tabs).len() == matching_tab_count(ps, w.3, tabs),
    decreases tabs.len(),
{
    if tabs.len() > 0 {
        lemma_window_plans_len(w, ps, tabs.drop_last());
    }
}

proof fn lemma_attach_plans_len(ps: Seq<Info>, ws: Seq<ExternalView>)
    ensures
        attach_plans(ps, ws).len() == matching_tabs_total(ps, ws),
    decreases ws.len(),
{
    if ws.len() > 0 {
        lemma_attach_plans_len(ps, ws.drop_last());
        lemma_window_plans_len(ws.last(), ps, ws.last().2);
    }
}

/// With auto-attach on and at least one project, every tab of every window
/// whose title (or whose window's shell folders) matches a project gets a
/// plan that attaches it, in that window, to that project; and there is
/// exactly one plan per matching tab.
pub proof fn law_every_matching_tab_is_planned(ps: Seq<Info>, ws: Seq<ExternalView>, x: int, k: int, i: int, b: bool)
    requires
        ps.len() > 0,
        0 <= x < ws.len(),
        0 <= k < ws[x].2.len(),
        spec_match_tab_with_cwds(ws[x].2[k].1, ps, ws[x].3) == Some((i, b)),
    ensures
        exists|p: int| 0 <= p < auto_plans(true, ps, ws).len()
            && #[trigger] auto_plans(true, ps, ws)[p] == (ws[x].0, ws[x].2[k].0, i, b),
        auto_plans(true, ps, ws).len() == matching_tabs_total(ps, ws),
{
    lemma_attach_plans_has(ps, ws, x, k, i, b);
    lemma_attach_plans_len(ps, ws);
    assert(auto_plans(true, ps, ws) == attach_plans(ps, ws));
    let p = choose|p: int| 0 <= p < attach_plans(ps, ws).len() && #[trigger] attach_plans(ps, ws)[p] == (ws[x].0, ws[x].2[k].0, i, b);
    assert(auto_plans(true, ps, ws)[p] == (ws[x].0, ws[x].2[k].0, i, b));
}

} // verus!
