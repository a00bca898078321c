//! The registry of managed terminals and the hook-driven state machine.
//!
//! A terminal is identified by its instance id; the registry keeps them in
//! insertion order, each id at most once. Window handles, tab runtime ids
//! and process handles are recorded here as plain values; the windows and
//! processes themselves are handled outside.

use vstd::prelude::*;
use crate::error::AppError;
use crate::models::{Activity, Instance, Status, duplicate_opt_string};
use crate::text::{
    char_alphanumeric, concat, is_alphanumeric, lowercase, owned, push_char, replace_char,
    replace_char_seq, str_eq, to_lowercase, trim_end_char, trim_end_char_seq,
    byte_len, chars_of, u64_to_decimal, usize_to_decimal, decimal,
};
use crate::validation::outcome_is;
use crate::store::is_timestamp;

verus! {

/// Prefix of the title of a tab opened by the application.
pub const TITLE_PREFIX: &'static str = "termi: ";
/// Longest accepted project id, project name or terminal name, in bytes.
pub const MAX_LABEL_LENGTH: usize = 255;

/// A terminal instance as plain values.
pub struct InstanceView {
    pub id: Seq<char>,
    pub project_id: Seq<char>,
    pub project_name: Seq<char>,
    pub project_path: Seq<char>,
    pub terminal_name: Seq<char>,
    pub status: Status,
    pub launched_at: Seq<char>,
    pub activity: Activity,
    pub notification_enabled: bool,
    pub monitored: bool,
    pub attached: bool,
    pub last_idle_at: Option<Seq<char>>,
}

pub open spec fn opt_view(s: Option<String>) -> Option<Seq<char>> {
    match s {
        Some(x) => Some(x@),
        None => None,
    }
}

impl View for Instance {
    type V = InstanceView;

    open spec fn view(&self) -> InstanceView {
        InstanceView {
            id: self.id@,
            project_id: self.project_id@,
            project_name: self.project_name@,
            project_path: self.project_path@,
            terminal_name: self.terminal_name@,
            status: self.status,
            launched_at: self.launched_at@,
            activity: self.activity,
            notification_enabled: self.notification_enabled,
            monitored: self.monitored,
            attached: self.attached,
            last_idle_at: opt_view(self.last_idle_at),
        }
    }
}

/// The runtime state of a managed terminal.
#[derive(Debug)]
pub struct ManagedTerminal {
    pub instance: Instance,
    /// The window that shows the terminal, once known.
    pub hwnd: Option<isize>,
    /// Position of the tab among the project's tabs (creation order, then
    /// the position seen in the window).
    pub tab_index: usize,
    /// The tab's UI Automation runtime id, once known.
    pub runtime_id: Option<Vec<i32>>,
    /// Set once the idle marker has been seen in the tab title.
    pub title_tracking: bool,
    /// Since when (monotonic milliseconds) the idle marker has been missing
    /// from an idle terminal's title.
    pub pending_active_since: Option<u64>,
    /// The agent session mapped to this terminal by hook events.
    pub hook_session_id: Option<String>,
    /// Set once the tab title lost the application's prefix.
    pub tab_renamed: bool,
    /// Set for a tab of an outside window that was attached.
    pub attached: bool,
}

/// A managed terminal as plain values.
pub struct TerminalView {
    pub instance: InstanceView,
    pub hwnd: Option<isize>,
    pub tab_index: usize,
    pub runtime_id: Option<Seq<i32>>,
    pub title_tracking: bool,
    pub pending_active_since: Option<u64>,
    pub hook_session_id: Option<Seq<char>>,
    pub tab_renamed: bool,
    pub attached: bool,
}

pub open spec fn rid_view(r: Option<Vec<i32>>) -> Option<Seq<i32>> {
    match r {
        Some(v) => Some(v@),
        None => None,
    }
}

impl View for ManagedTerminal {
    type V = TerminalView;

    open spec fn view(&self) -> TerminalView {
        TerminalView {
            instance: self.instance@,
            hwnd: self.hwnd,
            tab_index: self.tab_index,
            runtime_id: rid_view(self.runtime_id),
            title_tracking: self.title_tracking,
            pending_active_since: self.pending_active_since,
            hook_session_id: opt_view(self.hook_session_id),
            tab_renamed: self.tab_renamed,
            attached: self.attached,
        }
    }
}

/// A copy of a runtime id.
pub fn copy_rid(v: &Vec<i32>) -> (r: Vec<i32>)
    ensures
        r@ == v@,
{
    let mut r: Vec<i32> = Vec::new();
    let mut i: usize = 0;
    while i < v.len()
        invariant
            i <= v@.len(),
            r@ == v@.subrange(0, i as int),
        decreases v@.len() - i,
    {
        r.push(v[i]);
        i = i + 1;
        assert(r@ =~= v@.subrange(0, i as int));
    }
    assert(r@ =~= v@);
    r
}

/// A copy of an optional runtime id.
pub fn copy_opt_rid(v: &Option<Vec<i32>>) -> (r: Option<Vec<i32>>)
    ensures
        rid_view(r) == rid_view(*v),
{
    match v {
        Some(x) => Some(copy_rid(x)),
        None => None,
    }
}

/// An activity change to report: (terminal id, project path, project name,
/// terminal name, new activity, notifications on, monitored, last idle time).
pub type TransitionTuple = (String, String, String, String, Activity, bool, bool, Option<String>);

/// A reported change as plain values.
pub type TransitionView = (Seq<char>, Seq<char>, Seq<char>, Seq<char>, Activity, bool, bool, Option<Seq<char>>);

pub open spec fn transition_view(t: TransitionTuple) -> TransitionView {
    (t.0@, t.1@, t.2@, t.3@, t.4, t.5, t.6, opt_view(t.7))
}

pub open spec fn transitions_view(ts: Seq<TransitionTuple>) -> Seq<TransitionView> {
    ts.map_values(|t: TransitionTuple| transition_view(t))
}

/// The change reported for a terminal in the state `t`.
pub open spec fn transition_of(t: TerminalView) -> TransitionView {
    (
        t.instance.id,
        t.instance.project_path,
        t.instance.project_name,
        t.instance.terminal_name,
        t.instance.activity,
        t.instance.notification_enabled,
        t.instance.monitored,
        t.instance.last_idle_at,
    )
}

/// The change to report for a terminal, built from its current state.
pub fn transition_for(mt: &ManagedTerminal) -> (r: TransitionTuple)
    ensures
        transition_view(r) == transition_of(mt@),
{
    (
        mt.instance.id.clone(),
        mt.instance.project_path.clone(),
        mt.instance.project_name.clone(),
        mt.instance.terminal_name.clone(),
        mt.instance.activity,
        mt.instance.notification_enabled,
        mt.instance.monitored,
        duplicate_opt_string(&mt.instance.last_idle_at),
    )
}

/// The managed terminals.
pub struct Manager {
    terminals: Vec<ManagedTerminal>,
}

/// Instance ids are distinct and tab indices leave room for one more.
pub open spec fn registry_wf(ts: Seq<TerminalView>) -> bool {
    &&& forall|i: int, j: int| 0 <= i < j < ts.len() ==> (#[trigger] ts[i]).instance.id != (#[trigger] ts[j]).instance.id
    &&& forall|i: int| 0 <= i < ts.len() ==> (#[trigger] ts[i]).tab_index < usize::MAX
}

/// Storing `t` maps no session to a second terminal: `t` has no session, or
/// no other terminal has its session.
pub open spec fn session_free(ts: Seq<TerminalView>, t: TerminalView) -> bool {
    t.hook_session_id is None || forall|j: int|
        0 <= j < ts.len() && (#[trigger] ts[j]).instance.id != t.instance.id ==> ts[j].hook_session_id != t.hook_session_id
}

pub open spec fn terminals_view(ts: Seq<ManagedTerminal>) -> Seq<TerminalView> {
    ts.map_values(|t: ManagedTerminal| t@)
}

pub open spec fn instances_of(ts: Seq<TerminalView>) -> Seq<InstanceView> {
    ts.map_values(|t: TerminalView| t.instance)
}

/// Position of the terminal with the given id.
pub open spec fn index_of(ts: Seq<TerminalView>, id: Seq<char>) -> Option<int> {
    if exists|i: int| 0 <= i < ts.len() && ts[i].instance.id == id {
        Some(choose|i: int| 0 <= i < ts.len() && ts[i].instance.id == id)
    } else {
        None
    }
}

/// The registry with `t` stored: in place of the terminal with the same id,
/// or appended.
pub open spec fn spec_insert(ts: Seq<TerminalView>, t: TerminalView) -> Seq<TerminalView> {
    match index_of(ts, t.instance.id) {
        Some(i) => ts.update(i, t),
        None => ts.push(t),
    }
}

/// The message of the error for an unknown terminal id.
pub open spec fn not_found_message(id: Seq<char>) -> Seq<char> {
    "터미널을 찾을 수 없습니다: "@ + id
}

impl Manager {
    /// The terminals, in order.
    pub closed spec fn spec_terminals(&self) -> Seq<TerminalView> {
        terminals_view(self.terminals@)
    }

    /// Ids are distinct and tab indices bounded.
    pub open spec fn wf(&self) -> bool {
        &&& registry_wf(self.spec_terminals())
        &&& sessions_unique(self.spec_terminals())
    }

    /// The stored terminals, in order.
    pub(crate) fn terminals_ref(&self) -> (r: &Vec<ManagedTerminal>)
        ensures
            terminals_view(r@) == self.spec_terminals(),
    {
        &self.terminals
    }

    /// Takes the terminals out, leaving the registry empty.
    pub(crate) fn take_terminals(&mut self) -> (r: Vec<ManagedTerminal>)
        ensures
            terminals_view(r@) == old(self).spec_terminals(),
            final(self).spec_terminals() == Seq::<TerminalView>::empty(),
    {
        let mut r: Vec<ManagedTerminal> = Vec::new();
        std::mem::swap(&mut r, &mut self.terminals);
        assert(self.spec_terminals() =~= Seq::<TerminalView>::empty());
        r
    }

    /// Replaces the stored terminals.
    pub(crate) fn put_terminals(&mut self, ts: Vec<ManagedTerminal>)
        ensures
            final(self).spec_terminals() == terminals_view(ts@),
    {
        self.terminals = ts;
    }

    /// An empty registry.
    pub fn new() -> (m: Manager)
        ensures
            m.wf(),
            m.spec_terminals() == Seq::<TerminalView>::empty(),
    {
        let m = Manager { terminals: Vec::new() };
        assert(m.spec_terminals() =~= Seq::<TerminalView>::empty());
        m
    }

    /// The instances of all terminals, in registry order.
    pub fn get_all(&self) -> (r: Vec<Instance>)
        ensures
            r@.map_values(|i: Instance| i@) == instances_of(self.spec_terminals()),
    {
        let ghost insts = instances_of(self.spec_terminals());
        assert(insts.len() == self.terminals@.len());
        let mut r: Vec<Instance> = Vec::new();
        let mut i: usize = 0;
        while i < self.terminals.len()
            invariant
                insts == instances_of(self.spec_terminals()),
                insts.len() == self.terminals@.len(),
                i <= self.terminals@.len(),
                r@.len() == i,
                forall|k: int| 0 <= k < i ==> (#[trigger] r@[k])@ == insts[k],
            decreases self.terminals@.len() - i,
        {
            proof {
                assert(insts[i as int] == self.terminals@[i as int].instance@);
            }
            r.push(self.terminals[i].instance.duplicate());
            i = i + 1;
        }
        assert(r@.map_values(|x: Instance| x@) =~= insts);
        r
    }

    /// Position of the terminal with the given id.
    fn position(&self, terminal_id: &str) -> (r: Option<usize>)
        requires
            self.wf(),
        ensures
            r matches Some(i) ==> i < self.terminals@.len() && index_of(self.spec_terminals(), terminal_id@) == Some(i as int),
            r is None ==> index_of(self.spec_terminals(), terminal_id@) is None,
    {
        let ghost ts = self.spec_terminals();
        let mut i: usize = 0;
        while i < self.terminals.len()
            invariant
                ts == self.spec_terminals(),
                registry_wf(ts),
                i <= self.terminals@.len(),
                forall|j: int| 0 <= j < i ==> (#[trigger] ts[j]).instance.id != terminal_id@,
            decreases self.terminals@.len() - i,
        {
            if str_eq(self.terminals[i].instance.id.as_str(), terminal_id) {
                proof {
                    assert(ts[i as int].instance.id == terminal_id@);
                    let k = choose|k: int| 0 <= k < ts.len() && ts[k].instance.id == terminal_id@;
                    if k != i {
                        if k < i {
                        } else {
                            assert(ts[i as int].instance.id != ts[k].instance.id);
                        }
                    }
                }
                return Some(i);
            }
            i = i + 1;
        }
        None
    }

    /// The terminal with the given id, if registered.
    pub fn get(&self, terminal_id: &str) -> (r: Option<&ManagedTerminal>)
        requires
            self.wf(),
        ensures
            match index_of(self.spec_terminals(), terminal_id@) {
                Some(i) => r matches Some(mt) && mt@ == self.spec_terminals()[i],
                None => r is None,
            },
    {
        match self.position(terminal_id) {
            Some(i) => Some(&self.terminals[i]),
            None => None,
        }
    }

    /// Stores a terminal: in place of the one with the same id, or appended.
    pub fn insert(&mut self, mt: ManagedTerminal)
        requires
            old(self).wf(),
            mt.tab_index < usize::MAX,
            session_free(old(self).spec_terminals(), mt@),
        ensures
            final(self).wf(),
            final(self).spec_terminals() == spec_insert(old(self).spec_terminals(), mt@),
    {
        let ghost ts = self.spec_terminals();
        let ghost t = mt@;
        match self.position(mt.instance.id.as_str()) {
            Some(i) => {
                self.terminals.set(i, mt);
                proof {
                    assert(self.spec_terminals() =~= ts.update(i as int, t));
                    let n = self.spec_terminals();
                    assert forall|a: int, b: int| 0 <= a < b < n.len() implies (#[trigger] n[a]).instance.id != (#[trigger] n[b]).instance.id by {
                        if a != i && b != i {
                            assert(n[a] == ts[a] && n[b] == ts[b]);
                        } else if a == i {
                            assert(n[b] == ts[b]);
                        } else {
                            assert(n[a] == ts[a]);
                        }
                    }
                    assert forall|a: int, b: int|
                        0 <= a < n.len() && 0 <= b < n.len() && a != b && (#[trigger] n[a]).hook_session_id is Some
                        implies n[a].hook_session_id != (#[trigger] n[b]).hook_session_id by {
                        if a != i && b != i {
                            assert(n[a] == ts[a] && n[b] == ts[b]);
                        } else if a == i {
                            assert(n[b] == ts[b]);
                            assert(ts[b].instance.id != ts[i as int].instance.id);
                        } else {
                            assert(n[a] == ts[a]);
                            assert(ts[a].instance.id != ts[i as int].instance.id);
                        }
                    }
                }
            },
            None => {
                self.terminals.push(mt);
                proof {
                    assert(self.spec_terminals() =~= ts.push(t));
                    let n = self.spec_terminals();
                    assert forall|a: int, b: int| 0 <= a < b < n.len() implies (#[trigger] n[a]).instance.id != (#[trigger] n[b]).instance.id by {
                        if b < ts.len() {
                            assert(n[a] == ts[a] && n[b] == ts[b]);
                        } else {
                            assert(n[a] == ts[a]);
                            assert(!(0 <= a < ts.len() && ts[a].instance.id == t.instance.id));
                        }
                    }
                    assert forall|a: int, b: int|
                        0 <= a < n.len() && 0 <= b < n.len() && a != b && (#[trigger] n[a]).hook_session_id is Some
                        implies n[a].hook_session_id != (#[trigger] n[b]).hook_session_id by {
                        if a < ts.len() && b < ts.len() {
                            assert(n[a] == ts[a] && n[b] == ts[b]);
                        } else if a == ts.len() {
                            assert(n[b] == ts[b]);
                            assert(!(ts[b].instance.id == t.instance.id));
                        } else {
                            assert(n[a] == ts[a]);
                            assert(!(ts[a].instance.id == t.instance.id));
                        }
                    }
                }
            },
        }
    }

    /// Records the window of a terminal, if the terminal is still registered.
    pub fn set_hwnd(&mut self, terminal_id: &str, hwnd: isize)
        requires
            old(self).wf(),
        ensures
            final(self).wf(),
            match index_of(old(self).spec_terminals(), terminal_id@) {
                Some(i) => final(self).spec_terminals() == old(self).spec_terminals().update(
                    i,
                    TerminalView { hwnd: Some(hwnd), ..old(self).spec_terminals()[i] },
                ),
                None => final(self).spec_terminals() == old(self).spec_terminals(),
            },
    {
        match self.position(terminal_id) {
            Some(i) => {
                let ghost ts = self.spec_terminals();
                let mut mt = self.terminals.remove(i);
                mt.hwnd = Some(hwnd);
                self.terminals.insert(i, mt);
                proof {
                    assert(self.spec_terminals() =~= ts.update(i as int, TerminalView { hwnd: Some(hwnd), ..ts[i as int] }));
                    let n = self.spec_terminals();
                    assert forall|a: int, b: int| 0 <= a < b < n.len() implies (#[trigger] n[a]).instance.id != (#[trigger] n[b]).instance.id by {
                        assert(n[a].instance.id == ts[a].instance.id && n[b].instance.id == ts[b].instance.id);
                    }
                }
            },
            None => {},
        }
    }
}

// ---------------------------------------------------------------------------
// Numbering, names and new instances.
// ---------------------------------------------------------------------------

/// Number of terminals of the project.
pub open spec fn count_project(ts: Seq<TerminalView>, project_id: Seq<char>) -> nat
    decreases ts.len(),
{
    if ts.len() == 0 {
        0
    } else {
        count_project(ts.drop_last(), project_id) + if ts.last().instance.project_id == project_id { 1nat } else { 0nat }
    }
}

/// Largest tab index among the project's terminals, if it has any.
pub open spec fn max_project_tab(ts: Seq<TerminalView>, project_id: Seq<char>) -> Option<usize>
    decreases ts.len(),
{
    if ts.len() == 0 {
        None
    } else {
        let rest = max_project_tab(ts.drop_last(), project_id);
        if ts.last().instance.project_id == project_id {
            match rest {
                Some(m) => if ts.last().tab_index > m { Some(ts.last().tab_index) } else { Some(m) },
                None => Some(ts.last().tab_index),
            }
        } else {
            rest
        }
    }
}

proof fn lemma_count_bound(ts: Seq<TerminalView>, project_id: Seq<char>)
    ensures
        count_project(ts, project_id) <= ts.len(),
    decreases ts.len(),
{
    if ts.len() > 0 {
        lemma_count_bound(ts.drop_last(), project_id);
    }
}

proof fn lemma_max_tab_bound(ts: Seq<TerminalView>, project_id: Seq<char>)
    requires
        registry_wf(ts),
    ensures
        max_project_tab(ts, project_id) matches Some(m) ==> m < usize::MAX,
    decreases ts.len(),
{
    if ts.len() > 0 {
        let d = ts.drop_last();
        assert forall|i: int, j: int| 0 <= i < j < d.len() implies (#[trigger] d[i]).instance.id != (#[trigger] d[j]).instance.id by {
            assert(d[i] == ts[i] && d[j] == ts[j]);
        }
        assert forall|i: int| 0 <= i < d.len() implies (#[trigger] d[i]).tab_index < usize::MAX by {
            assert(d[i] == ts[i]);
        }
        lemma_max_tab_bound(d, project_id);
        assert(ts.last() == ts[ts.len() - 1]);
    }
}

/// Another terminal of the project can be recorded: the registry is not
/// full and the next tab index stays below `usize::MAX`.
pub open spec fn has_room(ts: Seq<TerminalView>, project_id: Seq<char>) -> bool {
    &&& ts.len() < usize::MAX
    &&& max_project_tab(ts, project_id) matches Some(m) ==> m + 1 < usize::MAX
}

impl Manager {
    /// Whether another terminal of the project can be recorded (see `has_room`).
    pub fn has_room_for(&self, project_id: &str) -> (r: bool)
        requires
            self.wf(),
        ensures
            r == has_room(self.spec_terminals(), project_id@),
    {
        if self.terminals.len() == usize::MAX {
            return false;
        }
        let (_, next_tab) = self.next_terminal_number_and_tab(project_id);
        next_tab < usize::MAX
    }

    /// The number to give the next terminal of a project (one more than it
    /// has) and the tab index for it (one past the largest it uses, or 0).
    pub fn next_terminal_number_and_tab(&self, project_id: &str) -> (r: (usize, usize))
        requires
            self.wf(),
            self.spec_terminals().len() < usize::MAX,
        ensures
            r.0 == count_project(self.spec_terminals(), project_id@) + 1,
            r.1 == match max_project_tab(self.spec_terminals(), project_id@) {
                Some(m) => m + 1,
                None => 0,
            },
    {
        let ghost ts = self.spec_terminals();
        let n = self.terminals.len();
        let mut count: usize = 0;
        let mut max: Option<usize> = None;
        let mut i: usize = 0;
        proof {
            lemma_max_tab_bound(ts, project_id@);
        }
        while i < n
            invariant
                ts == self.spec_terminals(),
                registry_wf(ts),
                n == ts.len(),
                n < usize::MAX,
                i <= n,
                count as nat == count_project(ts.subrange(0, i as int), project_id@),
                count <= i,
                max == max_project_tab(ts.subrange(0, i as int), project_id@),
            decreases n - i,
        {
            proof {
                let s = ts.subrange(0, i + 1);
                assert(s.drop_last() =~= ts.subrange(0, i as int));
                assert(s.last() == ts[i as int]);
            }
            if str_eq(self.terminals[i].instance.project_id.as_str(), project_id) {
                count = count + 1;
                let t = self.terminals[i].tab_index;
                max = match max {
                    Some(m) => if t > m { Some(t) } else { Some(m) },
                    None => Some(t),
                };
            }
            i = i + 1;
        }
        assert(ts.subrange(0, n as int) =~= ts);
        let next_tab = match max {
            Some(m) => {
                assert(ts[0].tab_index < usize::MAX || true);
                proof { lemma_max_tab_bound(ts, project_id@); }
                m + 1
            },
            None => 0,
        };
        (count + 1, next_tab)
    }
}

/// The name of the `n`-th terminal of a project: "터미널 n" in Korean,
/// "Terminal n" otherwise.
pub open spec fn spec_terminal_name(language: Seq<char>, n: nat) -> Seq<char> {
    if language == "ko"@ {
        "터미널 "@ + decimal(n)
    } else {
        "Terminal "@ + decimal(n)
    }
}

/// The name of the `n`-th terminal of a project in the given language.
pub fn terminal_name(language: &str, n: usize) -> (r: String)
    ensures
        r@ == spec_terminal_name(language@, n as nat),
{
    let d = usize_to_decimal(n);
    if str_eq(language, "ko") {
        concat("터미널 ", d.as_str())
    } else {
        concat("Terminal ", d.as_str())
    }
}

/// A new running, active instance with notifications on, not yet monitored.
pub open spec fn spec_new_instance(
    id: Seq<char>,
    launched_at: Seq<char>,
    project_id: Seq<char>,
    project_name: Seq<char>,
    project_path: Seq<char>,
    number: nat,
    language: Seq<char>,
    attached: bool,
) -> InstanceView {
    InstanceView {
        id,
        project_id,
        project_name,
        project_path,
        terminal_name: spec_terminal_name(language, number),
        status: Status::Running,
        launched_at,
        activity: Activity::Active,
        notification_enabled: true,
        monitored: false,
        attached,
        last_idle_at: None,
    }
}

/// Builds the instance of a new terminal from its id and launch time.
pub fn build_instance(
    id: String,
    launched_at: String,
    project_id: &str,
    project_name: &str,
    project_path: &str,
    terminal_number: usize,
    language: &str,
    attached: bool,
) -> (r: Instance)
    ensures
        r@ == spec_new_instance(id@, launched_at@, project_id@, project_name@, project_path@, terminal_number as nat, language@, attached),
{
    Instance {
        id,
        project_id: owned(project_id),
        project_name: owned(project_name),
        project_path: owned(project_path),
        terminal_name: terminal_name(language, terminal_number),
        status: Status::Running,
        launched_at,
        activity: Activity::Active,
        notification_enabled: true,
        monitored: false,
        attached,
        last_idle_at: None,
    }
}

/// The characters of a hyphenated UUID: 36 of them, '-' at positions 8, 13,
/// 18 and 23, lower-case hexadecimal digits elsewhere.
pub open spec fn hyphenated_uuid(s: Seq<char>) -> bool {
    &&& s.len() == 36
    &&& forall|i: int| 0 <= i < 36 ==> if i == 8 || i == 13 || i == 18 || i == 23 {
        #[trigger] s[i] == '-'
    } else {
        ('0' <= s[i] && s[i] <= '9') || ('a' <= s[i] && s[i] <= 'f')
    }
}

/// Calls `uuid::Uuid::new_v4` and formats it with `to_string`. Claimed: the
/// text is a hyphenated lower-case UUID (the crate's `Display` writes the
/// hyphenated lower-case form). Which UUID it is depends on the random
/// source, so nothing more is claimed.
#[verifier::external_body]
pub(crate) fn new_uuid() -> (r: String)
    ensures
        hyphenated_uuid(r@),
{
    uuid::Uuid::new_v4().to_string()
}

/// A new instance with a fresh UUID as id and the current time as launch time.
pub fn create_instance(
    project_id: &str,
    project_name: &str,
    project_path: &str,
    terminal_number: usize,
    language: &str,
    attached: bool,
) -> (r: Instance)
    ensures
        hyphenated_uuid(r@.id),
        is_timestamp(r@.launched_at),
        r@ == spec_new_instance(r@.id, r@.launched_at, project_id@, project_name@, project_path@, terminal_number as nat, language@, attached),
{
    let id = new_uuid();
    let launched_at = crate::store::now_timestamp();
    build_instance(id, launched_at, project_id, project_name, project_path, terminal_number, language, attached)
}


// ---------------------------------------------------------------------------
// Validation of labels (project ids and names, terminal names).
// ---------------------------------------------------------------------------

/// A character allowed in a label: letters, digits, space, '-', '_' and '.'.
pub open spec fn label_char(c: char) -> bool {
    char_alphanumeric(c) || c == ' ' || c == '-' || c == '_' || c == '.'
}

pub open spec fn all_label_chars(s: Seq<char>) -> bool {
    forall|i: int| 0 <= i < s.len() ==> label_char(#[trigger] s[i])
}

/// Rejection message of a label, or `None`: at most 255 bytes of label characters.
pub open spec fn label_rejection(value: Seq<char>, too_long: Seq<char>, bad_chars: Seq<char>) -> Option<Seq<char>> {
    if byte_len(value) > MAX_LABEL_LENGTH {
        Some(too_long)
    } else if !all_label_chars(value) {
        Some(bad_chars)
    } else {
        None
    }
}

/// Whether every character of `s` is allowed in a label.
pub fn check_label_chars(s: &str) -> (r: bool)
    ensures
        r == all_label_chars(s@),
{
    let v = chars_of(s);
    let mut i: usize = 0;
    while i < v.len()
        invariant
            v@ == s@,
            i <= v@.len(),
            forall|j: int| 0 <= j < i ==> label_char(#[trigger] s@[j]),
        decreases v@.len() - i,
    {
        let c = v[i];
        if !(is_alphanumeric(c) || c == ' ' || c == '-' || c == '_' || c == '.') {
            return false;
        }
        i = i + 1;
    }
    true
}

fn validate_label(value: &str, too_long: &str, bad_chars: &str) -> (r: Result<(), AppError>)
    ensures
        outcome_is(r, label_rejection(value@, too_long@, bad_chars@)),
{
    if value.len() > MAX_LABEL_LENGTH {
        return Err(AppError::Validation(owned(too_long)));
    }
    if !check_label_chars(value) {
        return Err(AppError::Validation(owned(bad_chars)));
    }
    Ok(())
}

/// Rejection message for the project id and name of a terminal to open or
/// attach, or `None`.
pub open spec fn launch_params_rejection(project_id: Seq<char>, project_name: Seq<char>) -> Option<Seq<char>> {
    if label_rejection(project_id, "project_id가 너무 깁니다 (최대 255자)"@, "project_id에 허용되지 않는 문자가 포함되어 있습니다"@) is Some {
        label_rejection(project_id, "project_id가 너무 깁니다 (최대 255자)"@, "project_id에 허용되지 않는 문자가 포함되어 있습니다"@)
    } else {
        label_rejection(project_name, "project_name이 너무 깁니다 (최대 255자)"@, "project_name에 허용되지 않는 문자가 포함되어 있습니다"@)
    }
}

/// Checks the project id and name given for a terminal: each at most 255
/// bytes of letters, digits, spaces, '-', '_' and '.'.
pub fn validate_launch_params(project_id: &str, project_name: &str) -> (r: Result<(), AppError>)
    ensures
        outcome_is(r, launch_params_rejection(project_id@, project_name@)),
{
    validate_label(project_id, "project_id가 너무 깁니다 (최대 255자)", "project_id에 허용되지 않는 문자가 포함되어 있습니다")?;
    validate_label(project_name, "project_name이 너무 깁니다 (최대 255자)", "project_name에 허용되지 않는 문자가 포함되어 있습니다")
}

/// Rejection message for a new terminal name, or `None`.
pub open spec fn new_name_rejection(new_name: Seq<char>) -> Option<Seq<char>> {
    label_rejection(new_name, "new_name이 너무 깁니다 (최대 255자)"@, "new_name에 허용되지 않는 문자가 포함되어 있습니다"@)
}

// ---------------------------------------------------------------------------
// Registering, renaming, toggling, focusing and closing.
// ---------------------------------------------------------------------------

/// The tab index for the next terminal of a project: one past the largest
/// it uses, or 0.
pub open spec fn next_tab(ts: Seq<TerminalView>, project_id: Seq<char>) -> usize {
    match max_project_tab(ts, project_id) {
        Some(m) => (m + 1) as usize,
        None => 0usize,
    }
}

/// Why attaching a tab to a project is refused, if it is: a bad project id
/// or name, or a project path that is not a directory.
pub open spec fn attach_rejection(project_id: Seq<char>, project_name: Seq<char>, project_path: Seq<char>, path_is_dir: bool) -> Option<Seq<char>> {
    if launch_params_rejection(project_id, project_name) is Some {
        launch_params_rejection(project_id, project_name)
    } else if !path_is_dir {
        Some("Invalid project path: "@ + project_path)
    } else {
        None
    }
}

/// The state of a terminal just opened by the application.
pub open spec fn launched_terminal(inst: InstanceView, tab_index: usize) -> TerminalView {
    TerminalView {
        instance: inst,
        hwnd: None,
        tab_index,
        runtime_id: None,
        title_tracking: false,
        pending_active_since: None,
        hook_session_id: None,
        tab_renamed: false,
        attached: false,
    }
}

/// The state of an outside tab just attached.
pub open spec fn attached_terminal(inst: InstanceView, tab_index: usize, hwnd: isize, rid: Seq<i32>) -> TerminalView {
    TerminalView {
        instance: inst,
        hwnd: Some(hwnd),
        tab_index,
        runtime_id: Some(rid),
        title_tracking: false,
        pending_active_since: None,
        hook_session_id: None,
        tab_renamed: true,
        attached: true,
    }
}

/// The message when a terminal's window has closed.
pub open spec fn window_closed_message(id: Seq<char>) -> Seq<char> {
    "터미널 창이 닫혔습니다: "@ + id
}

/// A terminal after it was focused: active, with no pending change of
/// activity.
pub open spec fn focused(t: TerminalView) -> TerminalView {
    TerminalView { instance: InstanceView { activity: Activity::Active, ..t.instance }, pending_active_since: None, ..t }
}

/// What is needed to bring a terminal's tab to the front.
#[derive(Debug)]
pub struct FocusTarget {
    pub instance: Instance,
    pub project_id: String,
    /// Number of the project's terminals whose tab index is smaller.
    pub effective_index: usize,
    pub hwnd: Option<isize>,
    pub attached: bool,
    pub runtime_id: Option<Vec<i32>>,
}

/// Number of the project's terminals whose tab index is below `tab_index`.
pub open spec fn count_before(ts: Seq<TerminalView>, project_id: Seq<char>, tab_index: usize) -> nat
    decreases ts.len(),
{
    if ts.len() == 0 {
        0
    } else {
        count_before(ts.drop_last(), project_id, tab_index)
            + if ts.last().instance.project_id == project_id && ts.last().tab_index < tab_index { 1nat } else { 0nat }
    }
}

proof fn lemma_count_before_bound(ts: Seq<TerminalView>, project_id: Seq<char>, tab_index: usize)
    ensures
        count_before(ts, project_id, tab_index) <= ts.len(),
    decreases ts.len(),
{
    if ts.len() > 0 {
        lemma_count_before_bound(ts.drop_last(), project_id, tab_index);
    }
}

fn count_tabs_before(ts: &Vec<ManagedTerminal>, project_id: &str, tab_index: usize) -> (r: usize)
    ensures
        r == count_before(terminals_view(ts@), project_id@, tab_index),
{
    let ghost v = terminals_view(ts@);
    let mut c: usize = 0;
    let mut i: usize = 0;
    while i < ts.len()
        invariant
            v == terminals_view(ts@),
            i <= ts@.len(),
            c == count_before(v.subrange(0, i as int), project_id@, tab_index),
            c <= i,
        decreases ts@.len() - i,
    {
        proof {
            let s = v.subrange(0, i + 1);
            assert(s.drop_last() =~= v.subrange(0, i as int));
            assert(s.last() == ts@[i as int]@);
        }
        if str_eq(ts[i].instance.project_id.as_str(), project_id) && ts[i].tab_index < tab_index {
            c = c + 1;
        }
        i = i + 1;
    }
    assert(v.subrange(0, i as int) =~= v);
    c
}

/// How a terminal is to be closed.
#[derive(Debug, Clone, Copy, PartialEq, Eq, Structural)]
pub enum CloseAction {
    /// Close the whole window: it shows only this tab.
    CloseWindow,
    /// Select the tab and close just it.
    CloseTab,
    /// The window is gone or unknown: end the process that was started.
    KillProcess,
}

/// What remains to be done once a terminal has left the registry.
#[derive(Debug)]
pub struct ClosePlan {
    pub project_id: String,
    /// Number of the project's terminals whose tab index was smaller.
    pub effective_index: usize,
    pub hwnd: Option<isize>,
    pub attached: bool,
    pub runtime_id: Option<Vec<i32>>,
    /// Another managed terminal still uses the same window.
    pub siblings_in_same_hwnd: bool,
}

/// The action for a closed terminal, given whether its window still exists
/// and how many tabs the window shows.
pub open spec fn spec_close_action(hwnd: Option<isize>, window_alive: bool, tab_count: usize, siblings: bool) -> CloseAction {
    if hwnd is None || !window_alive {
        CloseAction::KillProcess
    } else if tab_count == 1 && !siblings {
        CloseAction::CloseWindow
    } else {
        CloseAction::CloseTab
    }
}

/// Decides how a closed terminal's tab goes away: the window is closed when
/// it shows only this tab and no other managed terminal uses it, the tab
/// alone is closed when others remain, and the process is ended when the
/// window is gone or was never found.
pub fn close_action(plan: &ClosePlan, window_alive: bool, tab_count: usize) -> (r: CloseAction)
    ensures
        r == spec_close_action(plan.hwnd, window_alive, tab_count, plan.siblings_in_same_hwnd),
{
    if plan.hwnd.is_none() || !window_alive {
        CloseAction::KillProcess
    } else if tab_count == 1 && !plan.siblings_in_same_hwnd {
        CloseAction::CloseWindow
    } else {
        CloseAction::CloseTab
    }
}

/// Some terminal of `ts` uses the window `hwnd`.
pub open spec fn uses_hwnd(ts: Seq<TerminalView>, hwnd: isize) -> bool {
    exists|i: int| 0 <= i < ts.len() && (#[trigger] ts[i]).hwnd == Some(hwnd)
}

proof fn lemma_wf_remove(ts: Seq<TerminalView>, i: int)
    requires
        registry_wf(ts),
        0 <= i < ts.len(),
    ensures
        registry_wf(ts.remove(i)),
        sessions_unique(ts) ==> sessions_unique(ts.remove(i)),
{
    let n = ts.remove(i);
    if sessions_unique(ts) {
        assert forall|a: int, b: int|
            0 <= a < n.len() && 0 <= b < n.len() && a != b && (#[trigger] n[a]).hook_session_id is Some
            implies n[a].hook_session_id != (#[trigger] n[b]).hook_session_id by {
            let a2 = if a < i { a } else { a + 1 };
            let b2 = if b < i { b } else { b + 1 };
            assert(n[a] == ts[a2] && n[b] == ts[b2]);
        }
    }
    assert forall|a: int, b: int| 0 <= a < b < n.len() implies (#[trigger] n[a]).instance.id != (#[trigger] n[b]).instance.id by {
        let a2 = if a < i { a } else { a + 1 };
        let b2 = if b < i { b } else { b + 1 };
        assert(n[a] == ts[a2] && n[b] == ts[b2]);
    }
    assert forall|a: int| 0 <= a < n.len() implies (#[trigger] n[a]).tab_index < usize::MAX by {
        let a2 = if a < i { a } else { a + 1 };
        assert(n[a] == ts[a2]);
    }
}

proof fn lemma_wf_update(ts: Seq<TerminalView>, i: int, t: TerminalView)
    requires
        registry_wf(ts),
        0 <= i < ts.len(),
        t.instance.id == ts[i].instance.id,
        t.tab_index < usize::MAX,
    ensures
        registry_wf(ts.update(i, t)),
        sessions_unique(ts) && t.hook_session_id == ts[i].hook_session_id ==> sessions_unique(ts.update(i, t)),
{
    let n = ts.update(i, t);
    if sessions_unique(ts) && t.hook_session_id == ts[i].hook_session_id {
        assert forall|a: int, b: int|
            0 <= a < n.len() && 0 <= b < n.len() && a != b && (#[trigger] n[a]).hook_session_id is Some
            implies n[a].hook_session_id != (#[trigger] n[b]).hook_session_id by {
            assert(n[a].hook_session_id == ts[a].hook_session_id && n[b].hook_session_id == ts[b].hook_session_id);
        }
    }
    assert forall|a: int, b: int| 0 <= a < b < n.len() implies (#[trigger] n[a]).instance.id != (#[trigger] n[b]).instance.id by {
        assert(n[a].instance.id == ts[a].instance.id && n[b].instance.id == ts[b].instance.id);
    }
}

impl Manager {
    /// Records a terminal the application has just opened for a project: a
    /// fresh instance (see `create_instance`) numbered after the project's
    /// other terminals, with the next tab index, no window yet.
    pub fn register_launched(&mut self, project_id: &str, project_name: &str, project_path: &str, language: &str) -> (r: Instance)
        requires
            old(self).wf(),
            has_room(old(self).spec_terminals(), project_id@),
        ensures
            final(self).wf(),
            hyphenated_uuid(r@.id),
            is_timestamp(r@.launched_at),
            r@ == spec_new_instance(
                r@.id, r@.launched_at, project_id@, project_name@, project_path@,
                count_project(old(self).spec_terminals(), project_id@) + 1, language@, false),
            final(self).spec_terminals() == spec_insert(
                old(self).spec_terminals(),
                launched_terminal(r@, match max_project_tab(old(self).spec_terminals(), project_id@) {
                    Some(m) => (m + 1) as usize,
                    None => 0usize,
                }),
            ),
    {
        let (number, tab_index) = self.next_terminal_number_and_tab(project_id);
        proof { lemma_max_tab_bound(self.spec_terminals(), project_id@); }
        let inst = create_instance(project_id, project_name, project_path, number, language, false);
        let r = inst.duplicate();
        let mt = ManagedTerminal {
            instance: inst,
            hwnd: None,
            tab_index,
            runtime_id: None,
            title_tracking: false,
            pending_active_since: None,
            hook_session_id: None,
            tab_renamed: false,
            attached: false,
        };
        self.insert(mt);
        r
    }

    /// Attaches a tab of an outside window to a project: checks the project
    /// id and name and that the project path is a directory (as reported by
    /// the caller), then records a fresh instance marked attached, with the
    /// window and tab runtime id, numbered after the project's terminals.
    /// The tab counts as renamed (its title is not the application's).
    pub fn attach_terminal(
        &mut self,
        hwnd: isize,
        runtime_id: Vec<i32>,
        project_id: &str,
        project_name: &str,
        project_path: &str,
        language: &str,
        path_is_dir: bool,
    ) -> (r: Result<Instance, AppError>)
        requires
            old(self).wf(),
            has_room(old(self).spec_terminals(), project_id@),
        ensures
            final(self).wf(),
            outcome_is(r, attach_rejection(project_id@, project_name@, project_path@, path_is_dir)),
            r is Err ==> final(self).spec_terminals() == old(self).spec_terminals(),
            r matches Ok(inst) ==> hyphenated_uuid(inst@.id) && is_timestamp(inst@.launched_at)
                && inst@ == spec_new_instance(
                    inst@.id, inst@.launched_at, project_id@, project_name@, project_path@,
                    count_project(old(self).spec_terminals(), project_id@) + 1, language@, true)
                && final(self).spec_terminals() == spec_insert(
                    old(self).spec_terminals(),
                    attached_terminal(inst@, next_tab(old(self).spec_terminals(), project_id@), hwnd, runtime_id@),
                ),
    {
        let r = self.attach_terminal_as(hwnd, runtime_id, project_id, project_name, project_path, language, path_is_dir, true);
        proof {
            if r is Ok {
                let inst = r->Ok_0;
                let t = attached_terminal(inst@, next_tab(old(self).spec_terminals(), project_id@), hwnd, runtime_id@);
                assert((TerminalView { tab_renamed: true, ..t }) == t);
            }
        }
        r
    }

    /// As `attach_terminal`, with the given renamed flag for the tab.
    pub(crate) fn attach_terminal_as(
        &mut self,
        hwnd: isize,
        runtime_id: Vec<i32>,
        project_id: &str,
        project_name: &str,
        project_path: &str,
        language: &str,
        path_is_dir: bool,
        tab_renamed: bool,
    ) -> (r: Result<Instance, AppError>)
        requires
            old(self).wf(),
            has_room(old(self).spec_terminals(), project_id@),
        ensures
            final(self).wf(),
            outcome_is(r, attach_rejection(project_id@, project_name@, project_path@, path_is_dir)),
            r is Err ==> final(self).spec_terminals() == old(self).spec_terminals(),
            r matches Ok(inst) ==> hyphenated_uuid(inst@.id) && is_timestamp(inst@.launched_at)
                && inst@ == spec_new_instance(
                    inst@.id, inst@.launched_at, project_id@, project_name@, project_path@,
                    count_project(old(self).spec_terminals(), project_id@) + 1, language@, true)
                && final(self).spec_terminals() == spec_insert(
                    old(self).spec_terminals(),
                    (TerminalView {
                        tab_renamed: tab_renamed,
                        ..attached_terminal(inst@, next_tab(old(self).spec_terminals(), project_id@), hwnd, runtime_id@)
                    }),
                ),
    {
        validate_launch_params(project_id, project_name)?;
        if !path_is_dir {
            return Err(AppError::Validation(concat("Invalid project path: ", project_path)));
        }
        let (number, tab_index) = self.next_terminal_number_and_tab(project_id);
        proof { lemma_max_tab_bound(self.spec_terminals(), project_id@); }
        let inst = create_instance(project_id, project_name, project_path, number, language, true);
        let r = inst.duplicate();
        let mt = ManagedTerminal {
            instance: inst,
            hwnd: Some(hwnd),
            tab_index,
            runtime_id: Some(runtime_id),
            title_tracking: false,
            pending_active_since: None,
            hook_session_id: None,
            tab_renamed: tab_renamed,
            attached: true,
        };
        self.insert(mt);
        Ok(r)
    }

    /// Records an instance as a terminal opened by the application, with the
    /// next tab index of its project and no window yet (for tests).
    pub fn register_terminal_for_test(&mut self, instance: Instance)
        requires
            old(self).wf(),
            has_room(old(self).spec_terminals(), instance@.project_id),
        ensures
            final(self).wf(),
            final(self).spec_terminals() == spec_insert(
                old(self).spec_terminals(),
                launched_terminal(instance@, next_tab(old(self).spec_terminals(), instance@.project_id)),
            ),
    {
        let (_, tab_index) = self.next_terminal_number_and_tab(instance.project_id.as_str());
        proof { lemma_max_tab_bound(self.spec_terminals(), instance@.project_id); }
        let mt = ManagedTerminal {
            instance: instance,
            hwnd: None,
            tab_index,
            runtime_id: None,
            title_tracking: false,
            pending_active_since: None,
            hook_session_id: None,
            tab_renamed: false,
            attached: false,
        };
        self.insert(mt);
    }

    /// Marks a terminal's tab as still carrying the application's title
    /// prefix (so that its title is watched for the idle marker).
    pub fn mark_title_prefixed(&mut self, terminal_id: &str)
        requires
            old(self).wf(),
        ensures
            final(self).wf(),
            match index_of(old(self).spec_terminals(), terminal_id@) {
                Some(i) => final(self).spec_terminals() == old(self).spec_terminals().update(
                    i,
                    TerminalView { tab_renamed: false, ..old(self).spec_terminals()[i] },
                ),
                None => final(self).spec_terminals() == old(self).spec_terminals(),
            },
    {
        match self.position(terminal_id) {
            Some(i) => {
                let ghost ts = self.spec_terminals();
                let mut mt = self.terminals.remove(i);
                mt.tab_renamed = false;
                self.terminals.insert(i, mt);
                proof {
                    assert(self.spec_terminals() =~= ts.update(i as int, TerminalView { tab_renamed: false, ..ts[i as int] }));
                    lemma_wf_update(ts, i as int, TerminalView { tab_renamed: false, ..ts[i as int] });
                }
            },
            None => {},
        }
    }

    /// Renames a terminal. The name must be at most 255 bytes of letters,
    /// digits, spaces, '-', '_' and '.'; the terminal must exist.
    pub fn rename(&mut self, terminal_id: &str, new_name: &str) -> (r: Result<Instance, AppError>)
        requires
            old(self).wf(),
        ensures
            final(self).wf(),
            new_name_rejection(new_name@) is Some ==> (outcome_is(r, new_name_rejection(new_name@))
                && final(self).spec_terminals() == old(self).spec_terminals()),
            new_name_rejection(new_name@) is None && index_of(old(self).spec_terminals(), terminal_id@) is None ==> (
                r matches Err(AppError::Terminal(m)) && m@ == not_found_message(terminal_id@)
                && final(self).spec_terminals() == old(self).spec_terminals()),
            new_name_rejection(new_name@) is None ==> match index_of(old(self).spec_terminals(), terminal_id@) {
                Some(i) => {
                    let t = old(self).spec_terminals()[i];
                    let t2 = TerminalView { instance: InstanceView { terminal_name: new_name@, ..t.instance }, ..t };
                    &&& final(self).spec_terminals() == old(self).spec_terminals().update(i, t2)
                    &&& r matches Ok(inst) && inst@ == t2.instance
                },
                None => true,
            },
    {
        validate_label(new_name, "new_name이 너무 깁니다 (최대 255자)", "new_name에 허용되지 않는 문자가 포함되어 있습니다")?;
        match self.position(terminal_id) {
            Some(i) => {
                let ghost ts = self.spec_terminals();
                let mut mt = self.terminals.remove(i);
                mt.instance.terminal_name = owned(new_name);
                let r = mt.instance.duplicate();
                self.terminals.insert(i, mt);
                proof {
                    let t2 = TerminalView { instance: InstanceView { terminal_name: new_name@, ..ts[i as int].instance }, ..ts[i as int] };
                    assert(self.spec_terminals() =~= ts.update(i as int, t2));
                    lemma_wf_update(ts, i as int, t2);
                }
                Ok(r)
            },
            None => Err(AppError::Terminal(concat("터미널을 찾을 수 없습니다: ", terminal_id))),
        }
    }

    /// Turns a terminal's notifications off when on and on when off.
    pub fn toggle_notification(&mut self, terminal_id: &str) -> (r: Result<Instance, AppError>)
        requires
            old(self).wf(),
        ensures
            final(self).wf(),
            match index_of(old(self).spec_terminals(), terminal_id@) {
                Some(i) => {
                    let t = old(self).spec_terminals()[i];
                    let t2 = TerminalView {
                        instance: InstanceView { notification_enabled: !t.instance.notification_enabled, ..t.instance },
                        ..t
                    };
                    &&& final(self).spec_terminals() == old(self).spec_terminals().update(i, t2)
                    &&& r matches Ok(inst) && inst@ == t2.instance
                },
                None => r matches Err(AppError::Terminal(m)) && m@ == not_found_message(terminal_id@)
                    && final(self).spec_terminals() == old(self).spec_terminals(),
            },
    {
        match self.position(terminal_id) {
            Some(i) => {
                let ghost ts = self.spec_terminals();
                let mut mt = self.terminals.remove(i);
                mt.instance.notification_enabled = !mt.instance.notification_enabled;
                let r = mt.instance.duplicate();
                self.terminals.insert(i, mt);
                proof {
                    let t = ts[i as int];
                    let t2 = TerminalView {
                        instance: InstanceView { notification_enabled: !t.instance.notification_enabled, ..t.instance },
                        ..t
                    };
                    assert(self.spec_terminals() =~= ts.update(i as int, t2));
                    lemma_wf_update(ts, i as int, t2);
                }
                Ok(r)
            },
            None => Err(AppError::Terminal(concat("터미널을 찾을 수 없습니다: ", terminal_id))),
        }
    }

    /// Focuses a terminal: switches it to active and resets its idle timer
    /// (no pending change of activity), and returns what is needed to bring
    /// it to the front: its instance, project, window, tab runtime id, and
    /// its position among the project's tabs. `window_gone` says that the
    /// terminal's window no longer exists; a terminal with a known window that
    /// is gone is refused and left as it was.
    pub fn focus_target(&mut self, terminal_id: &str, window_gone: bool) -> (r: Result<FocusTarget, AppError>)
        requires
            old(self).wf(),
        ensures
            final(self).wf(),
            match index_of(old(self).spec_terminals(), terminal_id@) {
                Some(i) if window_gone && old(self).spec_terminals()[i].hwnd is Some =>
                    r matches Err(AppError::Terminal(m)) && m@ == window_closed_message(terminal_id@)
                    && final(self).spec_terminals() == old(self).spec_terminals(),
                Some(i) => {
                    let t = old(self).spec_terminals()[i];
                    let t2 = focused(t);
                    &&& final(self).spec_terminals() == old(self).spec_terminals().update(i, t2)
                    &&& r matches Ok(f) && f.instance@ == t2.instance && f.project_id@ == t.instance.project_id
                        && f.hwnd == t.hwnd && f.attached == t.attached && rid_view(f.runtime_id) == t.runtime_id
                        && f.effective_index == count_before(old(self).spec_terminals(), t.instance.project_id, t.tab_index)
                },
                None => r matches Err(AppError::Terminal(m)) && m@ == not_found_message(terminal_id@)
                    && final(self).spec_terminals() == old(self).spec_terminals(),
            },
    {
        match self.position(terminal_id) {
            Some(i) if window_gone && self.terminals[i].hwnd.is_some() => {
                Err(AppError::Terminal(concat("터미널 창이 닫혔습니다: ", terminal_id)))
            },
            Some(i) => {
                let ghost ts = self.spec_terminals();
                let effective_index = count_tabs_before(&self.terminals, self.terminals[i].instance.project_id.as_str(), self.terminals[i].tab_index);
                let mut mt = self.terminals.remove(i);
                mt.instance.activity = Activity::Active;
                mt.pending_active_since = None;
                let f = FocusTarget {
                    instance: mt.instance.duplicate(),
                    project_id: mt.instance.project_id.clone(),
                    effective_index,
                    hwnd: mt.hwnd,
                    attached: mt.attached,
                    runtime_id: copy_opt_rid(&mt.runtime_id),
                };
                self.terminals.insert(i, mt);
                proof {
                    let t2 = focused(ts[i as int]);
                    assert(self.spec_terminals() =~= ts.update(i as int, t2));
                    lemma_wf_update(ts, i as int, t2);
                }
                Ok(f)
            },
            None => Err(AppError::Terminal(concat("터미널을 찾을 수 없습니다: ", terminal_id))),
        }
    }

    /// Takes a terminal out of the registry and returns what closing its tab
    /// needs: project, position among the project's tabs (counted before the
    /// removal), window, runtime id, and whether another terminal still uses
    /// the window.
    pub fn remove_for_close(&mut self, terminal_id: &str) -> (r: Result<ClosePlan, AppError>)
        requires
            old(self).wf(),
        ensures
            final(self).wf(),
            match index_of(old(self).spec_terminals(), terminal_id@) {
                Some(i) => {
                    let t = old(self).spec_terminals()[i];
                    &&& final(self).spec_terminals() == old(self).spec_terminals().remove(i)
                    &&& r matches Ok(p) && p.project_id@ == t.instance.project_id && p.hwnd == t.hwnd
                        && p.attached == t.attached && rid_view(p.runtime_id) == t.runtime_id
                        && p.effective_index == count_before(old(self).spec_terminals(), t.instance.project_id, t.tab_index)
                        && (p.siblings_in_same_hwnd <==> (t.hwnd matches Some(h) && uses_hwnd(final(self).spec_terminals(), h)))
                },
                None => r matches Err(AppError::Terminal(m)) && m@ == not_found_message(terminal_id@)
                    && final(self).spec_terminals() == old(self).spec_terminals(),
            },
    {
        match self.position(terminal_id) {
            Some(i) => {
                let ghost ts = self.spec_terminals();
                let effective_index = count_tabs_before(&self.terminals, self.terminals[i].instance.project_id.as_str(), self.terminals[i].tab_index);
                let mt = self.terminals.remove(i);
                proof {
                    assert(self.spec_terminals() =~= ts.remove(i as int));
                    lemma_wf_remove(ts, i as int);
                }
                let siblings = match mt.hwnd {
                    Some(h) => self.any_uses_hwnd(h),
                    None => false,
                };
                Ok(ClosePlan {
                    project_id: mt.instance.project_id,
                    effective_index,
                    hwnd: mt.hwnd,
                    attached: mt.attached,
                    runtime_id: mt.runtime_id,
                    siblings_in_same_hwnd: siblings,
                })
            },
            None => Err(AppError::Terminal(concat("터미널을 찾을 수 없습니다: ", terminal_id))),
        }
    }

    /// Whether some terminal uses the window.
    pub fn any_uses_hwnd(&self, hwnd: isize) -> (r: bool)
        ensures
            r == uses_hwnd(self.spec_terminals(), hwnd),
    {
        let ghost ts = self.spec_terminals();
        let mut i: usize = 0;
        while i < self.terminals.len()
            invariant
                ts == self.spec_terminals(),
                i <= ts.len(),
                forall|j: int| 0 <= j < i ==> (#[trigger] ts[j]).hwnd != Some(hwnd),
            decreases ts.len() - i,
        {
            if self.terminals[i].hwnd == Some(hwnd) {
                assert(ts[i as int].hwnd == Some(hwnd));
                return true;
            }
            i = i + 1;
        }
        false
    }

    /// Forgets the tab runtime ids of every terminal in the window: once a
    /// tab is closed the window renumbers its tabs.
    pub fn forget_runtime_ids(&mut self, hwnd: isize)
        requires
            old(self).wf(),
        ensures
            final(self).wf(),
            final(self).spec_terminals().len() == old(self).spec_terminals().len(),
            forall|i: int| 0 <= i < old(self).spec_terminals().len() ==> #[trigger] final(self).spec_terminals()[i] == (
                if old(self).spec_terminals()[i].hwnd == Some(hwnd) {
                    TerminalView { runtime_id: None, ..old(self).spec_terminals()[i] }
                } else {
                    old(self).spec_terminals()[i]
                }),
    {
        let ghost ts = self.spec_terminals();
        let mut i: usize = 0;
        while i < self.terminals.len()
            invariant
                i <= self.terminals@.len(),
                self.spec_terminals().len() == ts.len(),
                registry_wf(self.spec_terminals()),
                sessions_unique(self.spec_terminals()),
                forall|k: int| 0 <= k < ts.len() ==> (#[trigger] self.spec_terminals()[k]).instance.id == ts[k].instance.id,
                forall|k: int| 0 <= k < i ==> #[trigger] self.spec_terminals()[k] == (
                    if ts[k].hwnd == Some(hwnd) { TerminalView { runtime_id: None, ..ts[k] } } else { ts[k] }),
                forall|k: int| i <= k < ts.len() ==> #[trigger] self.spec_terminals()[k] == ts[k],
            decreases ts.len() - i,
        {
            if self.terminals[i].hwnd == Some(hwnd) {
                let ghost cur = self.spec_terminals();
                let mut mt = self.terminals.remove(i);
                mt.runtime_id = None;
                self.terminals.insert(i, mt);
                proof {
                    assert(self.spec_terminals() =~= cur.update(i as int, TerminalView { runtime_id: None, ..cur[i as int] }));
                    lemma_wf_update(cur, i as int, TerminalView { runtime_id: None, ..cur[i as int] });
                }
            }
            i = i + 1;
        }
    }

    /// Removes a terminal, if present.
    pub fn remove(&mut self, terminal_id: &str)
        requires
            old(self).wf(),
        ensures
            final(self).wf(),
            match index_of(old(self).spec_terminals(), terminal_id@) {
                Some(i) => final(self).spec_terminals() == old(self).spec_terminals().remove(i),
                None => final(self).spec_terminals() == old(self).spec_terminals(),
            },
    {
        match self.position(terminal_id) {
            Some(i) => {
                let ghost ts = self.spec_terminals();
                let _ = self.terminals.remove(i);
                proof {
                    assert(self.spec_terminals() =~= ts.remove(i as int));
                    lemma_wf_remove(ts, i as int);
                }
            },
            None => {},
        }
    }
}


// ---------------------------------------------------------------------------
// Hook events.
// ---------------------------------------------------------------------------

/// A path as compared with hook events: lower case, '/' read as '\', trailing
/// '\' removed.
pub open spec fn norm_path(p: Seq<char>) -> Seq<char> {
    trim_end_char_seq(replace_char_seq(lowercase(p), '/', '\\'), '\\')
}

/// Normalises a path for comparison with hook events.
pub fn normalize_path(p: &str) -> (r: String)
    ensures
        r@ == norm_path(p@),
{
    let lower = to_lowercase(p);
    let replaced = replace_char(lower.as_str(), '/', '\\');
    trim_end_char(replaced.as_str(), '\\')
}

/// How a terminal is chosen for a hook event, in order of preference:
/// 0, already mapped to the session; then among running terminals of the
/// event's folder not mapped to any session: 1, one whose tab was renamed;
/// 2, one whose title is not watched; 3, any.
pub open spec fn hook_pred(kind: int, t: TerminalView, sid: Seq<char>, np: Seq<char>) -> bool {
    if kind == 0 {
        t.hook_session_id == Some(sid)
    } else {
        &&& t.instance.status == Status::Running
        &&& t.hook_session_id is None
        &&& norm_path(t.instance.project_path) == np
        &&& (kind == 1 ==> t.tab_renamed)
        &&& (kind == 2 ==> !t.title_tracking)
    }
}

/// The first terminal satisfying `hook_pred(kind, ..)`.
pub open spec fn first_hook_match(ts: Seq<TerminalView>, kind: int, sid: Seq<char>, np: Seq<char>) -> Option<int>
    decreases ts.len(),
{
    if ts.len() == 0 {
        None
    } else if hook_pred(kind, ts[0], sid, np) {
        Some(0)
    } else {
        match first_hook_match(ts.drop_first(), kind, sid, np) {
            Some(i) => Some(i + 1),
            None => None,
        }
    }
}

proof fn lemma_first_hook_match(ts: Seq<TerminalView>, kind: int, sid: Seq<char>, np: Seq<char>, i: int)
    requires
        0 <= i <= ts.len(),
        forall|j: int| 0 <= j < i ==> !hook_pred(kind, #[trigger] ts[j], sid, np),
        i < ts.len() ==> hook_pred(kind, ts[i], sid, np),
    ensures
        first_hook_match(ts, kind, sid, np) == (if i < ts.len() { Some(i) } else { None::<int> }),
    decreases ts.len(),
{
    if ts.len() > 0 && i > 0 {
        let d = ts.drop_first();
        assert forall|j: int| 0 <= j < i - 1 implies !hook_pred(kind, #[trigger] d[j], sid, np) by {
            assert(d[j] == ts[j + 1]);
        }
        if i < ts.len() {
            assert(d[i - 1] == ts[i]);
        }
        lemma_first_hook_match(d, kind, sid, np, i - 1);
    }
}

/// The terminal a hook event applies to, if any.
pub open spec fn hook_target(ts: Seq<TerminalView>, sid: Seq<char>, path: Seq<char>) -> Option<int> {
    let np = norm_path(path);
    if first_hook_match(ts, 0, sid, np) is Some {
        first_hook_match(ts, 0, sid, np)
    } else if first_hook_match(ts, 1, sid, np) is Some {
        first_hook_match(ts, 1, sid, np)
    } else if first_hook_match(ts, 2, sid, np) is Some {
        first_hook_match(ts, 2, sid, np)
    } else {
        first_hook_match(ts, 3, sid, np)
    }
}

/// A terminal once a hook event of session `sid` applies to it: mapped to
/// the session (if it was not mapped yet) and monitored; on "Stop" a
/// non-idle terminal becomes idle at `now`, on "UserPromptSubmit" a
/// non-active terminal becomes active; the change is reported.
pub open spec fn hook_update(t: TerminalView, sid: Seq<char>, event: Seq<char>, now: Seq<char>) -> (TerminalView, Option<TransitionView>) {
    let t1 = TerminalView {
        hook_session_id: if t.hook_session_id is None { Some(sid) } else { t.hook_session_id },
        instance: InstanceView { monitored: true, ..t.instance },
        ..t
    };
    if event == "Stop"@ && t1.instance.activity != Activity::Idle {
        let t2 = TerminalView {
            instance: InstanceView { activity: Activity::Idle, last_idle_at: Some(now), ..t1.instance },
            pending_active_since: None,
            ..t1
        };
        (t2, Some(transition_of(t2)))
    } else if event == "UserPromptSubmit"@ && t1.instance.activity != Activity::Active {
        let t2 = TerminalView {
            instance: InstanceView { activity: Activity::Active, ..t1.instance },
            pending_active_since: None,
            ..t1
        };
        (t2, Some(transition_of(t2)))
    } else {
        (t1, None)
    }
}

/// The registry and the reported changes after a hook event.
pub open spec fn hook_step(ts: Seq<TerminalView>, sid: Seq<char>, path: Seq<char>, event: Seq<char>, now: Seq<char>)
    -> (Seq<TerminalView>, Seq<TransitionView>)
{
    match hook_target(ts, sid, path) {
        None => (ts, Seq::empty()),
        Some(i) => {
            let (t2, tr) = hook_update(ts[i], sid, event, now);
            (ts.update(i, t2), match tr {
                Some(x) => seq![x],
                None => Seq::empty(),
            })
        },
    }
}

/// Applies a hook event to one terminal (see `hook_update`).
fn hook_update_exec(mt: ManagedTerminal, session_id: &str, event_name: &str, now: &str) -> (r: (ManagedTerminal, Option<TransitionTuple>))
    ensures
        r.0@ == hook_update(mt@, session_id@, event_name@, now@).0,
        match r.1 {
            Some(x) => hook_update(mt@, session_id@, event_name@, now@).1 == Some(transition_view(x)),
            None => hook_update(mt@, session_id@, event_name@, now@).1 is None,
        },
{
    let ghost t = mt@;
    let mut mt = mt;
    if mt.hook_session_id.is_none() {
        mt.hook_session_id = Some(owned(session_id));
    }
    mt.instance.monitored = true;
    proof {
        reveal_strlit("Stop");
        reveal_strlit("UserPromptSubmit");
    }
    if str_eq(event_name, "Stop") && mt.instance.activity != Activity::Idle {
        mt.instance.activity = Activity::Idle;
        mt.instance.last_idle_at = Some(owned(now));
        mt.pending_active_since = None;
        let x = transition_for(&mt);
        (mt, Some(x))
    } else if str_eq(event_name, "UserPromptSubmit") && mt.instance.activity != Activity::Active {
        mt.instance.activity = Activity::Active;
        mt.pending_active_since = None;
        let x = transition_for(&mt);
        (mt, Some(x))
    } else {
        (mt, None)
    }
}

impl Manager {
    fn hook_match_at(&self, i: usize, kind: u8, sid: &str, np: &str) -> (r: bool)
        requires
            i < self.spec_terminals().len(),
            kind <= 3,
        ensures
            r == hook_pred(kind as int, self.spec_terminals()[i as int], sid@, np@),
    {
        let mt = &self.terminals[i];
        if kind == 0 {
            match &mt.hook_session_id {
                Some(s) => str_eq(s.as_str(), sid),
                None => false,
            }
        } else {
            if mt.instance.status != Status::Running || mt.hook_session_id.is_some() {
                return false;
            }
            if kind == 1 && !mt.tab_renamed {
                return false;
            }
            if kind == 2 && mt.title_tracking {
                return false;
            }
            let p = normalize_path(mt.instance.project_path.as_str());
            str_eq(p.as_str(), np)
        }
    }

    fn find_hook_match(&self, kind: u8, sid: &str, np: &str) -> (r: Option<usize>)
        requires
            kind <= 3,
        ensures
            match r {
                Some(i) => i < self.spec_terminals().len() && first_hook_match(self.spec_terminals(), kind as int, sid@, np@) == Some(i as int),
                None => first_hook_match(self.spec_terminals(), kind as int, sid@, np@) is None,
            },
    {
        let ghost ts = self.spec_terminals();
        let mut i: usize = 0;
        while i < self.terminals.len()
            invariant
                ts == self.spec_terminals(),
                kind <= 3,
                i <= ts.len(),
                forall|j: int| 0 <= j < i ==> !hook_pred(kind as int, #[trigger] ts[j], sid@, np@),
            decreases ts.len() - i,
        {
            if self.hook_match_at(i, kind, sid, np) {
                proof { lemma_first_hook_match(ts, kind as int, sid@, np@, i as int); }
                return Some(i);
            }
            i = i + 1;
        }
        proof { lemma_first_hook_match(ts, kind as int, sid@, np@, i as int); }
        None
    }

    /// The terminal a hook event applies to (see `hook_target`).
    fn find_hook_target(&self, session_id: &str, project_path: &str) -> (r: Option<usize>)
        ensures
            match r {
                Some(i) => i < self.spec_terminals().len() && hook_target(self.spec_terminals(), session_id@, project_path@) == Some(i as int),
                None => hook_target(self.spec_terminals(), session_id@, project_path@) is None,
            },
    {
        let np = normalize_path(project_path);
        let a = self.find_hook_match(0, session_id, np.as_str());
        if a.is_some() {
            return a;
        }
        let b = self.find_hook_match(1, session_id, np.as_str());
        if b.is_some() {
            return b;
        }
        let c = self.find_hook_match(2, session_id, np.as_str());
        if c.is_some() {
            return c;
        }
        self.find_hook_match(3, session_id, np.as_str())
    }

    /// Applies a hook event at a given time (`now`, the timestamp recorded
    /// when the terminal becomes idle): finds the terminal (`hook_target`),
    /// maps it to the session, marks it monitored, switches its activity for
    /// "Stop" and "UserPromptSubmit" and reports the change (`hook_update`).
    /// Other event names only map the session.
    pub fn apply_hook_event(&mut self, session_id: &str, project_path: &str, event_name: &str, now: &str) -> (r: Vec<TransitionTuple>)
        requires
            old(self).wf(),
        ensures
            final(self).wf(),
            (final(self).spec_terminals(), transitions_view(r@)) == hook_step(old(self).spec_terminals(), session_id@, project_path@, event_name@, now@),
    {
        let ghost ts = self.spec_terminals();
        let target = self.find_hook_target(session_id, project_path);
        let mut transitions: Vec<TransitionTuple> = Vec::new();
        match target {
            None => {
                assert(transitions_view(transitions@) =~= Seq::<TransitionView>::empty());
                transitions
            },
            Some(i) => {
                let mt = self.terminals.remove(i);
                assert(mt@ == ts[i as int]);
                let (mt2, tr) = hook_update_exec(mt, session_id, event_name, now);
                let ghost t2 = mt2@;
                self.terminals.insert(i, mt2);
                match tr {
                    Some(x) => transitions.push(x),
                    None => {},
                }
                proof {
                    assert(self.spec_terminals() =~= ts.update(i as int, t2));
                    lemma_wf_update(ts, i as int, t2);
                    law_hook_keeps_sessions_unique(ts, session_id@, project_path@, event_name@, now@);
                    let (u, trv) = hook_update(ts[i as int], session_id@, event_name@, now@);
                    match trv {
                        Some(x) => assert(transitions_view(transitions@) =~= seq![x]),
                        None => assert(transitions_view(transitions@) =~= Seq::<TransitionView>::empty()),
                    }
                }
                transitions
            },
        }
    }

    /// Applies a hook event now (see `apply_hook_event`; the idle time
    /// recorded is the current time as a timestamp).
    pub fn handle_hook_event(&mut self, session_id: &str, project_path: &str, event_name: &str) -> (r: Vec<TransitionTuple>)
        requires
            old(self).wf(),
        ensures
            final(self).wf(),
            exists|now: Seq<char>| is_timestamp(now) &&
                (final(self).spec_terminals(), transitions_view(r@)) == hook_step(old(self).spec_terminals(), session_id@, project_path@, event_name@, now),
    {
        let now = crate::store::now_timestamp();
        self.apply_hook_event(session_id, project_path, event_name, now.as_str())
    }
}


// ---------------------------------------------------------------------------
// Laws of hook events.
// ---------------------------------------------------------------------------

/// No two terminals are mapped to the same session.
pub open spec fn sessions_unique(ts: Seq<TerminalView>) -> bool {
    forall|i: int, j: int|
        0 <= i < ts.len() && 0 <= j < ts.len() && i != j && (#[trigger] ts[i]).hook_session_id is Some
            ==> ts[i].hook_session_id != (#[trigger] ts[j]).hook_session_id
}

proof fn lemma_first_hook_match_some(ts: Seq<TerminalView>, kind: int, sid: Seq<char>, np: Seq<char>)
    ensures
        first_hook_match(ts, kind, sid, np) matches Some(i) ==> 0 <= i < ts.len() && hook_pred(kind, ts[i], sid, np)
            && forall|j: int| 0 <= j < i ==> !hook_pred(kind, #[trigger] ts[j], sid, np),
        first_hook_match(ts, kind, sid, np) is None ==> forall|j: int| 0 <= j < ts.len() ==> !hook_pred(kind, #[trigger] ts[j], sid, np),
    decreases ts.len(),
{
    if ts.len() > 0 {
        let d = ts.drop_first();
        lemma_first_hook_match_some(d, kind, sid, np);
        assert forall|j: int| 0 <= j < d.len() implies #[trigger] d[j] == ts[j + 1] by {}
        if !hook_pred(kind, ts[0], sid, np) {
            assert forall|j: int| 1 <= j < ts.len() implies #[trigger] ts[j] == d[j - 1] by {}
        }
    }
}

proof fn lemma_hook_target_props(ts: Seq<TerminalView>, sid: Seq<char>, path: Seq<char>)
    ensures
        hook_target(ts, sid, path) matches Some(i) ==> 0 <= i < ts.len()
            && (ts[i].hook_session_id == Some(sid) || (ts[i].hook_session_id is None
                && forall|j: int| 0 <= j < ts.len() ==> (#[trigger] ts[j]).hook_session_id != Some(sid))),
{
    let np = norm_path(path);
    lemma_first_hook_match_some(ts, 0, sid, np);
    lemma_first_hook_match_some(ts, 1, sid, np);
    lemma_first_hook_match_some(ts, 2, sid, np);
    lemma_first_hook_match_some(ts, 3, sid, np);
}

/// A hook event never maps a session to a second terminal: if no two
/// terminals shared a session before, none do after.
pub proof fn law_hook_keeps_sessions_unique(ts: Seq<TerminalView>, sid: Seq<char>, path: Seq<char>, event: Seq<char>, now: Seq<char>)
    requires
        sessions_unique(ts),
    ensures
        sessions_unique(hook_step(ts, sid, path, event, now).0),
{
    lemma_hook_target_props(ts, sid, path);
    if let Some(i) = hook_target(ts, sid, path) {
        let n = hook_step(ts, sid, path, event, now).0;
        assert forall|a: int, b: int|
            0 <= a < n.len() && 0 <= b < n.len() && a != b && (#[trigger] n[a]).hook_session_id is Some
            implies n[a].hook_session_id != (#[trigger] n[b]).hook_session_id by {
            if a != i && b != i {
                assert(n[a] == ts[a] && n[b] == ts[b]);
            } else if a == i {
                assert(n[b] == ts[b]);
                if ts[i].hook_session_id is None {
                    assert(ts[b].hook_session_id != Some(sid));
                }
            } else {
                assert(n[a] == ts[a]);
                if ts[i].hook_session_id is None {
                    assert(ts[a].hook_session_id != Some(sid));
                }
            }
        }
    }
}

/// Once a hook event of a session has reached a terminal, every later event
/// of that session (whatever folder it names) reaches the same terminal. The
/// registry of every well-formed `Manager` maps no session twice (see
/// `Manager::wf`), so this holds of each of them.
pub proof fn law_hook_session_sticks(
    ts: Seq<TerminalView>,
    sid: Seq<char>,
    path: Seq<char>,
    event: Seq<char>,
    now: Seq<char>,
    later_path: Seq<char>,
)
    requires
        sessions_unique(ts),
        hook_target(ts, sid, path) is Some,
    ensures
        hook_target(hook_step(ts, sid, path, event, now).0, sid, later_path) == hook_target(ts, sid, path),
{
    lemma_hook_target_props(ts, sid, path);
    law_hook_keeps_sessions_unique(ts, sid, path, event, now);
    let i = hook_target(ts, sid, path).unwrap();
    let n = hook_step(ts, sid, path, event, now).0;
    assert(n[i].hook_session_id == Some(sid));
    assert forall|j: int| 0 <= j < i implies !hook_pred(0, #[trigger] n[j], sid, norm_path(later_path)) by {
        assert(n[i].hook_session_id != n[j].hook_session_id);
    }
    lemma_first_hook_match(n, 0, sid, norm_path(later_path), i);
}

/// A second "Stop" of the same session reports nothing: the terminal it
/// reaches is already idle.
pub proof fn law_repeated_stop_reports_nothing(
    ts: Seq<TerminalView>,
    sid: Seq<char>,
    path: Seq<char>,
    now: Seq<char>,
    later_path: Seq<char>,
    later_now: Seq<char>,
)
    requires
        sessions_unique(ts),
        hook_target(ts, sid, path) is Some,
    ensures
        hook_step(hook_step(ts, sid, path, "Stop"@, now).0, sid, later_path, "Stop"@, later_now).1 == Seq::<TransitionView>::empty(),
{
    law_hook_session_sticks(ts, sid, path, "Stop"@, now, later_path);
    lemma_hook_target_props(ts, sid, path);
    reveal_strlit("Stop");
    reveal_strlit("UserPromptSubmit");
    assert("Stop"@.len() != "UserPromptSubmit"@.len());
    let i = hook_target(ts, sid, path).unwrap();
    let n = hook_step(ts, sid, path, "Stop"@, now).0;
    let u = hook_update(ts[i], sid, "Stop"@, now).0;
    assert(n == ts.update(i, u));
    assert(u.instance.activity == Activity::Idle);
    assert(n[i].instance.activity == Activity::Idle);
    let v = hook_update(n[i], sid, "Stop"@, later_now);
    assert(v.1 is None);
}

/// A hook event of a new session goes to a renamed tab when there is one:
/// if no terminal is mapped to the session yet and some running terminal of
/// the event's folder, mapped to no session, had its tab renamed by the user
/// (so its idle state cannot be read from its title), then the event maps
/// the session to such a renamed tab, leaves every other terminal as it was,
/// and on "Stop" makes that terminal idle.
pub proof fn law_hook_prefers_renamed_tab(
    ts: Seq<TerminalView>,
    sid: Seq<char>,
    path: Seq<char>,
    event: Seq<char>,
    now: Seq<char>,
    j: int,
)
    requires
        forall|k: int| 0 <= k < ts.len() ==> (#[trigger] ts[k]).hook_session_id != Some(sid),
        0 <= j < ts.len(),
        ts[j].instance.status == Status::Running,
        ts[j].hook_session_id is None,
        norm_path(ts[j].instance.project_path) == norm_path(path),
        ts[j].tab_renamed,
    ensures
        exists|i: int| {
            &&& 0 <= i < ts.len()
            &&& (#[trigger] ts[i]).tab_renamed
            &&& ts[i].instance.status == Status::Running
            &&& ts[i].hook_session_id is None
            &&& norm_path(ts[i].instance.project_path) == norm_path(path)
            &&& hook_step(ts, sid, path, event, now).0.len() == ts.len()
            &&& hook_step(ts, sid, path, event, now).0[i].hook_session_id == Some(sid)
            &&& (event == "Stop"@ ==> hook_step(ts, sid, path, event, now).0[i].instance.activity == Activity::Idle)
            &&& forall|k: int| 0 <= k < ts.len() && k != i ==> hook_step(ts, sid, path, event, now).0[k] == ts[k]
        },
{
    let np = norm_path(path);
    lemma_first_hook_match_some(ts, 0, sid, np);
    lemma_first_hook_match_some(ts, 1, sid, np);
    assert(first_hook_match(ts, 0, sid, np) is None) by {
        if let Some(x) = first_hook_match(ts, 0, sid, np) {
            assert(ts[x].hook_session_id == Some(sid));
        }
    }
    assert(hook_pred(1, ts[j], sid, np));
    assert(first_hook_match(ts, 1, sid, np) is Some);
    let i = first_hook_match(ts, 1, sid, np).unwrap();
    assert(hook_target(ts, sid, path) == Some(i));
    assert(hook_pred(1, ts[i], sid, np));
    let n = hook_step(ts, sid, path, event, now).0;
    assert(n == ts.update(i, hook_update(ts[i], sid, event, now).0));
    assert(n.len() == ts.len());
    assert(n[i] == hook_update(ts[i], sid, event, now).0);
    assert(n[i].hook_session_id == Some(sid));
    reveal_strlit("Stop");
    reveal_strlit("UserPromptSubmit");
    assert("Stop"@ != "UserPromptSubmit"@) by {
        assert("Stop"@.len() != "UserPromptSubmit"@.len());
    }
    assert(event == "Stop"@ ==> n[i].instance.activity == Activity::Idle);
    assert(forall|k: int| 0 <= k < ts.len() && k != i ==> n[k] == ts[k]);
    assert(ts[i].tab_renamed);
    assert(ts[i].instance.status == Status::Running && ts[i].hook_session_id is None
        && norm_path(ts[i].instance.project_path) == np);
}

/// A window that shows other tabs is never closed with a terminal: with a
/// live window, the whole window is closed only when it shows exactly one
/// tab and no other managed terminal uses it; a live window showing any
/// other number of tabs gets only this terminal's tab closed.
pub proof fn law_close_window_only_for_single_tab(hwnd: Option<isize>, window_alive: bool, tab_count: usize, siblings: bool)
    ensures
        spec_close_action(hwnd, window_alive, tab_count, siblings) == CloseAction::CloseWindow
            ==> hwnd is Some && window_alive && tab_count == 1 && !siblings,
        hwnd is Some && window_alive && tab_count != 1
            ==> spec_close_action(hwnd, window_alive, tab_count, siblings) == CloseAction::CloseTab,
        hwnd is Some && window_alive && siblings
            ==> spec_close_action(hwnd, window_alive, tab_count, siblings) == CloseAction::CloseTab,
        hwnd is None || !window_alive
            ==> spec_close_action(hwnd, window_alive, tab_count, siblings) == CloseAction::KillProcess,
{
}

} // verus!
