//! One round of watching the managed terminals.
//!
//! Each round the application looks at the windows of the running
//! terminals: a window may be gone, it may list its tabs (runtime id and
//! title, left to right), or only its window title may be known. From that
//! the round decides which terminals were closed, which untracked tabs get
//! a runtime id, the title each terminal shows, the activity changes seen
//! in the titles (the idle marker, with a debounce before going active),
//! and the left-to-right order of the managed tabs of each window.

use vstd::prelude::*;
use crate::models::{Activity, Status, TabInfo};
use crate::store::ids_view;
use crate::terminals::{
    copy_opt_rid, copy_rid, opt_view, registry_wf, rid_view, sessions_unique, terminals_view, transition_for, transition_of, transitions_view,
    InstanceView, ManagedTerminal, Manager, TerminalView, TransitionTuple, TransitionView, TITLE_PREFIX,
};
use crate::text::{has_char, owned, starts_with_seq, str_has_char, str_starts_with};

verus! {

/// The character the coding agent shows in a tab title while it waits for input.
pub const IDLE_MARKER: char = '\u{2733}';
/// How long the idle marker must stay away before an idle terminal counts
/// as active again, in milliseconds.
pub const ACTIVE_DEBOUNCE_MS: u64 = 3000;
/// Fewest managed tabs a window needs for its tab order to be reported.
pub const MIN_TERMINALS_FOR_ORDER: usize = 2;

// ---------------------------------------------------------------------------
// Views of the round's inputs.
// ---------------------------------------------------------------------------

/// A tab as plain values: runtime id and title.
pub type TabView = (Seq<i32>, Seq<char>);

pub open spec fn tab_view(t: TabInfo) -> TabView {
    (t.runtime_id@, t.title@)
}

pub open spec fn tabs_view(v: Seq<TabInfo>) -> Seq<TabView> {
    v.map_values(|t: TabInfo| tab_view(t))
}

/// The tabs of each window, as plain values.
pub open spec fn uia_view(u: Seq<(isize, Vec<TabInfo>)>) -> Seq<(isize, Seq<TabView>)> {
    u.map_values(|w: (isize, Vec<TabInfo>)| (w.0, tabs_view(w.1@)))
}

/// The window titles, as plain values.
pub open spec fn titles_view(f: Seq<(isize, String)>) -> Seq<(isize, Seq<char>)> {
    f.map_values(|w: (isize, String)| (w.0, w.1@))
}

/// A tab order (window, terminal ids left to right), as plain values.
pub open spec fn order_view(o: Seq<(isize, Vec<String>)>) -> Seq<(isize, Seq<Seq<char>>)> {
    o.map_values(|w: (isize, Vec<String>)| (w.0, ids_view(w.1@)))
}

// ---------------------------------------------------------------------------
// First and last positions.
// ---------------------------------------------------------------------------

/// The first position whose element satisfies `p`.
pub open spec fn first_where<A>(s: Seq<A>, p: spec_fn(A) -> bool) -> Option<int>
    decreases s.len(),
{
    if s.len() == 0 {
        None
    } else if p(s[0]) {
        Some(0)
    } else {
        match first_where(s.drop_first(), p) {
            Some(i) => Some(i + 1),
            None => None,
        }
    }
}

/// The last position whose element satisfies `p`.
pub open spec fn last_where<A>(s: Seq<A>, p: spec_fn(A) -> bool) -> Option<int>
    decreases s.len(),
{
    if s.len() == 0 {
        None
    } else if p(s.last()) {
        Some(s.len() - 1)
    } else {
        last_where(s.drop_last(), p)
    }
}

pub proof fn lemma_first_where<A>(s: Seq<A>, p: spec_fn(A) -> bool, i: int)
    requires
        0 <= i <= s.len(),
        forall|j: int| 0 <= j < i ==> !p(#[trigger] s[j]),
        i < s.len() ==> p(s[i]),
    ensures
        first_where(s, p) == (if i < s.len() { Some(i) } else { None::<int> }),
    decreases s.len(),
{
    if s.len() > 0 && i > 0 {
        let d = s.drop_first();
        assert forall|j: int| 0 <= j < i - 1 implies !p(#[trigger] d[j]) by {
            assert(d[j] == s[j + 1]);
        }
        if i < s.len() {
            assert(d[i - 1] == s[i]);
        }
        lemma_first_where(d, p, i - 1);
    }
}

pub proof fn lemma_first_where_range<A>(s: Seq<A>, p: spec_fn(A) -> bool)
    ensures
        first_where(s, p) matches Some(i) ==> 0 <= i < s.len() && p(s[i]),
    decreases s.len(),
{
    if s.len() > 0 {
        let d = s.drop_first();
        lemma_first_where_range(d, p);
        if let Some(i) = first_where(d, p) {
            assert(d[i] == s[i + 1]);
        }
    }
}

/// Extending the searched prefix by one element.
pub proof fn lemma_last_where_step<A>(s: Seq<A>, p: spec_fn(A) -> bool, k: int)
    requires
        0 <= k < s.len(),
    ensures
        last_where(s.take(k + 1), p) == (if p(s[k]) { Some(k) } else { last_where(s.take(k), p) }),
{
    assert(s.take(k + 1).drop_last() =~= s.take(k));
    assert(s.take(k + 1).last() == s[k]);
}

pub proof fn lemma_last_where_range<A>(s: Seq<A>, p: spec_fn(A) -> bool)
    ensures
        last_where(s, p) matches Some(i) ==> 0 <= i < s.len() && p(s[i]),
    decreases s.len(),
{
    if s.len() > 0 {
        let d = s.drop_last();
        lemma_last_where_range(d, p);
        if let Some(i) = last_where(d, p) {
            assert(d[i] == s[i]);
        }
    }
}

/// An entry of window `h`.
pub open spec fn window_is<T>(h: isize) -> spec_fn((isize, T)) -> bool {
    |w: (isize, T)| w.0 == h
}

/// A tab with runtime id `r`.
pub open spec fn tab_has_rid(r: Seq<i32>) -> spec_fn(TabView) -> bool {
    |t: TabView| t.0 == r
}

/// A terminal with runtime id `r`.
pub open spec fn terminal_has_rid(r: Seq<i32>) -> spec_fn(TerminalView) -> bool {
    |t: TerminalView| t.runtime_id == Some(r)
}

/// The tabs listed for window `h`.
pub open spec fn window_tabs(uia: Seq<(isize, Seq<TabView>)>, h: isize) -> Option<Seq<TabView>> {
    match first_where(uia, window_is::<Seq<TabView>>(h)) {
        Some(i) => Some(uia[i].1),
        None => None,
    }
}

/// The window title known for window `h`.
pub open spec fn window_title(fb: Seq<(isize, Seq<char>)>, h: isize) -> Option<Seq<char>> {
    match first_where(fb, window_is::<Seq<char>>(h)) {
        Some(i) => Some(fb[i].1),
        None => None,
    }
}

// ---------------------------------------------------------------------------
// What a round decides for each terminal.
// ---------------------------------------------------------------------------

/// A running terminal shown in window `h`.
pub open spec fn in_window(t: TerminalView, h: isize) -> bool {
    t.instance.status == Status::Running && t.hwnd == Some(h)
}

/// A running terminal is closed when its window is gone, or when its window
/// lists its tabs and none has the terminal's runtime id.
pub open spec fn is_closed(t: TerminalView, uia: Seq<(isize, Seq<TabView>)>, dead: Seq<isize>) -> bool {
    t.instance.status == Status::Running && match t.hwnd {
        Some(h) => dead.contains(h) || match window_tabs(uia, h) {
            Some(tabs) => match t.runtime_id {
                Some(r) => last_where(tabs, tab_has_rid(r)) is None,
                None => false,
            },
            None => false,
        },
        None => false,
    }
}

/// Some running terminal of window `h` already has runtime id `r`.
pub open spec fn rid_taken(ts: Seq<TerminalView>, h: isize, r: Seq<i32>) -> bool {
    exists|m: int| 0 <= m < ts.len() && in_window(ts[m], h) && (#[trigger] ts[m]).runtime_id == Some(r)
}

/// The tabs of window `h` that no terminal of the window has claimed, left
/// to right.
pub open spec fn available_tabs(tabs: Seq<TabView>, ts: Seq<TerminalView>, h: isize) -> Seq<TabView>
    decreases tabs.len(),
{
    if tabs.len() == 0 {
        Seq::empty()
    } else {
        let a = available_tabs(tabs.drop_last(), ts, h);
        if rid_taken(ts, h, tabs.last().0) {
            a
        } else {
            a.push(tabs.last())
        }
    }
}

/// A running terminal of window `h` without a runtime id yet.
pub open spec fn unassigned(t: TerminalView, h: isize) -> bool {
    in_window(t, h) && t.runtime_id is None
}

/// Terminal `a` comes before terminal `b` when ordered by tab index, ties
/// kept in registry order.
pub open spec fn sorts_before(ts: Seq<TerminalView>, a: int, b: int) -> bool {
    ts[a].tab_index < ts[b].tab_index || (ts[a].tab_index == ts[b].tab_index && a < b)
}

/// How many of the first `n` terminals are unassigned in window `h` and come
/// before terminal `j`.
pub open spec fn rank_below(ts: Seq<TerminalView>, h: isize, j: int, n: int) -> nat
    decreases n,
{
    if n <= 0 {
        0
    } else {
        rank_below(ts, h, j, n - 1) + if unassigned(ts[n - 1], h) && sorts_before(ts, n - 1, j) { 1nat } else { 0nat }
    }
}

/// The tab an unassigned terminal takes: the unassigned terminals of a
/// window, ordered by tab index, take the unclaimed tabs left to right.
pub open spec fn assigned_tab(ts: Seq<TerminalView>, uia: Seq<(isize, Seq<TabView>)>, dead: Seq<isize>, j: int) -> Option<TabView> {
    match ts[j].hwnd {
        Some(h) => if unassigned(ts[j], h) && !dead.contains(h) {
            match window_tabs(uia, h) {
                Some(tabs) => {
                    let av = available_tabs(tabs, ts, h);
                    let k = rank_below(ts, h, j, ts.len() as int);
                    if k < av.len() { Some(av[k as int]) } else { None }
                },
                None => None,
            }
        } else {
            None
        },
        None => None,
    }
}

/// The runtime id of terminal `j` after the round.
pub open spec fn observed_rid(ts: Seq<TerminalView>, uia: Seq<(isize, Seq<TabView>)>, dead: Seq<isize>, j: int) -> Option<Seq<i32>> {
    match assigned_tab(ts, uia, dead, j) {
        Some(tab) => Some(tab.0),
        None => ts[j].runtime_id,
    }
}

/// The title seen for terminal `j`: that of the last tab with its runtime id
/// (or of the tab it takes), else the window title when the window's tabs
/// are not known.
pub open spec fn observed_title(
    ts: Seq<TerminalView>,
    uia: Seq<(isize, Seq<TabView>)>,
    fb: Seq<(isize, Seq<char>)>,
    dead: Seq<isize>,
    j: int,
) -> Option<Seq<char>> {
    let t = ts[j];
    if t.instance.status != Status::Running {
        None
    } else {
        match t.hwnd {
            None => None,
            Some(h) => if dead.contains(h) {
                None
            } else {
                match window_tabs(uia, h) {
                    Some(tabs) => match t.runtime_id {
                        Some(r) => match last_where(tabs, tab_has_rid(r)) {
                            Some(k) => Some(tabs[k].1),
                            None => None,
                        },
                        None => match assigned_tab(ts, uia, dead, j) {
                            Some(tab) => Some(tab.1),
                            None => None,
                        },
                    },
                    None => window_title(fb, h),
                }
            },
        }
    }
}

/// What a round saw: the tabs of the windows whose tabs could be listed,
/// the titles of the other windows still open, the windows that are gone,
/// and the time (monotonic milliseconds, and as a timestamp).
pub struct Observation {
    pub tabs: Seq<(isize, Seq<TabView>)>,
    pub titles: Seq<(isize, Seq<char>)>,
    pub dead: Seq<isize>,
    pub now_ms: u64,
    pub now: Seq<char>,
}

/// A terminal after a title was seen for it.
///
/// A title without the application's prefix and without the idle marker
/// means the user renamed the tab. The first idle marker turns title
/// watching on (and marks the terminal monitored); until then nothing else
/// changes. With watching on, the marker makes the terminal idle (recording
/// `now`); once an idle terminal's title has lacked the marker for
/// `ACTIVE_DEBOUNCE_MS`, it becomes active. Each change of activity is
/// reported.
pub open spec fn watch_update(t: TerminalView, title: Seq<char>, now_ms: u64, now: Seq<char>) -> (TerminalView, Option<TransitionView>) {
    let has_marker = has_char(title, IDLE_MARKER);
    let renamed = title.len() > 0 && !t.tab_renamed && !starts_with_seq(title, TITLE_PREFIX@) && !has_marker;
    let t1 = if renamed { TerminalView { tab_renamed: true, ..t } } else { t };
    let t2 = if has_marker && !t1.title_tracking {
        TerminalView { title_tracking: true, instance: InstanceView { monitored: true, ..t1.instance }, ..t1 }
    } else {
        t1
    };
    if !t2.title_tracking {
        (t2, None)
    } else if has_marker {
        if t2.instance.activity != Activity::Idle {
            let t3 = TerminalView {
                pending_active_since: None,
                instance: InstanceView { activity: Activity::Idle, last_idle_at: Some(now), ..t2.instance },
                ..t2
            };
            (t3, Some(transition_of(t3)))
        } else {
            (TerminalView { pending_active_since: None, ..t2 }, None)
        }
    } else if t2.instance.activity == Activity::Idle {
        match t2.pending_active_since {
            None => (TerminalView { pending_active_since: Some(now_ms), ..t2 }, None),
            Some(since) => if now_ms >= since + ACTIVE_DEBOUNCE_MS {
                let t3 = TerminalView {
                    pending_active_since: None,
                    instance: InstanceView { activity: Activity::Active, ..t2.instance },
                    ..t2
                };
                (t3, Some(transition_of(t3)))
            } else {
                (t2, None)
            },
        }
    } else {
        (t2, None)
    }
}

/// Terminal `j` after the round, and the change it reports: it takes its
/// runtime id, and a running terminal with a window that was not closed
/// goes through `watch_update` with its observed title (empty if none).
pub open spec fn step_terminal(ts: Seq<TerminalView>, ob: Observation, j: int) -> (TerminalView, Option<TransitionView>) {
    step_with(
        ts[j],
        is_closed(ts[j], ob.tabs, ob.dead),
        observed_rid(ts, ob.tabs, ob.dead, j),
        observed_title(ts, ob.tabs, ob.titles, ob.dead, j),
        ob.now_ms,
        ob.now,
    )
}

/// A terminal given its runtime id, then, unless closed, stopped or
/// without a window, the title seen (empty if none).
pub open spec fn step_with(
    t0: TerminalView,
    closed: bool,
    rid: Option<Seq<i32>>,
    title: Option<Seq<char>>,
    now_ms: u64,
    now: Seq<char>,
) -> (TerminalView, Option<TransitionView>) {
    let t = TerminalView { runtime_id: rid, ..t0 };
    if !closed && t.instance.status == Status::Running && t.hwnd is Some {
        let seen = match title {
            Some(s) => s,
            None => Seq::empty(),
        };
        watch_update(t, seen, now_ms, now)
    } else {
        (t, None)
    }
}

pub open spec fn opt_transition_view(o: Option<TransitionTuple>) -> Option<TransitionView> {
    match o {
        Some(x) => Some(crate::terminals::transition_view(x)),
        None => None,
    }
}

/// All terminals after the round, before closed ones are removed.
pub open spec fn watched(ts: Seq<TerminalView>, ob: Observation) -> Seq<TerminalView> {
    Seq::new(ts.len(), |j: int| step_terminal(ts, ob, j).0)
}

/// The changes reported by the first `n` terminals, in registry order.
pub open spec fn reports(ts: Seq<TerminalView>, ob: Observation, n: int) -> Seq<TransitionView>
    decreases n,
{
    if n <= 0 {
        Seq::empty()
    } else {
        reports(ts, ob, n - 1) + match step_terminal(ts, ob, n - 1).1 {
            Some(x) => seq![x],
            None => Seq::empty(),
        }
    }
}

/// Ids of the closed terminals among the first `n`, in registry order.
pub open spec fn closed_ids(ts: Seq<TerminalView>, ob: Observation, n: int) -> Seq<Seq<char>>
    decreases n,
{
    if n <= 0 {
        Seq::empty()
    } else {
        let a = closed_ids(ts, ob, n - 1);
        if is_closed(ts[n - 1], ob.tabs, ob.dead) { a.push(ts[n - 1].instance.id) } else { a }
    }
}

/// The first `n` entries of `w` whose terminal in `ts` was not closed.
pub open spec fn kept(ts: Seq<TerminalView>, w: Seq<TerminalView>, ob: Observation, n: int) -> Seq<TerminalView>
    decreases n,
{
    if n <= 0 {
        Seq::empty()
    } else {
        let a = kept(ts, w, ob, n - 1);
        if is_closed(ts[n - 1], ob.tabs, ob.dead) { a } else { a.push(w[n - 1]) }
    }
}

// ---------------------------------------------------------------------------
// Tab order.
// ---------------------------------------------------------------------------

/// Ids of the managed terminals shown by the tabs, left to right: each tab
/// names the first terminal with its runtime id, if any.
pub open spec fn window_order_ids(tabs: Seq<TabView>, ts: Seq<TerminalView>) -> Seq<Seq<char>>
    decreases tabs.len(),
{
    if tabs.len() == 0 {
        Seq::empty()
    } else {
        let a = window_order_ids(tabs.drop_last(), ts);
        match first_where(ts, terminal_has_rid(tabs.last().0)) {
            Some(i) => a.push(ts[i].instance.id),
            None => a,
        }
    }
}

/// For each window with tabs, in order, the ids of its managed tabs left to
/// right; windows with fewer than `MIN_TERMINALS_FOR_ORDER` are left out.
pub open spec fn terminal_order(uia: Seq<(isize, Seq<TabView>)>, ts: Seq<TerminalView>) -> Seq<(isize, Seq<Seq<char>>)>
    decreases uia.len(),
{
    if uia.len() == 0 {
        Seq::empty()
    } else {
        let a = terminal_order(uia.drop_last(), ts);
        let ids = window_order_ids(uia.last().1, ts);
        if ids.len() >= MIN_TERMINALS_FOR_ORDER { a.push((uia.last().0, ids)) } else { a }
    }
}

/// Two tab orders hold the same entries (as maps from window to ids, their
/// windows being distinct).
pub open spec fn same_windows(a: Seq<(isize, Seq<Seq<char>>)>, b: Seq<(isize, Seq<Seq<char>>)>) -> bool {
    a.len() == b.len() && forall|i: int| 0 <= i < a.len() ==> has_entry(b, #[trigger] a[i])
}

/// `x` is an entry of `b`.
pub open spec fn has_entry(b: Seq<(isize, Seq<Seq<char>>)>, x: (isize, Seq<Seq<char>>)) -> bool {
    exists|j: int| 0 <= j < b.len() && b[j] == x
}

/// The ids of a tab order, window after window.
pub open spec fn flatten_ids(o: Seq<(isize, Seq<Seq<char>>)>) -> Seq<Seq<char>>
    decreases o.len(),
{
    if o.len() == 0 {
        Seq::empty()
    } else {
        flatten_ids(o.drop_last()) + o.last().1
    }
}

/// Runtime id and position of each tab of a window.
pub open spec fn positions_of(tabs: Seq<TabView>) -> Seq<(Seq<i32>, int)> {
    Seq::new(tabs.len(), |k: int| (tabs[k].0, k))
}

/// Runtime id and position of every tab, window after window.
pub open spec fn tab_positions(uia: Seq<(isize, Seq<TabView>)>) -> Seq<(Seq<i32>, int)>
    decreases uia.len(),
{
    if uia.len() == 0 {
        Seq::empty()
    } else {
        tab_positions(uia.drop_last()) + positions_of(uia.last().1)
    }
}

/// A position entry with runtime id `r`.
pub open spec fn pos_has_rid(r: Seq<i32>) -> spec_fn((Seq<i32>, int)) -> bool {
    |p: (Seq<i32>, int)| p.0 == r
}

/// The terminals with their tab index set from the positions: the first
/// terminal with a runtime id takes the position of the last entry with
/// that id.
pub open spec fn reindex_by(ts: Seq<TerminalView>, ps: Seq<(Seq<i32>, int)>) -> Seq<TerminalView> {
    Seq::new(ts.len(), |j: int| match ts[j].runtime_id {
        Some(r) => if first_where(ts, terminal_has_rid(r)) == Some(j) {
            match last_where(ps, pos_has_rid(r)) {
                Some(k) => TerminalView { tab_index: ps[k].1 as usize, ..ts[j] },
                None => ts[j],
            }
        } else {
            ts[j]
        },
        None => ts[j],
    })
}

/// The tab order at the end of a round.
pub open spec fn round_order(ts: Seq<TerminalView>, ob: Observation) -> Seq<(isize, Seq<Seq<char>>)> {
    terminal_order(ob.tabs, watched(ts, ob))
}

/// The registry after a round, given the previous tab order: when the order
/// changed, tab indices follow the tabs' positions; closed terminals leave.
pub open spec fn round_registry(ts: Seq<TerminalView>, ob: Observation, prev: Seq<(isize, Seq<Seq<char>>)>) -> Seq<TerminalView> {
    let w = watched(ts, ob);
    let w2 = if same_windows(round_order(ts, ob), prev) { w } else { reindex_by(w, tab_positions(ob.tabs)) };
    kept(ts, w2, ob, ts.len() as int)
}

/// The order reported by a round: all ids, window after window, when the
/// order changed and is not empty.
pub open spec fn order_report(ts: Seq<TerminalView>, ob: Observation, prev: Seq<(isize, Seq<Seq<char>>)>) -> Option<Seq<Seq<char>>> {
    let cur = round_order(ts, ob);
    if !same_windows(cur, prev) && cur.len() > 0 { Some(flatten_ids(cur)) } else { None }
}

// ---------------------------------------------------------------------------
// Lookups.
// ---------------------------------------------------------------------------

/// Whether two runtime ids are equal.
pub fn rid_eq(a: &Vec<i32>, b: &Vec<i32>) -> (r: bool)
    ensures
        r == (a@ == b@),
{
    if a.len() != b.len() {
        return false;
    }
    let mut i: usize = 0;
    while i < a.len()
        invariant
            a@.len() == b@.len(),
            i <= a@.len(),
            forall|k: int| 0 <= k < i ==> a@[k] == b@[k],
        decreases a@.len() - i,
    {
        if a[i] != b[i] {
            return false;
        }
        i = i + 1;
    }
    assert(a@ =~= b@);
    true
}

/// Whether an optional runtime id is `b`.
fn opt_rid_is(a: &Option<Vec<i32>>, b: &Vec<i32>) -> (r: bool)
    ensures
        r == (rid_view(*a) == Some(b@)),
{
    match a {
        Some(x) => rid_eq(x, b),
        None => false,
    }
}

/// A copy of a tab.
pub fn copy_tab_info(t: &TabInfo) -> (r: TabInfo)
    ensures
        tab_view(r) == tab_view(*t),
{
    TabInfo { runtime_id: copy_rid(&t.runtime_id), title: t.title.clone() }
}

/// Position of the entry of window `h` among the windows' tabs.
fn find_window_tabs(uia: &Vec<(isize, Vec<TabInfo>)>, h: isize) -> (r: Option<usize>)
    ensures
        match r {
            Some(i) => i < uia@.len() && first_where(uia_view(uia@), window_is::<Seq<TabView>>(h)) == Some(i as int),
            None => first_where(uia_view(uia@), window_is::<Seq<TabView>>(h)) is None,
        },
{
    let ghost u = uia_view(uia@);
    let mut i: usize = 0;
    while i < uia.len()
        invariant
            u == uia_view(uia@),
            i <= uia@.len(),
            forall|j: int| 0 <= j < i ==> !(window_is::<Seq<TabView>>(h))(#[trigger] u[j]),
        decreases uia@.len() - i,
    {
        if uia[i].0 == h {
            proof { lemma_first_where(u, window_is::<Seq<TabView>>(h), i as int); }
            return Some(i);
        }
        i = i + 1;
    }
    proof { lemma_first_where(u, window_is::<Seq<TabView>>(h), i as int); }
    None
}

/// Position of the title of window `h`.
fn find_window_title(fb: &Vec<(isize, String)>, h: isize) -> (r: Option<usize>)
    ensures
        match r {
            Some(i) => i < fb@.len() && first_where(titles_view(fb@), window_is::<Seq<char>>(h)) == Some(i as int),
            None => first_where(titles_view(fb@), window_is::<Seq<char>>(h)) is None,
        },
{
    let ghost f = titles_view(fb@);
    let mut i: usize = 0;
    while i < fb.len()
        invariant
            f == titles_view(fb@),
            i <= fb@.len(),
            forall|j: int| 0 <= j < i ==> !(window_is::<Seq<char>>(h))(#[trigger] f[j]),
        decreases fb@.len() - i,
    {
        if fb[i].0 == h {
            proof { lemma_first_where(f, window_is::<Seq<char>>(h), i as int); }
            return Some(i);
        }
        i = i + 1;
    }
    proof { lemma_first_where(f, window_is::<Seq<char>>(h), i as int); }
    None
}

/// Whether window `h` is among `dead`.
fn contains_hwnd(dead: &Vec<isize>, h: isize) -> (r: bool)
    ensures
        r == dead@.contains(h),
{
    let mut i: usize = 0;
    while i < dead.len()
        invariant
            i <= dead@.len(),
            forall|j: int| 0 <= j < i ==> dead@[j] != h,
        decreases dead@.len() - i,
    {
        if dead[i] == h {
            return true;
        }
        i = i + 1;
    }
    false
}

/// Position of the last tab with runtime id `r`.
fn last_tab_with_rid(tabs: &Vec<TabInfo>, r: &Vec<i32>) -> (k: Option<usize>)
    ensures
        match k {
            Some(i) => i < tabs@.len() && last_where(tabs_view(tabs@), tab_has_rid(r@)) == Some(i as int),
            None => last_where(tabs_view(tabs@), tab_has_rid(r@)) is None,
        },
{
    let ghost tv = tabs_view(tabs@);
    let mut found: Option<usize> = None;
    let mut i: usize = 0;
    while i < tabs.len()
        invariant
            tv == tabs_view(tabs@),
            i <= tabs@.len(),
            match found {
                Some(x) => x < i && last_where(tv.take(i as int), tab_has_rid(r@)) == Some(x as int),
                None => last_where(tv.take(i as int), tab_has_rid(r@)) is None,
            },
        decreases tabs@.len() - i,
    {
        proof { lemma_last_where_step(tv, tab_has_rid(r@), i as int); }
        if rid_eq(&tabs[i].runtime_id, r) {
            found = Some(i);
        }
        i = i + 1;
    }
    assert(tv.take(i as int) =~= tv);
    found
}

/// Whether some running terminal of window `h` has runtime id `r`.
fn rid_taken_in(ts: &Vec<ManagedTerminal>, h: isize, r: &Vec<i32>) -> (b: bool)
    ensures
        b == rid_taken(terminals_view(ts@), h, r@),
{
    let ghost tv = terminals_view(ts@);
    let mut i: usize = 0;
    while i < ts.len()
        invariant
            tv == terminals_view(ts@),
            i <= ts@.len(),
            forall|m: int| 0 <= m < i ==> !(in_window(tv[m], h) && (#[trigger] tv[m]).runtime_id == Some(r@)),
        decreases ts@.len() - i,
    {
        let mt = &ts[i];
        if mt.instance.status == Status::Running && mt.hwnd == Some(h) && opt_rid_is(&mt.runtime_id, r) {
            assert(in_window(tv[i as int], h) && tv[i as int].runtime_id == Some(r@));
            return true;
        }
        i = i + 1;
    }
    false
}

/// The tabs of window `h` that no terminal of the window has claimed.
fn available_in(tabs: &Vec<TabInfo>, ts: &Vec<ManagedTerminal>, h: isize) -> (out: Vec<TabInfo>)
    ensures
        tabs_view(out@) == available_tabs(tabs_view(tabs@), terminals_view(ts@), h),
{
    let ghost tv = tabs_view(tabs@);
    let ghost tsv = terminals_view(ts@);
    let mut out: Vec<TabInfo> = Vec::new();
    let mut i: usize = 0;
    assert(tabs_view(out@) =~= available_tabs(tv.take(0), tsv, h));
    while i < tabs.len()
        invariant
            tv == tabs_view(tabs@),
            tsv == terminals_view(ts@),
            i <= tabs@.len(),
            tabs_view(out@) == available_tabs(tv.take(i as int), tsv, h),
        decreases tabs@.len() - i,
    {
        proof {
            assert(tv.take(i + 1).drop_last() =~= tv.take(i as int));
            assert(tv.take(i + 1).last() == tv[i as int]);
        }
        if !rid_taken_in(ts, h, &tabs[i].runtime_id) {
            let ghost before = out@;
            out.push(copy_tab_info(&tabs[i]));
            assert(tabs_view(out@) =~= tabs_view(before).push(tv[i as int]));
        }
        i = i + 1;
    }
    assert(tv.take(i as int) =~= tv);
    out
}

/// Whether terminal `t` is unassigned in window `h`.
fn is_unassigned(mt: &ManagedTerminal, h: isize) -> (r: bool)
    ensures
        r == unassigned(mt@, h),
{
    mt.instance.status == Status::Running && mt.hwnd == Some(h) && mt.runtime_id.is_none()
}

/// How many unassigned terminals of window `h` come before terminal `j`.
fn rank_in_window(ts: &Vec<ManagedTerminal>, h: isize, j: usize) -> (r: usize)
    requires
        j < ts@.len(),
    ensures
        r == rank_below(terminals_view(ts@), h, j as int, ts@.len() as int),
{
    let ghost tv = terminals_view(ts@);
    let mut count: usize = 0;
    let mut n: usize = 0;
    while n < ts.len()
        invariant
            tv == terminals_view(ts@),
            j < ts@.len(),
            n <= ts@.len(),
            count <= n,
            count == rank_below(tv, h, j as int, n as int),
        decreases ts@.len() - n,
    {
        let before = ts[n].tab_index < ts[j].tab_index || (ts[n].tab_index == ts[j].tab_index && n < j);
        if is_unassigned(&ts[n], h) && before {
            count = count + 1;
        }
        n = n + 1;
    }
    count
}

/// What a round decides for terminal `j` of the registry as it was: whether
/// it was closed, its runtime id, and the title seen for it.
fn plan_terminal(
    ts: &Vec<ManagedTerminal>,
    uia: &Vec<(isize, Vec<TabInfo>)>,
    fb: &Vec<(isize, String)>,
    dead: &Vec<isize>,
    j: usize,
) -> (r: (bool, Option<Vec<i32>>, Option<String>))
    requires
        j < ts@.len(),
    ensures
        r.0 == is_closed(terminals_view(ts@)[j as int], uia_view(uia@), dead@),
        rid_view(r.1) == observed_rid(terminals_view(ts@), uia_view(uia@), dead@, j as int),
        opt_view(r.2) == observed_title(terminals_view(ts@), uia_view(uia@), titles_view(fb@), dead@, j as int),
{
    let ghost tv = terminals_view(ts@);
    let ghost u = uia_view(uia@);
    let ghost f = titles_view(fb@);
    let mt = &ts[j];
    assert(tv[j as int] == mt@);
    let h = match mt.hwnd {
        Some(h) => h,
        None => {
            return (false, copy_opt_rid(&mt.runtime_id), None);
        },
    };
    if mt.instance.status != Status::Running {
        return (false, copy_opt_rid(&mt.runtime_id), None);
    }
    if contains_hwnd(dead, h) {
        return (true, copy_opt_rid(&mt.runtime_id), None);
    }
    match find_window_tabs(uia, h) {
        None => {
            let title = match find_window_title(fb, h) {
                Some(i) => Some(fb[i].1.clone()),
                None => None,
            };
            (false, copy_opt_rid(&mt.runtime_id), title)
        },
        Some(wi) => {
            let tabs = &uia[wi].1;
            assert(u[wi as int].1 == tabs_view(tabs@));
            match &mt.runtime_id {
                Some(r) => {
                    match last_tab_with_rid(tabs, r) {
                        Some(k) => {
                            assert(tabs_view(tabs@)[k as int] == tab_view(tabs@[k as int]));
                            (false, Some(copy_rid(r)), Some(tabs[k].title.clone()))
                        },
                        None => (true, Some(copy_rid(r)), None),
                    }
                },
                None => {
                    let av = available_in(tabs, ts, h);
                    let k = rank_in_window(ts, h, j);
                    if k < av.len() {
                        assert(tabs_view(av@)[k as int] == tab_view(av@[k as int]));
                        (false, Some(copy_rid(&av[k].runtime_id)), Some(av[k].title.clone()))
                    } else {
                        (false, None, None)
                    }
                },
            }
        },
    }
}

// ---------------------------------------------------------------------------
// Titles and activity.
// ---------------------------------------------------------------------------

/// Applies a seen title to a terminal (see `watch_update`).
fn watch_update_exec(mt: ManagedTerminal, title: &str, now_ms: u64, now: &str) -> (r: (ManagedTerminal, Option<TransitionTuple>))
    ensures
        r.0@ == watch_update(mt@, title@, now_ms, now@).0,
        match r.1 {
            Some(x) => watch_update(mt@, title@, now_ms, now@).1 == Some(crate::terminals::transition_view(x)),
            None => watch_update(mt@, title@, now_ms, now@).1 is None,
        },
{
    let has_marker = str_has_char(title, IDLE_MARKER);
    let mut mt = mt;
    if title.unicode_len() > 0 && !mt.tab_renamed && !str_starts_with(title, TITLE_PREFIX) && !has_marker {
        mt.tab_renamed = true;
    }
    if has_marker && !mt.title_tracking {
        mt.title_tracking = true;
        mt.instance.monitored = true;
    }
    if !mt.title_tracking {
        return (mt, None);
    }
    if has_marker {
        if mt.instance.activity != Activity::Idle {
            mt.pending_active_since = None;
            mt.instance.activity = Activity::Idle;
            mt.instance.last_idle_at = Some(owned(now));
            let x = transition_for(&mt);
            (mt, Some(x))
        } else {
            mt.pending_active_since = None;
            (mt, None)
        }
    } else if mt.instance.activity == Activity::Idle {
        match mt.pending_active_since {
            None => {
                mt.pending_active_since = Some(now_ms);
                (mt, None)
            },
            Some(since) => {
                if now_ms >= since && now_ms - since >= ACTIVE_DEBOUNCE_MS {
                    mt.pending_active_since = None;
                    mt.instance.activity = Activity::Active;
                    let x = transition_for(&mt);
                    (mt, Some(x))
                } else {
                    (mt, None)
                }
            },
        }
    } else {
        (mt, None)
    }
}

// ---------------------------------------------------------------------------
// Tab order.
// ---------------------------------------------------------------------------

/// Position of the first terminal with runtime id `r`.
fn first_terminal_with_rid(ts: &Vec<ManagedTerminal>, r: &Vec<i32>) -> (k: Option<usize>)
    ensures
        match k {
            Some(i) => i < ts@.len() && first_where(terminals_view(ts@), terminal_has_rid(r@)) == Some(i as int),
            None => first_where(terminals_view(ts@), terminal_has_rid(r@)) is None,
        },
{
    let ghost tv = terminals_view(ts@);
    let mut i: usize = 0;
    while i < ts.len()
        invariant
            tv == terminals_view(ts@),
            i <= ts@.len(),
            forall|j: int| 0 <= j < i ==> !(terminal_has_rid(r@))(#[trigger] tv[j]),
        decreases ts@.len() - i,
    {
        if opt_rid_is(&ts[i].runtime_id, r) {
            proof { lemma_first_where(tv, terminal_has_rid(r@), i as int); }
            return Some(i);
        }
        i = i + 1;
    }
    proof { lemma_first_where(tv, terminal_has_rid(r@), i as int); }
    None
}

/// Ids of the managed terminals shown by the tabs, left to right.
fn window_ids(tabs: &Vec<TabInfo>, ts: &Vec<ManagedTerminal>) -> (ids: Vec<String>)
    ensures
        ids_view(ids@) == window_order_ids(tabs_view(tabs@), terminals_view(ts@)),
{
    let ghost tv = tabs_view(tabs@);
    let ghost tsv = terminals_view(ts@);
    let mut ids: Vec<String> = Vec::new();
    let mut k: usize = 0;
    assert(ids_view(ids@) =~= window_order_ids(tv.take(0), tsv));
    while k < tabs.len()
        invariant
            tv == tabs_view(tabs@),
            tsv == terminals_view(ts@),
            k <= tabs@.len(),
            ids_view(ids@) == window_order_ids(tv.take(k as int), tsv),
        decreases tabs@.len() - k,
    {
        proof {
            assert(tv.take(k + 1).drop_last() =~= tv.take(k as int));
            assert(tv.take(k + 1).last() == tv[k as int]);
        }
        match first_terminal_with_rid(ts, &tabs[k].runtime_id) {
            Some(i) => {
                let ghost before = ids@;
                ids.push(ts[i].instance.id.clone());
                assert(ids_view(ids@) =~= ids_view(before).push(tsv[i as int].instance.id));
            },
            None => {},
        }
        k = k + 1;
    }
    assert(tv.take(k as int) =~= tv);
    ids
}

/// For each window with tabs, in order, the ids of its managed tabs left to
/// right, keeping the windows with at least `MIN_TERMINALS_FOR_ORDER` of
/// them. A tab shows the first terminal with its runtime id.
pub fn compute_terminal_order(uia_data: &Vec<(isize, Vec<TabInfo>)>, terminals: &Vec<ManagedTerminal>) -> (r: Vec<(isize, Vec<String>)>)
    ensures
        order_view(r@) == terminal_order(uia_view(uia_data@), terminals_view(terminals@)),
{
    let ghost u = uia_view(uia_data@);
    let ghost tsv = terminals_view(terminals@);
    let mut r: Vec<(isize, Vec<String>)> = Vec::new();
    let mut w: usize = 0;
    assert(order_view(r@) =~= terminal_order(u.take(0), tsv));
    while w < uia_data.len()
        invariant
            u == uia_view(uia_data@),
            tsv == terminals_view(terminals@),
            w <= uia_data@.len(),
            order_view(r@) == terminal_order(u.take(w as int), tsv),
        decreases uia_data@.len() - w,
    {
        proof {
            assert(u.take(w + 1).drop_last() =~= u.take(w as int));
            assert(u.take(w + 1).last() == u[w as int]);
        }
        let ids = window_ids(&uia_data[w].1, terminals);
        if ids.len() >= MIN_TERMINALS_FOR_ORDER {
            let ghost before = r@;
            r.push((uia_data[w].0, ids));
            assert(order_view(r@) =~= order_view(before).push((u[w as int].0, window_order_ids(u[w as int].1, tsv))));
        }
        w = w + 1;
    }
    assert(u.take(w as int) =~= u);
    r
}

/// Whether two id lists are equal.
fn ids_equal(a: &Vec<String>, b: &Vec<String>) -> (r: bool)
    ensures
        r == (ids_view(a@) == ids_view(b@)),
{
    if a.len() != b.len() {
        assert(ids_view(a@).len() != ids_view(b@).len());
        return false;
    }
    let mut i: usize = 0;
    while i < a.len()
        invariant
            a@.len() == b@.len(),
            i <= a@.len(),
            forall|k: int| 0 <= k < i ==> ids_view(a@)[k] == ids_view(b@)[k],
        decreases a@.len() - i,
    {
        if !crate::text::str_eq(a[i].as_str(), b[i].as_str()) {
            assert(ids_view(a@)[i as int] != ids_view(b@)[i as int]);
            return false;
        }
        i = i + 1;
    }
    assert(ids_view(a@) =~= ids_view(b@));
    true
}

/// Whether two tab orders hold the same entries (see `same_windows`).
fn same_windows_exec(a: &Vec<(isize, Vec<String>)>, b: &Vec<(isize, Vec<String>)>) -> (r: bool)
    ensures
        r == same_windows(order_view(a@), order_view(b@)),
{
    let ghost av = order_view(a@);
    let ghost bv = order_view(b@);
    assert(av.len() == a@.len() && bv.len() == b@.len());
    if a.len() != b.len() {
        return false;
    }
    let mut i: usize = 0;
    while i < a.len()
        invariant
            av == order_view(a@),
            bv == order_view(b@),
            a@.len() == b@.len(),
            av.len() == a@.len() && bv.len() == b@.len(),
            i <= a@.len(),
            forall|k: int| 0 <= k < i ==> has_entry(bv, #[trigger] av[k]),
        decreases a@.len() - i,
    {
        let mut j: usize = 0;
        let mut found = false;
        while j < b.len()
            invariant
                av == order_view(a@),
                bv == order_view(b@),
                av.len() == a@.len() && bv.len() == b@.len(),
                i < a@.len(),
                j <= b@.len(),
                found ==> has_entry(bv, av[i as int]),
                !found ==> forall|m: int| 0 <= m < j ==> bv[m] != av[i as int],
            decreases b@.len() - j,
        {
            if !found && b[j].0 == a[i].0 && ids_equal(&b[j].1, &a[i].1) {
                assert(bv[j as int] == av[i as int]);
                found = true;
            }
            j = j + 1;
        }
        if !found {
            assert(!has_entry(bv, av[i as int]));
            return false;
        }
        i = i + 1;
    }
    true
}

/// The ids of a tab order, window after window.
fn flatten_order(o: &Vec<(isize, Vec<String>)>) -> (r: Vec<String>)
    ensures
        ids_view(r@) == flatten_ids(order_view(o@)),
{
    let ghost ov = order_view(o@);
    let mut r: Vec<String> = Vec::new();
    let mut w: usize = 0;
    assert(ids_view(r@) =~= flatten_ids(ov.take(0)));
    while w < o.len()
        invariant
            ov == order_view(o@),
            w <= o@.len(),
            ids_view(r@) == flatten_ids(ov.take(w as int)),
        decreases o@.len() - w,
    {
        proof {
            assert(ov.take(w + 1).drop_last() =~= ov.take(w as int));
            assert(ov.take(w + 1).last() == ov[w as int]);
        }
        let ghost before = r@;
        let ids = &o[w].1;
        let mut k: usize = 0;
        while k < ids.len()
            invariant
                ov == order_view(o@),
                w < o@.len(),
                ids == &o@[w as int].1,
                k <= ids@.len(),
                ids_view(r@) == ids_view(before) + ids_view(ids@).take(k as int),
            decreases ids@.len() - k,
        {
            let ghost prev_r = r@;
            r.push(ids[k].clone());
            proof {
                assert(ids_view(r@) =~= ids_view(prev_r).push(ids@[k as int]@));
                assert(ids_view(ids@).take(k + 1) =~= ids_view(ids@).take(k as int).push(ids@[k as int]@));
                assert(ids_view(r@) =~= ids_view(before) + ids_view(ids@).take(k + 1));
            }
            k = k + 1;
        }
        assert(ids_view(ids@).take(k as int) =~= ids_view(ids@));
        w = w + 1;
    }
    assert(ov.take(w as int) =~= ov);
    r
}

/// Two registries whose terminals have the same runtime ids have the same
/// first terminal with a given runtime id.
proof fn lemma_first_rid_same(a: Seq<TerminalView>, b: Seq<TerminalView>, r: Seq<i32>)
    requires
        a.len() == b.len(),
        forall|j: int| 0 <= j < a.len() ==> (#[trigger] a[j]).runtime_id == b[j].runtime_id,
    ensures
        first_where(a, terminal_has_rid(r)) == first_where(b, terminal_has_rid(r)),
    decreases a.len(),
{
    if a.len() > 0 {
        let da = a.drop_first();
        let db = b.drop_first();
        assert forall|j: int| 0 <= j < da.len() implies (#[trigger] da[j]).runtime_id == db[j].runtime_id by {
            assert(da[j] == a[j + 1] && db[j] == b[j + 1]);
        }
        assert(a[0].runtime_id == b[0].runtime_id);
        lemma_first_rid_same(da, db, r);
    }
}

/// Reindexing keeps everything but tab indices.
proof fn lemma_reindex_keeps(ts: Seq<TerminalView>, ps: Seq<(Seq<i32>, int)>)
    ensures
        reindex_by(ts, ps).len() == ts.len(),
        forall|j: int| 0 <= j < ts.len() ==> (#[trigger] reindex_by(ts, ps)[j]) == (TerminalView { tab_index: reindex_by(ts, ps)[j].tab_index, ..ts[j] }),
{
}

/// One more position entry: the first terminal with the entry's runtime id
/// takes the entry's position.
proof fn lemma_reindex_push(ts: Seq<TerminalView>, ps: Seq<(Seq<i32>, int)>, x: (Seq<i32>, int))
    ensures
        reindex_by(ts, ps.push(x)) == match first_where(ts, terminal_has_rid(x.0)) {
            Some(i) => reindex_by(ts, ps).update(i, (TerminalView { tab_index: x.1 as usize, ..reindex_by(ts, ps)[i] })),
            None => reindex_by(ts, ps),
        },
{
    lemma_first_where_range(ts, terminal_has_rid(x.0));
    let a = reindex_by(ts, ps.push(x));
    let c = reindex_by(ts, ps);
    let b = match first_where(ts, terminal_has_rid(x.0)) {
        Some(i) => c.update(i, TerminalView { tab_index: x.1 as usize, ..c[i] }),
        None => c,
    };
    assert(ps.push(x).drop_last() =~= ps);
    assert(ps.push(x).last() == x);
    assert forall|j: int| 0 <= j < ts.len() implies a[j] == b[j] by {
        match ts[j].runtime_id {
            Some(r) => {
                lemma_last_where_range(ps, pos_has_rid(r));
                if first_where(ts, terminal_has_rid(r)) == Some(j) {
                    if r == x.0 {
                        assert((pos_has_rid(r))(x));
                        assert(last_where(ps.push(x), pos_has_rid(r)) == Some(ps.len() as int));
                        assert(a[j] == (TerminalView { tab_index: x.1 as usize, ..ts[j] }));
                        assert(b[j] == (TerminalView { tab_index: x.1 as usize, ..c[j] }));
                    } else {
                        assert(!(pos_has_rid(r))(x));
                        assert(last_where(ps.push(x), pos_has_rid(r)) == last_where(ps, pos_has_rid(r)));
                        if let Some(k) = last_where(ps, pos_has_rid(r)) {
                            assert(ps.push(x)[k] == ps[k]);
                        }
                        assert(a[j] == c[j]);
                        if let Some(i) = first_where(ts, terminal_has_rid(x.0)) {
                            assert(i != j);
                        }
                    }
                } else {
                    assert(a[j] == ts[j] && c[j] == ts[j]);
                    if let Some(i) = first_where(ts, terminal_has_rid(x.0)) {
                        assert(i != j);
                    }
                }
            },
            None => {
                assert(a[j] == ts[j] && c[j] == ts[j]);
                if let Some(i) = first_where(ts, terminal_has_rid(x.0)) {
                    assert(i != j);
                }
            },
        }
    }
    assert(a =~= b);
}

/// Sets the tab index of each terminal from the position of its tab (see
/// `reindex_by` over `tab_positions`).
fn reindex(ts: &mut Vec<ManagedTerminal>, uia: &Vec<(isize, Vec<TabInfo>)>)
    requires
        registry_wf(terminals_view(old(ts)@)),
    ensures
        terminals_view(final(ts)@) == reindex_by(terminals_view(old(ts)@), tab_positions(uia_view(uia@))),
        registry_wf(terminals_view(final(ts)@)),
{
    let ghost t0 = terminals_view(ts@);
    let ghost u = uia_view(uia@);
    assert(reindex_by(t0, tab_positions(u.take(0))) =~= t0);
    let mut w: usize = 0;
    while w < uia.len()
        invariant
            u == uia_view(uia@),
            w <= uia@.len(),
            terminals_view(ts@) == reindex_by(t0, tab_positions(u.take(w as int))),
            registry_wf(terminals_view(ts@)),
        decreases uia@.len() - w,
    {
        let tabs = &uia[w].1;
        let ghost tv = tabs_view(tabs@);
        let ghost base = tab_positions(u.take(w as int));
        assert(u[w as int].1 == tv);
        assert(base + positions_of(tv.take(0)) =~= base);
        let mut k: usize = 0;
        while k < tabs.len()
            invariant
                tv == tabs_view(tabs@),
                k <= tabs@.len(),
                terminals_view(ts@) == reindex_by(t0, base + positions_of(tv.take(k as int))),
                registry_wf(terminals_view(ts@)),
            decreases tabs@.len() - k,
        {
            let ghost cur = terminals_view(ts@);
            let ghost ps = base + positions_of(tv.take(k as int));
            proof {
                lemma_reindex_keeps(t0, ps);
                lemma_first_rid_same(cur, t0, tv[k as int].0);
                lemma_reindex_push(t0, ps, (tv[k as int].0, k as int));
                assert(ps.push((tv[k as int].0, k as int)) =~= base + positions_of(tv.take(k + 1)));
            }
            match first_terminal_with_rid(ts, &tabs[k].runtime_id) {
                Some(i) => {
                    let mut mt = ts.remove(i);
                    mt.tab_index = k;
                    ts.insert(i, mt);
                    proof {
                        assert(terminals_view(ts@) =~= cur.update(i as int, TerminalView { tab_index: k, ..cur[i as int] }));
                        let n = terminals_view(ts@);
                        assert forall|a: int, b: int| 0 <= a < b < n.len() implies (#[trigger] n[a]).instance.id != (#[trigger] n[b]).instance.id by {
                            assert(n[a].instance.id == cur[a].instance.id && n[b].instance.id == cur[b].instance.id);
                        }
                    }
                },
                None => {},
            }
            k = k + 1;
        }
        proof {
            assert(u.take(w + 1).drop_last() =~= u.take(w as int));
            assert(u.take(w + 1).last() == u[w as int]);
            assert(tv.take(k as int) =~= tv);
        }
        w = w + 1;
    }
    assert(u.take(w as int) =~= u);
}

/// What a round decides for every terminal of the registry as it was.
fn plan_all(
    ts: &Vec<ManagedTerminal>,
    uia: &Vec<(isize, Vec<TabInfo>)>,
    fb: &Vec<(isize, String)>,
    dead: &Vec<isize>,
) -> (r: (Vec<bool>, Vec<Option<Vec<i32>>>, Vec<Option<String>>))
    ensures
        r.0@.len() == ts@.len() && r.1@.len() == ts@.len() && r.2@.len() == ts@.len(),
        forall|k: int| 0 <= k < ts@.len() ==> #[trigger] r.0@[k] == is_closed(terminals_view(ts@)[k], uia_view(uia@), dead@),
        forall|k: int| 0 <= k < ts@.len() ==> #[trigger] rid_view(r.1@[k]) == observed_rid(terminals_view(ts@), uia_view(uia@), dead@, k),
        forall|k: int| 0 <= k < ts@.len() ==> #[trigger] opt_view(r.2@[k]) == observed_title(
            terminals_view(ts@),
            uia_view(uia@),
            titles_view(fb@),
            dead@,
            k,
        ),
{
    let ghost tv = terminals_view(ts@);
    let mut closed: Vec<bool> = Vec::new();
    let mut rids: Vec<Option<Vec<i32>>> = Vec::new();
    let mut titles: Vec<Option<String>> = Vec::new();
    let mut j: usize = 0;
    while j < ts.len()
        invariant
            tv == terminals_view(ts@),
            j <= ts@.len(),
            closed@.len() == j && rids@.len() == j && titles@.len() == j,
            forall|k: int| 0 <= k < j ==> #[trigger] closed@[k] == is_closed(tv[k], uia_view(uia@), dead@),
            forall|k: int| 0 <= k < j ==> #[trigger] rid_view(rids@[k]) == observed_rid(tv, uia_view(uia@), dead@, k),
            forall|k: int| 0 <= k < j ==> #[trigger] opt_view(titles@[k]) == observed_title(tv, uia_view(uia@), titles_view(fb@), dead@, k),
        decreases ts@.len() - j,
    {
        let (c, r, t) = plan_terminal(ts, uia, fb, dead, j);
        closed.push(c);
        rids.push(r);
        titles.push(t);
        j = j + 1;
    }
    (closed, rids, titles)
}

/// One terminal's step in a round (see `step_with`).
fn step_one(
    mt: ManagedTerminal,
    closed: bool,
    rid: &Option<Vec<i32>>,
    title: &Option<String>,
    now_ms: u64,
    now: &str,
) -> (r: (ManagedTerminal, Option<TransitionTuple>))
    ensures
        r.0@ == step_with(mt@, closed, rid_view(*rid), opt_view(*title), now_ms, now@).0,
        opt_transition_view(r.1) == step_with(mt@, closed, rid_view(*rid), opt_view(*title), now_ms, now@).1,
{
    let mut mt = mt;
    mt.runtime_id = copy_opt_rid(rid);
    if !closed && mt.instance.status == Status::Running && mt.hwnd.is_some() {
        proof { reveal_strlit(""); }
        let seen: &str = match title {
            Some(s) => s.as_str(),
            None => "",
        };
        watch_update_exec(mt, seen, now_ms, now)
    } else {
        (mt, None)
    }
}

// ---------------------------------------------------------------------------
// A round.
// ---------------------------------------------------------------------------

/// What a round reports: the ids of the terminals found closed (they leave
/// the registry), the activity changes, and the new tab order (all ids,
/// window after window) when it changed.
pub struct MonitorReport {
    pub closed_ids: Vec<String>,
    pub transitions: Vec<TransitionTuple>,
    pub order_changed: Option<Vec<String>>,
}

/// The observation made of a round's inputs.
pub open spec fn observation(
    uia: Seq<(isize, Vec<TabInfo>)>,
    fb: Seq<(isize, String)>,
    dead: Seq<isize>,
    now_ms: u64,
    now: Seq<char>,
) -> Observation {
    Observation { tabs: uia_view(uia), titles: titles_view(fb), dead: dead, now_ms: now_ms, now: now }
}

pub open spec fn opt_ids_view(o: Option<Vec<String>>) -> Option<Seq<Seq<char>>> {
    match o {
        Some(v) => Some(ids_view(v@)),
        None => None,
    }
}

/// A round keeps each terminal's id and tab index until the order is read.
proof fn lemma_step_keeps(ts: Seq<TerminalView>, ob: Observation, j: int)
    requires
        0 <= j < ts.len(),
    ensures
        step_terminal(ts, ob, j).0.instance.id == ts[j].instance.id,
        step_terminal(ts, ob, j).0.tab_index == ts[j].tab_index,
        step_terminal(ts, ob, j).0.hook_session_id == ts[j].hook_session_id,
{
}

/// Two registries of the same length whose terminals have the same sessions,
/// position by position, are alike in mapping no session twice.
proof fn lemma_same_sessions(a: Seq<TerminalView>, b: Seq<TerminalView>)
    requires
        a.len() == b.len(),
        forall|k: int| 0 <= k < a.len() ==> (#[trigger] b[k]).hook_session_id == a[k].hook_session_id,
        sessions_unique(a),
    ensures
        sessions_unique(b),
{
    assert forall|p: int, q: int|
        0 <= p < b.len() && 0 <= q < b.len() && p != q && (#[trigger] b[p]).hook_session_id is Some
        implies b[p].hook_session_id != (#[trigger] b[q]).hook_session_id by {
        assert(a[p].hook_session_id == b[p].hook_session_id);
        assert(a[q].hook_session_id == b[q].hook_session_id);
    }
}

/// The kept terminals map no session twice when the round's registry does not.
proof fn lemma_kept_sessions(ts: Seq<TerminalView>, w: Seq<TerminalView>, ob: Observation, n: int)
    requires
        0 <= n <= w.len(),
        registry_wf(w),
        sessions_unique(w),
    ensures
        sessions_unique(kept(ts, w, ob, n)),
{
    lemma_kept(ts, w, ob, n);
    let b = kept(ts, w, ob, n);
    assert forall|p: int, q: int|
        0 <= p < b.len() && 0 <= q < b.len() && p != q && (#[trigger] b[p]).hook_session_id is Some
        implies b[p].hook_session_id != (#[trigger] b[q]).hook_session_id by {
        assert(among_first(w, b[p], n));
        assert(among_first(w, b[q], n));
        let k1 = choose|k: int| 0 <= k < n && w[k] == b[p];
        let k2 = choose|k: int| 0 <= k < n && w[k] == b[q];
        if p < q {
            assert(b[p].instance.id != b[q].instance.id);
        } else {
            assert(b[q].instance.id != b[p].instance.id);
        }
        assert(k1 != k2);
    }
}

/// `y` is one of the first `n` entries of `w`.
pub open spec fn among_first(w: Seq<TerminalView>, y: TerminalView, n: int) -> bool {
    exists|k: int| 0 <= k < n && w[k] == y
}

/// The kept terminals are entries of `w` in order, so they stay well formed.
proof fn lemma_kept(ts: Seq<TerminalView>, w: Seq<TerminalView>, ob: Observation, n: int)
    requires
        0 <= n <= w.len(),
        registry_wf(w),
    ensures
        forall|x: int| 0 <= x < kept(ts, w, ob, n).len() ==> among_first(w, #[trigger] kept(ts, w, ob, n)[x], n),
        registry_wf(kept(ts, w, ob, n)),
    decreases n,
{
    if n > 0 {
        lemma_kept(ts, w, ob, n - 1);
        let a = kept(ts, w, ob, n - 1);
        let b = kept(ts, w, ob, n);
        if !is_closed(ts[n - 1], ob.tabs, ob.dead) {
            assert(b == a.push(w[n - 1]));
            assert forall|x: int| 0 <= x < b.len() implies among_first(w, #[trigger] b[x], n) by {
                if x < a.len() {
                    assert(b[x] == a[x]);
                    assert(among_first(w, a[x], n - 1));
                    let k = choose|k: int| 0 <= k < n - 1 && w[k] == a[x];
                    assert(w[k] == b[x]);
                } else {
                    assert(b[x] == w[n - 1]);
                }
            }
            assert forall|p: int, q: int| 0 <= p < q < b.len() implies (#[trigger] b[p]).instance.id != (#[trigger] b[q]).instance.id by {
                if q < a.len() {
                    assert(b[p] == a[p] && b[q] == a[q]);
                } else {
                    assert(among_first(w, a[p], n - 1));
                    let k = choose|k: int| 0 <= k < n - 1 && w[k] == a[p];
                    assert(b[p] == w[k]);
                    assert(b[q] == w[n - 1]);
                }
            }
            assert forall|p: int| 0 <= p < b.len() implies (#[trigger] b[p]).tab_index < usize::MAX by {
                assert(among_first(w, b[p], n));
                let k = choose|k: int| 0 <= k < n && w[k] == b[p];
            }
        } else {
            assert forall|x: int| 0 <= x < b.len() implies among_first(w, #[trigger] b[x], n) by {
                assert(among_first(w, a[x], n - 1));
                let k = choose|k: int| 0 <= k < n - 1 && w[k] == a[x];
            }
        }
    }
}

impl Manager {
    /// One round of watching, on what was observed of the windows of the
    /// running terminals: `uia_data`, the tabs (runtime id and title, left
    /// to right) of the windows whose tabs could be listed; `fallback_titles`,
    /// the titles of the other windows still open; `dead_hwnds`, the windows
    /// that are gone; `now_ms`, a monotonic clock in milliseconds; `now`, the
    /// current timestamp. `previous_order` is the tab order of the last round
    /// and becomes this round's.
    ///
    /// The round closes the terminals whose window is gone or whose tab is
    /// no longer listed; gives the terminals of a listed window that have no
    /// runtime id yet the unclaimed tabs, in tab index order; applies the
    /// seen titles (`watch_update`); and, when the tab order changed, sets
    /// the tab indices from the tabs' positions and reports the new order.
    /// Closed terminals leave the registry.
    pub fn monitor_step(
        &mut self,
        uia_data: &Vec<(isize, Vec<TabInfo>)>,
        fallback_titles: &Vec<(isize, String)>,
        dead_hwnds: &Vec<isize>,
        previous_order: &mut Vec<(isize, Vec<String>)>,
        now_ms: u64,
        now: &str,
    ) -> (r: MonitorReport)
        requires
            old(self).wf(),
        ensures
            final(self).wf(),
            final(self).spec_terminals() == round_registry(
                old(self).spec_terminals(),
                observation(uia_data@, fallback_titles@, dead_hwnds@, now_ms, now@),
                order_view(old(previous_order)@),
            ),
            ids_view(r.closed_ids@) == closed_ids(
                old(self).spec_terminals(),
                observation(uia_data@, fallback_titles@, dead_hwnds@, now_ms, now@),
                old(self).spec_terminals().len() as int,
            ),
            transitions_view(r.transitions@) == reports(
                old(self).spec_terminals(),
                observation(uia_data@, fallback_titles@, dead_hwnds@, now_ms, now@),
                old(self).spec_terminals().len() as int,
            ),
            opt_ids_view(r.order_changed) == order_report(
                old(self).spec_terminals(),
                observation(uia_data@, fallback_titles@, dead_hwnds@, now_ms, now@),
                order_view(old(previous_order)@),
            ),
            order_view(final(previous_order)@) == round_order(
                old(self).spec_terminals(),
                observation(uia_data@, fallback_titles@, dead_hwnds@, now_ms, now@),
            ),
    {
        let ghost ts0 = self.spec_terminals();
        let ghost ob = observation(uia_data@, fallback_titles@, dead_hwnds@, now_ms, now@);
        let ghost prev = order_view(previous_order@);
        let mut ts = self.take_terminals();
        let n = ts.len();

        // What the round decides for each terminal, read off the registry
        // as it was.
        let (closed, rids, titles) = plan_all(&ts, uia_data, fallback_titles, dead_hwnds);

        // Runtime ids, titles and activity.
        let ghost orig = ts@;
        let mut w: Vec<ManagedTerminal> = Vec::new();
        let mut transitions: Vec<TransitionTuple> = Vec::new();
        let mut j: usize = 0;
        while j < n
            invariant
                ob == observation(uia_data@, fallback_titles@, dead_hwnds@, now_ms, now@),
                terminals_view(orig) == ts0,
                n == orig.len(),
                j <= n,
                ts@ == orig.subrange(j as int, n as int),
                closed@.len() == n && rids@.len() == n && titles@.len() == n,
                forall|k: int| 0 <= k < n ==> #[trigger] closed@[k] == is_closed(ts0[k], ob.tabs, ob.dead),
                forall|k: int| 0 <= k < n ==> #[trigger] rid_view(rids@[k]) == observed_rid(ts0, ob.tabs, ob.dead, k),
                forall|k: int| 0 <= k < n ==> #[trigger] opt_view(titles@[k]) == observed_title(ts0, ob.tabs, ob.titles, ob.dead, k),
                w@.len() == j,
                forall|k: int| 0 <= k < j ==> (#[trigger] w@[k])@ == step_terminal(ts0, ob, k).0,
                transitions_view(transitions@) == reports(ts0, ob, j as int),
            decreases n - j,
        {
            let mt = ts.remove(0);
            proof {
                assert(mt == orig[j as int]);
                assert(mt@ == ts0[j as int]);
                assert(closed@[j as int] == is_closed(ts0[j as int], ob.tabs, ob.dead));
                assert(rid_view(rids@[j as int]) == observed_rid(ts0, ob.tabs, ob.dead, j as int));
                assert(opt_view(titles@[j as int]) == observed_title(ts0, ob.tabs, ob.titles, ob.dead, j as int));
                assert(step_terminal(ts0, ob, j as int) == step_with(
                    mt@,
                    closed@[j as int],
                    rid_view(rids@[j as int]),
                    opt_view(titles@[j as int]),
                    now_ms,
                    now@,
                ));
            }
            let ghost before = transitions@;
            let ghost wb = w@;
            let (m2, tr) = step_one(mt, closed[j], &rids[j], &titles[j], now_ms, now);
            assert(m2@ == step_terminal(ts0, ob, j as int).0);
            assert(opt_transition_view(tr) == step_terminal(ts0, ob, j as int).1);
            w.push(m2);
            match tr {
                Some(x) => {
                    transitions.push(x);
                    assert(transitions_view(transitions@) =~= transitions_view(before).push(crate::terminals::transition_view(x)));
                },
                None => {},
            }
            proof {
                assert forall|k: int| 0 <= k < j + 1 implies (#[trigger] w@[k])@ == step_terminal(ts0, ob, k).0 by {
                    if k < j {
                        assert(w@[k] == wb[k]);
                    }
                }
                match step_terminal(ts0, ob, j as int).1 {
                    Some(x) => assert(reports(ts0, ob, j + 1) =~= reports(ts0, ob, j as int).push(x)),
                    None => assert(reports(ts0, ob, j + 1) =~= reports(ts0, ob, j as int)),
                }
                assert(ts@ =~= orig.subrange(j + 1, n as int));
            }
            j = j + 1;
        }
        let ghost wv = terminals_view(w@);
        proof {
            assert(wv =~= watched(ts0, ob));
            assert forall|k: int| 0 <= k < n implies (#[trigger] wv[k]).instance.id == ts0[k].instance.id && wv[k].tab_index == ts0[k].tab_index
                && wv[k].hook_session_id == ts0[k].hook_session_id by {
                lemma_step_keeps(ts0, ob, k);
            }
            assert forall|a: int, b: int| 0 <= a < b < wv.len() implies (#[trigger] wv[a]).instance.id != (#[trigger] wv[b]).instance.id by {
                assert(wv[a].instance.id == ts0[a].instance.id && wv[b].instance.id == ts0[b].instance.id);
            }
            assert forall|a: int| 0 <= a < wv.len() implies (#[trigger] wv[a]).tab_index < usize::MAX by {
                assert(wv[a].tab_index == ts0[a].tab_index);
            }
        }

        // Tab order.
        let cur = compute_terminal_order(uia_data, &w);
        let same = same_windows_exec(&cur, previous_order);
        if !same {
            reindex(&mut w, uia_data);
        }
        let report = if !same && cur.len() > 0 {
            Some(flatten_order(&cur))
        } else {
            None
        };
        assert(order_view(cur@).len() == cur@.len());
        *previous_order = cur;

        // Closed terminals leave.
        let ghost w2 = w@;
        let ghost w2v = terminals_view(w2);
        proof {
            if !same {
                lemma_reindex_keeps(wv, tab_positions(ob.tabs));
            }
            assert(w2v.len() == n);
            assert forall|k: int| 0 <= k < n implies (#[trigger] w2v[k]).instance.id == ts0[k].instance.id
                && w2v[k].hook_session_id == ts0[k].hook_session_id by {
                assert(wv[k].instance.id == ts0[k].instance.id);
                assert(wv[k].hook_session_id == ts0[k].hook_session_id);
            }
            lemma_same_sessions(ts0, w2v);
        }
        let mut kept_v: Vec<ManagedTerminal> = Vec::new();
        let mut closed_v: Vec<String> = Vec::new();
        let mut j: usize = 0;
        assert(terminals_view(kept_v@) =~= kept(ts0, w2v, ob, 0));
        assert(ids_view(closed_v@) =~= closed_ids(ts0, ob, 0));
        while j < n
            invariant
                n == w2.len(),
                n == ts0.len(),
                w2v == terminals_view(w2),
                j <= n,
                w@ == w2.subrange(j as int, n as int),
                closed@.len() == n,
                forall|k: int| 0 <= k < n ==> #[trigger] closed@[k] == is_closed(ts0[k], ob.tabs, ob.dead),
                forall|k: int| 0 <= k < n ==> (#[trigger] w2v[k]).instance.id == ts0[k].instance.id,
                terminals_view(kept_v@) == kept(ts0, w2v, ob, j as int),
                ids_view(closed_v@) == closed_ids(ts0, ob, j as int),
            decreases n - j,
        {
            let mt = w.remove(0);
            assert(mt == w2[j as int]);
            assert(w2v[j as int] == mt@);
            assert(w2v[j as int].instance.id == ts0[j as int].instance.id);
            assert(closed@[j as int] == is_closed(ts0[j as int], ob.tabs, ob.dead));
            if closed[j] {
                let ghost before = closed_v@;
                closed_v.push(mt.instance.id.clone());
                assert(ids_view(closed_v@) =~= ids_view(before).push(ts0[j as int].instance.id));
            } else {
                let ghost before = kept_v@;
                kept_v.push(mt);
                assert(terminals_view(kept_v@) =~= terminals_view(before).push(w2v[j as int]));
            }
            assert(w@ =~= w2.subrange(j + 1, n as int));
            j = j + 1;
        }
        proof {
            lemma_kept(ts0, w2v, ob, n as int);
            lemma_kept_sessions(ts0, w2v, ob, n as int);
        }
        self.put_terminals(kept_v);
        MonitorReport { closed_ids: closed_v, transitions: transitions, order_changed: report }
    }
}

/// The window of a running terminal.
pub open spec fn runs_in(ts: Seq<TerminalView>, h: isize) -> bool {
    exists|i: int| 0 <= i < ts.len() && (#[trigger] ts[i]).instance.status == Status::Running && ts[i].hwnd == Some(h)
}

impl Manager {
    /// The windows of the running terminals, each once, in registry order
    /// of first appearance.
    pub fn running_windows(&self) -> (r: Vec<isize>)
        ensures
            forall|h: isize| r@.contains(h) <==> runs_in(self.spec_terminals(), h),
            r@.no_duplicates(),
    {
        let ts = self.terminals_ref();
        let ghost tv = terminals_view(ts@);
        let mut r: Vec<isize> = Vec::new();
        let mut i: usize = 0;
        while i < ts.len()
            invariant
                tv == terminals_view(ts@),
                i <= ts@.len(),
                r@.no_duplicates(),
                forall|h: isize| r@.contains(h) <==> runs_in(tv.take(i as int), h),
            decreases ts@.len() - i,
        {
            let ghost before = r@;
            proof {
                assert forall|h: isize| runs_in(tv.take(i + 1), h) <==> (runs_in(tv.take(i as int), h)
                    || (tv[i as int].instance.status == Status::Running && tv[i as int].hwnd == Some(h))) by {
                    if runs_in(tv.take(i + 1), h) {
                        let k = choose|k: int| 0 <= k < i + 1 && (#[trigger] tv.take(i + 1)[k]).instance.status == Status::Running
                            && tv.take(i + 1)[k].hwnd == Some(h);
                        if k < i {
                            assert(tv.take(i as int)[k] == tv.take(i + 1)[k]);
                        }
                    }
                    if runs_in(tv.take(i as int), h) {
                        let k = choose|k: int| 0 <= k < i && (#[trigger] tv.take(i as int)[k]).instance.status == Status::Running
                            && tv.take(i as int)[k].hwnd == Some(h);
                        assert(tv.take(i + 1)[k] == tv.take(i as int)[k]);
                    }
                    if tv[i as int].instance.status == Status::Running && tv[i as int].hwnd == Some(h) {
                        assert(tv.take(i + 1)[i as int] == tv[i as int]);
                    }
                }
            }
            let mt = &ts[i];
            if mt.instance.status == Status::Running {
                match mt.hwnd {
                    Some(h) => {
                        if !contains_hwnd(&r, h) {
                            r.push(h);
                            proof {
                                assert forall|x: isize| r@.contains(x) <==> (before.contains(x) || x == h) by {
                                    if r@.contains(x) {
                                        let k = choose|k: int| 0 <= k < r@.len() && r@[k] == x;
                                        if k < before.len() {
                                            assert(before[k] == x);
                                        }
                                    }
                                    if before.contains(x) {
                                        let k = choose|k: int| 0 <= k < before.len() && before[k] == x;
                                        assert(r@[k] == x);
                                    }
                                    if x == h {
                                        assert(r@[before.len() as int] == h);
                                    }
                                }
                                assert forall|a: int, b: int| 0 <= a < r@.len() && 0 <= b < r@.len() && a != b implies r@[a] != r@[b] by {
                                    if a < before.len() && b < before.len() {
                                    } else if a == before.len() {
                                        assert(before.contains(r@[b]) || b == a);
                                    } else {
                                        assert(before.contains(r@[a]));
                                    }
                                }
                            }
                        }
                    },
                    None => {},
                }
            }
            proof {
                assert(mt@ == tv[i as int]);
                assert forall|x: isize| r@.contains(x) <==> runs_in(tv.take(i + 1), x) by {
                    assert(runs_in(tv.take(i + 1), x) <==> (runs_in(tv.take(i as int), x)
                        || (tv[i as int].instance.status == Status::Running && tv[i as int].hwnd == Some(x))));
                    assert(before.contains(x) <==> runs_in(tv.take(i as int), x));
                }
            }
            i = i + 1;
        }
        assert(tv.take(i as int) =~= tv);
        r
    }
}

// ---------------------------------------------------------------------------
// Laws of a round.
// ---------------------------------------------------------------------------

/// The kept entries are those whose terminal was not closed.
proof fn lemma_kept_open(ts: Seq<TerminalView>, w: Seq<TerminalView>, ob: Observation, n: int)
    requires
        0 <= n <= ts.len(),
        ts.len() == w.len(),
        forall|k: int| 0 <= k < ts.len() ==> (#[trigger] w[k]).instance.id == ts[k].instance.id,
    ensures
        forall|x: int| 0 <= x < kept(ts, w, ob, n).len() ==> exists|k: int| 0 <= k < n
            && !is_closed(ts[k], ob.tabs, ob.dead) && #[trigger] kept(ts, w, ob, n)[x] == w[k],
    decreases n,
{
    if n > 0 {
        lemma_kept_open(ts, w, ob, n - 1);
        let a = kept(ts, w, ob, n - 1);
        let b = kept(ts, w, ob, n);
        assert forall|x: int| 0 <= x < b.len() implies exists|k: int| 0 <= k < n
            && !is_closed(ts[k], ob.tabs, ob.dead) && #[trigger] b[x] == w[k] by {
            if x < a.len() {
                assert(b[x] == a[x]);
                let k = choose|k: int| 0 <= k < n - 1 && !is_closed(ts[k], ob.tabs, ob.dead) && a[x] == w[k];
                assert(b[x] == w[k]);
            } else {
                assert(b[x] == w[n - 1]);
            }
        }
    }
}

/// `id` is the id of one of the first `n` terminals, which was closed.
pub open spec fn closed_among(ts: Seq<TerminalView>, ob: Observation, n: int, id: Seq<char>) -> bool {
    exists|k: int| 0 <= k < n && is_closed(ts[k], ob.tabs, ob.dead) && ts[k].instance.id == id
}

proof fn lemma_closed_ids_members(ts: Seq<TerminalView>, ob: Observation, n: int)
    requires
        0 <= n <= ts.len(),
    ensures
        forall|x: int| 0 <= x < closed_ids(ts, ob, n).len() ==> closed_among(ts, ob, n, #[trigger] closed_ids(ts, ob, n)[x]),
    decreases n,
{
    if n > 0 {
        lemma_closed_ids_members(ts, ob, n - 1);
        let a = closed_ids(ts, ob, n - 1);
        let b = closed_ids(ts, ob, n);
        assert forall|x: int| 0 <= x < b.len() implies closed_among(ts, ob, n, #[trigger] b[x]) by {
            if x < a.len() {
                assert(b[x] == a[x]);
                assert(closed_among(ts, ob, n - 1, a[x]));
                let k = choose|k: int| 0 <= k < n - 1 && is_closed(ts[k], ob.tabs, ob.dead) && ts[k].instance.id == a[x];
            } else {
                assert(b[x] == ts[n - 1].instance.id);
            }
        }
    }
}

/// A terminal reported closed by a round is no longer in the registry.
pub proof fn law_closed_terminals_leave(ts: Seq<TerminalView>, ob: Observation, prev: Seq<(isize, Seq<Seq<char>>)>, x: int)
    requires
        registry_wf(ts),
        0 <= x < closed_ids(ts, ob, ts.len() as int).len(),
    ensures
        forall|j: int| 0 <= j < round_registry(ts, ob, prev).len() ==>
            (#[trigger] round_registry(ts, ob, prev)[j]).instance.id != closed_ids(ts, ob, ts.len() as int)[x],
{
    let w = watched(ts, ob);
    let w2 = if same_windows(round_order(ts, ob), prev) { w } else { reindex_by(w, tab_positions(ob.tabs)) };
    assert forall|k: int| 0 <= k < ts.len() implies (#[trigger] w[k]).instance.id == ts[k].instance.id by {
        lemma_step_keeps(ts, ob, k);
    }
    lemma_reindex_keeps(w, tab_positions(ob.tabs));
    assert forall|k: int| 0 <= k < ts.len() implies (#[trigger] w2[k]).instance.id == ts[k].instance.id by {
        assert(w[k].instance.id == ts[k].instance.id);
    }
    lemma_kept_open(ts, w2, ob, ts.len() as int);
    lemma_closed_ids_members(ts, ob, ts.len() as int);
    let id = closed_ids(ts, ob, ts.len() as int)[x];
    assert(closed_among(ts, ob, ts.len() as int, id));
    let c = choose|k: int| 0 <= k < ts.len() && is_closed(ts[k], ob.tabs, ob.dead) && ts[k].instance.id == id;
    let fin = round_registry(ts, ob, prev);
    assert forall|j: int| 0 <= j < fin.len() implies (#[trigger] fin[j]).instance.id != id by {
        let k = choose|k: int| 0 <= k < ts.len() && !is_closed(ts[k], ob.tabs, ob.dead) && fin[j] == w2[k];
        assert(k != c);
        assert(ts[k].instance.id != ts[c].instance.id);
    }
}

/// A title without the idle marker never turns an idle terminal active at
/// once: the first such title only starts the debounce, and the terminal
/// turns active only when the marker has stayed away `ACTIVE_DEBOUNCE_MS`
/// since.
pub proof fn law_active_needs_debounce(t: TerminalView, title: Seq<char>, now_ms: u64, now: Seq<char>)
    requires
        t.instance.activity == Activity::Idle,
        !has_char(title, IDLE_MARKER),
    ensures
        t.pending_active_since is None ==> watch_update(t, title, now_ms, now).0.instance.activity == Activity::Idle
            && watch_update(t, title, now_ms, now).1 is None,
        watch_update(t, title, now_ms, now).0.instance.activity == Activity::Active ==>
            (t.pending_active_since matches Some(since) && now_ms >= since + ACTIVE_DEBOUNCE_MS),
{
}

/// The idle marker makes a watched terminal idle, and it is reported once:
/// seeing the marker again reports nothing.
pub proof fn law_marker_reports_idle_once(t: TerminalView, title: Seq<char>, now_ms: u64, now: Seq<char>, later_ms: u64, later: Seq<char>)
    requires
        has_char(title, IDLE_MARKER),
    ensures
        watch_update(t, title, now_ms, now).0.instance.activity == Activity::Idle,
        watch_update(t, title, now_ms, now).0.title_tracking,
        watch_update(watch_update(t, title, now_ms, now).0, title, later_ms, later).1 is None,
{
}

/// Every terminal that was not closed is among the kept ones.
proof fn lemma_kept_has_open(ts: Seq<TerminalView>, w: Seq<TerminalView>, ob: Observation, n: int, k: int)
    requires
        0 <= k < n <= ts.len(),
        !is_closed(ts[k], ob.tabs, ob.dead),
    ensures
        exists|x: int| 0 <= x < kept(ts, w, ob, n).len() && #[trigger] kept(ts, w, ob, n)[x] == w[k],
    decreases n,
{
    let a = kept(ts, w, ob, n - 1);
    if k == n - 1 {
        assert(kept(ts, w, ob, n) == a.push(w[n - 1]));
        assert(kept(ts, w, ob, n)[a.len() as int] == w[k]);
        assert(0 <= a.len() < kept(ts, w, ob, n).len());
    } else {
        lemma_kept_has_open(ts, w, ob, n - 1, k);
        let x = choose|x: int| 0 <= x < a.len() && #[trigger] a[x] == w[k];
        if !is_closed(ts[n - 1], ob.tabs, ob.dead) {
            assert(kept(ts, w, ob, n) == a.push(w[n - 1]));
            assert(kept(ts, w, ob, n)[x] == a[x]);
            assert(kept(ts, w, ob, n)[x] == w[k]);
        } else {
            assert(kept(ts, w, ob, n) == a);
            assert(kept(ts, w, ob, n)[x] == w[k]);
        }
    }
}

/// A terminal that a round does not close (its window is alive and, when
/// its window's tabs were listed, its tab is still among them) stays in the
/// registry, under its id.
pub proof fn law_open_terminals_stay(ts: Seq<TerminalView>, ob: Observation, prev: Seq<(isize, Seq<Seq<char>>)>, k: int)
    requires
        0 <= k < ts.len(),
        !is_closed(ts[k], ob.tabs, ob.dead),
    ensures
        exists|j: int| 0 <= j < round_registry(ts, ob, prev).len()
            && (#[trigger] round_registry(ts, ob, prev)[j]).instance.id == ts[k].instance.id,
{
    let w = watched(ts, ob);
    let w2 = if same_windows(round_order(ts, ob), prev) { w } else { reindex_by(w, tab_positions(ob.tabs)) };
    lemma_step_keeps(ts, ob, k);
    lemma_reindex_keeps(w, tab_positions(ob.tabs));
    assert(w2[k].instance.id == ts[k].instance.id);
    lemma_kept_has_open(ts, w2, ob, ts.len() as int, k);
    let fin = round_registry(ts, ob, prev);
    let x = choose|x: int| 0 <= x < fin.len() && #[trigger] fin[x] == w2[k];
    assert(fin[x].instance.id == ts[k].instance.id);
}

/// Until the idle marker has appeared in its title, watching never changes a
/// terminal's activity or its idle timer, and reports nothing.
pub proof fn law_no_change_before_marker(t: TerminalView, title: Seq<char>, now_ms: u64, now: Seq<char>)
    requires
        !t.title_tracking,
        !has_char(title, IDLE_MARKER),
    ensures
        watch_update(t, title, now_ms, now).0.instance.activity == t.instance.activity,
        watch_update(t, title, now_ms, now).0.instance.last_idle_at == t.instance.last_idle_at,
        watch_update(t, title, now_ms, now).0.pending_active_since == t.pending_active_since,
        !watch_update(t, title, now_ms, now).0.title_tracking,
        watch_update(t, title, now_ms, now).1 is None,
{
}

/// The idle marker makes a terminal that is not idle idle at once: the time
/// is recorded, the idle timer cleared and the change reported.
pub proof fn law_marker_makes_idle_at_once(t: TerminalView, title: Seq<char>, now_ms: u64, now: Seq<char>)
    requires
        has_char(title, IDLE_MARKER),
        t.instance.activity != Activity::Idle,
    ensures
        watch_update(t, title, now_ms, now).0.instance.activity == Activity::Idle,
        watch_update(t, title, now_ms, now).0.instance.last_idle_at == Some(now),
        watch_update(t, title, now_ms, now).0.pending_active_since is None,
        watch_update(t, title, now_ms, now).1 == Some(transition_of(watch_update(t, title, now_ms, now).0)),
{
}

// ---------------------------------------------------------------------------
// Laws over successive polls of one terminal's title.
// ---------------------------------------------------------------------------

/// A terminal after the titles seen in successive polls, in order; each
/// sighting is (title, monotonic time in ms, timestamp).
pub open spec fn watch_run(t: TerminalView, seen: Seq<(Seq<char>, u64, Seq<char>)>) -> TerminalView
    decreases seen.len(),
{
    if seen.len() == 0 {
        t
    } else {
        let x = seen.last();
        watch_update(watch_run(t, seen.drop_last()), x.0, x.1, x.2).0
    }
}

/// The changes of activity reported along those polls, in order.
pub open spec fn watch_run_reports(t: TerminalView, seen: Seq<(Seq<char>, u64, Seq<char>)>) -> Seq<TransitionView>
    decreases seen.len(),
{
    if seen.len() == 0 {
        Seq::empty()
    } else {
        let x = seen.last();
        let before = watch_run_reports(t, seen.drop_last());
        match watch_update(watch_run(t, seen.drop_last()), x.0, x.1, x.2).1 {
            Some(r) => before.push(r),
            None => before,
        }
    }
}

/// No title from sighting `i` to sighting `j` (both included) shows the idle
/// marker.
pub open spec fn quiet_between(seen: Seq<(Seq<char>, u64, Seq<char>)>, i: int, j: int) -> bool {
    forall|k: int| i <= k <= j ==> !has_char(#[trigger] seen[k].0, IDLE_MARKER)
}

/// Sightings `i` to `j` lack the marker and span at least
/// `ACTIVE_DEBOUNCE_MS`.
pub open spec fn quiet_stretch(seen: Seq<(Seq<char>, u64, Seq<char>)>, i: int, j: int) -> bool {
    &&& 0 <= i <= j < seen.len()
    &&& seen[j].1 >= seen[i].1 + ACTIVE_DEBOUNCE_MS
    &&& quiet_between(seen, i, j)
}

/// Sighting `i` and every later one lack the marker.
pub open spec fn quiet_since(seen: Seq<(Seq<char>, u64, Seq<char>)>, i: int) -> bool {
    0 <= i < seen.len() && quiet_between(seen, i, seen.len() - 1)
}

/// Until the idle marker first appears, a run of polls changes neither the
/// terminal's activity nor its idle time or timer, and reports nothing.
pub proof fn law_run_no_change_before_marker(t: TerminalView, seen: Seq<(Seq<char>, u64, Seq<char>)>)
    requires
        !t.title_tracking,
        quiet_between(seen, 0, seen.len() - 1),
    ensures
        watch_run(t, seen).instance.activity == t.instance.activity,
        watch_run(t, seen).instance.last_idle_at == t.instance.last_idle_at,
        watch_run(t, seen).pending_active_since == t.pending_active_since,
        !watch_run(t, seen).title_tracking,
        watch_run_reports(t, seen) == Seq::<TransitionView>::empty(),
    decreases seen.len(),
{
    if seen.len() > 0 {
        let d = seen.drop_last();
        assert forall|k: int| 0 <= k <= d.len() - 1 implies !has_char(#[trigger] d[k].0, IDLE_MARKER) by {
            assert(d[k] == seen[k]);
        }
        law_run_no_change_before_marker(t, d);
        let x = seen.last();
        assert(!has_char(seen[seen.len() - 1].0, IDLE_MARKER));
        law_no_change_before_marker(watch_run(t, d), x.0, x.1, x.2);
    }
}

proof fn lemma_run_inv(t: TerminalView, seen: Seq<(Seq<char>, u64, Seq<char>)>)
    requires
        t.instance.activity == Activity::Idle,
        t.pending_active_since is None,
    ensures
        watch_run(t, seen).instance.activity == Activity::Idle ==> match watch_run(t, seen).pending_active_since {
            Some(p) => exists|i: int| #[trigger] quiet_since(seen, i) && seen[i].1 == p,
            None => true,
        },
        watch_run(t, seen).instance.activity == Activity::Active ==> exists|i: int, j: int| #[trigger] quiet_stretch(seen, i, j),
    decreases seen.len(),
{
    if seen.len() > 0 {
        let d = seen.drop_last();
        let n = seen.len() - 1;
        lemma_run_inv(t, d);
        let s = watch_run(t, d);
        let x = seen.last();
        assert(x == seen[n]);
        let s2 = watch_run(t, seen);
        assert(s2 == watch_update(s, x.0, x.1, x.2).0);
        let quiet_now = !has_char(x.0, IDLE_MARKER);
        // What the prefix gave, carried over to the whole run.
        if s.instance.activity == Activity::Active {
            let (i, j) = choose|i: int, j: int| #[trigger] quiet_stretch(d, i, j);
            assert forall|k: int| i <= k <= j implies !has_char(#[trigger] seen[k].0, IDLE_MARKER) by {
                assert(seen[k] == d[k]);
                assert(!has_char(d[k].0, IDLE_MARKER));
            }
            assert(seen[i] == d[i] && seen[j] == d[j]);
            assert(quiet_stretch(seen, i, j));
        }
        if s.instance.activity == Activity::Idle && s.pending_active_since is Some && quiet_now {
            let p = s.pending_active_since->0;
            let i = choose|i: int| #[trigger] quiet_since(d, i) && d[i].1 == p;
            assert forall|k: int| i <= k <= n implies !has_char(#[trigger] seen[k].0, IDLE_MARKER) by {
                if k < n {
                    assert(seen[k] == d[k]);
                    assert(!has_char(d[k].0, IDLE_MARKER));
                }
            }
            assert(seen[i] == d[i]);
            assert(quiet_since(seen, i));
            if s2.instance.activity == Activity::Active {
                assert(quiet_stretch(seen, i, n));
            }
        }
        if s.instance.activity == Activity::Idle && s.pending_active_since is None && quiet_now {
            assert(quiet_between(seen, n, n));
            assert(quiet_since(seen, n));
        }
    }
}

/// Once idle, a terminal becomes active again only after its title has
/// lacked the idle marker for at least `ACTIVE_DEBOUNCE_MS`: a run of polls
/// from an idle terminal with no timer running that ends active holds a
/// stretch of sightings without the marker spanning that long.
pub proof fn law_run_active_needs_quiet_stretch(t: TerminalView, seen: Seq<(Seq<char>, u64, Seq<char>)>)
    requires
        t.instance.activity == Activity::Idle,
        t.pending_active_since is None,
        watch_run(t, seen).instance.activity == Activity::Active,
    ensures
        exists|i: int, j: int| #[trigger] quiet_stretch(seen, i, j),
{
    lemma_run_inv(t, seen);
}

/// Only a user's own title marks a tab as renamed: a title that keeps the
/// application's prefix ("termi: ...") or shows the idle marker never sets
/// `tab_renamed`, and watching never clears it.
pub proof fn law_prefixed_title_is_not_a_rename(t: TerminalView, title: Seq<char>, now_ms: u64, now: Seq<char>)
    ensures
        starts_with_seq(title, TITLE_PREFIX@) ==> watch_update(t, title, now_ms, now).0.tab_renamed == t.tab_renamed,
        has_char(title, IDLE_MARKER) ==> watch_update(t, title, now_ms, now).0.tab_renamed == t.tab_renamed,
        title.len() == 0 ==> watch_update(t, title, now_ms, now).0.tab_renamed == t.tab_renamed,
        t.tab_renamed ==> watch_update(t, title, now_ms, now).0.tab_renamed,
{
}

} // verus!
