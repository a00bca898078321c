//! Reminders for idle notifications that were not acknowledged, and what to
//! do for each reported change of activity.
//!
//! The registry here decides which terminals have a running reminder; the
//! timers themselves, and the flags that cancel them, are kept by the
//! caller, which cancels a terminal's timer whenever this registry says its
//! reminder stopped.

use vstd::prelude::*;
use crate::models::{Activity, StatusChangedPayload};
use crate::terminals::TransitionTuple;
use crate::text::{concat, concat3, owned, str_eq, u64_to_decimal, decimal};
use crate::models::duplicate_opt_string;
use crate::terminals::opt_view;

verus! {

pub const SECONDS_PER_MINUTE: u64 = 60;

/// `s` without the entries equal to `x`, in order.
pub open spec fn without(s: Seq<Seq<char>>, x: Seq<char>) -> Seq<Seq<char>>
    decreases s.len(),
{
    if s.len() == 0 {
        s
    } else {
        let a = without(s.drop_last(), x);
        if s.last() == x { a } else { a.push(s.last()) }
    }
}

pub(crate) proof fn lemma_without(s: Seq<Seq<char>>, x: Seq<char>)
    ensures
        forall|y: Seq<char>| without(s, x).contains(y) <==> (s.contains(y) && y != x),
        s.no_duplicates() ==> without(s, x).no_duplicates(),
        !s.contains(x) ==> without(s, x) == s,
        s.no_duplicates() && s.contains(x) ==> without(s, x).len() + 1 == s.len(),
    decreases s.len(),
{
    if s.len() > 0 {
        let d = s.drop_last();
        lemma_without(d, x);
        let a = without(d, x);
        assert forall|y: Seq<char>| s.contains(y) <==> (d.contains(y) || y == s.last()) by {
            if s.contains(y) {
                let k = choose|k: int| 0 <= k < s.len() && s[k] == y;
                if k < s.len() - 1 {
                    assert(d[k] == y);
                }
            }
            if d.contains(y) {
                let k = choose|k: int| 0 <= k < d.len() && d[k] == y;
                assert(s[k] == y);
            }
            if y == s.last() {
                assert(s[s.len() - 1] == y);
            }
        }
        if s.last() != x {
            let b = a.push(s.last());
            assert forall|y: Seq<char>| b.contains(y) <==> (a.contains(y) || y == s.last()) by {
                if b.contains(y) {
                    let k = choose|k: int| 0 <= k < b.len() && b[k] == y;
                    if k < a.len() {
                        assert(a[k] == y);
                    }
                }
                if a.contains(y) {
                    let k = choose|k: int| 0 <= k < a.len() && a[k] == y;
                    assert(b[k] == y);
                }
                if y == s.last() {
                    assert(b[a.len() as int] == y);
                }
            }
            if s.no_duplicates() {
                assert(d.no_duplicates());
                assert(!d.contains(s.last())) by {
                    if d.contains(s.last()) {
                        let k = choose|k: int| 0 <= k < d.len() && d[k] == s.last();
                        assert(s[k] == s[s.len() - 1]);
                    }
                }
                assert forall|i: int, j: int| 0 <= i < b.len() && 0 <= j < b.len() && i != j implies b[i] != b[j] by {
                    if i < a.len() && j < a.len() {
                    } else if i == a.len() {
                        assert(a.contains(b[j]));
                    } else {
                        assert(a.contains(b[i]));
                    }
                }
            }
            if !s.contains(x) {
                assert(!d.contains(x));
                assert(s == d.push(s.last()));
            }
        } else {
            assert(s.contains(x));
            if s.no_duplicates() {
                assert(d.no_duplicates());
                assert(!d.contains(x)) by {
                    if d.contains(x) {
                        let k = choose|k: int| 0 <= k < d.len() && d[k] == x;
                        assert(s[k] == s[s.len() - 1]);
                    }
                }
            }
        }
    }
}

/// Reminder settings and the terminals whose reminder is running.
pub struct Reminder {
    enabled: bool,
    interval_minutes: u32,
    max_repeat: u32,
    language: String,
    active: Vec<String>,
}

/// What the caller runs when a reminder starts: remind every
/// `interval_secs`, at most `max_repeat` times (never for 0), in
/// `language`.
pub struct ReminderStart {
    /// Whether a reminder was already running for the terminal; it is
    /// replaced and its timer must be cancelled.
    pub replaced: bool,
    pub interval_secs: u64,
    pub max_repeat: u32,
    pub language: String,
}

impl Reminder {
    /// Terminals with a running reminder, in the order they started.
    pub closed spec fn spec_active(&self) -> Seq<Seq<char>> {
        self.active@.map_values(|s: String| s@)
    }

    pub closed spec fn spec_enabled(&self) -> bool {
        self.enabled
    }

    pub closed spec fn spec_interval_minutes(&self) -> u32 {
        self.interval_minutes
    }

    pub closed spec fn spec_max_repeat(&self) -> u32 {
        self.max_repeat
    }

    pub closed spec fn spec_language(&self) -> Seq<char> {
        self.language@
    }

    /// No terminal has two reminders.
    pub open spec fn wf(&self) -> bool {
        self.spec_active().no_duplicates()
    }

    /// Reminder settings with no reminder running.
    pub fn new(enabled: bool, interval_minutes: u32, max_repeat: u32, language: &str) -> (r: Reminder)
        ensures
            r.wf(),
            r.spec_active() == Seq::<Seq<char>>::empty(),
            r.spec_enabled() == enabled,
            r.spec_interval_minutes() == interval_minutes,
            r.spec_max_repeat() == max_repeat,
            r.spec_language() == language@,
    {
        let r = Reminder {
            enabled: enabled,
            interval_minutes: interval_minutes,
            max_repeat: max_repeat,
            language: owned(language),
            active: Vec::new(),
        };
        assert(r.spec_active() =~= Seq::<Seq<char>>::empty());
        r
    }

    /// Settings used by tests: on, every minute, at most 3 times, English.
    pub fn new_for_test() -> (r: Reminder)
        ensures
            r.wf(),
            r.spec_active() == Seq::<Seq<char>>::empty(),
            r.spec_enabled(),
            r.spec_interval_minutes() == 1,
            r.spec_max_repeat() == 3,
            r.spec_language() == "en"@,
    {
        Reminder::new(true, 1, 3, "en")
    }

    pub fn enabled(&self) -> (r: bool)
        ensures
            r == self.spec_enabled(),
    {
        self.enabled
    }

    pub fn interval_minutes(&self) -> (r: u32)
        ensures
            r == self.spec_interval_minutes(),
    {
        self.interval_minutes
    }

    pub fn max_repeat(&self) -> (r: u32)
        ensures
            r == self.spec_max_repeat(),
    {
        self.max_repeat
    }

    pub fn language(&self) -> (r: &str)
        ensures
            r@ == self.spec_language(),
    {
        self.language.as_str()
    }

    /// Whether the terminal has a running reminder.
    pub fn has_active(&self, terminal_id: &str) -> (r: bool)
        ensures
            r == self.spec_active().contains(terminal_id@),
    {
        let ghost v = self.spec_active();
        let mut i: usize = 0;
        while i < self.active.len()
            invariant
                v == self.spec_active(),
                v.len() == self.active@.len(),
                i <= self.active@.len(),
                forall|k: int| 0 <= k < i ==> v[k] != terminal_id@,
            decreases self.active@.len() - i,
        {
            if str_eq(self.active[i].as_str(), terminal_id) {
                assert(v[i as int] == terminal_id@);
                return true;
            }
            i = i + 1;
        }
        false
    }

    /// Number of running reminders.
    pub fn active_count(&self) -> (r: usize)
        ensures
            r == self.spec_active().len(),
    {
        self.active.len()
    }

    /// Removes the terminal's reminder; says whether there was one.
    pub fn stop_reminder(&mut self, terminal_id: &str) -> (r: bool)
        requires
            old(self).wf(),
        ensures
            final(self).wf(),
            r == old(self).spec_active().contains(terminal_id@),
            final(self).spec_active() == without(old(self).spec_active(), terminal_id@),
            final(self).spec_enabled() == old(self).spec_enabled(),
            final(self).spec_interval_minutes() == old(self).spec_interval_minutes(),
            final(self).spec_max_repeat() == old(self).spec_max_repeat(),
            final(self).spec_language() == old(self).spec_language(),
    {
        let ghost v = self.spec_active();
        let found = self.has_active(terminal_id);
        let mut kept: Vec<String> = Vec::new();
        let mut i: usize = 0;
        assert(kept@.map_values(|s: String| s@) =~= without(v.take(0), terminal_id@));
        while i < self.active.len()
            invariant
                v == self.spec_active(),
                v.len() == self.active@.len(),
                i <= self.active@.len(),
                kept@.map_values(|s: String| s@) == without(v.take(i as int), terminal_id@),
            decreases self.active@.len() - i,
        {
            proof {
                assert(v.take(i + 1).drop_last() =~= v.take(i as int));
                assert(v.take(i + 1).last() == v[i as int]);
            }
            if !str_eq(self.active[i].as_str(), terminal_id) {
                let ghost before = kept@;
                kept.push(self.active[i].clone());
                assert(kept@.map_values(|s: String| s@) =~= before.map_values(|s: String| s@).push(v[i as int]));
            }
            i = i + 1;
        }
        assert(v.take(i as int) =~= v);
        self.active = kept;
        proof { lemma_without(v, terminal_id@); }
        found
    }

    /// Starts (or restarts) the terminal's reminder, when reminders are on.
    /// Nothing changes when they are off.
    pub fn start_reminder(&mut self, terminal_id: &str) -> (r: Option<ReminderStart>)
        requires
            old(self).wf(),
        ensures
            final(self).wf(),
            final(self).spec_enabled() == old(self).spec_enabled(),
            final(self).spec_interval_minutes() == old(self).spec_interval_minutes(),
            final(self).spec_max_repeat() == old(self).spec_max_repeat(),
            final(self).spec_language() == old(self).spec_language(),
            !old(self).spec_enabled() ==> r is None && final(self).spec_active() == old(self).spec_active(),
            old(self).spec_enabled() ==> (r matches Some(st) && st.replaced == old(self).spec_active().contains(terminal_id@)
                && st.interval_secs == old(self).spec_interval_minutes() * SECONDS_PER_MINUTE
                && st.max_repeat == old(self).spec_max_repeat()
                && st.language@ == old(self).spec_language()
                && final(self).spec_active() == without(old(self).spec_active(), terminal_id@).push(terminal_id@)),
    {
        if !self.enabled {
            return None;
        }
        let ghost v0 = self.spec_active();
        let replaced = self.stop_reminder(terminal_id);
        let ghost mid = self.spec_active();
        proof {
            lemma_without(v0, terminal_id@);
            assert(!mid.contains(terminal_id@));
        }
        self.active.push(owned(terminal_id));
        proof {
            assert(self.spec_active() =~= mid.push(terminal_id@));
            let n = self.spec_active();
            assert forall|i: int, j: int| 0 <= i < n.len() && 0 <= j < n.len() && i != j implies n[i] != n[j] by {
                if i < mid.len() && j < mid.len() {
                    assert(n[i] == mid[i] && n[j] == mid[j]);
                } else if i == mid.len() {
                    assert(n[j] == mid[j]);
                    assert(mid.contains(mid[j]));
                } else {
                    assert(n[i] == mid[i]);
                    assert(mid.contains(mid[i]));
                }
            }
        }
        let interval_secs = self.interval_minutes as u64 * SECONDS_PER_MINUTE;
        Some(ReminderStart {
            replaced: replaced,
            interval_secs: interval_secs,
            max_repeat: self.max_repeat,
            language: self.language.clone(),
        })
    }

    /// Stops every reminder; returns the terminals whose reminder stopped.
    pub fn stop_all(&mut self) -> (r: Vec<String>)
        requires
            old(self).wf(),
        ensures
            final(self).wf(),
            final(self).spec_active() == Seq::<Seq<char>>::empty(),
            r@.map_values(|s: String| s@) == old(self).spec_active(),
            final(self).spec_enabled() == old(self).spec_enabled(),
            final(self).spec_interval_minutes() == old(self).spec_interval_minutes(),
            final(self).spec_max_repeat() == old(self).spec_max_repeat(),
            final(self).spec_language() == old(self).spec_language(),
    {
        let mut r: Vec<String> = Vec::new();
        std::mem::swap(&mut r, &mut self.active);
        assert(self.spec_active() =~= Seq::<Seq<char>>::empty());
        r
    }

    /// Applies new settings; turning reminders off stops them all. Returns
    /// the terminals whose reminder stopped.
    pub fn update_settings(&mut self, enabled: bool, interval_minutes: u32, max_repeat: u32, language: &str) -> (r: Vec<String>)
        requires
            old(self).wf(),
        ensures
            final(self).wf(),
            final(self).spec_enabled() == enabled,
            final(self).spec_interval_minutes() == interval_minutes,
            final(self).spec_max_repeat() == max_repeat,
            final(self).spec_language() == language@,
            enabled ==> final(self).spec_active() == old(self).spec_active() && r@.len() == 0,
            !enabled ==> final(self).spec_active() == Seq::<Seq<char>>::empty()
                && r@.map_values(|s: String| s@) == old(self).spec_active(),
    {
        self.enabled = enabled;
        self.interval_minutes = interval_minutes;
        self.max_repeat = max_repeat;
        self.language = owned(language);
        if !enabled {
            self.stop_all()
        } else {
            Vec::new()
        }
    }

    /// Records a running reminder for the terminal without starting a timer
    /// (for tests).
    pub fn insert_fake_active(&mut self, terminal_id: &str)
        requires
            old(self).wf(),
        ensures
            final(self).wf(),
            final(self).spec_active() == without(old(self).spec_active(), terminal_id@).push(terminal_id@),
            final(self).spec_enabled() == old(self).spec_enabled(),
    {
        let ghost v0 = self.spec_active();
        let _ = self.stop_reminder(terminal_id);
        let ghost mid = self.spec_active();
        proof {
            lemma_without(v0, terminal_id@);
            assert(!mid.contains(terminal_id@));
        }
        self.active.push(owned(terminal_id));
        proof {
            assert(self.spec_active() =~= mid.push(terminal_id@));
            let n = self.spec_active();
            assert forall|i: int, j: int| 0 <= i < n.len() && 0 <= j < n.len() && i != j implies n[i] != n[j] by {
                if i < mid.len() && j < mid.len() {
                    assert(n[i] == mid[i] && n[j] == mid[j]);
                } else if i == mid.len() {
                    assert(n[j] == mid[j]);
                    assert(mid.contains(mid[j]));
                } else {
                    assert(n[i] == mid[i]);
                    assert(mid.contains(mid[i]));
                }
            }
        }
    }
}

// ---------------------------------------------------------------------------
// Reminder notices.
// ---------------------------------------------------------------------------

/// The word for "reminder" in `language` ("ko" for Korean, else English).
pub open spec fn spec_reminder_label(language: Seq<char>) -> Seq<char> {
    if language == "ko"@ { "리마인더"@ } else { "Reminder"@ }
}

pub fn reminder_label(language: &str) -> (r: String)
    ensures
        r@ == spec_reminder_label(language@),
{
    if str_eq(language, "ko") {
        owned("리마인더")
    } else {
        owned("Reminder")
    }
}

/// Project and terminal names shown by the `count`-th reminder:
/// "<project> (<label> <count>/<max>)" and "<terminal> (<label>)".
pub open spec fn spec_reminder_notice(
    project_name: Seq<char>,
    terminal_name: Seq<char>,
    language: Seq<char>,
    count: u32,
    max_repeat: u32,
) -> (Seq<char>, Seq<char>) {
    let label = spec_reminder_label(language);
    (
        project_name + " ("@ + label + " "@ + decimal(count as nat) + "/"@ + decimal(max_repeat as nat) + ")"@,
        terminal_name + " ("@ + label + ")"@,
    )
}

pub fn reminder_notice(project_name: &str, terminal_name: &str, language: &str, count: u32, max_repeat: u32) -> (r: (String, String))
    ensures
        (r.0@, r.1@) == spec_reminder_notice(project_name@, terminal_name@, language@, count, max_repeat),
{
    let label = reminder_label(language);
    let c = u64_to_decimal(count as u64);
    let m = u64_to_decimal(max_repeat as u64);
    let a = concat3(project_name, " (", label.as_str());
    let b = concat3(a.as_str(), " ", c.as_str());
    let d = concat3(b.as_str(), "/", m.as_str());
    let name = concat(d.as_str(), ")");
    let e = concat3(terminal_name, " (", label.as_str());
    let tname = concat(e.as_str(), ")");
    proof {
        assert(name@ =~= project_name@ + " ("@ + label@ + " "@ + c@ + "/"@ + m@ + ")"@);
        assert(tname@ =~= terminal_name@ + " ("@ + label@ + ")"@);
    }
    (name, tname)
}

/// One tick of a reminder's timer, `count` notifications having been shown:
/// a notification is shown while fewer than `max_repeat` have been (so never
/// for 0), and the reminder ends once `max_repeat` have been shown. Returns
/// the new count, whether to show a notification, and whether to stop.
pub fn reminder_tick(count: u32, max_repeat: u32) -> (r: (u32, bool, bool))
    ensures
        r.1 == (count < max_repeat),
        r.0 == (if r.1 { count + 1 } else { count as int }),
        r.2 == (r.0 >= max_repeat),
{
    let send = count < max_repeat;
    let next = if send { count + 1 } else { count };
    (next, send, next >= max_repeat)
}

/// The count a reminder reaches after `k` ticks of `reminder_tick` from 0,
/// which is also the number of notifications it has shown.
pub open spec fn count_after(k: nat, max_repeat: u32) -> int
    decreases k,
{
    if k == 0 {
        0
    } else {
        let c = count_after((k - 1) as nat, max_repeat);
        if c < max_repeat { c + 1 } else { c }
    }
}

/// A reminder never shows more than `max_repeat` notifications: after `k`
/// ticks it has shown `k` of them, or `max_repeat` once that is reached.
pub proof fn law_reminder_shows_at_most_max(k: nat, max_repeat: u32)
    ensures
        count_after(k, max_repeat) == if k <= max_repeat { k as int } else { max_repeat as int },
    decreases k,
{
    if k > 0 {
        law_reminder_shows_at_most_max((k - 1) as nat, max_repeat);
    }
}

// ---------------------------------------------------------------------------
// Reported changes of activity.
// ---------------------------------------------------------------------------

/// What follows a change of activity, besides telling the UI.
#[derive(Debug, Clone, Copy, PartialEq, Eq, Structural)]
pub enum DispatchAction {
    /// Show the idle notification, and start the reminder if it was shown.
    NotifyThenRemind,
    /// Stop the terminal's reminder.
    StopReminder,
    /// Nothing more (notifications are off for the terminal).
    Nothing,
}

/// The UI message and the follow-up for one reported change.
pub struct Dispatch {
    pub payload: StatusChangedPayload,
    pub action: DispatchAction,
}

/// For a change (id, path, project, terminal, activity, notifications on,
/// monitored, last idle time): the UI is told the path, activity, id,
/// monitored flag and idle time; an idle terminal with notifications on is
/// announced and reminded, an idle one with them off gets nothing more, and
/// an active one has its reminder stopped.
pub fn dispatch_plan(t: &TransitionTuple) -> (r: Dispatch)
    ensures
        r.payload.project_path@ == t.1@,
        r.payload.status == t.4,
        r.payload.terminal_id@ == t.0@,
        r.payload.monitored == t.6,
        opt_view(r.payload.last_idle_at) == opt_view(t.7),
        r.action == (match t.4 {
            Activity::Idle => if t.5 { DispatchAction::NotifyThenRemind } else { DispatchAction::Nothing },
            Activity::Active => DispatchAction::StopReminder,
        }),
{
    let payload = StatusChangedPayload {
        project_path: t.1.clone(),
        status: t.4,
        terminal_id: t.0.clone(),
        monitored: t.6,
        last_idle_at: duplicate_opt_string(&t.7),
    };
    let action = match t.4 {
        Activity::Idle => if t.5 { DispatchAction::NotifyThenRemind } else { DispatchAction::Nothing },
        Activity::Active => DispatchAction::StopReminder,
    };
    Dispatch { payload: payload, action: action }
}

} // verus!
