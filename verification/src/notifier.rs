//! Idle notifications: the message shown for a terminal and the set of
//! notifications not yet acknowledged.

use vstd::prelude::*;
use crate::models::Activity;
use crate::text::{concat3, owned, str_eq};

verus! {

/// Title and body of the notification for a terminal entering `status`:
/// only an idle terminal is announced.
pub open spec fn spec_notification_message(
    project_name: Seq<char>,
    terminal_name: Seq<char>,
    status: Activity,
    language: Seq<char>,
) -> Option<(Seq<char>, Seq<char>)> {
    match status {
        Activity::Idle => Some((
            project_name + " - "@ + terminal_name,
            if language == "ko"@ { "작업이 끝났습니다!"@ } else { "Task completed!"@ },
        )),
        Activity::Active => None,
    }
}

/// The notification for a terminal entering `status`: for `Idle`, the title
/// "<project> - <terminal>" and a "task completed" body in the language
/// ("ko" for Korean, English otherwise); nothing for `Active`.
pub fn notification_message(
    project_name: &str,
    terminal_name: &str,
    status: &Activity,
    language: &str,
) -> (r: Option<(String, String)>)
    ensures
        match r {
            Some((t, b)) => spec_notification_message(project_name@, terminal_name@, *status, language@)
                == Some((t@, b@)),
            None => spec_notification_message(project_name@, terminal_name@, *status, language@) is None,
        },
{
    match status {
        Activity::Idle => {
            let body = if str_eq(language, "ko") {
                owned("작업이 끝났습니다!")
            } else {
                owned("Task completed!")
            };
            Some((concat3(project_name, " - ", terminal_name), body))
        },
        Activity::Active => None,
    }
}

/// Tracks the language of notifications and which terminals have a
/// notification that was not acknowledged yet.
pub struct Notifier {
    pending: Vec<String>,
    language: String,
}

impl Notifier {
    /// Terminals (by id view) with an unacknowledged notification.
    pub closed spec fn pending_ids(&self) -> Set<Seq<char>> {
        self.pending@.map_values(|s: String| s@).to_set()
    }

    /// The language notifications are written in.
    pub closed spec fn spec_language(&self) -> Seq<char> {
        self.language@
    }

    /// A notifier in the given language with nothing pending.
    pub fn new(language: &str) -> (n: Notifier)
        ensures
            n.spec_language() == language@,
            n.pending_ids() == Set::<Seq<char>>::empty(),
    {
        let n = Notifier { pending: Vec::new(), language: owned(language) };
        assert(n.pending@.map_values(|s: String| s@) =~= Seq::<Seq<char>>::empty());
        n
    }

    /// Changes the language of later notifications.
    pub fn set_language(&mut self, language: &str)
        ensures
            final(self).spec_language() == language@,
            final(self).pending_ids() == old(self).pending_ids(),
    {
        self.language = owned(language);
    }

    /// The language notifications are written in.
    pub fn language(&self) -> (r: &str)
        ensures
            r@ == self.spec_language(),
    {
        self.language.as_str()
    }

    /// The notification to show for a terminal entering `status`, in the
    /// notifier's language.
    pub fn message_for(&self, project_name: &str, terminal_name: &str, status: &Activity) -> (r: Option<(String, String)>)
        ensures
            match r {
                Some((t, b)) => spec_notification_message(project_name@, terminal_name@, *status, self.spec_language())
                    == Some((t@, b@)),
                None => spec_notification_message(project_name@, terminal_name@, *status, self.spec_language()) is None,
            },
    {
        notification_message(project_name, terminal_name, status, self.language.as_str())
    }

    fn position(&self, terminal_id: &str) -> (r: Option<usize>)
        ensures
            r matches Some(i) ==> i < self.pending@.len() && self.pending@[i as int]@ == terminal_id@,
            r is None ==> forall|j: int| 0 <= j < self.pending@.len() ==> (#[trigger] self.pending@[j])@ != terminal_id@,
    {
        let mut i: usize = 0;
        while i < self.pending.len()
            invariant
                i <= self.pending@.len(),
                forall|j: int| 0 <= j < i ==> (#[trigger] self.pending@[j])@ != terminal_id@,
            decreases self.pending@.len() - i,
        {
            if str_eq(self.pending[i].as_str(), terminal_id) {
                return Some(i);
            }
            i = i + 1;
        }
        None
    }

    /// Records that a notification was shown for the terminal.
    pub fn mark_pending(&mut self, terminal_id: &str)
        ensures
            final(self).pending_ids() == old(self).pending_ids().insert(terminal_id@),
            final(self).spec_language() == old(self).spec_language(),
    {
        if self.position(terminal_id).is_none() {
            self.pending.push(owned(terminal_id));
            assert(self.pending@.map_values(|s: String| s@) =~= old(self).pending@.map_values(|s: String| s@).push(terminal_id@));
            proof {
                lemma_to_set_push(old(self).pending@.map_values(|s: String| s@), terminal_id@);
            }
        } else {
            proof {
                let i = choose|i: int| 0 <= i < self.pending@.len() && self.pending@[i]@ == terminal_id@;
                let v = self.pending@.map_values(|s: String| s@);
                assert(v[i] == terminal_id@);
                assert(v.to_set().contains(terminal_id@));
                assert(v.to_set().insert(terminal_id@) =~= v.to_set());
            }
        }
    }

    /// Whether the terminal has an unacknowledged notification.
    pub fn is_pending(&self, terminal_id: &str) -> (r: bool)
        ensures
            r == self.pending_ids().contains(terminal_id@),
    {
        let p = self.position(terminal_id);
        proof {
            let v = self.pending@.map_values(|s: String| s@);
            if let Some(i) = p {
                assert(v[i as int] == terminal_id@);
            } else {
                assert forall|j: int| 0 <= j < v.len() implies v[j] != terminal_id@ by {
                    assert(self.pending@[j]@ != terminal_id@);
                }
            }
        }
        p.is_some()
    }

    /// Marks the terminal's notification as seen.
    pub fn acknowledge(&mut self, terminal_id: &str)
        ensures
            final(self).pending_ids() == old(self).pending_ids().remove(terminal_id@),
            final(self).spec_language() == old(self).spec_language(),
    {
        let ghost old_v = self.pending@.map_values(|s: String| s@);
        let mut kept: Vec<String> = Vec::new();
        let mut i: usize = 0;
        let ghost mut removed_any: bool = false;
        while i < self.pending.len()
            invariant
                old_v == self.pending@.map_values(|s: String| s@),
                i <= self.pending@.len(),
                kept@.map_values(|s: String| s@).to_set() == old_v.subrange(0, i as int).to_set().remove(terminal_id@),
            decreases self.pending@.len() - i,
        {
            let ghost before = kept@.map_values(|s: String| s@);
            if !str_eq(self.pending[i].as_str(), terminal_id) {
                kept.push(self.pending[i].clone());
                proof {
                    assert(kept@.map_values(|s: String| s@) =~= before.push(old_v[i as int]));
                    lemma_to_set_push(before, old_v[i as int]);
                }
            }
            proof {
                assert(old_v.subrange(0, i + 1) =~= old_v.subrange(0, i as int).push(old_v[i as int]));
                lemma_to_set_push(old_v.subrange(0, i as int), old_v[i as int]);
                assert(kept@.map_values(|s: String| s@).to_set() =~= old_v.subrange(0, i + 1).to_set().remove(terminal_id@));
            }
            i = i + 1;
        }
        assert(old_v.subrange(0, i as int) =~= old_v);
        self.pending = kept;
    }
}

/// Adding an element to a sequence adds it to the set of its elements.
pub proof fn lemma_to_set_push<A>(s: Seq<A>, a: A)
    ensures
        s.push(a).to_set() == s.to_set().insert(a),
{
    assert forall|x: A| s.push(a).to_set().contains(x) <==> s.to_set().insert(a).contains(x) by {
        if s.push(a).to_set().contains(x) {
            let i = choose|i: int| 0 <= i < s.push(a).len() && s.push(a)[i] == x;
            if i < s.len() {
                assert(s[i] == x);
            }
        }
        if s.to_set().contains(x) {
            let i = choose|i: int| 0 <= i < s.len() && s[i] == x;
            assert(s.push(a)[i] == x);
        }
        if x == a {
            assert(s.push(a)[s.len() as int] == a);
        }
    }
    assert(s.push(a).to_set() =~= s.to_set().insert(a));
}

} // verus!
