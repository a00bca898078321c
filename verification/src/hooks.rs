//! Registration of the termi hook in the coding agent's settings: finding it,
//! adding it to the `Stop` and `UserPromptSubmit` events, and removing it.
//!
//! Reading and writing the settings file happen outside; here the settings
//! are values. Event names are kept in a list of (name, entries) pairs whose
//! names are distinct; it is read as a map by `map_view`.

use vstd::prelude::*;
use crate::text::{concat3, contains_seq, lowercase, owned, replace_char, replace_char_seq, str_contains, str_eq, to_lowercase};

verus! {

/// `serde_json::Map`, carried through unchanged (the settings keys other than `hooks`).
#[verifier::external_type_specification]
#[verifier::external_body]
#[verifier::reject_recursive_types(K)]
#[verifier::reject_recursive_types(V)]
pub struct ExJsonMap<K, V>(serde_json::Map<K, V>);

/// `serde_json::Value`, the values of the carried map.
#[verifier::external_type_specification]
#[verifier::external_body]
pub struct ExJsonValue(serde_json::Value);

/// Name of the event sent when the coding agent finishes a turn.
pub const HOOK_EVENT_STOP: &'static str = "Stop";
/// Name of the event sent when the user submits a prompt.
pub const HOOK_EVENT_USER_PROMPT_SUBMIT: &'static str = "UserPromptSubmit";
/// Text that identifies the termi hook in a command, compared in lower case.
pub const HOOK_MARKER: &'static str = "termi-hook";
/// The `type` of the hooks that are registered.
pub const HOOK_COMMAND_KEY: &'static str = "command";

/// One hook: its type and the command it runs.
#[derive(Debug, Clone)]
pub struct HookItem {
    pub hook_type: String,
    pub command: String,
}

/// One entry of an event: a matcher and its hooks.
#[derive(Debug, Clone)]
pub struct HookEventEntry {
    pub matcher: String,
    pub hooks: Vec<HookItem>,
}

/// Event name to entries, as a list of pairs with distinct names.
pub type HooksMap = Vec<(String, Vec<HookEventEntry>)>;

/// The part of the coding agent's settings that this crate reads: the hooks, and
/// every other key, carried through as it was.
#[derive(Debug)]
pub struct ClaudeSettings {
    pub hooks: Option<HooksMap>,
    pub rest: serde_json::Map<String, serde_json::Value>,
}

/// The answer to "is the hook registered?".
#[derive(Debug, Clone)]
pub struct HookStatus {
    pub registered: bool,
    pub hook_path: Option<String>,
}

/// A hook as (type, command).
pub type ItemView = (Seq<char>, Seq<char>);
/// An entry as (matcher, hooks).
pub type EntryView = (Seq<char>, Seq<ItemView>);
/// The hooks as a map from event name to entries.
pub type HooksView = Map<Seq<char>, Seq<EntryView>>;

pub open spec fn item_view(h: HookItem) -> ItemView {
    (h.hook_type@, h.command@)
}

pub open spec fn items_view(hs: Seq<HookItem>) -> Seq<ItemView> {
    hs.map_values(|h: HookItem| item_view(h))
}

pub open spec fn entry_view(e: HookEventEntry) -> EntryView {
    (e.matcher@, items_view(e.hooks@))
}

pub open spec fn entries_view(es: Seq<HookEventEntry>) -> Seq<EntryView> {
    es.map_values(|e: HookEventEntry| entry_view(e))
}

/// No event name occurs twice.
pub open spec fn keys_distinct(m: Seq<(String, Vec<HookEventEntry>)>) -> bool {
    forall|i: int, j: int| 0 <= i < j < m.len() ==> (#[trigger] m[i]).0@ != (#[trigger] m[j]).0@
}

/// Position of the event named `k`, if any.
pub open spec fn key_index(m: Seq<(String, Vec<HookEventEntry>)>, k: Seq<char>) -> int {
    choose|i: int| 0 <= i < m.len() && m[i].0@ == k
}

pub open spec fn has_key(m: Seq<(String, Vec<HookEventEntry>)>, k: Seq<char>) -> bool {
    exists|i: int| 0 <= i < m.len() && m[i].0@ == k
}

/// The hooks list read as a map.
pub open spec fn map_view(m: Seq<(String, Vec<HookEventEntry>)>) -> HooksView {
    Map::new(|k: Seq<char>| has_key(m, k), |k: Seq<char>| entries_view(m[key_index(m, k)].1@))
}

impl ClaudeSettings {
    /// The hooks, as a map, if the settings have any.
    pub open spec fn hooks_view(&self) -> Option<HooksView> {
        match self.hooks {
            Some(m) => Some(map_view(m@)),
            None => None,
        }
    }

    /// Event names are distinct.
    pub open spec fn wf(&self) -> bool {
        self.hooks matches Some(m) ==> keys_distinct(m@)
    }
}

/// A command is the termi hook when its lower-case form contains "termi-hook".
pub open spec fn is_termi_command(cmd: Seq<char>) -> bool {
    contains_seq(lowercase(cmd), HOOK_MARKER@)
}

/// The first termi command among hooks.
pub open spec fn first_termi_item(items: Seq<ItemView>) -> Option<Seq<char>>
    decreases items.len(),
{
    if items.len() == 0 {
        None
    } else if is_termi_command(items[0].1) {
        Some(items[0].1)
    } else {
        first_termi_item(items.drop_first())
    }
}

/// The first termi command among entries, in entry then hook order.
pub open spec fn first_termi_entry(es: Seq<EntryView>) -> Option<Seq<char>>
    decreases es.len(),
{
    if es.len() == 0 {
        None
    } else {
        match first_termi_item(es[0].1) {
            Some(c) => Some(c),
            None => first_termi_entry(es.drop_first()),
        }
    }
}

/// The first termi command registered for an event.
pub open spec fn termi_in_event(v: HooksView, ev: Seq<char>) -> Option<Seq<char>> {
    if v.contains_key(ev) {
        first_termi_entry(v[ev])
    } else {
        None
    }
}

/// The termi command found in the settings: first among `Stop`'s entries,
/// then among `UserPromptSubmit`'s.
pub open spec fn spec_find_termi_hook(hooks: Option<HooksView>) -> Option<Seq<char>> {
    match hooks {
        None => None,
        Some(v) => {
            if termi_in_event(v, HOOK_EVENT_STOP@) is Some {
                termi_in_event(v, HOOK_EVENT_STOP@)
            } else {
                termi_in_event(v, HOOK_EVENT_USER_PROMPT_SUBMIT@)
            }
        },
    }
}

/// Whether a command is the termi hook.
pub fn command_is_termi(cmd: &str) -> (r: bool)
    ensures
        r == is_termi_command(cmd@),
{
    let lower = to_lowercase(cmd);
    str_contains(lower.as_str(), HOOK_MARKER)
}

/// Position of the event named `name` in the list.
pub fn find_event(m: &HooksMap, name: &str) -> (r: Option<usize>)
    ensures
        r matches Some(i) ==> i < m@.len() && m@[i as int].0@ == name@,
        r is None ==> !has_key(m@, name@),
{
    let mut i: usize = 0;
    while i < m.len()
        invariant
            i <= m@.len(),
            forall|j: int| 0 <= j < i ==> (#[trigger] m@[j]).0@ != name@,
        decreases m@.len() - i,
    {
        if str_eq(m[i].0.as_str(), name) {
            return Some(i);
        }
        i = i + 1;
    }
    None
}

proof fn lemma_key_index(m: Seq<(String, Vec<HookEventEntry>)>, i: int)
    requires
        keys_distinct(m),
        0 <= i < m.len(),
    ensures
        has_key(m, m[i].0@),
        key_index(m, m[i].0@) == i,
        map_view(m).contains_key(m[i].0@),
        map_view(m)[m[i].0@] == entries_view(m[i].1@),
{
    let k = m[i].0@;
    assert(has_key(m, k));
    let j = key_index(m, k);
    if j != i {
        if j < i {
            assert(m[j].0@ != m[i].0@);
        } else {
            assert(m[i].0@ != m[j].0@);
        }
    }
}

/// The first termi command among a list of hooks.
fn find_termi_in_items(items: &Vec<HookItem>) -> (r: Option<String>)
    ensures
        match r {
            Some(c) => first_termi_item(items_view(items@)) == Some(c@),
            None => first_termi_item(items_view(items@)) is None,
        },
{
    let ghost v = items_view(items@);
    assert(v.subrange(0, v.len() as int) =~= v);
    let mut i: usize = 0;
    while i < items.len()
        invariant
            v == items_view(items@),
            i <= items@.len(),
            first_termi_item(v) == first_termi_item(v.subrange(i as int, v.len() as int)),
        decreases items@.len() - i,
    {
        assert(v.subrange(i as int, v.len() as int).drop_first() =~= v.subrange(i + 1, v.len() as int));
        if command_is_termi(items[i].command.as_str()) {
            return Some(items[i].command.clone());
        }
        i = i + 1;
    }
    assert(v.subrange(i as int, v.len() as int) =~= Seq::<ItemView>::empty());
    None
}

/// The first termi command among entries.
fn find_termi_in_entries(es: &Vec<HookEventEntry>) -> (r: Option<String>)
    ensures
        match r {
            Some(c) => first_termi_entry(entries_view(es@)) == Some(c@),
            None => first_termi_entry(entries_view(es@)) is None,
        },
{
    let ghost v = entries_view(es@);
    assert(v.subrange(0, v.len() as int) =~= v);
    let mut i: usize = 0;
    while i < es.len()
        invariant
            v == entries_view(es@),
            i <= es@.len(),
            first_termi_entry(v) == first_termi_entry(v.subrange(i as int, v.len() as int)),
        decreases es@.len() - i,
    {
        assert(v.subrange(i as int, v.len() as int).drop_first() =~= v.subrange(i + 1, v.len() as int));
        assert(v.subrange(i as int, v.len() as int)[0] == entry_view(es@[i as int]));
        let found = find_termi_in_items(&es[i].hooks);
        if found.is_some() {
            return found;
        }
        i = i + 1;
    }
    assert(v.subrange(i as int, v.len() as int) =~= Seq::<EntryView>::empty());
    None
}

fn find_termi_in_event(m: &HooksMap, ev: &str) -> (r: Option<String>)
    requires
        keys_distinct(m@),
    ensures
        match r {
            Some(c) => termi_in_event(map_view(m@), ev@) == Some(c@),
            None => termi_in_event(map_view(m@), ev@) is None,
        },
{
    match find_event(m, ev) {
        Some(i) => {
            proof { lemma_key_index(m@, i as int); }
            find_termi_in_entries(&m[i].1)
        },
        None => None,
    }
}

/// The termi hook command in the settings, if it is registered: looked for
/// in the `Stop` entries first, then in the `UserPromptSubmit` entries.
pub fn find_termi_hook_in_settings(settings: &ClaudeSettings) -> (r: Option<String>)
    requires
        settings.wf(),
    ensures
        match r {
            Some(c) => spec_find_termi_hook(settings.hooks_view()) == Some(c@),
            None => spec_find_termi_hook(settings.hooks_view()) is None,
        },
{
    match &settings.hooks {
        None => None,
        Some(m) => {
            let a = find_termi_in_event(m, HOOK_EVENT_STOP);
            if a.is_some() {
                a
            } else {
                find_termi_in_event(m, HOOK_EVENT_USER_PROMPT_SUBMIT)
            }
        },
    }
}

/// The status reported for settings: registered exactly when a termi hook is
/// found, with its command.
pub fn get_hook_status_impl(settings: &ClaudeSettings) -> (r: HookStatus)
    requires
        settings.wf(),
    ensures
        r.registered == spec_find_termi_hook(settings.hooks_view()) is Some,
        match r.hook_path {
            Some(c) => spec_find_termi_hook(settings.hooks_view()) == Some(c@),
            None => spec_find_termi_hook(settings.hooks_view()) is None,
        },
{
    let hook_path = find_termi_hook_in_settings(settings);
    HookStatus { registered: hook_path.is_some(), hook_path }
}


// ---------------------------------------------------------------------------
// Editing the hooks list.
// ---------------------------------------------------------------------------

proof fn lemma_map_view_update(m: Seq<(String, Vec<HookEventEntry>)>, i: int, p: (String, Vec<HookEventEntry>))
    requires
        keys_distinct(m),
        0 <= i < m.len(),
        p.0@ == m[i].0@,
    ensures
        keys_distinct(m.update(i, p)),
        map_view(m.update(i, p)) == map_view(m).insert(p.0@, entries_view(p.1@)),
{
    let n = m.update(i, p);
    assert forall|a: int, b: int| 0 <= a < b < n.len() implies (#[trigger] n[a]).0@ != (#[trigger] n[b]).0@ by {
        assert(n[a].0@ == m[a].0@);
        assert(n[b].0@ == m[b].0@);
    }
    assert forall|k: Seq<char>| #[trigger] has_key(n, k) <==> has_key(m, k) || k == p.0@ by {
        if has_key(m, k) {
            let j = choose|j: int| 0 <= j < m.len() && m[j].0@ == k;
            assert(n[j].0@ == k);
        }
        if has_key(n, k) {
            let j = choose|j: int| 0 <= j < n.len() && n[j].0@ == k;
            assert(m[j].0@ == k);
        }
        if k == p.0@ {
            assert(n[i].0@ == k);
        }
    }
    assert forall|k: Seq<char>| has_key(n, k) implies
        #[trigger] entries_view(n[key_index(n, k)].1@) == map_view(m).insert(p.0@, entries_view(p.1@))[k] by {
        let j = choose|j: int| 0 <= j < n.len() && n[j].0@ == k;
        lemma_key_index(n, j);
        if j != i {
            lemma_key_index(m, j);
        }
    }
    assert(map_view(n) =~= map_view(m).insert(p.0@, entries_view(p.1@)));
}

proof fn lemma_map_view_push(m: Seq<(String, Vec<HookEventEntry>)>, p: (String, Vec<HookEventEntry>))
    requires
        keys_distinct(m),
        !has_key(m, p.0@),
    ensures
        keys_distinct(m.push(p)),
        map_view(m.push(p)) == map_view(m).insert(p.0@, entries_view(p.1@)),
{
    let n = m.push(p);
    assert forall|a: int, b: int| 0 <= a < b < n.len() implies (#[trigger] n[a]).0@ != (#[trigger] n[b]).0@ by {
        if b == m.len() {
            assert(n[a] == m[a]);
        } else {
            assert(n[a] == m[a] && n[b] == m[b]);
        }
    }
    assert forall|k: Seq<char>| #[trigger] has_key(n, k) <==> has_key(m, k) || k == p.0@ by {
        if has_key(m, k) {
            let j = choose|j: int| 0 <= j < m.len() && m[j].0@ == k;
            assert(n[j].0@ == k);
        }
        if has_key(n, k) {
            let j = choose|j: int| 0 <= j < n.len() && n[j].0@ == k;
            if j < m.len() {
                assert(m[j].0@ == k);
            }
        }
        if k == p.0@ {
            assert(n[m.len() as int].0@ == k);
        }
    }
    assert forall|k: Seq<char>| has_key(n, k) implies
        #[trigger] entries_view(n[key_index(n, k)].1@) == map_view(m).insert(p.0@, entries_view(p.1@))[k] by {
        let j = choose|j: int| 0 <= j < n.len() && n[j].0@ == k;
        lemma_key_index(n, j);
        if j < m.len() {
            assert(n[j] == m[j]);
            lemma_key_index(m, j);
        }
    }
    assert(map_view(n) =~= map_view(m).insert(p.0@, entries_view(p.1@)));
}

proof fn lemma_map_view_remove(m: Seq<(String, Vec<HookEventEntry>)>, i: int)
    requires
        keys_distinct(m),
        0 <= i < m.len(),
    ensures
        keys_distinct(m.remove(i)),
        map_view(m.remove(i)) == map_view(m).remove(m[i].0@),
{
    let n = m.remove(i);
    let k0 = m[i].0@;
    assert forall|a: int, b: int| 0 <= a < b < n.len() implies (#[trigger] n[a]).0@ != (#[trigger] n[b]).0@ by {
        let a2 = if a < i { a } else { a + 1 };
        let b2 = if b < i { b } else { b + 1 };
        assert(n[a] == m[a2] && n[b] == m[b2]);
    }
    assert forall|k: Seq<char>| #[trigger] has_key(n, k) <==> has_key(m, k) && k != k0 by {
        if has_key(m, k) && k != k0 {
            let j = choose|j: int| 0 <= j < m.len() && m[j].0@ == k;
            if j < i {
                assert(n[j].0@ == k);
            } else {
                assert(j != i);
                assert(n[j - 1].0@ == k);
            }
        }
        if has_key(n, k) {
            let j = choose|j: int| 0 <= j < n.len() && n[j].0@ == k;
            let j2 = if j < i { j } else { j + 1 };
            assert(m[j2].0@ == k);
            assert(j2 != i);
            if j2 < i {
                assert(m[j2].0@ != m[i].0@);
            } else {
                assert(m[i].0@ != m[j2].0@);
            }
        }
    }
    assert forall|k: Seq<char>| has_key(n, k) implies
        #[trigger] entries_view(n[key_index(n, k)].1@) == map_view(m).remove(k0)[k] by {
        let j = choose|j: int| 0 <= j < n.len() && n[j].0@ == k;
        lemma_key_index(n, j);
        let j2 = if j < i { j } else { j + 1 };
        assert(n[j] == m[j2]);
        lemma_key_index(m, j2);
    }
    assert(map_view(n) =~= map_view(m).remove(k0));
}

/// `v` with `e` appended to the entries of event `ev` (created when absent).
pub open spec fn with_entry(v: HooksView, ev: Seq<char>, e: EntryView) -> HooksView {
    v.insert(ev, (if v.contains_key(ev) { v[ev] } else { Seq::<EntryView>::empty() }).push(e))
}

/// The entry that runs the termi hook command: empty matcher, one hook of
/// type "command".
pub open spec fn termi_entry_view(cmd: Seq<char>) -> EntryView {
    (Seq::<char>::empty(), seq![(HOOK_COMMAND_KEY@, cmd)])
}

/// The hooks once the termi entry has been appended to `Stop` and then to
/// `UserPromptSubmit` (starting from no hooks when there were none).
pub open spec fn spec_register(hooks: Option<HooksView>, cmd: Seq<char>) -> HooksView {
    let v = match hooks {
        Some(v) => v,
        None => Map::<Seq<char>, Seq<EntryView>>::empty(),
    };
    with_entry(with_entry(v, HOOK_EVENT_STOP@, termi_entry_view(cmd)), HOOK_EVENT_USER_PROMPT_SUBMIT@, termi_entry_view(cmd))
}

fn append_entry(m: &mut HooksMap, ev: &str, e: HookEventEntry)
    requires
        keys_distinct(old(m)@),
    ensures
        keys_distinct(final(m)@),
        map_view(final(m)@) == with_entry(map_view(old(m)@), ev@, entry_view(e)),
{
    match find_event(m, ev) {
        Some(i) => {
            proof { lemma_key_index(m@, i as int); }
            let ghost m0 = m@;
            let (k, mut es) = m.remove(i);
            let ghost es0 = es@;
            es.push(e);
            m.insert(i, (k, es));
            proof {
                let p = m@[i as int];
                assert(m@ =~= m0.update(i as int, p));
                lemma_map_view_update(m0, i as int, p);
                assert(entries_view(es0.push(e)) =~= entries_view(es0).push(entry_view(e)));
            }
        },
        None => {
            let ghost m0 = m@;
            let mut es: Vec<HookEventEntry> = Vec::new();
            es.push(e);
            let p = (owned(ev), es);
            proof {
                lemma_map_view_push(m0, p);
                assert(entries_view(p.1@) =~= Seq::<EntryView>::empty().push(entry_view(e)));
            }
            m.push(p);
        },
    }
}

fn termi_entry(hook_command: &str) -> (e: HookEventEntry)
    ensures
        entry_view(e) == termi_entry_view(hook_command@),
{
    let mut hooks: Vec<HookItem> = Vec::new();
    hooks.push(HookItem { hook_type: owned(HOOK_COMMAND_KEY), command: owned(hook_command) });
    let e = HookEventEntry { matcher: String::new(), hooks };
    assert(items_view(e.hooks@) =~= seq![(HOOK_COMMAND_KEY@, hook_command@)]);
    e
}

/// Registers the termi hook command on `Stop` and `UserPromptSubmit`, unless
/// a termi hook is already registered. Returns the status to report (always
/// registered, with the given command) and whether the settings changed and
/// must be written back. The other settings keys are left as they were.
pub fn register_hooks_impl(settings: &mut ClaudeSettings, hook_command: &str) -> (r: (HookStatus, bool))
    requires
        old(settings).wf(),
    ensures
        final(settings).wf(),
        r.0.registered,
        r.0.hook_path matches Some(p) && p@ == hook_command@,
        spec_find_termi_hook(old(settings).hooks_view()) is Some ==> !r.1 && *final(settings) == *old(settings),
        spec_find_termi_hook(old(settings).hooks_view()) is None ==> r.1
            && final(settings).hooks_view() == Some(spec_register(old(settings).hooks_view(), hook_command@))
            && final(settings).rest == old(settings).rest,
{
    let status = HookStatus { registered: true, hook_path: Some(owned(hook_command)) };
    if find_termi_hook_in_settings(settings).is_some() {
        return (status, false);
    }
    let mut m: HooksMap = match settings.hooks.take() {
        Some(m) => m,
        None => Vec::new(),
    };
    proof {
        if old(settings).hooks is None {
            assert(map_view(m@) =~= Map::<Seq<char>, Seq<EntryView>>::empty());
        }
    }
    append_entry(&mut m, HOOK_EVENT_STOP, termi_entry(hook_command));
    append_entry(&mut m, HOOK_EVENT_USER_PROMPT_SUBMIT, termi_entry(hook_command));
    settings.hooks = Some(m);
    (status, true)
}

/// An entry runs the termi hook.
pub open spec fn entry_has_termi(e: EntryView) -> bool {
    exists|j: int| 0 <= j < e.1.len() && is_termi_command(#[trigger] e.1[j].1)
}

/// An entry that does not run the termi hook.
pub open spec fn keep_entry(e: EntryView) -> bool {
    !entry_has_termi(e)
}

/// `v` with the termi entries of `ev` removed, and `ev` itself removed once
/// no entry is left.
pub open spec fn strip_event(v: HooksView, ev: Seq<char>) -> HooksView {
    if v.contains_key(ev) {
        let f = v[ev].filter(|e: EntryView| keep_entry(e));
        if f.len() == 0 {
            v.remove(ev)
        } else {
            v.insert(ev, f)
        }
    } else {
        v
    }
}

/// The hooks once the termi entries are removed from `Stop` and then from
/// `UserPromptSubmit`; no hooks at all when nothing is left.
pub open spec fn spec_unregister(hooks: Option<HooksView>) -> Option<HooksView> {
    match hooks {
        None => None,
        Some(v) => {
            let w = strip_event(strip_event(v, HOOK_EVENT_STOP@), HOOK_EVENT_USER_PROMPT_SUBMIT@);
            if w == Map::<Seq<char>, Seq<EntryView>>::empty() {
                None
            } else {
                Some(w)
            }
        },
    }
}

fn entry_runs_termi(e: &HookEventEntry) -> (r: bool)
    ensures
        r == entry_has_termi(entry_view(*e)),
{
    let ghost v = items_view(e.hooks@);
    assert(entry_view(*e).1 == v);
    let mut i: usize = 0;
    while i < e.hooks.len()
        invariant
            v == items_view(e.hooks@),
            i <= e.hooks@.len(),
            forall|j: int| 0 <= j < i ==> !is_termi_command(#[trigger] v[j].1),
        decreases e.hooks@.len() - i,
    {
        if command_is_termi(e.hooks[i].command.as_str()) {
            assert(entry_view(*e).1[i as int].1 == e.hooks@[i as int].command@);
            return true;
        }
        i = i + 1;
    }
    false
}

fn keep_non_termi(es: Vec<HookEventEntry>) -> (r: Vec<HookEventEntry>)
    ensures
        entries_view(r@) == entries_view(es@).filter(|e: EntryView| keep_entry(e)),
{
    let ghost v = entries_view(es@);
    let mut kept: Vec<HookEventEntry> = Vec::new();
    let mut i: usize = 0;
    assert(v.subrange(0, 0) =~= Seq::<EntryView>::empty());
    proof { reveal(Seq::filter); }
    while i < es.len()
        invariant
            v == entries_view(es@),
            i <= es@.len(),
            entries_view(kept@) == v.subrange(0, i as int).filter(|e: EntryView| keep_entry(e)),
        decreases es@.len() - i,
    {
        let ghost before = kept@;
        let runs = entry_runs_termi(&es[i]);
        proof {
            reveal(Seq::filter);
            assert(v.subrange(0, i + 1).drop_last() =~= v.subrange(0, i as int));
            assert(v.subrange(0, i + 1).last() == entry_view(es@[i as int]));
        }
        if !runs {
            kept.push(es[i].clone_entry());
            assert(entries_view(kept@) =~= entries_view(before).push(entry_view(es@[i as int])));
        }
        i = i + 1;
    }
    assert(v.subrange(0, i as int) =~= v);
    kept
}

impl HookItem {
    /// A copy with the same field values.
    pub fn clone_item(&self) -> (r: HookItem)
        ensures
            r == *self,
    {
        HookItem { hook_type: self.hook_type.clone(), command: self.command.clone() }
    }
}

impl HookEventEntry {
    /// A copy with the same views.
    pub fn clone_entry(&self) -> (r: HookEventEntry)
        ensures
            entry_view(r) == entry_view(*self),
    {
        let mut hooks: Vec<HookItem> = Vec::new();
        let mut i: usize = 0;
        while i < self.hooks.len()
            invariant
                i <= self.hooks@.len(),
                hooks@ == self.hooks@.subrange(0, i as int),
            decreases self.hooks@.len() - i,
        {
            hooks.push(self.hooks[i].clone_item());
            i = i + 1;
            assert(hooks@ =~= self.hooks@.subrange(0, i as int));
        }
        assert(hooks@ =~= self.hooks@);
        HookEventEntry { matcher: self.matcher.clone(), hooks }
    }
}

fn strip_event_in(m: &mut HooksMap, ev: &str)
    requires
        keys_distinct(old(m)@),
    ensures
        keys_distinct(final(m)@),
        map_view(final(m)@) == strip_event(map_view(old(m)@), ev@),
{
    match find_event(m, ev) {
        Some(i) => {
            proof { lemma_key_index(m@, i as int); }
            let ghost m0 = m@;
            let (k, es) = m.remove(i);
            proof { lemma_map_view_remove(m0, i as int); }
            let filtered = keep_non_termi(es);
            if filtered.len() > 0 {
                let ghost m1 = m@;
                m.insert(i, (k, filtered));
                proof {
                    let p = m@[i as int];
                    assert(m@ =~= m0.update(i as int, p));
                    lemma_map_view_update(m0, i as int, p);
                }
            }
        },
        None => {},
    }
}

proof fn lemma_empty_view(m: Seq<(String, Vec<HookEventEntry>)>)
    ensures
        (map_view(m) == Map::<Seq<char>, Seq<EntryView>>::empty()) <==> m.len() == 0,
{
    if m.len() == 0 {
        assert(map_view(m) =~= Map::<Seq<char>, Seq<EntryView>>::empty());
    } else {
        assert(has_key(m, m[0].0@));
        assert(map_view(m).contains_key(m[0].0@));
    }
}

/// Removes every entry that runs the termi hook from `Stop` and
/// `UserPromptSubmit`, drops an event left without entries and drops the
/// hooks when no event is left. The other settings keys are left as they
/// were. Returns the status to report: not registered.
pub fn unregister_hooks_impl(settings: &mut ClaudeSettings) -> (r: HookStatus)
    requires
        old(settings).wf(),
    ensures
        final(settings).wf(),
        final(settings).hooks_view() == spec_unregister(old(settings).hooks_view()),
        final(settings).rest == old(settings).rest,
        !r.registered,
        r.hook_path is None,
{
    match settings.hooks.take() {
        None => {},
        Some(m0) => {
            let mut m = m0;
            strip_event_in(&mut m, HOOK_EVENT_STOP);
            strip_event_in(&mut m, HOOK_EVENT_USER_PROMPT_SUBMIT);
            proof { lemma_empty_view(m@); }
            if m.len() > 0 {
                settings.hooks = Some(m);
            }
        },
    }
    unregistered_status()
}

/// The command the coding agent runs for the hook script at `script_path`:
/// PowerShell on the script, its path written with forward slashes (the
/// agent runs hooks through bash, where backslashes do not survive).
pub open spec fn spec_hook_command(script_path: Seq<char>) -> Seq<char> {
    "powershell -NoProfile -ExecutionPolicy Bypass -File \""@ + replace_char_seq(script_path, '\\', '/') + "\""@
}

/// The hook command for the script at `script_path` (see `spec_hook_command`).
pub fn hook_command_for(script_path: &str) -> (r: String)
    ensures
        r@ == spec_hook_command(script_path@),
{
    let p = replace_char(script_path, '\\', '/');
    concat3("powershell -NoProfile -ExecutionPolicy Bypass -File \"", p.as_str(), "\"")
}

pub open spec fn components_view(v: Seq<String>) -> Seq<Seq<char>> {
    v.map_values(|c: String| c@)
}

/// `root` is `path` or one of its ancestors: the path's components start
/// with the root's.
pub open spec fn is_under(path: Seq<Seq<char>>, root: Seq<Seq<char>>) -> bool {
    root.len() <= path.len() && path.take(root.len() as int) == root
}

pub open spec fn under_root(path: Seq<Seq<char>>, roots: Seq<Vec<String>>, k: int) -> bool {
    is_under(path, components_view(roots[k]@))
}

/// Whether the hook script, given by the components of its canonical path,
/// lies inside one of the allowed folders (given by theirs): the program's
/// folder or, for a development build, the project root.
pub fn script_within(script: &Vec<String>, roots: &Vec<Vec<String>>) -> (r: bool)
    ensures
        r == exists|k: int| 0 <= k < roots@.len() && #[trigger] under_root(components_view(script@), roots@, k),
{
    let ghost p = components_view(script@);
    let mut k: usize = 0;
    while k < roots.len()
        invariant
            p == components_view(script@),
            k <= roots@.len(),
            forall|j: int| 0 <= j < k ==> !#[trigger] under_root(p, roots@, j),
        decreases roots@.len() - k,
    {
        let root = &roots[k];
        let ghost rv = components_view(root@);
        if root.len() <= script.len() {
            let mut i: usize = 0;
            let mut same = true;
            while i < root.len() && same
                invariant
                    p == components_view(script@),
                    rv == components_view(root@),
                    root@.len() <= script@.len(),
                    i <= root@.len(),
                    same ==> forall|m: int| 0 <= m < i ==> p[m] == rv[m],
                    !same ==> exists|m: int| 0 <= m < root@.len() && p[m] != rv[m],
                decreases root@.len() - i, if same { 1int } else { 0int },
            {
                assert(p[i as int] == script@[i as int]@ && rv[i as int] == root@[i as int]@);
                if !str_eq(script[i].as_str(), root[i].as_str()) {
                    same = false;
                } else {
                    i = i + 1;
                }
            }
            if same {
                assert(p.take(rv.len() as int) =~= rv);
                assert(under_root(p, roots@, k as int));
                return true;
            }
            proof {
                let m = choose|m: int| 0 <= m < root@.len() && p[m] != rv[m];
                if is_under(p, rv) {
                    assert(p.take(rv.len() as int)[m] == p[m]);
                }
            }
        }
        k = k + 1;
    }
    false
}

/// How long the event watcher waits after the last change to an event file
/// before it reads the file.
pub const EVENT_DEBOUNCE_MS: u64 = 300;

/// Whether an event file has settled and can be read: no change to it is
/// recorded any more, or the last one is at least `EVENT_DEBOUNCE_MS` old.
pub fn event_settled(since_last_change_ms: Option<u64>) -> (r: bool)
    ensures
        r == match since_last_change_ms {
            None => true,
            Some(e) => e >= EVENT_DEBOUNCE_MS,
        },
{
    match since_last_change_ms {
        None => true,
        Some(e) => e >= EVENT_DEBOUNCE_MS,
    }
}

/// The status reported after unregistering: not registered, no command.
pub fn unregistered_status() -> (r: HookStatus)
    ensures
        !r.registered,
        r.hook_path is None,
{
    HookStatus { registered: false, hook_path: None }
}


// ---------------------------------------------------------------------------
// Laws of registration.
// ---------------------------------------------------------------------------

proof fn lemma_event_names_differ()
    ensures
        HOOK_EVENT_STOP@ != HOOK_EVENT_USER_PROMPT_SUBMIT@,
{
    reveal_strlit("Stop");
    reveal_strlit("UserPromptSubmit");
    assert(HOOK_EVENT_STOP@.len() != HOOK_EVENT_USER_PROMPT_SUBMIT@.len());
}

proof fn lemma_first_entry_push(es: Seq<EntryView>, e: EntryView)
    ensures
        first_termi_entry(es.push(e)) == (if first_termi_entry(es) is Some {
            first_termi_entry(es)
        } else {
            first_termi_item(e.1)
        }),
    decreases es.len(),
{
    if es.len() == 0 {
        assert(es.push(e)[0] == e);
        assert(es.push(e).drop_first() =~= Seq::<EntryView>::empty());
        assert(first_termi_entry(Seq::<EntryView>::empty()) is None);
    } else {
        assert(es.push(e)[0] == es[0]);
        assert(es.push(e).drop_first() =~= es.drop_first().push(e));
        lemma_first_entry_push(es.drop_first(), e);
    }
}

proof fn lemma_first_item_witness(items: Seq<ItemView>)
    ensures
        first_termi_item(items) is Some ==> exists|j: int| 0 <= j < items.len() && is_termi_command(#[trigger] items[j].1),
    decreases items.len(),
{
    if items.len() > 0 && !is_termi_command(items[0].1) {
        lemma_first_item_witness(items.drop_first());
        if first_termi_item(items.drop_first()) is Some {
            let j = choose|j: int| 0 <= j < items.drop_first().len() && is_termi_command(#[trigger] items.drop_first()[j].1);
            assert(items[j + 1] == items.drop_first()[j]);
        }
    }
}

proof fn lemma_kept_entries_have_no_termi(es: Seq<EntryView>)
    requires
        forall|i: int| 0 <= i < es.len() ==> keep_entry(#[trigger] es[i]),
    ensures
        first_termi_entry(es) is None,
    decreases es.len(),
{
    if es.len() > 0 {
        assert(keep_entry(es[0]));
        lemma_first_item_witness(es[0].1);
        assert forall|i: int| 0 <= i < es.drop_first().len() implies keep_entry(#[trigger] es.drop_first()[i]) by {
            assert(es.drop_first()[i] == es[i + 1]);
        }
        lemma_kept_entries_have_no_termi(es.drop_first());
    }
}

/// Once the termi hook command is registered on settings that had no termi
/// hook, the hook is found, and it is that command.
pub proof fn law_register_then_found(hooks: Option<HooksView>, cmd: Seq<char>)
    requires
        spec_find_termi_hook(hooks) is None,
        is_termi_command(cmd),
    ensures
        spec_find_termi_hook(Some(spec_register(hooks, cmd))) == Some(cmd),
{
    lemma_event_names_differ();
    let v = match hooks {
        Some(v) => v,
        None => Map::<Seq<char>, Seq<EntryView>>::empty(),
    };
    let e = termi_entry_view(cmd);
    let old_stop = if v.contains_key(HOOK_EVENT_STOP@) { v[HOOK_EVENT_STOP@] } else { Seq::<EntryView>::empty() };
    assert(first_termi_entry(old_stop) is None);
    lemma_first_entry_push(old_stop, e);
    assert(e.1[0].1 == cmd);
    assert(e.1.drop_first() =~= Seq::<ItemView>::empty());
    assert(first_termi_item(e.1) == Some(cmd));
    let r = spec_register(hooks, cmd);
    assert(r[HOOK_EVENT_STOP@] == old_stop.push(e));
}

/// After the termi hook is unregistered, no termi hook is found.
pub proof fn law_unregister_then_not_found(hooks: Option<HooksView>)
    ensures
        spec_find_termi_hook(spec_unregister(hooks)) is None,
{
    lemma_event_names_differ();
    broadcast use vstd::seq_lib::group_filter_ensures;
    if let Some(v) = hooks {
        let w1 = strip_event(v, HOOK_EVENT_STOP@);
        let w = strip_event(w1, HOOK_EVENT_USER_PROMPT_SUBMIT@);
        if w != Map::<Seq<char>, Seq<EntryView>>::empty() {
            let pred = |e: EntryView| keep_entry(e);
            if w.contains_key(HOOK_EVENT_STOP@) {
                let f = v[HOOK_EVENT_STOP@].filter(pred);
                assert(w[HOOK_EVENT_STOP@] == f);
                lemma_kept_entries_have_no_termi(f);
            }
            if w.contains_key(HOOK_EVENT_USER_PROMPT_SUBMIT@) {
                let f = w1[HOOK_EVENT_USER_PROMPT_SUBMIT@].filter(pred);
                assert(w[HOOK_EVENT_USER_PROMPT_SUBMIT@] == f);
                lemma_kept_entries_have_no_termi(f);
            }
        }
    }
}

proof fn lemma_filter_all_kept(es: Seq<EntryView>)
    requires
        forall|i: int| 0 <= i < es.len() ==> keep_entry(#[trigger] es[i]),
    ensures
        es.filter(|e: EntryView| keep_entry(e)) == es,
    decreases es.len(),
{
    reveal(Seq::filter);
    if es.len() > 0 {
        assert forall|i: int| 0 <= i < es.drop_last().len() implies keep_entry(#[trigger] es.drop_last()[i]) by {
            assert(es.drop_last()[i] == es[i]);
        }
        lemma_filter_all_kept(es.drop_last());
        assert(keep_entry(es.last()));
        assert(es.drop_last().push(es.last()) =~= es);
    }
}

proof fn lemma_no_termi_all_kept(es: Seq<EntryView>)
    requires
        first_termi_entry(es) is None,
    ensures
        forall|i: int| 0 <= i < es.len() ==> keep_entry(#[trigger] es[i]),
    decreases es.len(),
{
    if es.len() > 0 {
        lemma_no_termi_all_kept(es.drop_first());
        assert forall|i: int| 0 <= i < es.len() implies keep_entry(#[trigger] es[i]) by {
            if i == 0 {
                lemma_first_item_none(es[0].1);
            } else {
                assert(es[i] == es.drop_first()[i - 1]);
            }
        }
    }
}

proof fn lemma_first_item_none(items: Seq<ItemView>)
    requires
        first_termi_item(items) is None,
    ensures
        forall|j: int| 0 <= j < items.len() ==> !is_termi_command(#[trigger] items[j].1),
    decreases items.len(),
{
    if items.len() > 0 {
        lemma_first_item_none(items.drop_first());
        assert forall|j: int| 0 <= j < items.len() implies !is_termi_command(#[trigger] items[j].1) by {
            if j > 0 {
                assert(items[j] == items.drop_first()[j - 1]);
            }
        }
    }
}

proof fn lemma_strip_after_append(v: HooksView, ev: Seq<char>, cmd: Seq<char>)
    requires
        is_termi_command(cmd),
        termi_in_event(v, ev) is None,
        v.contains_key(ev) ==> v[ev].len() > 0,
    ensures
        strip_event(with_entry(v, ev, termi_entry_view(cmd)), ev) == v,
{
    reveal(Seq::filter);
    let e = termi_entry_view(cmd);
    let old_es = if v.contains_key(ev) { v[ev] } else { Seq::<EntryView>::empty() };
    assert(first_termi_entry(old_es) is None);
    lemma_no_termi_all_kept(old_es);
    lemma_filter_all_kept(old_es);
    assert(e.1[0].1 == cmd);
    assert(entry_has_termi(e));
    let pushed = old_es.push(e);
    assert(pushed.drop_last() =~= old_es);
    assert(pushed.filter(|x: EntryView| keep_entry(x)) == old_es);
    if v.contains_key(ev) {
        assert(with_entry(v, ev, e).insert(ev, old_es) =~= v);
    } else {
        assert(with_entry(v, ev, e).remove(ev) =~= v);
    }
}

/// Registering the termi hook on settings without one and then
/// unregistering it gives back the hooks one started with, provided no
/// `Stop` or `UserPromptSubmit` event was present with an empty list and the
/// hooks, when present, were not an empty map (those two shapes are
/// normalised away).
pub proof fn law_register_then_unregister(hooks: Option<HooksView>, cmd: Seq<char>)
    requires
        spec_find_termi_hook(hooks) is None,
        is_termi_command(cmd),
        hooks matches Some(v) ==> {
            &&& v != Map::<Seq<char>, Seq<EntryView>>::empty()
            &&& v.contains_key(HOOK_EVENT_STOP@) ==> v[HOOK_EVENT_STOP@].len() > 0
            &&& v.contains_key(HOOK_EVENT_USER_PROMPT_SUBMIT@) ==> v[HOOK_EVENT_USER_PROMPT_SUBMIT@].len() > 0
        },
    ensures
        spec_unregister(Some(spec_register(hooks, cmd))) == hooks,
{
    lemma_event_names_differ();
    let stop = HOOK_EVENT_STOP@;
    let ups = HOOK_EVENT_USER_PROMPT_SUBMIT@;
    let v = match hooks {
        Some(v) => v,
        None => Map::<Seq<char>, Seq<EntryView>>::empty(),
    };
    let e = termi_entry_view(cmd);
    let a = with_entry(v, stop, e);
    let b = with_entry(a, ups, e);
    // stripping Stop from b only touches the Stop key
    assert(termi_in_event(v, stop) is None);
    assert(termi_in_event(v, ups) is None);
    lemma_strip_after_append(v, stop, cmd);
    assert(strip_event(b, stop) =~= with_entry(strip_event(a, stop), ups, e));
    assert(strip_event(a, stop) == v);
    lemma_strip_after_append(v, ups, cmd);
    assert(strip_event(with_entry(v, ups, e), ups) == v);
}

} // verus!
