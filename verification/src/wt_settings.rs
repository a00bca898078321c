//! Windows Terminal's settings file: where it is, reading past its `//`
//! comments, and where the application's tab-moving key binding goes.
//!
//! Reading, parsing and writing the file happen outside; here are the
//! decisions on paths, text and the `actions` list.

use vstd::prelude::*;
use crate::error::AppError;
use crate::monitor::{first_where, lemma_first_where, lemma_first_where_range};
use crate::text::{chars_of, owned, starts_with_seq, str_eq, str_starts_with, string_from_chars, string_from_range, trim, trim_seq};

verus! {

/// Keys of the application's `moveTab` binding (F24 is on no standard
/// keyboard, so nothing else uses it).
pub const TERMI_MOVE_TAB_KEYS: &'static str = "ctrl+shift+alt+f24";
/// How long Windows Terminal takes to reload its settings, in milliseconds.
pub const WT_SETTINGS_HOT_RELOAD_DELAY_MS: u64 = 500;

// ---------------------------------------------------------------------------
// Where the settings file is.
// ---------------------------------------------------------------------------

/// Path segments of the settings file under `%LOCALAPPDATA%`, in the order
/// they are tried: the Store build, the Preview build, the unpackaged build.
pub open spec fn candidate_segments(k: int) -> Seq<Seq<char>> {
    if k == 0 {
        seq!["Packages"@, "Microsoft.WindowsTerminal_8wekyb3d8bbwe"@, "LocalState"@, "settings.json"@]
    } else if k == 1 {
        seq!["Packages"@, "Microsoft.WindowsTerminalPreview_8wekyb3d8bbwe"@, "LocalState"@, "settings.json"@]
    } else {
        seq!["Microsoft"@, "Windows Terminal"@, "settings.json"@]
    }
}

/// How many candidate locations there are.
pub const WT_SETTINGS_CANDIDATE_COUNT: usize = 3;

/// `base` followed by a relative segment, with one `\` between them (none
/// after an empty base or one that already ends with a separator).
pub open spec fn join_segment(base: Seq<char>, seg: Seq<char>) -> Seq<char> {
    if base.len() == 0 {
        seg
    } else if base.last() == '\\' || base.last() == '/' {
        base + seg
    } else {
        base + seq!['\\'] + seg
    }
}

/// `base` followed by each segment in turn.
pub open spec fn join_all(base: Seq<char>, segs: Seq<Seq<char>>) -> Seq<char>
    decreases segs.len(),
{
    if segs.len() == 0 {
        base
    } else {
        join_all(join_segment(base, segs[0]), segs.drop_first())
    }
}

/// The `k`-th candidate location under `base`.
pub open spec fn candidate_path(base: Seq<char>, k: int) -> Seq<char> {
    join_all(base, candidate_segments(k))
}

/// The segments of the `k`-th candidate location.
pub fn wt_settings_candidate(k: usize) -> (r: Vec<String>)
    requires
        k < WT_SETTINGS_CANDIDATE_COUNT,
    ensures
        r@.map_values(|s: String| s@) == candidate_segments(k as int),
{
    let mut r: Vec<String> = Vec::new();
    if k == 0 {
        r.push(owned("Packages"));
        r.push(owned("Microsoft.WindowsTerminal_8wekyb3d8bbwe"));
        r.push(owned("LocalState"));
        r.push(owned("settings.json"));
    } else if k == 1 {
        r.push(owned("Packages"));
        r.push(owned("Microsoft.WindowsTerminalPreview_8wekyb3d8bbwe"));
        r.push(owned("LocalState"));
        r.push(owned("settings.json"));
    } else {
        r.push(owned("Microsoft"));
        r.push(owned("Windows Terminal"));
        r.push(owned("settings.json"));
    }
    assert(r@.map_values(|s: String| s@) =~= candidate_segments(k as int));
    r
}

/// `base` joined with one segment (see `join_segment`).
pub fn join_path(base: &str, seg: &str) -> (r: String)
    ensures
        r@ == join_segment(base@, seg@),
{
    let v = chars_of(base);
    if v.len() == 0 {
        return owned(seg);
    }
    let last = v[v.len() - 1];
    if last == '\\' || last == '/' {
        crate::text::concat(base, seg)
    } else {
        proof { reveal_strlit("\\"); }
        let r = crate::text::concat3(base, "\\", seg);
        assert(r@ =~= base@ + seq!['\\'] + seg@);
        r
    }
}

/// The `k`-th candidate location under `base`.
pub fn wt_settings_candidate_path(base: &str, k: usize) -> (r: String)
    requires
        k < WT_SETTINGS_CANDIDATE_COUNT,
    ensures
        r@ == candidate_path(base@, k as int),
{
    let segs = wt_settings_candidate(k);
    let ghost sv = segs@.map_values(|s: String| s@);
    let mut p = owned(base);
    let mut i: usize = 0;
    assert(sv.skip(0) =~= sv);
    while i < segs.len()
        invariant
            sv == segs@.map_values(|s: String| s@),
            sv == candidate_segments(k as int),
            i <= segs@.len(),
            join_all(p@, sv.skip(i as int)) == candidate_path(base@, k as int),
        decreases segs@.len() - i,
    {
        proof {
            assert(sv.skip(i as int)[0] == sv[i as int]);
            assert(sv.skip(i as int).drop_first() =~= sv.skip(i + 1));
        }
        p = join_path(p.as_str(), segs[i].as_str());
        i = i + 1;
    }
    assert(sv.skip(i as int) =~= Seq::<Seq<char>>::empty());
    p
}

/// The message when no settings file is found.
pub open spec fn settings_not_found_message() -> Seq<char> {
    "Windows Terminal 설정 파일을 찾을 수 없습니다"@
}

/// `is_file` answered `answer` for the path `path`.
pub open spec fn answered<F: Fn(&str) -> bool>(is_file: F, path: Seq<char>, answer: bool) -> bool {
    exists|s: &str| s@ == path && call_ensures(is_file, (s,), answer)
}

/// The first candidate location under `base` for which `is_file` (the test
/// that a file is there) answers yes; an error when it answers no for all.
pub fn find_wt_settings_in<F: Fn(&str) -> bool>(base: &str, is_file: F) -> (r: Result<String, AppError>)
    requires
        forall|s: &str| call_requires(is_file, (s,)),
    ensures
        match r {
            Ok(p) => exists|k: int| 0 <= k < WT_SETTINGS_CANDIDATE_COUNT
                && p@ == candidate_path(base@, k)
                && answered(is_file, p@, true)
                && forall|j: int| 0 <= j < k ==> answered(is_file, #[trigger] candidate_path(base@, j), false),
            Err(e) => e is Terminal && e->Terminal_0@ == settings_not_found_message()
                && forall|j: int| 0 <= j < WT_SETTINGS_CANDIDATE_COUNT ==> answered(is_file, #[trigger] candidate_path(base@, j), false),
        },
{
    let mut k: usize = 0;
    while k < WT_SETTINGS_CANDIDATE_COUNT
        invariant
            k <= WT_SETTINGS_CANDIDATE_COUNT,
            forall|s: &str| call_requires(is_file, (s,)),
            forall|j: int| 0 <= j < k ==> answered(is_file, #[trigger] candidate_path(base@, j), false),
        decreases WT_SETTINGS_CANDIDATE_COUNT - k,
    {
        let p = wt_settings_candidate_path(base, k);
        let found = is_file(p.as_str());
        if found {
            assert(answered(is_file, p@, true));
            return Ok(p);
        }
        assert(answered(is_file, candidate_path(base@, k as int), false));
        k = k + 1;
    }
    Err(AppError::Terminal(owned("Windows Terminal 설정 파일을 찾을 수 없습니다")))
}

// ---------------------------------------------------------------------------
// Line comments.
// ---------------------------------------------------------------------------

/// A newline character.
pub open spec fn is_newline() -> spec_fn(char) -> bool {
    |c: char| c == '\n'
}

/// A line whose trimmed text begins with `//`.
pub open spec fn is_comment_line(line: Seq<char>) -> bool {
    starts_with_seq(trim_seq(line), "//"@)
}

/// Where the first `//` outside a string literal starts in `line`, scanning
/// from `i` in the given string state (inside a string literal, and just
/// after a backslash inside one).
pub open spec fn comment_start(line: Seq<char>, i: int, in_str: bool, esc: bool) -> Option<int>
    decreases line.len() - i,
{
    if i < 0 || i >= line.len() {
        None
    } else if in_str {
        if esc {
            comment_start(line, i + 1, true, false)
        } else if line[i] == '\\' {
            comment_start(line, i + 1, true, true)
        } else if line[i] == '"' {
            comment_start(line, i + 1, false, false)
        } else {
            comment_start(line, i + 1, true, false)
        }
    } else if line[i] == '"' {
        comment_start(line, i + 1, true, false)
    } else if line[i] == '/' && i + 1 < line.len() && line[i + 1] == '/' {
        Some(i)
    } else {
        comment_start(line, i + 1, false, false)
    }
}

/// A line without its trailing `//` comment: what comes before the first
/// `//` that is not inside a string literal.
pub open spec fn code_part(line: Seq<char>) -> Seq<char> {
    match comment_start(line, 0, false, false) {
        Some(k) => line.take(k),
        None => line,
    }
}

/// What a line becomes: an empty line for a whole-line comment, else the
/// line without its trailing comment, each followed by a newline.
pub open spec fn emit_line(line: Seq<char>) -> Seq<char> {
    if is_comment_line(line) { seq!['\n'] } else { code_part(line).push('\n') }
}

proof fn lemma_comment_start_range(line: Seq<char>, i: int, in_str: bool, esc: bool)
    ensures
        comment_start(line, i, in_str, esc) matches Some(k) ==> 0 <= i <= k && k + 1 < line.len(),
    decreases line.len() - i,
{
    if 0 <= i < line.len() {
        lemma_comment_start_range(line, i + 1, true, false);
        lemma_comment_start_range(line, i + 1, true, true);
        lemma_comment_start_range(line, i + 1, false, false);
    }
}

/// A line's text without the `\r` of a `\r\n` ending.
pub open spec fn chomp_cr(line: Seq<char>) -> Seq<char> {
    if line.len() > 0 && line.last() == '\r' { line.drop_last() } else { line }
}

/// The text with its `//` line comments removed, line by line (as
/// `str::lines`: lines end at `\n` or `\r\n`, the last line ending being
/// optional), each output line ending with `\n`: a whole-line comment
/// leaves an empty line, a comment after code is cut off, and a `//` inside
/// a string literal, as in a URL, stays.
pub open spec fn strip_comments_seq(s: Seq<char>) -> Seq<char>
    decreases s.len(),
{
    if s.len() == 0 {
        Seq::empty()
    } else {
        match first_where(s, is_newline()) {
            Some(i) => {
                proof { lemma_first_where_range(s, is_newline()); }
                emit_line(chomp_cr(s.take(i))) + strip_comments_seq(s.skip(i + 1))
            },
            None => emit_line(s),
        }
    }
}

/// Removes the `//` line comments of a JSON text, keeping `//` inside string
/// literals (see `strip_comments_seq`).
pub fn strip_json_comments(input: &str) -> (r: String)
    ensures
        r@ == strip_comments_seq(input@),
{
    let v = chars_of(input);
    let n = v.len();
    let mut out: Vec<char> = Vec::new();
    let mut pos: usize = 0;
    assert(v@.skip(0) =~= v@);
    assert(out@ + strip_comments_seq(v@.skip(0)) =~= strip_comments_seq(v@));
    while pos < n
        invariant
            n == v@.len(),
            pos <= n,
            out@ + strip_comments_seq(v@.skip(pos as int)) == strip_comments_seq(v@),
        decreases n - pos,
    {
        let ghost rest = v@.skip(pos as int);
        let mut i: usize = pos;
        while i < n && v[i] != '\n'
            invariant
                n == v@.len(),
                pos <= i <= n,
                forall|k: int| pos <= k < i ==> v@[k] != '\n',
            decreases n - i,
        {
            i = i + 1;
        }
        proof {
            assert forall|k: int| 0 <= k < i - pos implies !(is_newline())(#[trigger] rest[k]) by {
                assert(rest[k] == v@[pos + k]);
            }
            if i < n {
                assert(rest[i - pos] == v@[i as int]);
            }
            lemma_first_where(rest, is_newline(), i - pos);
        }
        let end = if i < n && i > pos && v[i - 1] == '\r' { i - 1 } else { i };
        let line = string_from_range(&v, pos, end);
        proof {
            if i < n {
                assert(line@ =~= chomp_cr(rest.take(i - pos)));
                assert(rest.skip(i - pos + 1) =~= v@.skip(i + 1));
            } else {
                assert(line@ =~= rest);
            }
        }
        let t = trim(line.as_str());
        let ghost before = out@;
        if str_starts_with(t.as_str(), "//") {
            out.push('\n');
            assert(out@ =~= before + emit_line(line@));
        } else {
            let ghost ln = line@;
            assert(ln =~= v@.subrange(pos as int, end as int));
            let mut k: usize = pos;
            let mut in_str = false;
            let mut esc = false;
            let mut found = false;
            let mut cut: usize = end;
            while k < end && !found
                invariant
                    n == v@.len(),
                    pos <= k <= end <= n,
                    ln == v@.subrange(pos as int, end as int),
                    !in_str ==> !esc,
                    !found ==> cut == end && comment_start(ln, 0, false, false) == comment_start(ln, k - pos, in_str, esc),
                    found ==> pos <= cut < end && comment_start(ln, 0, false, false) == Some(cut - pos),
                decreases end - k, if found { 0int } else { 1int },
            {
                let c = v[k];
                let ghost i0 = k - pos;
                let ghost s0 = in_str;
                let ghost e0 = esc;
                assert(ln[i0] == v@[k as int]);
                assert(ln.len() == end - pos);
                if k + 1 < end {
                    assert(ln[i0 + 1] == v@[k + 1]);
                }
                assert(comment_start(ln, i0, s0, e0) == if s0 {
                    if e0 { comment_start(ln, i0 + 1, true, false) }
                    else if ln[i0] == '\\' { comment_start(ln, i0 + 1, true, true) }
                    else if ln[i0] == '"' { comment_start(ln, i0 + 1, false, false) }
                    else { comment_start(ln, i0 + 1, true, false) }
                } else if ln[i0] == '"' {
                    comment_start(ln, i0 + 1, true, false)
                } else if ln[i0] == '/' && i0 + 1 < ln.len() && ln[i0 + 1] == '/' {
                    Some(i0)
                } else {
                    comment_start(ln, i0 + 1, false, false)
                });
                if in_str {
                    if esc {
                        esc = false;
                    } else if c == '\\' {
                        esc = true;
                    } else if c == '"' {
                        in_str = false;
                    }
                    k = k + 1;
                } else if c == '"' {
                    in_str = true;
                    k = k + 1;
                } else if c == '/' && k + 1 < end && v[k + 1] == '/' {
                    assert(ln[k + 1 - pos] == v@[k + 1]);
                    found = true;
                    cut = k;
                } else {
                    k = k + 1;
                }
            }
            proof {
                if !found {
                    assert(comment_start(ln, k - pos, in_str, esc) is None);
                }
                assert(code_part(ln) =~= v@.subrange(pos as int, cut as int));
            }
            let mut k: usize = pos;
            while k < cut
                invariant
                    n == v@.len(),
                    pos <= k <= cut <= end <= n,
                    out@ == before + v@.subrange(pos as int, k as int),
                decreases cut - k,
            {
                out.push(v[k]);
                k = k + 1;
                assert(out@ =~= before + v@.subrange(pos as int, k as int));
            }
            out.push('\n');
            assert(out@ =~= before + emit_line(line@));
        }
        proof {
            if i < n {
                assert(strip_comments_seq(rest) == emit_line(line@) + strip_comments_seq(v@.skip(i + 1)));
                assert(out@ + strip_comments_seq(v@.skip(i + 1)) =~= strip_comments_seq(v@));
            } else {
                assert(strip_comments_seq(rest) == emit_line(line@));
                assert(v@.skip(n as int) =~= Seq::<char>::empty());
                assert(out@ + strip_comments_seq(v@.skip(n as int)) =~= strip_comments_seq(v@));
            }
        }
        pos = if i < n { i + 1 } else { n };
    }
    assert(v@.skip(n as int) =~= Seq::<char>::empty());
    assert(out@ =~= strip_comments_seq(v@));
    string_from_chars(&out)
}

// ---------------------------------------------------------------------------
// The application's key binding.
// ---------------------------------------------------------------------------

/// The `actions` field of the settings, as far as the binding needs it: absent,
/// not a list, or a list giving for each action its `keys` when that is a
/// string.
pub enum ActionsField {
    Missing,
    NotArray,
    Array(Vec<Option<String>>),
}

/// Where the binding goes.
#[derive(Debug, Clone, Copy, PartialEq, Eq, Structural)]
pub enum MoveTabEdit {
    /// Point the action at this position to the target window.
    SetWindow(usize),
    /// Append a new `moveTab` action for the target window.
    Append,
}

/// An action whose `keys` are the application's.
pub open spec fn is_termi_keys() -> spec_fn(Option<Seq<char>>) -> bool {
    |k: Option<Seq<char>>| k == Some(TERMI_MOVE_TAB_KEYS@)
}

pub open spec fn keys_view(v: Seq<Option<String>>) -> Seq<Option<Seq<char>>> {
    v.map_values(|k: Option<String>| crate::terminals::opt_view(k))
}

/// The message when `actions` is not a list.
pub open spec fn actions_not_array_message() -> Seq<char> {
    "actions 필드가 배열이 아닙니다"@
}

/// Where the binding goes: with no `actions`, a new list is made and the
/// action appended; when `actions` is not a list, an error; otherwise the
/// first action with the application's keys is pointed to the window, or a
/// new action is appended. The `bool` says whether the list is created.
pub fn plan_move_tab_binding(actions: &ActionsField) -> (r: Result<(bool, MoveTabEdit), AppError>)
    ensures
        match actions {
            ActionsField::Missing => r matches Ok((create, edit)) && create && edit == MoveTabEdit::Append,
            ActionsField::NotArray => r matches Err(e) && e is Terminal && e->Terminal_0@ == actions_not_array_message(),
            ActionsField::Array(keys) => match first_where(keys_view(keys@), is_termi_keys()) {
                Some(i) => r matches Ok((create, edit)) && !create && (edit matches MoveTabEdit::SetWindow(j) && j == i),
                None => r matches Ok((create, edit)) && !create && edit == MoveTabEdit::Append,
            },
        },
{
    match actions {
        ActionsField::Missing => Ok((true, MoveTabEdit::Append)),
        ActionsField::NotArray => Err(AppError::Terminal(owned("actions 필드가 배열이 아닙니다"))),
        ActionsField::Array(keys) => {
            let ghost kv = keys_view(keys@);
            let mut i: usize = 0;
            while i < keys.len()
                invariant
                    kv == keys_view(keys@),
                    (match *actions {
                        ActionsField::Array(k) => k@ == keys@,
                        _ => false,
                    }),
                    i <= keys@.len(),
                    forall|j: int| 0 <= j < i ==> !(is_termi_keys())(#[trigger] kv[j]),
                decreases keys@.len() - i,
            {
                let hit = match &keys[i] {
                    Some(k) => str_eq(k.as_str(), TERMI_MOVE_TAB_KEYS),
                    None => false,
                };
                assert(kv[i as int] == crate::terminals::opt_view(keys@[i as int]));
                if hit {
                    proof { lemma_first_where(kv, is_termi_keys(), i as int); }
                    return Ok((false, MoveTabEdit::SetWindow(i)));
                }
                i = i + 1;
            }
            proof { lemma_first_where(kv, is_termi_keys(), i as int); }
            Ok((false, MoveTabEdit::Append))
        },
    }
}

/// The `moveTab` action that sends the current tab to `target_window`:
/// (keys, action, direction, window).
pub fn move_tab_binding(target_window: &str) -> (r: (String, String, String, String))
    ensures
        r.0@ == TERMI_MOVE_TAB_KEYS@,
        r.1@ == "moveTab"@,
        r.2@ == "forward"@,
        r.3@ == target_window@,
{
    (owned(TERMI_MOVE_TAB_KEYS), owned("moveTab"), owned("forward"), owned(target_window))
}

/// The edit planned for a list of action keys (see `plan_move_tab_binding`).
pub open spec fn planned_edit(keys: Seq<Option<Seq<char>>>) -> MoveTabEdit {
    match first_where(keys, is_termi_keys()) {
        Some(i) => MoveTabEdit::SetWindow(i as usize),
        None => MoveTabEdit::Append,
    }
}

/// The action keys once an edit is applied: pointing an action to a window
/// keeps them, appending adds the application's keys at the end.
pub open spec fn keys_after(keys: Seq<Option<Seq<char>>>, edit: MoveTabEdit) -> Seq<Option<Seq<char>>> {
    match edit {
        MoveTabEdit::SetWindow(_) => keys,
        MoveTabEdit::Append => keys.push(Some(TERMI_MOVE_TAB_KEYS@)),
    }
}

proof fn lemma_no_termi_keys(keys: Seq<Option<Seq<char>>>)
    requires
        first_where(keys, is_termi_keys()) is None,
    ensures
        forall|j: int| 0 <= j < keys.len() ==> !(is_termi_keys())(#[trigger] keys[j]),
    decreases keys.len(),
{
    if keys.len() > 0 {
        let d = keys.drop_first();
        lemma_no_termi_keys(d);
        assert forall|j: int| 0 <= j < keys.len() implies !(is_termi_keys())(#[trigger] keys[j]) by {
            if j > 0 {
                assert(keys[j] == d[j - 1]);
            }
        }
    }
}

/// Adding the binding twice is adding it once: after the first edit, the
/// second points the same action to the window, and the list of actions does
/// not grow.
pub proof fn law_move_tab_binding_idempotent(keys: Seq<Option<Seq<char>>>)
    ensures
        ({
            let once = keys_after(keys, planned_edit(keys));
            &&& planned_edit(once) is SetWindow
            &&& keys_after(once, planned_edit(once)) == once
            &&& (planned_edit(keys) is SetWindow ==> planned_edit(once) == planned_edit(keys))
            &&& (planned_edit(keys) is Append ==> planned_edit(once) == MoveTabEdit::SetWindow(keys.len() as usize))
        }),
{
    lemma_first_where_range(keys, is_termi_keys());
    match first_where(keys, is_termi_keys()) {
        Some(i) => {},
        None => {
            let once = keys.push(Some(TERMI_MOVE_TAB_KEYS@));
            lemma_no_termi_keys(keys);
            assert forall|j: int| 0 <= j < keys.len() implies !(is_termi_keys())(#[trigger] once[j]) by {
                assert(once[j] == keys[j]);
            }
            lemma_first_where(once, is_termi_keys(), keys.len() as int);
        },
    }
}

} // verus!
