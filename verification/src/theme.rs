//! Themes: the two built-in palettes, theme ids and where a theme comes from.

use vstd::prelude::*;
use crate::error::AppError;
use crate::text::{byte_len, concat, has_char, contains_seq, owned, str_contains, str_eq, str_has_char};
use crate::validation::outcome_is;

verus! {

/// Dark or light.
#[derive(Debug, Clone, Copy, PartialEq, Eq, Structural)]
pub enum ThemeType {
    Dark,
    Light,
}

/// A theme: its name, description, variant and the colour of each UI role.
/// The roles are kept in order; a role occurs at most once.
#[derive(Debug, Clone)]
pub struct File {
    pub name: String,
    pub description: String,
    pub theme_type: ThemeType,
    pub colors: Vec<(String, String)>,
}

/// The roles of a colour list, by view.
pub open spec fn color_keys(colors: Seq<(String, String)>) -> Seq<Seq<char>> {
    colors.map_values(|p: (String, String)| p.0@)
}

impl File {
    /// No role occurs twice.
    pub open spec fn wf(&self) -> bool {
        forall|i: int, j: int|
            0 <= i < j < self.colors@.len() ==> (#[trigger] self.colors@[i]).0@ != (#[trigger] self.colors@[j]).0@
    }

    /// The colour of a role, if the theme has one.
    pub open spec fn spec_color(&self, key: Seq<char>) -> Option<Seq<char>> {
        if exists|i: int| 0 <= i < self.colors@.len() && (#[trigger] self.colors@[i]).0@ == key {
            let i = choose|i: int| 0 <= i < self.colors@.len() && (#[trigger] self.colors@[i]).0@ == key;
            Some(self.colors@[i].1@)
        } else {
            None
        }
    }

    /// The colour of a role, if the theme has one.
    pub fn color(&self, key: &str) -> (r: Option<String>)
        requires
            self.wf(),
        ensures
            r is Some <==> self.spec_color(key@) is Some,
            r matches Some(c) ==> Some(c@) == self.spec_color(key@),
    {
        let mut i: usize = 0;
        while i < self.colors.len()
            invariant
                self.wf(),
                i <= self.colors@.len(),
                forall|j: int| 0 <= j < i ==> (#[trigger] self.colors@[j]).0@ != key@,
            decreases self.colors@.len() - i,
        {
            if str_eq(self.colors[i].0.as_str(), key) {
                proof {
                    let k = choose|k: int| 0 <= k < self.colors@.len() && (#[trigger] self.colors@[k]).0@ == key@;
                    if k != i as int {
                        if k < i {
                        } else {
                            assert(self.colors@[i as int].0@ != self.colors@[k].0@);
                        }
                    }
                }
                return Some(self.colors[i].1.clone());
            }
            i = i + 1;
        }
        None
    }

    /// Whether the theme has a colour for the role.
    pub fn contains_color(&self, key: &str) -> (r: bool)
        requires
            self.wf(),
        ensures
            r == (self.spec_color(key@) is Some),
    {
        self.color(key).is_some()
    }
}

/// A theme list entry: id and metadata, without the colours.
#[derive(Debug, Clone)]
pub struct ListEntry {
    pub id: String,
    pub name: String,
    pub theme_type: ThemeType,
    pub description: String,
}

/// Id of the built-in dark theme.
pub const DEFAULT_DARK_ID: &'static str = "default-dark";
/// Id of the built-in light theme.
pub const DEFAULT_LIGHT_ID: &'static str = "default-light";
/// Longest accepted theme id, in bytes.
pub const MAX_THEME_ID_LENGTH: usize = 128;

/// The colour roles every built-in theme defines, in order.
pub open spec fn builtin_roles() -> Seq<Seq<char>> {
    seq![
        "bg-primary"@, "bg-secondary"@, "bg-surface"@, "text-primary"@, "text-secondary"@,
        "accent"@, "accent-hover"@, "border"@, "danger"@, "success"@,
        "status-working"@, "status-waiting"@, "status-completed"@,
    ]
}

/// The dark palette, role by role.
pub open spec fn dark_colors() -> Seq<Seq<char>> {
    seq![
        "#1e1e2e"@, "#181825"@, "#313244"@, "#cdd6f4"@, "#a6adc8"@,
        "#89b4fa"@, "#74c7ec"@, "#45475a"@, "#f38ba8"@, "#a6e3a1"@,
        "#22c55e"@, "#eab308"@, "#ef4444"@,
    ]
}

/// The light palette, role by role.
pub open spec fn light_colors() -> Seq<Seq<char>> {
    seq![
        "#eff1f5"@, "#e6e9ef"@, "#ccd0da"@, "#4c4f69"@, "#6c6f85"@,
        "#1e66f5"@, "#209fb5"@, "#bcc0cc"@, "#d20f39"@, "#40a02b"@,
        "#40a02b"@, "#df8e1d"@, "#d20f39"@,
    ]
}

fn push_pair(v: &mut Vec<(String, String)>, k: &str, c: &str)
    ensures
        final(v)@.len() == old(v)@.len() + 1,
        forall|i: int| 0 <= i < old(v)@.len() ==> final(v)@[i] == old(v)@[i],
        final(v)@[old(v)@.len() as int].0@ == k@,
        final(v)@[old(v)@.len() as int].1@ == c@,
{
    v.push((owned(k), owned(c)));
}

proof fn lemma_roles_distinct()
    ensures
        forall|i: int, j: int| 0 <= i < j < 13 ==> builtin_roles()[i] != builtin_roles()[j],
{
    reveal_strlit("bg-primary");
    reveal_strlit("bg-secondary");
    reveal_strlit("bg-surface");
    reveal_strlit("text-primary");
    reveal_strlit("text-secondary");
    reveal_strlit("accent");
    reveal_strlit("accent-hover");
    reveal_strlit("border");
    reveal_strlit("danger");
    reveal_strlit("success");
    reveal_strlit("status-working");
    reveal_strlit("status-waiting");
    reveal_strlit("status-completed");
    assert forall|i: int, j: int| 0 <= i < j < 13 implies builtin_roles()[i] != builtin_roles()[j] by {
        let a = builtin_roles()[i];
        let b = builtin_roles()[j];
        if a.len() == b.len() {
            assert(a[0] != b[0] || a[3] != b[3] || a[8] != b[8]);
        }
    }
}

fn builtin_file(name: &str, description: &str, theme_type: ThemeType, palette: [&str; 13]) -> (f: File)
    ensures
        f.name@ == name@,
        f.description@ == description@,
        f.theme_type == theme_type,
        color_keys(f.colors@) == builtin_roles(),
        forall|i: int| 0 <= i < 13 ==> #[trigger] f.colors@[i].1@ == palette@[i]@,
        f.wf(),
{
    let mut colors: Vec<(String, String)> = Vec::new();
    push_pair(&mut colors, "bg-primary", palette[0]);
    push_pair(&mut colors, "bg-secondary", palette[1]);
    push_pair(&mut colors, "bg-surface", palette[2]);
    push_pair(&mut colors, "text-primary", palette[3]);
    push_pair(&mut colors, "text-secondary", palette[4]);
    push_pair(&mut colors, "accent", palette[5]);
    push_pair(&mut colors, "accent-hover", palette[6]);
    push_pair(&mut colors, "border", palette[7]);
    push_pair(&mut colors, "danger", palette[8]);
    push_pair(&mut colors, "success", palette[9]);
    push_pair(&mut colors, "status-working", palette[10]);
    push_pair(&mut colors, "status-waiting", palette[11]);
    push_pair(&mut colors, "status-completed", palette[12]);
    proof {
        assert(color_keys(colors@) =~= builtin_roles());
        lemma_roles_distinct();
        assert forall|i: int, j: int| 0 <= i < j < colors@.len() implies
            (#[trigger] colors@[i]).0@ != (#[trigger] colors@[j]).0@ by {
            assert(colors@[i].0@ == color_keys(colors@)[i]);
            assert(colors@[j].0@ == color_keys(colors@)[j]);
        }
    }
    File { name: owned(name), description: owned(description), theme_type, colors }
}

/// The built-in dark theme ("Dark Theme", catppuccin-mocha colours).
pub fn default_dark_theme() -> (f: File)
    ensures
        f.name@ == "Dark Theme"@,
        f.description@ == "기본 다크 테마"@,
        f.theme_type == ThemeType::Dark,
        color_keys(f.colors@) == builtin_roles(),
        forall|i: int| 0 <= i < 13 ==> #[trigger] f.colors@[i].1@ == dark_colors()[i],
        f.wf(),
{
    let palette: [&str; 13] = [
        "#1e1e2e", "#181825", "#313244", "#cdd6f4", "#a6adc8",
        "#89b4fa", "#74c7ec", "#45475a", "#f38ba8", "#a6e3a1",
        "#22c55e", "#eab308", "#ef4444",
    ];
    let f = builtin_file("Dark Theme", "기본 다크 테마", ThemeType::Dark, palette);
    assert forall|i: int| 0 <= i < 13 implies #[trigger] f.colors@[i].1@ == dark_colors()[i] by {
        assert(palette@[i]@ == dark_colors()[i]);
    }
    f
}

/// The built-in light theme ("Light Theme", catppuccin-latte colours).
pub fn default_light_theme() -> (f: File)
    ensures
        f.name@ == "Light Theme"@,
        f.description@ == "기본 라이트 테마"@,
        f.theme_type == ThemeType::Light,
        color_keys(f.colors@) == builtin_roles(),
        forall|i: int| 0 <= i < 13 ==> #[trigger] f.colors@[i].1@ == light_colors()[i],
        f.wf(),
{
    let palette: [&str; 13] = [
        "#eff1f5", "#e6e9ef", "#ccd0da", "#4c4f69", "#6c6f85",
        "#1e66f5", "#209fb5", "#bcc0cc", "#d20f39", "#40a02b",
        "#40a02b", "#df8e1d", "#d20f39",
    ];
    let f = builtin_file("Light Theme", "기본 라이트 테마", ThemeType::Light, palette);
    assert forall|i: int| 0 <= i < 13 implies #[trigger] f.colors@[i].1@ == light_colors()[i] by {
        assert(palette@[i]@ == light_colors()[i]);
    }
    f
}


/// Rejection message of a theme id, or `None` when it is accepted: it must be
/// non-empty, at most 128 bytes, and hold no path separator, no drive
/// prefix (':') and no "..", so that it cannot lead out of the themes folder.
pub open spec fn theme_id_rejection(id: Seq<char>) -> Option<Seq<char>> {
    if id.len() == 0 {
        Some("Theme ID cannot be empty"@)
    } else if byte_len(id) > MAX_THEME_ID_LENGTH {
        Some("Theme ID must not exceed 128 characters"@)
    } else if has_char(id, '/') || has_char(id, '\\') || has_char(id, ':') || contains_seq(id, ".."@) {
        Some("테마 ID에 경로 구분자를 사용할 수 없습니다"@)
    } else {
        None
    }
}

/// Checks that a theme id cannot name a file outside the themes folder.
pub fn validate_theme_id(theme_id: &str) -> (r: Result<(), AppError>)
    ensures
        outcome_is(r, theme_id_rejection(theme_id@)),
{
    if theme_id.unicode_len() == 0 {
        return Err(AppError::Validation(owned("Theme ID cannot be empty")));
    }
    if theme_id.len() > MAX_THEME_ID_LENGTH {
        return Err(AppError::Validation(owned("Theme ID must not exceed 128 characters")));
    }
    if str_has_char(theme_id, '/') || str_has_char(theme_id, '\\') || str_has_char(theme_id, ':') || str_contains(theme_id, "..") {
        return Err(AppError::Validation(owned("테마 ID에 경로 구분자를 사용할 수 없습니다")));
    }
    Ok(())
}

/// The file name a custom theme is stored under: the id followed by ".json".
pub fn theme_file_name(id: &str) -> (r: String)
    ensures
        r@ == id@ + ".json"@,
{
    concat(id, ".json")
}

/// Where a theme is read from.
#[derive(Debug)]
pub enum ThemeSource {
    /// One of the two built-in themes.
    Builtin(File),
    /// A custom theme stored in the themes folder under this file name.
    Custom(String),
}

/// Where the theme with the given id comes from: the built-in themes for
/// their two ids, otherwise the file named after the id. Rejects ids that
/// `validate_theme_id` rejects.
pub fn resolve_theme(theme_id: &str) -> (r: Result<ThemeSource, AppError>)
    ensures
        outcome_is(r, theme_id_rejection(theme_id@)),
        r matches Ok(ThemeSource::Builtin(f)) ==> f.wf() && (
            (theme_id@ == DEFAULT_DARK_ID@ && f.name@ == "Dark Theme"@ && f.theme_type == ThemeType::Dark)
            || (theme_id@ == DEFAULT_LIGHT_ID@ && f.name@ == "Light Theme"@ && f.theme_type == ThemeType::Light)),
        r matches Ok(ThemeSource::Custom(name)) ==> name@ == theme_id@ + ".json"@
            && theme_id@ != DEFAULT_DARK_ID@ && theme_id@ != DEFAULT_LIGHT_ID@,
        r is Ok ==> ((r matches Ok(ThemeSource::Builtin(_))) <==> (theme_id@ == DEFAULT_DARK_ID@ || theme_id@ == DEFAULT_LIGHT_ID@)),
{
    validate_theme_id(theme_id)?;
    if str_eq(theme_id, DEFAULT_DARK_ID) {
        Ok(ThemeSource::Builtin(default_dark_theme()))
    } else if str_eq(theme_id, DEFAULT_LIGHT_ID) {
        proof {
            reveal_strlit("default-dark");
            reveal_strlit("default-light");
        }
        Ok(ThemeSource::Builtin(default_light_theme()))
    } else {
        Ok(ThemeSource::Custom(theme_file_name(theme_id)))
    }
}

/// Rejection message for writing or deleting a custom theme, or `None`.
pub open spec fn custom_theme_rejection(theme_id: Seq<char>, deleting: bool) -> Option<Seq<char>> {
    if theme_id_rejection(theme_id) is Some {
        theme_id_rejection(theme_id)
    } else if theme_id == DEFAULT_DARK_ID@ || theme_id == DEFAULT_LIGHT_ID@ {
        if deleting {
            Some("기본 테마는 삭제할 수 없습니다"@)
        } else {
            Some("기본 테마는 수정할 수 없습니다"@)
        }
    } else {
        None
    }
}

fn custom_theme_target(theme_id: &str, deleting: bool) -> (r: Result<String, AppError>)
    ensures
        outcome_is(r, custom_theme_rejection(theme_id@, deleting)),
        r matches Ok(name) ==> name@ == theme_id@ + ".json"@,
{
    validate_theme_id(theme_id)?;
    if str_eq(theme_id, DEFAULT_DARK_ID) || str_eq(theme_id, DEFAULT_LIGHT_ID) {
        if deleting {
            return Err(AppError::Validation(owned("기본 테마는 삭제할 수 없습니다")));
        } else {
            return Err(AppError::Validation(owned("기본 테마는 수정할 수 없습니다")));
        }
    }
    Ok(theme_file_name(theme_id))
}

/// The file a custom theme is saved to; the built-in ids cannot be written.
pub fn plan_save_custom_theme(theme_id: &str) -> (r: Result<String, AppError>)
    ensures
        outcome_is(r, custom_theme_rejection(theme_id@, false)),
        r matches Ok(name) ==> name@ == theme_id@ + ".json"@,
{
    custom_theme_target(theme_id, false)
}

/// The file a custom theme is deleted from; the built-in ids cannot be deleted.
pub fn plan_delete_custom_theme(theme_id: &str) -> (r: Result<String, AppError>)
    ensures
        outcome_is(r, custom_theme_rejection(theme_id@, true)),
        r matches Ok(name) ==> name@ == theme_id@ + ".json"@,
{
    custom_theme_target(theme_id, true)
}

/// The list entry of a theme stored under `id`.
pub fn entry_for(id: String, theme: File) -> (e: ListEntry)
    ensures
        e.id == id,
        e.name == theme.name,
        e.theme_type == theme.theme_type,
        e.description == theme.description,
{
    ListEntry { id, name: theme.name, theme_type: theme.theme_type, description: theme.description }
}

/// The theme list: the two built-in themes first (dark, then light), then the
/// custom themes in the order given.
pub fn list_entries(custom: Vec<ListEntry>) -> (r: Vec<ListEntry>)
    ensures
        r@.len() == custom@.len() + 2,
        r@[0].id@ == DEFAULT_DARK_ID@ && r@[0].name@ == "Dark Theme"@ && r@[0].theme_type == ThemeType::Dark,
        r@[1].id@ == DEFAULT_LIGHT_ID@ && r@[1].name@ == "Light Theme"@ && r@[1].theme_type == ThemeType::Light,
        r@.subrange(2, r@.len() as int) == custom@,
{
    let mut r: Vec<ListEntry> = Vec::new();
    r.push(entry_for(owned(DEFAULT_DARK_ID), default_dark_theme()));
    r.push(entry_for(owned(DEFAULT_LIGHT_ID), default_light_theme()));
    let mut rest = custom;
    r.append(&mut rest);
    assert(r@.subrange(2, r@.len() as int) =~= custom@);
    r
}

} // verus!
