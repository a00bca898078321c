//! Validation of the inputs the UI sends: ids, names, paths, display text,
//! setting strings, the language code and the settings as a whole.

use vstd::prelude::*;
use crate::error::AppError;
use crate::models::{Config, Info};
use crate::text::{
    byte_len, char_alphanumeric, char_control, chars_of, concat, concat3, decimal, is_alphanumeric,
    is_control, owned, str_eq, trim, trim_seq, u64_to_decimal, usize_to_decimal,
};

verus! {

/// Longest accepted id, in bytes.
pub const MAX_ID_LENGTH: usize = 64;
/// Longest accepted project name, in bytes.
pub const MAX_NAME_LENGTH: usize = 255;
/// Longest accepted path, in bytes.
pub const MAX_PATH_LENGTH: usize = 1024;

/// Bounds that settings must respect.
pub const MIN_INTERVAL_MINUTES: u32 = 1;
pub const MAX_INTERVAL_MINUTES: u32 = 60;
pub const MIN_IDLE_THRESHOLD_SECS: u32 = 5;
pub const MAX_IDLE_THRESHOLD_SECS: u32 = 120;
pub const MAX_REMINDER_REPEAT: u32 = 100;
pub const MAX_THEME_LENGTH: usize = 100;

/// `r` is `Ok` exactly when `expected` is `None`, and otherwise a
/// validation error whose text is the expected message.
pub open spec fn outcome_is<T>(r: Result<T, AppError>, expected: Option<Seq<char>>) -> bool {
    match r {
        Ok(_) => expected is None,
        Err(e) => e is Validation && expected == Some(e.spec_text()),
    }
}

/// A character allowed in ids and setting strings.
pub open spec fn id_char(c: char) -> bool {
    char_alphanumeric(c) || c == '-' || c == '_'
}

/// Every character of `s` is allowed in an id.
pub open spec fn all_id_chars(s: Seq<char>) -> bool {
    forall|i: int| 0 <= i < s.len() ==> id_char(#[trigger] s[i])
}

/// Whether every character of `s` is allowed in an id.
pub fn check_id_chars(s: &str) -> (r: bool)
    ensures
        r == all_id_chars(s@),
{
    let v = chars_of(s);
    let mut i: usize = 0;
    while i < v.len()
        invariant
            v@ == s@,
            i <= v@.len(),
            forall|j: int| 0 <= j < i ==> id_char(#[trigger] s@[j]),
        decreases v@.len() - i,
    {
        let c = v[i];
        if !(is_alphanumeric(c) || c == '-' || c == '_') {
            return false;
        }
        i = i + 1;
    }
    true
}

/// Rejection message of a setting-like string (non-empty, at most
/// `max_len` bytes, id characters only), or `None` when it is accepted.
pub open spec fn setting_string_rejection(value: Seq<char>, field: Seq<char>, max_len: nat) -> Option<Seq<char>> {
    if value.len() == 0 {
        Some(field + "은(는) 비어 있을 수 없습니다"@)
    } else if byte_len(value) > max_len {
        Some(field + "이(가) 너무 깁니다 (최대 "@ + decimal(max_len) + "자)"@)
    } else if !all_id_chars(value) {
        Some(field + "에 허용되지 않는 문자가 포함되어 있습니다. 영숫자, '-', '_'만 사용할 수 있습니다"@)
    } else {
        None
    }
}

/// Checks that an id is non-empty, at most `MAX_ID_LENGTH` bytes long and made
/// of letters, digits, '-' and '_' only.
pub fn validate_id(id: &str, field_name: &str) -> (r: Result<(), AppError>)
    ensures
        outcome_is(r, setting_string_rejection(id@, field_name@, MAX_ID_LENGTH as nat)),
{
    validate_setting_string(id, field_name, MAX_ID_LENGTH)
}

/// Checks a setting string (theme, language, ...): non-empty, at most
/// `max_length` bytes, letters, digits, '-' and '_' only.
pub fn validate_setting_string(value: &str, field_name: &str, max_length: usize) -> (r: Result<(), AppError>)
    ensures
        outcome_is(r, setting_string_rejection(value@, field_name@, max_length as nat)),
{
    if value.unicode_len() == 0 {
        return Err(AppError::Validation(concat(field_name, "은(는) 비어 있을 수 없습니다")));
    }
    if value.len() > max_length {
        let n = usize_to_decimal(max_length);
        let head = concat(field_name, "이(가) 너무 깁니다 (최대 ");
        let msg = concat3(head.as_str(), n.as_str(), "자)");
        return Err(AppError::Validation(msg));
    }
    if !check_id_chars(value) {
        return Err(AppError::Validation(concat(
            field_name,
            "에 허용되지 않는 문자가 포함되어 있습니다. 영숫자, '-', '_'만 사용할 수 있습니다",
        )));
    }
    Ok(())
}

/// Rejection message for a name once trimmed, or `None`.
pub open spec fn name_rejection(trimmed: Seq<char>, field: Seq<char>, max_len: nat) -> Option<Seq<char>> {
    if trimmed.len() == 0 {
        Some(field + "을(를) 입력해주세요"@)
    } else if byte_len(trimmed) > max_len {
        Some(field + "은(는) "@ + decimal(max_len) + "자 이하여야 합니다"@)
    } else {
        None
    }
}

/// Trims a name and checks that what is left is non-empty and at most
/// `max_length` bytes; returns the trimmed name.
pub fn validate_name(name: &str, field_name: &str, max_length: usize) -> (r: Result<String, AppError>)
    ensures
        outcome_is(r, name_rejection(trim_seq(name@), field_name@, max_length as nat)),
        r matches Ok(s) ==> s@ == trim_seq(name@),
{
    let trimmed = trim(name);
    if trimmed.as_str().unicode_len() == 0 {
        return Err(AppError::Validation(concat(field_name, "을(를) 입력해주세요")));
    }
    if trimmed.as_str().len() > max_length {
        let n = usize_to_decimal(max_length);
        let head = concat(field_name, "은(는) ");
        let msg = concat3(head.as_str(), n.as_str(), "자 이하여야 합니다");
        return Err(AppError::Validation(msg));
    }
    Ok(trimmed)
}

/// Rejection message for a path once trimmed, or `None`.
pub open spec fn path_rejection(trimmed: Seq<char>) -> Option<Seq<char>> {
    if trimmed.len() == 0 {
        Some("경로를 입력해주세요"@)
    } else if byte_len(trimmed) > MAX_PATH_LENGTH {
        Some("경로는 "@ + decimal(MAX_PATH_LENGTH as nat) + "자 이하여야 합니다"@)
    } else {
        None
    }
}

/// Trims a path and checks that it is non-empty and at most
/// `MAX_PATH_LENGTH` bytes; returns the trimmed path. Whether the directory
/// exists is for the caller to check.
pub fn validate_path(path: &str) -> (r: Result<String, AppError>)
    ensures
        outcome_is(r, path_rejection(trim_seq(path@))),
        r matches Ok(s) ==> s@ == trim_seq(path@),
{
    let trimmed = trim(path);
    if trimmed.as_str().unicode_len() == 0 {
        return Err(AppError::Validation(owned("경로를 입력해주세요")));
    }
    if trimmed.as_str().len() > MAX_PATH_LENGTH {
        let n = usize_to_decimal(MAX_PATH_LENGTH);
        let msg = concat3("경로는 ", n.as_str(), "자 이하여야 합니다");
        return Err(AppError::Validation(msg));
    }
    Ok(trimmed)
}

/// `s` holds a control character.
pub open spec fn has_control(s: Seq<char>) -> bool {
    exists|i: int| 0 <= i < s.len() && char_control(#[trigger] s[i])
}

/// Checks that display text (terminal names, tab titles) holds no control
/// character.
pub fn validate_text_chars(text: &str, field_name: &str) -> (r: Result<(), AppError>)
    ensures
        outcome_is(
            r,
            if has_control(text@) {
                Some(field_name@ + "에 허용되지 않는 제어 문자가 포함되어 있습니다"@)
            } else {
                None
            },
        ),
{
    let v = chars_of(text);
    let mut i: usize = 0;
    while i < v.len()
        invariant
            v@ == text@,
            i <= v@.len(),
            forall|j: int| 0 <= j < i ==> !char_control(#[trigger] text@[j]),
        decreases v@.len() - i,
    {
        if is_control(v[i]) {
            return Err(AppError::Validation(concat(field_name, "에 허용되지 않는 제어 문자가 포함되어 있습니다")));
        }
        i = i + 1;
    }
    Ok(())
}

/// The language codes the UI is translated into.
pub open spec fn supported_language(lang: Seq<char>) -> bool {
    lang == "en"@ || lang == "ko"@
}

/// Checks that a language code is one of the supported locales ("en", "ko").
pub fn validate_language(lang: &str) -> (r: Result<(), AppError>)
    ensures
        outcome_is(
            r,
            if supported_language(lang@) {
                None
            } else {
                Some("지원되지 않는 언어입니다: '"@ + lang@ + "'. 지원 언어: en, ko"@)
            },
        ),
{
    if str_eq(lang, "en") || str_eq(lang, "ko") {
        return Ok(());
    }
    Err(AppError::Validation(concat3("지원되지 않는 언어입니다: '", lang, "'. 지원 언어: en, ko")))
}

/// The first project with the given id, or `ProjectNotFound` with the id.
pub fn find_project_by_id(projects: &Vec<Info>, id: &str) -> (r: Result<Info, AppError>)
    ensures
        r matches Ok(p) ==> exists|i: int|
            0 <= i < projects@.len() && p == projects@[i] && p.id@ == id@
                && forall|j: int| 0 <= j < i ==> (#[trigger] projects@[j]).id@ != id@,
        r matches Err(e) ==> e matches AppError::ProjectNotFound(m) && m@ == id@
            && forall|j: int| 0 <= j < projects@.len() ==> (#[trigger] projects@[j]).id@ != id@,
        r is Err <==> forall|j: int| 0 <= j < projects@.len() ==> (#[trigger] projects@[j]).id@ != id@,
{
    let mut i: usize = 0;
    while i < projects.len()
        invariant
            i <= projects@.len(),
            forall|j: int| 0 <= j < i ==> (#[trigger] projects@[j]).id@ != id@,
        decreases projects@.len() - i,
    {
        if str_eq(projects[i].id.as_str(), id) {
            return Ok(projects[i].duplicate());
        }
        i = i + 1;
    }
    Err(AppError::ProjectNotFound(owned(id)))
}

/// Rejection message for settings sent by the UI, or `None` when they may be saved.
pub open spec fn settings_rejection(s: Config) -> Option<Seq<char>> {
    if s.reminder.interval_minutes < MIN_INTERVAL_MINUTES || s.reminder.interval_minutes > MAX_INTERVAL_MINUTES {
        Some("interval_minutes must be between 1 and 60, got "@ + decimal(s.reminder.interval_minutes as nat))
    } else if s.idle_threshold_secs < MIN_IDLE_THRESHOLD_SECS || s.idle_threshold_secs > MAX_IDLE_THRESHOLD_SECS {
        Some("idle_threshold_secs must be between 5 and 120, got "@ + decimal(s.idle_threshold_secs as nat))
    } else if s.reminder.max_repeat > MAX_REMINDER_REPEAT {
        Some("max_repeat must be between 0 and 100, got "@ + decimal(s.reminder.max_repeat as nat))
    } else if setting_string_rejection(s.theme@, "theme"@, MAX_THEME_LENGTH as nat) is Some {
        setting_string_rejection(s.theme@, "theme"@, MAX_THEME_LENGTH as nat)
    } else if !supported_language(s.language@) {
        Some("지원되지 않는 언어입니다: '"@ + s.language@ + "'. 지원 언어: en, ko"@)
    } else {
        None
    }
}

/// Checks settings before they are saved: reminder interval 1..=60 minutes,
/// idle threshold 5..=120 seconds, at most 100 repeats, a well-formed theme
/// id of at most 100 bytes and a supported language.
pub fn validate_settings(settings: &Config) -> (r: Result<(), AppError>)
    ensures
        outcome_is(r, settings_rejection(*settings)),
{
    let iv = settings.reminder.interval_minutes;
    if iv < MIN_INTERVAL_MINUTES || iv > MAX_INTERVAL_MINUTES {
        let n = u64_to_decimal(iv as u64);
        return Err(AppError::Validation(concat("interval_minutes must be between 1 and 60, got ", n.as_str())));
    }
    let idle = settings.idle_threshold_secs;
    if idle < MIN_IDLE_THRESHOLD_SECS || idle > MAX_IDLE_THRESHOLD_SECS {
        let n = u64_to_decimal(idle as u64);
        return Err(AppError::Validation(concat("idle_threshold_secs must be between 5 and 120, got ", n.as_str())));
    }
    let rep = settings.reminder.max_repeat;
    if rep > MAX_REMINDER_REPEAT {
        let n = u64_to_decimal(rep as u64);
        return Err(AppError::Validation(concat("max_repeat must be between 0 and 100, got ", n.as_str())));
    }
    validate_setting_string(settings.theme.as_str(), "theme", MAX_THEME_LENGTH)?;
    validate_language(settings.language.as_str())?;
    Ok(())
}

} // verus!
