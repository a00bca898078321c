use termi::error::AppError;
use termi::models::{default_notification_enabled, Activity, Config, Instance, Reminder as ReminderSettings, Status};
use termi::notifier::{notification_message, Notifier};
use termi::theme::{
    default_dark_theme, default_light_theme, list_entries, plan_delete_custom_theme, plan_save_custom_theme,
    resolve_theme, theme_file_name, validate_theme_id, ThemeSource, ThemeType,
};

const COLOR_KEYS: [&str; 13] = [
    "bg-primary", "bg-secondary", "bg-surface",
    "text-primary", "text-secondary",
    "accent", "accent-hover", "border",
    "danger", "success",
    "status-working", "status-waiting", "status-completed",
];

#[test]
fn default_dark_theme_has_correct_name_and_type() {
    let theme = default_dark_theme();
    assert_eq!(theme.name, "Dark Theme");
    assert!(matches!(theme.theme_type, ThemeType::Dark));
}

#[test]
fn default_dark_theme_has_all_color_keys() {
    let theme = default_dark_theme();
    for key in COLOR_KEYS {
        assert!(theme.contains_color(key), "missing key: {}", key);
    }
}

#[test]
fn default_light_theme_has_correct_name_and_type() {
    let theme = default_light_theme();
    assert_eq!(theme.name, "Light Theme");
    assert!(matches!(theme.theme_type, ThemeType::Light));
}

#[test]
fn default_light_theme_has_all_color_keys() {
    let theme = default_light_theme();
    for key in COLOR_KEYS {
        assert!(theme.contains_color(key), "missing key: {}", key);
    }
}

#[test]
fn default_dark_and_light_themes_have_different_colors() {
    let dark = default_dark_theme();
    let light = default_light_theme();
    assert_ne!(dark.color("bg-primary"), light.color("bg-primary"));
}

#[test]
fn validate_theme_id_rejects_path_traversal() {
    assert!(validate_theme_id("../etc/passwd").is_err());
    assert!(validate_theme_id("..\\windows\\system32").is_err());
    assert!(validate_theme_id("foo/bar").is_err());
    assert!(validate_theme_id("foo\\bar").is_err());
    assert!(validate_theme_id("valid-theme").is_ok());
    assert!(validate_theme_id("my_theme.v2").is_ok());
    assert!(validate_theme_id("C:x").is_err());
}

#[test]
fn validate_theme_id_rejects_empty_and_long_ids() {
    match validate_theme_id("") {
        Err(AppError::Validation(m)) => assert_eq!(m, "Theme ID cannot be empty"),
        _ => panic!("expected a validation error"),
    }
    match validate_theme_id(&"a".repeat(129)) {
        Err(AppError::Validation(m)) => assert_eq!(m, "Theme ID must not exceed 128 characters"),
        _ => panic!("expected a validation error"),
    }
    assert!(validate_theme_id(&"a".repeat(128)).is_ok());
}

#[test]
fn theme_file_name_appends_json() {
    assert_eq!(theme_file_name("tokyo-night"), "tokyo-night.json");
}

#[test]
fn load_theme_returns_default_dark() {
    match resolve_theme("default-dark").unwrap() {
        ThemeSource::Builtin(theme) => {
            assert_eq!(theme.name, "Dark Theme");
            assert!(matches!(theme.theme_type, ThemeType::Dark));
            assert!(!theme.colors.is_empty());
        }
        ThemeSource::Custom(_) => panic!("expected the built-in theme"),
    }
}

#[test]
fn load_theme_returns_default_light() {
    match resolve_theme("default-light").unwrap() {
        ThemeSource::Builtin(theme) => {
            assert_eq!(theme.name, "Light Theme");
            assert!(matches!(theme.theme_type, ThemeType::Light));
        }
        ThemeSource::Custom(_) => panic!("expected the built-in theme"),
    }
}

#[test]
fn resolve_theme_names_the_custom_file() {
    match resolve_theme("my-theme").unwrap() {
        ThemeSource::Custom(file) => assert_eq!(file, "my-theme.json"),
        ThemeSource::Builtin(_) => panic!("expected a custom theme"),
    }
    assert!(resolve_theme("../x").is_err());
}

#[test]
fn save_custom_theme_rejects_default_ids() {
    assert!(plan_save_custom_theme("default-dark").is_err());
    assert!(plan_save_custom_theme("default-light").is_err());
    assert_eq!(plan_save_custom_theme("my-theme").unwrap(), "my-theme.json");
}

#[test]
fn delete_custom_theme_rejects_default_ids() {
    assert!(plan_delete_custom_theme("default-dark").is_err());
    assert!(plan_delete_custom_theme("default-light").is_err());
    match plan_delete_custom_theme("default-dark") {
        Err(AppError::Validation(m)) => assert_eq!(m, "기본 테마는 삭제할 수 없습니다"),
        _ => panic!("expected a validation error"),
    }
    assert_eq!(plan_delete_custom_theme("old").unwrap(), "old.json");
}

#[test]
fn list_themes_returns_two_defaults_when_dir_missing() {
    let entries = list_entries(vec![]);
    assert_eq!(entries.len(), 2);
    assert_eq!(entries[0].id, "default-dark");
    assert_eq!(entries[1].id, "default-light");
}

#[test]
fn notification_message_returns_none_for_active_status() {
    let result = notification_message("my-project", "터미널 1", &Activity::Active, "ko");
    assert!(result.is_none());
}

#[test]
fn notification_message_returns_korean_body_for_ko() {
    let result = notification_message("my-project", "터미널 1", &Activity::Idle, "ko");
    assert!(result.is_some());
    let (title, body) = result.unwrap();
    assert_eq!(title, "my-project - 터미널 1");
    assert_eq!(body, "작업이 끝났습니다!");
}

#[test]
fn notification_message_returns_english_body_for_en() {
    let (_, body) = notification_message("my-project", "Terminal 1", &Activity::Idle, "en").unwrap();
    assert_eq!(body, "Task completed!");
}

#[test]
fn notification_message_title_includes_project_name() {
    let (title, _) = notification_message("테스트-프로젝트", "터미널 1", &Activity::Idle, "ko").unwrap();
    assert_eq!(title, "테스트-프로젝트 - 터미널 1");
}

#[test]
fn notifier_tracks_pending_notifications_until_acknowledged() {
    let mut n = Notifier::new("en");
    assert!(!n.is_pending("t1"));
    n.mark_pending("t1");
    n.mark_pending("t2");
    assert!(n.is_pending("t1"));
    n.acknowledge("t1");
    assert!(!n.is_pending("t1"));
    assert!(n.is_pending("t2"));
    n.set_language("ko");
    assert_eq!(n.language(), "ko");
    let (_, body) = n.message_for("p", "t", &Activity::Idle).unwrap();
    assert_eq!(body, "작업이 끝났습니다!");
}

#[test]
fn project_not_found_displays_id() {
    let app_err = AppError::ProjectNotFound("abc-123".to_string());
    assert!(app_err.text().contains("abc-123"));
}

#[test]
fn io_error_displays_message() {
    let app_err = AppError::Io("file missing".to_string());
    assert!(app_err.text().contains("file missing"));
    assert_eq!(app_err.text(), "IO 에러: file missing");
}

#[test]
fn default_settings_has_reminder_enabled() {
    let settings = Config::default();
    assert!(settings.reminder.enabled);
}

#[test]
fn default_settings_has_5_minute_interval() {
    let settings = Config::default();
    assert_eq!(settings.reminder.interval_minutes, 5);
}

#[test]
fn default_settings_has_30_second_idle_threshold() {
    let settings = Config::default();
    assert_eq!(settings.idle_threshold_secs, 30);
}

#[test]
fn default_settings_has_default_dark_theme() {
    let settings = Config::default();
    assert_eq!(settings.theme, "default-dark");
}

#[test]
fn default_settings_has_en_language() {
    let settings = Config::default();
    assert_eq!(settings.language, "en");
}

#[test]
fn default_settings_has_auto_attach_enabled_true() {
    let settings = Config::default();
    assert!(settings.auto_attach_enabled);
}

#[test]
fn default_settings_has_always_on_top_false() {
    let settings = Config::default();
    assert!(!settings.always_on_top);
}

#[test]
fn default_reminder_settings() {
    let r = ReminderSettings::default();
    assert!(r.enabled);
    assert_eq!(r.interval_minutes, 5);
    assert_eq!(r.max_repeat, 3);
}

#[test]
fn default_instance_is_running_active_and_notified() {
    let i = Instance::default();
    assert_eq!(i.status, Status::Running);
    assert_eq!(i.activity, Activity::Active);
    assert!(i.notification_enabled);
    assert!(default_notification_enabled());
    assert!(!i.monitored);
    assert!(i.last_idle_at.is_none());
}
