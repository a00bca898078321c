use std::path::Path;

use termi::error::AppError;
use termi::models::{Info, Store};
use termi::projects::{add_project, delete_project, update_project};
use termi::store::next_sort_order;
use termi::text::trim;
use termi::validation::{
    find_project_by_id, validate_id, validate_language, validate_name, validate_path, validate_setting_string,
    validate_text_chars, MAX_ID_LENGTH, MAX_PATH_LENGTH,
};

fn project(id: &str, name: &str, path: &str, created_at: &str, sort_order: u32) -> Info {
    Info {
        id: id.to_string(),
        name: name.to_string(),
        path: path.to_string(),
        created_at: created_at.to_string(),
        sort_order,
    }
}

#[test]
fn validation_rejects_empty_name() {
    let name = trim("   ");
    assert!(name.is_empty());
}

#[test]
fn validation_accepts_valid_name() {
    let name = trim(" My Project ");
    assert!(!name.is_empty());
    assert_eq!(name, "My Project");
}

#[test]
fn validation_rejects_nonexistent_path() {
    let path = Path::new("/nonexistent/path/12345");
    assert!(!path.is_dir());
    let mut store = Store { projects: vec![] };
    let r = add_project(&mut store, "p", "/nonexistent/path/12345", |p: &str| Path::new(p).is_dir());
    assert!(matches!(r, Err(AppError::Validation(_))));
    assert!(store.projects.is_empty());
}

#[test]
fn validation_accepts_existing_directory() {
    let path = Path::new(".");
    assert!(path.is_dir());
    let mut store = Store { projects: vec![] };
    let r = add_project(&mut store, "p", ".", |p: &str| Path::new(p).is_dir());
    assert!(r.is_ok());
    assert_eq!(store.projects.len(), 1);
}

#[test]
fn validate_id_accepts_valid_input() {
    assert!(validate_id("abc-123_XYZ", "id").is_ok());
}

#[test]
fn validate_id_rejects_empty_input() {
    let err = validate_id("", "id").unwrap_err();
    assert!(matches!(err, AppError::Validation(_)));
}

#[test]
fn validate_id_rejects_too_long_input() {
    let long = "a".repeat(MAX_ID_LENGTH + 1);
    let err = validate_id(&long, "id").unwrap_err();
    assert!(matches!(err, AppError::Validation(_)));
}

#[test]
fn validate_id_rejects_invalid_characters() {
    let err = validate_id("bad id!", "id").unwrap_err();
    assert!(matches!(err, AppError::Validation(_)));
}

#[test]
fn validate_name_trims_and_accepts_valid_input() {
    let result = validate_name(" My Project ", "프로젝트 이름", 255).unwrap();
    assert_eq!(result, "My Project");
}

#[test]
fn validate_name_rejects_empty_input() {
    let err = validate_name("   ", "프로젝트 이름", 255).unwrap_err();
    assert!(matches!(err, AppError::Validation(_)));
}

#[test]
fn validate_name_rejects_too_long_input() {
    let long = "a".repeat(256);
    let err = validate_name(&long, "프로젝트 이름", 255).unwrap_err();
    assert!(matches!(err, AppError::Validation(_)));
}

#[test]
fn validate_path_trims_and_accepts_valid_input() {
    let result = validate_path(" C:\\projects\\test ").unwrap();
    assert_eq!(result, "C:\\projects\\test");
}

#[test]
fn validate_path_rejects_empty_input() {
    let err = validate_path("").unwrap_err();
    assert!(matches!(err, AppError::Validation(_)));
}

#[test]
fn validate_path_rejects_too_long_input() {
    let long = "a".repeat(MAX_PATH_LENGTH + 1);
    let err = validate_path(&long).unwrap_err();
    assert!(matches!(err, AppError::Validation(_)));
}

#[test]
fn find_project_by_id_returns_matching_project() {
    let projects = vec![project("p1", "Project 1", "/path/1", "2026-01-01T00:00:00Z", 0)];
    let result = find_project_by_id(&projects, "p1").unwrap();
    assert_eq!(result.name, "Project 1");
}

#[test]
fn find_project_by_id_returns_error_for_missing_id() {
    let projects: Vec<Info> = vec![];
    let err = find_project_by_id(&projects, "nonexistent").unwrap_err();
    assert!(matches!(err, AppError::ProjectNotFound(_)));
}

#[test]
fn find_project_by_id_takes_the_first_match() {
    let projects = vec![
        project("p1", "First", "/a", "t", 0),
        project("p1", "Second", "/b", "t", 1),
    ];
    assert_eq!(find_project_by_id(&projects, "p1").unwrap().name, "First");
    match find_project_by_id(&projects, "p9") {
        Err(AppError::ProjectNotFound(id)) => assert_eq!(id, "p9"),
        _ => panic!("expected ProjectNotFound"),
    }
}

#[test]
fn validation_messages_are_exact() {
    match validate_id("", "id") {
        Err(AppError::Validation(m)) => assert_eq!(m, "id은(는) 비어 있을 수 없습니다"),
        _ => panic!("expected a validation error"),
    }
    match validate_setting_string("abcdef", "theme", 5) {
        Err(AppError::Validation(m)) => assert_eq!(m, "theme이(가) 너무 깁니다 (최대 5자)"),
        _ => panic!("expected a validation error"),
    }
    match validate_setting_string("a b", "theme", 5) {
        Err(AppError::Validation(m)) => {
            assert_eq!(m, "theme에 허용되지 않는 문자가 포함되어 있습니다. 영숫자, '-', '_'만 사용할 수 있습니다")
        }
        _ => panic!("expected a validation error"),
    }
    match validate_name("   ", "프로젝트 이름", 255) {
        Err(AppError::Validation(m)) => assert_eq!(m, "프로젝트 이름을(를) 입력해주세요"),
        _ => panic!("expected a validation error"),
    }
    match validate_name("abcd", "이름", 3) {
        Err(AppError::Validation(m)) => assert_eq!(m, "이름은(는) 3자 이하여야 합니다"),
        _ => panic!("expected a validation error"),
    }
    match validate_path("  ") {
        Err(AppError::Validation(m)) => assert_eq!(m, "경로를 입력해주세요"),
        _ => panic!("expected a validation error"),
    }
    match validate_path(&"a".repeat(MAX_PATH_LENGTH + 1)) {
        Err(AppError::Validation(m)) => assert_eq!(m, "경로는 1024자 이하여야 합니다"),
        _ => panic!("expected a validation error"),
    }
}

#[test]
fn validate_text_chars_rejects_control_characters() {
    assert!(validate_text_chars("Terminal 1", "name").is_ok());
    match validate_text_chars("bad\u{7}name", "name") {
        Err(AppError::Validation(m)) => assert_eq!(m, "name에 허용되지 않는 제어 문자가 포함되어 있습니다"),
        _ => panic!("expected a validation error"),
    }
}

#[test]
fn validate_language_accepts_en_and_ko_only() {
    assert!(validate_language("en").is_ok());
    assert!(validate_language("ko").is_ok());
    match validate_language("fr") {
        Err(AppError::Validation(m)) => assert_eq!(m, "지원되지 않는 언어입니다: 'fr'. 지원 언어: en, ko"),
        _ => panic!("expected a validation error"),
    }
}

#[test]
fn next_sort_order_returns_zero_for_empty_projects() {
    let data = Store { projects: vec![] };
    assert_eq!(next_sort_order(&data), 0);
}

#[test]
fn next_sort_order_returns_max_plus_one() {
    let data = Store {
        projects: vec![
            project("1", "A", "/a", "2026-01-01", 2),
            project("2", "B", "/b", "2026-01-02", 5),
        ],
    };
    assert_eq!(next_sort_order(&data), 6);
}

#[test]
fn add_project_trims_and_numbers_the_project() {
    let mut store = Store { projects: vec![project("1", "A", "/a", "t", 4)] };
    let p = add_project(&mut store, "  New  ", " . ", |_: &str| true).unwrap();
    assert_eq!(p.name, "New");
    assert_eq!(p.path, ".");
    assert_eq!(p.sort_order, 5);
    assert_eq!(p.id.len(), 36);
    assert!(p.created_at.ends_with('Z'));
    assert_eq!(store.projects.len(), 2);
    assert_eq!(store.projects[1].id, p.id);
}

#[test]
fn add_project_rejects_a_path_that_is_not_a_folder() {
    let mut store = Store { projects: vec![] };
    match add_project(&mut store, "x", "/tmp", |_: &str| false) {
        Err(AppError::Validation(m)) => assert_eq!(m, "유효하지 않은 폴더 경로입니다"),
        _ => panic!("expected a validation error"),
    }
    assert!(store.projects.is_empty());
}

#[test]
fn update_project_changes_name_and_path_only() {
    let mut store = Store { projects: vec![project("p1", "Old", "/old", "t0", 3)] };
    let p = update_project(&mut store, "p1", " New ", " /new ", |_: &str| true).unwrap();
    assert_eq!(p.name, "New");
    assert_eq!(p.path, "/new");
    assert_eq!(p.created_at, "t0");
    assert_eq!(p.sort_order, 3);
    assert_eq!(store.projects[0].name, "New");
    match update_project(&mut store, "p2", "N", "/n", |_: &str| true) {
        Err(AppError::ProjectNotFound(id)) => assert_eq!(id, "p2"),
        _ => panic!("expected ProjectNotFound"),
    }
}

#[test]
fn delete_project_removes_matching_ids() {
    let mut store = Store {
        projects: vec![project("p1", "A", "/a", "t", 0), project("p2", "B", "/b", "t", 1)],
    };
    assert!(delete_project(&mut store, "p1").unwrap());
    assert_eq!(store.projects.len(), 1);
    assert_eq!(store.projects[0].id, "p2");
    match delete_project(&mut store, "p1") {
        Err(AppError::ProjectNotFound(id)) => assert_eq!(id, "p1"),
        _ => panic!("expected ProjectNotFound"),
    }
    assert!(matches!(delete_project(&mut store, "bad id"), Err(AppError::Validation(_))));
}
