//! The application's error type, shared by every command.

use vstd::prelude::*;

verus! {

/// Errors returned by the application's commands. Each carries its message.
#[derive(Debug)]
pub enum AppError {
    /// A file or process operation failed.
    Io(String),
    /// A JSON document could not be read or written.
    Json(String),
    /// No project has the given id.
    ProjectNotFound(String),
    /// An input was rejected.
    Validation(String),
    /// A terminal operation failed.
    Terminal(String),
    /// A notification could not be shown.
    Notification(String),
}

impl AppError {
    /// The user-facing text of the error (what its `Display` form shows).
    pub open spec fn spec_text(&self) -> Seq<char> {
        match self {
            AppError::Io(m) => "IO 에러: "@ + m@,
            AppError::Json(m) => "JSON 파싱 에러: "@ + m@,
            AppError::ProjectNotFound(m) => "프로젝트를 찾을 수 없음: "@ + m@,
            AppError::Validation(m) => m@,
            AppError::Terminal(m) => "터미널 에러: "@ + m@,
            AppError::Notification(m) => "알림 에러: "@ + m@,
        }
    }

    /// The user-facing text of the error.
    pub fn text(&self) -> (r: String)
        ensures
            r@ == self.spec_text(),
    {
        match self {
            AppError::Io(m) => crate::text::concat("IO 에러: ", m.as_str()),
            AppError::Json(m) => crate::text::concat("JSON 파싱 에러: ", m.as_str()),
            AppError::ProjectNotFound(m) => crate::text::concat("프로젝트를 찾을 수 없음: ", m.as_str()),
            AppError::Validation(m) => crate::text::owned(m.as_str()),
            AppError::Terminal(m) => crate::text::concat("터미널 에러: ", m.as_str()),
            AppError::Notification(m) => crate::text::concat("알림 에러: ", m.as_str()),
        }
    }
}

} // verus!
