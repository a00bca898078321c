//! Verified core of Termi, a desktop companion that launches, tracks and
//! watches Windows Terminal tabs per project and notifies when the coding
//! agent running in a tab goes idle.
//!
//! The modules here hold the decisions of the application: input validation,
//! project ordering, theme and settings rules, agent hook registration,
//! the terminal registry with its hook and title-based state machine, the
//! reminder registry and the in-memory debug log. Window handling, process
//! spawning, file I/O and the UI bridge live outside this crate.

pub mod text;
pub mod error;
pub mod models;
pub mod validation;
pub mod theme;
pub mod notifier;
pub mod hooks;
pub mod store;
pub mod terminals;
pub mod attach;
pub mod monitor;
pub mod debug_log;
pub mod reminder;
pub mod wt_settings;
pub mod projects;
pub mod commands;
pub mod processes;

use vstd::prelude::*;

verus! {

} // verus!
