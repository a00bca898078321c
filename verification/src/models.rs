//! Data carried between the UI, the store and the services: projects,
//! settings, terminal instances and themes.

use vstd::prelude::*;
use crate::text::{owned, push_char};

verus! {

// ---------------------------------------------------------------------------
// Projects
// ---------------------------------------------------------------------------

/// A registered project: a named folder that terminals are opened in.
#[derive(Debug, Clone)]
pub struct Info {
    pub id: String,
    pub name: String,
    pub path: String,
    pub created_at: String,
    pub sort_order: u32,
}

impl Info {
    /// A copy with the same field values.
    pub fn duplicate(&self) -> (r: Info)
        ensures
            r == *self,
    {
        Info {
            id: self.id.clone(),
            name: self.name.clone(),
            path: self.path.clone(),
            created_at: self.created_at.clone(),
            sort_order: self.sort_order,
        }
    }
}

/// The list of projects, as stored on disk.
#[derive(Debug, Clone)]
pub struct Store {
    pub projects: Vec<Info>,
}

// ---------------------------------------------------------------------------
// Settings
// ---------------------------------------------------------------------------

/// Default interval between reminders, in minutes.
pub const DEFAULT_REMINDER_INTERVAL_MINUTES: u32 = 5;
/// Default number of reminders per idle period.
pub const DEFAULT_REMINDER_MAX_REPEAT: u32 = 3;
/// Default idle threshold, in seconds.
pub const DEFAULT_IDLE_THRESHOLD_SECS: u32 = 30;

/// Reminder behaviour: on or off, the interval, and how often it repeats.
#[derive(Debug, Clone)]
pub struct Reminder {
    pub enabled: bool,
    pub interval_minutes: u32,
    pub max_repeat: u32,
}

impl Reminder {
    /// Reminders on, every 5 minutes, at most 3 times.
    pub fn default() -> (r: Reminder)
        ensures
            r.enabled,
            r.interval_minutes == DEFAULT_REMINDER_INTERVAL_MINUTES,
            r.max_repeat == DEFAULT_REMINDER_MAX_REPEAT,
    {
        Reminder {
            enabled: true,
            interval_minutes: DEFAULT_REMINDER_INTERVAL_MINUTES,
            max_repeat: DEFAULT_REMINDER_MAX_REPEAT,
        }
    }
}

/// Application settings.
#[derive(Debug, Clone)]
pub struct Config {
    pub reminder: Reminder,
    pub idle_threshold_secs: u32,
    pub theme: String,
    pub language: String,
    pub auto_attach_enabled: bool,
    pub always_on_top: bool,
}

impl Config {
    /// The settings used when none are stored: default reminder, 30 second
    /// idle threshold, the dark theme, English, auto-attach on, not on top.
    pub fn default() -> (r: Config)
        ensures
            r.reminder.enabled,
            r.reminder.interval_minutes == DEFAULT_REMINDER_INTERVAL_MINUTES,
            r.reminder.max_repeat == DEFAULT_REMINDER_MAX_REPEAT,
            r.idle_threshold_secs == DEFAULT_IDLE_THRESHOLD_SECS,
            r.theme@ == "default-dark"@,
            r.language@ == "en"@,
            r.auto_attach_enabled,
            !r.always_on_top,
    {
        Config {
            reminder: Reminder::default(),
            idle_threshold_secs: DEFAULT_IDLE_THRESHOLD_SECS,
            theme: owned("default-dark"),
            language: owned("en"),
            auto_attach_enabled: true,
            always_on_top: false,
        }
    }
}

// ---------------------------------------------------------------------------
// Terminals
// ---------------------------------------------------------------------------

/// Lifecycle state of a terminal.
#[derive(Debug, Clone, Copy, PartialEq, Eq, Structural)]
pub enum Status {
    Running,
    Stopped,
}

/// Activity of the session in a terminal.
#[derive(Debug, Clone, Copy, PartialEq, Eq, Structural)]
pub enum Activity {
    /// Work in progress.
    Active,
    /// Waiting for the user.
    Idle,
}

/// Whether notifications are on for a terminal whose stored form does not say.
pub const DEFAULT_NOTIFICATION_ENABLED: bool = true;

/// The value a terminal gets for `notification_enabled` when none is given.
pub fn default_notification_enabled() -> (r: bool)
    ensures
        r == DEFAULT_NOTIFICATION_ENABLED,
{
    DEFAULT_NOTIFICATION_ENABLED
}

/// A terminal session that belongs to a project.
#[derive(Debug, Clone)]
pub struct Instance {
    pub id: String,
    pub project_id: String,
    pub project_name: String,
    pub project_path: String,
    pub terminal_name: String,
    pub status: Status,
    pub launched_at: String,
    pub activity: Activity,
    pub notification_enabled: bool,
    /// Set once the idle marker or a hook event has been seen for this terminal.
    pub monitored: bool,
    /// Set for a tab of an outside window that was attached.
    pub attached: bool,
    /// When the terminal last became idle.
    pub last_idle_at: Option<String>,
}

/// A copy of an optional string with the same value.
pub fn duplicate_opt_string(s: &Option<String>) -> (r: Option<String>)
    ensures
        r == *s,
{
    match s {
        Some(x) => Some(x.clone()),
        None => None,
    }
}

impl Instance {
    /// An empty running, active instance with notifications on.
    pub fn default() -> (r: Instance)
        ensures
            r.id@.len() == 0,
            r.project_id@.len() == 0,
            r.project_name@.len() == 0,
            r.project_path@.len() == 0,
            r.terminal_name@.len() == 0,
            r.launched_at@.len() == 0,
            r.status == Status::Running,
            r.activity == Activity::Active,
            r.notification_enabled == DEFAULT_NOTIFICATION_ENABLED,
            !r.monitored,
            !r.attached,
            r.last_idle_at is None,
    {
        Instance {
            id: String::new(),
            project_id: String::new(),
            project_name: String::new(),
            project_path: String::new(),
            terminal_name: String::new(),
            status: Status::Running,
            launched_at: String::new(),
            activity: Activity::Active,
            notification_enabled: DEFAULT_NOTIFICATION_ENABLED,
            monitored: false,
            attached: false,
            last_idle_at: None,
        }
    }

    /// A copy with the same field values.
    pub fn duplicate(&self) -> (r: Instance)
        ensures
            r == *self,
    {
        Instance {
            id: self.id.clone(),
            project_id: self.project_id.clone(),
            project_name: self.project_name.clone(),
            project_path: self.project_path.clone(),
            terminal_name: self.terminal_name.clone(),
            status: self.status,
            launched_at: self.launched_at.clone(),
            activity: self.activity,
            notification_enabled: self.notification_enabled,
            monitored: self.monitored,
            attached: self.attached,
            last_idle_at: duplicate_opt_string(&self.last_idle_at),
        }
    }
}

/// One tab of an outside terminal window.
#[derive(Debug, Clone)]
pub struct TabInfo {
    pub runtime_id: Vec<i32>,
    pub title: String,
}

/// An outside terminal window and its tabs that are not managed yet.
#[derive(Debug, Clone)]
pub struct ExternalTerminalInfo {
    pub hwnd: isize,
    pub window_title: String,
    pub tabs: Vec<TabInfo>,
    /// Working directories of the shells running in the window.
    pub process_cwds: Vec<String>,
}

/// What the UI is told when a terminal changes activity.
#[derive(Debug, Clone)]
pub struct StatusChangedPayload {
    pub project_path: String,
    pub status: Activity,
    pub terminal_id: String,
    pub monitored: bool,
    pub last_idle_at: Option<String>,
}

} // verus!
