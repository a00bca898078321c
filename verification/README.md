# termi

Termi is a desktop companion for Windows Terminal: it keeps a list of
projects, opens and attaches terminal tabs per project, watches each tab's
title and the coding agent's hook events to tell when the agent is working
or waiting, and notifies (and reminds) when a tab goes idle.

Layout:

- `src/` — the verified library (Verus). Input validation, the project list
  and its ordering, settings and themes, hook registration in the agent's
  settings, the terminal registry with its hook- and title-driven state
  machine and tab-order tracking, attaching outside tabs, reminders,
  notifications, the debug log, Windows Terminal settings edits and the
  process-tree walk. Every public function has a contract; the laws
  (`law_*`) state what holds across calls.
- `tests/` — tests of the library on concrete values.
- `app/` — the Tauri program around the library: commands, files, Win32 and
  UI Automation calls, the watch loop, the hook event folder, toasts and
  reminder timers.
