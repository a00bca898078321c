//! An in-memory debug log that keeps the most recent entries.

use std::collections::VecDeque;
use vstd::prelude::*;

verus! {

/// Reads the system clock as milliseconds since the Unix epoch (0 when the
/// clock is before the epoch), through `std::time::SystemTime`. Nothing is
/// claimed of the value: it depends on the clock.
#[verifier::external_body]
pub fn timestamp_millis() -> (r: u64) {
    std::time::SystemTime::now()
        .duration_since(std::time::UNIX_EPOCH)
        .unwrap_or(std::time::Duration::ZERO)
        .as_millis() as u64
}

/// Most entries the log keeps; older ones are dropped first.
pub const MAX_LOG_ENTRIES: usize = 1000;

/// One log entry.
#[derive(Debug, Clone)]
pub struct LogEntry {
    /// Unix time in milliseconds.
    pub timestamp: u64,
    /// What part of the application wrote it.
    pub category: String,
    pub message: String,
}

/// An entry as plain values: time, category, message.
pub type EntryView = (u64, Seq<char>, Seq<char>);

pub open spec fn entry_view(e: LogEntry) -> EntryView {
    (e.timestamp, e.category@, e.message@)
}

pub open spec fn entries_view(v: Seq<LogEntry>) -> Seq<EntryView> {
    v.map_values(|e: LogEntry| entry_view(e))
}

/// The log after appending `e`: the oldest entry goes first when the log
/// is full.
pub open spec fn appended(log: Seq<EntryView>, e: EntryView) -> Seq<EntryView> {
    if log.len() >= MAX_LOG_ENTRIES {
        log.drop_first().push(e)
    } else {
        log.push(e)
    }
}

/// A ring buffer of at most `MAX_LOG_ENTRIES` entries, oldest first.
pub struct DebugLog {
    entries: VecDeque<LogEntry>,
}

impl DebugLog {
    /// The entries, oldest first.
    pub closed spec fn spec_entries(&self) -> Seq<EntryView> {
        entries_view(self.entries@)
    }

    /// The log holds at most `MAX_LOG_ENTRIES` entries.
    pub open spec fn wf(&self) -> bool {
        self.spec_entries().len() <= MAX_LOG_ENTRIES
    }

    /// An empty log.
    pub fn new() -> (log: DebugLog)
        ensures
            log.wf(),
            log.spec_entries() == Seq::<EntryView>::empty(),
    {
        let log = DebugLog { entries: VecDeque::with_capacity(MAX_LOG_ENTRIES) };
        assert(log.spec_entries() =~= Seq::<EntryView>::empty());
        log
    }

    /// An empty log, for tests.
    pub fn new_for_test() -> (log: DebugLog)
        ensures
            log.wf(),
            log.spec_entries() == Seq::<EntryView>::empty(),
    {
        DebugLog::new()
    }

    /// Appends an entry written at `timestamp`, dropping the oldest entry
    /// when the log is full.
    pub fn push_at(&mut self, category: &str, message: String, timestamp: u64)
        requires
            old(self).wf(),
        ensures
            final(self).wf(),
            final(self).spec_entries() == appended(old(self).spec_entries(), (timestamp, category@, message@)),
    {
        let ghost before = self.entries@;
        if self.entries.len() >= MAX_LOG_ENTRIES {
            let _dropped = self.entries.pop_front();
            assert(entries_view(self.entries@) =~= entries_view(before).drop_first());
        }
        let ghost mid = self.entries@;
        let e = LogEntry { timestamp: timestamp, category: category.to_string(), message: message };
        self.entries.push_back(e);
        assert(entries_view(self.entries@) =~= entries_view(mid).push((timestamp, category@, message@)));
    }

    /// Appends an entry written now (see `push_at`).
    pub fn push(&mut self, category: &str, message: String)
        requires
            old(self).wf(),
        ensures
            final(self).wf(),
            exists|t: u64| final(self).spec_entries() == appended(old(self).spec_entries(), (t, category@, message@)),
    {
        let t = timestamp_millis();
        self.push_at(category, message, t);
    }

    /// All entries, oldest first.
    pub fn get_all(&self) -> (r: Vec<LogEntry>)
        ensures
            entries_view(r@) == self.spec_entries(),
    {
        let mut r: Vec<LogEntry> = Vec::new();
        let mut i: usize = 0;
        while i < self.entries.len()
            invariant
                i <= self.entries@.len(),
                entries_view(r@) == entries_view(self.entries@).take(i as int),
            decreases self.entries@.len() - i,
        {
            let e = &self.entries[i];
            let ghost before = r@;
            assert(*e == self.entries@[i as int]);
            let copy = LogEntry { timestamp: e.timestamp, category: e.category.clone(), message: e.message.clone() };
            assert(entry_view(copy) == entry_view(*e));
            r.push(copy);
            assert(entries_view(r@) =~= entries_view(before).push(entry_view(*e)));
            assert(entries_view(r@) =~= entries_view(self.entries@).take(i + 1));
            i = i + 1;
        }
        assert(entries_view(self.entries@).take(i as int) =~= entries_view(self.entries@));
        r
    }

    /// Removes all entries.
    pub fn clear(&mut self)
        ensures
            final(self).wf(),
            final(self).spec_entries() == Seq::<EntryView>::empty(),
    {
        self.entries.clear();
        assert(self.spec_entries() =~= Seq::<EntryView>::empty());
    }
}

/// The log never holds more than `MAX_LOG_ENTRIES` entries, and an append
/// keeps the newest entries in order with the new one last.
pub proof fn law_log_is_bounded_and_ordered(log: Seq<EntryView>, e: EntryView)
    requires
        log.len() <= MAX_LOG_ENTRIES,
    ensures
        appended(log, e).len() <= MAX_LOG_ENTRIES,
        appended(log, e).last() == e,
        appended(log, e).drop_last() == (if log.len() >= MAX_LOG_ENTRIES { log.drop_first() } else { log }),
        log.len() < MAX_LOG_ENTRIES ==> appended(log, e).len() == log.len() + 1,
{
    if log.len() >= MAX_LOG_ENTRIES {
        assert(log.drop_first().push(e).drop_last() =~= log.drop_first());
    } else {
        assert(log.push(e).drop_last() =~= log);
    }
}

} // verus!
