//! The runtime log: a bounded in-memory buffer of timestamped entries.
//!
//! The buffer is an explicitly constructed object; whoever shares it
//! across threads wraps it in a lock of their own.  It keeps at most
//! [`MAX_LOG_ENTRIES`] entries, dropping the oldest first.

use vstd::prelude::*;
use vstd::string::*;
use crate::text::str_eq;

verus! {

/// The most entries the buffer keeps.
pub const MAX_LOG_ENTRIES: usize = 500;

/// One log line: when, how severe (`info`, `warn`, `error`, `debug`),
/// which subsystem, and what happened.
#[derive(Debug)]
pub struct LogEntry {
    pub timestamp: String,
    pub level: String,
    pub source: String,
    pub message: String,
}

/// The mathematical content of a [`LogEntry`].
pub struct LogEntryView {
    pub timestamp: Seq<char>,
    pub level: Seq<char>,
    pub source: Seq<char>,
    pub message: Seq<char>,
}

impl View for LogEntry {
    type V = LogEntryView;

    open spec fn view(&self) -> LogEntryView {
        LogEntryView {
            timestamp: self.timestamp@,
            level: self.level@,
            source: self.source@,
            message: self.message@,
        }
    }
}

impl LogEntry {
    /// A field-for-field copy.
    pub fn duplicate(&self) -> (r: LogEntry)
        ensures
            r@ == self@,
    {
        LogEntry {
            timestamp: self.timestamp.clone(),
            level: self.level.clone(),
            source: self.source.clone(),
            message: self.message.clone(),
        }
    }
}

/// The views of a sequence of entries.
pub open spec fn log_views(v: Seq<LogEntry>) -> Seq<LogEntryView> {
    v.map_values(|e: LogEntry| e@)
}

/// The entries of `v` whose source is `s`, oldest first.
pub open spec fn by_source(v: Seq<LogEntryView>, s: Seq<char>) -> Seq<LogEntryView>
    decreases v.len(),
{
    if v.len() == 0 {
        Seq::empty()
    } else {
        let rest = by_source(v.drop_last(), s);
        if v.last().source == s {
            rest.push(v.last())
        } else {
            rest
        }
    }
}

/// Relies on `chrono::Local::now` formatted as
/// `%Y-%m-%d %H:%M:%S`: the current local wall-clock time.  Nothing is
/// assumed of the reading.
#[verifier::external_body]
fn now_timestamp() -> String {
    chrono::Local::now().format("%Y-%m-%d %H:%M:%S").to_string()
}

/// A bounded buffer of log entries, oldest first.
pub struct LogBuffer {
    entries: Vec<LogEntry>,
}

impl View for LogBuffer {
    type V = Seq<LogEntryView>;

    closed spec fn view(&self) -> Seq<LogEntryView> {
        log_views(self.entries@)
    }
}

impl LogBuffer {
    /// An empty buffer.
    pub fn new() -> (r: LogBuffer)
        ensures
            r@ =~= Seq::<LogEntryView>::empty(),
    {
        let r = LogBuffer { entries: Vec::new() };
        proof {
            assert(r@ =~= Seq::<LogEntryView>::empty());
        }
        r
    }

    /// Appends an entry stamped with the current time, dropping the
    /// oldest entries once the buffer is full.  The timestamp is a
    /// clock reading; nothing is promised of it.
    pub fn log(&mut self, level: &str, source: &str, message: &str)
        ensures
            final(self)@.len() == if old(self)@.len() < MAX_LOG_ENTRIES {
                (old(self)@.len() + 1) as int
            } else {
                MAX_LOG_ENTRIES as int
            },
            final(self)@.last().level == level@,
            final(self)@.last().source == source@,
            final(self)@.last().message == message@,
            forall|i: int|
                0 <= i < final(self)@.len() - 1 ==> final(self)@[i] == old(self)@[i + old(
                    self,
                )@.len() + 1 - final(self)@.len()],
    {
        let entry = LogEntry {
            timestamp: now_timestamp(),
            level: level.to_owned(),
            source: source.to_owned(),
            message: message.to_owned(),
        };
        let ghost pushed = self@.push(entry@);
        self.entries.push(entry);
        proof {
            assert(self@ =~= pushed);
        }
        while self.entries.len() > MAX_LOG_ENTRIES
            invariant
                self@.len() >= 1,
                self@.len() <= pushed.len(),
                self@.len() >= MAX_LOG_ENTRIES || self@.len() == pushed.len(),
                self@ == pushed.skip(pushed.len() - self@.len()),
                self.entries@.len() == self@.len(),
            decreases self@.len(),
        {
            let ghost before = self@;
            self.entries.remove(0);
            proof {
                assert(self@ =~= before.drop_first());
                assert(before.drop_first() =~= pushed.skip(pushed.len() - before.len() + 1));
            }
        }
        proof {
            assert(self@.last() == pushed.last());
        }
    }

    /// Copies of all entries, oldest first.
    pub fn get_logs(&self) -> (r: Vec<LogEntry>)
        ensures
            log_views(r@) == self@,
    {
        let n = self.entries.len();
        let mut out: Vec<LogEntry> = Vec::new();
        let mut i: usize = 0;
        proof {
            assert(log_views(out@) =~= self@.take(0));
        }
        while i < n
            invariant
                0 <= i <= n,
                n == self.entries@.len(),
                n == self@.len(),
                log_views(out@) == self@.take(i as int),
            decreases n - i,
        {
            out.push(self.entries[i].duplicate());
            proof {
                assert(log_views(out@) =~= log_views(out@.drop_last()).push(self@[i as int]));
                assert(self@.take(i + 1).drop_last() =~= self@.take(i as int));
                assert(log_views(out@.drop_last()).push(self@[i as int]) =~= self@.take(i + 1));
            }
            i += 1;
        }
        proof {
            assert(self@.take(n as int) =~= self@);
        }
        out
    }

    /// Copies of the entries from one source, oldest first.
    pub fn get_logs_by_source(&self, source: &str) -> (r: Vec<LogEntry>)
        ensures
            log_views(r@) == by_source(self@, source@),
    {
        let n = self.entries.len();
        let mut out: Vec<LogEntry> = Vec::new();
        let mut i: usize = 0;
        proof {
            assert(log_views(out@) =~= by_source(self@.take(0), source@));
        }
        while i < n
            invariant
                0 <= i <= n,
                n == self.entries@.len(),
                n == self@.len(),
                log_views(out@) == by_source(self@.take(i as int), source@),
            decreases n - i,
        {
            proof {
                assert(self@.take(i + 1).drop_last() =~= self@.take(i as int));
                assert(self@.take(i + 1).last() == self@[i as int]);
            }
            if str_eq(self.entries[i].source.as_str(), source) {
                out.push(self.entries[i].duplicate());
                proof {
                    assert(log_views(out@) =~= log_views(out@.drop_last()).push(
                        self@[i as int],
                    ));
                }
            }
            i += 1;
        }
        proof {
            assert(self@.take(n as int) =~= self@);
        }
        out
    }

    /// Removes every entry.
    pub fn clear_logs(&mut self)
        ensures
            final(self)@ =~= Seq::<LogEntryView>::empty(),
    {
        self.entries.clear();
        proof {
            assert(self@ =~= Seq::<LogEntryView>::empty());
        }
    }

    /// Number of buffered entries.
    pub fn len(&self) -> (r: usize)
        ensures
            r == self@.len(),
    {
        self.entries.len()
    }
}

} // verus!
