//! A log that keeps its last lines in memory.

use std::collections::VecDeque;

use vstd::prelude::*;

use crate::text::{copy_text, join2, texts};

verus! {

/// How much a line matters.
#[derive(Clone, Copy, PartialEq, Eq, PartialOrd, Ord, Debug, Structural)]
pub enum Level {
    Error,
    Warn,
    Info,
    Debug,
}

/// The name of a level, as it stands in front of a line.
pub open spec fn level_name(level: Level) -> Seq<char> {
    match level {
        Level::Error => "ERROR"@,
        Level::Warn => "WARN"@,
        Level::Info => "INFO"@,
        Level::Debug => "DEBUG"@,
    }
}

/// A line as it is shown.
pub open spec fn line(level: Level, msg: Seq<char>) -> Seq<char> {
    level_name(level) + ": "@ + msg
}

/// The number of lines that a log of this capacity keeps: at least one.
pub open spec fn kept(capacity: nat) -> nat {
    if capacity == 0 {
        1
    } else {
        capacity
    }
}

/// The last `n` entries of a list.
pub open spec fn last_of<T>(list: Seq<T>, n: nat) -> Seq<T> {
    if list.len() <= n {
        list
    } else {
        list.skip(list.len() - n)
    }
}

/// A ring of log lines.
pub struct RingLogger {
    lines: VecDeque<(Level, String)>,
    capacity: usize,
}

/// A log as a value: its entries, oldest first, and its capacity.
pub struct LogView {
    pub entries: Seq<(Level, Seq<char>)>,
    pub capacity: nat,
}

/// Entries as values.
pub open spec fn entry_views(lines: Seq<(Level, String)>) -> Seq<(Level, Seq<char>)> {
    lines.map_values(|l: (Level, String)| (l.0, l.1@))
}

impl View for RingLogger {
    type V = LogView;

    closed spec fn view(&self) -> LogView {
        LogView { entries: entry_views(self.lines@), capacity: self.capacity as nat }
    }
}

/// A log after one more line: the oldest one makes room when it is full.
pub open spec fn logged(v: LogView, level: Level, msg: Seq<char>) -> LogView {
    let room = if v.entries.len() >= v.capacity && v.entries.len() > 0 {
        v.entries.skip(1)
    } else {
        v.entries
    };
    LogView { entries: room.push((level, msg)), capacity: v.capacity }
}

/// A log after a list of lines.
pub open spec fn logged_all(v: LogView, lines: Seq<(Level, Seq<char>)>) -> LogView
    decreases lines.len(),
{
    if lines.len() == 0 {
        v
    } else {
        logged(logged_all(v, lines.drop_last()), lines.last().0, lines.last().1)
    }
}

/// A log that was empty holds the last lines that were written to it, in the
/// order they were written in: as many as its capacity, and always at least one.
pub proof fn log_keeps_last_lines(capacity: nat, lines: Seq<(Level, Seq<char>)>)
    ensures
        logged_all((LogView { entries: Seq::empty(), capacity }), lines) == (LogView {
            entries: last_of(lines, kept(capacity)),
            capacity,
        }),
    decreases lines.len(),
{
    let empty = LogView { entries: Seq::empty(), capacity };
    let n = kept(capacity);
    if lines.len() == 0 {
        assert(last_of(lines, n) =~= Seq::empty());
    } else {
        let head = lines.drop_last();
        log_keeps_last_lines(capacity, head);
        let before = last_of(head, n);
        assert(before.len() <= n);
        assert(logged_all(empty, lines).entries =~= last_of(lines, n));
    }
}

impl RingLogger {
    /// An empty log.
    pub fn new(capacity: usize) -> (r: Self)
        ensures
            r@ == (LogView { entries: Seq::empty(), capacity: capacity as nat }),
    {
        let r = RingLogger { lines: VecDeque::new(), capacity };
        assert(r@.entries =~= Seq::empty());
        r
    }

    /// Writes a line.
    pub fn log(&mut self, level: Level, msg: String)
        ensures
            final(self)@ == logged(old(self)@, level, msg@),
    {
        let ghost before = self.lines@;
        if self.lines.len() >= self.capacity {
            let _ = self.lines.pop_front();
        }
        self.lines.push_back((level, msg));
        assert(self@.entries =~= logged(old(self)@, level, msg@).entries);
    }

    /// The lines, oldest first.
    pub fn dump(&self) -> (r: Vec<String>)
        ensures
            texts(r@) == self@.entries.map_values(|e: (Level, Seq<char>)| line(e.0, e.1)),
    {
        let mut r: Vec<String> = Vec::new();
        let mut i: usize = 0;
        while i < self.lines.len()
            invariant
                i <= self.lines@.len(),
                r@.len() == i,
                forall|k: int|
                    0 <= k < i ==> (#[trigger] r@[k])@ == line(
                        self.lines@[k].0,
                        self.lines@[k].1@,
                    ),
            decreases self.lines@.len() - i,
        {
            let entry = &self.lines[i];
            let name = match entry.0 {
                Level::Error => "ERROR",
                Level::Warn => "WARN",
                Level::Info => "INFO",
                Level::Debug => "DEBUG",
            };
            let mut text = join2(name, ": ");
            text.append(entry.1.as_str());
            r.push(text);
            i = i + 1;
        }
        assert(texts(r@) =~= self@.entries.map_values(
            |e: (Level, Seq<char>)| line(e.0, e.1),
        ));
        r
    }
}

// ---------------------------------------------------------------------------
// The log of a process
// ---------------------------------------------------------------------------
/// A log that may not be set up yet, as a value.
pub open spec fn log_in(log: Option<RingLogger>) -> Option<LogView> {
    match log {
        Some(l) => Some(l@),
        None => None,
    }
}

/// The log after it was set up: only the first time counts.
pub open spec fn set_up(v: Option<LogView>, capacity: nat) -> Option<LogView> {
    match v {
        Some(l) => Some(l),
        None => Some(LogView { entries: Seq::empty(), capacity }),
    }
}

/// The log after one more line, which is lost where the log is not set up.
pub open spec fn noted(v: Option<LogView>, level: Level, msg: Seq<char>) -> Option<LogView> {
    match v {
        Some(l) => Some(logged(l, level, msg)),
        None => None,
    }
}

/// The log after a list of lines.
pub open spec fn noted_all(
    v: Option<LogView>,
    lines: Seq<(Level, Seq<char>)>,
) -> Option<LogView>
    decreases lines.len(),
{
    if lines.len() == 0 {
        v
    } else {
        noted(noted_all(v, lines.drop_last()), lines.last().0, lines.last().1)
    }
}

/// The lines of a log as they are shown; none where it is not set up.
pub open spec fn shown(v: Option<LogView>) -> Seq<Seq<char>> {
    match v {
        Some(l) => l.entries.map_values(|e: (Level, Seq<char>)| line(e.0, e.1)),
        None => Seq::empty(),
    }
}

/// Sets the log of a process up. One that is set up stays as it is.
pub fn init(log: &mut Option<RingLogger>, capacity: usize)
    ensures
        log_in(*final(log)) == set_up(log_in(*old(log)), capacity as nat),
{
    if log.is_none() {
        *log = Some(RingLogger::new(capacity));
    }
}

fn note(log: &mut Option<RingLogger>, level: Level, msg: &str)
    ensures
        log_in(*final(log)) == noted(log_in(*old(log)), level, msg@),
{
    let mut taken: Option<RingLogger> = None;
    std::mem::swap(log, &mut taken);
    if let Some(mut l) = taken {
        l.log(level, copy_text(msg));
        *log = Some(l);
    }
}

pub fn info(log: &mut Option<RingLogger>, msg: &str)
    ensures
        log_in(*final(log)) == noted(log_in(*old(log)), Level::Info, msg@),
{
    note(log, Level::Info, msg);
}

pub fn warn(log: &mut Option<RingLogger>, msg: &str)
    ensures
        log_in(*final(log)) == noted(log_in(*old(log)), Level::Warn, msg@),
{
    note(log, Level::Warn, msg);
}

pub fn error(log: &mut Option<RingLogger>, msg: &str)
    ensures
        log_in(*final(log)) == noted(log_in(*old(log)), Level::Error, msg@),
{
    note(log, Level::Error, msg);
}

pub fn dump(log: &Option<RingLogger>) -> (r: Vec<String>)
    ensures
        texts(r@) == shown(log_in(*log)),
{
    match log {
        Some(l) => l.dump(),
        None => {
            let r: Vec<String> = Vec::new();
            assert(texts(r@) =~= Seq::<Seq<char>>::empty());
            r
        },
    }
}

proof fn noted_all_in_log(v: LogView, lines: Seq<(Level, Seq<char>)>)
    ensures
        noted_all(Some(v), lines) == Some(logged_all(v, lines)),
    decreases lines.len(),
{
    if lines.len() > 0 {
        noted_all_in_log(v, lines.drop_last());
    }
}

proof fn noted_all_joins(
    v: Option<LogView>,
    a: Seq<(Level, Seq<char>)>,
    b: Seq<(Level, Seq<char>)>,
)
    ensures
        noted_all(noted_all(v, a), b) == noted_all(v, a + b),
    decreases b.len(),
{
    if b.len() == 0 {
        assert(a + b =~= a);
    } else {
        noted_all_joins(v, a, b.drop_last());
        assert((a + b).drop_last() =~= a + b.drop_last());
        assert((a + b).last() == b.last());
    }
}

/// Nothing is kept before the log is set up.
pub proof fn nothing_is_kept_before_init(lines: Seq<(Level, Seq<char>)>)
    ensures
        noted_all(None, lines) is None,
        shown(noted_all(None, lines)).len() == 0,
    decreases lines.len(),
{
    if lines.len() > 0 {
        nothing_is_kept_before_init(lines.drop_last());
    }
}

/// The first set-up wins. A later one changes nothing, and the log goes on to
/// keep as many of the last lines as the first one asked for, of those written
/// before the later one and after it.
pub proof fn first_init_wins(
    a: nat,
    before: Seq<(Level, Seq<char>)>,
    b: nat,
    after: Seq<(Level, Seq<char>)>,
)
    ensures
        set_up(noted_all(set_up(None, a), before), b) == noted_all(set_up(None, a), before),
        noted_all(set_up(noted_all(set_up(None, a), before), b), after) == Some(
            LogView { entries: last_of(before + after, kept(a)), capacity: a },
        ),
{
    let first = LogView { entries: Seq::empty(), capacity: a };
    noted_all_in_log(first, before);
    noted_all_joins(Some(first), before, after);
    noted_all_in_log(first, before + after);
    log_keeps_last_lines(a, before + after);
}

} // verus!
