//! The log that the window shows.
use crate::text;
use vstd::prelude::*;
use vstd::string::*;

verus! {

/// How an entry is shown.
#[derive(Clone, Copy, Debug, PartialEq, Eq, Structural)]
pub enum LogLevel {
    Info,
    Warn,
    Error,
}

impl LogLevel {
    /// The colour of an entry, as red, green and blue.
    pub open spec fn color(self) -> (u8, u8, u8) {
        match self {
            LogLevel::Info => (210, 210, 210),
            LogLevel::Warn => (255, 210, 60),
            LogLevel::Error => (255, 90, 90),
        }
    }

    /// The colour of an entry, as red, green and blue.
    pub fn rgb(self) -> (r: (u8, u8, u8))
        ensures
            r == self.color(),
            r == (match self {
                LogLevel::Info => (210u8, 210u8, 210u8),
                LogLevel::Warn => (255u8, 210u8, 60u8),
                LogLevel::Error => (255u8, 90u8, 90u8),
            }),
    {
        match self {
            LogLevel::Info => (210, 210, 210),
            LogLevel::Warn => (255, 210, 60),
            LogLevel::Error => (255, 90, 90),
        }
    }
}

/// An entry of the log.
pub type LogEntry = (LogLevel, String);

/// The levels of events.
#[derive(Clone, Copy, Debug, PartialEq, Eq, Structural)]
pub enum EventLevel {
    Error,
    Warn,
    Info,
    Debug,
    Trace,
}

/// How many entries make the log full.
pub const LOG_CAPACITY: usize = 2000;

/// How many of the oldest entries leave a full log.
pub const LOG_DRAIN: usize = 400;

/// How an event is shown, if it is.
pub open spec fn shown_as(level: EventLevel) -> Option<LogLevel> {
    match level {
        EventLevel::Error => Some(LogLevel::Error),
        EventLevel::Warn => Some(LogLevel::Warn),
        EventLevel::Info => Some(LogLevel::Info),
        EventLevel::Debug => None,
        EventLevel::Trace => None,
    }
}

/// The event is one of our own crates, at INFO level or above, and says something.
pub open spec fn is_captured(target: Seq<char>, level: EventLevel, message: Seq<char>) -> bool {
    text::begins_with(target, "mc_share"@) && shown_as(level) is Some && message.len() > 0
}

/// The log with room for one more entry.
pub open spec fn with_room(log: Seq<LogEntry>) -> Seq<LogEntry> {
    if log.len() >= LOG_CAPACITY {
        log.skip(LOG_DRAIN as int)
    } else {
        log
    }
}

/// The log after an event.
pub open spec fn after_event(
    log: Seq<LogEntry>,
    target: Seq<char>,
    level: EventLevel,
    message: String,
) -> Seq<LogEntry> {
    if is_captured(target, level, message@) {
        with_room(log).push((shown_as(level)->0, message))
    } else {
        log
    }
}

/// The message of an event from its debug form, which may stand in quotes.
pub fn debug_message(form: &str) -> (r: String)
    ensures
        r@ == text::without_around(form@, '"'),
{
    let c = text::chars_of(form);
    let t = text::trim_around(c.as_slice(), '"');
    text::string_of(t.as_slice())
}

/// Takes events into the log.
#[derive(Debug)]
pub struct GuiLayer {
    pub log: Vec<LogEntry>,
}

impl GuiLayer {
    /// An empty log.
    pub fn new() -> (r: Self)
        ensures
            r.log@ == Seq::<LogEntry>::empty(),
    {
        GuiLayer { log: Vec::new() }
    }

    /// Takes in an event, if it is to be shown. The oldest entries make room for it
    /// when the log is full.
    pub fn on_event(&mut self, target: &str, level: EventLevel, message: String)
        ensures
            final(self).log@ == after_event(old(self).log@, target@, level, message),
            !is_captured(target@, level, message@) ==> final(self).log@ == old(self).log@,
            is_captured(target@, level, message@) ==> final(self).log@ == with_room(
                old(self).log@,
            ).push((shown_as(level)->0, message)),
    {
        let t = text::chars_of(target);
        if !text::has_prefix(t.as_slice(), "mc_share") {
            return;
        }
        let shown = match level {
            EventLevel::Error => LogLevel::Error,
            EventLevel::Warn => LogLevel::Warn,
            EventLevel::Info => LogLevel::Info,
            EventLevel::Debug => {
                return;
            },
            EventLevel::Trace => {
                return;
            },
        };
        if message.as_str().unicode_len() == 0 {
            return;
        }
        if self.log.len() >= LOG_CAPACITY {
            let rest = self.log.split_off(LOG_DRAIN);
            assert(rest@ =~= old(self).log@.skip(LOG_DRAIN as int));
            self.log = rest;
        }
        self.log.push((shown, message));
    }

    /// Adds an entry of the window itself.
    pub fn push_log(&mut self, level: LogLevel, message: &str)
        ensures
            final(self).log@.len() == old(self).log@.len() + 1,
            final(self).log@.drop_last() == old(self).log@,
            final(self).log@.last().0 == level,
            final(self).log@.last().1@ == message@,
    {
        self.log.push((level, String::from_str(message)));
        assert(self.log@.drop_last() =~= old(self).log@);
    }

    /// Empties the log.
    pub fn clear(&mut self)
        ensures
            final(self).log@ == Seq::<LogEntry>::empty(),
    {
        self.log.clear();
    }
}

/// Events never make the log longer than its capacity, and the newest entry is
/// always kept.
pub proof fn law_log_stays_bounded(log: Seq<LogEntry>, entry: LogEntry)
    requires
        log.len() <= LOG_CAPACITY,
    ensures
        with_room(log).push(entry).len() <= LOG_CAPACITY,
        with_room(log).push(entry).last() == entry,
        log.len() > 0 ==> with_room(log).last() == log.last(),
{
}

/// Of a log that holds 2000 entries the 400 oldest leave, and no other log loses any:
/// what stays keeps its order.
pub proof fn law_oldest_entries_make_room(log: Seq<LogEntry>, i: int)
    ensures
        log.len() < 2000 ==> with_room(log) == log,
        log.len() >= 2000 ==> with_room(log).len() == log.len() - 400,
        log.len() >= 2000 && 400 <= i < log.len() ==> with_room(log)[i - 400] == log[i],
{
}

/// An event of our own crates comes into the log as its newest entry, with its message
/// and its level. Events of others, events below INFO and events without a message
/// leave the log as it is.
pub proof fn law_own_events_are_logged(
    log: Seq<LogEntry>,
    rest: Seq<char>,
    other: Seq<char>,
    level: EventLevel,
    message: String,
)
    requires
        !text::begins_with(other, "mc_share"@),
    ensures
        ({
            let after = after_event(log, "mc_share"@ + rest, level, message);
            let low = level == EventLevel::Debug || level == EventLevel::Trace;
            &&& message@.len() == 0 || low <==> after == log
            &&& message@.len() > 0 && !low ==> {
                &&& after.last().1 == message
                &&& after.last().0 == LogLevel::Error <==> level == EventLevel::Error
                &&& after.last().0 == LogLevel::Warn <==> level == EventLevel::Warn
                &&& after.last().0 == LogLevel::Info <==> level == EventLevel::Info
            }
            &&& message@.len() > 0 && !low && log.len() < 2000 ==> after.drop_last() == log
            &&& after_event(log, other, level, message) == log
        }),
{
    let target = "mc_share"@ + rest;
    text::law_texts_are_found_where_they_stand(seq![], "mc_share"@, rest);
    if message@.len() > 0 && shown_as(level) is Some {
        let after = after_event(log, target, level, message);
        assert(after == with_room(log).push((shown_as(level)->0, message)));
        assert(after.len() == with_room(log).len() + 1);
        assert(after.drop_last() =~= with_room(log));
        assert(after.len() != log.len());
    }
}

/// The levels are told apart by their colours: errors are red rather than green or
/// blue, warnings are yellow, and the rest is gray.
pub proof fn law_levels_are_told_apart(a: LogLevel, b: LogLevel)
    ensures
        a.color() == b.color() ==> a == b,
        ({
            let c = LogLevel::Error.color();
            c.0 == 255 && c.1 == c.2 && c.1 < 100
        }),
        ({
            let c = LogLevel::Warn.color();
            c.0 == 255 && c.1 > 200 && c.2 < 100
        }),
        ({
            let c = LogLevel::Info.color();
            c.0 == c.1 && c.1 == c.2 && c.0 > 200
        }),
{
}

} // verus!
