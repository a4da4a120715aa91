//! What is known of a span or an event from the place in the source that describes it.

use vstd::prelude::*;

verus! {

/// How verbose a span or an event is.
#[derive(Clone, Copy, PartialEq, Eq, Structural, Debug, Hash)]
pub enum Level {
    /// Very serious errors.
    Error,
    /// Hazardous situations.
    Warn,
    /// Useful information.
    Info,
    /// Lower priority information.
    Debug,
    /// Very low priority, often extremely verbose, information.
    Trace,
}

impl Level {
    /// The place of a level in the order of levels, which puts the more verbose one higher.
    pub open spec fn verbosity(self) -> int {
        match self {
            Level::Error => 0,
            Level::Warn => 1,
            Level::Info => 2,
            Level::Debug => 3,
            Level::Trace => 4,
        }
    }

    /// Whether this level is at least as verbose as `other`.
    pub fn is_at_least(self, other: Level) -> (answer: bool)
        ensures
            answer == (self.verbosity() >= other.verbosity()),
    {
        match other {
            Level::Error => true,
            Level::Warn => match self {
                Level::Error => false,
                _ => true,
            },
            Level::Info => match self {
                Level::Error | Level::Warn => false,
                _ => true,
            },
            Level::Debug => match self {
                Level::Debug | Level::Trace => true,
                _ => false,
            },
            Level::Trace => match self {
                Level::Trace => true,
                _ => false,
            },
        }
    }
}

/// The description of a span or an event.
#[derive(Debug)]
pub struct Metadata {
    /// The name of the span or the event.
    pub name: String,
    /// How verbose it is.
    pub level: Level,
    /// The names of the fields that it can have.
    pub fields: Vec<String>,
}

/// Whether a subscriber wants to hear of the spans and events of one place in the source.
#[derive(Clone, Copy, PartialEq, Eq, Structural, Debug, Hash)]
pub enum Interest {
    /// It never does.
    Never,
    /// It has to be asked each time.
    Sometimes,
    /// It always does.
    Always,
}

/// The levels are, from the least verbose one to the most verbose one: error, warning, information,
/// debug and trace.
pub proof fn law_levels_are_ordered(level: Level, other: Level)
    ensures
        Level::Error.verbosity() < Level::Warn.verbosity() < Level::Info.verbosity()
            < Level::Debug.verbosity() < Level::Trace.verbosity(),
        level.verbosity() == other.verbosity() ==> level == other,
{
}

} // verus!
