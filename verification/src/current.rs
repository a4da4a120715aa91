//! The span in which each thread is executing.

use std::collections::HashMap;
use vstd::prelude::*;

use crate::id::Id;

verus! {

broadcast use vstd::std_specs::hash::group_hash_axioms;

/// Tracks the currently executing span on a per-thread basis.
///
/// Threads are told apart by a number, which each call takes.
#[derive(Debug)]
pub struct CurrentSpan {
    current: HashMap<u64, Vec<Id>>,
}

/// The innermost of the spans that a thread has entered.
pub open spec fn innermost(entered: Seq<Id>) -> Option<Id> {
    if entered.len() == 0 {
        None
    } else {
        Some(entered.last())
    }
}

/// The spans that a thread is left in after it has exited one.
pub open spec fn exited(entered: Seq<Id>) -> Seq<Id> {
    if entered.len() == 0 {
        entered
    } else {
        entered.drop_last()
    }
}

impl CurrentSpan {
    /// The spans that the thread with this number has entered, innermost last.
    pub closed spec fn entered(&self, thread: u64) -> Seq<Id> {
        if self.current@.contains_key(thread) {
            self.current@[thread]@
        } else {
            Seq::empty()
        }
    }

    /// Returns a new `CurrentSpan`, with every thread outside of any span.
    pub fn new() -> (made: CurrentSpan)
        ensures
            forall|thread: u64| #[trigger] made.entered(thread) == Seq::<Id>::empty(),
    {
        CurrentSpan { current: HashMap::new() }
    }

    /// Returns the id of the span in which the thread is executing, or `None` if it is not inside
    /// of a span.
    pub fn id(&self, thread: u64) -> (id: Option<Id>)
        ensures
            id == innermost(self.entered(thread)),
    {
        match self.current.get(&thread) {
            Some(entered) => {
                let len: usize = entered.len();
                if len == 0 {
                    None
                } else {
                    Some(entered[len - 1])
                }
            },
            None => None,
        }
    }

    /// Records that the thread has entered the span with the provided id.
    pub fn enter(&mut self, thread: u64, span: Id)
        ensures
            final(self).entered(thread) == old(self).entered(thread).push(span),
            forall|other: u64|
                other != thread ==> #[trigger] final(self).entered(other) == old(self).entered(
                    other,
                ),
    {
        let mut entered = match self.current.remove(&thread) {
            Some(entered) => entered,
            None => Vec::new(),
        };
        entered.push(span);
        self.current.insert(thread, entered);
    }

    /// Records that the thread has exited a span.
    ///
    /// A thread that is not inside of a span stays there.
    pub fn exit(&mut self, thread: u64)
        ensures
            final(self).entered(thread) == exited(old(self).entered(thread)),
            forall|other: u64|
                other != thread ==> #[trigger] final(self).entered(other) == old(self).entered(
                    other,
                ),
    {
        match self.current.remove(&thread) {
            Some(mut entered) => {
                let _ = entered.pop();
                self.current.insert(thread, entered);
            },
            None => {},
        }
    }
}

/// A thread that has just entered a span is executing in it.
pub proof fn law_entered_span_is_innermost(entered: Seq<Id>, span: Id)
    ensures
        innermost(entered.push(span)) == Some(span),
{
}

/// Exiting a span brings a thread back to where it was before it entered that span.
pub proof fn law_exit_undoes_enter(entered: Seq<Id>, span: Id)
    ensures
        exited(entered.push(span)) == entered,
        innermost(exited(entered.push(span))) == innermost(entered),
{
    assert(entered.push(span).drop_last() =~= entered);
}

/// A thread that has entered no span is executing in none, and exiting leaves it there.
pub proof fn law_outside_stays_outside(entered: Seq<Id>)
    requires
        entered.len() == 0,
    ensures
        innermost(entered) is None,
        exited(entered) == entered,
{
}

} // verus!
