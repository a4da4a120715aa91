//! What a formatter sees of the spans that are entered.

use vstd::prelude::*;

use crate::id::Id;
use crate::registry::Registry;
use crate::span::BigSpan;
use crate::stack::SpanStack;

verus! {

/// Represents the subscriber's view of the current span context to a formatter.
///
/// The spans that the calling thread has entered are handed to each call. They are `None` where the
/// thread can no longer tell, because it is being torn down.
#[derive(Debug)]
pub struct Context<'a, F> {
    registry: &'a Registry,
    fmt_fields: &'a F,
}

/// The current span of the calling thread, if it has one and can tell.
pub open spec fn current_in(entered: Option<&SpanStack>) -> Option<Id> {
    match entered {
        Some(entered) => crate::stack::current_of(entered@),
        None => None,
    }
}

/// The current span of the calling thread, if it has one, can tell, and the span is open.
pub open spec fn open_current(
    spans: Map<usize, BigSpan>,
    entered: Option<&SpanStack>,
) -> Option<Id> {
    match current_in(entered) {
        Some(id) => if crate::trail::is_open(spans, id) {
            Some(id)
        } else {
            None
        },
        None => None,
    }
}

/// The span up to which a visit goes, if it goes anywhere: the current span, if it is open and the
/// calling thread is not unwinding.
pub open spec fn visit_end(
    spans: Map<usize, BigSpan>,
    entered: Option<&SpanStack>,
    unwinding: bool,
) -> Option<Id> {
    if unwinding {
        None
    } else {
        open_current(spans, entered)
    }
}

impl<'a, F> Context<'a, F> {
    /// The open spans that are seen, each under its key.
    pub closed spec fn spans(&self) -> Map<usize, BigSpan> {
        self.registry.spans()
    }

    /// The formatter of fields that is used.
    pub closed spec fn field_formatter(&self) -> F {
        *self.fmt_fields
    }

    /// The registry that is seen is well formed.
    pub closed spec fn wf(&self) -> bool {
        self.registry.wf()
    }

    /// The context of `registry`, with the formatter `fmt_fields` for fields.
    pub fn new(registry: &'a Registry, fmt_fields: &'a F) -> (made: Context<'a, F>)
        requires
            registry.wf(),
        ensures
            made.wf(),
            made.spans() == registry.spans(),
            made.field_formatter() == *fmt_fields,
    {
        Context { registry, fmt_fields }
    }

    /// The current span of the calling thread, if it has one, can tell, and the span is open.
    pub fn current(&self, entered: Option<&SpanStack>) -> (current: Option<Id>)
        requires
            self.wf(),
            entered matches Some(entered) ==> entered.wf(),
        ensures
            current == open_current(self.spans(), entered),
    {
        let id = *entered?.current()?;
        if self.registry.is_open(&id) {
            Some(id)
        } else {
            None
        }
    }

    /// Whether the spans in the current trace context can be visited: outside of a span, if the
    /// current span is not open, or while the thread is unwinding, there are none to visit, and
    /// otherwise the current span has a trail.
    pub fn can_visit(&self, entered: Option<&SpanStack>, unwinding: bool) -> (answer: bool)
        requires
            self.wf(),
            entered matches Some(entered) ==> entered.wf(),
        ensures
            answer == (visit_end(self.spans(), entered, unwinding) matches Some(id)
                ==> crate::trail::has_trail(self.spans(), id)),
    {
        if unwinding {
            return true;
        }
        match self.current(entered) {
            Some(id) => self.registry.trail(&id).is_some(),
            None => true,
        }
    }

    /// Applies a function to each span in the current trace context.
    ///
    /// The function is applied in order, beginning with the root of the trace, and ending with the
    /// current span. If the function returns an error, this will short-circuit. From one
    /// application to the next the function hands on a state, of which the last one is returned.
    ///
    /// If invoked from outside of a span, the function will not be applied. Nor will it be if the
    /// current span is not open. If it is open, all spans around it have to be; `can_visit` tells.
    ///
    /// If the calling thread is unwinding, which `unwinding` says, this will do nothing, rather than
    /// potentially causing a double panic.
    pub fn visit_spans<S, E, N: Fn(S, &Id, &BigSpan) -> (S, Result<(), E>)>(
        &self,
        entered: Option<&SpanStack>,
        unwinding: bool,
        state: S,
        f: N,
    ) -> (end: (S, Result<(), E>))
        requires
            self.wf(),
            entered matches Some(entered) ==> entered.wf(),
            visit_end(self.spans(), entered, unwinding) matches Some(id) ==> {
                &&& crate::trail::has_trail(self.spans(), id)
                &&& crate::trail::accepts_trail::<S, E, N>(
                    f,
                    self.spans(),
                    crate::trail::trail_of(self.spans(), id),
                    state,
                )
            },
        ensures
            match visit_end(self.spans(), entered, unwinding) {
                Some(id) => crate::trail::visited(
                    f,
                    self.spans(),
                    crate::trail::trail_of(self.spans(), id),
                    state,
                    end.0,
                    end.1,
                ),
                None => end.0 == state && end.1 is Ok,
            },
    {
        if unwinding {
            return (state, Ok(()));
        }
        if let Some(id) = self.current(entered) {
            if let Some(span) = self.registry.get(&id) {
                let ghost trail = crate::trail::trail_of(self.spans(), id);
                return span.with_parent(&id, None, state, &f, self.registry, Ghost(trail));
            }
        }
        (state, Ok(()))
    }

    /// Executes a closure with the reference to the current span.
    ///
    /// Outside of a span, or if the current span is not open, this does nothing.
    pub fn with_current<R, N: FnOnce((&Id, &BigSpan)) -> R>(
        &self,
        entered: Option<&SpanStack>,
        f: N,
    ) -> (result: Option<R>)
        requires
            self.wf(),
            entered matches Some(entered) ==> entered.wf(),
            open_current(self.spans(), entered) matches Some(id) ==> call_requires(
                f,
                ((&id, &crate::trail::span_of(self.spans(), id)),),
            ),
        ensures
            match open_current(self.spans(), entered) {
                Some(id) => result matches Some(result) && call_ensures(
                    f,
                    ((&id, &crate::trail::span_of(self.spans(), id)),),
                    result,
                ),
                None => result is None,
            },
    {
        let id = self.current(entered)?;
        let span = self.registry.get(&id)?;
        Some(f((&id, span)))
    }

    /// Formats `fields` at the end of `text`, with the formatter of this context, and returns what
    /// that returns: the text, and whether it could be formatted.
    pub fn format_fields<R>(&self, text: String, fields: R) -> (formatted: (String, bool)) where
        F: Fn(String, R) -> (String, bool),

        requires
            call_requires(self.field_formatter(), (text, fields)),
        ensures
            call_ensures(self.field_formatter(), (text, fields), formatted),
    {
        (self.fmt_fields)(text, fields)
    }
}

/// The current span is the current one of the entered spans, whatever it is, exactly if a span is
/// stored one below its number. A thread that can no longer tell has none.
pub proof fn law_current_span_is_open_one(
    spans: Map<usize, BigSpan>,
    entered: Option<&SpanStack>,
    id: Id,
)
    ensures
        open_current(spans, entered) == Some(id) <==> {
            &&& entered is Some
            &&& crate::stack::current_of(entered->0@) == Some(id)
            &&& (id@ as usize) != 0
            &&& spans.contains_key(((id@ as usize) - 1) as usize)
        },
        entered is None ==> open_current(spans, entered) is None,
{
}

/// Entering an open span that is not entered yet makes it the current one, whatever it is.
pub proof fn law_entered_open_span_is_current(
    spans: Map<usize, BigSpan>,
    before: &SpanStack,
    after: &SpanStack,
    id: Id,
)
    requires
        after@ == before@.push(id),
        !before@.contains(id),
        (id@ as usize) != 0,
        spans.contains_key(((id@ as usize) - 1) as usize),
    ensures
        open_current(spans, Some(after)) == Some(id),
        visit_end(spans, Some(after), false) == Some(id),
{
    crate::stack::law_entering_makes_current(before@, id);
}

/// A visit goes up to the current span of a thread that is not unwinding, and nowhere on one that
/// is.
pub proof fn law_visit_ends_at_current_span(
    spans: Map<usize, BigSpan>,
    entered: Option<&SpanStack>,
)
    ensures
        visit_end(spans, entered, false) == open_current(spans, entered),
        visit_end(spans, entered, true) is None,
{
}

} // verus!
