//! Spans and events, as they are described to the registry and as it stores them.

use vstd::prelude::*;

use crate::id::Id;
use crate::metadata::Metadata;
use crate::stack::SpanStack;
use crate::values::FieldValues;

verus! {

/// What a new span is made from.
#[derive(Debug)]
pub struct Attributes {
    /// The description of the span.
    pub metadata: Metadata,
    /// The parent that was named for the span, if one was.
    pub parent: Option<Id>,
    /// Whether the span takes the current span as its parent where none was named.
    pub contextual: bool,
    /// The fields of the span, each with its debug text, in the order in which they are visited.
    pub fields: Vec<(String, String)>,
}

/// Something that happened.
#[derive(Debug)]
pub struct Event {
    /// The description of the event.
    pub metadata: Metadata,
    /// The span that was named as the parent of the event, if one was.
    pub parent: Option<Id>,
    /// Whether the event takes the current span as its parent where none was named.
    pub contextual: bool,
    /// The fields of the event, each with its debug text, in the order in which they are visited.
    pub fields: Vec<(String, String)>,
}

/// An event that is stored in a span.
#[derive(Debug)]
pub struct BigEvent {
    /// The span that the event belongs to.
    pub parent: Id,
    /// The description of the event.
    pub metadata: Metadata,
    /// The values of the fields of the event.
    pub values: FieldValues,
}

/// A span that is stored in the registry.
#[derive(Debug)]
pub struct BigSpan {
    /// The description of the span.
    pub metadata: Metadata,
    /// The span around this one when it was made.
    pub parent: Option<Id>,
    /// The values of the fields of the span.
    pub values: FieldValues,
    /// The events that belong to the span, oldest first.
    pub events: Vec<BigEvent>,
}

/// The parent of a new span or event: the one that was named; or else, where it is taken from the
/// context, the current one of the entered spans.
pub open spec fn parent_of(named: Option<Id>, contextual: bool, entered: Seq<Id>) -> Option<Id> {
    match named {
        Some(id) => Some(id),
        None => if contextual {
            crate::stack::current_of(entered)
        } else {
            None
        },
    }
}

/// Finds the parent of a new span or event.
pub fn find_parent(named: Option<Id>, contextual: bool, entered: &SpanStack) -> (parent: Option<Id>)
    requires
        entered.wf(),
    ensures
        parent == parent_of(named, contextual, entered@),
{
    match named {
        Some(id) => Some(id),
        None => {
            if contextual {
                match entered.current() {
                    Some(id) => Some(*id),
                    None => None,
                }
            } else {
                None
            }
        },
    }
}

impl BigEvent {
    /// No field of the event has two values.
    pub open spec fn wf(&self) -> bool {
        self.values.wf()
    }

    /// Whether this is what is stored of `event` in the span `parent`.
    pub open spec fn stands_for(&self, event: Event, parent: Id) -> bool {
        &&& self.parent == parent
        &&& self.metadata == event.metadata
        &&& self.values@ == crate::values::recorded(event.fields@)
    }

    /// What is stored of `event` in the span `parent`.
    pub fn new(event: Event, parent: Id) -> (stored: BigEvent)
        ensures
            stored.wf(),
            stored.stands_for(event, parent),
    {
        let values = crate::values::record_fields(&event.fields);
        BigEvent { parent, metadata: event.metadata, values }
    }
}

impl BigSpan {
    /// Neither a field of the span nor one of its events has two values.
    pub open spec fn wf(&self) -> bool {
        &&& self.values.wf()
        &&& forall|i: int| 0 <= i < self.events@.len() ==> (#[trigger] self.events@[i]).wf()
    }

    /// Whether this is what is stored of a new span made from `attrs`, while the spans `entered`
    /// are entered.
    pub open spec fn stands_for(&self, attrs: Attributes, entered: Seq<Id>) -> bool {
        &&& self.metadata == attrs.metadata
        &&& self.parent == parent_of(attrs.parent, attrs.contextual, entered)
        &&& self.values@ == crate::values::recorded(attrs.fields@)
        &&& self.events@ == Seq::<BigEvent>::empty()
    }

    /// Whether this span is `before` with the event `stored` added to it.
    pub open spec fn gained(&self, before: BigSpan, stored: BigEvent) -> bool {
        &&& self.metadata == before.metadata
        &&& self.parent == before.parent
        &&& self.values == before.values
        &&& self.events@ == before.events@.push(stored)
    }

    /// What is stored of a new span made from `attrs`, while the spans `entered` are entered.
    pub fn new(attrs: Attributes, entered: &SpanStack) -> (stored: BigSpan)
        requires
            entered.wf(),
        ensures
            stored.wf(),
            stored.stands_for(attrs, entered@),
    {
        let values = crate::values::record_fields(&attrs.fields);
        let parent = find_parent(attrs.parent, attrs.contextual, entered);
        BigSpan { metadata: attrs.metadata, parent, values, events: Vec::new() }
    }

    /// The name of the span.
    pub fn name(&self) -> (name: &str)
        ensures
            name@ == self.metadata.name@,
    {
        self.metadata.name.as_str()
    }

    /// The names of the fields that the span can have.
    pub fn fields(&self) -> (fields: &Vec<String>)
        ensures
            *fields == self.metadata.fields,
    {
        &self.metadata.fields
    }

    /// Stores an event in the span.
    pub fn push_event(&mut self, stored: BigEvent)
        requires
            old(self).wf(),
            stored.wf(),
        ensures
            final(self).wf(),
            final(self).gained(*old(self), stored),
    {
        self.events.push(stored);
    }
}

/// A span that was named as the parent is the parent, whatever is entered.
pub proof fn law_named_parent_wins(named: Id, contextual: bool, entered: Seq<Id>)
    ensures
        parent_of(Some(named), contextual, entered) == Some(named),
{
}

/// What takes its parent from the context gets the span that was entered last, where that was not
/// entered before.
pub proof fn law_parent_is_entered_span(entered: Seq<Id>, id: Id)
    requires
        !entered.contains(id),
    ensures
        parent_of(None, true, entered.push(id)) == Some(id),
{
    crate::stack::law_entering_makes_current(entered, id);
}

/// Outside of any span nothing has a parent but what names one.
pub proof fn law_no_parent_outside_of_spans(contextual: bool)
    ensures
        parent_of(None, contextual, Seq::<Id>::empty()) is None,
{
}

/// What names no parent gets the current span exactly if it takes its parent from the context.
pub proof fn law_unnamed_parent_is_current(entered: Seq<Id>)
    ensures
        parent_of(None, true, entered) == crate::stack::current_of(entered),
        parent_of(None, false, entered) is None,
{
}

/// A stored event has the description and the parent of the event, and all of its fields: each with
/// the text of its last visit, and no other ones.
pub proof fn law_event_is_stored_whole(stored: BigEvent, event: Event, parent: Id)
    requires
        stored.stands_for(event, parent),
    ensures
        stored.parent == parent,
        stored.metadata == event.metadata,
        forall|i: int|
            0 <= i < event.fields@.len() ==> stored.values@.contains_key(
                (#[trigger] event.fields@[i]).0@,
            ),
        forall|i: int|
            0 <= i < event.fields@.len() && (forall|j: int|
                i < j < event.fields@.len() ==> (#[trigger] event.fields@[j]).0@
                    != event.fields@[i].0@) ==> stored.values@[(#[trigger] event.fields@[i]).0@]
                == event.fields@[i].1@,
        forall|name: Seq<char>| #[trigger]
            stored.values@.contains_key(name) ==> exists|i: int|
                0 <= i < event.fields@.len() && (#[trigger] event.fields@[i]).0@ == name,
{
    lemma_recorded_whole(event.fields@);
}

/// A new span has the description that it was opened with, all of its fields, each with the text of
/// its last visit, and no other ones, and no events. Its parent is the one that was named, or else,
/// if it takes it from the context, the current span.
pub proof fn law_span_is_stored_whole(stored: BigSpan, attrs: Attributes, entered: Seq<Id>)
    requires
        stored.stands_for(attrs, entered),
    ensures
        stored.metadata == attrs.metadata,
        stored.events@.len() == 0,
        attrs.parent is Some ==> stored.parent == attrs.parent,
        attrs.parent is None && attrs.contextual ==> stored.parent == crate::stack::current_of(
            entered,
        ),
        attrs.parent is None && !attrs.contextual ==> stored.parent is None,
        forall|i: int|
            0 <= i < attrs.fields@.len() ==> stored.values@.contains_key(
                (#[trigger] attrs.fields@[i]).0@,
            ),
        forall|i: int|
            0 <= i < attrs.fields@.len() && (forall|j: int|
                i < j < attrs.fields@.len() ==> (#[trigger] attrs.fields@[j]).0@
                    != attrs.fields@[i].0@) ==> stored.values@[(#[trigger] attrs.fields@[i]).0@]
                == attrs.fields@[i].1@,
        forall|name: Seq<char>| #[trigger]
            stored.values@.contains_key(name) ==> exists|i: int|
                0 <= i < attrs.fields@.len() && (#[trigger] attrs.fields@[i]).0@ == name,
{
    lemma_recorded_whole(attrs.fields@);
}

proof fn lemma_recorded_whole(fields: Seq<(String, String)>)
    ensures
        forall|i: int|
            0 <= i < fields.len() ==> crate::values::recorded(fields).contains_key(
                (#[trigger] fields[i]).0@,
            ),
        forall|i: int|
            0 <= i < fields.len() && (forall|j: int|
                i < j < fields.len() ==> (#[trigger] fields[j]).0@ != fields[i].0@)
                ==> crate::values::recorded(fields)[(#[trigger] fields[i]).0@] == fields[i].1@,
        forall|name: Seq<char>| #[trigger]
            crate::values::recorded(fields).contains_key(name) ==> exists|i: int|
                0 <= i < fields.len() && (#[trigger] fields[i]).0@ == name,
{
    assert forall|i: int| 0 <= i < fields.len() implies crate::values::recorded(
        fields,
    ).contains_key((#[trigger] fields[i]).0@) by {
        crate::values::law_recorded_names(fields, fields[i].0@);
    }
    assert forall|i: int|
        0 <= i < fields.len() && (forall|j: int|
            i < j < fields.len() ==> (#[trigger] fields[j]).0@ != fields[i].0@) implies crate::values::recorded(
        fields,
    )[(#[trigger] fields[i]).0@] == fields[i].1@ by {
        crate::values::law_last_visit_is_recorded(fields, i);
    }
    assert forall|name: Seq<char>| #[trigger]
        crate::values::recorded(fields).contains_key(name) implies exists|i: int|
        0 <= i < fields.len() && (#[trigger] fields[i]).0@ == name by {
        crate::values::law_recorded_names(fields, name);
    }
}

/// Storing an event in a span keeps its description, its parent, its values and its earlier events,
/// and puts the event after them.
pub proof fn law_storing_keeps_the_rest(before: BigSpan, after: BigSpan, stored: BigEvent)
    requires
        after.gained(before, stored),
    ensures
        after.metadata == before.metadata,
        after.parent == before.parent,
        after.values == before.values,
        after.events@.len() == before.events@.len() + 1,
        forall|i: int|
            0 <= i < before.events@.len() ==> (#[trigger] after.events@[i]) == before.events@[i],
        after.events@[before.events@.len() as int] == stored,
{
}

/// A span is well formed whatever it and its events are, as long as no field has two values.
pub proof fn law_span_is_well_formed(span: BigSpan)
    requires
        span.values.wf(),
        forall|i: int|
            0 <= i < span.events@.len() ==> (#[trigger] span.events@[i]).values.wf(),
    ensures
        span.wf(),
{
}

} // verus!
