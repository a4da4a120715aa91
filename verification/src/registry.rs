//! The registry of open spans.

use std::collections::{HashMap, HashSet};
use vstd::prelude::*;

use crate::id::{id_to_idx, idx_to_id, Id};
use crate::metadata::{Interest, Metadata};
use crate::slab::NumberSlab;
use crate::span::{find_parent, Attributes, BigEvent, BigSpan, Event};
use crate::stack::SpanStack;

verus! {

broadcast use vstd::std_specs::hash::group_hash_axioms;

/// The spans that are open, with the events recorded in them, and the spans that are entered.
///
/// A slab hands out the keys of the spans. It holds a number for each key, and the span itself is
/// kept under that number, so that it can be borrowed and changed in place.
#[derive(Debug)]
pub struct Registry {
    spans: NumberSlab,
    keys: HashSet<usize>,
    records: HashMap<u64, BigSpan>,
    next_number: u64,
    local_spans: SpanStack,
}

/// How many spans can be open at the same time whichever threads open them: the sum of the sizes of
/// half as many pages as `usize` has bits, of which the first is 32 and each other one is twice the
/// one before it.
///
/// There can be room for more, depending on the threads that open the spans.
pub open spec fn room() -> nat {
    if usize::BITS == 64 {
        137_438_953_440
    } else {
        2_097_120
    }
}

impl Default for Registry {
    /// A registry with no span open or entered.
    fn default() -> (made: Registry)
        ensures
            made.wf(),
            made.spans() == Map::<usize, BigSpan>::empty(),
            made.entered() == Seq::<Id>::empty(),
            made.opened() == 0,
    {
        let made = Registry {
            spans: NumberSlab::new(),
            keys: HashSet::new(),
            records: HashMap::new(),
            next_number: 0,
            local_spans: SpanStack::new(),
        };
        assert(made.spans() =~= Map::<usize, BigSpan>::empty());
        made
    }
}

impl Registry {
    spec fn numbers(&self) -> Map<usize, u64> {
        crate::slab::slab_numbers(self.spans)
    }

    /// The open spans, each under its key.
    pub closed spec fn spans(&self) -> Map<usize, BigSpan> {
        Map::new(
            |key: usize| self.keys@.contains(key),
            |key: usize| self.records@[self.numbers()[key]],
        )
    }

    /// The entered spans, innermost last.
    pub closed spec fn entered(&self) -> Seq<Id> {
        self.local_spans@
    }

    /// How many spans have been opened so far.
    pub closed spec fn opened(&self) -> u64 {
        self.next_number
    }

    /// `numbers` has one for each key in use, and no two keys have the same one. Each number is
    /// smaller than the next one to be given out and has a well-formed span.
    spec fn numbers_fit(&self, numbers: Map<usize, u64>) -> bool {
        &&& self.keys@.finite()
        &&& numbers.dom() == self.keys@
        &&& forall|key: usize| #[trigger] self.keys@.contains(key) ==> {
            &&& numbers[key] < self.next_number
            &&& self.records@.contains_key(numbers[key])
            &&& self.records@[numbers[key]].wf()
        }
        &&& forall|a: usize, b: usize|
            self.keys@.contains(a) && self.keys@.contains(b) && a != b ==> (#[trigger] numbers[a])
                != (#[trigger] numbers[b])
    }

    /// The slab holds the number of each open span, and the spans and the stack of entered spans
    /// are well formed.
    pub closed spec fn wf(&self) -> bool {
        self.local_spans.wf() && self.numbers_fit(self.numbers())
    }

    /// Stores the span `s` and returns its key, which was not in use, or `None` if there is no room
    /// for it. There always is while fewer than `room()` spans are open, up to the span whose number
    /// would no longer fit.
    pub fn insert(&mut self, s: BigSpan) -> (key: Option<usize>)
        requires
            old(self).wf(),
            s.wf(),
        ensures
            final(self).wf(),
            final(self).entered() == old(self).entered(),
            match key {
                Some(key) => {
                    &&& key < usize::MAX
                    &&& !old(self).spans().contains_key(key)
                    &&& final(self).spans() == old(self).spans().insert(key, s)
                    &&& final(self).opened() == old(self).opened() + 1
                },
                None => {
                    &&& final(self).spans() == old(self).spans()
                    &&& final(self).opened() == old(self).opened()
                },
            },
            old(self).spans().dom().len() < room() && old(self).opened() < u64::MAX ==> key is Some,
    {
        if self.next_number == u64::MAX {
            return None;
        }
        assert(self.spans().dom() =~= self.keys@);
        let slot = self.spans.insert(self.next_number);
        proof {
            if slot is Some {
                assert(self.numbers().remove(slot->0) =~= old(self).numbers());
            }
            assert(self.spans() =~= old(self).spans());
        }
        self.store(slot, s);
        slot
    }

    /// Stores the span `s`, given the key under which the slab has just taken in the next number,
    /// if it has.
    fn store(&mut self, slot: Option<usize>, s: BigSpan)
        requires
            old(self).local_spans.wf(),
            old(self).next_number < u64::MAX,
            s.wf(),
            match slot {
                Some(key) => {
                    &&& !old(self).keys@.contains(key)
                    &&& old(self).numbers().contains_key(key)
                    &&& old(self).numbers()[key] == old(self).next_number
                    &&& old(self).numbers_fit(old(self).numbers().remove(key))
                },
                None => old(self).wf(),
            },
        ensures
            final(self).wf(),
            final(self).entered() == old(self).entered(),
            match slot {
                Some(key) => {
                    &&& final(self).spans() == old(self).spans().insert(key, s)
                    &&& final(self).opened() == old(self).opened() + 1
                },
                None => {
                    &&& final(self).spans() == old(self).spans()
                    &&& final(self).opened() == old(self).opened()
                },
            },
    {
        if let Some(key) = slot {
            let number: u64 = self.next_number;
            self.next_number = number + 1;
            self.keys.insert(key);
            self.records.insert(number, s);
            assert(self.numbers().dom() =~= self.keys@);
            assert(self.spans() =~= old(self).spans().insert(key, s));
        }
    }

    /// The span with this id, if it is open.
    pub fn get(&self, id: &Id) -> (span: Option<&BigSpan>)
        requires
            self.wf(),
            crate::id::has_index(*id),
        ensures
            match span {
                Some(span) => {
                    &&& self.spans().contains_key(crate::id::id_index(*id))
                    &&& *span == self.spans()[crate::id::id_index(*id)]
                    &&& span.wf()
                },
                None => !self.spans().contains_key(crate::id::id_index(*id)),
            },
    {
        let key: usize = id_to_idx(id);
        if !self.keys.contains(&key) {
            return None;
        }
        let number: u64 = self.spans.get(key)?;
        self.records.get(&number)
    }

    /// Removes the span with this id and returns it, if it is open.
    pub fn take(&mut self, id: Id) -> (span: Option<BigSpan>)
        requires
            old(self).wf(),
            crate::id::has_index(id),
        ensures
            final(self).wf(),
            final(self).entered() == old(self).entered(),
            final(self).opened() == old(self).opened(),
            final(self).spans() == old(self).spans().remove(crate::id::id_index(id)),
            match span {
                Some(span) => {
                    &&& old(self).spans().contains_key(crate::id::id_index(id))
                    &&& span == old(self).spans()[crate::id::id_index(id)]
                },
                None => !old(self).spans().contains_key(crate::id::id_index(id)),
            },
    {
        let key: usize = id_to_idx(&id);
        if !self.keys.contains(&key) {
            assert(self.spans() =~= old(self).spans().remove(key));
            return None;
        }
        let number: u64 = self.spans.take(key)?;
        self.keys.remove(&key);
        let span = self.records.remove(&number);
        assert(self.numbers().dom() =~= self.keys@);
        assert(self.spans() =~= old(self).spans().remove(key));
        span
    }

    /// How many spans are open.
    pub(crate) fn len(&self) -> (len: usize)
        requires
            self.wf(),
        ensures
            self.spans().dom().finite(),
            len == self.spans().dom().len(),
    {
        assert(self.spans().dom() =~= self.keys@);
        self.keys.len()
    }

    /// Whether the registry wants to hear of the spans and events of one place in the source: it
    /// always does.
    pub fn register_callsite(&self, _metadata: &Metadata) -> (interest: Interest)
        ensures
            interest == Interest::Always,
    {
        Interest::Always
    }

    /// Whether the registry wants to hear of one span or event: it does of each.
    pub fn enabled(&self, _metadata: &Metadata) -> (enabled: bool)
        ensures
            enabled,
    {
        true
    }

    /// Opens a span and returns its id, or `None` if there is no room for it. Its key was not in use.
    /// There always is room while fewer than `room()` spans are open, up to the span whose number
    /// would no longer fit.
    pub fn new_span(&mut self, attrs: Attributes) -> (id: Option<Id>)
        requires
            old(self).wf(),
        ensures
            final(self).wf(),
            final(self).entered() == old(self).entered(),
            match id {
                Some(id) => {
                    let key = crate::id::id_index(id);
                    &&& id@ == key + 1
                    &&& crate::id::has_index(id)
                    &&& !old(self).spans().contains_key(key)
                    &&& final(self).spans().contains_key(key)
                    &&& final(self).spans()[key].stands_for(attrs, old(self).entered())
                    &&& final(self).spans() == old(self).spans().insert(
                        key,
                        final(self).spans()[key],
                    )
                    &&& final(self).opened() == old(self).opened() + 1
                },
                None => {
                    &&& final(self).spans() == old(self).spans()
                    &&& final(self).opened() == old(self).opened()
                },
            },
            old(self).spans().dom().len() < room() && old(self).opened() < u64::MAX ==> id is Some,
    {
        let span = BigSpan::new(attrs, &self.local_spans);
        let slot = self.insert(span);
        new_span_id(slot)
    }

    /// Enters the span with this id.
    pub fn enter(&mut self, id: &Id)
        requires
            old(self).wf(),
        ensures
            final(self).wf(),
            final(self).entered() == old(self).entered().push(*id),
            final(self).spans() == old(self).spans(),
            final(self).opened() == old(self).opened(),
    {
        self.local_spans.push(*id);
    }

    /// Exits the span with this id, if it is the innermost one that is entered; otherwise does
    /// nothing.
    pub fn exit(&mut self, id: &Id)
        requires
            old(self).wf(),
        ensures
            final(self).wf(),
            final(self).entered() == crate::stack::popped(old(self).entered(), *id),
            final(self).spans() == old(self).spans(),
            final(self).opened() == old(self).opened(),
    {
        let _ = self.local_spans.pop(id);
    }

    /// The span that `event` belongs to, if it belongs to one.
    pub fn event_parent(&self, event: &Event) -> (parent: Option<Id>)
        requires
            self.wf(),
        ensures
            parent == crate::span::parent_of(event.parent, event.contextual, self.entered()),
    {
        find_parent(event.parent, event.contextual, &self.local_spans)
    }

    /// Stores `event` in the span that it belongs to, which has to be open. An event that belongs
    /// to no span is not stored.
    pub fn event(&mut self, event: Event)
        requires
            old(self).wf(),
            crate::span::parent_of(event.parent, event.contextual, old(self).entered()) matches Some(
                id,
            ) ==> crate::id::has_index(id) && old(self).spans().contains_key(
                crate::id::id_index(id),
            ),
        ensures
            final(self).wf(),
            final(self).entered() == old(self).entered(),
            final(self).opened() == old(self).opened(),
            match crate::span::parent_of(event.parent, event.contextual, old(self).entered()) {
                Some(id) => {
                    let key = crate::id::id_index(id);
                    let span = final(self).spans()[key];
                    &&& span.events@.len() > 0
                    &&& span.events@.last().stands_for(event, id)
                    &&& span.gained(old(self).spans()[key], span.events@.last())
                    &&& final(self).spans() == old(self).spans().insert(key, span)
                },
                None => final(self).spans() == old(self).spans(),
            },
    {
        let id = match self.event_parent(&event) {
            Some(id) => id,
            None => return,
        };
        let key: usize = id_to_idx(&id);
        let stored = BigEvent::new(event, id);
        if let Some(number) = self.spans.get(key) {
            if let Some(mut span) = self.records.remove(&number) {
                span.push_event(stored);
                self.records.insert(number, span);
                assert(self.spans() =~= old(self).spans().insert(key, span));
                assert(span.events@.last() == stored);
            }
        }
    }

    /// Closes the span with this id, if it is open, and returns `true`.
    pub fn try_close(&mut self, id: Id) -> (closed: bool)
        requires
            old(self).wf(),
            crate::id::has_index(id),
        ensures
            final(self).wf(),
            closed,
            final(self).entered() == old(self).entered(),
            final(self).opened() == old(self).opened(),
            final(self).spans() == old(self).spans().remove(crate::id::id_index(id)),
    {
        let _ = self.take(id);
        true
    }
}

/// The id of a new span, given the key under which it was stored, if it was.
pub fn new_span_id(slot: Option<usize>) -> (id: Option<Id>)
    requires
        slot matches Some(key) ==> key < usize::MAX,
    ensures
        match slot {
            Some(key) => id matches Some(id) && id@ == key + 1,
            None => id is None,
        },
{
    match slot {
        Some(key) => Some(idx_to_id(key)),
        None => None,
    }
}

/// Opening a span makes it open, under its id, and leaves the other open spans as they are.
pub proof fn law_opening_adds_one(before: Map<usize, BigSpan>, id: Id, span: BigSpan, other: Id)
    requires
        crate::id::has_index(id),
        !crate::trail::is_open(before, id),
    ensures
        ({
            let after = before.insert(crate::id::id_index(id), span);
            &&& crate::trail::is_open(after, id)
            &&& crate::trail::span_of(after, id) == span
            &&& crate::trail::is_open(before, other) ==> crate::trail::is_open(after, other)
                && crate::trail::span_of(after, other) == crate::trail::span_of(before, other)
        }),
{
}

/// Closing a span makes it not open, and leaves the other open spans as they are.
pub proof fn law_closing_removes_one(before: Map<usize, BigSpan>, id: Id, other: Id)
    ensures
        ({
            let after = before.remove(crate::id::id_index(id));
            &&& !crate::trail::is_open(after, id)
            &&& crate::id::id_index(other) != crate::id::id_index(id) ==> {
                &&& crate::trail::is_open(after, other) == crate::trail::is_open(before, other)
                &&& crate::trail::span_of(after, other) == crate::trail::span_of(before, other)
            }
        }),
{
}

/// Closing a span right after it was opened brings back the open spans from before.
pub proof fn law_close_undoes_open(before: Map<usize, BigSpan>, key: usize, span: BigSpan)
    requires
        !before.contains_key(key),
    ensures
        before.insert(key, span).remove(key) == before,
{
    assert(before.insert(key, span).remove(key) =~= before);
}

/// Closing a span that is not open changes nothing, so closing one twice is closing it once.
pub proof fn law_closing_twice_is_closing_once(before: Map<usize, BigSpan>, key: usize)
    ensures
        before.remove(key).remove(key) == before.remove(key),
{
    assert(before.remove(key).remove(key) =~= before.remove(key));
}

/// Storing an event leaves the spans that it does not belong to as they are, and the one that it
/// belongs to but for the event, which comes after the ones before it.
pub proof fn law_event_changes_one(
    before: Map<usize, BigSpan>,
    key: usize,
    after: BigSpan,
    stored: BigEvent,
    other: usize,
)
    requires
        before.contains_key(key),
        after.gained(before[key], stored),
    ensures
        ({
            let spans = before.insert(key, after);
            &&& spans.dom() == before.dom()
            &&& spans[key].events@.drop_last() == before[key].events@
            &&& spans[key].events@.last() == stored
            &&& other != key && before.contains_key(other) ==> spans[other] == before[other]
        }),
{
    assert(before.insert(key, after).dom() =~= before.dom());
    assert(after.events@.drop_last() =~= before[key].events@);
}

/// There is room for at least what half as many pages as `usize` has bits hold, of which the first
/// has 32 places and each other one twice as many as the one before it.
pub proof fn law_room_is_all_pages()
    ensures
        room() == 32 * (vstd::arithmetic::power2::pow2((usize::BITS / 2) as nat) - 1),
{
    vstd::arithmetic::power2::lemma2_to64();
}

} // verus!
