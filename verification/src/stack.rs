//! The spans that are entered, innermost last.

use std::collections::HashSet;
use vstd::prelude::*;

use crate::id::Id;

verus! {

broadcast use vstd::std_specs::hash::group_hash_axioms;

/// An entered span, and whether it was already entered further out.
#[derive(Debug)]
struct ContextId {
    id: Id,
    duplicate: bool,
}

/// The spans that are entered, in the order in which they were.
///
/// A span can be entered again before it is exited. Its inner entries are marked as duplicates and
/// never make it the current span.
#[derive(Debug)]
pub struct SpanStack {
    stack: Vec<ContextId>,
    ids: HashSet<u64>,
}

/// The current span of a stack of entered spans: the innermost one whose entry is its first.
pub open spec fn current_of(entered: Seq<Id>) -> Option<Id>
    decreases entered.len(),
{
    if entered.len() == 0 {
        None
    } else if entered.drop_last().contains(entered.last()) {
        current_of(entered.drop_last())
    } else {
        Some(entered.last())
    }
}

/// Whether the innermost entered span is `expected`, so that it can be exited.
pub open spec fn can_pop(entered: Seq<Id>, expected: Id) -> bool {
    entered.len() > 0 && entered.last() == expected
}

/// What is left of a stack after an attempt to exit the span `expected`.
pub open spec fn popped(entered: Seq<Id>, expected: Id) -> Seq<Id> {
    if can_pop(entered, expected) {
        entered.drop_last()
    } else {
        entered
    }
}

proof fn lemma_push_contains(entered: Seq<Id>, id: Id, other: Id)
    ensures
        entered.push(id).contains(other) <==> entered.contains(other) || other == id,
{
    if entered.contains(other) {
        let i = choose|i: int| 0 <= i < entered.len() && entered[i] == other;
        assert(entered.push(id)[i] == other);
    }
    if other == id {
        assert(entered.push(id)[entered.len() as int] == other);
    }
}

impl View for SpanStack {
    type V = Seq<Id>;

    closed spec fn view(&self) -> Seq<Id> {
        self.stack@.map_values(|entry: ContextId| entry.id)
    }
}

impl SpanStack {
    /// Each entry is marked as a duplicate exactly where the same span was entered before it, and
    /// `ids` holds the numbers of the entered spans.
    pub closed spec fn wf(&self) -> bool {
        &&& forall|i: int|
            0 <= i < self.stack@.len() ==> (#[trigger] self.stack@[i]).duplicate
                == self@.take(i).contains(self.stack@[i].id)
        &&& forall|id: Id| #[trigger] self@.contains(id) <==> self.ids@.contains(id@)
    }

    /// A stack with no span on it.
    pub fn new() -> (made: SpanStack)
        ensures
            made.wf(),
            made@ == Seq::<Id>::empty(),
    {
        let made = SpanStack { stack: Vec::new(), ids: HashSet::new() };
        assert(made@ =~= Seq::<Id>::empty());
        made
    }

    /// Enters the span `id`.
    pub fn push(&mut self, id: Id)
        requires
            old(self).wf(),
        ensures
            final(self).wf(),
            final(self)@ == old(self)@.push(id),
    {
        let value: u64 = id.into_u64();
        let duplicate = self.ids.contains(&value);
        if !duplicate {
            self.ids.insert(value);
        }
        self.stack.push(ContextId { id, duplicate });
        proof {
            let before = old(self)@;
            assert(self@ =~= before.push(id));
            assert forall|i: int| 0 <= i < self.stack@.len() implies (
            #[trigger] self.stack@[i]).duplicate == self@.take(i).contains(self.stack@[i].id) by {
                assert(self@.take(i) =~= before.take(i));
                if i < before.len() {
                    assert(self.stack@[i] == old(self).stack@[i]);
                } else {
                    assert(before.take(i) =~= before);
                }
            }
            assert forall|other: Id| #[trigger] self@.contains(other) <==> self.ids@.contains(
                other@,
            ) by {
                lemma_push_contains(before, id, other);
                if id@ == other@ {
                    crate::id::law_id_is_its_number(id, other);
                }
                assert(before.contains(other) <==> old(self).ids@.contains(other@));
            }
        }
    }

    /// Exits the span `expected_id`, if it is the innermost one, and returns it; otherwise returns
    /// `None` and changes nothing.
    pub fn pop(&mut self, expected_id: &Id) -> (exited: Option<Id>)
        requires
            old(self).wf(),
        ensures
            final(self).wf(),
            final(self)@ == popped(old(self)@, *expected_id),
            exited == (if can_pop(old(self)@, *expected_id) {
                Some(*expected_id)
            } else {
                None
            }),
    {
        let len: usize = self.stack.len();
        if len == 0 || self.stack[len - 1].id != *expected_id {
            return None;
        }
        let ContextId { id, duplicate } = self.stack.pop()?;
        if !duplicate {
            self.ids.remove(&id.into_u64());
        }
        proof {
            let before = old(self)@;
            assert(self@ =~= before.drop_last());
            assert(before =~= self@.push(id));
            assert(old(self).stack@[len - 1].duplicate == duplicate);
            assert(before.take(len - 1) =~= self@);
            assert forall|i: int| 0 <= i < self.stack@.len() implies (
            #[trigger] self.stack@[i]).duplicate == self@.take(i).contains(self.stack@[i].id) by {
                assert(self@.take(i) =~= before.take(i));
                assert(self.stack@[i] == old(self).stack@[i]);
            }
            assert forall|other: Id| #[trigger] self@.contains(other) <==> self.ids@.contains(
                other@,
            ) by {
                lemma_push_contains(self@, id, other);
                if id@ == other@ {
                    crate::id::law_id_is_its_number(id, other);
                }
                assert(before.contains(other) <==> old(self).ids@.contains(other@));
            }
        }
        Some(id)
    }

    /// The current span: the innermost one whose entry is its first.
    pub fn current(&self) -> (current: Option<&Id>)
        requires
            self.wf(),
        ensures
            match current {
                Some(id) => current_of(self@) == Some(*id),
                None => current_of(self@) is None,
            },
    {
        let mut i: usize = self.stack.len();
        assert(self@.take(i as int) =~= self@);
        while i > 0
            invariant
                self.wf(),
                i <= self.stack@.len(),
                current_of(self@) == current_of(self@.take(i as int)),
            decreases i,
        {
            i -= 1;
            assert(self@.take(i + 1).drop_last() =~= self@.take(i as int));
            assert(self@.take(i + 1).last() == self.stack@[i as int].id);
            if !self.stack[i].duplicate {
                return Some(&self.stack[i].id);
            }
        }
        None
    }
}

/// A stack has a current span exactly when a span is entered.
pub proof fn law_current_iff_entered(entered: Seq<Id>)
    ensures
        current_of(entered) is Some <==> entered.len() > 0,
    decreases entered.len(),
{
    if entered.len() > 0 && entered.drop_last().contains(entered.last()) {
        law_current_iff_entered(entered.drop_last());
    }
}

/// The current span is one of the entered spans.
pub proof fn law_current_is_entered(entered: Seq<Id>)
    requires
        entered.len() > 0,
    ensures
        current_of(entered) matches Some(id) && entered.contains(id),
    decreases entered.len(),
{
    if entered.drop_last().contains(entered.last()) {
        let outer = entered.drop_last();
        law_current_is_entered(outer);
        let i = choose|i: int| 0 <= i < outer.len() && Some(outer[i]) == current_of(outer);
        assert(entered[i] == outer[i]);
    }
}

/// Entering a span that is not entered yet makes it the current span.
pub proof fn law_entering_makes_current(entered: Seq<Id>, id: Id)
    requires
        !entered.contains(id),
    ensures
        current_of(entered.push(id)) == Some(id),
{
    assert(entered.push(id).drop_last() =~= entered);
}

/// Entering a span again leaves the current span as it is.
pub proof fn law_reentering_keeps_current(entered: Seq<Id>, id: Id)
    requires
        entered.contains(id),
    ensures
        current_of(entered.push(id)) == current_of(entered),
{
    assert(entered.push(id).drop_last() =~= entered);
}

/// Exiting a span right after it was entered brings back the stack from before.
pub proof fn law_pop_undoes_push(entered: Seq<Id>, id: Id)
    ensures
        can_pop(entered.push(id), id),
        popped(entered.push(id), id) == entered,
{
    assert(entered.push(id).drop_last() =~= entered);
}

/// What is left of a stack after the spans `exits` are exited, the first one first.
pub open spec fn popped_all(entered: Seq<Id>, exits: Seq<Id>) -> Seq<Id>
    decreases exits.len(),
{
    if exits.len() == 0 {
        entered
    } else {
        popped_all(popped(entered, exits.first()), exits.drop_first())
    }
}

/// Exiting spans in the reverse of the order in which they were entered brings back the stack from
/// before they were entered.
pub proof fn law_balanced_exits_restore(entered: Seq<Id>, ids: Seq<Id>)
    ensures
        popped_all(entered + ids, ids.reverse()) == entered,
    decreases ids.len(),
{
    if ids.len() == 0 {
        assert(entered + ids =~= entered);
    } else {
        let rest = ids.drop_last();
        assert(entered + ids =~= (entered + rest).push(ids.last()));
        law_pop_undoes_push(entered + rest, ids.last());
        assert(ids.reverse().drop_first() =~= rest.reverse());
        law_balanced_exits_restore(entered, rest);
    }
}

/// Exiting a span that is not the innermost one that is entered changes nothing.
pub proof fn law_exit_of_other_span_does_nothing(entered: Seq<Id>, expected: Id)
    requires
        entered.len() == 0 || entered.last() != expected,
    ensures
        !can_pop(entered, expected),
        popped(entered, expected) == entered,
{
}

/// A span is current exactly if it was entered, and every span that was entered after its first
/// entry had been entered before.
pub proof fn law_current_is_last_first_entry(entered: Seq<Id>, id: Id)
    ensures
        current_of(entered) == Some(id) <==> exists|i: int|
            {
                &&& 0 <= i < entered.len()
                &&& (#[trigger] entered[i]) == id
                &&& !entered.take(i).contains(id)
                &&& forall|j: int|
                    i < j < entered.len() ==> entered.take(j).contains(#[trigger] entered[j])
            },
    decreases entered.len(),
{
    if entered.len() > 0 {
        let outer = entered.drop_last();
        let last = entered.len() - 1;
        law_current_is_last_first_entry(outer, id);
        assert(entered.take(last) =~= outer);
        assert forall|j: int| 0 <= j < last implies entered.take(j) == outer.take(j) by {
            assert(entered.take(j) =~= outer.take(j));
        }
        if current_of(entered) == Some(id) {
            if outer.contains(entered.last()) {
                let i = choose|i: int|
                    {
                        &&& 0 <= i < outer.len()
                        &&& (#[trigger] outer[i]) == id
                        &&& !outer.take(i).contains(id)
                        &&& forall|j: int|
                            i < j < outer.len() ==> outer.take(j).contains(#[trigger] outer[j])
                    };
                assert(entered[i] == id);
                assert forall|j: int| i < j < entered.len() implies entered.take(j).contains(
                    #[trigger] entered[j],
                ) by {
                    if j < last {
                        assert(outer[j] == entered[j]);
                    }
                }
            } else {
                assert(entered[last] == id);
            }
        }
        if exists|i: int|
            {
                &&& 0 <= i < entered.len()
                &&& (#[trigger] entered[i]) == id
                &&& !entered.take(i).contains(id)
                &&& forall|j: int|
                    i < j < entered.len() ==> entered.take(j).contains(#[trigger] entered[j])
            } {
            let i = choose|i: int|
                {
                    &&& 0 <= i < entered.len()
                    &&& (#[trigger] entered[i]) == id
                    &&& !entered.take(i).contains(id)
                    &&& forall|j: int|
                        i < j < entered.len() ==> entered.take(j).contains(#[trigger] entered[j])
                };
            if i < last {
                assert(entered.take(last).contains(entered[last]));
                assert(outer[i] == id);
                assert forall|j: int| i < j < outer.len() implies outer.take(j).contains(
                    #[trigger] outer[j],
                ) by {
                    assert(entered.take(j).contains(entered[j]));
                }
            }
        }
    }
}

} // verus!
