//! The trail of a span: the spans around it, beginning with the root of its trace, and then itself.

use vstd::prelude::*;

use crate::id::Id;
use crate::registry::Registry;
use crate::span::BigSpan;

verus! {

/// Whether the span with this id is open.
pub open spec fn is_open(spans: Map<usize, BigSpan>, id: Id) -> bool {
    crate::id::has_index(id) && spans.contains_key(crate::id::id_index(id))
}

/// The open span with this id.
pub open spec fn span_of(spans: Map<usize, BigSpan>, id: Id) -> BigSpan {
    spans[crate::id::id_index(id)]
}

/// The span to go on to from the span `id` on the way up to the root, having come from `last`: its
/// parent, unless that is where the way came from.
pub open spec fn next_up(spans: Map<usize, BigSpan>, id: Id, last: Option<Id>) -> Option<Id> {
    if span_of(spans, id).parent == last {
        None
    } else {
        span_of(spans, id).parent
    }
}

/// Whether `trail` is the way from the root down to its last span, which is left towards `last`:
/// each of its spans is open, each comes right after the one to go on to from it on the way up, and
/// from the first one there is none.
pub open spec fn is_trail(spans: Map<usize, BigSpan>, trail: Seq<Id>, last: Option<Id>) -> bool
    decreases trail.len(),
{
    &&& trail.len() > 0
    &&& is_open(spans, trail.last())
    &&& match next_up(spans, trail.last(), last) {
        Some(parent) => {
            &&& trail.len() > 1
            &&& trail.drop_last().last() == parent
            &&& is_trail(spans, trail.drop_last(), Some(trail.last()))
        },
        None => trail.len() == 1,
    }
}

/// Whether the way up from the span `id` to a root is finite and all of it is open.
pub open spec fn has_trail(spans: Map<usize, BigSpan>, id: Id) -> bool {
    exists|trail: Seq<Id>| #[trigger] is_trail(spans, trail, None) && trail.last() == id
}

/// The spans around the span `id`, beginning with the root of its trace, and then itself.
pub open spec fn trail_of(spans: Map<usize, BigSpan>, id: Id) -> Seq<Id> {
    choose|trail: Seq<Id>| #[trigger] is_trail(spans, trail, None) && trail.last() == id
}

/// Whether `f`, applied to the span `id` in the state `before`, can lead to the state `after` and to
/// `outcome`.
pub open spec fn visits<S, E, N: Fn(S, &Id, &BigSpan) -> (S, Result<(), E>)>(
    f: N,
    spans: Map<usize, BigSpan>,
    id: Id,
    before: S,
    after: S,
    outcome: Result<(), E>,
) -> bool {
    call_ensures(f, (before, &id, &span_of(spans, id)), (after, outcome))
}

/// Whether application number `i` of `f`, to the span at that place in `trail`, can lead from one of
/// `states` to the next one and to `outcome`.
pub open spec fn visits_at<S, E, N: Fn(S, &Id, &BigSpan) -> (S, Result<(), E>)>(
    f: N,
    spans: Map<usize, BigSpan>,
    trail: Seq<Id>,
    states: Seq<S>,
    i: int,
    outcome: Result<(), E>,
) -> bool {
    visits(f, spans, trail[i], states[i], states[i + 1], outcome)
}

/// Whether `f`, applied to the first spans of `trail` in order, can lead through `states`: every
/// application but the last one gives no error, and the last one gives `result`.
///
/// Without an error, `f` is applied to all of `trail`.
pub open spec fn visited_through<S, E, N: Fn(S, &Id, &BigSpan) -> (S, Result<(), E>)>(
    f: N,
    spans: Map<usize, BigSpan>,
    trail: Seq<Id>,
    states: Seq<S>,
    result: Result<(), E>,
) -> bool {
    let calls = states.len() - 1;
    &&& 0 <= calls <= trail.len()
    &&& forall|i: int|
        0 <= i < calls - 1 ==> #[trigger] visits_at(f, spans, trail, states, i, Ok::<(), E>(()))
    &&& calls > 0 ==> visits_at(f, spans, trail, states, calls - 1, result)
    &&& match result {
        Ok(_) => calls == trail.len(),
        Err(_) => calls > 0,
    }
}

/// Whether `f`, applied to the spans of `trail` in order, from the state `before` on and up to the
/// first error, can lead to the state `after` and to `result`.
pub open spec fn visited<S, E, N: Fn(S, &Id, &BigSpan) -> (S, Result<(), E>)>(
    f: N,
    spans: Map<usize, BigSpan>,
    trail: Seq<Id>,
    before: S,
    after: S,
    result: Result<(), E>,
) -> bool {
    exists|states: Seq<S>| #[trigger]
        visited_through(f, spans, trail, states, result) && states.first() == before
            && states.last() == after
}

/// Whether `f` can be applied to the spans of `trail` in order, from the state `before` on and up to
/// the first error: it accepts each of them in every state to which the ones before it can lead.
pub open spec fn accepts_trail<S, E, N: Fn(S, &Id, &BigSpan) -> (S, Result<(), E>)>(
    f: N,
    spans: Map<usize, BigSpan>,
    trail: Seq<Id>,
    before: S,
) -> bool {
    forall|s: S, i: int|
        0 <= i < trail.len() && #[trigger] visited(
            f,
            spans,
            trail.take(i),
            before,
            s,
            Ok::<(), E>(()),
        ) ==> call_requires(f, (s, &trail[i], &span_of(spans, trail[i])))
}

proof fn lemma_visited_none<S, E, N: Fn(S, &Id, &BigSpan) -> (S, Result<(), E>)>(
    f: N,
    spans: Map<usize, BigSpan>,
    trail: Seq<Id>,
    state: S,
)
    requires
        trail.len() == 0,
    ensures
        visited(f, spans, trail, state, state, Ok::<(), E>(())),
{
    assert(visited_through(f, spans, trail, seq![state], Ok::<(), E>(())));
}

proof fn lemma_visited_stop<S, E, N: Fn(S, &Id, &BigSpan) -> (S, Result<(), E>)>(
    f: N,
    spans: Map<usize, BigSpan>,
    trail: Seq<Id>,
    before: S,
    after: S,
    result: Result<(), E>,
)
    requires
        trail.len() > 0,
        visited(f, spans, trail.drop_last(), before, after, result),
        result is Err,
    ensures
        visited(f, spans, trail, before, after, result),
{
    let above = trail.drop_last();
    let states = choose|states: Seq<S>| #[trigger]
        visited_through(f, spans, above, states, result) && states.first() == before
            && states.last() == after;
    assert forall|i: int| 0 <= i < states.len() - 2 implies #[trigger] visits_at(
        f,
        spans,
        trail,
        states,
        i,
        Ok::<(), E>(()),
    ) by {
        assert(visits_at(f, spans, above, states, i, Ok::<(), E>(())));
    }
    assert(visited_through(f, spans, trail, states, result));
}

proof fn lemma_visited_next<S, E, N: Fn(S, &Id, &BigSpan) -> (S, Result<(), E>)>(
    f: N,
    spans: Map<usize, BigSpan>,
    trail: Seq<Id>,
    before: S,
    between: S,
    after: S,
    result: Result<(), E>,
)
    requires
        trail.len() > 0,
        visited(f, spans, trail.drop_last(), before, between, Ok::<(), E>(())),
        visits(f, spans, trail.last(), between, after, result),
    ensures
        visited(f, spans, trail, before, after, result),
{
    let above = trail.drop_last();
    let states = choose|states: Seq<S>| #[trigger]
        visited_through(f, spans, above, states, Ok::<(), E>(())) && states.first() == before
            && states.last() == between;
    let longer = states.push(after);
    let none = Ok::<(), E>(());
    assert forall|i: int| 0 <= i < longer.len() - 2 implies #[trigger] visits_at(
        f,
        spans,
        trail,
        longer,
        i,
        none,
    ) by {
        assert(visits_at(f, spans, above, states, i, none));
    }
    assert(visits_at(f, spans, trail, longer, longer.len() - 2, result));
    assert(visited_through(f, spans, trail, longer, result));
}

impl BigSpan {
    /// Applies `f` to the spans of the trail of this span, which has the id `my_id` and is left
    /// towards `last_id`: to the root first and to this span last, up to the first error.
    ///
    /// The call stack holds the way up while the spans are visited on the way down.
    pub(crate) fn with_parent<S, E, N: Fn(S, &Id, &BigSpan) -> (S, Result<(), E>)>(
        &self,
        my_id: &Id,
        last_id: Option<Id>,
        state: S,
        f: &N,
        registry: &Registry,
        Ghost(trail): Ghost<Seq<Id>>,
    ) -> (end: (S, Result<(), E>))
        requires
            registry.wf(),
            is_trail(registry.spans(), trail, last_id),
            trail.last() == *my_id,
            *self == span_of(registry.spans(), *my_id),
            accepts_trail::<S, E, N>(*f, registry.spans(), trail, state),
        ensures
            visited(*f, registry.spans(), trail, state, end.0, end.1),
        decreases trail.len(),
    {
        let ghost spans = registry.spans();
        let ghost above = trail.drop_last();
        let ghost before = state;
        let mut state = state;
        if let Some(parent_id) = self.parent {
            let came_from = match last_id {
                Some(last_id) => last_id == parent_id,
                None => false,
            };
            if !came_from {
                assert(is_trail(spans, above, Some(*my_id)));
                assert(is_open(spans, parent_id));
                if let Some(parent) = registry.get(&parent_id) {
                    assert forall|s: S, i: int|
                        0 <= i < above.len() && #[trigger] visited(
                            *f,
                            spans,
                            above.take(i),
                            before,
                            s,
                            Ok::<(), E>(()),
                        ) implies call_requires(f, (s, &above[i], &span_of(spans, above[i]))) by {
                        assert(above.take(i) =~= trail.take(i));
                    }
                    let (between, outcome) = parent.with_parent(
                        &parent_id,
                        Some(*my_id),
                        state,
                        f,
                        registry,
                        Ghost(above),
                    );
                    if outcome.is_err() {
                        proof {
                            lemma_visited_stop(*f, spans, trail, before, between, outcome);
                        }
                        return (between, outcome);
                    }
                    assert(outcome->Ok_0 == ());
                    state = between;
                }
            }
        }
        proof {
            if above.len() == 0 {
                lemma_visited_none::<S, E, N>(*f, spans, above, before);
            }
        }
        let ghost between = state;
        assert(trail.take(trail.len() - 1) =~= above);
        assert(visited(*f, spans, above, before, between, Ok::<(), E>(())));
        let (state, result) = f(state, my_id, self);
        proof {
            lemma_visited_next(*f, spans, trail, before, between, state, result);
        }
        (state, result)
    }
}

impl Registry {
    /// Whether the span with this id is open.
    pub fn is_open(&self, id: &Id) -> (open: bool)
        requires
            self.wf(),
        ensures
            open == is_open(self.spans(), *id),
    {
        #[verifier::truncate]
        let value: usize = id.into_u64() as usize;
        value > 0 && self.get(id).is_some()
    }

    /// The trail of the span `id`, if it has one.
    pub fn trail(&self, id: &Id) -> (trail: Option<Vec<Id>>)
        requires
            self.wf(),
        ensures
            match trail {
                Some(trail) => {
                    &&& has_trail(self.spans(), *id)
                    &&& trail@ == trail_of(self.spans(), *id)
                },
                None => !has_trail(self.spans(), *id),
            },
    {
        let limit: u128 = self.len() as u128 + 2;
        let trail = self.trail_towards(id, None, limit);
        proof {
            if has_trail(self.spans(), *id) {
                law_trail_is_short(self.spans(), trail_of(self.spans(), *id));
            }
            if trail is Some {
                let trail = trail->0;
                law_trail_is_unique(self.spans(), trail@, trail_of(self.spans(), *id), None);
            }
        }
        trail
    }

    /// The trail of the span `id`, left towards `last`, if it has one of at most `limit` spans.
    fn trail_towards(&self, id: &Id, last: Option<Id>, limit: u128) -> (trail: Option<Vec<Id>>)
        requires
            self.wf(),
        ensures
            match trail {
                Some(trail) => is_trail(self.spans(), trail@, last) && trail@.last() == *id,
                None => forall|trail: Seq<Id>| #[trigger]
                    is_trail(self.spans(), trail, last) && trail.last() == *id ==> trail.len()
                        > limit,
            },
        decreases limit,
    {
        if limit == 0 || !self.is_open(id) {
            return None;
        }
        let span = self.get(id)?;
        let above = match span.parent {
            Some(parent) => {
                let came_from = match last {
                    Some(last) => last == parent,
                    None => false,
                };
                if came_from {
                    Some(Vec::new())
                } else {
                    self.trail_towards(&parent, Some(*id), limit - 1)
                }
            },
            None => Some(Vec::new()),
        };
        match above {
            Some(mut trail) => {
                let ghost above = trail@;
                trail.push(*id);
                assert(trail@.drop_last() =~= above);
                Some(trail)
            },
            None => {
                assert forall|trail: Seq<Id>| #[trigger]
                    is_trail(self.spans(), trail, last) && trail.last() == *id implies trail.len()
                    > limit by {
                    assert(is_trail(self.spans(), trail.drop_last(), Some(*id)));
                }
                None
            },
        }
    }
}

/// No span has two trails.
pub proof fn law_trail_is_unique(
    spans: Map<usize, BigSpan>,
    a: Seq<Id>,
    b: Seq<Id>,
    last: Option<Id>,
)
    requires
        is_trail(spans, a, last),
        is_trail(spans, b, last),
        a.last() == b.last(),
    ensures
        a == b,
    decreases a.len(),
{
    if a.len() > 1 {
        law_trail_is_unique(spans, a.drop_last(), b.drop_last(), Some(a.last()));
    }
    assert(a =~= a.drop_last().push(a.last()));
    assert(b =~= b.drop_last().push(b.last()));
    assert(a.drop_last() =~= b.drop_last());
}

/// On a trail all spans are open and each one is the parent of the one after it. The first one has
/// no parent, or the one after it. No span comes right before and right after the same one.
pub proof fn law_trail_descends(spans: Map<usize, BigSpan>, trail: Seq<Id>, last: Option<Id>)
    requires
        is_trail(spans, trail, last),
    ensures
        forall|i: int| 0 <= i < trail.len() ==> is_open(spans, #[trigger] trail[i]),
        forall|i: int|
            0 < i < trail.len() ==> span_of(spans, #[trigger] trail[i]).parent == Some(
                trail[i - 1],
            ),
        ({
            let parent = span_of(spans, trail.first()).parent;
            parent is None || parent == (if trail.len() > 1 {
                Some(trail[1])
            } else {
                last
            })
        }),
        forall|i: int|
            0 < i < trail.len() - 1 ==> trail[i - 1] != (#[trigger] trail[i + 1]),
    decreases trail.len(),
{
    if trail.len() > 1 {
        let above = trail.drop_last();
        law_trail_descends(spans, above, Some(trail.last()));
        assert forall|i: int| 0 < i < trail.len() - 1 implies trail[i - 1] != (
        #[trigger] trail[i + 1]) by {
            assert(above[i - 1] == trail[i - 1]);
            if i + 1 < above.len() {
                assert(above[i + 1] == trail[i + 1]);
            } else {
                assert(is_trail(spans, above, Some(trail.last())));
                assert(above.drop_last().last() == above[i - 1]);
            }
        }
        assert forall|i: int| 0 <= i < trail.len() implies is_open(spans, #[trigger] trail[i]) by {
            if i < above.len() {
                assert(above[i] == trail[i]);
            }
        }
        assert forall|i: int| 0 < i < trail.len() implies span_of(
            spans,
            #[trigger] trail[i],
        ).parent == Some(trail[i - 1]) by {
            assert(above[i - 1] == trail[i - 1]);
            if i < above.len() {
                assert(above[i] == trail[i]);
            }
        }
        assert(above.first() == trail.first());
    }
}

/// A span comes twice on a trail only if it is its own parent, and then it is the first two spans.
pub proof fn law_trail_repeats_only_root(
    spans: Map<usize, BigSpan>,
    trail: Seq<Id>,
    last: Option<Id>,
    i: int,
    j: int,
)
    requires
        is_trail(spans, trail, last),
        0 <= i < j < trail.len(),
        trail[i] == trail[j],
    ensures
        i == 0,
        j == 1,
    decreases i,
{
    law_trail_descends(spans, trail, last);
    assert(span_of(spans, trail[j]).parent == Some(trail[j - 1]));
    if i > 0 {
        assert(span_of(spans, trail[i]).parent == Some(trail[i - 1]));
        law_trail_repeats_only_root(spans, trail, last, i - 1, j - 1);
        assert(trail[i - 1] != trail[i + 1]);
    } else if j > 1 {
        assert(trail[j - 1] == trail[1]);
        assert(span_of(spans, trail[1]).parent == Some(trail[0]));
        assert(span_of(spans, trail[j - 1]).parent == Some(trail[j - 2]));
        assert(trail[(j - 1) - 1] != trail[(j - 1) + 1]);
    }
}

/// A trail is at most two spans longer than there are open spans.
pub proof fn law_trail_is_short(spans: Map<usize, BigSpan>, trail: Seq<Id>)
    requires
        spans.dom().finite(),
        is_trail(spans, trail, None),
    ensures
        trail.len() <= spans.dom().len() + 2,
{
    law_trail_descends(spans, trail, None);
    if trail.len() > 2 {
        let keys = Seq::new((trail.len() - 2) as nat, |i: int| crate::id::id_index(trail[i + 2]));
        assert forall|i: int, j: int| 0 <= i < j < keys.len() implies keys[i] != keys[j] by {
            if keys[i] == keys[j] {
                assert(span_of(spans, trail[i + 2]).parent == Some(trail[i + 1]));
                assert(span_of(spans, trail[j + 2]).parent == Some(trail[j + 1]));
                law_trail_repeats_only_root(spans, trail, None, i + 1, j + 1);
            }
        }
        assert(keys.no_duplicates());
        keys.unique_seq_to_set();
        assert(keys.to_set().subset_of(spans.dom())) by {
            assert forall|key: usize| keys.to_set().contains(key) implies spans.dom().contains(
                key,
            ) by {
                let i = choose|i: int| 0 <= i < keys.len() && keys[i] == key;
                assert(is_open(spans, trail[i + 2]));
            }
        }
        vstd::set_lib::lemma_len_subset(keys.to_set(), spans.dom());
    }
}

/// The trail of an open span without a parent is that span alone.
pub proof fn law_trail_of_root(spans: Map<usize, BigSpan>, id: Id)
    requires
        is_open(spans, id),
        span_of(spans, id).parent is None,
    ensures
        has_trail(spans, id),
        trail_of(spans, id) == seq![id],
{
    assert(is_trail(spans, seq![id], None));
    law_trail_is_unique(spans, seq![id], trail_of(spans, id), None);
}

/// The trail of an open span is the trail of its parent and then that span, unless the two are
/// parents of each other.
pub proof fn law_trail_of_child(spans: Map<usize, BigSpan>, parent: Id, child: Id)
    requires
        is_open(spans, child),
        span_of(spans, child).parent == Some(parent),
        has_trail(spans, parent),
        span_of(spans, parent).parent != Some(child),
    ensures
        has_trail(spans, child),
        trail_of(spans, child) == trail_of(spans, parent).push(child),
{
    let above = trail_of(spans, parent);
    let trail = above.push(child);
    assert(trail.drop_last() =~= above);
    assert(is_trail(spans, above, Some(child)));
    assert(is_trail(spans, trail, None));
    law_trail_is_unique(spans, trail, trail_of(spans, child), None);
}

/// A span keeps its trail as long as no open span is closed or gets another parent: opening spans
/// and storing events does not change it.
pub proof fn law_trail_stays(
    spans: Map<usize, BigSpan>,
    later: Map<usize, BigSpan>,
    trail: Seq<Id>,
    last: Option<Id>,
)
    requires
        is_trail(spans, trail, last),
        forall|key: usize| #[trigger]
            spans.contains_key(key) ==> later.contains_key(key) && later[key].parent
                == spans[key].parent,
    ensures
        is_trail(later, trail, last),
    decreases trail.len(),
{
    if trail.len() > 1 {
        law_trail_stays(spans, later, trail.drop_last(), Some(trail.last()));
    }
}

/// Opening a span under one that has a trail gives the new span that trail and then itself.
pub proof fn law_new_span_extends_trail(
    before: Map<usize, BigSpan>,
    parent: Id,
    child: Id,
    span: BigSpan,
)
    requires
        has_trail(before, parent),
        crate::id::has_index(child),
        !is_open(before, child),
        span.parent == Some(parent),
    ensures
        ({
            let after = before.insert(crate::id::id_index(child), span);
            &&& has_trail(after, child)
            &&& trail_of(after, child) == trail_of(before, parent).push(child)
        }),
{
    let after = before.insert(crate::id::id_index(child), span);
    let above = trail_of(before, parent);
    law_trail_descends(before, above, None);
    law_trail_stays(before, after, above, None);
    law_trail_is_unique(after, above, trail_of(after, parent), None);
    assert(above[above.len() - 1] == parent);
    if above.len() > 1 {
        assert(is_open(before, above[above.len() - 2]));
    }
    law_trail_of_child(after, parent, child);
}

/// A span is open exactly if one is stored one below its number, and that is the span.
pub proof fn law_open_span_is_stored(spans: Map<usize, BigSpan>, id: Id)
    ensures
        is_open(spans, id) <==> (id@ as usize) != 0 && spans.contains_key(
            ((id@ as usize) - 1) as usize,
        ),
        is_open(spans, id) ==> span_of(spans, id) == spans[((id@ as usize) - 1) as usize],
{
}

/// What `trail_of` gives is the one trail of a span, if it has one.
pub proof fn law_trail_of_is_the_trail(spans: Map<usize, BigSpan>, id: Id, trail: Seq<Id>)
    ensures
        has_trail(spans, id) ==> is_trail(spans, trail_of(spans, id), None) && trail_of(
            spans,
            id,
        ).last() == id,
        is_trail(spans, trail, None) && trail.last() == id ==> has_trail(spans, id) && trail_of(
            spans,
            id,
        ) == trail,
{
    if is_trail(spans, trail, None) && trail.last() == id {
        law_trail_is_unique(spans, trail, trail_of(spans, id), None);
    }
}

/// Open spans of which each is the parent of the one after it are a trail, whatever else they are,
/// if the first one has no parent or the one after it, and no other one has the one after it as its
/// parent.
pub proof fn law_way_down_is_trail(spans: Map<usize, BigSpan>, trail: Seq<Id>, last: Option<Id>)
    requires
        trail.len() > 0,
        forall|i: int|
            0 <= i < trail.len() ==> ((#[trigger] trail[i])@ as usize) != 0 && spans.contains_key(
                ((trail[i]@ as usize) - 1) as usize,
            ),
        forall|i: int, j: int|
            0 <= i < j < trail.len() && j == i + 1 ==> spans[(((#[trigger] trail[j])@ as usize)
                - 1) as usize].parent == Some(#[trigger] trail[i]),
        forall|i: int, j: int|
            0 <= i < j < trail.len() && j == i + 2 ==> (#[trigger] trail[i]) != (
            #[trigger] trail[j]),
        trail.len() > 1 ==> last != Some(trail[trail.len() - 2]),
        ({
            let next = if trail.len() > 1 {
                Some(trail[1])
            } else {
                last
            };
            let parent = spans[((trail[0]@ as usize) - 1) as usize].parent;
            parent is None || parent == next
        }),
    ensures
        is_trail(spans, trail, last),
    decreases trail.len(),
{
    let n = trail.len() as int;
    let id = trail[n - 1];
    assert(is_open(spans, id));
    if n > 1 {
        let above = trail.drop_last();
        assert(span_of(spans, id).parent == Some(trail[n - 2]));
        assert(above.last() == trail[n - 2]);
        if n > 2 {
            assert(above[n - 3] == trail[n - 3]);
        }
        law_way_down_is_trail(spans, above, Some(id));
    }
}

/// A visit without an error applies the function to every span of the trail, whatever it is, in
/// order and once: each application starts from the state that the one before it led to.
pub proof fn law_visit_applies_to_every_span<
    S,
    E,
    N: Fn(S, &Id, &BigSpan) -> (S, Result<(), E>),
>(f: N, spans: Map<usize, BigSpan>, trail: Seq<Id>, before: S, after: S)
    ensures
        visited(f, spans, trail, before, after, Ok::<(), E>(())) <==> exists|states: Seq<S>|
            {
                &&& states.len() == trail.len() + 1
                &&& (#[trigger] states.first()) == before
                &&& states.last() == after
                &&& forall|i: int|
                    0 <= i < trail.len() ==> call_ensures(
                        f,
                        (
                            states[i],
                            &(#[trigger] trail[i]),
                            &spans[((trail[i]@ as usize) - 1) as usize],
                        ),
                        (states[i + 1], Ok::<(), E>(())),
                    )
            },
{
    let none = Ok::<(), E>(());
    if visited(f, spans, trail, before, after, none) {
        let states = choose|states: Seq<S>| #[trigger]
            visited_through(f, spans, trail, states, none) && states.first() == before
                && states.last() == after;
        assert forall|i: int| 0 <= i < trail.len() implies call_ensures(
            f,
            (states[i], &(#[trigger] trail[i]), &spans[((trail[i]@ as usize) - 1) as usize]),
            (states[i + 1], none),
        ) by {
            assert(visits_at(f, spans, trail, states, i, none));
        }
        assert(states.first() == before);
    }
    if exists|states: Seq<S>|
        {
            &&& states.len() == trail.len() + 1
            &&& (#[trigger] states.first()) == before
            &&& states.last() == after
            &&& forall|i: int|
                0 <= i < trail.len() ==> call_ensures(
                    f,
                    (
                        states[i],
                        &(#[trigger] trail[i]),
                        &spans[((trail[i]@ as usize) - 1) as usize],
                    ),
                    (states[i + 1], none),
                )
        } {
        let states = choose|states: Seq<S>|
            {
                &&& states.len() == trail.len() + 1
                &&& (#[trigger] states.first()) == before
                &&& states.last() == after
                &&& forall|i: int|
                    0 <= i < trail.len() ==> call_ensures(
                        f,
                        (
                            states[i],
                            &(#[trigger] trail[i]),
                            &spans[((trail[i]@ as usize) - 1) as usize],
                        ),
                        (states[i + 1], none),
                    )
            };
        assert forall|i: int| 0 <= i < trail.len() implies #[trigger] visits_at(
            f,
            spans,
            trail,
            states,
            i,
            none,
        ) by {
            let id = trail[i];
        }
        assert(visited_through(f, spans, trail, states, none));
    }
}

/// A visit with an error applies the function in the same way up to some span, whatever that is, for
/// which it gives that error, and to none after it.
pub proof fn law_visit_stops_at_first_error<S, E, N: Fn(S, &Id, &BigSpan) -> (S, Result<(), E>)>(
    f: N,
    spans: Map<usize, BigSpan>,
    trail: Seq<Id>,
    before: S,
    after: S,
    error: E,
)
    ensures
        visited(f, spans, trail, before, after, Err::<(), E>(error)) <==> exists|
            states: Seq<S>,
        |
            {
                &&& 2 <= states.len() <= trail.len() + 1
                &&& (#[trigger] states.first()) == before
                &&& states.last() == after
                &&& forall|i: int|
                    0 <= i < states.len() - 1 ==> call_ensures(
                        f,
                        (
                            states[i],
                            &(#[trigger] trail[i]),
                            &spans[((trail[i]@ as usize) - 1) as usize],
                        ),
                        (
                            states[i + 1],
                            if i + 2 < states.len() {
                                Ok(())
                            } else {
                                Err(error)
                            },
                        ),
                    )
            },
{
    let none = Ok::<(), E>(());
    let stop = Err::<(), E>(error);
    if visited(f, spans, trail, before, after, stop) {
        let states = choose|states: Seq<S>| #[trigger]
            visited_through(f, spans, trail, states, stop) && states.first() == before
                && states.last() == after;
        assert forall|i: int| 0 <= i < states.len() - 1 implies call_ensures(
            f,
            (states[i], &(#[trigger] trail[i]), &spans[((trail[i]@ as usize) - 1) as usize]),
            (
                states[i + 1],
                if i + 2 < states.len() {
                    none
                } else {
                    stop
                },
            ),
        ) by {
            if i + 2 < states.len() {
                assert(visits_at(f, spans, trail, states, i, none));
            }
        }
        assert(states.first() == before);
    }
    if exists|states: Seq<S>|
        {
            &&& 2 <= states.len() <= trail.len() + 1
            &&& (#[trigger] states.first()) == before
            &&& states.last() == after
            &&& forall|i: int|
                0 <= i < states.len() - 1 ==> call_ensures(
                    f,
                    (
                        states[i],
                        &(#[trigger] trail[i]),
                        &spans[((trail[i]@ as usize) - 1) as usize],
                    ),
                    (
                        states[i + 1],
                        if i + 2 < states.len() {
                            none
                        } else {
                            stop
                        },
                    ),
                )
        } {
        let states = choose|states: Seq<S>|
            {
                &&& 2 <= states.len() <= trail.len() + 1
                &&& (#[trigger] states.first()) == before
                &&& states.last() == after
                &&& forall|i: int|
                    0 <= i < states.len() - 1 ==> call_ensures(
                        f,
                        (
                            states[i],
                            &(#[trigger] trail[i]),
                            &spans[((trail[i]@ as usize) - 1) as usize],
                        ),
                        (
                            states[i + 1],
                            if i + 2 < states.len() {
                                none
                            } else {
                                stop
                            },
                        ),
                    )
            };
        assert forall|i: int| 0 <= i < states.len() - 2 implies #[trigger] visits_at(
            f,
            spans,
            trail,
            states,
            i,
            none,
        ) by {
            let id = trail[i];
        }
        let id = trail[states.len() - 2];
        assert(visits_at(f, spans, trail, states, states.len() - 2, stop));
        assert(visited_through(f, spans, trail, states, stop));
    }
}

/// A function that accepts every span in every state can be applied to every trail.
pub proof fn law_total_function_accepts_every_trail<
    S,
    E,
    N: Fn(S, &Id, &BigSpan) -> (S, Result<(), E>),
>(f: N, spans: Map<usize, BigSpan>, trail: Seq<Id>, before: S)
    requires
        forall|s: S, id: Id, span: BigSpan| #[trigger] call_requires(f, (s, &id, &span)),
    ensures
        accepts_trail::<S, E, N>(f, spans, trail, before),
{
}

} // verus!
