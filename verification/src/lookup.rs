//! How the spans of a subscriber are looked up and what can be asked of one.

use vstd::prelude::*;

use crate::id::{id_to_idx, Id};
use crate::metadata::Metadata;
use crate::registry::Registry;
use crate::span::BigSpan;

verus! {

/// A subscriber whose spans can be looked up by their ids.
pub trait LookupSpan<'a> {
    /// What is known of a span that was looked up.
    type Span: SpanData<'a>;

    /// Whether the span with this id can be looked up.
    spec fn can_look_up(&self, id: Id) -> bool;

    /// Whether looking up the span with this id can give `span`.
    spec fn looks_up(&self, id: Id, span: Option<Self::Span>) -> bool;

    /// Looks up the span with this id.
    fn span(&'a self, id: &Id) -> (span: Option<Self::Span>)
        requires
            self.can_look_up(*id),
        ensures
            self.looks_up(*id, span),
    ;
}

/// What can be asked of a span.
pub trait SpanData<'a> {
    /// The number of the id that `id` returns; where it is zero, there is no such id.
    spec fn id_number(&self) -> u64;

    /// What `metadata` returns.
    spec fn described_by(&self) -> Metadata;

    /// What `parent` returns.
    spec fn child_of(&self) -> Option<Id>;

    /// The id of the span.
    fn id(&self) -> (id: Id)
        requires
            self.id_number() > 0,
        ensures
            id@ == self.id_number(),
    ;

    /// The description of the span.
    fn metadata(&self) -> (metadata: &Metadata)
        ensures
            *metadata == self.described_by(),
    ;

    /// The parent of the span.
    fn parent(&self) -> (parent: Option<&Id>)
        ensures
            match parent {
                Some(parent) => self.child_of() == Some(*parent),
                None => self.child_of() is None,
            },
    ;
}

/// A place for values of any type, at most one of each.
pub trait Extensions {
    /// The value of the type `T`.
    fn get<T: 'static>(&self) -> Option<&T>;

    /// The value of the type `T`, to be changed.
    fn get_mut<T: 'static>(&mut self) -> Option<&mut T>;

    /// Puts in a value of the type `T` and gives out the one that it replaces.
    fn insert<T: 'static>(&mut self, t: T) -> Option<T>;

    /// Takes out the value of the type `T`.
    fn remove<T: 'static>(&mut self) -> Option<T>;
}

/// An open span that was looked up in the registry.
#[derive(Clone, Copy, Debug)]
pub struct SpanRef<'a> {
    /// The key under which the span is stored.
    pub key: usize,
    /// The span.
    pub span: &'a BigSpan,
}

impl<'a> SpanData<'a> for SpanRef<'a> {
    /// The key of the span, which is one less than the number under which it is looked up.
    open spec fn id_number(&self) -> u64 {
        self.key as u64
    }

    open spec fn described_by(&self) -> Metadata {
        self.span.metadata
    }

    open spec fn child_of(&self) -> Option<Id> {
        self.span.parent
    }

    fn id(&self) -> (id: Id) {
        Id::from_u64(self.key as u64)
    }

    fn metadata(&self) -> (metadata: &Metadata) {
        &self.span.metadata
    }

    fn parent(&self) -> (parent: Option<&Id>) {
        match &self.span.parent {
            Some(parent) => Some(parent),
            None => None,
        }
    }
}

impl<'a> LookupSpan<'a> for Registry {
    type Span = SpanRef<'a>;

    open spec fn can_look_up(&self, id: Id) -> bool {
        self.wf() && crate::id::has_index(id)
    }

    open spec fn looks_up(&self, id: Id, span: Option<SpanRef<'a>>) -> bool {
        match span {
            Some(found) => {
                &&& crate::trail::is_open(self.spans(), id)
                &&& found.key == crate::id::id_index(id)
                &&& *found.span == crate::trail::span_of(self.spans(), id)
            },
            None => !crate::trail::is_open(self.spans(), id),
        }
    }

    fn span(&'a self, id: &Id) -> (span: Option<SpanRef<'a>>) {
        match self.get(id) {
            Some(span) => Some(SpanRef { key: id_to_idx(id), span }),
            None => None,
        }
    }
}

/// The id that a span gives of itself is one less than the one under which it was looked up.
pub proof fn law_own_id_is_key<'a>(registry: Registry, id: Id, found: SpanRef<'a>)
    requires
        0 < id@ <= usize::MAX,
        registry.looks_up(id, Some(found)),
    ensures
        found.id_number() == id@ - 1,
{
}

/// Looking up a span gives the one that is stored one below its number, whatever it is, and nothing
/// exactly if none is stored there.
pub proof fn law_lookup_finds_what_is_stored<'a>(
    registry: Registry,
    id: Id,
    found: Option<SpanRef<'a>>,
)
    requires
        (id@ as usize) != 0,
        registry.looks_up(id, found),
    ensures
        registry.wf() ==> registry.can_look_up(id),
        ({
            let key = ((id@ as usize) - 1) as usize;
            match found {
                Some(found) => {
                    &&& registry.spans().contains_key(key)
                    &&& found.key == key
                    &&& *found.span == registry.spans()[key]
                },
                None => !registry.spans().contains_key(key),
            }
        }),
{
}

/// A span that was looked up tells its key, its description and its parent.
pub proof fn law_found_span_tells_what_is_stored<'a>(found: SpanRef<'a>)
    ensures
        found.id_number() == found.key,
        found.described_by() == found.span.metadata,
        found.child_of() == found.span.parent,
{
}

} // verus!
