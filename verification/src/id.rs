//! Span ids, and how they relate to the keys under which spans are stored.

use vstd::prelude::*;

verus! {

/// The id of a span: a number that is never zero.
#[derive(Clone, Copy, PartialEq, Eq, Structural, Debug, Hash)]
pub struct Id {
    value: u64,
}

impl View for Id {
    type V = u64;

    closed spec fn view(&self) -> u64 {
        self.value
    }
}

/// Whether a span with this id can have a key: its number, cut to the width of `usize`, is not zero.
///
/// Where `usize` is 64 bits wide this holds of every id.
pub open spec fn has_index(id: Id) -> bool {
    (id@ as usize) > 0
}

/// The key of the span with this id: one less than its number, cut to the width of `usize`.
pub open spec fn id_index(id: Id) -> usize {
    ((id@ as usize) - 1) as usize
}

impl Id {
    #[verifier::type_invariant]
    spec fn nonzero(self) -> bool {
        self.value > 0
    }

    /// The id with the number `value`.
    pub fn from_u64(value: u64) -> (id: Id)
        requires
            value > 0,
        ensures
            id@ == value,
    {
        Id { value }
    }

    /// The number of this id, which is never zero.
    pub fn into_u64(&self) -> (value: u64)
        ensures
            value == self@,
            value > 0,
    {
        proof {
            use_type_invariant(self);
        }
        self.value
    }
}

/// The id of the span that is stored under the key `idx`.
pub fn idx_to_id(idx: usize) -> (id: Id)
    requires
        idx < u64::MAX,
    ensures
        id@ == idx + 1,
{
    Id::from_u64(idx as u64 + 1)
}

/// The key under which the span with this id is stored.
pub fn id_to_idx(id: &Id) -> (idx: usize)
    requires
        has_index(*id),
    ensures
        idx == id_index(*id),
        idx == (id@ as usize) - 1,
{
    #[verifier::truncate]
    let value: usize = id.into_u64() as usize;
    value - 1
}

/// Ids with the same number are the same id.
pub proof fn law_id_is_its_number(a: Id, b: Id)
    requires
        a@ == b@,
    ensures
        a == b,
{
}

/// Turning a key into an id and back gives the key again.
pub proof fn law_key_survives_round_trip(idx: usize, id: Id)
    requires
        idx < usize::MAX,
        id@ == idx + 1,
    ensures
        has_index(id),
        id_index(id) == idx,
{
}

/// Turning an id into a key and back gives the id again, for every id that fits in `usize`.
pub proof fn law_id_survives_round_trip(id: Id, back: Id)
    requires
        0 < id@ <= usize::MAX,
        back@ == id_index(id) + 1,
    ensures
        back == id,
{
}

/// An id has a key unless nothing is left of its number in the width of `usize`, and the key is one
/// less than what is left. Ids that fit in `usize` have the same key only if they are the same.
pub proof fn law_key_is_number_less_one(id: Id, other: Id)
    ensures
        has_index(id) <==> (id@ as usize) != 0,
        has_index(id) ==> id_index(id) + 1 == (id@ as usize),
        0 < id@ <= usize::MAX ==> has_index(id) && id_index(id) + 1 == id@,
        0 < id@ <= usize::MAX && 0 < other@ <= usize::MAX && id_index(id) == id_index(other) ==> id
            == other,
{
}

} // verus!
