//! The slab that hands out the keys of spans.
//!
//! `sharded_slab::Slab` keeps a number for each open span. Its methods take a shared reference and
//! may be called from many threads; here each one that changes the slab takes it exclusively, so
//! that what it holds can be followed from call to call. It also keeps no record of the keys that it
//! has not handed out: asking for one can find a slot that is vacant but looks occupied, which makes
//! `get` panic and `take` free the slot a second time. So both are asked only for keys in use.

use sharded_slab::Slab;
use vstd::prelude::*;

verus! {

/// A `sharded_slab::Slab` with the default configuration that holds numbers.
#[verifier::external_body]
#[derive(Debug)]
pub struct NumberSlab {
    slab: Slab<u64>,
}

/// The numbers that a slab holds, each under its key.
pub uninterp spec fn slab_numbers(slab: NumberSlab) -> Map<usize, u64>;

impl NumberSlab {
    /// Calls `Slab::new`: the slab that it returns holds nothing.
    #[verifier::external_body]
    pub(crate) fn new() -> (made: NumberSlab)
        ensures
            slab_numbers(made).dom() == Set::<usize>::empty(),
    {
        NumberSlab { slab: Slab::new() }
    }

    /// Calls `Slab::insert`, which returns the key under which the slab now holds `number`, or
    /// `None`, in which case the slab holds what it held before.
    ///
    /// The key is one that was not in use. It is never the largest `usize`: its highest bits are
    /// the generation of a slot, which is counted modulo the number that would set all of them.
    ///
    /// The slab returns `None` only if the share of the calling thread is full. A share has pages of
    /// 32, 64, 128 slots and so on, half as many pages as `usize` has bits, and a slot is free again
    /// once its number is taken out. So a slab that holds fewer numbers than one share has slots
    /// never returns `None`, whichever thread calls.
    /// When one that holds more does is left unsaid, as it depends on the calling thread. So is the
    /// panic that ends a call on a thread beyond the number of threads that a slab can serve, or on
    /// one that is being torn down and has given up its number.
    #[verifier::external_body]
    pub(crate) fn insert(&mut self, number: u64) -> (key: Option<usize>)
        ensures
            match key {
                Some(key) => {
                    &&& key < usize::MAX
                    &&& !slab_numbers(*old(self)).contains_key(key)
                    &&& slab_numbers(*final(self)) == slab_numbers(*old(self)).insert(key, number)
                },
                None => slab_numbers(*final(self)) == slab_numbers(*old(self)),
            },
            slab_numbers(*old(self)).dom().finite() && slab_numbers(*old(self)).dom().len()
                < crate::registry::room() ==> key is Some,
    {
        self.slab.insert(number)
    }

    /// Calls `Slab::get` and copies the number out of the entry that it returns: for a key in use
    /// that is the number under it.
    ///
    /// `get` also returns `None` while as many entries for one key are alive as it can count. The
    /// entry here lives no longer than the call, so there are never more of them than threads.
    #[verifier::external_body]
    pub(crate) fn get(&self, key: usize) -> (number: Option<u64>)
        requires
            slab_numbers(*self).contains_key(key),
        ensures
            number == Some(slab_numbers(*self)[key]),
    {
        self.slab.get(key).map(|entry| *entry)
    }

    /// Calls `Slab::take`, which for a key in use removes the number under it and returns it.
    ///
    /// Left unsaid is the panic that ends the call on a thread that first meets a slab here and is
    /// beyond the number of threads that can be told apart.
    #[verifier::external_body]
    pub(crate) fn take(&mut self, key: usize) -> (number: Option<u64>)
        requires
            slab_numbers(*old(self)).contains_key(key),
        ensures
            number == Some(slab_numbers(*old(self))[key]),
            slab_numbers(*final(self)) == slab_numbers(*old(self)).remove(key),
    {
        self.slab.take(key)
    }
}

} // verus!
