//! A trait that only this library can name.

use vstd::prelude::*;

verus! {

/// A supertrait for traits that are not to be implemented elsewhere.
pub trait Sealed<A = ()> {

}

} // verus!
