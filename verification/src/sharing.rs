//! Whether a resource is owned by one queue family or shared.

use vstd::prelude::*;

verus! {

/// Exclusive ownership, or concurrent sharing among the queue families that
/// `T` lists.
#[derive(Clone, Copy, Debug, PartialEq, Eq, Hash)]
pub enum Sharing<T> {
    Exclusive,
    Concurrent(T),
}

} // verus!
