use vstd::prelude::*;

verus! {

/// Marker trait for user values to get around conflicting trait
/// implementations between database and blanket `std` implementations.
pub trait DbTypeMarker {}

} // verus!
