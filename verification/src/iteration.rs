//! Iteration layer marker. The stores themselves produce their
//! snapshots: see the `keys`, `values` and `iter` methods of the
//! storage containers.

use vstd::prelude::*;

verus! {

/// Marker type for the iteration layer.
pub struct IterationLayer;

} // verus!
