//! What can go wrong.

use vstd::prelude::*;

verus! {

/// Why an operation did nothing, or why a line of a report has no cost.
#[derive(Clone, Copy, Debug, PartialEq, Eq, Structural)]
pub enum InventoryError {
    /// No product has the name that was given.
    NotFound,
    /// A product has that name already.
    AlreadyExists,
    /// More units were to be sold than are in stock.
    InsufficientStock,
    /// The product of a recorded sale is gone, so what the sale cost cannot
    /// be worked out.
    AttributionGap,
}

} // verus!
