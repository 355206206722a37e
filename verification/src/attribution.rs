//! The cost attribution engine: what the units sold of a product cost,
//! matched against its purchase lots in purchase order.
//!
//! There are two ways to ask. The aggregate way takes all the units ever
//! sold of a product at once, from the first unit of the first lot. The
//! sequential way takes one sale after the other, in the order of the log,
//! and keeps for each product the number of units that earlier sales have
//! claimed, so that no unit of a lot is matched to two sales.

use crate::catalog::{has_product, product_index, Catalog, ProductView};
use crate::error::InventoryError;
use crate::ledger::{range_cost, range_matched};
use vstd::prelude::*;

verus! {

/// What a number of units sold cost, and how many of them found no lot.
#[derive(Clone, Copy, Debug, PartialEq, Eq, Structural)]
pub struct CostBasis {
    pub cost: u128,
    pub units_unmatched: u64,
}

/// What `quantity` units of the product `name` cost after `offset` units
/// were claimed before them, and how many of the units found no lot. There
/// is no answer where the catalog has no such product.
pub open spec fn attribution(
    products: Seq<ProductView>,
    name: Seq<char>,
    offset: int,
    quantity: int,
) -> Option<(nat, nat)> {
    if has_product(products, name) {
        let lots = products[product_index(products, name)].lots;
        Some(
            (
                range_cost(lots, offset, offset + quantity),
                (quantity - range_matched(lots, offset, offset + quantity)) as nat,
            ),
        )
    } else {
        None
    }
}

/// Whether `outcome` says what `expected` is: the cost basis with those two
/// numbers, or an attribution gap where there is no answer.
pub open spec fn reports(
    outcome: Result<CostBasis, InventoryError>,
    expected: Option<(nat, nat)>,
) -> bool {
    match expected {
        Some((cost, units_unmatched)) => outcome == Ok::<CostBasis, InventoryError>(
            CostBasis { cost: cost as u128, units_unmatched: units_unmatched as u64 },
        ) && cost <= u128::MAX && units_unmatched <= u64::MAX,
        None => outcome == Err::<CostBasis, InventoryError>(InventoryError::AttributionGap),
    }
}

/// The aggregate way: what all the `total_sold` units ever sold of the
/// product `name` cost, from the first unit of its first lot. A product
/// that is not in the catalog gives an attribution gap.
pub fn aggregate_cost(catalog: &Catalog, name: &String, total_sold: u64) -> (outcome: Result<
    CostBasis,
    InventoryError,
>)
    requires
        catalog.wf(),
    ensures
        reports(outcome, attribution(catalog@, name@, 0, total_sold as int)),
{
    match catalog.get(name) {
        None => Err(InventoryError::AttributionGap),
        Some(product) => {
            let (cost, units_unmatched) = product.lots().consume_fifo(0, total_sold);
            Ok(CostBasis { cost: cost, units_unmatched: units_unmatched })
        },
    }
}

/// The sequential way: for each product of a catalog, by its place, the
/// number of units that the sales attributed so far have claimed.
#[derive(Debug)]
pub struct SequentialAttribution {
    offsets: Vec<u64>,
}

impl View for SequentialAttribution {
    type V = Seq<u64>;

    closed spec fn view(&self) -> Seq<u64> {
        self.offsets@
    }
}

impl SequentialAttribution {
    /// The state before the first sale: no unit of any product is claimed.
    pub fn new(catalog: &Catalog) -> (state: SequentialAttribution)
        ensures
            state@.len() == catalog@.len(),
            forall|i: int| 0 <= i < state@.len() ==> state@[i] == 0,
    {
        let products = catalog.products();
        let mut offsets: Vec<u64> = Vec::new();
        let mut i: usize = 0;
        while i < products.len()
            invariant
                i <= products.len(),
                offsets@.len() == i,
                forall|j: int| 0 <= j < i ==> offsets@[j] == 0,
            decreases products.len() - i,
        {
            offsets.push(0);
            i = i + 1;
        }
        SequentialAttribution { offsets: offsets }
    }

    /// The units claimed so far, for each product by its place in the
    /// catalog.
    pub fn claimed(&self) -> (offsets: &Vec<u64>)
        ensures
            offsets@ == self@,
    {
        &self.offsets
    }

    /// Attributes the next sale: `quantity` units of the product `name`
    /// are matched after the units that earlier sales of the product have
    /// claimed, and are claimed in turn, whether or not all of them found a
    /// lot. A product that is not in the catalog gives an attribution gap,
    /// and nothing is claimed.
    pub fn attribute(&mut self, catalog: &Catalog, name: &String, quantity: u64) -> (outcome: Result<
        CostBasis,
        InventoryError,
    >)
        requires
            catalog.wf(),
            old(self)@.len() == catalog@.len(),
            has_product(catalog@, name@) ==> old(self)@[product_index(catalog@, name@)] + quantity
                <= u64::MAX,
        ensures
            has_product(catalog@, name@) ==> reports(
                outcome,
                attribution(
                    catalog@,
                    name@,
                    old(self)@[product_index(catalog@, name@)] as int,
                    quantity as int,
                ),
            ) && final(self)@ == old(self)@.update(
                product_index(catalog@, name@),
                (old(self)@[product_index(catalog@, name@)] + quantity) as u64,
            ),
            !has_product(catalog@, name@) ==> outcome == Err::<CostBasis, InventoryError>(
                InventoryError::AttributionGap,
            ) && final(self)@ == old(self)@,
    {
        match catalog.position(name) {
            None => Err(InventoryError::AttributionGap),
            Some(i) => {
                let products = catalog.products();
                let offset: u64 = self.offsets[i];
                let (cost, units_unmatched) = products[i].lots().consume_fifo(offset, quantity);
                self.offsets.set(i, offset + quantity);
                Ok(CostBasis { cost: cost, units_unmatched: units_unmatched })
            },
        }
    }
}

} // verus!
