//! What holds of the inventory whatever is bought and sold.

use crate::attribution::attribution;
use crate::catalog::{
    created, has_product, lemma_lookup_push, lemma_lookup_removed, lemma_lookup_update,
    product_index, product_wf, restocked, ProductView,
};
use crate::inventory::{inventory_wf, lemma_purchase_wf, lemma_sale_wf, InventoryView, ListingView};
use crate::ledger::{lemma_merge_twice, lemma_range_cost_split, units, PurchaseLot};
use crate::reports::history_cost;
use crate::transactions::{units_purchased, units_sold_of, SaleTxView};
use vstd::prelude::*;

verus! {

/// Restocking a product twice at one purchase price leaves it as one
/// restocking with both quantities does: its lots hold one lot at that
/// price, with the summed quantity.
pub proof fn lemma_restock_twice(product: ProductView, first: u64, second: u64, purchase_price: u64)
    requires
        product_wf(product),
        first > 0,
        second > 0,
        units(product.lots) + first + second <= u64::MAX,
    ensures
        restocked(restocked(product, first, purchase_price), second, purchase_price) == restocked(
            product,
            (first + second) as u64,
            purchase_price,
        ),
        restocked(restocked(product, first, purchase_price), second, purchase_price).lots.len()
            == restocked(product, first, purchase_price).lots.len(),
{
    lemma_merge_twice(product.lots, first, second, purchase_price);
}

/// What the first `k` sales of the log cost one after the other, as far as
/// they are sales of the product `name`: the sum of what the sales history
/// gives for each of them.
pub open spec fn sequential_cost(inventory: InventoryView, name: Seq<char>, k: int) -> nat
    decreases k,
{
    if k <= 0 {
        0
    } else if inventory.sales[k - 1].product_name == name {
        sequential_cost(inventory, name, k - 1) + match history_cost(inventory, k - 1) {
            Some((cost, _)) => cost,
            None => 0,
        }
    } else {
        sequential_cost(inventory, name, k - 1)
    }
}

/// The sales of a product cost the same taken one after the other as taken
/// all at once: what the sales history gives for the first `k` sales adds
/// up to what the units of these sales cost from the first unit of the
/// first lot. This holds whether or not the lots hold all the units sold.
pub proof fn lemma_sequential_is_aggregate(inventory: InventoryView, name: Seq<char>, k: int)
    requires
        has_product(inventory.products, name),
        0 <= k <= inventory.sales.len(),
    ensures
        attribution(
            inventory.products,
            name,
            0,
            units_sold_of(inventory.sales.take(k), name) as int,
        ) matches Some((cost, _)) && cost == sequential_cost(inventory, name, k),
    decreases k,
{
    let lots: Seq<PurchaseLot> = inventory.products[product_index(inventory.products, name)].lots;
    if k == 0 {
        assert(inventory.sales.take(0) =~= Seq::<SaleTxView>::empty());
        lemma_range_cost_split(lots, 0, 0, 0);
    } else {
        lemma_sequential_is_aggregate(inventory, name, k - 1);
        assert(inventory.sales.take(k).drop_last() =~= inventory.sales.take(k - 1));
        if inventory.sales[k - 1].product_name == name {
            let before: int = units_sold_of(inventory.sales.take(k - 1), name) as int;
            lemma_range_cost_split(lots, 0, before, before + inventory.sales[k - 1].quantity);
        }
    }
}

/// The whole sales history of a product adds up to its line in the sales
/// report.
pub proof fn lemma_history_adds_up_to_report(inventory: InventoryView, name: Seq<char>)
    requires
        has_product(inventory.products, name),
    ensures
        attribution(inventory.products, name, 0, units_sold_of(inventory.sales, name) as int)
            matches Some((cost, _)) && cost == sequential_cost(
            inventory,
            name,
            inventory.sales.len() as int,
        ),
{
    lemma_sequential_is_aggregate(inventory, name, inventory.sales.len() as int);
    assert(inventory.sales.take(inventory.sales.len() as int) =~= inventory.sales);
}

/// A purchase or a sale, as it is asked of the inventory.
pub enum Operation {
    Purchase { name: Seq<char>, quantity: u64, purchase_price: u64, listing: Option<ListingView> },
    Sale { name: Seq<char>, quantity: u64 },
}

/// Whether the inventory carries the operation out: it is of at least one
/// unit, a purchase is within the capacity of the inventory and is of a
/// product that is there or comes with a listing, and a sale is of a
/// product that is there, with that many units in stock.
pub open spec fn accepts(inventory: InventoryView, operation: Operation) -> bool {
    match operation {
        Operation::Purchase { name, quantity, purchase_price, listing } => {
            &&& quantity > 0
            &&& units_purchased(inventory.purchases) + quantity <= u64::MAX
            &&& inventory.purchase_accepted(name, listing)
        },
        Operation::Sale { name, quantity } => {
            &&& quantity > 0
            &&& inventory.sale_outcome(name, quantity) is Ok
        },
    }
}

/// The inventory after the operation.
pub open spec fn after(inventory: InventoryView, operation: Operation) -> InventoryView {
    match operation {
        Operation::Purchase { name, quantity, purchase_price, listing } => inventory.after_purchase(
            name,
            quantity,
            purchase_price,
            listing,
        ),
        Operation::Sale { name, quantity } => inventory.after_sale(name, quantity),
    }
}

/// The inventory after all the operations, one after the other, from an
/// empty inventory.
pub open spec fn run(operations: Seq<Operation>) -> InventoryView
    decreases operations.len(),
{
    if operations.len() == 0 {
        InventoryView::empty()
    } else {
        after(run(operations.drop_last()), operations.last())
    }
}

/// Whether each of the operations is carried out when its turn comes.
pub open spec fn all_accepted(operations: Seq<Operation>) -> bool
    decreases operations.len(),
{
    operations.len() == 0 || (all_accepted(operations.drop_last()) && accepts(
        run(operations.drop_last()),
        operations.last(),
    ))
}

/// The units of the product `name` that the purchases among the operations
/// bought.
pub open spec fn units_bought(operations: Seq<Operation>, name: Seq<char>) -> nat
    decreases operations.len(),
{
    if operations.len() == 0 {
        0
    } else {
        units_bought(operations.drop_last(), name) + match operations.last() {
            Operation::Purchase { name: bought, quantity, .. } => if bought == name {
                quantity as nat
            } else {
                0
            },
            Operation::Sale { .. } => 0,
        }
    }
}

/// The units of the product `name` that the sales among the operations
/// sold.
pub open spec fn units_taken(operations: Seq<Operation>, name: Seq<char>) -> nat
    decreases operations.len(),
{
    if operations.len() == 0 {
        0
    } else {
        units_taken(operations.drop_last(), name) + match operations.last() {
            Operation::Sale { name: sold, quantity } => if sold == name {
                quantity as nat
            } else {
                0
            },
            Operation::Purchase { .. } => 0,
        }
    }
}

/// After purchases and sales that were all carried out, the inventory is
/// well formed; a product that is in the catalog has in stock what was
/// bought of it less what was sold of it; and of a product that is not in
/// the catalog nothing was bought or sold.
pub proof fn lemma_stock_after_run(operations: Seq<Operation>, name: Seq<char>)
    requires
        all_accepted(operations),
    ensures
        inventory_wf(run(operations)),
        has_product(run(operations).products, name) ==> run(operations).products[product_index(
            run(operations).products,
            name,
        )].quantity == units_bought(operations, name) - units_taken(operations, name),
        !has_product(run(operations).products, name) ==> units_bought(operations, name) == 0
            && units_taken(operations, name) == 0,
    decreases operations.len(),
{
    if operations.len() > 0 {
        let earlier: Seq<Operation> = operations.drop_last();
        let before: InventoryView = run(earlier);
        lemma_stock_after_run(earlier, name);
        match operations.last() {
            Operation::Purchase { name: bought, quantity, purchase_price, listing } => {
                lemma_purchase_wf(before, bought, quantity, purchase_price, listing);
                if has_product(before.products, bought) {
                    let i: int = product_index(before.products, bought);
                    lemma_lookup_update(
                        before.products,
                        i,
                        restocked(before.products[i], quantity, purchase_price),
                        name,
                    );
                } else {
                    let listing: ListingView = listing->0;
                    lemma_lookup_push(
                        before.products,
                        created(
                            bought,
                            listing.description,
                            quantity,
                            listing.sale_price,
                            purchase_price,
                        ),
                        name,
                    );
                }
            },
            Operation::Sale { name: sold, quantity } => {
                lemma_sale_wf(before, sold, quantity);
                let i: int = product_index(before.products, sold);
                lemma_lookup_update(before.products, i, run(operations).products[i], name);
            },
        }
    }
}

/// The stock of every product is conserved: after any purchases and sales
/// that were all carried out, what is in stock of a product is what was
/// bought of it less what was sold of it.
pub proof fn lemma_stock_conservation(operations: Seq<Operation>, name: Seq<char>)
    requires
        all_accepted(operations),
        has_product(run(operations).products, name),
    ensures
        run(operations).products[product_index(run(operations).products, name)].quantity
            == units_bought(operations, name) - units_taken(operations, name),
{
    lemma_stock_after_run(operations, name);
}

/// An edit of a product never reaches the log: every recorded sale keeps
/// the sale price at which it was made.
pub proof fn lemma_edit_keeps_log(
    inventory: InventoryView,
    name: Seq<char>,
    description: Option<Seq<char>>,
    sale_price: Option<u64>,
)
    ensures
        inventory.after_edit(name, description, sale_price).sales == inventory.sales,
        inventory.after_edit(name, description, sale_price).purchases == inventory.purchases,
{
}

/// A sale is recorded at the sale price that the product has when it is
/// sold, and a later edit of that price leaves the record as it is.
pub proof fn lemma_sale_price_snapshot(
    inventory: InventoryView,
    name: Seq<char>,
    quantity: u64,
    new_sale_price: u64,
)
    requires
        inventory.sale_outcome(name, quantity) is Ok,
    ensures
        inventory.after_sale(name, quantity).after_edit(
            name,
            None,
            Some(new_sale_price),
        ).sales.last().sale_price == inventory.products[product_index(
            inventory.products,
            name,
        )].sale_price,
{
}

/// Once a product is deleted, each of its sales in the log has an
/// attribution gap in the sales history, and so has all of them together
/// in the sales report.
pub proof fn lemma_deleted_product_gaps(inventory: InventoryView, name: Seq<char>)
    requires
        inventory_wf(inventory),
    ensures
        inventory.after_delete(name).sales == inventory.sales,
        forall|k: int|
            0 <= k < inventory.sales.len() && (#[trigger] inventory.sales[k]).product_name == name
                ==> history_cost(inventory.after_delete(name), k) is None,
        forall|offset: int, quantity: int|
            #[trigger] attribution(inventory.after_delete(name).products, name, offset, quantity)
                is None,
{
    lemma_lookup_removed(inventory.products, name);
}

} // verus!
