//! The inventory: the catalog and the transaction log behind one set of
//! operations, each of which changes both or neither.

use crate::catalog::{
    catalog_wf, created, has_product, lemma_stock_push, lemma_stock_remove, lemma_stock_update,
    product_index, product_wf, restocked, stock_on_hand, without_product, Catalog, Product,
    ProductView,
};
use crate::error::InventoryError;
use crate::ledger::{lemma_first_lot, lemma_merge_wf, units, PurchaseLot};
use crate::transactions::{
    lemma_units_purchased_prefix, lemma_units_purchased_step, purchase_views, units_purchased,
    units_sold, PurchaseTx, PurchaseTxView, SaleTx, SaleTxView, TransactionLog,
};
use vstd::prelude::*;

verus! {

/// What a purchase has to say of a product that is not in the catalog yet.
#[derive(Debug)]
pub struct Listing {
    pub description: String,
    pub sale_price: u64,
}

/// A listing as contracts see it.
pub struct ListingView {
    pub description: Seq<char>,
    pub sale_price: u64,
}

impl View for Listing {
    type V = ListingView;

    open spec fn view(&self) -> ListingView {
        ListingView { description: self.description@, sale_price: self.sale_price }
    }
}

/// An optional listing by its view.
pub open spec fn listing_view(listing: Option<Listing>) -> Option<ListingView> {
    match listing {
        Some(listing) => Some(listing@),
        None => None,
    }
}

/// An optional description by its view.
pub open spec fn description_view(description: Option<String>) -> Option<Seq<char>> {
    match description {
        Some(description) => Some(description@),
        None => None,
    }
}

/// The whole state of stock keeping: the products, and every sale and
/// purchase so far.
pub struct Inventory {
    catalog: Catalog,
    log: TransactionLog,
}

/// An inventory as contracts see it.
pub struct InventoryView {
    pub products: Seq<ProductView>,
    pub sales: Seq<SaleTxView>,
    pub purchases: Seq<PurchaseTxView>,
}

impl View for Inventory {
    type V = InventoryView;

    closed spec fn view(&self) -> InventoryView {
        InventoryView {
            products: self.catalog@,
            sales: self.log.sales_view(),
            purchases: self.log.purchases_view(),
        }
    }
}

/// What holds of every inventory. The catalog is well formed and every
/// record is of at least one unit. All the units ever bought fit in 64
/// bits; no product has more units in its lots than were ever bought; and
/// what was sold and what is in stock together is no more than was bought.
pub open spec fn inventory_wf(inventory: InventoryView) -> bool {
    &&& catalog_wf(inventory.products)
    &&& forall|k: int| 0 <= k < inventory.sales.len() ==> (#[trigger] inventory.sales[k]).quantity > 0
    &&& forall|k: int|
        0 <= k < inventory.purchases.len() ==> (#[trigger] inventory.purchases[k]).quantity > 0
    &&& units_purchased(inventory.purchases) <= u64::MAX
    &&& forall|i: int|
        0 <= i < inventory.products.len() ==> units((#[trigger] inventory.products[i]).lots)
            <= units_purchased(inventory.purchases)
    &&& units_sold(inventory.sales) + stock_on_hand(inventory.products) <= units_purchased(
        inventory.purchases,
    )
}

impl InventoryView {
    /// The inventory before anything was bought.
    pub open spec fn empty() -> InventoryView {
        InventoryView {
            products: Seq::<ProductView>::empty(),
            sales: Seq::<SaleTxView>::empty(),
            purchases: Seq::<PurchaseTxView>::empty(),
        }
    }

    /// Whether a purchase of the product `name` can be recorded: the
    /// product is in the catalog, or the purchase brings a listing for it.
    pub open spec fn purchase_accepted(self, name: Seq<char>, listing: Option<ListingView>) -> bool {
        has_product(self.products, name) || listing is Some
    }

    /// The inventory after a purchase of `quantity` units of `name` at
    /// `purchase_price`. A product in the catalog is restocked; a new one is
    /// created from the listing; in both cases the purchase is logged. A
    /// purchase that is not accepted changes nothing.
    pub open spec fn after_purchase(
        self,
        name: Seq<char>,
        quantity: u64,
        purchase_price: u64,
        listing: Option<ListingView>,
    ) -> InventoryView {
        let record = PurchaseTxView {
            product_name: name,
            quantity: quantity,
            purchase_price: purchase_price,
        };
        if has_product(self.products, name) {
            let i: int = product_index(self.products, name);
            InventoryView {
                products: self.products.update(
                    i,
                    restocked(self.products[i], quantity, purchase_price),
                ),
                purchases: self.purchases.push(record),
                ..self
            }
        } else if let Some(listing) = listing {
            InventoryView {
                products: self.products.push(
                    created(name, listing.description, quantity, listing.sale_price, purchase_price),
                ),
                purchases: self.purchases.push(record),
                ..self
            }
        } else {
            self
        }
    }

    /// What becomes of a sale of `quantity` units of the product `name`.
    pub open spec fn sale_outcome(self, name: Seq<char>, quantity: u64) -> Result<
        (),
        InventoryError,
    > {
        if !has_product(self.products, name) {
            Err(InventoryError::NotFound)
        } else if quantity > self.products[product_index(self.products, name)].quantity {
            Err(InventoryError::InsufficientStock)
        } else {
            Ok(())
        }
    }

    /// The inventory after a sale of `quantity` units of `name`: the stock
    /// of the product is less by `quantity`, and the sale is logged at the
    /// price that the product has now. A sale that fails changes nothing.
    pub open spec fn after_sale(self, name: Seq<char>, quantity: u64) -> InventoryView {
        if self.sale_outcome(name, quantity) is Ok {
            let i: int = product_index(self.products, name);
            let product: ProductView = self.products[i];
            InventoryView {
                products: self.products.update(
                    i,
                    ProductView { quantity: (product.quantity - quantity) as u64, ..product },
                ),
                sales: self.sales.push(
                    SaleTxView {
                        product_name: name,
                        quantity: quantity,
                        sale_price: product.sale_price,
                    },
                ),
                ..self
            }
        } else {
            self
        }
    }

    /// The inventory after an edit of the product `name`: what is given
    /// takes the place of the description and of the sale price, what is
    /// not given stays. Without such a product nothing changes.
    pub open spec fn after_edit(
        self,
        name: Seq<char>,
        description: Option<Seq<char>>,
        sale_price: Option<u64>,
    ) -> InventoryView {
        if has_product(self.products, name) {
            let i: int = product_index(self.products, name);
            let product: ProductView = self.products[i];
            InventoryView {
                products: self.products.update(
                    i,
                    ProductView {
                        description: match description {
                            Some(description) => description,
                            None => product.description,
                        },
                        sale_price: match sale_price {
                            Some(sale_price) => sale_price,
                            None => product.sale_price,
                        },
                        ..product
                    },
                ),
                ..self
            }
        } else {
            self
        }
    }

    /// The inventory after the product `name` was deleted: it is out of
    /// the catalog, and the log is as it was.
    pub open spec fn after_delete(self, name: Seq<char>) -> InventoryView {
        InventoryView { products: without_product(self.products, name), ..self }
    }
}

/// One more recorded purchase adds its quantity to the units bought.
pub proof fn lemma_units_purchased_push(purchases: Seq<PurchaseTxView>, record: PurchaseTxView)
    ensures
        units_purchased(purchases.push(record)) == units_purchased(purchases) + record.quantity,
{
    assert(purchases.push(record).drop_last() =~= purchases);
}

/// One more recorded sale adds its quantity to the units sold.
pub proof fn lemma_units_sold_push(sales: Seq<SaleTxView>, record: SaleTxView)
    ensures
        units_sold(sales.push(record)) == units_sold(sales) + record.quantity,
{
    assert(sales.push(record).drop_last() =~= sales);
}

/// A purchase within the capacity of the inventory leaves it well formed.
pub proof fn lemma_purchase_wf(
    inventory: InventoryView,
    name: Seq<char>,
    quantity: u64,
    purchase_price: u64,
    listing: Option<ListingView>,
)
    requires
        inventory_wf(inventory),
        quantity > 0,
        units_purchased(inventory.purchases) + quantity <= u64::MAX,
    ensures
        inventory_wf(inventory.after_purchase(name, quantity, purchase_price, listing)),
        inventory.purchase_accepted(name, listing) ==> units_purchased(
            inventory.after_purchase(name, quantity, purchase_price, listing).purchases,
        ) == units_purchased(inventory.purchases) + quantity,
{
    let after: InventoryView = inventory.after_purchase(name, quantity, purchase_price, listing);
    let record = PurchaseTxView {
        product_name: name,
        quantity: quantity,
        purchase_price: purchase_price,
    };
    if inventory.purchase_accepted(name, listing) {
        lemma_units_purchased_push(inventory.purchases, record);
        assert forall|k: int| 0 <= k < after.purchases.len() implies (
        #[trigger] after.purchases[k]).quantity > 0 by {
            if k < inventory.purchases.len() {
                assert(inventory.purchases[k].quantity > 0);
            }
        }
        if has_product(inventory.products, name) {
            let i: int = product_index(inventory.products, name);
            let before: ProductView = inventory.products[i];
            assert(product_wf(before));
            lemma_merge_wf(before.lots, quantity, purchase_price);
            lemma_stock_update(inventory.products, i, restocked(before, quantity, purchase_price));
            assert forall|j: int| 0 <= j < after.products.len() implies product_wf(
                #[trigger] after.products[j],
            ) && units(after.products[j].lots) <= units_purchased(after.purchases) by {
                if j != i {
                    assert(product_wf(inventory.products[j]));
                }
            }
            assert forall|j: int, k: int| 0 <= j < k < after.products.len() implies (
            #[trigger] after.products[j]).name != (#[trigger] after.products[k]).name by {
                assert(inventory.products[j].name != inventory.products[k].name);
            }
        } else {
            let listing: ListingView = listing->0;
            let product: ProductView = created(
                name,
                listing.description,
                quantity,
                listing.sale_price,
                purchase_price,
            );
            lemma_first_lot(quantity, purchase_price);
            lemma_merge_wf(Seq::<PurchaseLot>::empty(), quantity, purchase_price);
            lemma_stock_push(inventory.products, product);
            assert forall|j: int| 0 <= j < after.products.len() implies product_wf(
                #[trigger] after.products[j],
            ) && units(after.products[j].lots) <= units_purchased(after.purchases) by {
                if j < inventory.products.len() {
                    assert(product_wf(inventory.products[j]));
                }
            }
            assert forall|j: int, k: int| 0 <= j < k < after.products.len() implies (
            #[trigger] after.products[j]).name != (#[trigger] after.products[k]).name by {
                if k < inventory.products.len() {
                    assert(inventory.products[j].name != inventory.products[k].name);
                } else {
                    assert(inventory.products[j].name != name);
                }
            }
        }
    }
}

/// A sale leaves the inventory well formed.
pub proof fn lemma_sale_wf(inventory: InventoryView, name: Seq<char>, quantity: u64)
    requires
        inventory_wf(inventory),
        quantity > 0,
    ensures
        inventory_wf(inventory.after_sale(name, quantity)),
{
    let after: InventoryView = inventory.after_sale(name, quantity);
    if inventory.sale_outcome(name, quantity) is Ok {
        let i: int = product_index(inventory.products, name);
        let before: ProductView = inventory.products[i];
        let record = SaleTxView {
            product_name: name,
            quantity: quantity,
            sale_price: before.sale_price,
        };
        assert(product_wf(before));
        lemma_units_sold_push(inventory.sales, record);
        lemma_stock_update(inventory.products, i, after.products[i]);
        assert forall|k: int| 0 <= k < after.sales.len() implies (#[trigger] after.sales[k]).quantity
            > 0 by {
            if k < inventory.sales.len() {
                assert(inventory.sales[k].quantity > 0);
            }
        }
        assert forall|j: int| 0 <= j < after.products.len() implies product_wf(
            #[trigger] after.products[j],
        ) && units(after.products[j].lots) <= units_purchased(after.purchases) by {
            if j != i {
                assert(product_wf(inventory.products[j]));
            }
        }
        assert forall|j: int, k: int| 0 <= j < k < after.products.len() implies (
        #[trigger] after.products[j]).name != (#[trigger] after.products[k]).name by {
            assert(inventory.products[j].name != inventory.products[k].name);
        }
    }
}

/// An edit leaves the inventory well formed.
pub proof fn lemma_edit_wf(
    inventory: InventoryView,
    name: Seq<char>,
    description: Option<Seq<char>>,
    sale_price: Option<u64>,
)
    requires
        inventory_wf(inventory),
    ensures
        inventory_wf(inventory.after_edit(name, description, sale_price)),
{
    let after: InventoryView = inventory.after_edit(name, description, sale_price);
    if has_product(inventory.products, name) {
        let i: int = product_index(inventory.products, name);
        assert(product_wf(inventory.products[i]));
        lemma_stock_update(inventory.products, i, after.products[i]);
        assert forall|j: int| 0 <= j < after.products.len() implies product_wf(
            #[trigger] after.products[j],
        ) && units(after.products[j].lots) <= units_purchased(after.purchases) by {
            if j != i {
                assert(product_wf(inventory.products[j]));
            }
        }
        assert forall|j: int, k: int| 0 <= j < k < after.products.len() implies (
        #[trigger] after.products[j]).name != (#[trigger] after.products[k]).name by {
            assert(inventory.products[j].name != inventory.products[k].name);
        }
    }
}

/// A deletion leaves the inventory well formed.
pub proof fn lemma_delete_wf(inventory: InventoryView, name: Seq<char>)
    requires
        inventory_wf(inventory),
    ensures
        inventory_wf(inventory.after_delete(name)),
{
    let after: InventoryView = inventory.after_delete(name);
    if has_product(inventory.products, name) {
        let i: int = product_index(inventory.products, name);
        lemma_stock_remove(inventory.products, i);
        assert forall|j: int| 0 <= j < after.products.len() implies product_wf(
            #[trigger] after.products[j],
        ) && units(after.products[j].lots) <= units_purchased(after.purchases) by {
            if j < i {
                assert(product_wf(inventory.products[j]));
            } else {
                assert(product_wf(inventory.products[j + 1]));
            }
        }
        assert forall|j: int, k: int| 0 <= j < k < after.products.len() implies (
        #[trigger] after.products[j]).name != (#[trigger] after.products[k]).name by {
            let before_j: int = if j < i { j } else { j + 1 };
            let before_k: int = if k < i { k } else { k + 1 };
            assert(inventory.products[before_j].name != inventory.products[before_k].name);
        }
    }
}

impl Inventory {
    /// Whether the inventory is one that its operations can have left.
    pub open spec fn wf(&self) -> bool {
        inventory_wf(self@)
    }

    /// An inventory without products and without records.
    pub fn new() -> (inventory: Inventory)
        ensures
            inventory@ == InventoryView::empty(),
            inventory.wf(),
    {
        Inventory { catalog: Catalog::new(), log: TransactionLog::new() }
    }

    /// The product catalog.
    pub fn catalog(&self) -> (catalog: &Catalog)
        ensures
            catalog@ == self@.products,
    {
        &self.catalog
    }

    /// The transaction log.
    pub fn log(&self) -> (log: &TransactionLog)
        ensures
            log.sales_view() == self@.sales,
            log.purchases_view() == self@.purchases,
    {
        &self.log
    }

    /// The product called `name`.
    pub fn get_product(&self, name: &String) -> (found: Option<&Product>)
        requires
            self.wf(),
        ensures
            match found {
                Some(product) => has_product(self@.products, name@) && product@
                    == self@.products[product_index(self@.products, name@)],
                None => !has_product(self@.products, name@),
            },
    {
        self.catalog.get(name)
    }

    /// The units bought in all the purchases so far. A purchase can be
    /// recorded as long as this and its quantity together fit in 64 bits.
    pub fn units_purchased(&self) -> (total: u64)
        requires
            self.wf(),
        ensures
            total == units_purchased(self@.purchases),
    {
        let purchases: &Vec<PurchaseTx> = self.log.purchases();
        let ghost records: Seq<PurchaseTxView> = self@.purchases;
        let mut total: u64 = 0;
        let mut k: usize = 0;
        while k < purchases.len()
            invariant
                k <= purchases.len(),
                records == purchase_views(purchases@),
                units_purchased(records) <= u64::MAX,
                total == units_purchased(records.take(k as int)),
            decreases purchases.len() - k,
        {
            proof {
                lemma_units_purchased_step(records, k as int);
                lemma_units_purchased_prefix(records, k + 1);
            }
            total = total + purchases[k].quantity();
            k = k + 1;
        }
        proof {
            assert(records.take(k as int) =~= records);
        }
        total
    }

    /// Records a purchase of `quantity` units of the product `name` at
    /// `purchase_price` each. A product in the catalog is restocked, and the
    /// listing is not looked at. A product that is not in the catalog is
    /// created from the listing; without a listing the purchase fails with
    /// `NotFound`. The catalog and the purchase log change together or not
    /// at all.
    pub fn record_purchase(
        &mut self,
        name: String,
        quantity: u64,
        purchase_price: u64,
        listing: Option<Listing>,
    ) -> (outcome: Result<(), InventoryError>)
        requires
            old(self).wf(),
            quantity > 0,
            units_purchased(old(self)@.purchases) + quantity <= u64::MAX,
        ensures
            final(self).wf(),
            final(self)@ == old(self)@.after_purchase(
                name@,
                quantity,
                purchase_price,
                listing_view(listing),
            ),
            old(self)@.purchase_accepted(name@, listing_view(listing)) ==> outcome.is_ok(),
            !old(self)@.purchase_accepted(name@, listing_view(listing)) ==> outcome == Err::<
                (),
                InventoryError,
            >(InventoryError::NotFound),
            outcome.is_ok() ==> units_purchased(final(self)@.purchases) == units_purchased(
                old(self)@.purchases,
            ) + quantity,
    {
        proof {
            lemma_purchase_wf(old(self)@, name@, quantity, purchase_price, listing_view(listing));
        }
        match self.catalog.position(&name) {
            Some(i) => {
                assert(units(old(self)@.products[i as int].lots) <= units_purchased(
                    old(self)@.purchases,
                ));
                let _ = self.catalog.restock(&name, quantity, purchase_price);
            },
            None => {
                match listing {
                    None => {
                        return Err(InventoryError::NotFound);
                    },
                    Some(listing) => {
                        let _ = self.catalog.create(
                            name.clone(),
                            listing.description,
                            quantity,
                            listing.sale_price,
                            purchase_price,
                        );
                    },
                }
            },
        }
        self.log.append_purchase(PurchaseTx::new(name, quantity, purchase_price));
        Ok(())
    }

    /// Records a sale of `quantity` units of the product `name`, at the
    /// sale price that the product has now. Fails with `NotFound` if there
    /// is no such product and with `InsufficientStock` if it has fewer
    /// units in stock; then nothing changes.
    pub fn record_sale(&mut self, name: &String, quantity: u64) -> (outcome: Result<
        (),
        InventoryError,
    >)
        requires
            old(self).wf(),
            quantity > 0,
        ensures
            final(self).wf(),
            outcome == old(self)@.sale_outcome(name@, quantity),
            final(self)@ == old(self)@.after_sale(name@, quantity),
    {
        proof {
            lemma_sale_wf(old(self)@, name@, quantity);
        }
        let (sold, sale_price) = match self.catalog.get(name) {
            None => {
                return Err(InventoryError::NotFound);
            },
            Some(product) => {
                if quantity > product.quantity() {
                    return Err(InventoryError::InsufficientStock);
                }
                (product.clone().with_quantity(product.quantity() - quantity), product.sale_price())
            },
        };
        let _ = self.catalog.replace(sold);
        self.log.append_sale(SaleTx::new(name.clone(), quantity, sale_price));
        Ok(())
    }

    /// Changes the description, the sale price or both of the product
    /// `name`; what is not given stays as it is. Fails with `NotFound`, and
    /// changes nothing, if there is no such product. The log is never
    /// touched: a recorded sale keeps the price at which it was made.
    pub fn edit_product(
        &mut self,
        name: &String,
        new_description: Option<String>,
        new_sale_price: Option<u64>,
    ) -> (outcome: Result<(), InventoryError>)
        requires
            old(self).wf(),
        ensures
            final(self).wf(),
            final(self)@ == old(self)@.after_edit(
                name@,
                description_view(new_description),
                new_sale_price,
            ),
            has_product(old(self)@.products, name@) ==> outcome.is_ok(),
            !has_product(old(self)@.products, name@) ==> outcome == Err::<(), InventoryError>(
                InventoryError::NotFound,
            ),
    {
        proof {
            lemma_edit_wf(old(self)@, name@, description_view(new_description), new_sale_price);
        }
        let mut edited: Product = match self.catalog.get(name) {
            None => {
                return Err(InventoryError::NotFound);
            },
            Some(product) => product.clone(),
        };
        match new_description {
            Some(description) => {
                edited = edited.with_description(description);
            },
            None => {},
        }
        match new_sale_price {
            Some(sale_price) => {
                edited = edited.with_sale_price(sale_price);
            },
            None => {},
        }
        let _ = self.catalog.replace(edited);
        Ok(())
    }

    /// Takes the product `name` out of the catalog, if it is there. The
    /// records of its sales and purchases stay in the log.
    pub fn delete_product(&mut self, name: &String)
        requires
            old(self).wf(),
        ensures
            final(self).wf(),
            final(self)@ == old(self)@.after_delete(name@),
    {
        proof {
            lemma_delete_wf(old(self)@, name@);
        }
        self.catalog.delete(name);
    }
}

} // verus!
