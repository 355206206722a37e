//! The product catalog: the products in stock, each known by its name.

use crate::error::InventoryError;
use crate::ledger::{ledger_wf, merge_lot, units, LotLedger, PurchaseLot};
use vstd::prelude::*;

verus! {

/// A stocked product.
#[derive(Debug)]
pub struct Product {
    name: String,
    description: String,
    quantity: u64,
    sale_price: u64,
    lots: LotLedger,
}

/// A product as contracts see it.
pub struct ProductView {
    pub name: Seq<char>,
    pub description: Seq<char>,
    pub quantity: u64,
    pub sale_price: u64,
    pub lots: Seq<PurchaseLot>,
}

impl View for Product {
    type V = ProductView;

    closed spec fn view(&self) -> ProductView {
        ProductView {
            name: self.name@,
            description: self.description@,
            quantity: self.quantity,
            sale_price: self.sale_price,
            lots: self.lots@,
        }
    }
}

/// What holds of every product: its lots are well formed, and no more
/// units are in stock than were bought.
pub open spec fn product_wf(product: ProductView) -> bool {
    &&& ledger_wf(product.lots)
    &&& product.quantity <= units(product.lots)
}

/// A product as it is created: all its units in one lot.
pub open spec fn created(
    name: Seq<char>,
    description: Seq<char>,
    quantity: u64,
    sale_price: u64,
    purchase_price: u64,
) -> ProductView {
    ProductView {
        name: name,
        description: description,
        quantity: quantity,
        sale_price: sale_price,
        lots: seq![PurchaseLot { quantity: quantity, unit_cost: purchase_price }],
    }
}

/// A product after `quantity` more units were bought at `purchase_price`.
pub open spec fn restocked(product: ProductView, quantity: u64, purchase_price: u64) -> ProductView {
    ProductView {
        quantity: (product.quantity + quantity) as u64,
        lots: merge_lot(product.lots, quantity, purchase_price),
        ..product
    }
}

/// The products of a catalog, each by its view.
pub open spec fn product_views(products: Seq<Product>) -> Seq<ProductView> {
    products.map_values(|product: Product| product@)
}

/// Whether a product is called `name`.
pub open spec fn has_product(products: Seq<ProductView>, name: Seq<char>) -> bool {
    exists|i: int| 0 <= i < products.len() && (#[trigger] products[i]).name == name
}

/// The place of the product called `name`, where there is one.
pub open spec fn product_index(products: Seq<ProductView>, name: Seq<char>) -> int {
    choose|i: int| 0 <= i < products.len() && (#[trigger] products[i]).name == name
}

/// The products without the one called `name`.
pub open spec fn without_product(products: Seq<ProductView>, name: Seq<char>) -> Seq<ProductView> {
    if has_product(products, name) {
        products.remove(product_index(products, name))
    } else {
        products
    }
}

/// Whether no two of the products share a name.
pub open spec fn names_distinct(products: Seq<ProductView>) -> bool {
    forall|i: int, j: int|
        0 <= i < j < products.len() ==> (#[trigger] products[i]).name != (#[trigger] products[j]).name
}

/// What holds of the products of every catalog: each is well formed, and no
/// two share a name.
pub open spec fn catalog_wf(products: Seq<ProductView>) -> bool {
    &&& forall|i: int| 0 <= i < products.len() ==> product_wf(#[trigger] products[i])
    &&& names_distinct(products)
}

/// The units in stock of all the products together.
pub open spec fn stock_on_hand(products: Seq<ProductView>) -> nat
    decreases products.len(),
{
    if products.len() == 0 {
        0
    } else {
        stock_on_hand(products.drop_last()) + products.last().quantity as nat
    }
}

/// A product at the end adds its stock to the stock on hand.
pub proof fn lemma_stock_push(products: Seq<ProductView>, product: ProductView)
    ensures
        stock_on_hand(products.push(product)) == stock_on_hand(products) + product.quantity,
{
    assert(products.push(product).drop_last() =~= products);
}

/// Replacing one product changes the stock on hand by the difference of
/// the two stocks.
pub proof fn lemma_stock_update(products: Seq<ProductView>, i: int, product: ProductView)
    requires
        0 <= i < products.len(),
    ensures
        stock_on_hand(products.update(i, product)) == stock_on_hand(products)
            - products[i].quantity + product.quantity,
        products[i].quantity <= stock_on_hand(products),
    decreases products.len(),
{
    let changed: Seq<ProductView> = products.update(i, product);
    if i == products.len() - 1 {
        assert(changed.drop_last() =~= products.drop_last());
    } else {
        assert(changed.drop_last() =~= products.drop_last().update(i, product));
        lemma_stock_update(products.drop_last(), i, product);
    }
}

/// Taking one product out takes its stock from the stock on hand.
pub proof fn lemma_stock_remove(products: Seq<ProductView>, i: int)
    requires
        0 <= i < products.len(),
    ensures
        stock_on_hand(products.remove(i)) == stock_on_hand(products) - products[i].quantity,
    decreases products.len(),
{
    if i == products.len() - 1 {
        assert(products.remove(i) =~= products.drop_last());
    } else {
        assert(products.remove(i).drop_last() =~= products.drop_last().remove(i));
        assert(products.remove(i).last() == products.last());
        lemma_stock_remove(products.drop_last(), i);
    }
}

/// Where no two products share a name, a name is found at one place only.
pub proof fn lemma_product_index(products: Seq<ProductView>, i: int)
    requires
        names_distinct(products),
        0 <= i < products.len(),
    ensures
        has_product(products, products[i].name),
        product_index(products, products[i].name) == i,
{
    let name: Seq<char> = products[i].name;
    let k: int = product_index(products, name);
    assert(products[k].name == name);
}

/// Putting another product of the same name in the place of one changes
/// neither which names are found nor where.
pub proof fn lemma_lookup_update(
    products: Seq<ProductView>,
    i: int,
    product: ProductView,
    name: Seq<char>,
)
    requires
        names_distinct(products),
        0 <= i < products.len(),
        product.name == products[i].name,
    ensures
        names_distinct(products.update(i, product)),
        has_product(products.update(i, product), name) == has_product(products, name),
        has_product(products, name) ==> product_index(products.update(i, product), name)
            == product_index(products, name),
{
    let changed: Seq<ProductView> = products.update(i, product);
    assert forall|j: int, k: int| 0 <= j < k < changed.len() implies (#[trigger] changed[j]).name != (
    #[trigger] changed[k]).name by {
        assert(products[j].name != products[k].name);
    }
    if has_product(products, name) {
        let k: int = product_index(products, name);
        assert(changed[k].name == name);
        lemma_product_index(changed, k);
    }
    if has_product(changed, name) {
        let k: int = product_index(changed, name);
        assert(products[k].name == name);
    }
}

/// A product with a new name at the end is found at the end, and the
/// others are found where they were.
pub proof fn lemma_lookup_push(products: Seq<ProductView>, product: ProductView, name: Seq<char>)
    requires
        names_distinct(products),
        !has_product(products, product.name),
    ensures
        names_distinct(products.push(product)),
        has_product(products.push(product), name) == (has_product(products, name) || name
            == product.name),
        has_product(products, name) ==> product_index(products.push(product), name)
            == product_index(products, name),
        name == product.name ==> product_index(products.push(product), name) == products.len(),
{
    let longer: Seq<ProductView> = products.push(product);
    assert forall|j: int, k: int| 0 <= j < k < longer.len() implies (#[trigger] longer[j]).name != (
    #[trigger] longer[k]).name by {
        if k < products.len() {
            assert(products[j].name != products[k].name);
        } else {
            assert(products[j].name != product.name);
        }
    }
    if has_product(products, name) {
        let k: int = product_index(products, name);
        assert(longer[k].name == name);
        lemma_product_index(longer, k);
    }
    if name == product.name {
        let last: int = products.len() as int;
        assert(longer[last].name == name);
        lemma_product_index(longer, last);
    }
    if has_product(longer, name) {
        let k: int = product_index(longer, name);
        if k < products.len() {
            assert(products[k].name == name);
        }
    }
}

/// A product that was taken out is not found any more, and the names that
/// are left are still distinct.
pub proof fn lemma_lookup_removed(products: Seq<ProductView>, name: Seq<char>)
    requires
        names_distinct(products),
    ensures
        names_distinct(without_product(products, name)),
        !has_product(without_product(products, name), name),
{
    let rest: Seq<ProductView> = without_product(products, name);
    if has_product(products, name) {
        let i: int = product_index(products, name);
        assert forall|j: int, k: int| 0 <= j < k < rest.len() implies (#[trigger] rest[j]).name != (
        #[trigger] rest[k]).name by {
            let before_j: int = if j < i { j } else { j + 1 };
            let before_k: int = if k < i { k } else { k + 1 };
            assert(products[before_j].name != products[before_k].name);
        }
        if has_product(rest, name) {
            let k: int = product_index(rest, name);
            let before_k: int = if k < i { k } else { k + 1 };
            assert(products[before_k].name == name);
            if before_k < i {
                assert(products[before_k].name != products[i].name);
            } else {
                assert(products[i].name != products[before_k].name);
            }
        }
    }
}

impl Product {
    /// Whether the product is one that purchases and sales can have left.
    pub open spec fn wf(&self) -> bool {
        product_wf(self@)
    }

    /// A new product with `quantity` units in stock, all bought at
    /// `purchase_price`.
    pub fn new(
        name: String,
        description: String,
        quantity: u64,
        sale_price: u64,
        purchase_price: u64,
    ) -> (product: Product)
        requires
            quantity > 0,
        ensures
            product@ == created(name@, description@, quantity, sale_price, purchase_price),
            product.wf(),
    {
        let mut lots = LotLedger::new();
        lots.append_or_merge(quantity, purchase_price);
        proof {
            crate::ledger::lemma_first_lot(quantity, purchase_price);
        }
        Product {
            name: name,
            description: description,
            quantity: quantity,
            sale_price: sale_price,
            lots: lots,
        }
    }

    /// The name, by which the catalog knows the product.
    pub fn name(&self) -> (name: &String)
        ensures
            name@ == self@.name,
    {
        &self.name
    }

    /// The description.
    pub fn description(&self) -> (description: &String)
        ensures
            description@ == self@.description,
    {
        &self.description
    }

    /// The number of units in stock.
    pub fn quantity(&self) -> (quantity: u64)
        ensures
            quantity == self@.quantity,
    {
        self.quantity
    }

    /// The price at which one unit is sold.
    pub fn sale_price(&self) -> (price: u64)
        ensures
            price == self@.sale_price,
    {
        self.sale_price
    }

    /// The purchase lots.
    pub fn lots(&self) -> (lots: &LotLedger)
        ensures
            lots@ == self@.lots,
    {
        &self.lots
    }

    /// The product with another description.
    pub fn with_description(self, description: String) -> (product: Product)
        ensures
            product@ == (ProductView { description: description@, ..self@ }),
    {
        Product { description: description, ..self }
    }

    /// The product with another sale price.
    pub fn with_sale_price(self, sale_price: u64) -> (product: Product)
        ensures
            product@ == (ProductView { sale_price: sale_price, ..self@ }),
    {
        Product { sale_price: sale_price, ..self }
    }

    /// The product with `quantity` units in stock.
    pub fn with_quantity(self, quantity: u64) -> (product: Product)
        ensures
            product@ == (ProductView { quantity: quantity, ..self@ }),
    {
        Product { quantity: quantity, ..self }
    }
}

impl Clone for Product {
    fn clone(&self) -> (copy: Self)
        ensures
            copy@ == self@,
    {
        Product {
            name: self.name.clone(),
            description: self.description.clone(),
            quantity: self.quantity,
            sale_price: self.sale_price,
            lots: self.lots.clone(),
        }
    }
}

/// The products in stock, in the order in which they were created.
pub struct Catalog {
    products: Vec<Product>,
}

impl View for Catalog {
    type V = Seq<ProductView>;

    closed spec fn view(&self) -> Seq<ProductView> {
        product_views(self.products@)
    }
}

impl Catalog {
    /// Whether the catalog is one that its operations can have left.
    pub open spec fn wf(&self) -> bool {
        catalog_wf(self@)
    }

    /// A catalog without products.
    pub fn new() -> (catalog: Catalog)
        ensures
            catalog@ == Seq::<ProductView>::empty(),
            catalog.wf(),
    {
        let catalog = Catalog { products: Vec::new() };
        assert(catalog@ =~= Seq::<ProductView>::empty());
        catalog
    }

    /// The products, in the order in which they were created.
    pub fn products(&self) -> (products: &Vec<Product>)
        ensures
            product_views(products@) == self@,
    {
        &self.products
    }

    /// The place of the product called `name`.
    pub fn position(&self, name: &String) -> (place: Option<usize>)
        requires
            self.wf(),
        ensures
            match place {
                Some(i) => has_product(self@, name@) && i == product_index(self@, name@),
                None => !has_product(self@, name@),
            },
    {
        let mut i: usize = 0;
        while i < self.products.len()
            invariant
                i <= self.products.len(),
                self.wf(),
                forall|j: int| 0 <= j < i ==> (#[trigger] self@[j]).name != name@,
            decreases self.products.len() - i,
        {
            if self.products[i].name == *name {
                proof {
                    assert(self@[i as int].name == name@);
                    lemma_product_index(self@, i as int);
                }
                return Some(i);
            }
            i = i + 1;
        }
        None
    }

    /// The product called `name`.
    pub fn get(&self, name: &String) -> (found: Option<&Product>)
        requires
            self.wf(),
        ensures
            match found {
                Some(product) => has_product(self@, name@) && product@ == self@[product_index(
                    self@,
                    name@,
                )],
                None => !has_product(self@, name@),
            },
    {
        match self.position(name) {
            Some(i) => Some(&self.products[i]),
            None => None,
        }
    }

    /// Puts a new product at the end of the catalog, with `quantity` units
    /// in one lot. Fails, and changes nothing, if the name is taken.
    pub fn create(
        &mut self,
        name: String,
        description: String,
        quantity: u64,
        sale_price: u64,
        purchase_price: u64,
    ) -> (outcome: Result<(), InventoryError>)
        requires
            old(self).wf(),
            quantity > 0,
        ensures
            final(self).wf(),
            has_product(old(self)@, name@) ==> outcome == Err::<(), InventoryError>(
                InventoryError::AlreadyExists,
            ) && final(self)@ == old(self)@,
            !has_product(old(self)@, name@) ==> outcome.is_ok() && final(self)@ == old(self)@.push(
                created(name@, description@, quantity, sale_price, purchase_price),
            ),
    {
        match self.position(&name) {
            Some(_) => Err(InventoryError::AlreadyExists),
            None => {
                let product = Product::new(name, description, quantity, sale_price, purchase_price);
                self.products.push(product);
                proof {
                    assert(self@ =~= old(self)@.push(product@));
                }
                Ok(())
            },
        }
    }

    /// Adds `quantity` units bought at `purchase_price` to the product
    /// called `name`: its stock grows, and the purchase goes into the lot
    /// with that unit cost or into a new lot at the end. Fails, and changes
    /// nothing, if there is no such product.
    pub fn restock(&mut self, name: &String, quantity: u64, purchase_price: u64) -> (outcome: Result<
        (),
        InventoryError,
    >)
        requires
            old(self).wf(),
            quantity > 0,
            has_product(old(self)@, name@) ==> units(
                old(self)@[product_index(old(self)@, name@)].lots,
            ) + quantity <= u64::MAX,
        ensures
            final(self).wf(),
            !has_product(old(self)@, name@) ==> outcome == Err::<(), InventoryError>(
                InventoryError::NotFound,
            ) && final(self)@ == old(self)@,
            has_product(old(self)@, name@) ==> outcome.is_ok() && final(self)@ == old(self)@.update(
                product_index(old(self)@, name@),
                restocked(old(self)@[product_index(old(self)@, name@)], quantity, purchase_price),
            ),
    {
        match self.position(name) {
            None => Err(InventoryError::NotFound),
            Some(i) => {
                let product = &mut self.products[i];
                product.quantity = product.quantity + quantity;
                product.lots.append_or_merge(quantity, purchase_price);
                proof {
                    assert(self@ =~= old(self)@.update(
                        i as int,
                        restocked(old(self)@[i as int], quantity, purchase_price),
                    ));
                }
                Ok(())
            },
        }
    }

    /// Puts `record` in the place of the product of the same name. Fails,
    /// and changes nothing, if there is no such product.
    pub fn replace(&mut self, record: Product) -> (outcome: Result<(), InventoryError>)
        requires
            old(self).wf(),
            record.wf(),
        ensures
            final(self).wf(),
            !has_product(old(self)@, record@.name) ==> outcome == Err::<(), InventoryError>(
                InventoryError::NotFound,
            ) && final(self)@ == old(self)@,
            has_product(old(self)@, record@.name) ==> outcome.is_ok() && final(self)@ == old(
                self,
            )@.update(product_index(old(self)@, record@.name), record@),
    {
        match self.position(&record.name) {
            None => Err(InventoryError::NotFound),
            Some(i) => {
                self.products.set(i, record);
                proof {
                    assert(self@ =~= old(self)@.update(i as int, record@));
                }
                Ok(())
            },
        }
    }

    /// Takes the product called `name` out of the catalog, if there is one.
    pub fn delete(&mut self, name: &String)
        requires
            old(self).wf(),
        ensures
            final(self).wf(),
            final(self)@ == without_product(old(self)@, name@),
    {
        match self.position(name) {
            None => {},
            Some(i) => {
                let _ = self.products.remove(i);
                proof {
                    assert(self@ =~= old(self)@.remove(i as int));
                }
            },
        }
    }
}

} // verus!
