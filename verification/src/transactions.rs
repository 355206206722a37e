//! The transaction log: what was sold and what was bought, in the order in
//! which it happened.

use vstd::prelude::*;

verus! {

/// A completed sale. The price is the product's sale price at the time of
/// the sale, copied: a later change of the product does not reach it.
#[derive(Debug)]
pub struct SaleTx {
    product_name: String,
    quantity: u64,
    sale_price: u64,
}

/// A sale as contracts see it.
pub struct SaleTxView {
    pub product_name: Seq<char>,
    pub quantity: u64,
    pub sale_price: u64,
}

/// A completed purchase.
#[derive(Debug)]
pub struct PurchaseTx {
    product_name: String,
    quantity: u64,
    purchase_price: u64,
}

/// A purchase as contracts see it.
pub struct PurchaseTxView {
    pub product_name: Seq<char>,
    pub quantity: u64,
    pub purchase_price: u64,
}

impl View for SaleTx {
    type V = SaleTxView;

    closed spec fn view(&self) -> SaleTxView {
        SaleTxView {
            product_name: self.product_name@,
            quantity: self.quantity,
            sale_price: self.sale_price,
        }
    }
}

impl View for PurchaseTx {
    type V = PurchaseTxView;

    closed spec fn view(&self) -> PurchaseTxView {
        PurchaseTxView {
            product_name: self.product_name@,
            quantity: self.quantity,
            purchase_price: self.purchase_price,
        }
    }
}

/// The sales of a log, each by its view.
pub open spec fn sale_views(sales: Seq<SaleTx>) -> Seq<SaleTxView> {
    sales.map_values(|tx: SaleTx| tx@)
}

/// The purchases of a log, each by its view.
pub open spec fn purchase_views(purchases: Seq<PurchaseTx>) -> Seq<PurchaseTxView> {
    purchases.map_values(|tx: PurchaseTx| tx@)
}

/// The units sold in all the sales together.
pub open spec fn units_sold(sales: Seq<SaleTxView>) -> nat
    decreases sales.len(),
{
    if sales.len() == 0 {
        0
    } else {
        units_sold(sales.drop_last()) + sales.last().quantity as nat
    }
}

/// The units of the product `name` sold in all its sales together.
pub open spec fn units_sold_of(sales: Seq<SaleTxView>, name: Seq<char>) -> nat
    decreases sales.len(),
{
    if sales.len() == 0 {
        0
    } else if sales.last().product_name == name {
        units_sold_of(sales.drop_last(), name) + sales.last().quantity as nat
    } else {
        units_sold_of(sales.drop_last(), name)
    }
}

/// What all the sales of the product `name` brought in together.
pub open spec fn revenue_of(sales: Seq<SaleTxView>, name: Seq<char>) -> nat
    decreases sales.len(),
{
    if sales.len() == 0 {
        0
    } else if sales.last().product_name == name {
        revenue_of(sales.drop_last(), name) + (sales.last().quantity as nat) * (
        sales.last().sale_price as nat)
    } else {
        revenue_of(sales.drop_last(), name)
    }
}

/// The units bought in all the purchases together.
pub open spec fn units_purchased(purchases: Seq<PurchaseTxView>) -> nat
    decreases purchases.len(),
{
    if purchases.len() == 0 {
        0
    } else {
        units_purchased(purchases.drop_last()) + purchases.last().quantity as nat
    }
}

/// The units of the product `name` bought in all its purchases together.
pub open spec fn units_purchased_of(purchases: Seq<PurchaseTxView>, name: Seq<char>) -> nat
    decreases purchases.len(),
{
    if purchases.len() == 0 {
        0
    } else if purchases.last().product_name == name {
        units_purchased_of(purchases.drop_last(), name) + purchases.last().quantity as nat
    } else {
        units_purchased_of(purchases.drop_last(), name)
    }
}

/// One more purchase adds its quantity to the units bought in a prefix.
pub proof fn lemma_units_purchased_step(purchases: Seq<PurchaseTxView>, k: int)
    requires
        0 <= k < purchases.len(),
    ensures
        units_purchased(purchases.take(k + 1)) == units_purchased(purchases.take(k))
            + purchases[k].quantity,
{
    assert(purchases.take(k + 1).drop_last() =~= purchases.take(k));
}

/// A prefix of the purchases bought no more units than all of them.
pub proof fn lemma_units_purchased_prefix(purchases: Seq<PurchaseTxView>, k: int)
    requires
        0 <= k <= purchases.len(),
    ensures
        units_purchased(purchases.take(k)) <= units_purchased(purchases),
    decreases purchases.len() - k,
{
    if k == purchases.len() {
        assert(purchases.take(k) =~= purchases);
    } else {
        lemma_units_purchased_step(purchases, k);
        lemma_units_purchased_prefix(purchases, k + 1);
    }
}

/// The names of the products sold, each once, in the order of their first
/// sale.
pub open spec fn sold_names(sales: Seq<SaleTxView>) -> Seq<Seq<char>>
    decreases sales.len(),
{
    if sales.len() == 0 {
        Seq::empty()
    } else {
        let earlier = sold_names(sales.drop_last());
        if earlier.contains(sales.last().product_name) {
            earlier
        } else {
            earlier.push(sales.last().product_name)
        }
    }
}

/// A product whose name is not among the names sold has sold nothing.
pub proof fn lemma_unsold(sales: Seq<SaleTxView>, name: Seq<char>)
    requires
        !sold_names(sales).contains(name),
    ensures
        units_sold_of(sales, name) == 0,
        revenue_of(sales, name) == 0,
    decreases sales.len(),
{
    if sales.len() > 0 {
        let earlier = sold_names(sales.drop_last());
        if earlier.contains(sales.last().product_name) {
            lemma_unsold(sales.drop_last(), name);
        } else {
            let last: int = earlier.len() as int;
            assert(earlier.push(sales.last().product_name)[last] == sales.last().product_name);
            if earlier.contains(name) {
                let i: int = choose|i: int| 0 <= i < earlier.len() && earlier[i] == name;
                assert(earlier.push(sales.last().product_name)[i] == name);
            }
            lemma_unsold(sales.drop_last(), name);
        }
    }
}

/// One more sale adds its quantity to the units sold in a prefix.
pub proof fn lemma_units_sold_step(sales: Seq<SaleTxView>, k: int)
    requires
        0 <= k < sales.len(),
    ensures
        sales.take(k + 1).drop_last() == sales.take(k),
        sales.take(k + 1).last() == sales[k],
        units_sold(sales.take(k + 1)) == units_sold(sales.take(k)) + sales[k].quantity,
{
    assert(sales.take(k + 1).drop_last() =~= sales.take(k));
}

/// One more sale adds its quantity to the units sold of its own product
/// in a prefix, and nothing to those of any other.
pub proof fn lemma_units_sold_of_step(sales: Seq<SaleTxView>, name: Seq<char>, k: int)
    requires
        0 <= k < sales.len(),
    ensures
        units_sold_of(sales.take(k + 1), name) == units_sold_of(sales.take(k), name) + (if sales[k].product_name
            == name {
            sales[k].quantity as int
        } else {
            0
        }),
        revenue_of(sales.take(k + 1), name) == revenue_of(sales.take(k), name) + (if sales[k].product_name
            == name {
            sales[k].quantity * sales[k].sale_price
        } else {
            0
        }),
{
    assert(sales.take(k + 1).drop_last() =~= sales.take(k));
}

/// A prefix of the sales sold no more units than all of them.
pub proof fn lemma_units_sold_prefix(sales: Seq<SaleTxView>, k: int)
    requires
        0 <= k <= sales.len(),
    ensures
        units_sold(sales.take(k)) <= units_sold(sales),
    decreases sales.len() - k,
{
    if k == sales.len() {
        assert(sales.take(k) =~= sales);
    } else {
        lemma_units_sold_step(sales, k);
        lemma_units_sold_prefix(sales, k + 1);
    }
}

/// The sales of one product are part of all the sales, and each unit
/// brought in no more than `u64::MAX`.
pub proof fn lemma_sold_of_bounds(sales: Seq<SaleTxView>, name: Seq<char>)
    ensures
        units_sold_of(sales, name) <= units_sold(sales),
        revenue_of(sales, name) <= units_sold_of(sales, name) * u64::MAX,
    decreases sales.len(),
{
    if sales.len() > 0 {
        lemma_sold_of_bounds(sales.drop_last(), name);
        let quantity: nat = sales.last().quantity as nat;
        let price: nat = sales.last().sale_price as nat;
        let before: nat = units_sold_of(sales.drop_last(), name);
        assert(quantity * price <= quantity * u64::MAX) by (nonlinear_arith)
            requires
                price <= u64::MAX,
        ;
        assert((before + quantity) * u64::MAX == before * u64::MAX + quantity * u64::MAX)
            by (nonlinear_arith);
    }
}

/// What `units` units brought in at most fits in 128 bits if the units fit
/// in 64.
pub proof fn lemma_amount_fits(amount: nat, units: nat)
    requires
        amount <= units * u64::MAX,
        units <= u64::MAX,
    ensures
        amount <= u64::MAX * u64::MAX,
        u64::MAX * u64::MAX < u128::MAX,
{
    assert(units * u64::MAX <= u64::MAX * u64::MAX) by (nonlinear_arith)
        requires
            units <= u64::MAX,
    ;
}

/// Two 64-bit numbers have a product of 128 bits.
pub proof fn lemma_product_fits(a: u64, b: u64)
    ensures
        a * b <= u64::MAX * u64::MAX,
        u64::MAX * u64::MAX < u128::MAX,
{
    assert(a * b <= u64::MAX * u64::MAX) by (nonlinear_arith)
        requires
            a <= u64::MAX,
            b <= u64::MAX,
    ;
}

impl SaleTx {
    /// No sale is of nothing.
    pub open spec fn wf(&self) -> bool {
        self@.quantity > 0
    }

    /// The record of a sale of `quantity` units of `product_name` at
    /// `sale_price` each.
    pub fn new(product_name: String, quantity: u64, sale_price: u64) -> (tx: SaleTx)
        requires
            quantity > 0,
        ensures
            tx@ == (SaleTxView { product_name: product_name@, quantity: quantity, sale_price: sale_price }),
            tx.wf(),
    {
        SaleTx { product_name: product_name, quantity: quantity, sale_price: sale_price }
    }

    /// The name of the product sold.
    pub fn product_name(&self) -> (name: &String)
        ensures
            name@ == self@.product_name,
    {
        &self.product_name
    }

    /// The number of units sold.
    pub fn quantity(&self) -> (quantity: u64)
        ensures
            quantity == self@.quantity,
    {
        self.quantity
    }

    /// The price of one unit at the time of the sale.
    pub fn sale_price(&self) -> (price: u64)
        ensures
            price == self@.sale_price,
    {
        self.sale_price
    }

    /// What the sale brought in: the quantity times the price of one unit.
    pub fn revenue(&self) -> (revenue: u128)
        ensures
            revenue == self@.quantity * self@.sale_price,
    {
        proof {
            lemma_product_fits(self.quantity, self.sale_price);
        }
        (self.quantity as u128) * (self.sale_price as u128)
    }
}

impl Clone for SaleTx {
    fn clone(&self) -> (copy: Self)
        ensures
            copy@ == self@,
    {
        SaleTx {
            product_name: self.product_name.clone(),
            quantity: self.quantity,
            sale_price: self.sale_price,
        }
    }
}

impl PurchaseTx {
    /// No purchase is of nothing.
    pub open spec fn wf(&self) -> bool {
        self@.quantity > 0
    }

    /// The record of a purchase of `quantity` units of `product_name` at
    /// `purchase_price` each.
    pub fn new(product_name: String, quantity: u64, purchase_price: u64) -> (tx: PurchaseTx)
        requires
            quantity > 0,
        ensures
            tx@ == (PurchaseTxView {
                product_name: product_name@,
                quantity: quantity,
                purchase_price: purchase_price,
            }),
            tx.wf(),
    {
        PurchaseTx { product_name: product_name, quantity: quantity, purchase_price: purchase_price }
    }

    /// The name of the product bought.
    pub fn product_name(&self) -> (name: &String)
        ensures
            name@ == self@.product_name,
    {
        &self.product_name
    }

    /// The number of units bought.
    pub fn quantity(&self) -> (quantity: u64)
        ensures
            quantity == self@.quantity,
    {
        self.quantity
    }

    /// What one unit cost.
    pub fn purchase_price(&self) -> (price: u64)
        ensures
            price == self@.purchase_price,
    {
        self.purchase_price
    }

    /// What the purchase cost: the quantity times the cost of one unit.
    pub fn total_cost(&self) -> (cost: u128)
        ensures
            cost == self@.quantity * self@.purchase_price,
    {
        proof {
            lemma_product_fits(self.quantity, self.purchase_price);
        }
        (self.quantity as u128) * (self.purchase_price as u128)
    }
}

impl Clone for PurchaseTx {
    fn clone(&self) -> (copy: Self)
        ensures
            copy@ == self@,
    {
        PurchaseTx {
            product_name: self.product_name.clone(),
            quantity: self.quantity,
            purchase_price: self.purchase_price,
        }
    }
}

/// The two logs of an inventory. Records are only ever added at the end:
/// none is changed, moved or taken out.
pub struct TransactionLog {
    sales: Vec<SaleTx>,
    purchases: Vec<PurchaseTx>,
}

impl TransactionLog {
    /// The sales, oldest first.
    pub closed spec fn sales_view(&self) -> Seq<SaleTxView> {
        sale_views(self.sales@)
    }

    /// The purchases, oldest first.
    pub closed spec fn purchases_view(&self) -> Seq<PurchaseTxView> {
        purchase_views(self.purchases@)
    }

    /// Every record is of at least one unit.
    pub open spec fn wf(&self) -> bool {
        &&& forall|k: int|
            0 <= k < self.sales_view().len() ==> (#[trigger] self.sales_view()[k]).quantity > 0
        &&& forall|k: int|
            0 <= k < self.purchases_view().len() ==> (#[trigger] self.purchases_view()[k]).quantity
                > 0
    }

    /// A log without records.
    pub fn new() -> (log: TransactionLog)
        ensures
            log.sales_view() == Seq::<SaleTxView>::empty(),
            log.purchases_view() == Seq::<PurchaseTxView>::empty(),
            log.wf(),
    {
        let log = TransactionLog { sales: Vec::new(), purchases: Vec::new() };
        assert(log.sales_view() =~= Seq::<SaleTxView>::empty());
        assert(log.purchases_view() =~= Seq::<PurchaseTxView>::empty());
        log
    }

    /// Adds a sale at the end of the sales.
    pub fn append_sale(&mut self, tx: SaleTx)
        requires
            old(self).wf(),
            tx.wf(),
        ensures
            final(self).wf(),
            final(self).sales_view() == old(self).sales_view().push(tx@),
            final(self).purchases_view() == old(self).purchases_view(),
    {
        self.sales.push(tx);
        proof {
            let before: Seq<SaleTxView> = old(self).sales_view();
            assert(self.sales_view() =~= before.push(tx@));
            assert forall|k: int| 0 <= k < self.sales_view().len() implies (
            #[trigger] self.sales_view()[k]).quantity > 0 by {
                if k < before.len() {
                    assert(before[k].quantity > 0);
                }
            }
            assert(self.purchases_view() == old(self).purchases_view());
        }
    }

    /// Adds a purchase at the end of the purchases.
    pub fn append_purchase(&mut self, tx: PurchaseTx)
        requires
            old(self).wf(),
            tx.wf(),
        ensures
            final(self).wf(),
            final(self).purchases_view() == old(self).purchases_view().push(tx@),
            final(self).sales_view() == old(self).sales_view(),
    {
        self.purchases.push(tx);
        proof {
            let before: Seq<PurchaseTxView> = old(self).purchases_view();
            assert(self.purchases_view() =~= before.push(tx@));
            assert forall|k: int| 0 <= k < self.purchases_view().len() implies (
            #[trigger] self.purchases_view()[k]).quantity > 0 by {
                if k < before.len() {
                    assert(before[k].quantity > 0);
                }
            }
            assert(self.sales_view() == old(self).sales_view());
        }
    }

    /// The sales, oldest first.
    pub fn sales(&self) -> (sales: &Vec<SaleTx>)
        ensures
            sale_views(sales@) == self.sales_view(),
    {
        &self.sales
    }

    /// The purchases, oldest first.
    pub fn purchases(&self) -> (purchases: &Vec<PurchaseTx>)
        ensures
            purchase_views(purchases@) == self.purchases_view(),
    {
        &self.purchases
    }
}

} // verus!
