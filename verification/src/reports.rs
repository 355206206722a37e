//! The reports: what the inventory can tell of its products, its sales and
//! its purchases. A report reads the inventory and changes nothing.

use crate::attribution::{aggregate_cost, attribution, CostBasis, SequentialAttribution};
use crate::catalog::{
    has_product, lemma_product_index, product_index, product_views, product_wf, Catalog, Product,
};
use crate::error::InventoryError;
use crate::inventory::{Inventory, InventoryView};
use crate::ledger::{lemma_range_cost_bound, lots_value, range_matched, units};
use crate::money::Profit;
use crate::transactions::{
    lemma_amount_fits, lemma_sold_of_bounds, lemma_units_sold_of_step, lemma_units_sold_prefix,
    lemma_units_sold_step, lemma_unsold, revenue_of, sale_views, sold_names, units_sold,
    purchase_views, units_sold_of, PurchaseTx, SaleTx, SaleTxView,
};
use vstd::prelude::*;

verus! {

/// What the units of a line cost, and what was left of the revenue.
#[derive(Clone, Copy, Debug)]
pub struct Attributed {
    /// What the units that found a lot cost.
    pub cost: u128,
    /// How many units found no lot. They are counted at no cost.
    pub units_unmatched: u64,
    /// The revenue less the cost.
    pub profit: Profit,
}

/// One sale in the sales history.
#[derive(Debug)]
pub struct SaleLine {
    pub product_name: String,
    pub quantity: u64,
    pub sale_price: u64,
    /// The quantity times the sale price.
    pub revenue: u128,
    /// What the sale cost, or an attribution gap where the product is gone.
    pub outcome: Result<Attributed, InventoryError>,
}

/// Whether `outcome` is the attribution of `revenue` that `expected` asks
/// for: that cost, that many unmatched units and the profit between the
/// two, or an attribution gap where there is no answer.
pub open spec fn attributed_as(
    outcome: Result<Attributed, InventoryError>,
    revenue: int,
    expected: Option<(nat, nat)>,
) -> bool {
    match expected {
        Some((cost, units_unmatched)) => {
            &&& outcome matches Ok(attributed)
            &&& attributed.cost == cost
            &&& attributed.units_unmatched == units_unmatched
            &&& attributed.profit@ == revenue - cost
            &&& attributed.profit.wf()
        },
        None => outcome == Err::<Attributed, InventoryError>(InventoryError::AttributionGap),
    }
}

/// What the sale at place `k` of the log cost: its units are matched after
/// all the units that earlier sales of the same product have claimed.
pub open spec fn history_cost(inventory: InventoryView, k: int) -> Option<(nat, nat)> {
    let sale = inventory.sales[k];
    attribution(
        inventory.products,
        sale.product_name,
        units_sold_of(inventory.sales.take(k), sale.product_name) as int,
        sale.quantity as int,
    )
}

/// Whether `line` is the line of the sales history for the sale at place
/// `k` of the log.
pub open spec fn is_history_line(inventory: InventoryView, k: int, line: SaleLine) -> bool {
    let sale = inventory.sales[k];
    &&& line.product_name@ == sale.product_name
    &&& line.quantity == sale.quantity
    &&& line.sale_price == sale.sale_price
    &&& line.revenue == sale.quantity * sale.sale_price
    &&& attributed_as(line.outcome, sale.quantity * sale.sale_price, history_cost(inventory, k))
}

/// The cost basis of a line with the profit that it leaves of `revenue`.
pub fn with_profit(outcome: Result<CostBasis, InventoryError>, revenue: u128) -> (attributed: Result<
    Attributed,
    InventoryError,
>)
    ensures
        match outcome {
            Ok(basis) => attributed matches Ok(a) && a.cost == basis.cost && a.units_unmatched
                == basis.units_unmatched && a.profit@ == revenue - basis.cost && a.profit.wf(),
            Err(error) => attributed == Err::<Attributed, InventoryError>(error),
        },
{
    match outcome {
        Ok(basis) => Ok(
            Attributed {
                cost: basis.cost,
                units_unmatched: basis.units_unmatched,
                profit: Profit::between(revenue, basis.cost),
            },
        ),
        Err(error) => Err(error),
    }
}

/// All the sales of one product in the sales report.
#[derive(Debug)]
pub struct ProductSales {
    pub product_name: String,
    /// The units sold in all the sales of the product together.
    pub quantity: u64,
    /// What all the sales of the product brought in together.
    pub revenue: u128,
    /// What the units sold cost, or an attribution gap where the product
    /// is gone.
    pub outcome: Result<Attributed, InventoryError>,
}

/// The names of the lines, in their order.
pub open spec fn line_names(lines: Seq<ProductSales>) -> Seq<Seq<char>> {
    lines.map_values(|line: ProductSales| line.product_name@)
}

/// The units of all the lines together.
pub open spec fn line_units(lines: Seq<ProductSales>) -> nat
    decreases lines.len(),
{
    if lines.len() == 0 {
        0
    } else {
        line_units(lines.drop_last()) + lines.last().quantity as nat
    }
}

/// Whether `line` has the name, the units and the revenue of the product
/// that is sold as the `i`-th in `sales`.
pub open spec fn is_grouped_line(sales: Seq<SaleTxView>, i: int, line: ProductSales) -> bool {
    &&& line.product_name@ == sold_names(sales)[i]
    &&& line.quantity == units_sold_of(sales, line.product_name@)
    &&& line.revenue == revenue_of(sales, line.product_name@)
}

/// Whether `line` is the line of the sales report for the product that is
/// sold as the `i`-th: all its units are matched at once, from the first
/// unit of the first lot that the product has now.
pub open spec fn is_sales_line(inventory: InventoryView, i: int, line: ProductSales) -> bool {
    &&& is_grouped_line(inventory.sales, i, line)
    &&& attributed_as(
        line.outcome,
        line.revenue as int,
        attribution(inventory.products, line.product_name@, 0, line.quantity as int),
    )
}

/// A line at the end adds its units to the units of the lines.
pub proof fn lemma_line_units_push(lines: Seq<ProductSales>, line: ProductSales)
    ensures
        line_units(lines.push(line)) == line_units(lines) + line.quantity,
{
    assert(lines.push(line).drop_last() =~= lines);
}

/// Replacing one line changes the units of the lines by the difference of
/// the two quantities.
pub proof fn lemma_line_units_update(lines: Seq<ProductSales>, i: int, line: ProductSales)
    requires
        0 <= i < lines.len(),
    ensures
        line_units(lines.update(i, line)) == line_units(lines) - lines[i].quantity + line.quantity,
    decreases lines.len(),
{
    let changed: Seq<ProductSales> = lines.update(i, line);
    if i == lines.len() - 1 {
        assert(changed.drop_last() =~= lines.drop_last());
    } else {
        assert(changed.drop_last() =~= lines.drop_last().update(i, line));
        lemma_line_units_update(lines.drop_last(), i, line);
    }
}

/// The profit of all the lines together. A line with an attribution gap
/// counts for nothing.
pub open spec fn profit_total(lines: Seq<ProductSales>) -> int
    decreases lines.len(),
{
    if lines.len() == 0 {
        0
    } else {
        profit_total(lines.drop_last()) + match lines.last().outcome {
            Ok(attributed) => attributed.profit@,
            Err(_) => 0,
        }
    }
}

/// The sales report: the sales of each product, and the profit of all of
/// them together.
#[derive(Debug)]
pub struct SalesReport {
    pub lines: Vec<ProductSales>,
    pub total_profit: Profit,
}

/// One more line adds its units and its profit to those of a prefix.
pub proof fn lemma_lines_step(lines: Seq<ProductSales>, i: int)
    requires
        0 <= i < lines.len(),
    ensures
        line_units(lines.take(i + 1)) == line_units(lines.take(i)) + lines[i].quantity,
        profit_total(lines.take(i + 1)) == profit_total(lines.take(i)) + match lines[i].outcome {
            Ok(attributed) => attributed.profit@,
            Err(_) => 0,
        },
{
    assert(lines.take(i + 1).drop_last() =~= lines.take(i));
}

/// A prefix of the lines has no more units than all of them.
pub proof fn lemma_line_units_prefix(lines: Seq<ProductSales>, i: int)
    requires
        0 <= i <= lines.len(),
    ensures
        line_units(lines.take(i)) <= line_units(lines),
    decreases lines.len() - i,
{
    if i == lines.len() {
        assert(lines.take(i) =~= lines);
    } else {
        lemma_lines_step(lines, i);
        lemma_line_units_prefix(lines, i + 1);
    }
}

/// All the purchases of one product in the purchase report.
#[derive(Debug)]
pub struct ProductPurchases {
    pub product_name: String,
    /// The units in all the lots of the product together.
    pub quantity: u64,
    /// What all the lots of the product cost together.
    pub total_cost: u128,
}

/// Whether `line` is the line of the purchase report for the product at
/// place `i` of the catalog.
pub open spec fn is_purchase_line(inventory: InventoryView, i: int, line: ProductPurchases) -> bool {
    let product = inventory.products[i];
    &&& line.product_name@ == product.name
    &&& line.quantity == units(product.lots)
    &&& line.total_cost == lots_value(product.lots)
}

/// The place of the line for the product `name`.
fn find_line(lines: &Vec<ProductSales>, name: &String) -> (place: Option<usize>)
    ensures
        match place {
            Some(j) => j < lines@.len() && lines@[j as int].product_name@ == name@,
            None => forall|j: int| 0 <= j < lines@.len() ==> (#[trigger] lines@[j]).product_name@ != name@,
        },
{
    let mut j: usize = 0;
    while j < lines.len()
        invariant
            j <= lines.len(),
            forall|i: int| 0 <= i < j ==> (#[trigger] lines@[i]).product_name@ != name@,
        decreases lines.len() - j,
    {
        if lines[j].product_name == *name {
            return Some(j);
        }
        j = j + 1;
    }
    None
}

/// Groups the sales by product: one line for each product sold, in the
/// order of first sale, with the units and the revenue of all its sales.
/// The lines say nothing of cost yet.
fn group_sales(sales: &Vec<SaleTx>) -> (lines: Vec<ProductSales>)
    requires
        units_sold(sale_views(sales@)) <= u64::MAX,
    ensures
        lines@.len() == sold_names(sale_views(sales@)).len(),
        forall|i: int|
            0 <= i < lines@.len() ==> is_grouped_line(sale_views(sales@), i, #[trigger] lines@[i]),
        line_units(lines@) == units_sold(sale_views(sales@)),
{
    let ghost all: Seq<SaleTxView> = sale_views(sales@);
    let mut lines: Vec<ProductSales> = Vec::new();
    let mut k: usize = 0;
    proof {
        assert(all.take(0) =~= Seq::empty());
        assert(line_names(lines@) =~= sold_names(all.take(0)));
    }
    while k < sales.len()
        invariant
            k <= sales.len(),
            all == sale_views(sales@),
            units_sold(all) <= u64::MAX,
            line_names(lines@) == sold_names(all.take(k as int)),
            forall|i: int|
                0 <= i < lines@.len() ==> is_grouped_line(all.take(k as int), i, #[trigger] lines@[i]),
            forall|i: int, j: int|
                0 <= i < j < lines@.len() ==> (#[trigger] lines@[i]).product_name@ != (
                #[trigger] lines@[j]).product_name@,
            line_units(lines@) == units_sold(all.take(k as int)),
        decreases sales.len() - k,
    {
        let tx: &SaleTx = &sales[k];
        let revenue: u128 = tx.revenue();
        let ghost name: Seq<char> = tx@.product_name;
        let ghost before: Seq<ProductSales> = lines@;
        let ghost names: Seq<Seq<char>> = sold_names(all.take(k as int));
        proof {
            assert(tx@ == all[k as int]);
            lemma_units_sold_step(all, k as int);
            lemma_units_sold_prefix(all, k + 1);
            lemma_units_sold_of_step(all, name, k as int);
            lemma_sold_of_bounds(all.take(k + 1), name);
            lemma_amount_fits(
                revenue_of(all.take(k + 1), name),
                units_sold_of(all.take(k + 1), name),
            );
        }
        match find_line(&lines, tx.product_name()) {
            Some(j) => {
                proof {
                    assert(line_names(before)[j as int] == name);
                    assert(names.contains(name));
                    assert(sold_names(all.take(k + 1)) == names);
                }
                let line = &mut lines[j];
                line.quantity = line.quantity + tx.quantity();
                line.revenue = line.revenue + revenue;
                proof {
                    lemma_line_units_update(before, j as int, lines@[j as int]);
                    assert(lines@ =~= before.update(j as int, lines@[j as int]));
                    assert(line_names(lines@) =~= line_names(before));
                    assert forall|i: int| 0 <= i < lines@.len() implies is_grouped_line(
                        all.take(k + 1),
                        i,
                        #[trigger] lines@[i],
                    ) by {
                        assert(is_grouped_line(all.take(k as int), i, before[i]));
                        lemma_units_sold_of_step(all, before[i].product_name@, k as int);
                        assert(line_names(before)[i] == before[i].product_name@);
                        if i != j {
                            assert(before[i].product_name@ != before[j as int].product_name@);
                        }
                    }
                }
            },
            None => {
                proof {
                    assert(!names.contains(name)) by {
                        if names.contains(name) {
                            let i: int = choose|i: int| 0 <= i < names.len() && names[i] == name;
                            assert(line_names(before)[i] == before[i].product_name@);
                        }
                    }
                    assert(sold_names(all.take(k + 1)) == names.push(name));
                    lemma_unsold(all.take(k as int), name);
                }
                let line = ProductSales {
                    product_name: tx.product_name().clone(),
                    quantity: tx.quantity(),
                    revenue: revenue,
                    outcome: Err(InventoryError::AttributionGap),
                };
                lines.push(line);
                proof {
                    lemma_line_units_push(before, line);
                    assert(line_names(lines@) =~= names.push(name));
                    assert forall|i: int| 0 <= i < lines@.len() implies is_grouped_line(
                        all.take(k + 1),
                        i,
                        #[trigger] lines@[i],
                    ) by {
                        if i < before.len() {
                            assert(is_grouped_line(all.take(k as int), i, before[i]));
                            lemma_units_sold_of_step(all, before[i].product_name@, k as int);
                            assert(line_names(before)[i] == before[i].product_name@);
                        }
                    }
                }
            },
        }
        k = k + 1;
    }
    proof {
        assert(all.take(k as int) =~= all);
    }
    lines
}

impl Inventory {
    /// The product report: the products, in the order of the catalog.
    pub fn product_report(&self) -> (products: &Vec<Product>)
        ensures
            product_views(products@) == self@.products,
    {
        self.catalog().products()
    }

    /// The purchase history: the purchases, in the order of the log. What
    /// each cost in all is its `total_cost`.
    pub fn purchase_history(&self) -> (purchases: &Vec<PurchaseTx>)
        ensures
            purchase_views(purchases@) == self@.purchases,
    {
        self.log().purchases()
    }

    /// The purchase report: one line for each product of the catalog, in
    /// its order, with the units bought and what they cost in all.
    pub fn purchase_report(&self) -> (lines: Vec<ProductPurchases>)
        requires
            self.wf(),
        ensures
            lines@.len() == self@.products.len(),
            forall|i: int|
                0 <= i < lines@.len() ==> is_purchase_line(self@, i, #[trigger] lines@[i]),
    {
        let products: &Vec<Product> = self.catalog().products();
        let mut lines: Vec<ProductPurchases> = Vec::new();
        let mut i: usize = 0;
        while i < products.len()
            invariant
                i <= products.len(),
                self.wf(),
                product_views(products@) == self@.products,
                lines@.len() == i,
                forall|j: int| 0 <= j < i ==> is_purchase_line(self@, j, #[trigger] lines@[j]),
            decreases products.len() - i,
        {
            let product: &Product = &products[i];
            proof {
                assert(product@ == self@.products[i as int]);
                assert(product_wf(self@.products[i as int]));
            }
            let line = ProductPurchases {
                product_name: product.name().clone(),
                quantity: product.lots().total_units(),
                total_cost: product.lots().total_value(),
            };
            lines.push(line);
            i = i + 1;
        }
        lines
    }

    /// The sales report: one line for each product that was ever sold, in
    /// the order of first sale, with the units sold, the revenue and the
    /// profit; and the profit of all the lines together. The cost of a
    /// product is that of all its units sold at once, whatever the order of
    /// its sales was.
    pub fn sales_report(&self) -> (report: SalesReport)
        requires
            self.wf(),
        ensures
            report.lines@.len() == sold_names(self@.sales).len(),
            forall|i: int|
                0 <= i < report.lines@.len() ==> is_sales_line(self@, i, #[trigger] report.lines@[i]),
            report.total_profit@ == profit_total(report.lines@),
            report.total_profit.wf(),
    {
        let catalog: &Catalog = self.catalog();
        let sales: &Vec<SaleTx> = self.log().sales();
        let mut lines: Vec<ProductSales> = group_sales(sales);
        let mut revenue_sum: u128 = 0;
        let mut cost_sum: u128 = 0;
        let mut i: usize = 0;
        proof {
            assert(lines@.take(0) =~= Seq::empty());
        }
        while i < lines.len()
            invariant
                i <= lines.len(),
                self.wf(),
                catalog@ == self@.products,
                lines@.len() == sold_names(self@.sales).len(),
                forall|j: int|
                    0 <= j < lines@.len() ==> is_grouped_line(self@.sales, j, #[trigger] lines@[j]),
                forall|j: int| 0 <= j < i ==> is_sales_line(self@, j, #[trigger] lines@[j]),
                line_units(lines@) == units_sold(self@.sales),
                units_sold(self@.sales) <= u64::MAX,
                revenue_sum - cost_sum == profit_total(lines@.take(i as int)),
                revenue_sum <= line_units(lines@.take(i as int)) * u64::MAX,
                cost_sum <= line_units(lines@.take(i as int)) * u64::MAX,
            decreases lines.len() - i,
        {
            let ghost before: Seq<ProductSales> = lines@;
            let ghost name: Seq<char> = before[i as int].product_name@;
            let quantity: u64 = lines[i].quantity;
            let revenue: u128 = lines[i].revenue;
            let outcome = aggregate_cost(catalog, &lines[i].product_name, quantity);
            let attributed = with_profit(outcome, revenue);
            proof {
                assert(is_grouped_line(self@.sales, i as int, before[i as int]));
                lemma_sold_of_bounds(self@.sales, name);
                lemma_line_units_prefix(before, i + 1);
                lemma_lines_step(before, i as int);
                assert(revenue <= quantity * u64::MAX);
                assert(line_units(before.take(i as int)) + quantity <= u64::MAX);
                if has_product(catalog@, name) {
                    let lots = catalog@[product_index(catalog@, name)].lots;
                    lemma_range_cost_bound(lots, 0, quantity as int);
                    assert(range_matched(lots, 0, quantity as int) <= quantity);
                    assert(attributed matches Ok(a) && a.cost <= quantity * u64::MAX);
                }
            }
            let line = &mut lines[i];
            line.outcome = attributed;
            proof {
                assert(lines@ =~= before.update(i as int, lines@[i as int]));
                lemma_line_units_update(before, i as int, lines@[i as int]);
                assert(lines@.take(i as int) =~= before.take(i as int));
                lemma_lines_step(lines@, i as int);
                assert forall|j: int| 0 <= j < lines@.len() implies is_grouped_line(
                    self@.sales,
                    j,
                    #[trigger] lines@[j],
                ) by {
                    assert(is_grouped_line(self@.sales, j, before[j]));
                }
                assert forall|j: int| 0 <= j < i + 1 implies is_sales_line(
                    self@,
                    j,
                    #[trigger] lines@[j],
                ) by {
                    if j < i {
                        assert(is_sales_line(self@, j, before[j]));
                    }
                }
            }
            match attributed {
                Ok(attributed) => {
                    revenue_sum = revenue_sum + revenue;
                    cost_sum = cost_sum + attributed.cost;
                },
                Err(_) => {},
            }
            i = i + 1;
        }
        proof {
            assert(lines@.take(i as int) =~= lines@);
        }
        SalesReport { lines: lines, total_profit: Profit::between(revenue_sum, cost_sum) }
    }

    /// The sales history: one line for each sale, in the order of the log,
    /// with the profit that the sale made. The units of a sale are matched
    /// against the lots that the product has now, after the units of the
    /// earlier sales of the same product.
    pub fn sales_history(&self) -> (lines: Vec<SaleLine>)
        requires
            self.wf(),
        ensures
            lines@.len() == self@.sales.len(),
            forall|k: int| 0 <= k < lines@.len() ==> is_history_line(self@, k, #[trigger] lines@[k]),
    {
        let catalog: &Catalog = self.catalog();
        let sales: &Vec<SaleTx> = self.log().sales();
        let mut state = SequentialAttribution::new(catalog);
        let mut lines: Vec<SaleLine> = Vec::new();
        let mut k: usize = 0;
        assert(self@.sales.take(0) =~= Seq::empty());
        while k < sales.len()
            invariant
                k <= sales.len(),
                self.wf(),
                catalog@ == self@.products,
                sale_views(sales@) == self@.sales,
                state@.len() == catalog@.len(),
                forall|i: int|
                    0 <= i < catalog@.len() ==> (#[trigger] state@[i]) == units_sold_of(
                        self@.sales.take(k as int),
                        catalog@[i].name,
                    ),
                lines@.len() == k,
                forall|j: int| 0 <= j < k ==> is_history_line(self@, j, #[trigger] lines@[j]),
            decreases sales.len() - k,
        {
            let tx: &SaleTx = &sales[k];
            let ghost before: Seq<u64> = state@;
            let ghost name: Seq<char> = tx@.product_name;
            proof {
                assert(tx@ == self@.sales[k as int]);
                lemma_units_sold_of_step(self@.sales, name, k as int);
                lemma_sold_of_bounds(self@.sales.take(k + 1), name);
                lemma_units_sold_prefix(self@.sales, k + 1);
                if has_product(catalog@, name) {
                    let i: int = product_index(catalog@, name);
                    assert(catalog@[i].name == name);
                    assert(before[i] == units_sold_of(self@.sales.take(k as int), name));
                }
            }
            let outcome = state.attribute(catalog, tx.product_name(), tx.quantity());
            let revenue: u128 = tx.revenue();
            let line = SaleLine {
                product_name: tx.product_name().clone(),
                quantity: tx.quantity(),
                sale_price: tx.sale_price(),
                revenue: revenue,
                outcome: with_profit(outcome, revenue),
            };
            proof {
                assert(is_history_line(self@, k as int, line));
                assert forall|i: int| 0 <= i < catalog@.len() implies (#[trigger] state@[i])
                    == units_sold_of(self@.sales.take(k + 1), catalog@[i].name) by {
                    lemma_units_sold_of_step(self@.sales, catalog@[i].name, k as int);
                    lemma_product_index(catalog@, i);
                    assert(before[i] == units_sold_of(self@.sales.take(k as int), catalog@[i].name));
                }
            }
            lines.push(line);
            k = k + 1;
        }
        lines
    }
}

} // verus!
