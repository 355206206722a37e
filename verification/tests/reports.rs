use inventory_management::attribution::{aggregate_cost, CostBasis, SequentialAttribution};
use inventory_management::catalog::Catalog;
use inventory_management::error::InventoryError;
use inventory_management::inventory::{Inventory, Listing};
use inventory_management::money::Profit;
use inventory_management::reports::with_profit;

fn name(text: &str) -> String {
    text.to_string()
}

fn listing(description: &str, sale_price: u64) -> Option<Listing> {
    Some(Listing { description: description.to_string(), sale_price })
}

fn basis(cost: u128, units_unmatched: u64) -> Result<CostBasis, InventoryError> {
    Ok(CostBasis { cost, units_unmatched })
}

fn widget_catalog() -> Catalog {
    let mut catalog = Catalog::new();
    let _ = catalog.create(name("Widget"), name("w"), 10, 500, 100);
    let _ = catalog.restock(&name("Widget"), 5, 200);
    let _ = catalog.create(name("Gadget"), name("g"), 4, 900, 300);
    catalog
}

/// Two products, sold in turn: Widget has lots (10, 200) and (5, 300) and is
/// sold at 500, then at 450; Gadget has the lot (4, 1000) and is sold at 900.
fn traded_inventory() -> Inventory {
    let mut inventory = Inventory::new();
    let _ = inventory.record_purchase(name("Widget"), 10, 200, listing("w", 500));
    let _ = inventory.record_purchase(name("Gadget"), 4, 1000, listing("g", 900));
    let _ = inventory.record_sale(&name("Widget"), 4);
    let _ = inventory.record_purchase(name("Widget"), 5, 300, None);
    let _ = inventory.record_sale(&name("Gadget"), 3);
    let _ = inventory.record_sale(&name("Widget"), 8);
    let _ = inventory.edit_product(&name("Widget"), None, Some(450));
    let _ = inventory.record_sale(&name("Widget"), 2);
    inventory
}

#[test]
fn aggregate_cost_starts_at_the_first_lot() {
    let catalog = widget_catalog();
    assert_eq!(aggregate_cost(&catalog, &name("Widget"), 12), basis(10 * 100 + 2 * 200, 0));
    assert_eq!(aggregate_cost(&catalog, &name("Widget"), 0), basis(0, 0));
    assert_eq!(aggregate_cost(&catalog, &name("Widget"), 20), basis(2000, 5));
    assert_eq!(aggregate_cost(&catalog, &name("Gadget"), 1), basis(300, 0));
}

#[test]
fn aggregate_cost_of_an_unknown_product_is_a_gap() {
    let catalog = widget_catalog();
    assert_eq!(aggregate_cost(&catalog, &name("Gizmo"), 3), Err(InventoryError::AttributionGap));
    assert_eq!(aggregate_cost(&Catalog::new(), &name("Widget"), 3), Err(InventoryError::AttributionGap));
}

#[test]
fn sequential_attribution_claims_units_once() {
    let catalog = widget_catalog();
    let mut state = SequentialAttribution::new(&catalog);
    assert_eq!(state.attribute(&catalog, &name("Widget"), 4), basis(400, 0));
    assert_eq!(state.attribute(&catalog, &name("Gadget"), 3), basis(900, 0));
    assert_eq!(state.attribute(&catalog, &name("Widget"), 8), basis(6 * 100 + 2 * 200, 0));
    assert_eq!(state.attribute(&catalog, &name("Gizmo"), 8), Err(InventoryError::AttributionGap));
    assert_eq!(state.attribute(&catalog, &name("Widget"), 5), basis(3 * 200, 2));
    assert_eq!(state.attribute(&catalog, &name("Widget"), 1), basis(0, 1));
    assert_eq!(state.attribute(&catalog, &name("Gadget"), 2), basis(300, 1));
}

#[test]
fn sequential_costs_add_up_to_the_aggregate_cost() {
    let catalog = widget_catalog();
    let sales: [u64; 5] = [3, 1, 6, 2, 2];
    let mut state = SequentialAttribution::new(&catalog);
    let mut sum: u128 = 0;
    let mut total: u64 = 0;
    for quantity in sales {
        sum += state.attribute(&catalog, &name("Widget"), quantity).unwrap().cost;
        total += quantity;
    }
    assert_eq!(total, 14);
    assert_eq!(sum, aggregate_cost(&catalog, &name("Widget"), total).unwrap().cost);
    assert_eq!(sum, 10 * 100 + 4 * 200);
}

#[test]
fn sales_history_has_one_line_for_each_sale() {
    let inventory = traded_inventory();
    let history = inventory.sales_history();
    let lines: Vec<(&str, u64, u64, u128)> = history
        .iter()
        .map(|line| (line.product_name.as_str(), line.quantity, line.sale_price, line.revenue))
        .collect();
    assert_eq!(
        lines,
        vec![("Widget", 4, 500, 2000), ("Gadget", 3, 900, 2700), ("Widget", 8, 500, 4000), ("Widget", 2, 450, 900)]
    );
    let costs: Vec<(u128, u64)> =
        history.iter().map(|line| line.outcome.unwrap()).map(|a| (a.cost, a.units_unmatched)).collect();
    assert_eq!(costs, vec![(800, 0), (3000, 0), (6 * 200 + 2 * 300, 0), (600, 0)]);
    let profits: Vec<Profit> = history.iter().map(|line| line.outcome.unwrap().profit).collect();
    assert_eq!(
        profits,
        vec![
            Profit::between(2000, 800),
            Profit::between(2700, 3000),
            Profit::between(4000, 1800),
            Profit::between(900, 600)
        ]
    );
    assert!(profits[1].is_loss());
    assert_eq!(profits[1].magnitude(), 300);
}

#[test]
fn sales_history_of_an_empty_log_is_empty() {
    assert!(Inventory::new().sales_history().is_empty());
    let mut inventory = Inventory::new();
    let _ = inventory.record_purchase(name("Widget"), 10, 200, listing("w", 500));
    assert!(inventory.sales_history().is_empty());
    assert!(inventory.sales_report().lines.is_empty());
    assert_eq!(inventory.sales_report().total_profit, Profit::between(0, 0));
}

#[test]
fn sales_report_groups_by_product_in_order_of_first_sale() {
    let inventory = traded_inventory();
    let report = inventory.sales_report();
    let lines: Vec<(&str, u64, u128)> =
        report.lines.iter().map(|line| (line.product_name.as_str(), line.quantity, line.revenue)).collect();
    assert_eq!(lines, vec![("Widget", 14, 2000 + 4000 + 900), ("Gadget", 3, 2700)]);
    let widget = report.lines[0].outcome.unwrap();
    assert_eq!(widget.cost, 10 * 200 + 4 * 300);
    assert_eq!(widget.units_unmatched, 0);
    assert_eq!(widget.profit, Profit::between(6900, 3200));
    let gadget = report.lines[1].outcome.unwrap();
    assert_eq!(gadget.cost, 3000);
    assert_eq!(gadget.profit, Profit::between(2700, 3000));
    assert_eq!(report.total_profit, Profit::between(6900 + 2700, 3200 + 3000));
    assert_eq!(report.total_profit.magnitude(), 3400);
}

#[test]
fn history_costs_add_up_to_the_report_cost() {
    let inventory = traded_inventory();
    let history = inventory.sales_history();
    let report = inventory.sales_report();
    for line in report.lines.iter() {
        let sum: u128 = history
            .iter()
            .filter(|sale| sale.product_name == line.product_name)
            .map(|sale| sale.outcome.unwrap().cost)
            .sum();
        assert_eq!(sum, line.outcome.unwrap().cost);
    }
}

#[test]
fn deleted_product_gives_gaps_not_costs() {
    let mut inventory = traded_inventory();
    inventory.delete_product(&name("Widget"));
    let history = inventory.sales_history();
    assert_eq!(history.len(), 4);
    for line in history.iter() {
        if line.product_name == "Widget" {
            assert!(matches!(line.outcome, Err(InventoryError::AttributionGap)));
        } else {
            assert_eq!(line.outcome.unwrap().cost, 3000);
        }
    }
    assert_eq!(history[0].revenue, 2000);
    let report = inventory.sales_report();
    assert_eq!(report.lines.len(), 2);
    assert_eq!(report.lines[0].product_name, "Widget");
    assert_eq!(report.lines[0].quantity, 14);
    assert_eq!(report.lines[0].revenue, 6900);
    assert!(matches!(report.lines[0].outcome, Err(InventoryError::AttributionGap)));
    assert_eq!(report.lines[1].outcome.unwrap().profit, Profit::between(2700, 3000));
    assert_eq!(report.total_profit, Profit::between(2700, 3000));
    assert!(report.total_profit.is_loss());
}

#[test]
fn recreated_product_is_matched_against_its_new_lots() {
    let mut inventory = traded_inventory();
    inventory.delete_product(&name("Widget"));
    let _ = inventory.record_purchase(name("Widget"), 6, 100, listing("again", 500));
    let _ = inventory.record_sale(&name("Widget"), 1);
    let history = inventory.sales_history();
    let widget: Vec<(u128, u64)> = history
        .iter()
        .filter(|line| line.product_name == "Widget")
        .map(|line| line.outcome.unwrap())
        .map(|a| (a.cost, a.units_unmatched))
        .collect();
    assert_eq!(widget, vec![(400, 0), (200, 6), (0, 2), (0, 1)]);
    let report = inventory.sales_report();
    assert_eq!(report.lines[0].quantity, 15);
    assert_eq!(report.lines[0].outcome.unwrap().cost, 600);
    assert_eq!(report.lines[0].outcome.unwrap().units_unmatched, 9);
}

#[test]
fn purchase_report_sums_the_lots_of_each_product() {
    let inventory = traded_inventory();
    let report = inventory.purchase_report();
    let lines: Vec<(&str, u64, u128)> =
        report.iter().map(|line| (line.product_name.as_str(), line.quantity, line.total_cost)).collect();
    assert_eq!(lines, vec![("Widget", 15, 10 * 200 + 5 * 300), ("Gadget", 4, 4000)]);
    assert!(Inventory::new().purchase_report().is_empty());
}

#[test]
fn purchase_history_lists_the_purchases() {
    let inventory = traded_inventory();
    let lines: Vec<(&str, u64, u64, u128)> = inventory
        .purchase_history()
        .iter()
        .map(|tx| (tx.product_name().as_str(), tx.quantity(), tx.purchase_price(), tx.total_cost()))
        .collect();
    assert_eq!(lines, vec![("Widget", 10, 200, 2000), ("Gadget", 4, 1000, 4000), ("Widget", 5, 300, 1500)]);
}

#[test]
fn product_report_lists_the_catalog() {
    let inventory = traded_inventory();
    let lines: Vec<(&str, u64, u64)> = inventory
        .product_report()
        .iter()
        .map(|product| (product.name().as_str(), product.quantity(), product.sale_price()))
        .collect();
    assert_eq!(lines, vec![("Widget", 1, 450), ("Gadget", 1, 900)]);
}

#[test]
fn reports_do_not_change_the_inventory() {
    let inventory = traded_inventory();
    let _ = inventory.sales_history();
    let _ = inventory.sales_report();
    let _ = inventory.purchase_report();
    assert_eq!(inventory.sales_history().len(), 4);
    assert_eq!(inventory.log().sales().len(), 4);
    assert_eq!(inventory.get_product(&name("Widget")).unwrap().quantity(), 1);
    assert_eq!(inventory.sales_report().total_profit.magnitude(), 3400);
}

#[test]
fn sequential_attribution_starts_with_nothing_claimed() {
    let catalog = widget_catalog();
    let mut state = SequentialAttribution::new(&catalog);
    assert_eq!(state.claimed(), &vec![0, 0]);
    let _ = state.attribute(&catalog, &name("Gadget"), 3);
    let _ = state.attribute(&catalog, &name("Widget"), 20);
    let _ = state.attribute(&catalog, &name("Gizmo"), 7);
    let _ = state.attribute(&catalog, &name("Gadget"), 1);
    assert_eq!(state.claimed(), &vec![20, 4]);
    assert!(SequentialAttribution::new(&Catalog::new()).claimed().is_empty());
}

#[test]
fn with_profit_keeps_the_basis_and_passes_the_gap_on() {
    let attributed = with_profit(basis(2600, 1), 6000).unwrap();
    assert_eq!(attributed.cost, 2600);
    assert_eq!(attributed.units_unmatched, 1);
    assert_eq!(attributed.profit, Profit::between(6000, 2600));
    let loss = with_profit(basis(50, 0), 20).unwrap();
    assert!(loss.profit.is_loss());
    assert_eq!(loss.profit.magnitude(), 30);
    assert!(matches!(
        with_profit(Err(InventoryError::AttributionGap), 6000),
        Err(InventoryError::AttributionGap)
    ));
}

#[test]
fn unmatched_units_are_counted_at_no_cost() {
    let mut inventory = Inventory::new();
    let _ = inventory.record_purchase(name("Widget"), 5, 100, listing("w", 300));
    let _ = inventory.record_sale(&name("Widget"), 5);
    inventory.delete_product(&name("Widget"));
    let _ = inventory.record_purchase(name("Widget"), 2, 100, listing("w", 300));
    let report = inventory.sales_report();
    let line = report.lines[0].outcome.unwrap();
    assert_eq!(report.lines[0].quantity, 5);
    assert_eq!(line.cost, 200);
    assert_eq!(line.units_unmatched, 3);
    assert_eq!(line.profit, Profit::between(1500, 200));
}
