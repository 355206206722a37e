use inventory_management::catalog::Product;
use inventory_management::error::InventoryError;
use inventory_management::inventory::{Inventory, Listing};

fn name(text: &str) -> String {
    text.to_string()
}

fn listing(description: &str, sale_price: u64) -> Option<Listing> {
    Some(Listing { description: description.to_string(), sale_price })
}

fn lots_of(product: &Product) -> Vec<(u64, u64)> {
    product.lots().lots().iter().map(|lot| (lot.quantity, lot.unit_cost)).collect()
}

fn widget_inventory() -> Inventory {
    let mut inventory = Inventory::new();
    assert_eq!(inventory.record_purchase(name("Widget"), 10, 200, listing("A widget", 500)), Ok(()));
    inventory
}

#[test]
fn new_inventory_is_empty() {
    let inventory = Inventory::new();
    assert!(inventory.catalog().products().is_empty());
    assert!(inventory.log().sales().is_empty());
    assert!(inventory.log().purchases().is_empty());
    assert_eq!(inventory.units_purchased(), 0);
    assert!(inventory.get_product(&name("Widget")).is_none());
}

#[test]
fn first_purchase_creates_the_product_and_logs_it() {
    let inventory = widget_inventory();
    let widget = inventory.get_product(&name("Widget")).unwrap();
    assert_eq!(widget.description(), "A widget");
    assert_eq!(widget.quantity(), 10);
    assert_eq!(widget.sale_price(), 500);
    assert_eq!(lots_of(widget), vec![(10, 200)]);
    let purchases = inventory.log().purchases();
    assert_eq!(purchases.len(), 1);
    assert_eq!(purchases[0].product_name(), "Widget");
    assert_eq!(purchases[0].quantity(), 10);
    assert_eq!(purchases[0].purchase_price(), 200);
    assert_eq!(inventory.units_purchased(), 10);
}

#[test]
fn later_purchase_restocks_and_ignores_the_listing() {
    let mut inventory = widget_inventory();
    assert_eq!(inventory.record_purchase(name("Widget"), 5, 300, listing("ignored", 1)), Ok(()));
    assert_eq!(inventory.record_purchase(name("Widget"), 2, 300, None), Ok(()));
    let widget = inventory.get_product(&name("Widget")).unwrap();
    assert_eq!(widget.description(), "A widget");
    assert_eq!(widget.sale_price(), 500);
    assert_eq!(widget.quantity(), 17);
    assert_eq!(lots_of(widget), vec![(10, 200), (7, 300)]);
    assert_eq!(inventory.log().purchases().len(), 3);
    assert_eq!(inventory.units_purchased(), 17);
}

#[test]
fn purchase_of_an_unknown_product_without_listing_changes_nothing() {
    let mut inventory = widget_inventory();
    assert_eq!(
        inventory.record_purchase(name("Gadget"), 5, 300, None),
        Err(InventoryError::NotFound)
    );
    assert!(inventory.get_product(&name("Gadget")).is_none());
    assert_eq!(inventory.catalog().products().len(), 1);
    assert_eq!(inventory.log().purchases().len(), 1);
    assert_eq!(inventory.units_purchased(), 10);
}

#[test]
fn sale_takes_stock_and_logs_the_current_price() {
    let mut inventory = widget_inventory();
    assert_eq!(inventory.record_sale(&name("Widget"), 4), Ok(()));
    let widget = inventory.get_product(&name("Widget")).unwrap();
    assert_eq!(widget.quantity(), 6);
    assert_eq!(lots_of(widget), vec![(10, 200)]);
    let sales = inventory.log().sales();
    assert_eq!(sales.len(), 1);
    assert_eq!(sales[0].product_name(), "Widget");
    assert_eq!(sales[0].quantity(), 4);
    assert_eq!(sales[0].sale_price(), 500);
}

#[test]
fn sale_of_all_the_stock_is_accepted() {
    let mut inventory = widget_inventory();
    assert_eq!(inventory.record_sale(&name("Widget"), 10), Ok(()));
    assert_eq!(inventory.get_product(&name("Widget")).unwrap().quantity(), 0);
    assert_eq!(inventory.record_sale(&name("Widget"), 1), Err(InventoryError::InsufficientStock));
}

#[test]
fn sale_of_an_unknown_product_fails() {
    let mut inventory = widget_inventory();
    assert_eq!(inventory.record_sale(&name("Gadget"), 1), Err(InventoryError::NotFound));
    assert!(inventory.log().sales().is_empty());
    assert_eq!(inventory.get_product(&name("Widget")).unwrap().quantity(), 10);
}

#[test]
fn sale_of_more_than_the_stock_fails() {
    let mut inventory = widget_inventory();
    assert_eq!(inventory.record_sale(&name("Widget"), 11), Err(InventoryError::InsufficientStock));
    assert!(inventory.log().sales().is_empty());
    assert_eq!(inventory.get_product(&name("Widget")).unwrap().quantity(), 10);
}

#[test]
fn edit_changes_only_what_is_given() {
    let mut inventory = widget_inventory();
    assert_eq!(inventory.edit_product(&name("Widget"), Some(name("Better")), None), Ok(()));
    let widget = inventory.get_product(&name("Widget")).unwrap();
    assert_eq!(widget.description(), "Better");
    assert_eq!(widget.sale_price(), 500);
    assert_eq!(inventory.edit_product(&name("Widget"), None, Some(650)), Ok(()));
    let widget = inventory.get_product(&name("Widget")).unwrap();
    assert_eq!(widget.description(), "Better");
    assert_eq!(widget.sale_price(), 650);
    assert_eq!(inventory.edit_product(&name("Widget"), None, None), Ok(()));
    assert_eq!(inventory.edit_product(&name("Widget"), Some(name("Best")), Some(700)), Ok(()));
    let widget = inventory.get_product(&name("Widget")).unwrap();
    assert_eq!(widget.description(), "Best");
    assert_eq!(widget.sale_price(), 700);
    assert_eq!(widget.quantity(), 10);
    assert_eq!(lots_of(widget), vec![(10, 200)]);
}

#[test]
fn edit_of_an_unknown_product_fails() {
    let mut inventory = widget_inventory();
    assert_eq!(
        inventory.edit_product(&name("Gadget"), Some(name("x")), Some(1)),
        Err(InventoryError::NotFound)
    );
    assert_eq!(inventory.catalog().products().len(), 1);
    assert_eq!(inventory.get_product(&name("Widget")).unwrap().sale_price(), 500);
}

#[test]
fn edit_after_a_sale_leaves_the_recorded_price() {
    let mut inventory = widget_inventory();
    assert_eq!(inventory.record_sale(&name("Widget"), 4), Ok(()));
    assert_eq!(inventory.edit_product(&name("Widget"), None, Some(900)), Ok(()));
    assert_eq!(inventory.record_sale(&name("Widget"), 1), Ok(()));
    let prices: Vec<u64> = inventory.log().sales().iter().map(|t| t.sale_price()).collect();
    assert_eq!(prices, vec![500, 900]);
}

#[test]
fn delete_keeps_the_log() {
    let mut inventory = widget_inventory();
    assert_eq!(inventory.record_sale(&name("Widget"), 4), Ok(()));
    inventory.delete_product(&name("Widget"));
    assert!(inventory.get_product(&name("Widget")).is_none());
    assert_eq!(inventory.log().sales().len(), 1);
    assert_eq!(inventory.log().purchases().len(), 1);
    inventory.delete_product(&name("Widget"));
    inventory.delete_product(&name("Never there"));
    assert!(inventory.catalog().products().is_empty());
    assert_eq!(inventory.record_sale(&name("Widget"), 1), Err(InventoryError::NotFound));
}

#[test]
fn stock_is_what_was_bought_less_what_was_sold() {
    let mut inventory = Inventory::new();
    let purchases: [(&str, u64, u64); 5] =
        [("Widget", 10, 200), ("Gadget", 7, 50), ("Widget", 5, 300), ("Gadget", 1, 50), ("Widget", 2, 200)];
    let sales: [(&str, u64); 4] = [("Widget", 3), ("Gadget", 8), ("Widget", 9), ("Widget", 1)];
    for (product, quantity, price) in purchases {
        assert_eq!(inventory.record_purchase(name(product), quantity, price, listing("", 1000)), Ok(()));
    }
    for (product, quantity) in sales {
        assert_eq!(inventory.record_sale(&name(product), quantity), Ok(()));
    }
    assert_eq!(inventory.get_product(&name("Widget")).unwrap().quantity(), 10 + 5 + 2 - 3 - 9 - 1);
    assert_eq!(inventory.get_product(&name("Gadget")).unwrap().quantity(), 7 + 1 - 8);
    assert_eq!(inventory.units_purchased(), 25);
}

#[test]
fn failed_operations_do_not_count_for_the_stock() {
    let mut inventory = widget_inventory();
    assert_eq!(inventory.record_sale(&name("Widget"), 50), Err(InventoryError::InsufficientStock));
    assert_eq!(inventory.record_purchase(name("Gadget"), 5, 1, None), Err(InventoryError::NotFound));
    assert_eq!(inventory.record_sale(&name("Widget"), 3), Ok(()));
    assert_eq!(inventory.get_product(&name("Widget")).unwrap().quantity(), 7);
}

#[test]
fn purchase_up_to_the_capacity() {
    let mut inventory = Inventory::new();
    assert_eq!(inventory.record_purchase(name("Widget"), u64::MAX - 1, 1, listing("", 1)), Ok(()));
    assert_eq!(inventory.units_purchased(), u64::MAX - 1);
    assert_eq!(inventory.record_purchase(name("Gadget"), 1, 1, listing("", 1)), Ok(()));
    assert_eq!(inventory.units_purchased(), u64::MAX);
    assert_eq!(inventory.record_sale(&name("Widget"), u64::MAX - 1), Ok(()));
    assert_eq!(inventory.get_product(&name("Widget")).unwrap().quantity(), 0);
}

#[test]
fn widget_scenario() {
    let mut inventory = Inventory::new();
    assert_eq!(inventory.record_purchase(name("Widget"), 10, 200, listing("Widget", 500)), Ok(()));
    assert_eq!(inventory.record_purchase(name("Widget"), 5, 300, None), Ok(()));
    assert_eq!(lots_of(inventory.get_product(&name("Widget")).unwrap()), vec![(10, 200), (5, 300)]);
    assert_eq!(inventory.record_sale(&name("Widget"), 12), Ok(()));
    assert_eq!(inventory.get_product(&name("Widget")).unwrap().quantity(), 3);
    let history = inventory.sales_history();
    assert_eq!(history.len(), 1);
    assert_eq!(history[0].revenue, 12 * 500);
    let attributed = history[0].outcome.unwrap();
    assert_eq!(attributed.cost, 10 * 200 + 2 * 300);
    assert_eq!(attributed.cost, 2600);
    assert_eq!(attributed.units_unmatched, 0);
    assert!(!attributed.profit.is_loss());
    assert_eq!(attributed.profit.magnitude(), 3400);
    let report = inventory.sales_report();
    assert_eq!(report.lines.len(), 1);
    assert_eq!(report.lines[0].quantity, 12);
    assert_eq!(report.lines[0].revenue, 6000);
    assert_eq!(report.lines[0].outcome.unwrap().cost, 2600);
    assert_eq!(report.lines[0].outcome.unwrap().profit.magnitude(), 3400);
    assert_eq!(report.total_profit.magnitude(), 3400);
    assert!(!report.total_profit.is_loss());
}
