use inventory_management::catalog::{Catalog, Product};
use inventory_management::error::InventoryError;
use inventory_management::ledger::PurchaseLot;
use inventory_management::transactions::{PurchaseTx, SaleTx, TransactionLog};

fn name(text: &str) -> String {
    text.to_string()
}

fn lots_of(product: &Product) -> Vec<(u64, u64)> {
    product.lots().lots().iter().map(|lot| (lot.quantity, lot.unit_cost)).collect()
}

#[test]
fn new_product_has_one_lot() {
    let product = Product::new(name("Widget"), name("A widget"), 10, 500, 200);
    assert_eq!(product.name(), "Widget");
    assert_eq!(product.description(), "A widget");
    assert_eq!(product.quantity(), 10);
    assert_eq!(product.sale_price(), 500);
    assert_eq!(product.lots().lots(), &vec![PurchaseLot { quantity: 10, unit_cost: 200 }]);
}

#[test]
fn product_builders_change_one_field() {
    let product = Product::new(name("Widget"), name("A widget"), 10, 500, 200);
    let product = product.with_description(name("Better"));
    assert_eq!(product.description(), "Better");
    let product = product.with_sale_price(650);
    assert_eq!(product.sale_price(), 650);
    let product = product.with_quantity(4);
    assert_eq!(product.quantity(), 4);
    assert_eq!(product.name(), "Widget");
    assert_eq!(lots_of(&product), vec![(10, 200)]);
}

#[test]
fn cloned_product_is_the_same() {
    let product = Product::new(name("Widget"), name("A widget"), 10, 500, 200);
    let copy = product.clone();
    assert_eq!(copy.name(), product.name());
    assert_eq!(copy.description(), product.description());
    assert_eq!(copy.quantity(), product.quantity());
    assert_eq!(copy.sale_price(), product.sale_price());
    assert_eq!(lots_of(&copy), lots_of(&product));
}

#[test]
fn create_adds_products_in_order() {
    let mut catalog = Catalog::new();
    assert!(catalog.products().is_empty());
    assert_eq!(catalog.create(name("Widget"), name("w"), 10, 500, 200), Ok(()));
    assert_eq!(catalog.create(name("Gadget"), name("g"), 3, 900, 400), Ok(()));
    let names: Vec<&str> = catalog.products().iter().map(|p| p.name().as_str()).collect();
    assert_eq!(names, vec!["Widget", "Gadget"]);
    assert_eq!(catalog.position(&name("Widget")), Some(0));
    assert_eq!(catalog.position(&name("Gadget")), Some(1));
    assert_eq!(catalog.position(&name("Gizmo")), None);
}

#[test]
fn create_refuses_a_name_that_is_taken() {
    let mut catalog = Catalog::new();
    assert_eq!(catalog.create(name("Widget"), name("w"), 10, 500, 200), Ok(()));
    assert_eq!(
        catalog.create(name("Widget"), name("other"), 1, 1, 1),
        Err(InventoryError::AlreadyExists)
    );
    assert_eq!(catalog.products().len(), 1);
    let widget = catalog.get(&name("Widget")).unwrap();
    assert_eq!(widget.description(), "w");
    assert_eq!(widget.quantity(), 10);
    assert_eq!(lots_of(widget), vec![(10, 200)]);
}

#[test]
fn get_finds_by_name_only() {
    let mut catalog = Catalog::new();
    assert!(catalog.get(&name("Widget")).is_none());
    let _ = catalog.create(name("Widget"), name("w"), 10, 500, 200);
    assert!(catalog.get(&name("Widget")).is_some());
    assert!(catalog.get(&name("widget")).is_none());
    assert!(catalog.get(&name("")).is_none());
}

#[test]
fn restock_adds_stock_and_a_lot() {
    let mut catalog = Catalog::new();
    let _ = catalog.create(name("Widget"), name("w"), 10, 500, 200);
    assert_eq!(catalog.restock(&name("Widget"), 5, 300), Ok(()));
    let widget = catalog.get(&name("Widget")).unwrap();
    assert_eq!(widget.quantity(), 15);
    assert_eq!(lots_of(widget), vec![(10, 200), (5, 300)]);
}

#[test]
fn restock_twice_at_one_cost_gives_one_lot() {
    let mut catalog = Catalog::new();
    let _ = catalog.create(name("Widget"), name("w"), 10, 500, 200);
    assert_eq!(catalog.restock(&name("Widget"), 5, 300), Ok(()));
    assert_eq!(catalog.restock(&name("Widget"), 7, 300), Ok(()));
    let widget = catalog.get(&name("Widget")).unwrap();
    assert_eq!(widget.quantity(), 22);
    assert_eq!(lots_of(widget), vec![(10, 200), (12, 300)]);
}

#[test]
fn restock_at_the_first_cost_merges_into_the_first_lot() {
    let mut catalog = Catalog::new();
    let _ = catalog.create(name("Widget"), name("w"), 10, 500, 200);
    let _ = catalog.restock(&name("Widget"), 5, 300);
    assert_eq!(catalog.restock(&name("Widget"), 1, 200), Ok(()));
    let widget = catalog.get(&name("Widget")).unwrap();
    assert_eq!(lots_of(widget), vec![(11, 200), (5, 300)]);
}

#[test]
fn restock_of_an_unknown_product_fails() {
    let mut catalog = Catalog::new();
    let _ = catalog.create(name("Widget"), name("w"), 10, 500, 200);
    assert_eq!(catalog.restock(&name("Gadget"), 5, 300), Err(InventoryError::NotFound));
    assert_eq!(catalog.products().len(), 1);
    assert_eq!(catalog.get(&name("Widget")).unwrap().quantity(), 10);
    assert_eq!(lots_of(catalog.get(&name("Widget")).unwrap()), vec![(10, 200)]);
}

#[test]
fn replace_overwrites_the_record_in_place() {
    let mut catalog = Catalog::new();
    let _ = catalog.create(name("Widget"), name("w"), 10, 500, 200);
    let _ = catalog.create(name("Gadget"), name("g"), 3, 900, 400);
    let record = catalog
        .get(&name("Widget"))
        .unwrap()
        .clone()
        .with_description(name("new"))
        .with_sale_price(1)
        .with_quantity(2);
    assert_eq!(catalog.replace(record), Ok(()));
    assert_eq!(catalog.position(&name("Widget")), Some(0));
    let widget = catalog.get(&name("Widget")).unwrap();
    assert_eq!(widget.description(), "new");
    assert_eq!(widget.sale_price(), 1);
    assert_eq!(widget.quantity(), 2);
    assert_eq!(catalog.get(&name("Gadget")).unwrap().quantity(), 3);
}

#[test]
fn replace_of_an_unknown_product_fails() {
    let mut catalog = Catalog::new();
    let _ = catalog.create(name("Widget"), name("w"), 10, 500, 200);
    let record = Product::new(name("Gadget"), name("g"), 3, 900, 400);
    assert_eq!(catalog.replace(record), Err(InventoryError::NotFound));
    assert_eq!(catalog.products().len(), 1);
    assert!(catalog.get(&name("Gadget")).is_none());
}

#[test]
fn delete_removes_and_is_idempotent() {
    let mut catalog = Catalog::new();
    let _ = catalog.create(name("Widget"), name("w"), 10, 500, 200);
    let _ = catalog.create(name("Gadget"), name("g"), 3, 900, 400);
    let _ = catalog.create(name("Gizmo"), name("z"), 1, 100, 50);
    catalog.delete(&name("Gadget"));
    let names: Vec<&str> = catalog.products().iter().map(|p| p.name().as_str()).collect();
    assert_eq!(names, vec!["Widget", "Gizmo"]);
    catalog.delete(&name("Gadget"));
    catalog.delete(&name("Nothing"));
    assert_eq!(catalog.products().len(), 2);
}

#[test]
fn sale_record_keeps_what_it_was_given() {
    let tx = SaleTx::new(name("Widget"), 12, 500);
    assert_eq!(tx.product_name(), "Widget");
    assert_eq!(tx.quantity(), 12);
    assert_eq!(tx.sale_price(), 500);
    assert_eq!(tx.revenue(), 6000);
    let copy = tx.clone();
    assert_eq!(copy.product_name(), "Widget");
    assert_eq!(copy.revenue(), 6000);
}

#[test]
fn purchase_record_keeps_what_it_was_given() {
    let tx = PurchaseTx::new(name("Widget"), 5, 300);
    assert_eq!(tx.product_name(), "Widget");
    assert_eq!(tx.quantity(), 5);
    assert_eq!(tx.purchase_price(), 300);
    assert_eq!(tx.total_cost(), 1500);
    let copy = tx.clone();
    assert_eq!(copy.total_cost(), 1500);
}

#[test]
fn record_amounts_at_the_largest_numbers() {
    let all = (u64::MAX as u128) * (u64::MAX as u128);
    assert_eq!(SaleTx::new(name("Widget"), u64::MAX, u64::MAX).revenue(), all);
    assert_eq!(PurchaseTx::new(name("Widget"), u64::MAX, u64::MAX).total_cost(), all);
}

#[test]
fn log_appends_in_order() {
    let mut log = TransactionLog::new();
    assert!(log.sales().is_empty());
    assert!(log.purchases().is_empty());
    log.append_purchase(PurchaseTx::new(name("Widget"), 10, 200));
    log.append_sale(SaleTx::new(name("Widget"), 2, 500));
    log.append_purchase(PurchaseTx::new(name("Gadget"), 1, 50));
    log.append_sale(SaleTx::new(name("Widget"), 3, 550));
    let sold: Vec<(u64, u64)> = log.sales().iter().map(|t| (t.quantity(), t.sale_price())).collect();
    assert_eq!(sold, vec![(2, 500), (3, 550)]);
    let bought: Vec<&str> = log.purchases().iter().map(|t| t.product_name().as_str()).collect();
    assert_eq!(bought, vec!["Widget", "Gadget"]);
}
