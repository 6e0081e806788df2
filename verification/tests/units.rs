use market_sim::inventory::{Inventory, InventoryError};
use market_sim::market::Market;
use market_sim::name_map::NamedMap;
use market_sim::producer::Producer;
use market_sim::strategy::{ProductionRequirement, ProductionStrategy};
use market_sim::trade::{PriceBelief, Trade};

#[test]
fn fresh_inventory_defaults() {
    let inventory = Inventory::new(100);
    assert_eq!(inventory.capacity, 100);
    assert_eq!(inventory.amount, 10);
    assert_eq!(inventory.reserved, 0);
    assert_eq!(inventory.free(), 90);
    assert_eq!(inventory.unreserved(), 10);
}

#[test]
fn add_respects_free_room() {
    let mut inventory = Inventory::new(100);
    assert_eq!(inventory.add(90), Ok(()));
    assert_eq!(inventory.amount, 100);
    assert_eq!(inventory.free(), 0);
    assert_eq!(inventory.add(1), Err(InventoryError::CapacityExceeded));
    assert_eq!(inventory.amount, 100);
}

#[test]
fn remove_respects_stock() {
    let mut inventory = Inventory::new(100);
    assert_eq!(inventory.remove(10), Ok(()));
    assert_eq!(inventory.amount, 0);
    assert_eq!(inventory.remove(1), Err(InventoryError::InsufficientStock));
    assert_eq!(inventory.amount, 0);
}

#[test]
fn reserve_respects_unreserved_stock() {
    let mut inventory = Inventory::new(100);
    assert_eq!(inventory.reserve(10), Ok(()));
    assert_eq!(inventory.reserved, 10);
    assert_eq!(inventory.unreserved(), 0);
    assert_eq!(inventory.reserve(1), Err(InventoryError::OverReservation));
    assert_eq!(inventory.reserved, 10);
    // Reserving does not remove stock.
    assert_eq!(inventory.amount, 10);
}

#[test]
fn unreserve_respects_reservation() {
    let mut inventory = Inventory::new(100);
    assert_eq!(inventory.unreserve(1), Err(InventoryError::UnderReservation));
    assert_eq!(inventory.reserve(5), Ok(()));
    assert_eq!(inventory.unreserve(5), Ok(()));
    assert_eq!(inventory.reserved, 0);
    assert_eq!(inventory.amount, 10);
}

#[test]
fn requirement_and_producer_construction() {
    let requirement = ProductionRequirement::new("water".to_string(), 3);
    assert_eq!(requirement.commodity_name, "water");
    assert_eq!(requirement.amount, 3);

    let producer = Producer::new("farmer".to_string());
    assert_eq!(producer.production_strategy_name, "farmer");
    assert_eq!(producer.progress, 0);

    let belief = PriceBelief::new();
    assert_eq!(belief.upper, 100);
    assert_eq!(belief.lower, 0);
}

#[test]
fn strategy_builder_and_well_formedness() {
    let mut strategy = ProductionStrategy::new();
    assert_eq!(strategy.duration, 1);
    assert!(strategy.check_wf());
    strategy.add_input("water", 2);
    strategy.add_output("food", 1);
    strategy.duration(4);
    assert_eq!(strategy.inputs.len(), 1);
    assert_eq!(strategy.outputs.len(), 1);
    assert_eq!(strategy.inputs[0].commodity_name, "water");
    assert_eq!(strategy.inputs[0].amount, 2);
    assert_eq!(strategy.duration, 4);
    assert!(strategy.check_wf());

    // The same commodity twice on one side is not usable.
    strategy.add_input("water", 1);
    assert!(!strategy.check_wf());

    let zero_duration = ProductionStrategy { inputs: Vec::new(), outputs: Vec::new(), duration: 0 };
    assert!(!zero_duration.check_wf());
}

#[test]
fn named_map_inserts_and_looks_up() {
    let mut map: NamedMap<u32> = NamedMap::new();
    assert!(!map.contains("water"));
    assert!(map.get("water").is_none());
    map.insert("water".to_string(), 7);
    map.insert("food".to_string(), 9);
    assert!(map.contains("water"));
    assert_eq!(*map.get("water").unwrap(), 7);
    assert_eq!(*map.get("food").unwrap(), 9);
    map.insert("water".to_string(), 8);
    assert_eq!(*map.get("water").unwrap(), 8);
    map.update("food", 1);
    assert_eq!(*map.get("food").unwrap(), 1);
    assert!(map.get("wood").is_none());
}

fn trade_at(price: i32) -> Trade {
    Trade {
        buyer_id: uuid::Uuid::new_v4(),
        seller_id: uuid::Uuid::new_v4(),
        commodity_name: "water".to_string(),
        price,
    }
}

#[test]
fn historic_price_averages_recorded_trades() {
    let mut market = Market::default();
    assert_eq!(market.get_historic_price(&"water".to_string()), 0);

    market.trades.insert(
        "water".to_string(),
        vec![trade_at(10), trade_at(20), trade_at(31)],
    );
    assert_eq!(market.get_historic_price(&"water".to_string()), 20);
    assert_eq!(market.get_historic_price(&"food".to_string()), 0);

    market.trades.insert("water".to_string(), vec![trade_at(-10), trade_at(-5)]);
    assert_eq!(market.get_historic_price(&"water".to_string()), -7);
}
