use mm_client::inventory_manager::{BasePosition, InventoryManager};
use mm_client::math::frac_maths::SimpleFracTemplate;
use mm_client::math::inventory_manager as frac_inventory;
use mm_client::math::serum_maths::{
    convert_base_to_decimals, convert_base_to_lots, convert_pc_to_decimals, convert_pc_to_lots, convert_price_to_lots,
};

fn scenario_manager() -> InventoryManager {
    InventoryManager::new(0, 0, 1000, 1, 4, 20)
}

fn long(units: u64) -> BasePosition {
    BasePosition { total_deposits: units, total_borrows: 0 }
}

fn short(units: u64) -> BasePosition {
    BasePosition { total_deposits: 0, total_borrows: units }
}

#[test]
fn flat_inventory_quotes_full_size_both_sides() {
    let q = scenario_manager().get_quote_volumes(&long(0));
    assert_eq!(q.delta, 0);
    assert_eq!(q.bid_size, 1000);
    assert_eq!(q.ask_size, 1000);
}

#[test]
fn large_long_inventory_silences_the_bid() {
    let q = scenario_manager().get_quote_volumes(&long(1000));
    assert_eq!(q.delta, 1000);
    assert_eq!(q.bid_size, 0);
    assert_eq!(q.ask_size, 1000);
    assert_eq!(scenario_manager().adj_quote_size(1000), 0);
}

#[test]
fn shaped_delta_of_one_halves_the_bid() {
    let q = scenario_manager().get_quote_volumes(&long(4));
    assert_eq!(q.bid_size, 500);
    assert_eq!(q.ask_size, 1000);
}

#[test]
fn short_inventory_damps_the_ask() {
    let q = scenario_manager().get_quote_volumes(&short(8));
    assert_eq!(q.delta, -8);
    assert_eq!(q.bid_size, 1000);
    assert_eq!(q.ask_size, 250);
    assert_eq!((q.bid_size - q.ask_size).abs(), (1000 - scenario_manager().adj_quote_size(8)).abs());
}

#[test]
fn shaped_delta_rounds_down() {
    // 1 * 3 / 4 == 0: no damping yet
    let q = scenario_manager().get_quote_volumes(&long(3));
    assert_eq!(q.bid_size, 1000);
}

#[test]
fn very_large_shape_saturates_to_zero() {
    let im = InventoryManager::new(0, 0, i64::MAX, u32::MAX, 1, 0);
    assert_eq!(im.adj_quote_size(u64::MAX), 0);
    let unit = InventoryManager::new(0, 0, i64::MAX, 1, 1, 0);
    assert_eq!(unit.adj_quote_size(62), 1);
    assert_eq!(unit.adj_quote_size(63), 0);
    let negative = InventoryManager::new(0, 0, -1000, 1, 1, 0);
    assert_eq!(negative.adj_quote_size(1), -500);
}

#[test]
fn delta_counts_whole_units() {
    let im = InventoryManager::new(6, 0, 1000, 1, 4, 20);
    let q = im.get_quote_volumes(&BasePosition { total_deposits: 5_900_000, total_borrows: 1_000_000 });
    assert_eq!(q.delta, 4);
    assert_eq!(im.get_user_delta(&BasePosition { total_deposits: 999_999, total_borrows: 0 }), 0);
    let tiny = InventoryManager::new(25, 0, 1000, 1, 4, 20);
    assert_eq!(tiny.get_user_delta(&BasePosition { total_deposits: u64::MAX, total_borrows: 3 }), 0);
}

#[test]
fn delta_can_exceed_i64() {
    let im = InventoryManager::new(0, 0, 1000, 1, 4, 20);
    assert_eq!(im.get_user_delta(&long(u64::MAX)), u64::MAX as i128);
    assert_eq!(im.get_user_delta(&short(u64::MAX)), -(u64::MAX as i128));
}

#[test]
fn spread_of_twenty_bps_around_one_hundred() {
    // floor(100 / 1.002) = 99 and floor(100 * 1.002) = floor(100.2) = 100
    assert_eq!(scenario_manager().get_spread(100), (99, 100));
}

#[test]
fn spread_brackets_the_price() {
    let im = InventoryManager::new(0, 0, 1000, 1, 4, 255);
    for p in [1u64, 2, 99, 10_000, 123_456_789, u64::MAX] {
        let (bid, ask) = im.get_spread(p);
        assert!(bid <= p && p <= ask);
    }
    assert_eq!(im.get_spread(10_000), (9751, 10255));
    assert_eq!(im.get_spread(u64::MAX).1, u64::MAX);
}

#[test]
fn zero_spread_quotes_at_the_price() {
    let im = InventoryManager::new(0, 0, 1000, 1, 4, 0);
    assert_eq!(im.get_spread(100), (100, 100));
    assert_eq!(im.get_spread(0), (0, 0));
}

#[test]
fn default_manager_is_zeroed() {
    let im = InventoryManager::default();
    assert_eq!(im.max_quote, 0);
    assert_eq!(im.shape_denom, 0);
}

#[test]
fn base_three_variant_damps_by_powers_of_three() {
    let im = frac_inventory::InventoryManager::new(900, SimpleFracTemplate::new(1, 1));
    let q = im.get_quote_volumes(2);
    assert_eq!(q.bid_size, 100);
    assert_eq!(q.ask_size, 900);
    let q = im.get_quote_volumes(-1);
    assert_eq!(q.bid_size, 900);
    assert_eq!(q.ask_size, 300);
    assert_eq!(im.adj_quote_size(40), 0);
}

#[test]
fn fraction_multiplies_then_divides() {
    let f = SimpleFracTemplate::new(3, 4);
    assert_eq!(f.mul(10), 7);
}

#[test]
fn lot_conversions() {
    assert_eq!(convert_pc_to_lots(1050, 100), 10);
    assert_eq!(convert_price_to_lots(2_000, 10, 100, 2), 100);
    assert_eq!(convert_base_to_lots(999, 10), 99);
    assert_eq!(convert_base_to_decimals(7, 1000), 7000);
    assert_eq!(convert_pc_to_decimals(12, 5), 60);
}
