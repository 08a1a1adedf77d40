use mm_client::inventory_manager::{BasePosition, InventoryManager, QuoteVolumes};
use mm_client::order_manager::{
    get_open_orders, get_order_book_line, OpenOrders, OrderBook, OrderInstruction, OrderManager, OrderType,
    SelfTradeBehavior, Side,
};
use mm_client::serum_slab::OrderBookOrder;
use mm_client::worker::{Worker, WorkerConfig};

const MARKET: [u8; 32] = [9u8; 32];

fn oid(price: u64, seq: u64) -> u128 {
    ((price as u128) << 64) | seq as u128
}

/// An open-orders record with the given (slot, order id, client order id, side) entries.
fn open_orders(entries: &[(usize, u128, u64, Side)]) -> OpenOrders {
    let mut free = u128::MAX;
    let mut is_bid = 0u128;
    let mut orders = vec![0u128; 128];
    let mut ids = vec![0u64; 128];
    for &(slot, order_id, coid, side) in entries {
        free &= !(1u128 << slot);
        if side == Side::Bid {
            is_bid |= 1u128 << slot;
        }
        orders[slot] = order_id;
        ids[slot] = coid;
    }
    OpenOrders { free_slot_bits: free, is_bid_bits: is_bid, orders, client_order_ids: ids }
}

fn row(price: u64, quantity: u64, order_id: u128, coid: u64) -> OrderBookOrder {
    OrderBookOrder { price, quantity, order_id, client_order_id: coid }
}

fn qv(delta: i128, bid: i128, ask: i128) -> QuoteVolumes {
    QuoteVolumes { delta, bid_size: bid, ask_size: ask }
}

fn new_order(ix: &OrderInstruction) -> (Side, u64, u64, u64) {
    match ix {
        OrderInstruction::New(o) => {
            assert_eq!(o.order_type, OrderType::PostOnly);
            assert_eq!(o.self_trade_behavior, SelfTradeBehavior::CancelProvide);
            assert_eq!(o.limit, u16::MAX);
            assert_eq!(o.max_ts, i64::MAX);
            assert_eq!(o.max_native_pc_qty_including_fees, o.max_coin_qty * o.limit_price);
            (o.side, o.limit_price, o.max_coin_qty, o.client_order_id)
        }
        OrderInstruction::Cancel { .. } => panic!("expected a new order"),
    }
}

/// The state after the first tick: our ask rests at 100 and our bid at 99, both for 1000.
fn manager_with_resting_quotes() -> OrderManager {
    let mut om = OrderManager::new("SOL-PERP".to_string(), MARKET);
    let ask_id = oid(100, 1);
    let bid_id = oid(99, 2);
    om._process_oo_update(open_orders(&[(0, ask_id, 1, Side::Ask), (1, bid_id, 2, Side::Bid)]));
    let mut book = OrderBook::new(MARKET);
    book.asks = vec![row(100, 1000, ask_id, 1)];
    book.bids = vec![row(99, 1000, bid_id, 2)];
    om._process_ob_update(book);
    om.client_order_id = 3;
    om
}

#[test]
fn fresh_start_places_both_quotes() {
    let im = InventoryManager::new(0, 0, 1000, 1, 4, 20);
    let q = im.get_quote_volumes(&BasePosition { total_deposits: 0, total_borrows: 0 });
    let (bid, ask) = im.get_spread(100);
    let mut om = OrderManager::new("SOL-PERP".to_string(), MARKET);
    let update = om.update_orders(&q, bid, ask, true);
    assert!(!update.deferred);
    assert_eq!(update.instructions.len(), 2);
    assert_eq!(new_order(&update.instructions[0]), (Side::Ask, 100, 1000, 1));
    assert_eq!(new_order(&update.instructions[1]), (Side::Bid, 99, 1000, 2));
    assert_eq!(om.client_order_id, 3);
    assert_eq!(om.inflight_orders.new_orders, vec![1, 2]);
    assert!(om.inflight_orders.cancelling_orders.is_empty());
}

#[test]
fn filled_bid_cancels_bid_and_restates_ask() {
    let mut om = manager_with_resting_quotes();
    let update = om.update_orders(&qv(1000, 0, 1000), 99, 100, true);
    assert_eq!(update.instructions.len(), 2);
    assert_eq!(update.instructions[0], OrderInstruction::Cancel { order_id: oid(99, 2), side: Side::Bid });
    assert_eq!(new_order(&update.instructions[1]), (Side::Ask, 100, 1000, 3));
    assert_eq!(om.client_order_id, 4);
    assert_eq!(om.inflight_orders.cancelling_orders, vec![2]);
    assert_eq!(om.inflight_orders.new_orders, vec![3]);
}

#[test]
fn halved_bid_is_replaced() {
    let mut om = manager_with_resting_quotes();
    let update = om.update_orders(&qv(4, 500, 1000), 99, 100, true);
    assert_eq!(update.instructions.len(), 3);
    assert_eq!(update.instructions[0], OrderInstruction::Cancel { order_id: oid(99, 2), side: Side::Bid });
    assert_eq!(new_order(&update.instructions[1]), (Side::Ask, 100, 1000, 3));
    assert_eq!(new_order(&update.instructions[2]), (Side::Bid, 99, 500, 4));
    assert_eq!(om.client_order_id, 5);
}

#[test]
fn settled_book_emits_nothing() {
    let mut om = manager_with_resting_quotes();
    let update = om.update_orders(&qv(0, 1000, 1000), 99, 100, true);
    assert!(update.instructions.is_empty());
    assert!(!update.deferred);
    assert_eq!(om.client_order_id, 3);
    assert!(om.inflight_orders.new_orders.is_empty());
}

#[test]
fn stale_set_is_exactly_the_mismatched_orders() {
    let om = manager_with_resting_quotes();
    let stale = om.get_stale_orders(&qv(0, 1000, 1000), 98, 100);
    assert_eq!(stale.len(), 1);
    assert_eq!(stale[0].side, Side::Bid);
    assert_eq!(stale[0].price, 99);
    let cancels = om.get_cancel_orders_ixs(&stale);
    assert_eq!(cancels, vec![OrderInstruction::Cancel { order_id: oid(99, 2), side: Side::Bid }]);
    assert_eq!(om.get_stale_orders(&qv(0, 1000, 999), 99, 100).len(), 1);
    assert_eq!(om.get_stale_orders(&qv(0, 1, 1), 1, 1).len(), 2);
}

#[test]
fn zero_sizes_place_nothing() {
    let mut om = OrderManager::new("SOL-PERP".to_string(), MARKET);
    let update = om.update_orders(&qv(0, 0, 0), 99, 100, true);
    assert!(update.instructions.is_empty());
    assert_eq!(om.client_order_id, 1);
}

#[test]
fn zero_spread_still_posts_at_the_price() {
    let im = InventoryManager::new(0, 0, 1000, 1, 4, 0);
    let (bid, ask) = im.get_spread(100);
    let mut om = OrderManager::new("SOL-PERP".to_string(), MARKET);
    let update = om.update_orders(&qv(0, 1000, 1000), bid, ask, true);
    assert_eq!(new_order(&update.instructions[0]), (Side::Ask, 100, 1000, 1));
    assert_eq!(new_order(&update.instructions[1]), (Side::Bid, 100, 1000, 2));
}

#[test]
fn missing_hash_defers_without_recording() {
    let mut om = OrderManager::new("SOL-PERP".to_string(), MARKET);
    let first = om.update_orders(&qv(0, 1000, 1000), 99, 100, false);
    assert!(first.deferred);
    assert_eq!(first.instructions.len(), 2);
    assert_eq!(om.client_order_id, 1);
    assert!(om.inflight_orders.new_orders.is_empty());
    let second = om.update_orders(&qv(0, 1000, 1000), 99, 100, true);
    assert!(!second.deferred);
    assert_eq!(new_order(&second.instructions[0]).3, 1);
    assert_eq!(new_order(&second.instructions[1]).3, 2);
    assert_eq!(om.client_order_id, 3);
}

#[test]
fn client_order_ids_strictly_increase() {
    let mut om = OrderManager::new("SOL-PERP".to_string(), MARKET);
    let mut last = 0u64;
    for _ in 0..3 {
        let update = om.update_orders(&qv(0, 1000, 1000), 99, 100, true);
        for ix in &update.instructions {
            let id = new_order(ix).3;
            assert!(id > last);
            last = id;
        }
    }
    assert_eq!(last, 6);
    assert_eq!(om.client_order_id, 7);
}

#[test]
fn order_missing_from_book_is_not_resting() {
    let mut om = manager_with_resting_quotes();
    let mut book = OrderBook::new(MARKET);
    book.asks = vec![row(100, 1000, oid(100, 1), 1)];
    om._process_ob_update(book);
    let orders = om.get_orders();
    assert_eq!(orders.len(), 1);
    assert_eq!(orders[0].side, Side::Ask);
    assert_eq!(orders[0].quantity, 1000);
}

#[test]
fn skewed_book_sides_are_used_as_they_are() {
    let mut om = manager_with_resting_quotes();
    // bids from an older slot show the bid at 400, asks from a newer slot show the ask at 1000
    let mut book = OrderBook::new(MARKET);
    book.bids = vec![row(99, 400, oid(99, 2), 2)];
    book.asks = vec![row(100, 1000, oid(100, 1), 1)];
    om._process_ob_update(book);
    let update = om.update_orders(&qv(0, 1000, 1000), 99, 100, true);
    assert_eq!(update.instructions[0], OrderInstruction::Cancel { order_id: oid(99, 2), side: Side::Bid });
    assert_eq!(update.instructions.len(), 3);
}

#[test]
fn cancel_all_cancels_every_resting_order() {
    let mut om = manager_with_resting_quotes();
    let update = om.cancel_orders_remain_neutral(true);
    assert_eq!(
        update.instructions,
        vec![
            OrderInstruction::Cancel { order_id: oid(100, 1), side: Side::Ask },
            OrderInstruction::Cancel { order_id: oid(99, 2), side: Side::Bid },
        ]
    );
    assert_eq!(om.inflight_orders.cancelling_orders, vec![1, 2]);
    let mut idle = OrderManager::new("SOL-PERP".to_string(), MARKET);
    assert!(idle.cancel_orders_remain_neutral(true).instructions.is_empty());
}

#[test]
fn inflight_ids_are_reclaimed_by_open_orders_updates() {
    let mut om = OrderManager::new("SOL-PERP".to_string(), MARKET);
    om.inflight_orders.new_orders = vec![1, 2];
    om.inflight_orders.cancelling_orders = vec![7, 8];
    om._process_oo_update(open_orders(&[(3, oid(100, 1), 1, Side::Ask), (4, oid(99, 8), 8, Side::Bid)]));
    assert_eq!(om.inflight_orders.new_orders, vec![2]);
    assert_eq!(om.inflight_orders.cancelling_orders, vec![8]);
}

#[test]
fn open_orders_slots_and_sides() {
    let oo = open_orders(&[(5, oid(100, 1), 11, Side::Ask), (127, oid(99, 2), 12, Side::Bid)]);
    assert_eq!(oo.slot_side(5), Some(Side::Ask));
    assert_eq!(oo.slot_side(127), Some(Side::Bid));
    assert_eq!(oo.slot_side(6), None);
    let orders = get_open_orders(&oo);
    assert_eq!(orders.len(), 2);
    assert_eq!(orders[0].client_order_id, 11);
    assert_eq!(orders[0].price, 100);
    assert_eq!(orders[1].side, Side::Bid);
    assert_eq!(orders[1].quantity, 0);
}

#[test]
fn book_line_lookup_is_per_side() {
    let mut book = OrderBook::new(MARKET);
    book.asks = vec![row(100, 5, oid(100, 1), 1), row(101, 6, oid(101, 2), 2)];
    assert_eq!(get_order_book_line(&book, oid(101, 2), Side::Ask).unwrap().quantity, 6);
    assert!(get_order_book_line(&book, oid(101, 2), Side::Bid).is_none());
    assert!(get_order_book_line(&book, oid(102, 2), Side::Ask).is_none());
}

fn worker() -> Worker {
    let im = InventoryManager::new(0, 0, 1000, 1, 4, 20);
    let om = OrderManager::new("SOL-PERP".to_string(), MARKET);
    Worker::new(WorkerConfig { market_index: 0, symbol: "SOL-PERP".to_string() }, im, om)
}

#[test]
fn worker_waits_for_user_and_group() {
    let mut w = worker();
    assert!(w.process(true).is_none());
    w.on_user_update(BasePosition { total_deposits: 0, total_borrows: 0 });
    assert!(w.process(true).is_none());
    w.on_group_update(0);
    assert!(w.process(true).is_none());
    w.on_group_update(100);
    let update = w.process(true).unwrap();
    assert_eq!(update.instructions.len(), 2);
    assert_eq!(new_order(&update.instructions[0]), (Side::Ask, 100, 1000, 1));
    assert_eq!(new_order(&update.instructions[1]), (Side::Bid, 99, 1000, 2));
}

#[test]
fn worker_shutdown_cancels_resting_quotes() {
    let mut w = worker();
    w.order_manager = manager_with_resting_quotes();
    let update = w.shutdown(true);
    assert_eq!(update.instructions.len(), 2);
    assert!(update.instructions.iter().all(|ix| matches!(ix, OrderInstruction::Cancel { .. })));
}

#[test]
fn inflight_sets_keep_only_the_newest_ids() {
    let mut om = OrderManager::new("SOL-PERP".to_string(), MARKET);
    om.inflight_orders.new_orders = (1000..1256).collect();
    om.client_order_id = 5000;
    let update = om.update_orders(&qv(0, 1000, 1000), 99, 100, true);
    assert_eq!(update.instructions.len(), 2);
    assert_eq!(om.inflight_orders.new_orders.len(), 256);
    assert_eq!(om.inflight_orders.new_orders[0], 1002);
    assert_eq!(om.inflight_orders.new_orders[254], 5000);
    assert_eq!(om.inflight_orders.new_orders[255], 5001);
}
