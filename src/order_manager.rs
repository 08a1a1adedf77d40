use vstd::prelude::*;
use crate::inventory_manager::QuoteVolumes;
use crate::serum_slab::{key_price, OrderBookOrder};

verus! {

/// Number of order slots of an open-orders account.
pub const MAX_SLOTS: usize = 128;

/// Account identifier on the venue.
pub type Pubkey = [u8; 32];

/// Whether two account identifiers are the same bytes.
pub fn pubkey_eq(a: &Pubkey, b: &Pubkey) -> (r: bool)
    ensures
        r == (*a == *b),
{
    let mut i: usize = 0;
    while i < 32
        invariant
            i <= 32,
            forall|j: int| 0 <= j < i ==> a[j] == b[j],
        decreases 32 - i,
    {
        if a[i] != b[i] {
            return false;
        }
        i = i + 1;
    }
    proof {
        assert(*a =~= *b);
    }
    true
}

/// Layering of the quotes.
#[derive(Copy, Clone, Debug)]
pub struct OrderManagerConfig {
    pub layers: u8,
    pub spacing_bps: u8,
    pub step_amount: u32,
}

#[derive(Copy, Clone, Debug, PartialEq, Eq, Structural)]
pub enum Side {
    Bid,
    Ask,
}

#[derive(Copy, Clone, Debug, PartialEq, Eq, Structural)]
pub enum OrderType {
    Limit,
    ImmediateOrCancel,
    PostOnly,
}

#[derive(Copy, Clone, Debug, PartialEq, Eq, Structural)]
pub enum SelfTradeBehavior {
    DecrementTake,
    CancelProvide,
    AbortTransaction,
}

/// The venue's per-user record of resting orders in one market.
#[derive(Clone, Debug)]
pub struct OpenOrders {
    pub free_slot_bits: u128,
    pub is_bid_bits: u128,
    pub orders: Vec<u128>,
    pub client_order_ids: Vec<u64>,
}

pub open spec fn bit_set(bits: u128, i: int) -> bool {
    (bits >> (i as u128)) & 1u128 == 1u128
}

impl OpenOrders {
    pub open spec fn wf(&self) -> bool {
        self.orders@.len() == MAX_SLOTS && self.client_order_ids@.len() == MAX_SLOTS
    }

    /// The side of the order in `slot`; `None` for a free slot.
    pub open spec fn spec_slot_side(&self, slot: int) -> Option<Side> {
        if bit_set(self.free_slot_bits, slot) {
            None
        } else if bit_set(self.is_bid_bits, slot) {
            Some(Side::Bid)
        } else {
            Some(Side::Ask)
        }
    }

    pub fn slot_side(&self, slot: u8) -> (r: Option<Side>)
        requires
            slot < 128,
        ensures
            r == self.spec_slot_side(slot as int),
    {
        let s = slot as u128;
        if (self.free_slot_bits >> s) & 1u128 == 1u128 {
            None
        } else if (self.is_bid_bits >> s) & 1u128 == 1u128 {
            Some(Side::Bid)
        } else {
            Some(Side::Ask)
        }
    }
}

/// Both sides of the orderbook of one market, best price first.
#[derive(Clone, Debug)]
pub struct OrderBook {
    pub market: Pubkey,
    pub bids: Vec<OrderBookOrder>,
    pub asks: Vec<OrderBookOrder>,
}

impl OrderBook {
    pub fn new(market: Pubkey) -> (r: Self)
        ensures
            r.market == market,
            r.bids@.len() == 0,
            r.asks@.len() == 0,
    {
        OrderBook { market, bids: Vec::new(), asks: Vec::new() }
    }

    pub open spec fn side(&self, side: Side) -> Seq<OrderBookOrder> {
        match side {
            Side::Bid => self.bids@,
            Side::Ask => self.asks@,
        }
    }
}

/// A resting order of ours, with its quantity as the orderbook shows it.
#[derive(Copy, Clone, Debug, PartialEq, Eq, Structural)]
pub struct ManagedOrder {
    pub order_id: u128,
    pub client_order_id: u64,
    pub price: u64,
    pub quantity: u64,
    pub side: Side,
}

/// Most client order ids kept in each in-flight set; the oldest go first.
pub const INFLIGHT_CAPACITY: usize = 256;

/// The newest `INFLIGHT_CAPACITY` ids of `s`.
pub open spec fn keep_newest(s: Seq<u64>) -> Seq<u64> {
    if s.len() > INFLIGHT_CAPACITY {
        s.skip(s.len() - INFLIGHT_CAPACITY)
    } else {
        s
    }
}

/// Drops the oldest ids beyond `INFLIGHT_CAPACITY`.
fn bound_ids(ids: &mut Vec<u64>)
    ensures
        final(ids)@ == keep_newest(old(ids)@),
{
    let len = ids.len();
    if len <= INFLIGHT_CAPACITY {
        return;
    }
    let start = len - INFLIGHT_CAPACITY;
    let mut kept: Vec<u64> = Vec::new();
    let mut i: usize = start;
    while i < len
        invariant
            start <= i <= len,
            len == ids@.len(),
            kept@ =~= ids@.subrange(start as int, i as int),
        decreases len - i,
    {
        kept.push(ids[i]);
        i = i + 1;
    }
    proof {
        assert(kept@ =~= ids@.skip(start as int));
    }
    std::mem::swap(ids, &mut kept);
}

/// Client order ids of orders being placed and being cancelled, each set
/// holding at most the newest `INFLIGHT_CAPACITY` ids.
#[derive(Clone, Debug)]
pub struct InflightOrders {
    pub new_orders: Vec<u64>,
    pub cancelling_orders: Vec<u64>,
}

/// A new order as the venue takes it.
#[derive(Copy, Clone, Debug, PartialEq, Eq, Structural)]
pub struct NewOrderInstruction {
    pub side: Side,
    pub limit_price: u64,
    pub max_coin_qty: u64,
    pub max_native_pc_qty_including_fees: u64,
    pub self_trade_behavior: SelfTradeBehavior,
    pub order_type: OrderType,
    pub client_order_id: u64,
    pub limit: u16,
    pub max_ts: i64,
}

/// One instruction that the order manager emits.
#[derive(Copy, Clone, Debug, PartialEq, Eq, Structural)]
pub enum OrderInstruction {
    Cancel { order_id: u128, side: Side },
    New(NewOrderInstruction),
}

/// The first row of `s` with the given order id.
pub open spec fn first_line(s: Seq<OrderBookOrder>, order_id: u128) -> Option<OrderBookOrder>
    decreases s.len(),
{
    if s.len() == 0 {
        None
    } else if s[0].order_id == order_id {
        Some(s[0])
    } else {
        first_line(s.drop_first(), order_id)
    }
}

/// Looks the order up on its side of the book.
pub fn get_order_book_line(orderbook: &OrderBook, order_id: u128, side: Side) -> (r: Option<OrderBookOrder>)
    ensures
        r == first_line(orderbook.side(side), order_id),
{
    let lines = match side {
        Side::Ask => &orderbook.asks,
        Side::Bid => &orderbook.bids,
    };
    let ghost s = orderbook.side(side);
    let mut i: usize = 0;
    assert(s.skip(0) =~= s);
    while i < lines.len()
        invariant
            s == lines@,
            s == orderbook.side(side),
            i <= s.len(),
            first_line(s, order_id) == first_line(s.skip(i as int), order_id),
        decreases lines.len() - i,
    {
        assert(s.skip(i as int).drop_first() =~= s.skip(i + 1));
        assert(s.skip(i as int)[0] == lines@[i as int]);
        if lines[i].order_id == order_id {
            let line = lines[i];
            assert(first_line(s.skip(i as int), order_id) == Some(line));
            return Some(line);
        }
        i = i + 1;
    }
    None
}

/// The order in `slot`, as the open-orders record shows it.
pub open spec fn slot_order(oo: OpenOrders, slot: int, quantity: u64) -> ManagedOrder {
    let order_id = oo.orders@[slot];
    ManagedOrder {
        order_id,
        client_order_id: oo.client_order_ids@[slot],
        price: key_price(order_id) as u64,
        quantity,
        side: oo.spec_slot_side(slot).unwrap(),
    }
}

/// Orders in the first `n` slots, with quantity zero.
pub open spec fn open_orders_upto(oo: OpenOrders, n: nat) -> Seq<ManagedOrder>
    decreases n,
{
    if n == 0 {
        seq![]
    } else {
        let prev = open_orders_upto(oo, (n - 1) as nat);
        if oo.spec_slot_side(n - 1) is Some {
            prev.push(slot_order(oo, n - 1, 0))
        } else {
            prev
        }
    }
}

/// Orders in the first `n` slots that the orderbook still shows, with the
/// quantity the orderbook gives them.
pub open spec fn resting_upto(oo: OpenOrders, ob: OrderBook, n: nat) -> Seq<ManagedOrder>
    decreases n,
{
    if n == 0 {
        seq![]
    } else {
        let prev = resting_upto(oo, ob, (n - 1) as nat);
        let slot = n - 1;
        match oo.spec_slot_side(slot) {
            Some(side) => match first_line(ob.side(side), oo.orders@[slot]) {
                Some(line) => prev.push(slot_order(oo, slot, line.quantity)),
                None => prev,
            },
            None => prev,
        }
    }
}

pub open spec fn resting_orders(oo: OpenOrders, ob: OrderBook) -> Seq<ManagedOrder> {
    resting_upto(oo, ob, MAX_SLOTS as nat)
}

fn order_price(order_id: u128) -> (r: u64)
    ensures
        r == key_price(order_id) as u64,
{
    assert(order_id >> 64u128 == order_id / 0x1_0000_0000_0000_0000u128) by (bit_vector);
    (order_id >> 64u128) as u64
}

/// The orders of the open-orders record, slot by slot, without quantities.
pub fn get_open_orders(open_orders: &OpenOrders) -> (r: Vec<ManagedOrder>)
    requires
        open_orders.wf(),
    ensures
        r@ == open_orders_upto(*open_orders, MAX_SLOTS as nat),
{
    let mut oo: Vec<ManagedOrder> = Vec::new();
    let mut i: usize = 0;
    while i < MAX_SLOTS
        invariant
            i <= MAX_SLOTS,
            open_orders.wf(),
            oo@ == open_orders_upto(*open_orders, i as nat),
        decreases MAX_SLOTS - i,
    {
        match open_orders.slot_side(i as u8) {
            Some(side) => {
                let order_id = open_orders.orders[i];
                oo.push(
                    ManagedOrder {
                        order_id,
                        client_order_id: open_orders.client_order_ids[i],
                        price: order_price(order_id),
                        quantity: 0,
                        side,
                    },
                );
            },
            None => {},
        }
        i = i + 1;
    }
    oo
}

/// Our resting orders: each occupied slot whose order id the orderbook still
/// shows on its side, with the orderbook's quantity. An order that the
/// orderbook no longer shows is left out.
pub fn get_open_orders_with_qty(open_orders: &OpenOrders, orderbook: &OrderBook) -> (r: Vec<ManagedOrder>)
    requires
        open_orders.wf(),
    ensures
        r@ == resting_orders(*open_orders, *orderbook),
{
    let mut oo: Vec<ManagedOrder> = Vec::new();
    let mut i: usize = 0;
    while i < MAX_SLOTS
        invariant
            i <= MAX_SLOTS,
            open_orders.wf(),
            oo@ == resting_upto(*open_orders, *orderbook, i as nat),
        decreases MAX_SLOTS - i,
    {
        match open_orders.slot_side(i as u8) {
            Some(side) => {
                let order_id = open_orders.orders[i];
                match get_order_book_line(orderbook, order_id, side) {
                    Some(line) => {
                        oo.push(
                            ManagedOrder {
                                order_id,
                                client_order_id: open_orders.client_order_ids[i],
                                price: order_price(order_id),
                                quantity: line.quantity,
                                side,
                            },
                        );
                    },
                    None => {},
                }
            },
            None => {},
        }
        i = i + 1;
    }
    oo
}


/// An order is stale when its price or its quantity differs from what its side should quote.
pub open spec fn is_stale(o: ManagedOrder, qv: QuoteVolumes, best_bid: u64, best_ask: u64) -> bool {
    match o.side {
        Side::Ask => o.price != best_ask || o.quantity as int != qv.ask_size as int,
        Side::Bid => o.price != best_bid || o.quantity as int != qv.bid_size as int,
    }
}

/// The stale orders among the first `n` of `s`, in order.
pub open spec fn stale_upto(s: Seq<ManagedOrder>, qv: QuoteVolumes, best_bid: u64, best_ask: u64, n: nat) -> Seq<
    ManagedOrder,
>
    decreases n,
{
    if n == 0 {
        seq![]
    } else {
        let prev = stale_upto(s, qv, best_bid, best_ask, (n - 1) as nat);
        if is_stale(s[n - 1], qv, best_bid, best_ask) {
            prev.push(s[n - 1])
        } else {
            prev
        }
    }
}

pub open spec fn stale_orders(s: Seq<ManagedOrder>, qv: QuoteVolumes, best_bid: u64, best_ask: u64) -> Seq<ManagedOrder> {
    stale_upto(s, qv, best_bid, best_ask, s.len())
}

pub open spec fn cancel_of(o: ManagedOrder) -> OrderInstruction {
    OrderInstruction::Cancel { order_id: o.order_id, side: o.side }
}

pub open spec fn cancels(s: Seq<ManagedOrder>) -> Seq<OrderInstruction> {
    s.map_values(|o: ManagedOrder| cancel_of(o))
}

pub open spec fn client_ids(s: Seq<ManagedOrder>) -> Seq<u64> {
    s.map_values(|o: ManagedOrder| o.client_order_id)
}

/// `a * b`, or the largest `u64` where the product does not fit.
pub open spec fn saturating_product(a: u64, b: u64) -> u64 {
    if a * b > u64::MAX {
        u64::MAX
    } else {
        (a * b) as u64
    }
}

fn saturating_product_u64(a: u64, b: u64) -> (r: u64)
    ensures
        r == saturating_product(a, b),
{
    match a.checked_mul(b) {
        Some(p) => p,
        None => u64::MAX,
    }
}

/// A post-only limit order that cancels our resting side on a self-trade, with
/// no limit on matching iterations or time.
pub open spec fn new_order(side: Side, price: u64, size: u64, client_order_id: u64) -> OrderInstruction {
    OrderInstruction::New(
        NewOrderInstruction {
            side,
            limit_price: price,
            max_coin_qty: size,
            max_native_pc_qty_including_fees: saturating_product(size, price),
            self_trade_behavior: SelfTradeBehavior::CancelProvide,
            order_type: OrderType::PostOnly,
            client_order_id,
            limit: u16::MAX,
            max_ts: i64::MAX,
        },
    )
}

/// The new orders of a tick: the ask (when its size is positive) with client
/// order id `next`, then the bid (when its size is positive) with the next free id.
pub open spec fn new_orders(qv: QuoteVolumes, best_bid: u64, best_ask: u64, next: u64) -> Seq<OrderInstruction> {
    let asks = if qv.ask_size > 0 {
        seq![new_order(Side::Ask, best_ask, qv.ask_size as u64, next)]
    } else {
        seq![]
    };
    let bids = if qv.bid_size > 0 {
        seq![new_order(Side::Bid, best_bid, qv.bid_size as u64, (next + asks.len()) as u64)]
    } else {
        seq![]
    };
    asks + bids
}

/// Everything a reconciliation emits: a cancel for each stale order, then the
/// new orders when nothing rests or something was stale.
pub open spec fn plan(resting: Seq<ManagedOrder>, qv: QuoteVolumes, best_bid: u64, best_ask: u64, next: u64) -> Seq<
    OrderInstruction,
> {
    let stale = stale_orders(resting, qv, best_bid, best_ask);
    cancels(stale) + if resting.len() == 0 || stale.len() > 0 {
        new_orders(qv, best_bid, best_ask, next)
    } else {
        seq![]
    }
}

/// Whether the occupied slots of `oo` hold client order id `c`.
pub open spec fn observed(oo: OpenOrders, c: u64) -> bool {
    exists|i: int| 0 <= i < MAX_SLOTS && oo.spec_slot_side(i) is Some && #[trigger] oo.client_order_ids@[i] == c
}

/// The ids of `s[..n]` that `oo` shows (`keep_observed`) or does not show.
pub open spec fn retain_upto(s: Seq<u64>, oo: OpenOrders, keep_observed: bool, n: nat) -> Seq<u64>
    decreases n,
{
    if n == 0 {
        seq![]
    } else {
        let prev = retain_upto(s, oo, keep_observed, (n - 1) as nat);
        if observed(oo, s[n - 1]) == keep_observed {
            prev.push(s[n - 1])
        } else {
            prev
        }
    }
}

pub open spec fn retain_ids(s: Seq<u64>, oo: OpenOrders, keep_observed: bool) -> Seq<u64> {
    retain_upto(s, oo, keep_observed, s.len())
}

/// What one reconciliation hands to the submitter.
#[derive(Clone, Debug)]
pub struct OrderUpdate {
    /// The planned instructions, in the order they are to be sent.
    pub instructions: Vec<OrderInstruction>,
    /// Set when there is something to send but no recent ledger hash to sign with:
    /// nothing is sent this tick and nothing was recorded as in flight.
    pub deferred: bool,
}

/// Plans cancels and new orders against the latest open-orders record and orderbook.
pub struct OrderManager {
    pub symbol: String,
    pub open_orders: Option<OpenOrders>,
    pub orderbook: OrderBook,
    pub inflight_orders: InflightOrders,
    pub client_order_id: u64,
}

/// `next, next + 1, ..., next + n - 1`.
pub open spec fn id_range(next: u64, n: nat) -> Seq<u64> {
    Seq::new(n, |k: int| (next + k) as u64)
}

/// How many new orders the quote asks for: one per side with a positive size.
pub open spec fn new_order_count(qv: QuoteVolumes) -> nat {
    (if qv.ask_size > 0 { 1nat } else { 0nat }) + (if qv.bid_size > 0 { 1nat } else { 0nat })
}

/// How many new orders a reconciliation places.
pub open spec fn placed_count(resting: Seq<ManagedOrder>, qv: QuoteVolumes, best_bid: u64, best_ask: u64) -> nat {
    if resting.len() == 0 || stale_orders(resting, qv, best_bid, best_ask).len() > 0 {
        new_order_count(qv)
    } else {
        0
    }
}

pub proof fn lemma_new_orders_len(qv: QuoteVolumes, best_bid: u64, best_ask: u64, next: u64)
    ensures
        new_orders(qv, best_bid, best_ask, next).len() == new_order_count(qv),
        new_order_count(qv) <= 2,
{
}

/// Occupied slots of the open-orders record that the orderbook still shows.
pub open spec fn current_resting(om: OrderManager) -> Seq<ManagedOrder> {
    match om.open_orders {
        Some(oo) => resting_orders(oo, om.orderbook),
        None => seq![],
    }
}

fn is_observed(oo: &OpenOrders, c: u64) -> (r: bool)
    requires
        oo.wf(),
    ensures
        r == observed(*oo, c),
{
    let mut i: usize = 0;
    while i < MAX_SLOTS
        invariant
            oo.wf(),
            i <= MAX_SLOTS,
            forall|j: int| 0 <= j < i ==> !(oo.spec_slot_side(j) is Some && #[trigger] oo.client_order_ids@[j] == c),
        decreases MAX_SLOTS - i,
    {
        if oo.slot_side(i as u8).is_some() && oo.client_order_ids[i] == c {
            return true;
        }
        i = i + 1;
    }
    false
}

fn retain_observed(ids: &Vec<u64>, oo: &OpenOrders, keep_observed: bool) -> (r: Vec<u64>)
    requires
        oo.wf(),
    ensures
        r@ == retain_ids(ids@, *oo, keep_observed),
{
    let mut out: Vec<u64> = Vec::new();
    let mut i: usize = 0;
    while i < ids.len()
        invariant
            oo.wf(),
            i <= ids@.len(),
            out@ == retain_upto(ids@, *oo, keep_observed, i as nat),
        decreases ids.len() - i,
    {
        if is_observed(oo, ids[i]) == keep_observed {
            out.push(ids[i]);
        }
        i = i + 1;
    }
    out
}

impl OrderManager {
    pub open spec fn wf(&self) -> bool {
        self.open_orders is Some ==> self.open_orders.unwrap().wf()
    }

    pub fn new(symbol: String, market: Pubkey) -> (r: Self)
        ensures
            r.wf(),
            r.symbol@ == symbol@,
            r.open_orders is None,
            r.orderbook.market == market,
            r.orderbook.bids@.len() == 0 && r.orderbook.asks@.len() == 0,
            r.inflight_orders.new_orders@.len() == 0,
            r.inflight_orders.cancelling_orders@.len() == 0,
            r.client_order_id == 1,
    {
        OrderManager {
            symbol,
            open_orders: None,
            orderbook: OrderBook::new(market),
            inflight_orders: InflightOrders { new_orders: Vec::new(), cancelling_orders: Vec::new() },
            client_order_id: 1,
        }
    }

    /// Stores the latest open-orders record. An id leaves the placing set once
    /// the record shows it, and leaves the cancelling set once it no longer does.
    pub fn _process_oo_update(&mut self, oo: OpenOrders)
        requires
            oo.wf(),
        ensures
            final(self).wf(),
            final(self).open_orders == Some(oo),
            final(self).inflight_orders.new_orders@ == retain_ids(old(self).inflight_orders.new_orders@, oo, false),
            final(self).inflight_orders.cancelling_orders@ == retain_ids(
                old(self).inflight_orders.cancelling_orders@,
                oo,
                true,
            ),
            final(self).orderbook == old(self).orderbook,
            final(self).client_order_id == old(self).client_order_id,
            final(self).symbol == old(self).symbol,
    {
        let placing = retain_observed(&self.inflight_orders.new_orders, &oo, false);
        let cancelling = retain_observed(&self.inflight_orders.cancelling_orders, &oo, true);
        self.inflight_orders = InflightOrders { new_orders: placing, cancelling_orders: cancelling };
        self.open_orders = Some(oo);
    }

    /// Stores the latest orderbook.
    pub fn _process_ob_update(&mut self, ob: OrderBook)
        ensures
            final(self).orderbook == ob,
            final(self).open_orders == old(self).open_orders,
            final(self).inflight_orders == old(self).inflight_orders,
            final(self).client_order_id == old(self).client_order_id,
            final(self).symbol == old(self).symbol,
    {
        self.orderbook = ob;
    }

    /// Our resting orders with their current quantities; none before the
    /// first open-orders record.
    pub fn get_orders(&self) -> (r: Vec<ManagedOrder>)
        requires
            self.wf(),
        ensures
            r@ == current_resting(*self),
    {
        match &self.open_orders {
            Some(oo) => get_open_orders_with_qty(oo, &self.orderbook),
            None => Vec::new(),
        }
    }

    /// The resting orders whose price or quantity differs from the desired quote.
    pub fn get_stale_orders(&self, quote_vols: &QuoteVolumes, best_bid: u64, best_ask: u64) -> (r: Vec<ManagedOrder>)
        requires
            self.wf(),
        ensures
            r@ == stale_orders(current_resting(*self), *quote_vols, best_bid, best_ask),
    {
        let orders = self.get_orders();
        let mut stale: Vec<ManagedOrder> = Vec::new();
        let mut i: usize = 0;
        while i < orders.len()
            invariant
                i <= orders@.len(),
                orders@ == current_resting(*self),
                stale@ == stale_upto(orders@, *quote_vols, best_bid, best_ask, i as nat),
            decreases orders.len() - i,
        {
            let o = orders[i];
            let is_stale = match o.side {
                Side::Ask => o.price != best_ask || o.quantity as i128 != quote_vols.ask_size,
                Side::Bid => o.price != best_bid || o.quantity as i128 != quote_vols.bid_size,
            };
            if is_stale {
                stale.push(o);
            }
            i = i + 1;
        }
        stale
    }

    /// One cancel per order, carrying its order id and side.
    pub fn get_cancel_orders_ixs(&self, stale_orders: &Vec<ManagedOrder>) -> (r: Vec<OrderInstruction>)
        ensures
            r@ == cancels(stale_orders@),
    {
        let mut ixs: Vec<OrderInstruction> = Vec::new();
        let mut i: usize = 0;
        while i < stale_orders.len()
            invariant
                i <= stale_orders@.len(),
                ixs@ =~= cancels(stale_orders@).take(i as int),
            decreases stale_orders.len() - i,
        {
            let o = stale_orders[i];
            ixs.push(OrderInstruction::Cancel { order_id: o.order_id, side: o.side });
            i = i + 1;
        }
        assert(cancels(stale_orders@).take(i as int) =~= cancels(stale_orders@));
        ixs
    }

    /// The new orders for the desired quote, numbered from the next client order id.
    pub fn get_new_orders_ixs(&self, quote_vols: &QuoteVolumes, best_bid: u64, best_ask: u64) -> (r: Vec<
        OrderInstruction,
    >)
        requires
            self.client_order_id <= u64::MAX - 2,
            quote_vols.ask_size <= u64::MAX,
            quote_vols.bid_size <= u64::MAX,
        ensures
            r@ == new_orders(*quote_vols, best_bid, best_ask, self.client_order_id),
    {
        let mut ixs: Vec<OrderInstruction> = Vec::new();
        let mut next = self.client_order_id;
        if quote_vols.ask_size > 0 {
            let size = quote_vols.ask_size as u64;
            ixs.push(
                OrderInstruction::New(
                    NewOrderInstruction {
                        side: Side::Ask,
                        limit_price: best_ask,
                        max_coin_qty: size,
                        max_native_pc_qty_including_fees: saturating_product_u64(size, best_ask),
                        self_trade_behavior: SelfTradeBehavior::CancelProvide,
                        order_type: OrderType::PostOnly,
                        client_order_id: next,
                        limit: u16::MAX,
                        max_ts: i64::MAX,
                    },
                ),
            );
            next = next + 1;
        }
        if quote_vols.bid_size > 0 {
            let size = quote_vols.bid_size as u64;
            ixs.push(
                OrderInstruction::New(
                    NewOrderInstruction {
                        side: Side::Bid,
                        limit_price: best_bid,
                        max_coin_qty: size,
                        max_native_pc_qty_including_fees: saturating_product_u64(size, best_bid),
                        self_trade_behavior: SelfTradeBehavior::CancelProvide,
                        order_type: OrderType::PostOnly,
                        client_order_id: next,
                        limit: u16::MAX,
                        max_ts: i64::MAX,
                    },
                ),
            );
        }
        assert(ixs@ =~= new_orders(*quote_vols, best_bid, best_ask, self.client_order_id));
        ixs
    }

    /// Reconciles resting orders with the desired quote: plans a cancel for
    /// each stale order and, when nothing rests or something was stale, the
    /// new orders. Where there is something to send and `nonce_ready` holds,
    /// the cancelled ids join the cancelling set, the placed ids join the
    /// placing set and the next client order id moves past them; without a
    /// recent ledger hash the update is deferred and nothing is recorded.
    pub fn update_orders(
        &mut self,
        quote_vols: &QuoteVolumes,
        best_bid: u64,
        best_ask: u64,
        nonce_ready: bool,
    ) -> (r: OrderUpdate)
        requires
            old(self).wf(),
            old(self).client_order_id <= u64::MAX - 2,
            quote_vols.ask_size <= u64::MAX,
            quote_vols.bid_size <= u64::MAX,
        ensures
            ({
                let resting = current_resting(*old(self));
                let stale = stale_orders(resting, *quote_vols, best_bid, best_ask);
                let p = plan(resting, *quote_vols, best_bid, best_ask, old(self).client_order_id);
                let places = placed_count(resting, *quote_vols, best_bid, best_ask);
                let commit = p.len() > 0 && nonce_ready;
                &&& r.instructions@ == p
                &&& r.deferred == (p.len() > 0 && !nonce_ready)
                &&& final(self).client_order_id == old(self).client_order_id + if commit { places } else { 0 }
                &&& final(self).inflight_orders.cancelling_orders@ == if commit {
                    keep_newest(old(self).inflight_orders.cancelling_orders@ + client_ids(stale))
                } else {
                    old(self).inflight_orders.cancelling_orders@
                }
                &&& final(self).inflight_orders.new_orders@ == if commit {
                    keep_newest(old(self).inflight_orders.new_orders@ + id_range(old(self).client_order_id, places))
                } else {
                    old(self).inflight_orders.new_orders@
                }
            }),
            final(self).wf(),
            final(self).open_orders == old(self).open_orders,
            final(self).orderbook == old(self).orderbook,
            final(self).symbol == old(self).symbol,
    {
        let ghost resting = current_resting(*self);
        let orders = self.get_orders();
        let stale = self.get_stale_orders(quote_vols, best_bid, best_ask);
        let mut ixs = self.get_cancel_orders_ixs(&stale);
        let mut n_new: usize = 0;
        if orders.len() == 0 || stale.len() > 0 {
            let mut new_ixs = self.get_new_orders_ixs(quote_vols, best_bid, best_ask);
            n_new = new_ixs.len();
            ixs.append(&mut new_ixs);
        }
        proof {
            lemma_new_orders_len(*quote_vols, best_bid, best_ask, self.client_order_id);
            assert(ixs@ =~= plan(resting, *quote_vols, best_bid, best_ask, self.client_order_id));
        }
        if ixs.len() == 0 {
            return OrderUpdate { instructions: ixs, deferred: false };
        }
        if !nonce_ready {
            return OrderUpdate { instructions: ixs, deferred: true };
        }
        let ghost old_cancelling = self.inflight_orders.cancelling_orders@;
        let ghost old_new = self.inflight_orders.new_orders@;
        let mut i: usize = 0;
        while i < stale.len()
            invariant
                i <= stale@.len(),
                self.inflight_orders.cancelling_orders@ =~= old_cancelling + client_ids(stale@).take(i as int),
                self.inflight_orders.new_orders@ == old_new,
                self.open_orders == old(self).open_orders,
                self.orderbook == old(self).orderbook,
                self.symbol == old(self).symbol,
                self.client_order_id == old(self).client_order_id,
            decreases stale.len() - i,
        {
            self.inflight_orders.cancelling_orders.push(stale[i].client_order_id);
            i = i + 1;
        }
        assert(client_ids(stale@).take(i as int) =~= client_ids(stale@));
        let next = self.client_order_id;
        let mut k: usize = 0;
        while k < n_new
            invariant
                k <= n_new <= 2,
                next == old(self).client_order_id,
                next <= u64::MAX - 2,
                self.inflight_orders.new_orders@ =~= old_new + id_range(next, k as nat),
                self.inflight_orders.cancelling_orders@ == old_cancelling + client_ids(stale@),
                self.open_orders == old(self).open_orders,
                self.orderbook == old(self).orderbook,
                self.symbol == old(self).symbol,
                self.client_order_id == next,
            decreases n_new - k,
        {
            self.inflight_orders.new_orders.push(next + k as u64);
            k = k + 1;
        }
        bound_ids(&mut self.inflight_orders.cancelling_orders);
        bound_ids(&mut self.inflight_orders.new_orders);
        self.client_order_id = next + n_new as u64;
        OrderUpdate { instructions: ixs, deferred: false }
    }

    /// Shutdown path: a cancel for every resting order, whatever its price or
    /// size. Where there is something to send and `nonce_ready` holds, the
    /// cancelled ids join the cancelling set.
    pub fn cancel_orders_remain_neutral(&mut self, nonce_ready: bool) -> (r: OrderUpdate)
        requires
            old(self).wf(),
        ensures
            ({
                let resting = current_resting(*old(self));
                let commit = resting.len() > 0 && nonce_ready;
                &&& r.instructions@ == cancels(resting)
                &&& r.deferred == (resting.len() > 0 && !nonce_ready)
                &&& final(self).inflight_orders.cancelling_orders@ == if commit {
                    keep_newest(old(self).inflight_orders.cancelling_orders@ + client_ids(resting))
                } else {
                    old(self).inflight_orders.cancelling_orders@
                }
            }),
            final(self).wf(),
            final(self).inflight_orders.new_orders == old(self).inflight_orders.new_orders,
            final(self).client_order_id == old(self).client_order_id,
            final(self).open_orders == old(self).open_orders,
            final(self).orderbook == old(self).orderbook,
            final(self).symbol == old(self).symbol,
    {
        let orders = self.get_orders();
        let ixs = self.get_cancel_orders_ixs(&orders);
        if orders.len() == 0 {
            return OrderUpdate { instructions: ixs, deferred: false };
        }
        if !nonce_ready {
            return OrderUpdate { instructions: ixs, deferred: true };
        }
        let ghost old_cancelling = self.inflight_orders.cancelling_orders@;
        let mut i: usize = 0;
        while i < orders.len()
            invariant
                i <= orders@.len(),
                self.inflight_orders.cancelling_orders@ =~= old_cancelling + client_ids(orders@).take(i as int),
                self.inflight_orders.new_orders == old(self).inflight_orders.new_orders,
                self.open_orders == old(self).open_orders,
                self.orderbook == old(self).orderbook,
                self.symbol == old(self).symbol,
                self.client_order_id == old(self).client_order_id,
            decreases orders.len() - i,
        {
            self.inflight_orders.cancelling_orders.push(orders[i].client_order_id);
            i = i + 1;
        }
        assert(client_ids(orders@).take(i as int) =~= client_ids(orders@));
        bound_ids(&mut self.inflight_orders.cancelling_orders);
        OrderUpdate { instructions: ixs, deferred: false }
    }
}


/// Each new order carries the next free client order id, in order: the
/// `k`-th new order of a tick gets `next + k`.
pub proof fn lemma_new_order_ids(qv: QuoteVolumes, best_bid: u64, best_ask: u64, next: u64)
    requires
        next <= u64::MAX - 2,
    ensures
        forall|k: int|
            0 <= k < new_orders(qv, best_bid, best_ask, next).len() ==> match #[trigger] new_orders(
                qv,
                best_bid,
                best_ask,
                next,
            )[k] {
                OrderInstruction::New(o) => o.client_order_id == next + k,
                OrderInstruction::Cancel { .. } => false,
            },
{
}

/// A reconciliation cancels exactly the stale orders, each once and in order,
/// and places one order per side with a positive size when nothing rests or
/// something was stale, and nothing otherwise.
pub proof fn lemma_plan_shape(resting: Seq<ManagedOrder>, qv: QuoteVolumes, best_bid: u64, best_ask: u64, next: u64)
    ensures
        ({
            let stale = stale_orders(resting, qv, best_bid, best_ask);
            let p = plan(resting, qv, best_bid, best_ask, next);
            let placed = p.skip(stale.len() as int);
            &&& p.take(stale.len() as int) == cancels(stale)
            &&& placed.len() == placed_count(resting, qv, best_bid, best_ask)
            &&& placed.len() <= 2
            &&& (exists|k: int| 0 <= k < placed.len() && #[trigger] placed[k] is New && placed[k]->New_0.side == Side::Ask)
                <==> ((resting.len() == 0 || stale.len() > 0) && qv.ask_size > 0)
            &&& (exists|k: int| 0 <= k < placed.len() && #[trigger] placed[k] is New && placed[k]->New_0.side == Side::Bid)
                <==> ((resting.len() == 0 || stale.len() > 0) && qv.bid_size > 0)
            &&& forall|k: int| 0 <= k < placed.len() ==> #[trigger] placed[k] is New
        }),
{
    let stale = stale_orders(resting, qv, best_bid, best_ask);
    let p = plan(resting, qv, best_bid, best_ask, next);
    let tail = if resting.len() == 0 || stale.len() > 0 {
        new_orders(qv, best_bid, best_ask, next)
    } else {
        seq![]
    };
    assert(p.take(stale.len() as int) =~= cancels(stale));
    assert(p.skip(stale.len() as int) =~= tail);
    let placed = p.skip(stale.len() as int);
    if (resting.len() == 0 || stale.len() > 0) && qv.ask_size > 0 {
        assert(placed[0] is New && placed[0]->New_0.side == Side::Ask);
    }
    if (resting.len() == 0 || stale.len() > 0) && qv.bid_size > 0 {
        let k = placed.len() - 1;
        assert(placed[k] is New && placed[k]->New_0.side == Side::Bid);
    }
}

proof fn lemma_no_stale(s: Seq<ManagedOrder>, qv: QuoteVolumes, best_bid: u64, best_ask: u64, n: nat)
    requires
        n <= s.len(),
        forall|i: int| 0 <= i < s.len() ==> !is_stale(#[trigger] s[i], qv, best_bid, best_ask),
    ensures
        stale_upto(s, qv, best_bid, best_ask, n).len() == 0,
    decreases n,
{
    if n > 0 {
        lemma_no_stale(s, qv, best_bid, best_ask, (n - 1) as nat);
    }
}

/// When every resting order already sits at the desired price and size, a
/// reconciliation emits nothing.
pub proof fn lemma_settled_plans_nothing(
    resting: Seq<ManagedOrder>,
    qv: QuoteVolumes,
    best_bid: u64,
    best_ask: u64,
    next: u64,
)
    requires
        resting.len() > 0,
        forall|i: int| 0 <= i < resting.len() ==> !is_stale(#[trigger] resting[i], qv, best_bid, best_ask),
    ensures
        plan(resting, qv, best_bid, best_ask, next).len() == 0,
{
    lemma_no_stale(resting, qv, best_bid, best_ask, resting.len());
}

} // verus!
