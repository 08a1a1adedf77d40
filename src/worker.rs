use vstd::prelude::*;
use crate::inventory_manager::{
    abs, ask_price, bid_price, lemma_attenuated_bounded, quote_volumes, shaped_delta, user_delta, BasePosition, InventoryManager,
    QuoteVolumes,
};
use crate::order_manager::{current_resting, placed_count, plan, OrderManager, OrderUpdate};

verus! {

/// The market a worker quotes in.
pub struct WorkerConfig {
    pub market_index: usize,
    pub symbol: String,
}

/// Per-market loop state: the freshest inputs and the two managers it drives.
pub struct Worker {
    pub config: WorkerConfig,
    pub inventory_manager: InventoryManager,
    pub order_manager: OrderManager,
    /// Our base position, once the user account has been seen.
    pub position: Option<BasePosition>,
    /// The oracle price, once the group account has been seen.
    pub latest_price: Option<u64>,
}

/// What one tick quotes: `None` while the user or group account is missing or
/// when either quote price comes out zero; otherwise the sizes and the
/// `(bid, ask)` prices.
pub open spec fn tick_quote(w: Worker) -> Option<(QuoteVolumes, u64, u64)> {
    if w.position is None || w.latest_price is None {
        None
    } else {
        let im = w.inventory_manager;
        let qv = quote_volumes(im, user_delta(im.decimals, w.position.unwrap()));
        let bid = bid_price(w.latest_price.unwrap(), im.spread);
        let ask = ask_price(w.latest_price.unwrap(), im.spread);
        if bid == 0 || ask == 0 {
            None
        } else {
            Some((qv, bid, ask))
        }
    }
}

impl Worker {
    pub open spec fn wf(&self) -> bool {
        self.order_manager.wf() && self.inventory_manager.shape_denom > 0
    }

    pub fn new(config: WorkerConfig, inventory_manager: InventoryManager, order_manager: OrderManager) -> (r: Self)
        ensures
            r.config == config,
            r.inventory_manager == inventory_manager,
            r.order_manager == order_manager,
            r.position is None,
            r.latest_price is None,
    {
        Worker { config, inventory_manager, order_manager, position: None, latest_price: None }
    }

    /// A user-account update: the latest base position.
    pub fn on_user_update(&mut self, position: BasePosition)
        ensures
            final(self).position == Some(position),
            final(self).latest_price == old(self).latest_price,
            final(self).inventory_manager == old(self).inventory_manager,
            final(self).order_manager == old(self).order_manager,
            final(self).config == old(self).config,
    {
        self.position = Some(position);
    }

    /// A group-account update: the market's latest oracle price.
    pub fn on_group_update(&mut self, oracle_price: u64)
        ensures
            final(self).latest_price == Some(oracle_price),
            final(self).position == old(self).position,
            final(self).inventory_manager == old(self).inventory_manager,
            final(self).order_manager == old(self).order_manager,
            final(self).config == old(self).config,
    {
        self.latest_price = Some(oracle_price);
    }

    /// One tick: skipped (`None`) while an input is missing, when a quote price
    /// is zero, or once client order ids run out; otherwise the order manager
    /// reconciles against the quote.
    pub fn process(&mut self, nonce_ready: bool) -> (r: Option<OrderUpdate>)
        requires
            old(self).wf(),
        ensures
            final(self).wf(),
            r is None <==> (tick_quote(*old(self)) is None || old(self).order_manager.client_order_id > u64::MAX
                - 2),
            r is None ==> final(self).order_manager == old(self).order_manager,
            r is Some ==> ({
                let (qv, bid, ask) = tick_quote(*old(self)).unwrap();
                let p = plan(
                    current_resting(old(self).order_manager),
                    qv,
                    bid,
                    ask,
                    old(self).order_manager.client_order_id,
                );
                &&& r.unwrap().instructions@ == p
                &&& r.unwrap().deferred == (p.len() > 0 && !nonce_ready)
                &&& final(self).order_manager.client_order_id == old(self).order_manager.client_order_id + if p.len()
                    > 0 && nonce_ready {
                    placed_count(current_resting(old(self).order_manager), qv, bid, ask)
                } else {
                    0
                }
            }),
            final(self).inventory_manager == old(self).inventory_manager,
            final(self).position == old(self).position,
            final(self).latest_price == old(self).latest_price,
            final(self).order_manager.open_orders == old(self).order_manager.open_orders,
            final(self).order_manager.orderbook == old(self).order_manager.orderbook,
    {
        let position = match self.position {
            Some(p) => p,
            None => return None,
        };
        let price = match self.latest_price {
            Some(p) => p,
            None => return None,
        };
        let quote_vols = self.inventory_manager.get_quote_volumes(&position);
        let (best_bid, best_ask) = self.inventory_manager.get_spread(price);
        if best_ask == 0 || best_bid == 0 {
            return None;
        }
        if self.order_manager.client_order_id > u64::MAX - 2 {
            return None;
        }
        proof {
            let im = self.inventory_manager;
            let d = user_delta(im.decimals, position);
            lemma_attenuated_bounded(
                im.max_quote,
                shaped_delta(im.shape_num, im.shape_denom, abs(d) as nat),
            );
        }
        let update = self.order_manager.update_orders(&quote_vols, best_bid, best_ask, nonce_ready);
        Some(update)
    }

    /// Shutdown: cancels every resting order.
    pub fn shutdown(&mut self, nonce_ready: bool) -> (r: OrderUpdate)
        requires
            old(self).wf(),
        ensures
            final(self).wf(),
            r.instructions@ == crate::order_manager::cancels(current_resting(old(self).order_manager)),
            r.deferred == (current_resting(old(self).order_manager).len() > 0 && !nonce_ready),
    {
        self.order_manager.cancel_orders_remain_neutral(nonce_ready)
    }
}

} // verus!
