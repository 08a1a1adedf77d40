use vstd::prelude::*;

verus! {

/// Basis points in one unit.
pub const BPS_UNIT: u64 = 10000;

/// Configuration of the inventory manager as the operator writes it.
#[derive(Debug, Clone, Copy)]
pub struct InventoryManagerConfig {
    pub initial_capital: u64,
    pub max_quote: i64,
    pub shape_num: u32,
    pub shape_denom: u32,
    pub spread: u8,
}

/// The base-asset position of the user in one market, in native units.
#[derive(Debug, Clone, Copy, PartialEq, Eq, Structural)]
pub struct BasePosition {
    pub total_deposits: u64,
    pub total_borrows: u64,
}

/// Desired quote sizes for one tick.
#[derive(Debug, Clone, Copy, PartialEq, Eq, Structural)]
pub struct QuoteVolumes {
    pub delta: i128,
    pub bid_size: i128,
    pub ask_size: i128,
}

/// Computes quote sizes from inventory and quote prices around a reference price.
#[derive(Debug, Clone, Copy)]
pub struct InventoryManager {
    pub decimals: u8,
    pub market_idx: usize,
    pub max_quote: i64,
    pub shape_num: u32,
    pub shape_denom: u32,
    pub spread: u8,
}

pub open spec fn pow10(n: nat) -> nat
    decreases n,
{
    if n == 0 {
        1
    } else {
        10 * pow10((n - 1) as nat)
    }
}

pub open spec fn two_pow(n: nat) -> nat
    decreases n,
{
    if n == 0 {
        1
    } else {
        2 * two_pow((n - 1) as nat)
    }
}

/// Division that rounds toward zero, as integer division of machine integers does.
pub open spec fn trunc_div(a: int, d: nat) -> int {
    if a >= 0 {
        a / (d as int)
    } else {
        -((-a) / (d as int))
    }
}

pub open spec fn abs(a: int) -> int {
    if a < 0 {
        -a
    } else {
        a
    }
}

/// Net base inventory in whole units: deposits less borrows, each divided by `10^decimals`.
pub open spec fn user_delta(decimals: u8, pos: BasePosition) -> int {
    pos.total_deposits as int / (pow10(decimals as nat) as int) - pos.total_borrows as int / (pow10(
        decimals as nat,
    ) as int)
}

/// `shape_num * |delta| / shape_denom`.
pub open spec fn shaped_delta(shape_num: u32, shape_denom: u32, abs_delta: nat) -> nat {
    ((shape_num as int * abs_delta as int) / (shape_denom as int)) as nat
}

/// `max_quote / 2^shaped`, rounded toward zero.
pub open spec fn attenuated(max_quote: i64, shaped: nat) -> int {
    trunc_div(max_quote as int, two_pow(shaped))
}

/// The quote sizes for inventory `delta`: the side that would grow the position
/// is damped, the other keeps the full size.
pub open spec fn quote_volumes(im: InventoryManager, delta: int) -> QuoteVolumes {
    let att = attenuated(im.max_quote, shaped_delta(im.shape_num, im.shape_denom, abs(delta) as nat));
    if delta < 0 {
        QuoteVolumes { delta: delta as i128, bid_size: im.max_quote as i128, ask_size: att as i128 }
    } else {
        QuoteVolumes { delta: delta as i128, bid_size: att as i128, ask_size: im.max_quote as i128 }
    }
}

/// `⌊price · (10000 + spread) / 10000⌋`, capped at the largest `u64`.
pub open spec fn ask_price(price: u64, spread: u8) -> u64 {
    let a = (price as int * (BPS_UNIT as int + spread as int)) / (BPS_UNIT as int);
    if a > u64::MAX {
        u64::MAX
    } else {
        a as u64
    }
}

/// `⌊price · 10000 / (10000 + spread)⌋`.
pub open spec fn bid_price(price: u64, spread: u8) -> u64 {
    ((price as int * BPS_UNIT as int) / (BPS_UNIT as int + spread as int)) as u64
}

proof fn lemma_pow10_grows(m: nat, n: nat)
    requires
        m <= n,
    ensures
        pow10(m) <= pow10(n),
        pow10(n) >= 1,
    decreases n,
{
    if n > 0 {
        if m < n {
            lemma_pow10_grows(m, (n - 1) as nat);
        } else {
            lemma_pow10_grows(0, (n - 1) as nat);
        }
    }
}

proof fn lemma_two_pow_grows(m: nat, n: nat)
    requires
        m <= n,
    ensures
        two_pow(m) <= two_pow(n),
        two_pow(n) >= 1,
    decreases n,
{
    if n > 0 {
        if m < n {
            lemma_two_pow_grows(m, (n - 1) as nat);
        } else {
            lemma_two_pow_grows(0, (n - 1) as nat);
        }
    }
}

proof fn lemma_two_pow_64()
    ensures
        two_pow(64) == 0x1_0000_0000_0000_0000,
{
    reveal_with_fuel(two_pow, 65);
}

proof fn lemma_pow10_values()
    ensures
        pow10(19) == 10_000_000_000_000_000_000,
        pow10(20) == 100_000_000_000_000_000_000,
{
    reveal_with_fuel(pow10, 21);
}

/// `10^n` for `n <= 19`, the powers of ten that fit in a `u64`.
fn pow10_u64(n: u8) -> (r: u64)
    requires
        n <= 19,
    ensures
        r == pow10(n as nat),
        r >= 1,
{
    proof {
        lemma_pow10_grows(0, n as nat);
    }
    let mut k: u8 = 0;
    let mut acc: u64 = 1;
    while k < n
        invariant
            k <= n <= 19,
            acc == pow10(k as nat),
        decreases n - k,
    {
        proof {
            lemma_pow10_grows((k + 1) as nat, 19);
            lemma_pow10_values();
        }
        acc = acc * 10;
        k = k + 1;
    }
    acc
}

/// `2^n` for `n <= 64`.
fn two_pow_u128(n: u32) -> (r: u128)
    requires
        n <= 64,
    ensures
        r == two_pow(n as nat),
{
    let mut k: u32 = 0;
    let mut acc: u128 = 1;
    while k < n
        invariant
            k <= n <= 64,
            acc == two_pow(k as nat),
        decreases n - k,
    {
        proof {
            lemma_two_pow_grows((k + 1) as nat, 64);
            lemma_two_pow_64();
        }
        acc = acc * 2;
        k = k + 1;
    }
    acc
}

impl InventoryManager {
    pub fn default() -> (r: Self)
        ensures
            r.decimals == 0 && r.market_idx == 0 && r.max_quote == 0 && r.shape_num == 0
                && r.shape_denom == 0 && r.spread == 0,
    {
        InventoryManager { decimals: 0, market_idx: 0, max_quote: 0, shape_num: 0, shape_denom: 0, spread: 0 }
    }

    pub fn new(
        decimals: u8,
        market_index: usize,
        max_quote: i64,
        shape_num: u32,
        shape_denom: u32,
        spread: u8,
    ) -> (r: Self)
        ensures
            r == (InventoryManager {
                decimals,
                market_idx: market_index,
                max_quote,
                shape_num,
                shape_denom,
                spread,
            }),
    {
        InventoryManager { decimals, market_idx: market_index, max_quote, shape_num, shape_denom, spread }
    }

    /// Deposits less borrows of the base asset, in whole units.
    pub fn get_user_delta(&self, position: &BasePosition) -> (r: i128)
        ensures
            r == user_delta(self.decimals, *position),
            -(u64::MAX as int) <= r <= u64::MAX,
    {
        if self.decimals >= 20 {
            proof {
                let d = pow10(self.decimals as nat) as int;
                let x = position.total_deposits as int;
                let y = position.total_borrows as int;
                lemma_pow10_grows(20, self.decimals as nat);
                lemma_pow10_values();
                assert(x / d == 0 && y / d == 0) by (nonlinear_arith)
                    requires
                        0 <= x < d,
                        0 <= y < d,
                ;
            }
            return 0;
        }
        let divisor = pow10_u64(self.decimals);
        let long_pos = position.total_deposits / divisor;
        let short_pos = position.total_borrows / divisor;
        long_pos as i128 - short_pos as i128
    }

    /// `max_quote / 2^(shape_num * abs_delta / shape_denom)`, rounded toward zero.
    pub fn adj_quote_size(&self, abs_delta: u64) -> (r: i128)
        requires
            self.shape_denom > 0,
        ensures
            r == attenuated(self.max_quote, shaped_delta(self.shape_num, self.shape_denom, abs_delta as nat)),
    {
        let num = self.shape_num as u128;
        let ad = abs_delta as u128;
        assert(num * ad <= u128::MAX) by (nonlinear_arith)
            requires
                num <= u32::MAX,
                ad <= u64::MAX,
        ;
        let shaped = (num * ad) / (self.shape_denom as u128);
        let mq = self.max_quote as i128;
        let magnitude: u128 = if mq < 0 {
            (-mq) as u128
        } else {
            mq as u128
        };
        if shaped >= 64 {
            proof {
                let t = two_pow(shaped as nat) as int;
                let m = magnitude as int;
                lemma_two_pow_grows(64, shaped as nat);
                lemma_two_pow_64();
                assert(m / t == 0) by (nonlinear_arith)
                    requires
                        0 <= m < t,
                ;
            }
            return 0;
        }
        let divisor = two_pow_u128(shaped as u32);
        proof {
            lemma_two_pow_grows(0, shaped as nat);
        }
        let q = magnitude / divisor;
        if mq < 0 {
            -(q as i128)
        } else {
            q as i128
        }
    }

    /// Desired sizes for a position: when net short the bid keeps the full
    /// size and the ask is damped; otherwise the bid is damped and the ask
    /// keeps the full size.
    pub fn get_quote_volumes(&self, position: &BasePosition) -> (r: QuoteVolumes)
        requires
            self.shape_denom > 0,
        ensures
            r == quote_volumes(*self, user_delta(self.decimals, *position)),
    {
        let current_delta = self.get_user_delta(position);
        let abs_delta: u64 = if current_delta < 0 {
            (-current_delta) as u64
        } else {
            current_delta as u64
        };
        let adjusted_vol = self.adj_quote_size(abs_delta);
        if current_delta < 0 {
            QuoteVolumes { delta: current_delta, bid_size: self.max_quote as i128, ask_size: adjusted_vol }
        } else {
            QuoteVolumes { delta: current_delta, bid_size: adjusted_vol, ask_size: self.max_quote as i128 }
        }
    }

    /// Quote prices `(bid, ask)` around `oracle_price`, `spread` basis points apart on each side.
    pub fn get_spread(&self, oracle_price: u64) -> (r: (u64, u64))
        ensures
            r.0 == bid_price(oracle_price, self.spread),
            r.1 == ask_price(oracle_price, self.spread),
    {
        let p = oracle_price as u128;
        let num = (BPS_UNIT + self.spread as u64) as u128;
        assert(p * num <= u128::MAX) by (nonlinear_arith)
            requires
                p <= u64::MAX,
                num <= 10255,
        ;
        let best_ask = p * num / (BPS_UNIT as u128);
        let ask: u64 = if best_ask > u64::MAX as u128 {
            u64::MAX
        } else {
            best_ask as u64
        };
        assert(p * 10000 <= u128::MAX) by (nonlinear_arith)
            requires
                p <= u64::MAX,
        ;
        let best_bid = p * (BPS_UNIT as u128) / num;
        assert(best_bid as int <= p as int) by (nonlinear_arith)
            requires
                best_bid as int == (p as int * 10000) / (num as int),
                num >= 10000,
        ;
        (best_bid as u64, ask)
    }
}

/// The damped side follows the sign of the inventory and the two sizes differ
/// by exactly the damping: a net short position damps the ask, any other the bid.
pub proof fn lemma_quote_volumes_sides(im: InventoryManager, delta: int)
    ensures
        ({
            let q = quote_volumes(im, delta);
            let att = attenuated(im.max_quote, shaped_delta(im.shape_num, im.shape_denom, abs(delta) as nat));
            &&& abs(q.bid_size - q.ask_size) == abs(im.max_quote - att)
            &&& delta < 0 ==> q.bid_size == im.max_quote && q.ask_size == att
            &&& delta >= 0 ==> q.ask_size == im.max_quote && q.bid_size == att
        }),
{
    let att = attenuated(im.max_quote, shaped_delta(im.shape_num, im.shape_denom, abs(delta) as nat));
    let t = two_pow(shaped_delta(im.shape_num, im.shape_denom, abs(delta) as nat));
    lemma_two_pow_grows(0, shaped_delta(im.shape_num, im.shape_denom, abs(delta) as nat));
    let m = im.max_quote as int;
    if m >= 0 {
        assert(0 <= m / (t as int) <= m) by (nonlinear_arith)
            requires
                m >= 0,
                t >= 1,
        ;
    } else {
        assert(0 <= (-m) / (t as int) <= -m) by (nonlinear_arith)
            requires
                m < 0,
                t >= 1,
        ;
    }
}

/// The damped size never exceeds the full size in magnitude.
pub proof fn lemma_attenuated_bounded(max_quote: i64, shaped: nat)
    ensures
        abs(attenuated(max_quote, shaped)) <= abs(max_quote as int),
        max_quote >= 0 ==> 0 <= attenuated(max_quote, shaped) <= max_quote,
{
    let t = two_pow(shaped);
    lemma_two_pow_grows(0, shaped);
    let m = max_quote as int;
    if m >= 0 {
        assert(0 <= m / (t as int) <= m) by (nonlinear_arith)
            requires
                m >= 0,
                t >= 1,
        ;
    } else {
        assert(0 <= (-m) / (t as int) <= -m) by (nonlinear_arith)
            requires
                m < 0,
                t >= 1,
        ;
    }
}

/// Quote prices bracket the reference price: `bid <= price <= ask`.
pub proof fn lemma_spread_brackets(price: u64, spread: u8)
    ensures
        bid_price(price, spread) <= price <= ask_price(price, spread),
        spread == 0 ==> bid_price(price, spread) == price && ask_price(price, spread) == price,
{
    let p = price as int;
    let s = spread as int;
    assert(p * (10000 + s) / 10000 >= p) by (nonlinear_arith)
        requires
            p >= 0,
            s >= 0,
    ;
    assert(p * 10000 / (10000 + s) <= p) by (nonlinear_arith)
        requires
            p >= 0,
            s >= 0,
    ;
    assert(p * 10000 / 10000 == p) by (nonlinear_arith);
}

} // verus!
