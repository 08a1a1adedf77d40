use vstd::prelude::*;
use super::frac_maths::SimpleFracu32;
use crate::inventory_manager::trunc_div;

verus! {

/// Inventory damping with a fractional shape and base three: each unit of
/// shaped inventory divides the damped side by three.
#[derive(Copy, Clone, Debug)]
pub struct InventoryManager {
    pub max_quote: i64,
    pub shape: SimpleFracu32,
}

#[derive(Copy, Clone, Debug, PartialEq, Eq, Structural)]
pub struct QuoteVolumes {
    pub bid_size: i64,
    pub ask_size: i64,
}

pub open spec fn three_pow(n: nat) -> nat
    decreases n,
{
    if n == 0 {
        1
    } else {
        3 * three_pow((n - 1) as nat)
    }
}

proof fn lemma_three_pow_pos(n: nat)
    ensures
        three_pow(n) >= 1,
    decreases n,
{
    if n > 0 {
        lemma_three_pow_pos((n - 1) as nat);
    }
}

proof fn lemma_three_pow_grows(m: nat, n: nat)
    requires
        m <= n,
    ensures
        three_pow(m) <= three_pow(n),
    decreases n,
{
    if m < n {
        lemma_three_pow_grows(m, (n - 1) as nat);
        lemma_three_pow_pos((n - 1) as nat);
    }
}

/// `max_quote / 3^(shape * abs_delta)`, rounded toward zero.
pub open spec fn attenuated3(im: InventoryManager, abs_delta: u32) -> int {
    trunc_div(im.max_quote as int, three_pow(((im.shape.num * abs_delta) / (im.shape.denom as int)) as nat))
}

impl InventoryManager {
    pub open spec fn wf(&self) -> bool {
        self.shape.denom > 0
    }

    pub fn new(max_quote: i64, shape: SimpleFracu32) -> (r: Self)
        ensures
            r.max_quote == max_quote && r.shape == shape,
    {
        InventoryManager { max_quote, shape }
    }

    /// Sizes for a signed inventory: the side that would grow it is damped.
    pub fn get_quote_volumes(&self, current_delta: i64) -> (r: QuoteVolumes)
        requires
            self.wf(),
            -(u32::MAX as int) <= current_delta <= u32::MAX,
            self.shape.num * (if current_delta < 0 { -current_delta } else { current_delta as int }) <= u32::MAX,
        ensures
            ({
                let a = (if current_delta < 0 { -current_delta } else { current_delta as int }) as u32;
                if current_delta < 0 {
                    r.bid_size == self.max_quote && r.ask_size == attenuated3(*self, a)
                } else {
                    r.bid_size == attenuated3(*self, a) && r.ask_size == self.max_quote
                }
            }),
    {
        let abs_delta: u32 = if current_delta < 0 {
            (-(current_delta as i128)) as u32
        } else {
            current_delta as u32
        };
        let adjusted_vol = self.adj_quote_size(abs_delta);
        if current_delta < 0 {
            QuoteVolumes { bid_size: self.max_quote, ask_size: adjusted_vol }
        } else {
            QuoteVolumes { bid_size: adjusted_vol, ask_size: self.max_quote }
        }
    }

    pub fn adj_quote_size(&self, abs_delta: u32) -> (r: i64)
        requires
            self.wf(),
            self.shape.num * abs_delta <= u32::MAX,
        ensures
            r == attenuated3(*self, abs_delta),
    {
        let e = self.shape.mul(abs_delta);
        let mq = self.max_quote as i128;
        let magnitude: u128 = if mq < 0 {
            (-mq) as u128
        } else {
            mq as u128
        };
        let mut divisor: u128 = 1;
        let mut k: u32 = 0;
        while k < e && divisor <= magnitude
            invariant
                k <= e,
                divisor == three_pow(k as nat),
                magnitude <= 0x8000_0000_0000_0000,
            decreases e - k,
        {
            divisor = divisor * 3;
            k = k + 1;
            assert(three_pow(k as nat) == 3 * three_pow((k - 1) as nat));
        }
        proof {
            lemma_three_pow_pos(k as nat);
            lemma_three_pow_grows(k as nat, e as nat);
            let m = magnitude as int;
            let d = divisor as int;
            let t = three_pow(e as nat) as int;
            if k < e {
                assert(m / t == 0 && m / d == 0) by (nonlinear_arith)
                    requires
                        0 <= m < d <= t,
                ;
            }
        }
        let q = magnitude / divisor;
        if mq < 0 {
            -(q as i128) as i64
        } else {
            q as i64
        }
    }
}

} // verus!
