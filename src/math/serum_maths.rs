use vstd::prelude::*;

verus! {

/// A native quote amount in quote lots, rounded down.
pub fn convert_pc_to_lots(price: u64, pc_lot_size: u64) -> (r: u64)
    requires
        pc_lot_size > 0,
    ensures
        r == price / pc_lot_size,
{
    price / pc_lot_size
}

/// A native price in lots: `price * coin_lot_size / (coin_decimals_factor * pc_lot_size)`.
pub fn convert_price_to_lots(price: u64, coin_lot_size: u64, coin_decimals_factor: u64, pc_lot_size: u64) -> (r: u64)
    requires
        price * coin_lot_size <= u64::MAX,
        coin_decimals_factor * pc_lot_size <= u64::MAX,
        coin_decimals_factor * pc_lot_size > 0,
    ensures
        r == (price * coin_lot_size) / (coin_decimals_factor * pc_lot_size),
{
    (price * coin_lot_size) / (coin_decimals_factor * pc_lot_size)
}

/// A native base amount in base lots, rounded down.
pub fn convert_base_to_lots(amount_in: u64, coin_lot_size: u64) -> (r: u64)
    requires
        coin_lot_size > 0,
    ensures
        r == amount_in / coin_lot_size,
{
    amount_in / coin_lot_size
}

/// Base lots in native units.
pub fn convert_base_to_decimals(amount_in: u64, coin_lot_size: u64) -> (r: u64)
    requires
        amount_in * coin_lot_size <= u64::MAX,
    ensures
        r == amount_in * coin_lot_size,
{
    amount_in * coin_lot_size
}

/// Quote lots in native units.
pub fn convert_pc_to_decimals(price: u64, pc_lot_size: u64) -> (r: u64)
    requires
        price * pc_lot_size <= u64::MAX,
    ensures
        r == price * pc_lot_size,
{
    price * pc_lot_size
}

} // verus!
