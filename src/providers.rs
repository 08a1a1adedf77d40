use vstd::prelude::*;
use crate::accounts_cache::AccountsCache;
use crate::error::MarketMakerError;
use crate::bytes::{le_at, read_u64, read_u128};
use crate::order_manager::{pubkey_eq, OpenOrders, OrderBook, Pubkey, MAX_SLOTS};
use crate::serum_slab::{depth_rows, OrderBookOrder, Slab};

verus! {

/// Bytes the venue puts before an account's data.
pub const PAGE_HEAD_LEN: usize = 5;

/// Bytes the venue puts after an account's data.
pub const PAGE_TAIL_LEN: usize = 7;

/// Account discriminator in front of an orderbook side.
pub const DISCRIMINATOR_LEN: usize = 8;

/// Number of orders kept per orderbook side.
pub const ORDERBOOK_DEPTH: u64 = 25;

/// Length of the open-orders record between the venue's head and tail.
pub const OPEN_ORDERS_LEN: usize = 3216;

pub const FREE_SLOT_BITS_OFFSET: usize = 104;
pub const IS_BID_BITS_OFFSET: usize = 120;
pub const ORDERS_OFFSET: usize = 136;
pub const CLIENT_ORDER_IDS_OFFSET: usize = 2184;

/// The slab inside an orderbook page: what lies between the head (with the
/// discriminator after it) and the tail; empty for a page too short to frame.
pub open spec fn slab_bytes(page: Seq<u8>) -> Seq<u8> {
    if page.len() >= PAGE_HEAD_LEN + DISCRIMINATOR_LEN + PAGE_TAIL_LEN {
        page.subrange((PAGE_HEAD_LEN + DISCRIMINATOR_LEN) as int, page.len() - PAGE_TAIL_LEN)
    } else {
        seq![]
    }
}

/// The rows an orderbook page decodes to: the best `ORDERBOOK_DEPTH` orders.
pub open spec fn page_rows(page: Seq<u8>, pc_lot_size: u64, coin_lot_size: u64, asc: bool) -> Seq<OrderBookOrder> {
    depth_rows(slab_bytes(page), ORDERBOOK_DEPTH, pc_lot_size, coin_lot_size, asc)
}

/// Copies the slab out of an orderbook page.
pub fn slab_from_page(page: &Vec<u8>) -> (r: Slab)
    ensures
        r@ == slab_bytes(page@),
{
    let mut bytes: Vec<u8> = Vec::new();
    let len = page.len();
    if len < PAGE_HEAD_LEN + DISCRIMINATOR_LEN + PAGE_TAIL_LEN {
        return Slab::new(bytes);
    }
    let start = PAGE_HEAD_LEN + DISCRIMINATOR_LEN;
    let end = len - PAGE_TAIL_LEN;
    let mut i: usize = start;
    while i < end
        invariant
            start <= i <= end,
            end == page@.len() - PAGE_TAIL_LEN,
            start == PAGE_HEAD_LEN + DISCRIMINATOR_LEN,
            bytes@ =~= page@.subrange(start as int, i as int),
        decreases end - i,
    {
        bytes.push(page[i]);
        i = i + 1;
    }
    Slab::new(bytes)
}

/// Decodes one side of the orderbook from its page; a page that breaks the
/// layout gives no rows.
pub fn decode_orderbook_side(page: &Vec<u8>, pc_lot_size: u64, coin_lot_size: u64, asc: bool) -> (r: Vec<OrderBookOrder>)
    requires
        coin_lot_size > 0,
    ensures
        r@ == page_rows(page@, pc_lot_size, coin_lot_size, asc),
{
    let slab = slab_from_page(page);
    slab.get_depth(ORDERBOOK_DEPTH, pc_lot_size, coin_lot_size, asc)
}

/// `oo` is the open-orders record that `page` holds.
pub open spec fn open_orders_of_page(page: Seq<u8>, oo: OpenOrders) -> bool {
    let base = PAGE_HEAD_LEN as int;
    &&& oo.wf()
    &&& oo.free_slot_bits as nat == le_at(page, base + FREE_SLOT_BITS_OFFSET, 16)
    &&& oo.is_bid_bits as nat == le_at(page, base + IS_BID_BITS_OFFSET, 16)
    &&& forall|i: int|
        0 <= i < MAX_SLOTS ==> #[trigger] oo.orders@[i] as nat == le_at(page, base + ORDERS_OFFSET + 16 * i, 16)
    &&& forall|i: int|
        0 <= i < MAX_SLOTS ==> #[trigger] oo.client_order_ids@[i] as nat == le_at(
            page,
            base + CLIENT_ORDER_IDS_OFFSET + 8 * i,
            8,
        )
}

/// Reads the open-orders record out of its page; `None` for a page too short to hold one.
pub fn parse_open_orders(page: &Vec<u8>) -> (r: Option<OpenOrders>)
    ensures
        r is Some <==> page@.len() >= PAGE_HEAD_LEN + OPEN_ORDERS_LEN + PAGE_TAIL_LEN,
        r is Some ==> open_orders_of_page(page@, r.unwrap()),
{
    if page.len() < PAGE_HEAD_LEN + OPEN_ORDERS_LEN + PAGE_TAIL_LEN {
        return None;
    }
    let b = page.as_slice();
    let base = PAGE_HEAD_LEN;
    let free_slot_bits = read_u128(b, base + FREE_SLOT_BITS_OFFSET);
    let is_bid_bits = read_u128(b, base + IS_BID_BITS_OFFSET);
    let mut orders: Vec<u128> = Vec::new();
    let mut client_order_ids: Vec<u64> = Vec::new();
    let mut i: usize = 0;
    while i < MAX_SLOTS
        invariant
            i <= MAX_SLOTS,
            b@ == page@,
            b@.len() >= PAGE_HEAD_LEN + OPEN_ORDERS_LEN + PAGE_TAIL_LEN,
            base == PAGE_HEAD_LEN,
            orders@.len() == i,
            client_order_ids@.len() == i,
            forall|j: int| 0 <= j < i ==> #[trigger] orders@[j] as nat == le_at(b@, base + ORDERS_OFFSET + 16 * j, 16),
            forall|j: int|
                0 <= j < i ==> #[trigger] client_order_ids@[j] as nat == le_at(
                    b@,
                    base + CLIENT_ORDER_IDS_OFFSET + 8 * j,
                    8,
                ),
        decreases MAX_SLOTS - i,
    {
        orders.push(read_u128(b, base + ORDERS_OFFSET + 16 * i));
        client_order_ids.push(read_u64(b, base + CLIENT_ORDER_IDS_OFFSET + 8 * i));
        i = i + 1;
    }
    Some(OpenOrders { free_slot_bits, is_bid_bits, orders, client_order_ids })
}

/// Keeps both sides of one market's orderbook up to date from cache updates.
pub struct OrderBookProvider {
    pub market: Pubkey,
    pub bids: Pubkey,
    pub asks: Pubkey,
    pub coin_lot_size: u64,
    pub pc_lot_size: u64,
    pub coin_decimals: u64,
    pub book: OrderBook,
}

impl OrderBookProvider {
    pub fn new(market: Pubkey, bids: Pubkey, asks: Pubkey, coin_lot_size: u64, pc_lot_size: u64, coin_decimals: u64) -> (r: Self)
        ensures
            r.market == market && r.bids == bids && r.asks == asks,
            r.coin_lot_size == coin_lot_size && r.pc_lot_size == pc_lot_size && r.coin_decimals == coin_decimals,
            r.book.market == market,
            r.book.bids@.len() == 0 && r.book.asks@.len() == 0,
    {
        OrderBookProvider { market, bids, asks, coin_lot_size, pc_lot_size, coin_decimals, book: OrderBook::new(market) }
    }

    /// Handles a notification that `key` changed: re-decodes the side that
    /// `key` is (bids before asks), leaving the other side as it was, and says
    /// whether the book changed. Other keys, and keys not yet cached, are ignored.
    pub fn process_updates(&mut self, key: &Pubkey, cache: &AccountsCache) -> (updated: bool)
        requires
            old(self).coin_lot_size > 0,
        ensures
            final(self).market == old(self).market && final(self).bids == old(self).bids && final(self).asks
                == old(self).asks,
            final(self).coin_lot_size == old(self).coin_lot_size && final(self).pc_lot_size == old(
                self,
            ).pc_lot_size && final(self).coin_decimals == old(self).coin_decimals,
            final(self).book.market == old(self).book.market,
            updated <==> ((*key == old(self).bids || *key == old(self).asks) && cache.view().contains_key(*key)),
            updated && *key == old(self).bids ==> final(self).book.bids@ == page_rows(
                cache.view()[*key].0,
                old(self).pc_lot_size,
                old(self).coin_lot_size,
                false,
            ) && final(self).book.asks == old(self).book.asks,
            updated && *key != old(self).bids ==> final(self).book.asks@ == page_rows(
                cache.view()[*key].0,
                old(self).pc_lot_size,
                old(self).coin_lot_size,
                true,
            ) && final(self).book.bids == old(self).book.bids,
            !updated ==> final(self).book == old(self).book,
    {
        let is_bids = pubkey_eq(key, &self.bids);
        let is_asks = pubkey_eq(key, &self.asks);
        if !is_bids && !is_asks {
            return false;
        }
        match cache.get(key) {
            None => false,
            Some(ai) => {
                let rows = decode_orderbook_side(&ai.account, self.pc_lot_size, self.coin_lot_size, !is_bids);
                if is_bids {
                    self.book.bids = rows;
                } else {
                    self.book.asks = rows;
                }
                true
            },
        }
    }
}

/// Decodes the open-orders record of our account from cache updates.
pub struct OpenOrdersProvider {
    pub open_orders_pubkey: Pubkey,
}

impl OpenOrdersProvider {
    pub fn new(open_orders_pubkey: Pubkey) -> (r: Self)
        ensures
            r.open_orders_pubkey == open_orders_pubkey,
    {
        OpenOrdersProvider { open_orders_pubkey }
    }

    /// The record to publish after `key` changed: present only for our key,
    /// cached, with a page long enough to hold a record.
    pub fn process_updates(&self, key: &Pubkey, cache: &AccountsCache) -> (r: Option<OpenOrders>)
        ensures
            r is Some <==> (*key == self.open_orders_pubkey && cache.view().contains_key(*key)
                && cache.view()[*key].0.len() >= PAGE_HEAD_LEN + OPEN_ORDERS_LEN + PAGE_TAIL_LEN),
            r is Some ==> open_orders_of_page(cache.view()[*key].0, r.unwrap()),
    {
        if !pubkey_eq(key, &self.open_orders_pubkey) {
            return None;
        }
        match cache.get(key) {
            None => None,
            Some(ai) => parse_open_orders(&ai.account),
        }
    }
}

#[verifier::external_type_specification]
#[verifier::external_body]
pub struct ExDecodeError(base64::DecodeError);

/// The bytes that a base64 text encodes, or `None` where the text is not valid base64.
pub uninterp spec fn base64_decoding(s: Seq<char>) -> Option<Seq<u8>>;

/// Relies on `base64::decode` (standard alphabet): the bytes that `s`
/// encodes, or an error where `s` is not valid base64; the outcome depends
/// on `s` alone.
#[verifier::external_body]
fn decode_base64(s: &String) -> (r: Result<Vec<u8>, base64::DecodeError>)
    ensures
        r is Ok <==> base64_decoding(s@) is Some,
        r is Ok ==> r->Ok_0@ == base64_decoding(s@).unwrap(),
{
    base64::decode(s)
}

/// How the endpoint encoded an account's bytes.
#[derive(Copy, Clone, Debug, PartialEq, Eq, Structural)]
pub enum AccountEncoding {
    Binary,
    Base58,
    Base64,
    JsonParsed,
    Base64Zstd,
}

/// An account's data as the endpoint returns it.
#[derive(Clone, Debug)]
pub enum AccountData {
    LegacyBinary(String),
    Json(String),
    Binary(String, AccountEncoding),
}

/// The raw bytes of an account returned as base64 text. Any other shape of
/// response, any other encoding, and text that is not valid base64 are errors.
pub fn get_account_info(data: &AccountData) -> (r: Result<Vec<u8>, MarketMakerError>)
    ensures
        match data {
            AccountData::Binary(s, AccountEncoding::Base64) => match base64_decoding(s@) {
                Some(bytes) => r is Ok && r->Ok_0@ == bytes,
                None => r == Err::<Vec<u8>, MarketMakerError>(MarketMakerError::AccountInfoDecoding),
            },
            AccountData::Binary(_, _) => r == Err::<Vec<u8>, MarketMakerError>(
                MarketMakerError::InvalidAccountDataEncoding,
            ),
            _ => r == Err::<Vec<u8>, MarketMakerError>(MarketMakerError::InvalidAccountResponseFormat),
        },
{
    match data {
        AccountData::Binary(s, enc) => {
            if *enc != AccountEncoding::Base64 {
                return Err(MarketMakerError::InvalidAccountDataEncoding);
            }
            match decode_base64(s) {
                Ok(bytes) => Ok(bytes),
                Err(_) => Err(MarketMakerError::AccountInfoDecoding),
            }
        },
        _ => Err(MarketMakerError::InvalidAccountResponseFormat),
    }
}

} // verus!
