use mm_client::account_info_service::{batch_keys, update_infos, BATCH_SIZE};
use mm_client::accounts_cache::{AccountState, AccountsCache};
use mm_client::chain_meta_service::ChainMetaService;
use mm_client::config::{
    ClusterConfig, Clusters, CypherConfig, CypherGroupConfig, CypherMarketConfig,
};
use mm_client::error::MarketMakerError;
use mm_client::fast_tx_builder::{FastTxnBuilder, TxnPacker, MAX_MESSAGE_LEN};
use mm_client::order_manager::{pubkey_eq, OrderInstruction, Side};
use mm_client::providers::{
    get_account_info, parse_open_orders, AccountData, AccountEncoding, OpenOrdersProvider, OrderBookProvider,
    OPEN_ORDERS_LEN, PAGE_HEAD_LEN, PAGE_TAIL_LEN,
};

fn key(b: u8) -> [u8; 32] {
    [b; 32]
}

#[test]
fn cache_get_sees_the_latest_insert() {
    let mut cache = AccountsCache::new();
    assert!(cache.get(&key(1)).is_none());
    cache.insert(key(1), AccountState { account: vec![1, 2, 3], slot: 10 });
    let got = cache.get(&key(1)).unwrap();
    assert_eq!(got.account, vec![1, 2, 3]);
    assert!(got.slot >= 10);
    cache.insert(key(1), AccountState { account: vec![4], slot: 12 });
    let got = cache.get(&key(1)).unwrap();
    assert_eq!(got.account, vec![4]);
    assert_eq!(got.slot, 12);
    assert!(cache.get(&key(2)).is_none());
    assert!(AccountsCache::default().get(&key(1)).is_none());
}

#[test]
fn ingest_writes_returned_accounts_and_skips_missing_ones() {
    let mut cache = AccountsCache::new();
    cache.insert(key(2), AccountState { account: vec![9], slot: 1 });
    let keys = vec![key(1), key(2), key(3)];
    update_infos(&mut cache, &keys, vec![Some(vec![1]), None, Some(vec![3, 3])], 50);
    assert_eq!(cache.get(&key(1)).unwrap().account, vec![1]);
    assert_eq!(cache.get(&key(1)).unwrap().slot, 50);
    assert_eq!(cache.get(&key(2)).unwrap().slot, 1);
    assert_eq!(cache.get(&key(3)).unwrap().account, vec![3, 3]);
}

#[test]
fn keys_are_fetched_in_batches_of_one_hundred() {
    assert_eq!(BATCH_SIZE, 100);
    assert!(batch_keys(&Vec::new()).is_empty());
    let keys: Vec<[u8; 32]> = (0..250u32).map(|i| key((i % 256) as u8)).collect();
    let batches = batch_keys(&keys);
    assert_eq!(batches.iter().map(|b| b.len()).collect::<Vec<_>>(), vec![100, 100, 50]);
    assert_eq!(batches.concat(), keys);
    assert_eq!(batch_keys(&keys[..100].to_vec()).len(), 1);
    assert_eq!(batch_keys(&keys[..101].to_vec()).len(), 2);
}

#[test]
fn chain_meta_is_not_ready_until_a_hash_arrives() {
    let mut cms = ChainMetaService::new();
    assert!(!cms.nonce_ready());
    let mut hash = [0u8; 32];
    hash[31] = 1;
    cms.update_chain_meta(hash, 77);
    assert!(cms.nonce_ready());
    assert_eq!(cms.get_latest_blockhash(), hash);
    assert_eq!(cms.slot, 77);
}

fn cancel(n: u128) -> OrderInstruction {
    OrderInstruction::Cancel { order_id: n, side: Side::Ask }
}

#[test]
fn packer_flushes_when_the_message_grows_too_large() {
    let mut packer = TxnPacker::new();
    assert!(packer.offer(cancel(1), 300).is_none());
    assert!(packer.offer(cancel(2), 600).is_none());
    let full = packer.offer(cancel(3), MAX_MESSAGE_LEN + 1).unwrap();
    assert_eq!(full, vec![cancel(1), cancel(2)]);
    assert_eq!(packer.builder.ixs, vec![cancel(3)]);
    assert!(packer.offer(cancel(4), MAX_MESSAGE_LEN).is_none());
    assert_eq!(packer.finish().unwrap(), vec![cancel(3), cancel(4)]);
    assert!(packer.finish().is_none());
}

#[test]
fn a_single_oversized_instruction_is_still_sent() {
    let mut packer = TxnPacker::new();
    assert!(packer.offer(cancel(1), 5000).is_none());
    assert_eq!(packer.finish().unwrap(), vec![cancel(1)]);
}

#[test]
fn builder_accumulates_and_clears() {
    let mut b = FastTxnBuilder::new();
    b.add(cancel(1));
    b.add(cancel(2));
    assert_eq!(b.len(), 2);
    b.clear();
    assert_eq!(b.len(), 0);
}

fn open_orders_page(slot: usize, order_id: u128, coid: u64, bid: bool) -> Vec<u8> {
    let mut page = vec![0u8; PAGE_HEAD_LEN + OPEN_ORDERS_LEN + PAGE_TAIL_LEN];
    let base = PAGE_HEAD_LEN;
    let free: u128 = !(1u128 << slot);
    let is_bid: u128 = if bid { 1u128 << slot } else { 0 };
    page[base + 104..base + 120].copy_from_slice(&free.to_le_bytes());
    page[base + 120..base + 136].copy_from_slice(&is_bid.to_le_bytes());
    page[base + 136 + 16 * slot..base + 152 + 16 * slot].copy_from_slice(&order_id.to_le_bytes());
    page[base + 2184 + 8 * slot..base + 2192 + 8 * slot].copy_from_slice(&coid.to_le_bytes());
    page
}

#[test]
fn open_orders_page_is_decoded() {
    let page = open_orders_page(7, (99u128 << 64) | 5, 42, true);
    let oo = parse_open_orders(&page).unwrap();
    assert_eq!(oo.slot_side(7), Some(Side::Bid));
    assert_eq!(oo.slot_side(8), None);
    assert_eq!(oo.orders[7], (99u128 << 64) | 5);
    assert_eq!(oo.client_order_ids[7], 42);
    assert!(parse_open_orders(&page[..page.len() - 1].to_vec()).is_none());
}

#[test]
fn open_orders_provider_filters_by_key() {
    let mut cache = AccountsCache::new();
    cache.insert(key(5), AccountState { account: open_orders_page(0, 1u128 << 64, 1, false), slot: 3 });
    let provider = OpenOrdersProvider::new(key(5));
    assert!(provider.process_updates(&key(5), &cache).is_some());
    assert!(provider.process_updates(&key(6), &cache).is_none());
    let other = OpenOrdersProvider::new(key(6));
    assert!(other.process_updates(&key(6), &cache).is_none());
}

fn side_page(price: u64) -> Vec<u8> {
    let mut page = vec![0u8; 13];
    page.extend_from_slice(&1u64.to_le_bytes());
    page.extend_from_slice(&0u64.to_le_bytes());
    page.extend_from_slice(&0u32.to_le_bytes());
    page.extend_from_slice(&0u32.to_le_bytes());
    page.extend_from_slice(&1u64.to_le_bytes());
    page.extend_from_slice(&2u32.to_le_bytes());
    page.extend_from_slice(&[0u8; 4]);
    page.extend_from_slice(&(((price as u128) << 64) | 1).to_le_bytes());
    page.extend_from_slice(&[0u8; 32]);
    page.extend_from_slice(&10u64.to_le_bytes());
    page.extend_from_slice(&1u64.to_le_bytes());
    page.extend_from_slice(&[0u8; 7]);
    page
}

#[test]
fn orderbook_provider_updates_one_side_at_a_time() {
    let mut cache = AccountsCache::new();
    let mut provider = OrderBookProvider::new(key(1), key(2), key(3), 1, 1, 6);
    cache.insert(key(2), AccountState { account: side_page(99), slot: 100 });
    assert!(provider.process_updates(&key(2), &cache));
    assert_eq!(provider.book.bids.len(), 1);
    assert!(provider.book.asks.is_empty());
    cache.insert(key(3), AccountState { account: side_page(101), slot: 105 });
    assert!(provider.process_updates(&key(3), &cache));
    assert_eq!(provider.book.bids[0].price, 99);
    assert_eq!(provider.book.asks[0].price, 101);
    assert!(!provider.process_updates(&key(4), &cache));
    let mut fresh = OrderBookProvider::new(key(1), key(2), key(7), 1, 1, 6);
    assert!(!fresh.process_updates(&key(7), &cache));
}

#[test]
fn account_data_must_be_base64() {
    let ok = get_account_info(&AccountData::Binary("Zm9v".to_string(), AccountEncoding::Base64)).unwrap();
    assert_eq!(ok, b"foo".to_vec());
    assert_eq!(
        get_account_info(&AccountData::Binary("Zm9v".to_string(), AccountEncoding::Base58)),
        Err(MarketMakerError::InvalidAccountDataEncoding)
    );
    assert_eq!(
        get_account_info(&AccountData::Binary("@@".to_string(), AccountEncoding::Base64)),
        Err(MarketMakerError::AccountInfoDecoding)
    );
    assert_eq!(
        get_account_info(&AccountData::LegacyBinary("Zm9v".to_string())),
        Err(MarketMakerError::InvalidAccountResponseFormat)
    );
}

#[test]
fn pubkeys_compare_by_bytes() {
    assert!(pubkey_eq(&key(1), &key(1)));
    let mut k = key(1);
    k[31] = 2;
    assert!(!pubkey_eq(&key(1), &k));
}

fn cluster(url: &str) -> ClusterConfig {
    ClusterConfig { rpc_url: url.to_string(), pubsub_url: format!("{}/ws", url) }
}

fn market(name: &str, index: usize) -> CypherMarketConfig {
    CypherMarketConfig {
        name: name.to_string(),
        base_symbol: String::new(),
        quote_symbol: String::new(),
        market_type: String::new(),
        pair_base_symbol: String::new(),
        pair_quote_symbol: String::new(),
        address: String::new(),
        base_decimals: 9,
        quote_decimals: 6,
        market_index: index,
        bids: String::new(),
        asks: String::new(),
        event_queue: String::new(),
    }
}

fn group(name: &str, markets: Vec<CypherMarketConfig>) -> CypherGroupConfig {
    CypherGroupConfig {
        cluster: "devnet".to_string(),
        name: name.to_string(),
        quote_symbol: "USDC".to_string(),
        address: String::new(),
        program_id: String::new(),
        serum_program_id: String::new(),
        tokens: Vec::new(),
        oracles: Vec::new(),
        markets,
    }
}

#[test]
fn config_lookups() {
    let cfg = CypherConfig {
        clusters: Clusters { devnet: cluster("http://dev"), mainnet: cluster("http://main") },
        groups: vec![group("devnet", vec![market("SOL", 1), market("BTC", 2), market("SOL", 3)]), group("mainnet", vec![])],
    };
    assert_eq!(cfg.get_config_for_cluster("mainnet").rpc_url, "http://main");
    assert_eq!(cfg.get_config_for_cluster("devnet").rpc_url, "http://dev");
    assert_eq!(cfg.get_config_for_cluster("").rpc_url, "http://dev");
    assert_eq!(cfg.get_config_for_cluster("other").pubsub_url, "http://dev/ws");
    let g = cfg.get_group("devnet").unwrap();
    assert_eq!(g.get_market("SOL").unwrap().market_index, 1);
    assert_eq!(g.get_market("BTC").unwrap().market_index, 2);
    assert!(g.get_market("ETH").is_none());
    assert!(cfg.get_group("testnet").is_none());
    assert!(cfg.get_group("mainnet").unwrap().markets.is_empty());
}
