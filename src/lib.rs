//! Decision logic of an automated market maker for an on-chain orderbook:
//! orderbook page decoding, inventory-driven quoting, order reconciliation,
//! the accounts cache and the planning around transaction submission.
pub mod bytes;
pub mod serum_slab;
pub mod inventory_manager;
pub mod order_manager;
pub mod accounts_cache;
pub mod providers;
pub mod fast_tx_builder;
pub mod worker;
pub mod account_info_service;
pub mod chain_meta_service;
pub mod config;
pub mod error;
pub mod math;
