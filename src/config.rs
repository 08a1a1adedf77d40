use vstd::prelude::*;
use crate::inventory_manager::InventoryManagerConfig;
use crate::order_manager::OrderManagerConfig;

verus! {

/// Endpoints of one cluster.
#[derive(Debug, Clone)]
pub struct ClusterConfig {
    pub rpc_url: String,
    pub pubsub_url: String,
}

#[derive(Debug, Clone)]
pub struct Clusters {
    pub devnet: ClusterConfig,
    pub mainnet: ClusterConfig,
}

#[derive(Debug, Clone)]
pub struct CypherTokenConfig {
    pub symbol: String,
    pub mint: String,
}

#[derive(Debug, Clone)]
pub struct CypherOracleConfig {
    pub symbol: String,
    pub address: String,
}

#[derive(Debug, Clone)]
pub struct CypherMarketConfig {
    pub name: String,
    pub base_symbol: String,
    pub quote_symbol: String,
    pub market_type: String,
    pub pair_base_symbol: String,
    pub pair_quote_symbol: String,
    pub address: String,
    pub base_decimals: u8,
    pub quote_decimals: u8,
    pub market_index: usize,
    pub bids: String,
    pub asks: String,
    pub event_queue: String,
}

#[derive(Debug, Clone)]
pub struct CypherGroupConfig {
    pub cluster: String,
    pub name: String,
    pub quote_symbol: String,
    pub address: String,
    pub program_id: String,
    pub serum_program_id: String,
    pub tokens: Vec<CypherTokenConfig>,
    pub oracles: Vec<CypherOracleConfig>,
    pub markets: Vec<CypherMarketConfig>,
}

/// Clusters and groups the market maker can run against.
#[derive(Debug, Clone)]
pub struct CypherConfig {
    pub clusters: Clusters,
    pub groups: Vec<CypherGroupConfig>,
}

#[derive(Debug, Clone)]
pub struct MarketConfig {
    pub name: String,
}

/// The operator's configuration of one market maker.
#[derive(Debug, Clone)]
pub struct MarketMakerConfig {
    pub wallet: String,
    pub group: String,
    pub inventory_manager_config: InventoryManagerConfig,
    pub order_manager_config: OrderManagerConfig,
    pub market: MarketConfig,
}

impl CypherConfig {
    /// The endpoints of "mainnet" for that name, of devnet for any other.
    pub fn get_config_for_cluster(&self, cluster: &str) -> (r: &ClusterConfig)
        ensures
            cluster@ == "mainnet"@ ==> r == &self.clusters.mainnet,
            cluster@ != "mainnet"@ ==> r == &self.clusters.devnet,
    {
        let name = cluster.to_owned();
        let mainnet = "mainnet".to_owned();
        if name == mainnet {
            &self.clusters.mainnet
        } else {
            &self.clusters.devnet
        }
    }

    /// The first group with the given name.
    pub fn get_group(&self, name: &str) -> (r: Option<&CypherGroupConfig>)
        ensures
            r is None <==> forall|i: int| 0 <= i < self.groups@.len() ==> (#[trigger] self.groups@[i]).name@ != name@,
            r is Some ==> exists|i: int|
                0 <= i < self.groups@.len() && self.groups@[i] == *r.unwrap() && (#[trigger] self.groups@[i]).name@
                    == name@ && forall|j: int| 0 <= j < i ==> (#[trigger] self.groups@[j]).name@ != name@,
    {
        let wanted = name.to_owned();
        let mut i: usize = 0;
        while i < self.groups.len()
            invariant
                i <= self.groups@.len(),
                wanted@ == name@,
                forall|j: int| 0 <= j < i ==> (#[trigger] self.groups@[j]).name@ != name@,
            decreases self.groups@.len() - i,
        {
            if self.groups[i].name == wanted {
                return Some(&self.groups[i]);
            }
            i = i + 1;
        }
        None
    }
}

impl CypherGroupConfig {
    /// The first market with the given name.
    pub fn get_market(&self, market: &str) -> (r: Option<&CypherMarketConfig>)
        ensures
            r is None <==> forall|i: int| 0 <= i < self.markets@.len() ==> (#[trigger] self.markets@[i]).name@ != market@,
            r is Some ==> exists|i: int|
                0 <= i < self.markets@.len() && self.markets@[i] == *r.unwrap() && (#[trigger] self.markets@[i]).name@
                    == market@ && forall|j: int| 0 <= j < i ==> (#[trigger] self.markets@[j]).name@ != market@,
    {
        let wanted = market.to_owned();
        let mut i: usize = 0;
        while i < self.markets.len()
            invariant
                i <= self.markets@.len(),
                wanted@ == market@,
                forall|j: int| 0 <= j < i ==> (#[trigger] self.markets@[j]).name@ != market@,
            decreases self.markets@.len() - i,
        {
            if self.markets[i].name == wanted {
                return Some(&self.markets[i]);
            }
            i = i + 1;
        }
        None
    }
}

} // verus!
