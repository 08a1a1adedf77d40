use vstd::prelude::*;

verus! {

/// Every failure the market maker surfaces.
#[derive(Debug, Clone, Copy, PartialEq, Eq, Structural)]
pub enum MarketMakerError {
    ConfigLoadError,
    ErrorFetchingDexMarket,
    ErrorFetchingCypherGroup,
    ErrorFetchingCypherAccount,
    ErrorFetchingOpenOrders,
    ErrorCreatingCypherAccount,
    ErrorCreatingOpenOrders,
    ErrorDepositing,
    ErrorSubmittingOrders,
    ChannelSendError,
    JoiningTaskError,
    InitServicesError,
    RpcClientInitError,
    PubsubClientInitError,
    KeypairFileOpenError,
    KeypairFileReadError,
    KeypairLoadError,
    ShutdownError,
    InvalidAccountResponseFormat,
    InvalidAccountDataEncoding,
    AccountInfoDecoding,
}

/// Failure of the open-orders provider.
#[derive(Debug, Clone, Copy, PartialEq, Eq, Structural)]
pub enum OpenOrdersProviderError {
    ChannelSendError,
}

} // verus!
