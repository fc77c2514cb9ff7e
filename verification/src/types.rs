use vstd::prelude::*;

verus! {

/// The networks whose wallets can be looked up.
#[allow(non_camel_case_types)]
#[derive(Clone, Copy, Debug, PartialEq, Eq, Structural)]
pub enum Chain {
    BTC,
    ETH,
    USDT_TRON,
    USDT_ETH,
    SOL,
    BNB,
}

/// The label under which a chain is shown and exported.
pub open spec fn chain_label(c: Chain) -> Seq<char> {
    match c {
        Chain::BTC => "BTC"@,
        Chain::ETH => "ETH"@,
        Chain::USDT_TRON => "USDT (Tron)"@,
        Chain::USDT_ETH => "USDT (ETH)"@,
        Chain::SOL => "SOL"@,
        Chain::BNB => "BNB"@,
    }
}

impl Chain {
    /// The text the chain is displayed as.
    pub fn label(&self) -> (s: String)
        ensures
            s@ == chain_label(*self),
    {
        match self {
            Chain::BTC => String::from_str("BTC"),
            Chain::ETH => String::from_str("ETH"),
            Chain::USDT_TRON => String::from_str("USDT (Tron)"),
            Chain::USDT_ETH => String::from_str("USDT (ETH)"),
            Chain::SOL => String::from_str("SOL"),
            Chain::BNB => String::from_str("BNB"),
        }
    }
}

/// One transfer of a wallet. `date` is a UNIX timestamp in seconds, `None`
/// while the transfer is unconfirmed.
#[derive(Clone, Debug)]
pub struct Transaction {
    pub txid: String,
    pub date: Option<i64>,
    pub amount_satoshis: i64,
    pub amount_display: String,
    pub counterparty: Option<String>,
    pub chain: Chain,
}

/// What a lookup learnt of one wallet, as the analysis and the views read it.
#[derive(Clone, Debug)]
pub struct WalletInfo {
    pub address: String,
    pub chain: Chain,
    pub balance_display: String,
    pub tx_count: u64,
    pub first_seen: Option<i64>,
    pub last_seen: Option<i64>,
    pub transactions: Vec<Transaction>,
}

/// Two wallets of a batch that both dealt with the same outside address.
#[derive(Clone, Debug)]
pub struct LinkedPair {
    pub wallet_a: String,
    pub wallet_b: String,
    pub shared_counterparty: String,
}

/// The wallets of a batch lookup and the links found between them.
#[derive(Clone, Debug)]
pub struct BatchResult {
    pub wallets: Vec<WalletInfo>,
    pub linked_pairs: Vec<LinkedPair>,
}

} // verus!
