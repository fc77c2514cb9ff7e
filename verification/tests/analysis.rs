use chaintrack::analysis::{build_batch_result, detect_links};
use chaintrack::types::{Chain, Transaction, WalletInfo};

fn tx(id: &str, cp: Option<&str>) -> Transaction {
    Transaction {
        txid: id.to_string(),
        date: None,
        amount_satoshis: 0,
        amount_display: String::new(),
        counterparty: cp.map(|s| s.to_string()),
        chain: Chain::BTC,
    }
}

fn wallet(addr: &str, cps: &[Option<&str>]) -> WalletInfo {
    WalletInfo {
        address: addr.to_string(),
        chain: Chain::BTC,
        balance_display: String::new(),
        tx_count: cps.len() as u64,
        first_seen: None,
        last_seen: None,
        transactions: cps.iter().enumerate().map(|(i, c)| tx(&format!("t{}", i), *c)).collect(),
    }
}

#[test]
fn shared_counterparty_links_two_wallets() {
    let ws = vec![
        wallet("bbb", &[Some("X"), Some("Y")]),
        wallet("aaa", &[Some("X")]),
        wallet("ccc", &[Some("Z"), None]),
    ];
    let pairs = detect_links(&ws);
    assert_eq!(pairs.len(), 1);
    assert_eq!(pairs[0].wallet_a, "aaa");
    assert_eq!(pairs[0].wallet_b, "bbb");
    assert_eq!(pairs[0].shared_counterparty, "X");
}

#[test]
fn batch_wallets_are_not_counterparties() {
    let ws = vec![wallet("aaa", &[Some("bbb")]), wallet("bbb", &[Some("aaa")]), wallet("ccc", &[Some("aaa")])];
    assert!(detect_links(&ws).is_empty());
}

#[test]
fn each_pair_reported_once() {
    let ws = vec![
        wallet("w1", &[Some("X"), Some("Y"), Some("X")]),
        wallet("w2", &[Some("Y"), Some("X")]),
    ];
    let pairs = detect_links(&ws);
    assert_eq!(pairs.len(), 1);
    assert_eq!(pairs[0].wallet_a, "w1");
    assert_eq!(pairs[0].wallet_b, "w2");
}

#[test]
fn same_wallet_twice_is_not_a_link() {
    let ws = vec![wallet("w1", &[Some("X")]), wallet("w1", &[Some("X")])];
    assert!(detect_links(&ws).is_empty());
}

#[test]
fn three_wallets_three_pairs() {
    let ws = vec![wallet("c", &[Some("H")]), wallet("a", &[Some("H")]), wallet("b", &[Some("H")])];
    let mut pairs: Vec<(String, String)> =
        detect_links(&ws).into_iter().map(|p| (p.wallet_a, p.wallet_b)).collect();
    pairs.sort();
    assert_eq!(
        pairs,
        vec![
            ("a".to_string(), "b".to_string()),
            ("a".to_string(), "c".to_string()),
            ("b".to_string(), "c".to_string())
        ]
    );
}

#[test]
fn byte_order_decides_which_wallet_is_first() {
    // 'Z' (0x5A) sorts before 'a' (0x61)
    let ws = vec![wallet("abc", &[Some("X")]), wallet("Zed", &[Some("X")])];
    let pairs = detect_links(&ws);
    assert_eq!(pairs.len(), 1);
    assert_eq!(pairs[0].wallet_a, "Zed");
    assert_eq!(pairs[0].wallet_b, "abc");
}

#[test]
fn batch_result_keeps_wallets() {
    let ws = vec![wallet("a", &[Some("X")]), wallet("b", &[Some("X")])];
    let batch = build_batch_result(ws);
    assert_eq!(batch.wallets.len(), 2);
    assert_eq!(batch.wallets[0].address, "a");
    assert_eq!(batch.wallets[1].address, "b");
    assert_eq!(batch.linked_pairs.len(), 1);
}

#[test]
fn empty_batch_has_no_links() {
    assert!(detect_links(&[]).is_empty());
}
