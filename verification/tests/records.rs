use chaintrack::batch::{describe_failure, export_finished, finish_batch, plan_batch, BatchStep};
use chaintrack::display::{abbreviate_txid, abbreviate_txid_head, byte_boundary, line_count, screen_name, truncate};
use chaintrack::export::csv_rows;
use chaintrack::text::{decimal_text, nonblank_lines_of, trimmed};
use chaintrack::types::{Chain, Transaction, WalletInfo};
use chaintrack::ui::{AppMessage, Screen};
use chaintrack::wallet::{
    account_transfer, assemble_wallet, btc_flow, btc_totals, grid_usdt_balance, parse_timestamp,
    seconds_from_millis, sort_by_date, tron_balance_source, tron_transfer, usdt_balance_entry,
    utc_date, BalanceSource, ChainStats, TokenBalance, TxOutput,
};

fn out(value: u64, addr: Option<&str>) -> TxOutput {
    TxOutput { value, address: addr.map(|s| s.to_string()) }
}

fn dated(id: &str, date: Option<i64>) -> Transaction {
    Transaction {
        txid: id.to_string(),
        date,
        amount_satoshis: 0,
        amount_display: format!("{} amt", id),
        counterparty: None,
        chain: Chain::ETH,
    }
}

#[test]
fn btc_flow_nets_received_against_spent() {
    let inputs = vec![Some(out(5000, Some("me"))), None, Some(out(700, Some("other")))];
    let outputs = vec![out(1200, Some("me")), out(300, None), out(3000, Some("them"))];
    let f = btc_flow("me", &inputs, &outputs);
    assert_eq!(f.net, 1200 - 5000);
    // the first output not paying us has no address, so there is no counterparty
    assert_eq!(f.counterparty, None);
    let g = btc_flow("me", &vec![], &vec![out(10, Some("me")), out(3000, Some("them"))]);
    assert_eq!(g.net, 10);
    assert_eq!(g.counterparty, Some("them".to_string()));
}

#[test]
fn btc_flow_wraps_like_i64() {
    let f = btc_flow("me", &vec![], &vec![out(u64::MAX, Some("me"))]);
    assert_eq!(f.net, -1);
}

#[test]
fn btc_totals_add_both_blocks() {
    let c = ChainStats { funded_txo_sum: 10, spent_txo_sum: 4, tx_count: 3 };
    let m = ChainStats { funded_txo_sum: 5, spent_txo_sum: 1, tx_count: 2 };
    let t = btc_totals(&c, &m);
    assert_eq!((t.received, t.sent, t.tx_count), (15, 5, 5));
}

#[test]
fn account_transfers_ignore_case() {
    let t = account_transfer("0xABC", "0xfrom", "0xabc");
    assert!(t.incoming);
    assert_eq!(t.counterparty, Some("0xfrom".to_string()));
    let u = account_transfer("0xABC", "0xabc", "0xdest");
    assert!(!u.incoming);
    assert_eq!(u.counterparty, Some("0xdest".to_string()));
}

#[test]
fn tron_transfers() {
    let t = tron_transfer("TMe", "TOther", Some("TMe".to_string()));
    assert!(t.incoming);
    assert_eq!(t.counterparty, Some("TOther".to_string()));
    let u = tron_transfer("TMe", "tme", None);
    assert!(!u.incoming);
    assert_eq!(u.counterparty, None);
}

#[test]
fn usdt_balances() {
    let id = "TR7NHqjeKQxGTCi8q8ZY4pL8otSzgjLj6t";
    let tokens = vec![
        TokenBalance { token_id: id.to_string(), balance: "1".to_string() },
        TokenBalance { token_id: "x".to_string(), balance: "2".to_string() },
        TokenBalance { token_id: id.to_string(), balance: "3".to_string() },
    ];
    assert_eq!(usdt_balance_entry(&tokens), Some("3".to_string()));
    assert_eq!(usdt_balance_entry(&vec![]), None);
    let maps = vec![
        vec![TokenBalance { token_id: id.to_string(), balance: "7".to_string() }],
        vec![TokenBalance { token_id: "y".to_string(), balance: "8".to_string() }],
    ];
    assert_eq!(grid_usdt_balance(&maps), Some("7".to_string()));
}

#[test]
fn tron_balance_sources() {
    assert_eq!(tron_balance_source(200), BalanceSource::AccountV2);
    assert_eq!(tron_balance_source(204), BalanceSource::AccountV2);
    assert_eq!(tron_balance_source(401), BalanceSource::TronGrid);
    assert_eq!(tron_balance_source(500), BalanceSource::Unavailable);
    assert_eq!(tron_balance_source(302), BalanceSource::Unavailable);
}

#[test]
fn timestamps_parse_like_i64() {
    assert_eq!(parse_timestamp("1700000000"), 1700000000);
    assert_eq!(parse_timestamp("-5"), -5);
    assert_eq!(parse_timestamp("+7"), 7);
    assert_eq!(parse_timestamp("abc"), 0);
    assert_eq!(parse_timestamp(""), 0);
    assert_eq!(parse_timestamp("-"), 0);
    assert_eq!(parse_timestamp(" 5"), 0);
    assert_eq!(parse_timestamp("9223372036854775807"), i64::MAX);
    assert_eq!(parse_timestamp("-9223372036854775808"), i64::MIN);
    assert_eq!(parse_timestamp("9223372036854775808"), 0);
    assert_eq!(parse_timestamp("99999999999999999999999"), 0);
    assert_eq!(parse_timestamp("000042"), 42);
}

#[test]
fn millis_round_toward_zero() {
    assert_eq!(seconds_from_millis(1999), 1);
    assert_eq!(seconds_from_millis(-1500), -1);
    assert_eq!(seconds_from_millis(i64::MIN), i64::MIN / 1000);
}

#[test]
fn dates_chrono_can_represent() {
    assert_eq!(utc_date(0), Some(0));
    assert_eq!(utc_date(1_700_000_000), Some(1_700_000_000));
    assert_eq!(utc_date(i64::MAX), None);
}

#[test]
fn sorting_is_stable_and_puts_pending_first() {
    let txs = vec![dated("a", Some(5)), dated("b", None), dated("c", Some(1)), dated("d", Some(5)), dated("e", None)];
    let ids: Vec<String> = sort_by_date(txs).into_iter().map(|t| t.txid).collect();
    assert_eq!(ids, vec!["b", "e", "c", "a", "d"]);
}

#[test]
fn assembled_wallet_has_first_and_last_seen() {
    let txs = vec![dated("a", Some(50)), dated("b", None), dated("c", Some(10))];
    let w = assemble_wallet("0xme", Chain::ETH, "1.0 ETH".to_string(), None, txs);
    assert_eq!(w.address, "0xme");
    assert_eq!(w.tx_count, 3);
    assert_eq!(w.first_seen, Some(10));
    assert_eq!(w.last_seen, Some(50));
    assert_eq!(w.transactions[0].txid, "b");
    let v = assemble_wallet("1me", Chain::BTC, String::new(), Some(99), vec![dated("x", None)]);
    assert_eq!(v.tx_count, 99);
    assert_eq!(v.first_seen, None);
    assert_eq!(v.last_seen, None);
}

#[test]
fn csv_has_header_and_one_row_per_transaction() {
    let mut t1 = dated("tx1", Some(1609459200));
    t1.counterparty = Some("peer".to_string());
    let t2 = dated("tx2", None);
    let w = WalletInfo {
        address: "0xme".to_string(),
        chain: Chain::USDT_TRON,
        balance_display: String::new(),
        tx_count: 2,
        first_seen: None,
        last_seen: None,
        transactions: vec![t1, t2],
    };
    let rows = csv_rows(&[w]);
    assert_eq!(rows.len(), 3);
    assert_eq!(rows[0], vec!["wallet", "chain", "txid", "date", "amount", "counterparty"]);
    assert_eq!(rows[1], vec!["0xme", "USDT (Tron)", "tx1", "2021-01-01 00:00:00 UTC", "tx1 amt", "peer"]);
    assert_eq!(rows[2], vec!["0xme", "USDT (Tron)", "tx2", "pending", "tx2 amt", "-"]);
    assert_eq!(csv_rows(&[]).len(), 1);
}

#[test]
fn batch_plan_follows_detection_and_keys() {
    let addrs = vec![
        "1abc".to_string(),
        "0x742d35Cc6634C0532925a3b844Bc454e4438f44e".to_string(),
        "nope".to_string(),
    ];
    let steps = plan_batch(&addrs, "key", "");
    assert_eq!(steps.len(), 4);
    match &steps[0] {
        BatchStep::Fetch { chain, address } => {
            assert_eq!(*chain, Chain::BTC);
            assert_eq!(address, "1abc");
        }
        _ => panic!(),
    }
    match &steps[1] {
        BatchStep::Fetch { chain, .. } => assert_eq!(*chain, Chain::ETH),
        _ => panic!(),
    }
    match &steps[2] {
        BatchStep::Fail { message } => {
            assert_eq!(message, "0x742d35Cc6634C0532925a3b844Bc454e4438f44e: BSCSCAN_KEY not set")
        }
        _ => panic!(),
    }
    match &steps[3] {
        BatchStep::Fail { message } => assert_eq!(message, "nope: unknown chain"),
        _ => panic!(),
    }
}

#[test]
fn batch_without_wallets_lists_failures() {
    let errors = vec!["a: unknown chain".to_string(), describe_failure("b", "timeout")];
    match finish_batch(vec![], &errors) {
        AppMessage::FetchError(e) => assert_eq!(e, "All lookups failed:\na: unknown chain\nb: timeout"),
        _ => panic!(),
    }
    match export_finished(Some("disk full".to_string())) {
        AppMessage::FetchError(e) => assert_eq!(e, "Export failed: disk full"),
        _ => panic!(),
    }
    match export_finished(None) {
        AppMessage::ExportDone(m) => assert_eq!(m, "Exported to output.json and output.csv in current directory"),
        _ => panic!(),
    }
}

#[test]
fn text_helpers() {
    assert_eq!(truncate("abcdef", 4), "abc…");
    assert_eq!(truncate("abcd", 4), "abcd");
    assert_eq!(truncate("abc", 0), "…");
    assert_eq!(abbreviate_txid("0123456789abcdefXYZ"), "01234567…bcdefXYZ");
    assert_eq!(abbreviate_txid("0123456789abcdef"), "0123456789abcdef");
    assert_eq!(abbreviate_txid_head("0123456789abcdef"), "0123456789ab…");
    assert_eq!(abbreviate_txid_head("short"), "short");
    assert!(byte_boundary("é", 0));
    assert!(!byte_boundary("é", 1));
    assert!(byte_boundary("é", 2));
    assert_eq!(line_count(&"a\nb".chars().collect()), 2);
    assert_eq!(line_count(&"a\n".chars().collect()), 1);
    assert_eq!(line_count(&"".chars().collect()), 0);
    assert_eq!(line_count(&"\n\n".chars().collect()), 2);
    assert_eq!(screen_name(Screen::Loading), "LOADING…");
    assert_eq!(Chain::USDT_ETH.label(), "USDT (ETH)");
    assert_eq!(decimal_text(0), "0");
    assert_eq!(decimal_text(1234567890), "1234567890");
    assert_eq!(trimmed("\u{3000} x y \t\n"), "x y");
    assert_eq!(
        nonblank_lines_of(&" a \r\n\n b\n  \n".chars().collect()),
        vec!["a".to_string(), "b".to_string()]
    );
}
