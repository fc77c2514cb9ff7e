use chaintrack::analysis::build_batch_result;
use chaintrack::types::{BatchResult, Chain, Transaction, WalletInfo};
use chaintrack::ui::{App, AppMessage, Command, KeyCode, KeyPress, Screen};

fn key(code: KeyCode) -> KeyPress {
    KeyPress { code, ctrl: false }
}

fn typed(app: &mut App, text: &str) {
    for c in text.chars() {
        let k = key(KeyCode::Char(c));
        assert!(!app.would_panic(k));
        app.handle_key(k);
    }
}

fn app() -> App {
    App::new("ekey".to_string(), String::new())
}

fn sample_wallet(n: usize) -> WalletInfo {
    WalletInfo {
        address: "1abc".to_string(),
        chain: Chain::BTC,
        balance_display: "0.00000000 BTC".to_string(),
        tx_count: n as u64,
        first_seen: None,
        last_seen: None,
        transactions: (0..n)
            .map(|i| Transaction {
                txid: format!("t{}", i),
                date: None,
                amount_satoshis: 0,
                amount_display: String::new(),
                counterparty: None,
                chain: Chain::BTC,
            })
            .collect(),
    }
}

#[test]
fn new_app_starts_on_menu() {
    let a = app();
    assert_eq!(a.screen, Screen::MainMenu);
    assert_eq!(a.menu_selected, Some(0));
    assert_eq!(a.menu_items.len(), 9);
    assert_eq!(a.menu_items[8], "  ×  Quit");
    assert_eq!(a.status_msg, "Welcome to ChainTrack — Use ↑↓ to navigate, Enter to select");
    assert!(!a.should_quit);
}

#[test]
fn menu_wraps_around() {
    let mut a = app();
    a.handle_key(key(KeyCode::Up));
    assert_eq!(a.menu_selected, Some(8));
    a.handle_key(key(KeyCode::Char('j')));
    assert_eq!(a.menu_selected, Some(0));
    a.handle_key(key(KeyCode::Down));
    assert_eq!(a.menu_selected, Some(1));
    a.handle_key(key(KeyCode::Char('k')));
    assert_eq!(a.menu_selected, Some(0));
}

#[test]
fn btc_lookup_flow() {
    let mut a = app();
    let cmd = a.handle_key(key(KeyCode::Enter));
    assert!(matches!(cmd, Command::Nothing));
    assert_eq!(a.screen, Screen::BtcInput);
    assert_eq!(a.status_msg, "Enter BTC wallet address and press Enter");
    typed(&mut a, "  1abc ");
    assert_eq!(a.input_cursor, 7);
    match a.handle_key(key(KeyCode::Enter)) {
        Command::FetchWallet { chain, address } => {
            assert_eq!(chain, Chain::BTC);
            assert_eq!(address, "1abc");
        }
        _ => panic!("expected a fetch"),
    }
    assert_eq!(a.screen, Screen::Loading);
    assert_eq!(a.status_msg, "Fetching BTC data for 1abc…");
    // input is ignored while loading
    assert!(matches!(a.handle_key(key(KeyCode::Esc)), Command::Nothing));
    assert_eq!(a.screen, Screen::Loading);
}

#[test]
fn missing_bsc_key_refuses_bnb() {
    let mut a = app();
    for _ in 0..5 {
        a.handle_key(key(KeyCode::Down));
    }
    a.handle_key(key(KeyCode::Enter));
    assert_eq!(a.screen, Screen::Error);
    assert!(a.error_msg.starts_with("BSCSCAN_KEY environment variable is not set."));
    a.handle_key(key(KeyCode::Enter));
    assert_eq!(a.screen, Screen::MainMenu);
}

#[test]
fn eth_key_present_opens_input() {
    let mut a = app();
    a.handle_key(key(KeyCode::Down));
    a.handle_key(key(KeyCode::Enter));
    assert_eq!(a.screen, Screen::EthInput);
    typed(&mut a, "0xab");
    match a.handle_key(key(KeyCode::Enter)) {
        Command::FetchWallet { chain, address } => {
            assert_eq!(chain, Chain::ETH);
            assert_eq!(address, "0xab");
        }
        _ => panic!("expected a fetch"),
    }
    assert_eq!(a.status_msg, "Fetching ETH data for 0xab…");
}

#[test]
fn editing_keys() {
    let mut a = app();
    a.handle_key(key(KeyCode::Enter));
    typed(&mut a, "abc");
    a.handle_key(key(KeyCode::Left));
    a.handle_key(key(KeyCode::Backspace));
    assert_eq!(a.input_buffer.iter().collect::<String>(), "ac");
    assert_eq!(a.input_cursor, 1);
    a.handle_key(key(KeyCode::Home));
    a.handle_key(key(KeyCode::Delete));
    assert_eq!(a.input_buffer.iter().collect::<String>(), "c");
    a.handle_key(key(KeyCode::End));
    assert_eq!(a.input_cursor, 1);
    a.handle_key(key(KeyCode::Right));
    assert_eq!(a.input_cursor, 1);
    typed(&mut a, "d");
    assert_eq!(a.input_buffer.iter().collect::<String>(), "cd");
    a.handle_key(key(KeyCode::Esc));
    assert_eq!(a.screen, Screen::MainMenu);
}

#[test]
fn typing_then_backspace_restores_text() {
    let mut a = app();
    a.handle_key(key(KeyCode::Enter));
    typed(&mut a, "xy");
    a.handle_key(key(KeyCode::Left));
    typed(&mut a, "z");
    a.handle_key(key(KeyCode::Backspace));
    assert_eq!(a.input_buffer.iter().collect::<String>(), "xy");
    assert_eq!(a.input_cursor, 1);
}

#[test]
fn multibyte_char_leaves_cursor_inside_it() {
    let mut a = app();
    a.handle_key(key(KeyCode::Enter));
    typed(&mut a, "é");
    // the cursor counts one per key, so it now sits inside the two-byte character
    assert_eq!(a.input_cursor, 1);
    assert!(a.would_panic(key(KeyCode::Char('x'))));
    assert!(!a.would_panic(key(KeyCode::Backspace)));
    a.handle_key(key(KeyCode::Backspace));
    assert!(a.input_buffer.is_empty());
    assert_eq!(a.input_cursor, 0);
}

#[test]
fn batch_input_collects_addresses() {
    let mut a = app();
    for _ in 0..6 {
        a.handle_key(key(KeyCode::Down));
    }
    a.handle_key(key(KeyCode::Enter));
    assert_eq!(a.screen, Screen::BatchInput);
    // Enter on an empty batch does nothing
    a.handle_key(key(KeyCode::Enter));
    assert!(a.input_buffer.is_empty());
    typed(&mut a, "1abc");
    a.handle_key(key(KeyCode::Enter));
    typed(&mut a, "  ");
    a.handle_key(key(KeyCode::Enter));
    typed(&mut a, " 0xdef ");
    assert_eq!(a.input_buffer.iter().collect::<String>(), "1abc\n  \n 0xdef ");
    // plain `d` is typed
    typed(&mut a, "d");
    a.handle_key(key(KeyCode::Backspace));
    match a.handle_key(KeyPress { code: KeyCode::Char('d'), ctrl: true }) {
        Command::FetchBatch { addresses } => {
            assert_eq!(addresses, vec!["1abc".to_string(), "0xdef".to_string()]);
        }
        _ => panic!("expected a batch"),
    }
    assert_eq!(a.screen, Screen::Loading);
    assert_eq!(a.status_msg, "Fetching 2 address list…");
}

#[test]
fn ctrl_d_outside_batch_does_nothing() {
    let mut a = app();
    a.handle_key(key(KeyCode::Enter));
    typed(&mut a, "ab");
    assert!(matches!(a.handle_key(KeyPress { code: KeyCode::Char('d'), ctrl: true }), Command::Nothing));
    assert_eq!(a.input_buffer.iter().collect::<String>(), "ab");
}

#[test]
fn export_without_results_is_an_error() {
    let mut a = app();
    for _ in 0..7 {
        a.handle_key(key(KeyCode::Down));
    }
    assert!(matches!(a.handle_key(key(KeyCode::Enter)), Command::Nothing));
    assert_eq!(a.screen, Screen::Error);
    assert_eq!(a.error_msg, "No results to export yet. Run a lookup first.");
}

#[test]
fn wallet_message_then_scrolling() {
    let mut a = app();
    a.handle_message(AppMessage::WalletLoaded(sample_wallet(15)));
    assert_eq!(a.screen, Screen::WalletResult);
    assert_eq!(a.status_msg, "Loaded 1abc — 15 txs");
    assert_eq!(a.table_selected, Some(0));
    a.handle_key(key(KeyCode::Down));
    assert_eq!(a.scroll_offset, 1);
    a.handle_key(key(KeyCode::PageDown));
    assert_eq!(a.scroll_offset, 11);
    a.handle_key(key(KeyCode::PageDown));
    assert_eq!(a.scroll_offset, 14);
    assert_eq!(a.table_selected, Some(14));
    a.handle_key(key(KeyCode::Char('j')));
    assert_eq!(a.scroll_offset, 14);
    a.handle_key(key(KeyCode::PageUp));
    assert_eq!(a.scroll_offset, 4);
    a.handle_key(key(KeyCode::PageUp));
    assert_eq!(a.scroll_offset, 0);
    a.handle_key(key(KeyCode::Char('q')));
    assert_eq!(a.screen, Screen::MainMenu);
    // with a wallet loaded, export is asked for
    for _ in 0..7 {
        a.handle_key(key(KeyCode::Down));
    }
    assert!(matches!(a.handle_key(key(KeyCode::Enter)), Command::ExportWallet));
}

#[test]
fn batch_message_counts_rows_of_all_wallets() {
    let mut a = app();
    let batch: BatchResult = build_batch_result(vec![sample_wallet(2), sample_wallet(1)]);
    a.handle_message(AppMessage::BatchLoaded(batch));
    assert_eq!(a.screen, Screen::BatchResult);
    assert_eq!(a.status_msg, "Batch complete — 2 wallets, 0 linked pairs");
    a.handle_key(key(KeyCode::PageDown));
    assert_eq!(a.scroll_offset, 2);
    a.handle_key(key(KeyCode::Esc));
    for _ in 0..7 {
        a.handle_key(key(KeyCode::Down));
    }
    assert!(matches!(a.handle_key(key(KeyCode::Enter)), Command::ExportBatch));
}

#[test]
fn error_and_export_messages() {
    let mut a = app();
    a.handle_message(AppMessage::FetchError("boom".to_string()));
    assert_eq!(a.screen, Screen::Error);
    assert_eq!(a.error_msg, "boom");
    a.handle_key(key(KeyCode::Esc));
    assert_eq!(a.screen, Screen::MainMenu);
    a.handle_message(AppMessage::ExportDone("done".to_string()));
    assert_eq!(a.screen, Screen::ExportConfirm);
    assert_eq!(a.last_export_msg, Some("done".to_string()));
    assert_eq!(a.status_msg, "done");
}

#[test]
fn quit_from_menu() {
    let mut a = app();
    a.handle_key(key(KeyCode::Char('q')));
    assert!(a.should_quit);
    let mut b = app();
    b.handle_key(key(KeyCode::Up));
    b.handle_key(key(KeyCode::Enter));
    assert!(b.should_quit);
}

#[test]
fn row_down_then_up_returns() {
    let mut a = app();
    a.handle_message(AppMessage::WalletLoaded(sample_wallet(3)));
    a.handle_key(key(KeyCode::Down));
    a.handle_key(key(KeyCode::Down));
    assert_eq!(a.scroll_offset, 2);
    a.handle_key(key(KeyCode::Down));
    a.handle_key(key(KeyCode::Up));
    assert_eq!(a.scroll_offset, 1);
    a.handle_key(key(KeyCode::Down));
    assert_eq!(a.scroll_offset, 2);
    a.handle_key(key(KeyCode::Up));
    a.handle_key(key(KeyCode::Down));
    assert_eq!(a.scroll_offset, 2);
    assert_eq!(a.screen, Screen::WalletResult);
}
