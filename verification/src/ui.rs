use vstd::prelude::*;

use crate::analysis::build_batch_result;
use crate::detect::{chains_of, detect_chains};
use crate::text::{
    byte_len, byte_len_at_most, byte_length, char_width, is_boundary_at, char_width_of, concat2, concat3,
    decimal, decimal_text, insert_at_byte, inserted_at, is_boundary, joined_lines, join_lines,
    lemma_boundary_split, lemma_inserted_len, lemma_removed_len, nonblank_lines,
    nonblank_lines_of, prefix_char_count, remove_at_byte, removed_at, texts_view, trim_range,
    trim_seq, bytes_before, text_between,
};
use crate::types::{BatchResult, Chain, WalletInfo};
use crate::wrappers::lowercase_text;

verus! {

/// The screens of the terminal interface.
#[derive(Clone, Copy, Debug, PartialEq, Eq, Structural)]
pub enum Screen {
    MainMenu,
    BtcInput,
    EthInput,
    UsdtTronInput,
    UsdtEthInput,
    SolInput,
    BnbInput,
    BatchInput,
    Loading,
    WalletResult,
    BatchResult,
    ExportConfirm,
    Error,
}

/// The keys the interface reacts to; every other key is `Other`.
#[derive(Clone, Copy, Debug, PartialEq, Eq, Structural)]
pub enum KeyCode {
    Up,
    Down,
    Left,
    Right,
    Enter,
    Esc,
    Backspace,
    Delete,
    Home,
    End,
    PageUp,
    PageDown,
    Char(char),
    Other,
}

/// A key press, with whether Control was held.
#[derive(Clone, Copy, Debug, PartialEq, Eq, Structural)]
pub struct KeyPress {
    pub code: KeyCode,
    pub ctrl: bool,
}

/// What a finished background task reports.
pub enum AppMessage {
    WalletLoaded(WalletInfo),
    BatchLoaded(BatchResult),
    FetchError(String),
    ExportDone(String),
}

/// Work the interface asks its host to start after a key press.
pub enum Command {
    Nothing,
    FetchWallet { chain: Chain, address: String },
    FetchBatch { addresses: Vec<String> },
    ExportBatch,
    ExportWallet,
}

/// The state of the interface.
pub struct App {
    pub should_quit: bool,
    pub screen: Screen,
    pub menu_selected: Option<usize>,
    pub menu_items: Vec<String>,
    pub input_buffer: Vec<char>,
    pub input_cursor: usize,
    pub current_wallet: Option<WalletInfo>,
    pub current_batch: Option<BatchResult>,
    pub table_selected: Option<usize>,
    pub scroll_offset: usize,
    pub status_msg: String,
    pub error_msg: String,
    pub eth_key: String,
    pub bsc_key: String,
    pub last_export_msg: Option<String>,
}

pub open spec fn welcome_text() -> Seq<char> {
    "Welcome to ChainTrack — Use ↑↓ to navigate, Enter to select"@
}

pub open spec fn menu_labels() -> Seq<Seq<char>> {
    seq![
        "  ₿  BTC Wallet Lookup"@,
        "  Ξ  ETH Wallet Lookup"@,
        "  ₮  USDT (Tron) Lookup"@,
        "  ♦  USDT (ETH) Lookup"@,
        "  ◎  SOL Wallet Lookup"@,
        "  ❖  BNB Wallet Lookup"@,
        "  ⋮  Batch Analysis"@,
        "  ↓  Export Last Results"@,
        "  ×  Quit"@,
    ]
}

/// The screens where an address is typed.
pub open spec fn is_input_screen(s: Screen) -> bool {
    ||| s == Screen::BtcInput
    ||| s == Screen::EthInput
    ||| s == Screen::UsdtTronInput
    ||| s == Screen::UsdtEthInput
    ||| s == Screen::SolInput
    ||| s == Screen::BnbInput
    ||| s == Screen::BatchInput
}

/// The chain a single-address input screen looks up.
pub open spec fn screen_chain(s: Screen) -> Chain {
    match s {
        Screen::EthInput => Chain::ETH,
        Screen::UsdtTronInput => Chain::USDT_TRON,
        Screen::UsdtEthInput => Chain::USDT_ETH,
        Screen::SolInput => Chain::SOL,
        Screen::BnbInput => Chain::BNB,
        _ => Chain::BTC,
    }
}

/// The status line shown while `addr` is looked up on `chain`.
pub open spec fn fetch_status(chain: Chain, addr: Seq<char>) -> Seq<char> {
    let head = match chain {
        Chain::BTC => "Fetching BTC data for "@,
        Chain::ETH => "Fetching ETH data for "@,
        Chain::USDT_TRON => "Fetching Tron USDT data for "@,
        Chain::USDT_ETH => "Fetching ETH USDT data for "@,
        Chain::SOL => "Fetching SOL data for "@,
        Chain::BNB => "Fetching BNB data for "@,
    };
    head + addr + "…"@
}

impl App {
    /// The state is consistent: the cursor is within the typed text, which
    /// fits in memory, and the menu selection is one of the nine items.
    pub open spec fn wf(&self) -> bool {
        &&& self.input_cursor <= byte_len(self.input_buffer@)
        &&& byte_len(self.input_buffer@) <= isize::MAX
        &&& self.menu_items@.len() == 9
        &&& (self.menu_selected matches Some(i) ==> i < 9)
    }
}

/// Number of transactions in `ws`.
pub open spec fn total_transactions(ws: Seq<WalletInfo>) -> int
    decreases ws.len(),
{
    if ws.len() == 0 {
        0
    } else {
        total_transactions(ws.drop_last()) + ws.last().transactions@.len()
    }
}

/// The rows of the result on screen (capped at `usize::MAX`).
pub open spec fn row_count(app: App) -> int {
    let total = match app.current_wallet {
        Some(w) => w.transactions@.len() as int,
        None => match app.current_batch {
            Some(b) => total_transactions(b.wallets@),
            None => 0,
        },
    };
    if total > usize::MAX {
        usize::MAX as int
    } else {
        total
    }
}

/// The row offset after moving down `n` rows (never past the last row).
pub open spec fn scrolled_down(off: int, rows: int, n: int) -> int {
    if off + 1 < rows {
        if off + n < rows - 1 {
            off + n
        } else {
            rows - 1
        }
    } else {
        off
    }
}

/// The row offset after moving up `n` rows (never before the first row).
pub open spec fn scrolled_up(off: int, n: int) -> int {
    if off > n {
        off - n
    } else {
        0
    }
}

/// `new` is `old` with the row offset moved to `off`; the highlighted row
/// follows the offset when it moved.
pub open spec fn scrolled_to(old: App, new: App, off: int) -> bool {
    if off == old.scroll_offset {
        new == old
    } else {
        new == (App { scroll_offset: off as usize, table_selected: Some(off as usize), ..old })
    }
}

/// `new` is `old` back on the main menu with the welcome line.
pub open spec fn back_to_menu(old: App, new: App) -> bool {
    &&& new.status_msg@ == welcome_text()
    &&& new == (App { screen: Screen::MainMenu, status_msg: new.status_msg, ..old })
}

/// `new` is `old` on `screen` with an empty input line and `status` shown.
pub open spec fn opens_input(old: App, new: App, screen: Screen, status: Seq<char>) -> bool {
    &&& new.status_msg@ == status
    &&& new.input_buffer@.len() == 0
    &&& new == (App {
        screen,
        status_msg: new.status_msg,
        input_buffer: new.input_buffer,
        input_cursor: 0,
        ..old
    })
}

/// `new` is `old` with an empty input line, showing the error `msg`.
pub open spec fn input_refused(old: App, new: App, msg: Seq<char>) -> bool {
    &&& new.error_msg@ == msg
    &&& new.input_buffer@.len() == 0
    &&& new == (App {
        screen: Screen::Error,
        error_msg: new.error_msg,
        input_buffer: new.input_buffer,
        input_cursor: 0,
        ..old
    })
}

/// `new` is `old` showing the error `msg`.
pub open spec fn shows_error(old: App, new: App, msg: Seq<char>) -> bool {
    &&& new.error_msg@ == msg
    &&& new == (App { screen: Screen::Error, error_msg: new.error_msg, ..old })
}

/// Enter on the main menu.
pub open spec fn menu_enter_effect(old: App, new: App, cmd: Command) -> bool {
    if old.menu_selected == Some(0usize) {
        cmd == Command::Nothing && opens_input(
            old,
            new,
            Screen::BtcInput,
            "Enter BTC wallet address and press Enter"@,
        )
    } else if old.menu_selected == Some(1usize) {
        cmd == Command::Nothing && if old.eth_key@.len() == 0 {
            input_refused(
                old,
                new,
                "ETHERSCAN_KEY environment variable is not set.\n\nSet it with:\n  export ETHERSCAN_KEY=your_key_here\n\nGet a free key at https://etherscan.io/apis"@,
            )
        } else {
            opens_input(old, new, Screen::EthInput, "Enter ETH wallet address and press Enter"@)
        }
    } else if old.menu_selected == Some(2usize) {
        cmd == Command::Nothing && opens_input(
            old,
            new,
            Screen::UsdtTronInput,
            "Enter Tron address to look up USDT (TRC-20)"@,
        )
    } else if old.menu_selected == Some(3usize) {
        cmd == Command::Nothing && if old.eth_key@.len() == 0 {
            input_refused(
                old,
                new,
                "ETHERSCAN_KEY environment variable is not set.\n\nSet it with:\n  export ETHERSCAN_KEY=your_key_here"@,
            )
        } else {
            opens_input(
                old,
                new,
                Screen::UsdtEthInput,
                "Enter Ethereum address to look up USDT (ERC-20)"@,
            )
        }
    } else if old.menu_selected == Some(4usize) {
        cmd == Command::Nothing && opens_input(
            old,
            new,
            Screen::SolInput,
            "Enter Solana address to look up SOL"@,
        )
    } else if old.menu_selected == Some(5usize) {
        cmd == Command::Nothing && if old.bsc_key@.len() == 0 {
            input_refused(
                old,
                new,
                "BSCSCAN_KEY environment variable is not set.\n\nSet it with:\n  export BSCSCAN_KEY=your_key_here\n\nGet a free key at https://bscscan.com/apis"@,
            )
        } else {
            opens_input(old, new, Screen::BnbInput, "Enter BNB wallet address and press Enter"@)
        }
    } else if old.menu_selected == Some(6usize) {
        cmd == Command::Nothing && opens_input(
            old,
            new,
            Screen::BatchInput,
            "Paste addresses (one per line), press Ctrl+D when done"@,
        )
    } else if old.menu_selected == Some(7usize) {
        if old.current_batch is Some {
            cmd == Command::ExportBatch && new == old
        } else if old.current_wallet is Some {
            cmd == Command::ExportWallet && new == old
        } else {
            cmd == Command::Nothing && shows_error(
                old,
                new,
                "No results to export yet. Run a lookup first."@,
            )
        }
    } else {
        cmd == Command::Nothing && new == (App { should_quit: true, ..old })
    }
}

/// A key press on the main menu.
pub open spec fn menu_key_effect(old: App, key: KeyPress, new: App, cmd: Command) -> bool {
    let i = match old.menu_selected {
        Some(i) => i as int,
        None => 0,
    };
    if key.code == KeyCode::Up || key.code == KeyCode::Char('k') {
        cmd == Command::Nothing && new == (App {
            menu_selected: Some(
                if i == 0 {
                    8usize
                } else {
                    (i - 1) as usize
                },
            ),
            ..old
        })
    } else if key.code == KeyCode::Down || key.code == KeyCode::Char('j') {
        cmd == Command::Nothing && new == (App { menu_selected: Some(((i + 1) % 9) as usize), ..old })
    } else if key.code == KeyCode::Enter {
        menu_enter_effect(old, new, cmd)
    } else if key.code == KeyCode::Char('q') {
        cmd == Command::Nothing && new == (App { should_quit: true, ..old })
    } else {
        cmd == Command::Nothing && new == old
    }
}

/// The lookup of `addr` on the chain of the current screen has begun.
pub open spec fn fetch_started(old: App, new: App, cmd: Command, addr: Seq<char>) -> bool {
    let chain = screen_chain(old.screen);
    &&& new.status_msg@ == fetch_status(chain, addr)
    &&& new == (App { screen: Screen::Loading, status_msg: new.status_msg, ..old })
    &&& cmd matches Command::FetchWallet { chain: c, address: a }
    &&& c == chain
    &&& a@ == addr
}

/// A batch lookup of the lines of `text` has begun (when there is any).
pub open spec fn batch_started(old: App, new: App, cmd: Command, text: Seq<char>) -> bool {
    let addrs = nonblank_lines(text);
    if addrs.len() == 0 {
        cmd == Command::Nothing && new == old
    } else {
        &&& new.status_msg@ == "Fetching "@ + decimal(addrs.len()) + " address list…"@
        &&& new == (App { screen: Screen::Loading, status_msg: new.status_msg, ..old })
        &&& cmd matches Command::FetchBatch { addresses }
        &&& texts_view(addresses@) == addrs
    }
}

/// `new` is `old` with the typed text `buf` and the cursor at `cur`.
pub open spec fn edited(old: App, new: App, buf: Seq<char>, cur: int) -> bool {
    &&& new.input_buffer@ == buf
    &&& new == (App { input_buffer: new.input_buffer, input_cursor: cur as usize, ..old })
}

/// A key press on an input screen.
pub open spec fn input_key_effect(old: App, key: KeyPress, new: App, cmd: Command) -> bool {
    let b = old.input_buffer@;
    let c = old.input_cursor as int;
    match key.code {
        KeyCode::Esc => cmd == Command::Nothing && back_to_menu(old, new),
        KeyCode::Enter => {
            let t = trim_seq(b);
            if t.len() == 0 {
                cmd == Command::Nothing && new == old
            } else if old.screen == Screen::BatchInput {
                cmd == Command::Nothing && edited(old, new, b.push('\n'), byte_len(b.push('\n')) as int)
            } else {
                fetch_started(old, new, cmd, t)
            }
        },
        KeyCode::Char(ch) => {
            if ch == 'd' && key.ctrl {
                if old.screen == Screen::BatchInput && trim_seq(b).len() > 0 {
                    batch_started(old, new, cmd, trim_seq(b))
                } else {
                    cmd == Command::Nothing && new == old
                }
            } else {
                cmd == Command::Nothing && edited(old, new, inserted_at(b, c, ch), c + 1)
            }
        },
        KeyCode::Backspace => cmd == Command::Nothing && if c > 0 {
            edited(old, new, removed_at(b, c - 1), c - 1)
        } else {
            new == old
        },
        KeyCode::Delete => cmd == Command::Nothing && if c < byte_len(b) {
            edited(old, new, removed_at(b, c), c)
        } else {
            new == old
        },
        KeyCode::Left => cmd == Command::Nothing && if c > 0 {
            edited(old, new, b, c - 1)
        } else {
            new == old
        },
        KeyCode::Right => cmd == Command::Nothing && if c < byte_len(b) {
            edited(old, new, b, c + 1)
        } else {
            new == old
        },
        KeyCode::Home => cmd == Command::Nothing && edited(old, new, b, 0),
        KeyCode::End => cmd == Command::Nothing && edited(old, new, b, byte_len(b) as int),
        _ => cmd == Command::Nothing && new == old,
    }
}

/// A key press on a result screen.
pub open spec fn result_key_effect(old: App, key: KeyPress, new: App, cmd: Command) -> bool {
    let rows = row_count(old);
    let off = old.scroll_offset as int;
    &&& cmd == Command::Nothing
    &&& if key.code == KeyCode::Esc || key.code == KeyCode::Char('q') {
        back_to_menu(old, new)
    } else if key.code == KeyCode::Down || key.code == KeyCode::Char('j') {
        scrolled_to(old, new, scrolled_down(off, rows, 1))
    } else if key.code == KeyCode::Up || key.code == KeyCode::Char('k') {
        scrolled_to(old, new, scrolled_up(off, 1))
    } else if key.code == KeyCode::PageDown {
        scrolled_to(old, new, scrolled_down(off, rows, 10))
    } else if key.code == KeyCode::PageUp {
        scrolled_to(old, new, scrolled_up(off, 10))
    } else {
        new == old
    }
}

/// What a key press does, screen by screen.
pub open spec fn key_effect(old: App, key: KeyPress, new: App, cmd: Command) -> bool {
    if old.screen == Screen::MainMenu {
        menu_key_effect(old, key, new, cmd)
    } else if is_input_screen(old.screen) {
        input_key_effect(old, key, new, cmd)
    } else if old.screen == Screen::WalletResult || old.screen == Screen::BatchResult {
        result_key_effect(old, key, new, cmd)
    } else if old.screen == Screen::Loading {
        cmd == Command::Nothing && new == old
    } else {
        cmd == Command::Nothing && if key.code == KeyCode::Esc || key.code == KeyCode::Enter {
            back_to_menu(old, new)
        } else {
            new == old
        }
    }
}

/// Keys on which editing the typed text would fail: a byte offset inside a
/// character, or text that would outgrow what memory can hold.
pub open spec fn key_breaks_input(app: App, key: KeyPress) -> bool {
    let b = app.input_buffer@;
    let c = app.input_cursor as int;
    &&& is_input_screen(app.screen)
    &&& match key.code {
        KeyCode::Backspace => c > 0 && !is_boundary(b, c - 1),
        KeyCode::Delete => c < byte_len(b) && !is_boundary(b, c),
        KeyCode::Char(ch) => !(ch == 'd' && key.ctrl) && (!is_boundary(b, c) || byte_len(b)
            + char_width(ch) > isize::MAX),
        KeyCode::Enter => app.screen == Screen::BatchInput && trim_seq(b).len() > 0 && byte_len(b)
            + 1 > isize::MAX,
        _ => false,
    }
}

/// What a finished background task does to the state.
pub open spec fn message_effect(old: App, msg: AppMessage, new: App) -> bool {
    match msg {
        AppMessage::WalletLoaded(w) => {
            &&& new.status_msg@ == "Loaded "@ + w.address@ + " — "@ + decimal(w.tx_count as nat)
                + " txs"@
            &&& new == (App {
                status_msg: new.status_msg,
                current_wallet: Some(w),
                current_batch: None,
                table_selected: Some(0),
                scroll_offset: 0,
                screen: Screen::WalletResult,
                ..old
            })
        },
        AppMessage::BatchLoaded(b) => {
            &&& new.status_msg@ == "Batch complete — "@ + decimal(b.wallets@.len()) + " wallets, "@
                + decimal(b.linked_pairs@.len()) + " linked pairs"@
            &&& new == (App {
                status_msg: new.status_msg,
                current_batch: Some(b),
                current_wallet: None,
                table_selected: Some(0),
                scroll_offset: 0,
                screen: Screen::BatchResult,
                ..old
            })
        },
        AppMessage::FetchError(e) => new == (App { error_msg: e, screen: Screen::Error, ..old }),
        AppMessage::ExportDone(m) => {
            &&& new.last_export_msg matches Some(l)
            &&& l@ == m@
            &&& new == (App {
                last_export_msg: new.last_export_msg,
                status_msg: m,
                screen: Screen::ExportConfirm,
                ..old
            })
        },
    }
}


pub proof fn lemma_scrolled_down_step(off: int, rows: int, m: int)
    requires
        m >= 0,
    ensures
        scrolled_down(scrolled_down(off, rows, m), rows, 1) == scrolled_down(off, rows, m + 1),
        scrolled_down(off, rows, m + 1) >= scrolled_down(off, rows, m),
        scrolled_down(off, rows, m) >= off,
{
}

pub proof fn lemma_scrolled_up_step(off: int, m: int)
    requires
        m >= 0,
        off >= 0,
    ensures
        scrolled_up(scrolled_up(off, m), 1) == scrolled_up(off, m + 1),
        scrolled_up(off, m + 1) <= scrolled_up(off, m),
        scrolled_up(off, m) <= off,
        scrolled_up(off, m) >= 0,
{
}

fn welcome() -> (s: String)
    ensures
        s@ == welcome_text(),
{
    String::from_str("Welcome to ChainTrack — Use ↑↓ to navigate, Enter to select")
}

/// Number of transactions in `ws`, capped at `usize::MAX`.
fn count_transactions(ws: &Vec<WalletInfo>) -> (n: usize)
    ensures
        n == (if total_transactions(ws@) > usize::MAX {
            usize::MAX as int
        } else {
            total_transactions(ws@)
        }),
{
    let mut acc: usize = 0;
    let mut i: usize = 0;
    proof {
        assert(ws@.take(0) =~= Seq::<WalletInfo>::empty());
    }
    while i < ws.len()
        invariant
            i <= ws@.len(),
            acc == (if total_transactions(ws@.take(i as int)) > usize::MAX {
                usize::MAX as int
            } else {
                total_transactions(ws@.take(i as int))
            }),
        decreases ws@.len() - i,
    {
        proof {
            assert(ws@.take(i + 1).drop_last() =~= ws@.take(i as int));
            assert(ws@.take(i + 1).last() == ws@[i as int]);
            assert(total_transactions(ws@.take(i as int)) >= 0) by {
                lemma_total_transactions_nonneg(ws@.take(i as int));
            }
        }
        let n = ws[i].transactions.len();
        if acc > usize::MAX - n {
            acc = usize::MAX;
        } else {
            acc = acc + n;
        }
        i = i + 1;
    }
    proof {
        assert(ws@.take(i as int) =~= ws@);
    }
    acc
}

pub proof fn lemma_total_transactions_nonneg(ws: Seq<WalletInfo>)
    ensures
        total_transactions(ws) >= 0,
    decreases ws.len(),
{
    if ws.len() > 0 {
        lemma_total_transactions_nonneg(ws.drop_last());
    }
}

impl App {
    /// A fresh interface on the main menu, with the given API keys (empty when unset).
    pub fn new(eth_key: String, bsc_key: String) -> (app: App)
        ensures
            app.wf(),
            !app.should_quit,
            app.screen == Screen::MainMenu,
            app.menu_selected == Some(0usize),
            texts_view(app.menu_items@) == menu_labels(),
            app.input_buffer@.len() == 0,
            app.input_cursor == 0,
            app.current_wallet is None,
            app.current_batch is None,
            app.table_selected is None,
            app.scroll_offset == 0,
            app.status_msg@ == welcome_text(),
            app.error_msg@.len() == 0,
            app.eth_key == eth_key,
            app.bsc_key == bsc_key,
            app.last_export_msg is None,
    {
        let mut items: Vec<String> = Vec::new();
        items.push(String::from_str("  ₿  BTC Wallet Lookup"));
        items.push(String::from_str("  Ξ  ETH Wallet Lookup"));
        items.push(String::from_str("  ₮  USDT (Tron) Lookup"));
        items.push(String::from_str("  ♦  USDT (ETH) Lookup"));
        items.push(String::from_str("  ◎  SOL Wallet Lookup"));
        items.push(String::from_str("  ❖  BNB Wallet Lookup"));
        items.push(String::from_str("  ⋮  Batch Analysis"));
        items.push(String::from_str("  ↓  Export Last Results"));
        items.push(String::from_str("  ×  Quit"));
        let app = App {
            should_quit: false,
            screen: Screen::MainMenu,
            menu_selected: Some(0),
            menu_items: items,
            input_buffer: Vec::new(),
            input_cursor: 0,
            current_wallet: None,
            current_batch: None,
            table_selected: None,
            scroll_offset: 0,
            status_msg: welcome(),
            error_msg: String::new(),
            eth_key,
            bsc_key,
            last_export_msg: None,
        };
        proof {
            assert(texts_view(app.menu_items@) =~= menu_labels());
            assert(app.input_buffer@ =~= Seq::<char>::empty());
            assert(byte_len(app.input_buffer@) == 0) by {
                assert(vstd::utf8::encode_utf8(app.input_buffer@) =~= Seq::<u8>::empty());
            }
        }
        app
    }

    /// Take in what a finished background task reports.
    pub fn handle_message(&mut self, msg: AppMessage)
        requires
            old(self).wf(),
        ensures
            final(self).wf(),
            message_effect(*old(self), msg, *final(self)),
    {
        match msg {
            AppMessage::WalletLoaded(wallet) => {
                let mut status = concat3("Loaded ", wallet.address.as_str(), " — ");
                let count = decimal_text(wallet.tx_count);
                status.append(count.as_str());
                status.append(" txs");
                self.status_msg = status;
                self.current_wallet = Some(wallet);
                self.current_batch = None;
                self.table_selected = Some(0);
                self.scroll_offset = 0;
                self.screen = Screen::WalletResult;
            },
            AppMessage::BatchLoaded(batch) => {
                let mut status = String::from_str("Batch complete — ");
                let n = decimal_text(batch.wallets.len() as u64);
                status.append(n.as_str());
                status.append(" wallets, ");
                let m = decimal_text(batch.linked_pairs.len() as u64);
                status.append(m.as_str());
                status.append(" linked pairs");
                self.status_msg = status;
                self.current_batch = Some(batch);
                self.current_wallet = None;
                self.table_selected = Some(0);
                self.scroll_offset = 0;
                self.screen = Screen::BatchResult;
            },
            AppMessage::FetchError(e) => {
                self.error_msg = e;
                self.screen = Screen::Error;
            },
            AppMessage::ExportDone(m) => {
                self.last_export_msg = Some(m.clone());
                self.status_msg = m;
                self.screen = Screen::ExportConfirm;
            },
        }
    }

    /// Whether `key` would hit a byte offset inside a character of the typed
    /// text, or make the text outgrow memory (the host stops there).
    pub fn would_panic(&self, key: KeyPress) -> (r: bool)
        requires
            self.wf(),
        ensures
            r == key_breaks_input(*self, key),
    {
        let on_input = match self.screen {
            Screen::BtcInput | Screen::EthInput | Screen::UsdtTronInput | Screen::UsdtEthInput
            | Screen::SolInput | Screen::BnbInput | Screen::BatchInput => true,
            _ => false,
        };
        if !on_input {
            return false;
        }
        let b = &self.input_buffer;
        let c = self.input_cursor;
        let limit = isize::MAX as usize;
        match key.code {
            KeyCode::Backspace => c > 0 && !is_boundary_at(b, c - 1),
            KeyCode::Delete => !byte_len_at_most(b, c) && !is_boundary_at(b, c),
            KeyCode::Char(ch) => {
                if ch == 'd' && key.ctrl {
                    false
                } else {
                    !is_boundary_at(b, c) || !byte_len_at_most(b, limit - char_width_of(ch))
                }
            },
            KeyCode::Enter => {
                let (x, y) = trim_range(b);
                self.screen == Screen::BatchInput && x < y && !byte_len_at_most(b, limit - 1)
            },
            _ => false,
        }
    }

    /// React to a key press; the returned command names the work to start.
    pub fn handle_key(&mut self, key: KeyPress) -> (cmd: Command)
        requires
            old(self).wf(),
            !key_breaks_input(*old(self), key),
        ensures
            final(self).wf(),
            key_effect(*old(self), key, *final(self), cmd),
    {
        match self.screen {
            Screen::MainMenu => self.handle_menu_key(key),
            Screen::BtcInput | Screen::EthInput | Screen::UsdtTronInput | Screen::UsdtEthInput
            | Screen::SolInput | Screen::BnbInput | Screen::BatchInput => self.handle_input_key(key),
            Screen::WalletResult | Screen::BatchResult => self.handle_result_key(key),
            Screen::Loading => Command::Nothing,
            Screen::Error | Screen::ExportConfirm => {
                if key.code == KeyCode::Esc || key.code == KeyCode::Enter {
                    self.screen = Screen::MainMenu;
                    self.status_msg = welcome();
                }
                Command::Nothing
            },
        }
    }

    fn open_input(&mut self, screen: Screen, status: &str)
        requires
            old(self).wf(),
        ensures
            final(self).wf(),
            opens_input(*old(self), *final(self), screen, status@),
    {
        self.input_buffer.clear();
        self.input_cursor = 0;
        self.status_msg = String::from_str(status);
        self.screen = screen;
        proof {
            assert(byte_len(self.input_buffer@) == 0) by {
                assert(vstd::utf8::encode_utf8(self.input_buffer@) =~= Seq::<u8>::empty());
            }
        }
    }

    fn refuse_input(&mut self, msg: &str)
        requires
            old(self).wf(),
        ensures
            final(self).wf(),
            input_refused(*old(self), *final(self), msg@),
    {
        self.input_buffer.clear();
        self.input_cursor = 0;
        self.error_msg = String::from_str(msg);
        self.screen = Screen::Error;
        proof {
            assert(byte_len(self.input_buffer@) == 0) by {
                assert(vstd::utf8::encode_utf8(self.input_buffer@) =~= Seq::<u8>::empty());
            }
        }
    }

    fn handle_menu_key(&mut self, key: KeyPress) -> (cmd: Command)
        requires
            old(self).wf(),
        ensures
            final(self).wf(),
            menu_key_effect(*old(self), key, *final(self), cmd),
    {
        if key.code == KeyCode::Up || key.code == KeyCode::Char('k') {
            let i = match self.menu_selected {
                Some(i) => i,
                None => 0,
            };
            self.menu_selected = Some(
                if i == 0 {
                    self.menu_items.len() - 1
                } else {
                    i - 1
                },
            );
            Command::Nothing
        } else if key.code == KeyCode::Down || key.code == KeyCode::Char('j') {
            let i = match self.menu_selected {
                Some(i) => i,
                None => 0,
            };
            self.menu_selected = Some((i + 1) % self.menu_items.len());
            Command::Nothing
        } else if key.code == KeyCode::Enter {
            match self.menu_selected {
                Some(0) => {
                    self.open_input(Screen::BtcInput, "Enter BTC wallet address and press Enter");
                    Command::Nothing
                },
                Some(1) => {
                    if self.eth_key.as_str().is_empty() {
                        self.refuse_input(
                            "ETHERSCAN_KEY environment variable is not set.\n\nSet it with:\n  export ETHERSCAN_KEY=your_key_here\n\nGet a free key at https://etherscan.io/apis",
                        );
                    } else {
                        self.open_input(
                            Screen::EthInput,
                            "Enter ETH wallet address and press Enter",
                        );
                    }
                    Command::Nothing
                },
                Some(2) => {
                    self.open_input(
                        Screen::UsdtTronInput,
                        "Enter Tron address to look up USDT (TRC-20)",
                    );
                    Command::Nothing
                },
                Some(3) => {
                    if self.eth_key.as_str().is_empty() {
                        self.refuse_input(
                            "ETHERSCAN_KEY environment variable is not set.\n\nSet it with:\n  export ETHERSCAN_KEY=your_key_here",
                        );
                    } else {
                        self.open_input(
                            Screen::UsdtEthInput,
                            "Enter Ethereum address to look up USDT (ERC-20)",
                        );
                    }
                    Command::Nothing
                },
                Some(4) => {
                    self.open_input(Screen::SolInput, "Enter Solana address to look up SOL");
                    Command::Nothing
                },
                Some(5) => {
                    if self.bsc_key.as_str().is_empty() {
                        self.refuse_input(
                            "BSCSCAN_KEY environment variable is not set.\n\nSet it with:\n  export BSCSCAN_KEY=your_key_here\n\nGet a free key at https://bscscan.com/apis",
                        );
                    } else {
                        self.open_input(
                            Screen::BnbInput,
                            "Enter BNB wallet address and press Enter",
                        );
                    }
                    Command::Nothing
                },
                Some(6) => {
                    self.open_input(
                        Screen::BatchInput,
                        "Paste addresses (one per line), press Ctrl+D when done",
                    );
                    Command::Nothing
                },
                Some(7) => self.do_export(),
                _ => {
                    self.should_quit = true;
                    Command::Nothing
                },
            }
        } else if key.code == KeyCode::Char('q') {
            self.should_quit = true;
            Command::Nothing
        } else {
            Command::Nothing
        }
    }

    fn do_export(&mut self) -> (cmd: Command)
        requires
            old(self).wf(),
        ensures
            final(self).wf(),
            if old(self).current_batch is Some {
                cmd == Command::ExportBatch && *final(self) == *old(self)
            } else if old(self).current_wallet is Some {
                cmd == Command::ExportWallet && *final(self) == *old(self)
            } else {
                cmd == Command::Nothing && shows_error(
                    *old(self),
                    *final(self),
                    "No results to export yet. Run a lookup first."@,
                )
            },
    {
        if self.current_batch.is_some() {
            Command::ExportBatch
        } else if self.current_wallet.is_some() {
            Command::ExportWallet
        } else {
            self.error_msg = String::from_str("No results to export yet. Run a lookup first.");
            self.screen = Screen::Error;
            Command::Nothing
        }
    }

    fn start_fetch(&mut self, addr: String) -> (cmd: Command)
        requires
            old(self).wf(),
        ensures
            final(self).wf(),
            fetch_started(*old(self), *final(self), cmd, addr@),
    {
        let chain = match self.screen {
            Screen::EthInput => Chain::ETH,
            Screen::UsdtTronInput => Chain::USDT_TRON,
            Screen::UsdtEthInput => Chain::USDT_ETH,
            Screen::SolInput => Chain::SOL,
            Screen::BnbInput => Chain::BNB,
            _ => Chain::BTC,
        };
        let head = match chain {
            Chain::BTC => "Fetching BTC data for ",
            Chain::ETH => "Fetching ETH data for ",
            Chain::USDT_TRON => "Fetching Tron USDT data for ",
            Chain::USDT_ETH => "Fetching ETH USDT data for ",
            Chain::SOL => "Fetching SOL data for ",
            Chain::BNB => "Fetching BNB data for ",
        };
        self.status_msg = concat3(head, addr.as_str(), "…");
        self.screen = Screen::Loading;
        Command::FetchWallet { chain, address: addr }
    }

    fn start_batch_fetch(&mut self, text: &Vec<char>) -> (cmd: Command)
        requires
            old(self).wf(),
        ensures
            final(self).wf(),
            batch_started(*old(self), *final(self), cmd, text@),
    {
        let addresses = nonblank_lines_of(text);
        if addresses.len() == 0 {
            return Command::Nothing;
        }
        let n = decimal_text(addresses.len() as u64);
        self.status_msg = concat3("Fetching ", n.as_str(), " address list…");
        self.screen = Screen::Loading;
        Command::FetchBatch { addresses }
    }

    fn handle_input_key(&mut self, key: KeyPress) -> (cmd: Command)
        requires
            old(self).wf(),
            is_input_screen(old(self).screen),
            !key_breaks_input(*old(self), key),
        ensures
            final(self).wf(),
            input_key_effect(*old(self), key, *final(self), cmd),
    {
        let ghost b = self.input_buffer@;
        let cur = self.input_cursor;
        let limit = isize::MAX as usize;
        match key.code {
            KeyCode::Esc => {
                self.screen = Screen::MainMenu;
                self.status_msg = welcome();
                Command::Nothing
            },
            KeyCode::Enter => {
                let (x, y) = trim_range(&self.input_buffer);
                if x == y {
                    return Command::Nothing;
                }
                if self.screen == Screen::BatchInput {
                    self.input_buffer.push('\n');
                    proof {
                        crate::text::lemma_byte_len_push(b, '\n');
                    }
                    self.input_cursor = byte_length(&self.input_buffer);
                    Command::Nothing
                } else {
                    let addr = text_between(&self.input_buffer, x, y);
                    self.start_fetch(addr)
                }
            },
            KeyCode::Char(ch) => {
                if ch == 'd' && key.ctrl {
                    if self.screen == Screen::BatchInput {
                        let (x, y) = trim_range(&self.input_buffer);
                        if x < y {
                            let text = crate::text::slice_chars(&self.input_buffer, x, y);
                            return self.start_batch_fetch(&text);
                        }
                    }
                    Command::Nothing
                } else {
                    insert_at_byte(&mut self.input_buffer, cur, ch);
                    proof {
                        lemma_inserted_len(b, cur as int, ch);
                    }
                    self.input_cursor = cur + 1;
                    Command::Nothing
                }
            },
            KeyCode::Backspace => {
                if cur > 0 {
                    proof {
                        lemma_removed_len(b, cur - 1);
                    }
                    remove_at_byte(&mut self.input_buffer, cur - 1);
                    self.input_cursor = cur - 1;
                }
                Command::Nothing
            },
            KeyCode::Delete => {
                if !byte_len_at_most(&self.input_buffer, cur) {
                    proof {
                        lemma_removed_len(b, cur as int);
                    }
                    remove_at_byte(&mut self.input_buffer, cur);
                }
                Command::Nothing
            },
            KeyCode::Left => {
                if cur > 0 {
                    self.input_cursor = cur - 1;
                }
                Command::Nothing
            },
            KeyCode::Right => {
                if !byte_len_at_most(&self.input_buffer, cur) {
                    self.input_cursor = cur + 1;
                }
                Command::Nothing
            },
            KeyCode::Home => {
                self.input_cursor = 0;
                Command::Nothing
            },
            KeyCode::End => {
                self.input_cursor = byte_length(&self.input_buffer);
                Command::Nothing
            },
            _ => Command::Nothing,
        }
    }

    /// The rows of the result on screen (capped at `usize::MAX`).
    fn max_rows(&self) -> (n: usize)
        ensures
            n == row_count(*self),
    {
        match &self.current_wallet {
            Some(w) => w.transactions.len(),
            None => match &self.current_batch {
                Some(b) => count_transactions(&b.wallets),
                None => 0,
            },
        }
    }

    fn scroll_down(&mut self)
        ensures
            scrolled_to(
                *old(self),
                *final(self),
                scrolled_down(old(self).scroll_offset as int, row_count(*old(self)), 1),
            ),
    {
        let max = self.max_rows();
        if self.scroll_offset < max && max - self.scroll_offset > 1 {
            self.scroll_offset = self.scroll_offset + 1;
            self.table_selected = Some(self.scroll_offset);
        }
    }

    fn scroll_up(&mut self)
        ensures
            scrolled_to(*old(self), *final(self), scrolled_up(old(self).scroll_offset as int, 1)),
    {
        if self.scroll_offset > 0 {
            self.scroll_offset = self.scroll_offset - 1;
            self.table_selected = Some(self.scroll_offset);
        }
    }

    fn page_down(&mut self)
        ensures
            scrolled_to(
                *old(self),
                *final(self),
                scrolled_down(old(self).scroll_offset as int, row_count(*old(self)), 10),
            ),
    {
        let ghost start = *self;
        let ghost rows = row_count(*self);
        let ghost off0 = self.scroll_offset as int;
        let mut m: usize = 0;
        while m < 10
            invariant
                m <= 10,
                start == *old(self),
                rows == row_count(start),
                off0 == start.scroll_offset as int,
                row_count(*self) == rows,
                scrolled_to(start, *self, scrolled_down(off0, rows, m as int)),
            decreases 10 - m,
        {
            let ghost before = *self;
            proof {
                lemma_scrolled_down_step(off0, rows, m as int);
            }
            self.scroll_down();
            m = m + 1;
        }
    }

    fn page_up(&mut self)
        ensures
            scrolled_to(*old(self), *final(self), scrolled_up(old(self).scroll_offset as int, 10)),
    {
        let ghost start = *self;
        let ghost off0 = self.scroll_offset as int;
        let mut m: usize = 0;
        while m < 10
            invariant
                m <= 10,
                start == *old(self),
                off0 == start.scroll_offset as int,
                scrolled_to(start, *self, scrolled_up(off0, m as int)),
            decreases 10 - m,
        {
            proof {
                lemma_scrolled_up_step(off0, m as int);
            }
            self.scroll_up();
            m = m + 1;
        }
    }

    fn handle_result_key(&mut self, key: KeyPress) -> (cmd: Command)
        requires
            old(self).wf(),
        ensures
            final(self).wf(),
            result_key_effect(*old(self), key, *final(self), cmd),
    {
        if key.code == KeyCode::Esc || key.code == KeyCode::Char('q') {
            self.screen = Screen::MainMenu;
            self.status_msg = welcome();
        } else if key.code == KeyCode::Down || key.code == KeyCode::Char('j') {
            self.scroll_down();
        } else if key.code == KeyCode::Up || key.code == KeyCode::Char('k') {
            self.scroll_up();
        } else if key.code == KeyCode::PageDown {
            self.page_down();
        } else if key.code == KeyCode::PageUp {
            self.page_up();
        }
        Command::Nothing
    }
}

} // verus!
