use vstd::prelude::*;

use crate::analysis::linked_via;
use crate::detect::{chain_of, chains_of};
use crate::order::lemma_text_lt_irreflexive;
use crate::export::csv_body;
use crate::text::{
    byte_len, bytes_before, bytes_from, char_width, inserted_at, is_boundary, is_white_space,
    lemma_boundary_split, lemma_byte_len_concat, lemma_byte_len_first, prefix_chars,
    removed_at, starts_with, trim_end_seq, trim_seq, trim_start_seq,
};
use crate::batch::{batch_plan, step_for_chain, steps_for, StepView};
use crate::types::{chain_label, Chain, Transaction, WalletInfo};
use crate::ui::{
    is_input_screen, key_breaks_input, key_effect, row_count, scrolled_down, scrolled_up,
    total_transactions, App, Command, KeyCode, KeyPress, Screen,
};
use crate::wallet::{
    earliest_date, first_foreign_output, latest_date, received_total, spent_total, TxOutput,
};
use crate::wrappers::lowercase_text;

verus! {

/// A wallet is never linked to itself.
pub proof fn lemma_linked_wallets_differ(
    ws: Seq<WalletInfo>,
    a: Seq<char>,
    b: Seq<char>,
    cp: Seq<char>,
)
    requires
        linked_via(ws, a, b, cp),
    ensures
        a != b,
{
    lemma_text_lt_irreflexive(a);
}

/// The chains a batch tries are those single detection gives, except that a
/// `0x` address is tried on BNB as well as on ETH.
pub proof fn lemma_detections_agree(addr: Seq<char>, lower: Seq<char>)
    ensures
        chains_of(addr, lower) == match chain_of(addr, lower) {
            Some(Chain::ETH) => seq![Chain::ETH, Chain::BNB],
            Some(c) => seq![c],
            None => Seq::<Chain>::empty(),
        },
{
    if starts_with(lower, seq!['0', 'x']) {
        assert(lower.take(2)[0] == '0');
        if starts_with(lower, seq!['1']) {
            assert(lower.take(1)[0] == '1');
        }
        if starts_with(lower, seq!['3']) {
            assert(lower.take(1)[0] == '3');
        }
        if starts_with(lower, seq!['b', 'c', '1']) {
            assert(lower.take(3)[0] == 'b');
        }
    }
}

proof fn lemma_trim_start_idempotent(s: Seq<char>)
    ensures
        trim_start_seq(trim_start_seq(s)) == trim_start_seq(s),
        trim_start_seq(s).len() > 0 ==> !is_white_space(trim_start_seq(s)[0]),
    decreases s.len(),
{
    if s.len() > 0 && is_white_space(s[0]) {
        lemma_trim_start_idempotent(s.drop_first());
    }
}

proof fn lemma_trim_end_keeps_start(s: Seq<char>)
    requires
        s.len() > 0 ==> !is_white_space(s[0]),
    ensures
        trim_end_seq(s).len() > 0 ==> !is_white_space(trim_end_seq(s)[0]),
        trim_start_seq(trim_end_seq(s)) == trim_end_seq(s),
        trim_end_seq(trim_end_seq(s)) == trim_end_seq(s),
        trim_end_seq(s).len() > 0 ==> !is_white_space(trim_end_seq(s).last()),
    decreases s.len(),
{
    if s.len() > 0 && is_white_space(s.last()) {
        if s.len() > 1 {
            assert(s.drop_last()[0] == s[0]);
        }
        lemma_trim_end_keeps_start(s.drop_last());
    }
}

/// Trimming twice is trimming once: white space around an address never
/// changes how it is read.
pub proof fn lemma_trim_idempotent(s: Seq<char>)
    ensures
        trim_seq(trim_seq(s)) == trim_seq(s),
{
    lemma_trim_start_idempotent(s);
    lemma_trim_end_keeps_start(trim_start_seq(s));
}

/// Detection reads an address the same with or without surrounding white space.
pub proof fn lemma_detection_ignores_padding(s: Seq<char>)
    ensures
        chain_of(trim_seq(trim_seq(s)), lowercase_text(trim_seq(trim_seq(s)))) == chain_of(
            trim_seq(s),
            lowercase_text(trim_seq(s)),
        ),
        chains_of(trim_seq(trim_seq(s)), lowercase_text(trim_seq(trim_seq(s)))) == chains_of(
            trim_seq(s),
            lowercase_text(trim_seq(s)),
        ),
{
    lemma_trim_idempotent(s);
}


proof fn lemma_prefix_chars_concat(p: Seq<char>, q: Seq<char>, r: int)
    requires
        r >= 0,
    ensures
        prefix_chars(p + q, byte_len(p) + r) == p.len() + prefix_chars(q, r),
    decreases p.len(),
{
    if p.len() > 0 {
        lemma_byte_len_first(p);
        assert((p + q)[0] == p[0]);
        assert((p + q).drop_first() =~= p.drop_first() + q);
        lemma_prefix_chars_concat(p.drop_first(), q, r);
    } else {
        assert(p + q =~= q);
        assert(byte_len(p) == 0) by {
            assert(vstd::utf8::encode_utf8(p) =~= Seq::<u8>::empty());
        }
    }
}

/// Removing the character just put in at byte offset `k` gives back the text.
pub proof fn lemma_remove_undoes_insert(b: Seq<char>, k: int, c: char)
    requires
        is_boundary(b, k),
    ensures
        removed_at(inserted_at(b, k, c), k) == b,
{
    lemma_boundary_split(b, k);
    let before = bytes_before(b, k);
    let from = bytes_from(b, k);
    let ins = inserted_at(b, k, c);
    assert(ins =~= before + (seq![c] + from));
    lemma_prefix_chars_concat(before, seq![c] + from, 0);
    assert((seq![c] + from)[0] == c);
    assert(prefix_chars(seq![c] + from, 0) == 0);
    assert(ins.take(before.len() as int) =~= before);
    assert(ins.skip(before.len() as int) =~= seq![c] + from);
    assert((seq![c] + from).drop_first() =~= from);
    assert(removed_at(ins, k) =~= before + from);
}

/// On an input screen, typing a character and then pressing Backspace leaves
/// the typed text and the cursor as they were.
pub proof fn lemma_type_then_backspace(
    a0: App,
    c: char,
    a1: App,
    cmd1: Command,
    a2: App,
    cmd2: Command,
)
    requires
        a0.wf(),
        is_input_screen(a0.screen),
        !key_breaks_input(a0, KeyPress { code: KeyCode::Char(c), ctrl: false }),
        key_effect(a0, KeyPress { code: KeyCode::Char(c), ctrl: false }, a1, cmd1),
        key_effect(a1, KeyPress { code: KeyCode::Backspace, ctrl: false }, a2, cmd2),
    ensures
        a2.input_buffer@ == a0.input_buffer@,
        a2 == (App { input_buffer: a2.input_buffer, ..a0 }),
{
    let k = a0.input_cursor as int;
    assert(a0.screen != Screen::MainMenu);
    assert(a1.screen == a0.screen);
    lemma_remove_undoes_insert(a0.input_buffer@, k, c);
}

/// On the main menu, Down then Up selects the item that was selected.
pub proof fn lemma_menu_down_then_up(
    a0: App,
    a1: App,
    cmd1: Command,
    a2: App,
    cmd2: Command,
)
    requires
        a0.wf(),
        a0.screen == Screen::MainMenu,
        a0.menu_selected is Some,
        key_effect(a0, KeyPress { code: KeyCode::Down, ctrl: false }, a1, cmd1),
        key_effect(a1, KeyPress { code: KeyCode::Up, ctrl: false }, a2, cmd2),
    ensures
        a2 == a0,
{
}

/// Scrolling never moves the highlighted row past the last row or before the first.
pub proof fn lemma_scroll_within_rows(off: int, rows: int, n: int)
    requires
        0 <= off < rows,
        n >= 0,
    ensures
        0 <= scrolled_down(off, rows, n) < rows,
        0 <= scrolled_up(off, n) <= off,
{
}

/// On a result view, Down then Up comes back to the row it left, unless the
/// view was already on its last row.
pub proof fn lemma_row_down_then_up(
    a0: App,
    a1: App,
    cmd1: Command,
    a2: App,
    cmd2: Command,
)
    requires
        a0.wf(),
        a0.screen == Screen::WalletResult || a0.screen == Screen::BatchResult,
        a0.scroll_offset + 1 < row_count(a0),
        key_effect(a0, KeyPress { code: KeyCode::Down, ctrl: false }, a1, cmd1),
        key_effect(a1, KeyPress { code: KeyCode::Up, ctrl: false }, a2, cmd2),
    ensures
        a2.scroll_offset == a0.scroll_offset,
        a2.screen == a0.screen,
{
    assert(row_count(a1) == row_count(a0));
}

/// The CSV export has one row per transaction across all wallets.
pub proof fn lemma_csv_one_row_per_transaction(ws: Seq<WalletInfo>)
    ensures
        csv_body(ws).len() == total_transactions(ws),
    decreases ws.len(),
{
    if ws.len() > 0 {
        lemma_csv_one_row_per_transaction(ws.drop_last());
    }
}

/// A wallet's first-seen date is never after its last-seen date, and one is
/// known exactly when the other is.
pub proof fn lemma_first_seen_not_after_last(txs: Seq<Transaction>)
    ensures
        earliest_date(txs) is Some <==> latest_date(txs) is Some,
        earliest_date(txs) matches Some(f) ==> latest_date(txs) matches Some(l) && f <= l,
    decreases txs.len(),
{
    if txs.len() > 0 {
        lemma_first_seen_not_after_last(txs.drop_last());
    }
}

/// A batch step either looks the address up on the very chain it was made
/// for, or fails because that chain's API key is missing; it fails exactly
/// then.
pub proof fn lemma_step_names_its_chain(addr: Seq<char>, c: Chain, eth_missing: bool, bsc_missing: bool)
    ensures
        step_for_chain(addr, c, eth_missing, bsc_missing) matches StepView::Fetch(c2, a2) ==> c2 == c
            && a2 == addr,
        step_for_chain(addr, c, eth_missing, bsc_missing) is Fail <==> (((c == Chain::ETH || c
            == Chain::USDT_ETH) && eth_missing) || (c == Chain::BNB && bsc_missing)),
{
}

/// The chains a batch tries for one address never repeat.
pub proof fn lemma_detected_chains_distinct(addr: Seq<char>, lower: Seq<char>)
    ensures
        forall|i: int, j: int|
            0 <= i < j < chains_of(addr, lower).len() ==> chains_of(addr, lower)[i] != chains_of(
                addr,
                lower,
            )[j],
{
}

/// With both API keys set, a batch looks an address up once on each chain
/// its format fits, in the order detection gives, and on no other chain; an
/// address that fits no chain is reported as of unknown chain, keys or not.
pub proof fn lemma_keyed_batch_fetches_detected_chains(addr: Seq<char>)
    ensures
        ({
            let t = trim_seq(addr);
            let chains = chains_of(t, lowercase_text(t));
            chains.len() > 0 ==> steps_for(addr, false, false) == chains.map_values(
                |c: Chain| StepView::Fetch(c, addr),
            )
        }),
        forall|em: bool, bm: bool|
            chains_of(trim_seq(addr), lowercase_text(trim_seq(addr))).len() == 0 ==> #[trigger] steps_for(
                addr,
                em,
                bm,
            ) == seq![StepView::Fail(addr + ": unknown chain"@)],
{
    let t = trim_seq(addr);
    let chains = chains_of(t, lowercase_text(t));
    if chains.len() > 0 {
        assert forall|i: int| 0 <= i < chains.len() implies #[trigger] steps_for(
            addr,
            false,
            false,
        )[i] == StepView::Fetch(chains[i], addr) by {
            lemma_step_names_its_chain(addr, chains[i], false, false);
        }
        assert(steps_for(addr, false, false) =~= chains.map_values(
            |c: Chain| StepView::Fetch(c, addr),
        ));
    }
}

/// Satoshis a single input takes from `addr`: its value when the output it
/// spends pays `addr`, else nothing.
pub open spec fn input_share(x: Option<TxOutput>, addr: Seq<char>) -> int {
    match x {
        Some(o) => match o.address {
            Some(s) => if s@ == addr {
                o.value as int
            } else {
                0
            },
            None => 0,
        },
        None => 0,
    }
}

/// Satoshis a single output pays to `addr`.
pub open spec fn output_share(o: TxOutput, addr: Seq<char>) -> int {
    match o.address {
        Some(s) => if s@ == addr {
            o.value as int
        } else {
            0
        },
        None => 0,
    }
}

/// What a Bitcoin transaction's inputs take from an address adds up input by
/// input: every input that spends a coin of the address counts in full.
pub proof fn lemma_spent_adds_up(a: Seq<Option<TxOutput>>, b: Seq<Option<TxOutput>>, addr: Seq<char>)
    ensures
        spent_total(a + b, addr) == spent_total(a, addr) + spent_total(b, addr),
        spent_total(Seq::<Option<TxOutput>>::empty(), addr) == 0,
        forall|x: Option<TxOutput>| #[trigger] spent_total(seq![x], addr) == input_share(x, addr),
    decreases b.len(),
{
    assert forall|x: Option<TxOutput>| #[trigger] spent_total(seq![x], addr) == input_share(x, addr) by {
        assert(seq![x].drop_last() =~= Seq::<Option<TxOutput>>::empty());
        assert(spent_total(Seq::<Option<TxOutput>>::empty(), addr) == 0);
        assert(seq![x].last() == x);
    }
    if b.len() == 0 {
        assert(a + b =~= a);
    } else {
        lemma_spent_adds_up(a, b.drop_last(), addr);
        assert((a + b).drop_last() =~= a + b.drop_last());
        assert((a + b).last() == b.last());
    }
}

/// What a Bitcoin transaction's outputs pay an address adds up output by
/// output: every output to the address counts in full.
pub proof fn lemma_received_adds_up(a: Seq<TxOutput>, b: Seq<TxOutput>, addr: Seq<char>)
    ensures
        received_total(a + b, addr) == received_total(a, addr) + received_total(b, addr),
        received_total(Seq::<TxOutput>::empty(), addr) == 0,
        forall|o: TxOutput| #[trigger] received_total(seq![o], addr) == output_share(o, addr),
    decreases b.len(),
{
    assert forall|o: TxOutput| #[trigger] received_total(seq![o], addr) == output_share(o, addr) by {
        assert(seq![o].drop_last() =~= Seq::<TxOutput>::empty());
        assert(received_total(Seq::<TxOutput>::empty(), addr) == 0);
        assert(seq![o].last() == o);
    }
    if b.len() == 0 {
        assert(a + b =~= a);
    } else {
        lemma_received_adds_up(a, b.drop_last(), addr);
        assert((a + b).drop_last() =~= a + b.drop_last());
        assert((a + b).last() == b.last());
    }
}

/// Each chain is shown and exported under its own name, and no two chains
/// share a name.
pub proof fn lemma_chain_labels()
    ensures
        chain_label(Chain::BTC) == "BTC"@,
        chain_label(Chain::ETH) == "ETH"@,
        chain_label(Chain::USDT_TRON) == "USDT (Tron)"@,
        chain_label(Chain::USDT_ETH) == "USDT (ETH)"@,
        chain_label(Chain::SOL) == "SOL"@,
        chain_label(Chain::BNB) == "BNB"@,
        forall|c1: Chain, c2: Chain| #[trigger] chain_label(c1) == #[trigger] chain_label(c2) ==> c1 == c2,
{
    reveal_strlit("BTC");
    reveal_strlit("ETH");
    reveal_strlit("USDT (Tron)");
    reveal_strlit("USDT (ETH)");
    reveal_strlit("SOL");
    reveal_strlit("BNB");
    assert forall|c1: Chain, c2: Chain| #[trigger] chain_label(c1) == #[trigger] chain_label(c2) implies c1
        == c2 by {
        if c1 != c2 {
            let l1 = chain_label(c1);
            let l2 = chain_label(c2);
            if l1.len() == l2.len() {
                if l1.len() == 3 {
                    assert(l1[0] != l2[0] || l1[1] != l2[1]);
                } else {
                    assert(l1[6] != l2[6]);
                }
            }
        }
    }
}

/// A single-address lookup runs on the chain of the menu item that opened
/// its input screen: BTC, ETH, USDT on Tron, USDT on Ethereum, SOL and BNB
/// for the first six items, whatever was typed in between.
pub proof fn lemma_lookup_uses_chosen_chain(
    i: usize,
    a0: App,
    a1: App,
    cmd1: Command,
    b: App,
    a2: App,
    cmd2: Command,
)
    requires
        a0.screen == Screen::MainMenu,
        a0.menu_selected == Some(i),
        i < 6,
        a0.eth_key@.len() > 0,
        a0.bsc_key@.len() > 0,
        key_effect(a0, KeyPress { code: KeyCode::Enter, ctrl: false }, a1, cmd1),
        b.screen == a1.screen,
        trim_seq(b.input_buffer@).len() > 0,
        key_effect(b, KeyPress { code: KeyCode::Enter, ctrl: false }, a2, cmd2),
    ensures
        cmd2 matches Command::FetchWallet { chain, address } && chain == seq![
            Chain::BTC,
            Chain::ETH,
            Chain::USDT_TRON,
            Chain::USDT_ETH,
            Chain::SOL,
            Chain::BNB,
        ][i as int] && address@ == trim_seq(b.input_buffer@),
        a2.screen == Screen::Loading,
        a2.status_msg@ == seq![
            "Fetching BTC data for "@,
            "Fetching ETH data for "@,
            "Fetching Tron USDT data for "@,
            "Fetching ETH USDT data for "@,
            "Fetching SOL data for "@,
            "Fetching BNB data for "@,
        ][i as int] + trim_seq(b.input_buffer@) + "…"@,
{
}

/// Output `o` is addressed to `addr`.
pub open spec fn addressed_to(o: TxOutput, addr: Seq<char>) -> bool {
    o.address matches Some(s) && s@ == addr
}

/// The counterparty of a Bitcoin transaction is the address of its first
/// output that is not addressed to the looked-up address (none when every
/// output is, or when that output has no address).
pub proof fn lemma_counterparty_is_first_foreign_output(os: Seq<TxOutput>, addr: Seq<char>, k: int)
    requires
        0 <= k <= os.len(),
        forall|j: int| 0 <= j < k ==> addressed_to(#[trigger] os[j], addr),
        k < os.len() ==> !addressed_to(os[k], addr),
    ensures
        first_foreign_output(os, addr) == if k < os.len() {
            match os[k].address {
                Some(s) => Some(s@),
                None => None,
            }
        } else {
            None
        },
    decreases k,
{
    if k > 0 {
        assert(addressed_to(os[0], addr));
        assert forall|j: int| 0 <= j < k - 1 implies addressed_to(#[trigger] os.drop_first()[j], addr) by {
            assert(os.drop_first()[j] == os[j + 1]);
        }
        if k < os.len() {
            assert(os.drop_first()[k - 1] == os[k]);
        }
        lemma_counterparty_is_first_foreign_output(os.drop_first(), addr, k - 1);
    }
}

/// A batch plans the addresses one after another: the plan for two runs of
/// addresses is the plan for the first followed by the plan for the second,
/// and the plan for one address is that address's steps.
pub proof fn lemma_batch_plan_in_order(
    a: Seq<Seq<char>>,
    b: Seq<Seq<char>>,
    eth_missing: bool,
    bsc_missing: bool,
)
    ensures
        batch_plan(a + b, eth_missing, bsc_missing) == batch_plan(a, eth_missing, bsc_missing)
            + batch_plan(b, eth_missing, bsc_missing),
        forall|x: Seq<char>| #[trigger] batch_plan(seq![x], eth_missing, bsc_missing) == steps_for(
            x,
            eth_missing,
            bsc_missing,
        ),
        batch_plan(Seq::<Seq<char>>::empty(), eth_missing, bsc_missing).len() == 0,
    decreases b.len(),
{
    assert forall|x: Seq<char>| #[trigger] batch_plan(seq![x], eth_missing, bsc_missing) == steps_for(
        x,
        eth_missing,
        bsc_missing,
    ) by {
        assert(seq![x].drop_last() =~= Seq::<Seq<char>>::empty());
        assert(seq![x].last() == x);
        assert(batch_plan(Seq::<Seq<char>>::empty(), eth_missing, bsc_missing) =~= Seq::<StepView>::empty());
        assert(Seq::<StepView>::empty() + steps_for(x, eth_missing, bsc_missing) =~= steps_for(
            x,
            eth_missing,
            bsc_missing,
        ));
    }
    if b.len() == 0 {
        assert(a + b =~= a);
        assert(batch_plan(a, eth_missing, bsc_missing) + Seq::<StepView>::empty() =~= batch_plan(
            a,
            eth_missing,
            bsc_missing,
        ));
    } else {
        lemma_batch_plan_in_order(a, b.drop_last(), eth_missing, bsc_missing);
        assert((a + b).drop_last() =~= a + b.drop_last());
        assert((a + b).last() == b.last());
        assert(batch_plan(a, eth_missing, bsc_missing) + batch_plan(b.drop_last(), eth_missing, bsc_missing)
            + steps_for(b.last(), eth_missing, bsc_missing) =~= batch_plan(a, eth_missing, bsc_missing)
            + (batch_plan(b.drop_last(), eth_missing, bsc_missing) + steps_for(
            b.last(),
            eth_missing,
            bsc_missing,
        )));
    }
}

} // verus!
