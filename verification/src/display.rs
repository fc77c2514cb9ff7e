use vstd::prelude::*;

use crate::ui::Screen;

use crate::text::{
    is_boundary_at,
    byte_len, byte_len_at_most, bytes_before, bytes_from, chars_of, is_boundary,
    prefix_char_count, text_between,
};

verus! {

/// `s` cut to at most `max` bytes: when it is longer, its first `max - 1`
/// bytes followed by `…`.
pub open spec fn truncated(s: Seq<char>, max: int) -> Seq<char> {
    if byte_len(s) <= max {
        s
    } else {
        bytes_before(s, if max == 0 { 0 } else { max - 1 }) + seq!['…']
    }
}

/// A transaction id as the wallet view shows it: ids longer than 16 bytes
/// become their first 8 bytes, `…`, and their last 8 bytes.
pub open spec fn abbreviated_txid(s: Seq<char>) -> Seq<char> {
    if byte_len(s) > 16 {
        bytes_before(s, 8) + seq!['…'] + bytes_from(s, byte_len(s) - 8)
    } else {
        s
    }
}

/// A transaction id as the batch view shows it: ids longer than 12 bytes
/// become their first 12 bytes and `…`.
pub open spec fn abbreviated_txid_head(s: Seq<char>) -> Seq<char> {
    if byte_len(s) > 12 {
        bytes_before(s, 12) + seq!['…']
    } else {
        s
    }
}

/// The characters of `v` before byte offset `k`, followed by `…`.
fn head_with_ellipsis(v: &Vec<char>, k: usize) -> (r: String)
    ensures
        r@ == bytes_before(v@, k as int) + seq!['…'],
{
    let n = prefix_char_count(v, k);
    let mut r = text_between(v, 0, n);
    r.append("…");
    proof {
        assert(v@.subrange(0, n as int) =~= v@.take(n as int));
        assert("…"@ =~= seq!['…']) by {
            reveal_strlit("…");
        }
    }
    r
}

/// Cut `s` to `max` bytes for a table cell, marking the cut with `…`.
pub fn truncate(s: &str, max: usize) -> (r: String)
    requires
        byte_len(s@) <= max || is_boundary(s@, if max == 0 { 0 } else { max - 1 }),
    ensures
        r@ == truncated(s@, max as int),
{
    let v = chars_of(s);
    if byte_len_at_most(&v, max) {
        String::from_str(s)
    } else {
        let k = if max == 0 { 0 } else { max - 1 };
        head_with_ellipsis(&v, k)
    }
}

/// The short form of a transaction id in the wallet view.
pub fn abbreviate_txid(txid: &str) -> (r: String)
    requires
        byte_len(txid@) <= usize::MAX,
        byte_len(txid@) > 16 ==> is_boundary(txid@, 8) && is_boundary(
            txid@,
            byte_len(txid@) - 8,
        ),
    ensures
        r@ == abbreviated_txid(txid@),
{
    let v = chars_of(txid);
    if byte_len_at_most(&v, 16) {
        String::from_str(txid)
    } else {
        let total = txid.len();
        let mut r = head_with_ellipsis(&v, 8);
        let from = prefix_char_count(&v, total - 8);
        let tail = text_between(&v, from, v.len());
        r.append(tail.as_str());
        proof {
            assert(v@.subrange(from as int, v@.len() as int) =~= v@.skip(from as int));
        }
        r
    }
}

/// The short form of a transaction id in the batch view.
pub fn abbreviate_txid_head(txid: &str) -> (r: String)
    requires
        byte_len(txid@) > 12 ==> is_boundary(txid@, 12),
    ensures
        r@ == abbreviated_txid_head(txid@),
{
    let v = chars_of(txid);
    if byte_len_at_most(&v, 12) {
        String::from_str(txid)
    } else {
        head_with_ellipsis(&v, 12)
    }
}


/// Whether byte offset `k` falls between two characters of `s`
/// (`str::is_char_boundary`).
pub fn byte_boundary(s: &str, k: usize) -> (b: bool)
    ensures
        b == is_boundary(s@, k as int),
{
    let v = chars_of(s);
    is_boundary_at(&v, k)
}

/// The number of lines `str::lines` yields for `s`: every `'\n'` ends a
/// line, and text after the last one is a line of its own.
pub open spec fn line_count_of(s: Seq<char>) -> int
    decreases s.len(),
{
    if s.len() == 0 {
        0
    } else {
        line_count_of(s.drop_last()) + if s.len() == 1 || s[s.len() - 2] == '\n' {
            1int
        } else {
            0int
        }
    }
}

/// How many lines the typed batch holds.
pub fn line_count(v: &Vec<char>) -> (n: usize)
    ensures
        n == line_count_of(v@),
{
    let mut n: usize = 0;
    let mut i: usize = 0;
    proof {
        assert(v@.take(0) =~= Seq::<char>::empty());
    }
    while i < v.len()
        invariant
            i <= v@.len(),
            n == line_count_of(v@.take(i as int)),
            n <= i,
        decreases v@.len() - i,
    {
        proof {
            assert(v@.take(i + 1).drop_last() =~= v@.take(i as int));
            if i > 0 {
                assert(v@.take(i + 1)[i - 1] == v@[i - 1]);
            }
        }
        if i == 0 || v[i - 1] == '\n' {
            n = n + 1;
        }
        i = i + 1;
    }
    proof {
        assert(v@.take(i as int) =~= v@);
    }
    n
}

/// The name of a screen in the status bar.
pub open spec fn screen_title(s: Screen) -> Seq<char> {
    match s {
        Screen::MainMenu => "MAIN MENU"@,
        Screen::BtcInput => "BTC INPUT"@,
        Screen::EthInput => "ETH INPUT"@,
        Screen::UsdtTronInput => "USDT (TRON) INPUT"@,
        Screen::UsdtEthInput => "USDT (ETH) INPUT"@,
        Screen::SolInput => "SOL INPUT"@,
        Screen::BnbInput => "BNB INPUT"@,
        Screen::BatchInput => "BATCH INPUT"@,
        Screen::Loading => "LOADING…"@,
        Screen::WalletResult => "WALLET RESULT"@,
        Screen::BatchResult => "BATCH RESULT"@,
        Screen::ExportConfirm => "EXPORT DONE"@,
        Screen::Error => "ERROR"@,
    }
}

/// The name of `screen` in the status bar.
pub fn screen_name(screen: Screen) -> (s: String)
    ensures
        s@ == screen_title(screen),
{
    match screen {
        Screen::MainMenu => String::from_str("MAIN MENU"),
        Screen::BtcInput => String::from_str("BTC INPUT"),
        Screen::EthInput => String::from_str("ETH INPUT"),
        Screen::UsdtTronInput => String::from_str("USDT (TRON) INPUT"),
        Screen::UsdtEthInput => String::from_str("USDT (ETH) INPUT"),
        Screen::SolInput => String::from_str("SOL INPUT"),
        Screen::BnbInput => String::from_str("BNB INPUT"),
        Screen::BatchInput => String::from_str("BATCH INPUT"),
        Screen::Loading => String::from_str("LOADING…"),
        Screen::WalletResult => String::from_str("WALLET RESULT"),
        Screen::BatchResult => String::from_str("BATCH RESULT"),
        Screen::ExportConfirm => String::from_str("EXPORT DONE"),
        Screen::Error => String::from_str("ERROR"),
    }
}

} // verus!
