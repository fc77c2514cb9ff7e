use vstd::arithmetic::div_mod::{
    lemma_add_mod_noop, lemma_fundamental_div_mod, lemma_mod_bound, lemma_mod_multiples_vanish,
    lemma_small_mod,
};
use vstd::prelude::*;

use crate::types::{Chain, Transaction, WalletInfo};
use crate::text::chars_of;
use crate::wrappers::{lowercase_text, to_lowercase, utc_representable, utc_timestamp_exists};

verus! {

/// `x` reduced to the range of `i64` the way two's complement arithmetic
/// wraps it.
pub open spec fn wrap_i64(x: int) -> int {
    ((x + 0x8000_0000_0000_0000) % 0x1_0000_0000_0000_0000) - 0x8000_0000_0000_0000
}

pub proof fn lemma_wrap_range(x: int)
    ensures
        i64::MIN <= wrap_i64(x) <= i64::MAX,
{
    lemma_mod_bound(x + 0x8000_0000_0000_0000, 0x1_0000_0000_0000_0000);
}

pub proof fn lemma_wrap_identity(x: int)
    requires
        i64::MIN <= x <= i64::MAX,
    ensures
        wrap_i64(x) == x,
{
    lemma_small_mod((x + 0x8000_0000_0000_0000) as nat, 0x1_0000_0000_0000_0000);
}

/// Adding a multiple of 2^64 does not change the wrapped value.
pub proof fn lemma_wrap_shift(x: int, k: int)
    ensures
        wrap_i64(x + 0x1_0000_0000_0000_0000 * k) == wrap_i64(x),
{
    lemma_mod_multiples_vanish(k, x + 0x8000_0000_0000_0000, 0x1_0000_0000_0000_0000);
    assert(x + 0x1_0000_0000_0000_0000 * k + 0x8000_0000_0000_0000 == 0x1_0000_0000_0000_0000 * k
        + (x + 0x8000_0000_0000_0000));
}

/// The wrapped value differs from `x` by a multiple of 2^64.
pub proof fn lemma_wrap_offset(x: int)
    ensures
        wrap_i64(x) == x + 0x1_0000_0000_0000_0000 * (0 - (x + 0x8000_0000_0000_0000)
            / 0x1_0000_0000_0000_0000),
{
    lemma_fundamental_div_mod(x + 0x8000_0000_0000_0000, 0x1_0000_0000_0000_0000);
}

pub proof fn lemma_wrap_add(a: int, b: int)
    ensures
        wrap_i64(wrap_i64(a) + b) == wrap_i64(a + b),
{
    lemma_wrap_offset(a);
    let q = 0 - (a + 0x8000_0000_0000_0000) / 0x1_0000_0000_0000_0000;
    assert(wrap_i64(a) + b == (a + b) + 0x1_0000_0000_0000_0000 * q);
    lemma_wrap_shift(a + b, q);
}

pub proof fn lemma_wrap_sub(a: int, b: int)
    ensures
        wrap_i64(wrap_i64(a) - wrap_i64(b)) == wrap_i64(a - b),
{
    lemma_wrap_offset(a);
    lemma_wrap_offset(b);
    let qa = 0 - (a + 0x8000_0000_0000_0000) / 0x1_0000_0000_0000_0000;
    let qb = 0 - (b + 0x8000_0000_0000_0000) / 0x1_0000_0000_0000_0000;
    assert(wrap_i64(a) - wrap_i64(b) == (a - b) + 0x1_0000_0000_0000_0000 * (qa - qb)) by (nonlinear_arith)
        requires
            wrap_i64(a) == a + 0x1_0000_0000_0000_0000 * qa,
            wrap_i64(b) == b + 0x1_0000_0000_0000_0000 * qb,
    ;
    lemma_wrap_shift(a - b, qa - qb);
}

/// `acc.wrapping_add_unsigned(v)` when `acc` is the wrapped value of `total`.
proof fn lemma_wrapping_add_unsigned(total: int, acc: i64, v: u64)
    requires
        acc == wrap_i64(total),
    ensures
        vstd::wrapping::i64_specs::wrapping_add_unsigned(acc, v) == wrap_i64(total + v),
{
    lemma_wrap_add(total, v as int);
    if acc + v > i64::MAX {
        lemma_wrap_shift(acc + v - 0x1_0000_0000_0000_0000, 1);
        lemma_wrap_identity(acc + v - 0x1_0000_0000_0000_0000);
    } else {
        lemma_wrap_identity(acc + v);
    }
}

/// One output of a Bitcoin transaction: its value in satoshis and the
/// address it pays, when it has one.
#[derive(Clone, Debug)]
pub struct TxOutput {
    pub value: u64,
    pub address: Option<String>,
}

/// What a Bitcoin transaction means for one address: the net amount in
/// satoshis (received minus spent) and the counterparty.
#[derive(Clone, Debug)]
pub struct BtcFlow {
    pub net: i64,
    pub counterparty: Option<String>,
}

pub open spec fn text_option(o: Option<String>) -> Option<Seq<char>> {
    match o {
        Some(s) => Some(s@),
        None => None,
    }
}

/// Output `o` pays `addr`.
pub open spec fn pays(o: TxOutput, addr: Seq<char>) -> bool {
    match o.address {
        Some(a) => a@ == addr,
        None => false,
    }
}

/// Satoshis that the outputs `os` pay to `addr`.
pub open spec fn received_total(os: Seq<TxOutput>, addr: Seq<char>) -> int
    decreases os.len(),
{
    if os.len() == 0 {
        0
    } else {
        received_total(os.drop_last(), addr) + if pays(os.last(), addr) {
            os.last().value as int
        } else {
            0
        }
    }
}

/// Satoshis that the inputs `ins` (the outputs they spend, where known) take
/// from `addr`.
pub open spec fn spent_total(ins: Seq<Option<TxOutput>>, addr: Seq<char>) -> int
    decreases ins.len(),
{
    if ins.len() == 0 {
        0
    } else {
        spent_total(ins.drop_last(), addr) + match ins.last() {
            Some(o) => if pays(o, addr) {
                o.value as int
            } else {
                0
            },
            None => 0,
        }
    }
}

/// The address of the first output that does not pay `addr` (`None` when
/// there is no such output, or it has no address).
pub open spec fn first_foreign_output(os: Seq<TxOutput>, addr: Seq<char>) -> Option<Seq<char>>
    decreases os.len(),
{
    if os.len() == 0 {
        None
    } else if !pays(os[0], addr) {
        text_option(os[0].address)
    } else {
        first_foreign_output(os.drop_first(), addr)
    }
}

fn pays_to(o: &TxOutput, address: &String) -> (b: bool)
    ensures
        b == pays(*o, address@),
{
    match &o.address {
        Some(a) => *a == *address,
        None => false,
    }
}

/// The net amount and counterparty of a Bitcoin transaction for `address`.
/// The sums are taken in `i64` with two's complement wrapping.
pub fn btc_flow(address: &str, inputs: &Vec<Option<TxOutput>>, outputs: &Vec<TxOutput>) -> (f: BtcFlow)
    ensures
        f.net == wrap_i64(received_total(outputs@, address@) - spent_total(inputs@, address@)),
        text_option(f.counterparty) == first_foreign_output(outputs@, address@),
{
    let me = String::from_str(address);
    let mut spent: i64 = 0;
    let mut i: usize = 0;
    proof {
        assert(inputs@.take(0) =~= Seq::<Option<TxOutput>>::empty());
        lemma_wrap_identity(0);
    }
    while i < inputs.len()
        invariant
            i <= inputs@.len(),
            me@ == address@,
            spent == wrap_i64(spent_total(inputs@.take(i as int), address@)),
        decreases inputs@.len() - i,
    {
        proof {
            assert(inputs@.take(i + 1).drop_last() =~= inputs@.take(i as int));
            assert(inputs@.take(i + 1).last() == inputs@[i as int]);
        }
        match &inputs[i] {
            Some(o) => {
                if pays_to(o, &me) {
                    proof {
                        lemma_wrapping_add_unsigned(
                            spent_total(inputs@.take(i as int), address@),
                            spent,
                            o.value,
                        );
                    }
                    spent = spent.wrapping_add_unsigned(o.value);
                }
            },
            None => {},
        }
        i = i + 1;
    }
    let mut received: i64 = 0;
    let mut j: usize = 0;
    proof {
        assert(outputs@.take(0) =~= Seq::<TxOutput>::empty());
    }
    while j < outputs.len()
        invariant
            j <= outputs@.len(),
            me@ == address@,
            received == wrap_i64(received_total(outputs@.take(j as int), address@)),
        decreases outputs@.len() - j,
    {
        proof {
            assert(outputs@.take(j + 1).drop_last() =~= outputs@.take(j as int));
            assert(outputs@.take(j + 1).last() == outputs@[j as int]);
        }
        if pays_to(&outputs[j], &me) {
            proof {
                lemma_wrapping_add_unsigned(
                    received_total(outputs@.take(j as int), address@),
                    received,
                    outputs[j as int].value,
                );
            }
            received = received.wrapping_add_unsigned(outputs[j].value);
        }
        j = j + 1;
    }
    proof {
        assert(inputs@.take(i as int) =~= inputs@);
        assert(outputs@.take(j as int) =~= outputs@);
        let r = received_total(outputs@, address@);
        let s = spent_total(inputs@, address@);
        lemma_wrap_sub(r, s);
        lemma_wrap_range(r);
        lemma_wrap_range(s);
        if received - spent > i64::MAX {
            lemma_wrap_shift(received - spent - 0x1_0000_0000_0000_0000, 1);
            lemma_wrap_identity(received - spent - 0x1_0000_0000_0000_0000);
        } else if received - spent < i64::MIN {
            lemma_wrap_shift(received - spent + 0x1_0000_0000_0000_0000, -1);
            lemma_wrap_identity(received - spent + 0x1_0000_0000_0000_0000);
        } else {
            lemma_wrap_identity(received - spent);
        }
    }
    let net = received.wrapping_sub(spent);
    let mut k: usize = 0;
    proof {
        assert(outputs@.skip(0) =~= outputs@);
    }
    while k < outputs.len() && pays_to(&outputs[k], &me)
        invariant
            k <= outputs@.len(),
            me@ == address@,
            first_foreign_output(outputs@, address@) == first_foreign_output(
                outputs@.skip(k as int),
                address@,
            ),
        decreases outputs@.len() - k,
    {
        proof {
            assert(outputs@.skip(k as int)[0] == outputs@[k as int]);
            assert(outputs@.skip(k as int).drop_first() =~= outputs@.skip(k + 1));
        }
        k = k + 1;
    }
    let counterparty = if k < outputs.len() {
        proof {
            assert(outputs@.skip(k as int)[0] == outputs@[k as int]);
        }
        outputs[k].address.clone()
    } else {
        None
    };
    BtcFlow { net, counterparty }
}


/// Direction and counterparty of a transfer as seen from the looked-up address.
#[derive(Clone, Debug)]
pub struct Transfer {
    pub incoming: bool,
    pub counterparty: Option<String>,
}

/// An account-based transfer (ETH, BNB, USDT on Ethereum) from `from` to
/// `to`: incoming when `to` is the looked-up address, ignoring case; the
/// counterparty is the other side.
pub fn account_transfer(address: &str, from: &str, to: &str) -> (t: Transfer)
    ensures
        t.incoming == (lowercase_text(to@) == lowercase_text(address@)),
        text_option(t.counterparty) == Some(
            if t.incoming {
                from@
            } else {
                to@
            },
        ),
{
    let me = to_lowercase(address);
    let dest = to_lowercase(to);
    let incoming = dest == me;
    let counterparty = if incoming {
        Some(String::from_str(from))
    } else {
        Some(String::from_str(to))
    };
    Transfer { incoming, counterparty }
}

/// A TRC-20 transfer sent by `owner`: incoming unless `owner` is the
/// looked-up address, ignoring case; the counterparty is the sender of an
/// incoming transfer and the recipient (when known) of an outgoing one.
pub fn tron_transfer(address: &str, owner: &str, to_address: Option<String>) -> (t: Transfer)
    ensures
        t.incoming == (lowercase_text(owner@) != lowercase_text(address@)),
        text_option(t.counterparty) == if t.incoming {
            Some(owner@)
        } else {
            text_option(to_address)
        },
{
    let me = to_lowercase(address);
    let sender = to_lowercase(owner);
    let incoming = !(sender == me);
    let counterparty = if incoming {
        Some(String::from_str(owner))
    } else {
        to_address
    };
    Transfer { incoming, counterparty }
}

/// The token id of USDT on Tron.
pub open spec fn usdt_tron_id() -> Seq<char> {
    "TR7NHqjeKQxGTCi8q8ZY4pL8otSzgjLj6t"@
}

/// A token balance as an API lists it: token id and raw balance text.
#[derive(Clone, Debug)]
pub struct TokenBalance {
    pub token_id: String,
    pub balance: String,
}

/// The balance text of the last USDT entry of `ts`.
pub open spec fn last_usdt_balance(ts: Seq<TokenBalance>) -> Option<Seq<char>>
    decreases ts.len(),
{
    if ts.len() == 0 {
        None
    } else if ts.last().token_id@ == usdt_tron_id() {
        Some(ts.last().balance@)
    } else {
        last_usdt_balance(ts.drop_last())
    }
}

/// The balance text of USDT among `tokens`; the last entry for it counts.
pub fn usdt_balance_entry(tokens: &Vec<TokenBalance>) -> (b: Option<String>)
    ensures
        text_option(b) == last_usdt_balance(tokens@),
{
    let usdt = String::from_str("TR7NHqjeKQxGTCi8q8ZY4pL8otSzgjLj6t");
    let mut found: Option<String> = None;
    let mut i: usize = 0;
    proof {
        assert(tokens@.take(0) =~= Seq::<TokenBalance>::empty());
    }
    while i < tokens.len()
        invariant
            i <= tokens@.len(),
            usdt@ == usdt_tron_id(),
            text_option(found) == last_usdt_balance(tokens@.take(i as int)),
        decreases tokens@.len() - i,
    {
        proof {
            assert(tokens@.take(i + 1).drop_last() =~= tokens@.take(i as int));
            assert(tokens@.take(i + 1).last() == tokens@[i as int]);
        }
        if tokens[i].token_id == usdt {
            found = Some(tokens[i].balance.clone());
        }
        i = i + 1;
    }
    proof {
        assert(tokens@.take(i as int) =~= tokens@);
    }
    found
}

/// The USDT balance text of the last token map in `maps` that has one (each
/// map lists token id and balance; within a map the first entry counts).
pub open spec fn last_map_usdt_balance(maps: Seq<Vec<TokenBalance>>) -> Option<Seq<char>>
    decreases maps.len(),
{
    if maps.len() == 0 {
        None
    } else if first_usdt_balance(maps.last()@) is Some {
        first_usdt_balance(maps.last()@)
    } else {
        last_map_usdt_balance(maps.drop_last())
    }
}

/// The balance text of the first USDT entry of `ts`.
pub open spec fn first_usdt_balance(ts: Seq<TokenBalance>) -> Option<Seq<char>>
    decreases ts.len(),
{
    if ts.len() == 0 {
        None
    } else if ts[0].token_id@ == usdt_tron_id() {
        Some(ts[0].balance@)
    } else {
        first_usdt_balance(ts.drop_first())
    }
}

fn first_usdt_entry(ts: &Vec<TokenBalance>, usdt: &String) -> (b: Option<String>)
    requires
        usdt@ == usdt_tron_id(),
    ensures
        text_option(b) == first_usdt_balance(ts@),
{
    let mut i: usize = 0;
    proof {
        assert(ts@.skip(0) =~= ts@);
    }
    while i < ts.len()
        invariant
            i <= ts@.len(),
            usdt@ == usdt_tron_id(),
            first_usdt_balance(ts@) == first_usdt_balance(ts@.skip(i as int)),
        decreases ts@.len() - i,
    {
        proof {
            assert(ts@.skip(i as int)[0] == ts@[i as int]);
            assert(ts@.skip(i as int).drop_first() =~= ts@.skip(i + 1));
        }
        if ts[i].token_id == *usdt {
            return Some(ts[i].balance.clone());
        }
        i = i + 1;
    }
    None
}

/// The USDT balance text given by a list of token maps; the last map that
/// lists USDT counts.
pub fn grid_usdt_balance(maps: &Vec<Vec<TokenBalance>>) -> (b: Option<String>)
    ensures
        text_option(b) == last_map_usdt_balance(maps@),
{
    let usdt = String::from_str("TR7NHqjeKQxGTCi8q8ZY4pL8otSzgjLj6t");
    let mut found: Option<String> = None;
    let mut i: usize = 0;
    proof {
        assert(maps@.take(0) =~= Seq::<Vec<TokenBalance>>::empty());
    }
    while i < maps.len()
        invariant
            i <= maps@.len(),
            usdt@ == usdt_tron_id(),
            text_option(found) == last_map_usdt_balance(maps@.take(i as int)),
        decreases maps@.len() - i,
    {
        proof {
            assert(maps@.take(i + 1).drop_last() =~= maps@.take(i as int));
            assert(maps@.take(i + 1).last() == maps@[i as int]);
        }
        let entry = first_usdt_entry(&maps[i], &usdt);
        if entry.is_some() {
            found = entry;
        }
        i = i + 1;
    }
    proof {
        assert(maps@.take(i as int) =~= maps@);
    }
    found
}

/// Where the USDT balance on Tron is read from.
#[derive(Clone, Copy, Debug, PartialEq, Eq, Structural)]
pub enum BalanceSource {
    AccountV2,
    TronGrid,
    Unavailable,
}

/// Which source the Tron balance comes from, given the HTTP status of the
/// Tronscan account request: its own reply on success, TronGrid when it was
/// refused as unauthorized (401), none otherwise.
pub fn tron_balance_source(status: u16) -> (s: BalanceSource)
    ensures
        200 <= status <= 299 ==> s == BalanceSource::AccountV2,
        status == 401 ==> s == BalanceSource::TronGrid,
        !(200 <= status <= 299) && status != 401 ==> s == BalanceSource::Unavailable,
{
    if 200 <= status && status <= 299 {
        BalanceSource::AccountV2
    } else if status == 401 {
        BalanceSource::TronGrid
    } else {
        BalanceSource::Unavailable
    }
}

pub open spec fn is_digit(c: char) -> bool {
    '0' <= c <= '9'
}

/// The number the decimal digits `s` spell.
pub open spec fn digits_value(s: Seq<char>) -> int
    decreases s.len(),
{
    if s.len() == 0 {
        0
    } else {
        digits_value(s.drop_last()) * 10 + (s.last() as int - '0' as int)
    }
}

/// `s` is one or more ASCII digits.
pub open spec fn all_digits(s: Seq<char>) -> bool {
    s.len() > 0 && forall|i: int| 0 <= i < s.len() ==> #[trigger] is_digit(s[i])
}

/// The length of the leading sign of `s` (`+` or `-`), 0 or 1.
pub open spec fn sign_len(s: Seq<char>) -> int {
    if s.len() > 0 && (s[0] == '-' || s[0] == '+') {
        1
    } else {
        0
    }
}

/// What `str::parse::<i64>` accepts: an optional `+` or `-`, then one or
/// more ASCII digits, for a value within the range of `i64`.
pub open spec fn parsed_i64(s: Seq<char>) -> Option<int> {
    let body = s.skip(sign_len(s));
    let v = if s.len() > 0 && s[0] == '-' {
        -digits_value(body)
    } else {
        digits_value(body)
    };
    if all_digits(body) && i64::MIN <= v <= i64::MAX {
        Some(v)
    } else {
        None
    }
}

proof fn lemma_digits_value_grows(s: Seq<char>, i: int)
    requires
        0 <= i <= s.len(),
        forall|j: int| 0 <= j < s.len() ==> #[trigger] is_digit(s[j]),
    ensures
        digits_value(s.take(i)) <= digits_value(s),
        0 <= digits_value(s.take(i)),
    decreases s.len() - i,
{
    if i < s.len() {
        lemma_digits_value_grows(s, i + 1);
        assert(s.take(i + 1).drop_last() =~= s.take(i));
        assert(is_digit(s.take(i + 1).last()));
        lemma_digits_value_nonneg(s.take(i));
    } else {
        assert(s.take(i) =~= s);
        lemma_digits_value_nonneg(s);
    }
}

proof fn lemma_digits_value_nonneg(s: Seq<char>)
    requires
        forall|j: int| 0 <= j < s.len() ==> #[trigger] is_digit(s[j]),
    ensures
        0 <= digits_value(s),
    decreases s.len(),
{
    if s.len() > 0 {
        assert(is_digit(s[s.len() - 1]));
        lemma_digits_value_nonneg(s.drop_last());
    }
}

/// A timestamp given as text, as the original reads it: the number when it
/// parses as an `i64`, else 0.
pub fn parse_timestamp(text: &str) -> (v: i64)
    ensures
        v == match parsed_i64(text@) {
            Some(n) => n,
            None => 0,
        },
{
    let s = chars_of(text);
    let neg = s.len() > 0 && s[0] == '-';
    let start: usize = if s.len() > 0 && (s[0] == '-' || s[0] == '+') {
        1
    } else {
        0
    };
    let ghost body = s@.skip(start as int);
    if start == s.len() {
        return 0;
    }
    let mut mag: u128 = 0;
    let mut i: usize = start;
    proof {
        assert(body.take(0) =~= Seq::<char>::empty());
    }
    while i < s.len()
        invariant
            start <= i <= s@.len(),
            s@ == text@,
            neg == (s@.len() > 0 && s@[0] == '-'),
            start == (if s@.len() > 0 && (s@[0] == '-' || s@[0] == '+') {
                1usize
            } else {
                0usize
            }),
            body == s@.skip(start as int),
            start == sign_len(s@),
            mag == digits_value(body.take(i - start)),
            mag <= 0x8000_0000_0000_0000,
            forall|j: int| 0 <= j < i - start ==> #[trigger] is_digit(body[j]),
        decreases s@.len() - i,
    {
        let c = s[i];
        if !('0' <= c && c <= '9') {
            proof {
                assert(!is_digit(body[i - start]));
                assert(!all_digits(body));
            }
            return 0;
        }
        let d = (c as u32 - '0' as u32) as u128;
        proof {
            assert(body.take(i - start + 1).drop_last() =~= body.take(i - start));
            assert(body.take(i - start + 1).last() == c);
        }
        mag = mag * 10 + d;
        if mag > 0x8000_0000_0000_0000 {
            proof {
                if all_digits(body) {
                    lemma_digits_value_grows(body, i - start + 1);
                }
            }
            return 0;
        }
        i = i + 1;
    }
    proof {
        assert(body.take(i - start) =~= body);
    }
    if neg {
        if mag == 0x8000_0000_0000_0000 {
            i64::MIN
        } else {
            -(mag as i64)
        }
    } else {
        if mag > 0x7FFF_FFFF_FFFF_FFFF {
            0
        } else {
            mag as i64
        }
    }
}

/// Division rounding toward zero, as Rust's integer `/` does.
pub open spec fn div_toward_zero(a: int, b: int) -> int {
    if a >= 0 {
        a / b
    } else {
        -((-a) / b)
    }
}

/// A millisecond timestamp in whole seconds (`ms / 1000`).
pub fn seconds_from_millis(ms: i64) -> (s: i64)
    ensures
        s == div_toward_zero(ms as int, 1000),
{
    if ms >= 0 {
        ((ms as u64) / 1000) as i64
    } else {
        let p = (0 - (ms as i128)) as u128;
        0 - ((p / 1000) as i64)
    }
}

/// The date of a transaction made at UNIX time `secs`, when chrono can
/// represent it.
pub fn utc_date(secs: i64) -> (d: Option<i64>)
    ensures
        d == if utc_representable(secs) {
            Some(secs)
        } else {
            None
        },
{
    if utc_timestamp_exists(secs) {
        Some(secs)
    } else {
        None
    }
}


/// Date order: an unconfirmed transaction (no date) comes before any dated
/// one; dated ones go by time.
pub open spec fn date_before(a: Option<i64>, b: Option<i64>) -> bool {
    match (a, b) {
        (None, Some(_)) => true,
        (Some(x), Some(y)) => x < y,
        _ => false,
    }
}

/// `out` is `src` sorted by date, stably: `perm` says which transaction of
/// `src` stands at each place of `out`, and transactions of equal date keep
/// their order.
pub open spec fn stably_sorted(src: Seq<Transaction>, out: Seq<Transaction>, perm: Seq<int>) -> bool {
    &&& out.len() == src.len()
    &&& perm.len() == src.len()
    &&& forall|k: int|
        0 <= k < out.len() ==> 0 <= #[trigger] perm[k] < src.len() && out[k] == src[perm[k]]
    &&& forall|k: int, l: int| 0 <= k < l < out.len() ==> #[trigger] perm[k] != #[trigger] perm[l]
    &&& forall|k: int, l: int|
        0 <= k < l < out.len() ==> date_before((#[trigger] out[k]).date, (#[trigger] out[l]).date)
            || (out[k].date == out[l].date && perm[k] < perm[l])
}

fn is_date_before(a: Option<i64>, b: Option<i64>) -> (r: bool)
    ensures
        r == date_before(a, b),
{
    match (a, b) {
        (None, Some(_)) => true,
        (Some(x), Some(y)) => x < y,
        _ => false,
    }
}

/// Sort transactions by date, oldest first, keeping the order of
/// transactions with the same date (unconfirmed ones first).
pub fn sort_by_date(txs: Vec<Transaction>) -> (out: Vec<Transaction>)
    ensures
        exists|perm: Seq<int>| stably_sorted(txs@, out@, perm),
{
    let ghost src = txs@;
    let total = txs.len();
    let mut rest = txs;
    let mut out: Vec<Transaction> = Vec::new();
    let ghost mut perm: Seq<int> = Seq::empty();
    let mut i: usize = 0;
    proof {
        assert(src.skip(0) =~= src);
    }
    while rest.len() > 0
        invariant
            i <= src.len(),
            src.len() == total,
            rest@ == src.skip(i as int),
            out@.len() == i,
            perm.len() == i,
            forall|k: int| 0 <= k < i ==> 0 <= #[trigger] perm[k] < i && out@[k] == src[perm[k]],
            forall|k: int, l: int| 0 <= k < l < i ==> #[trigger] perm[k] != #[trigger] perm[l],
            forall|k: int, l: int|
                0 <= k < l < i ==> date_before((#[trigger] out@[k]).date, (#[trigger] out@[l]).date)
                    || (out@[k].date == out@[l].date && perm[k] < perm[l]),
        decreases rest@.len(),
    {
        proof {
            assert(src.skip(i as int).len() == src.len() - i);
        }
        let x = rest.remove(0);
        proof {
            assert(x == src[i as int]);
            assert(rest@ =~= src.skip(i + 1));
        }
        let mut j: usize = 0;
        while j < out.len() && !is_date_before(x.date, out[j].date)
            invariant
                j <= out@.len(),
                forall|k: int| 0 <= k < j ==> !date_before(x.date, (#[trigger] out@[k]).date),
            decreases out@.len() - j,
        {
            j = j + 1;
        }
        let ghost old_out = out@;
        let ghost old_perm = perm;
        out.insert(j, x);
        proof {
            perm = perm.insert(j as int, i as int);
            let n = out@;
            assert(n == old_out.insert(j as int, x));
            assert forall|k: int| 0 <= k < i + 1 implies 0 <= #[trigger] perm[k] < i + 1 && n[k]
                == src[perm[k]] by {
                if k < j {
                    assert(perm[k] == old_perm[k] && n[k] == old_out[k]);
                } else if k > j {
                    assert(perm[k] == old_perm[k - 1] && n[k] == old_out[k - 1]);
                }
            }
            assert forall|k: int, l: int| 0 <= k < l < i + 1 implies #[trigger] perm[k]
                != #[trigger] perm[l] by {
                if k < j && l < j {
                    assert(perm[k] == old_perm[k] && perm[l] == old_perm[l]);
                } else if k < j && l == j {
                    assert(perm[k] == old_perm[k]);
                } else if k < j {
                    assert(perm[k] == old_perm[k] && perm[l] == old_perm[l - 1]);
                } else if k == j {
                    assert(perm[l] == old_perm[l - 1]);
                } else {
                    assert(perm[k] == old_perm[k - 1] && perm[l] == old_perm[l - 1]);
                }
            }
            assert forall|k: int, l: int| 0 <= k < l < i + 1 implies date_before(
                (#[trigger] n[k]).date,
                (#[trigger] n[l]).date,
            ) || (n[k].date == n[l].date && perm[k] < perm[l]) by {
                if k < j && l < j {
                    assert(perm[k] == old_perm[k] && perm[l] == old_perm[l]);
                    assert(n[k] == old_out[k] && n[l] == old_out[l]);
                } else if k < j && l == j {
                    assert(perm[k] == old_perm[k] && n[k] == old_out[k]);
                    assert(!date_before(x.date, old_out[k].date));
                } else if k < j {
                    assert(perm[k] == old_perm[k] && perm[l] == old_perm[l - 1]);
                    assert(n[k] == old_out[k] && n[l] == old_out[l - 1]);
                } else if k == j {
                    assert(perm[l] == old_perm[l - 1] && n[l] == old_out[l - 1]);
                    assert(date_before(x.date, old_out[j as int].date));
                    if l - 1 > j {
                        assert(date_before(old_out[j as int].date, old_out[l - 1].date)
                            || old_out[j as int].date == old_out[l - 1].date);
                    }
                } else {
                    assert(perm[k] == old_perm[k - 1] && perm[l] == old_perm[l - 1]);
                    assert(n[k] == old_out[k - 1] && n[l] == old_out[l - 1]);
                }
            }
        }
        i = i + 1;
    }
    proof {
        assert(stably_sorted(src, out@, perm));
    }
    out
}

/// The earlier of a known earliest date `a` and a transaction date `d`.
pub open spec fn earlier(a: Option<i64>, d: Option<i64>) -> Option<i64> {
    match (a, d) {
        (None, _) => d,
        (Some(_), None) => a,
        (Some(x), Some(y)) => Some(
            if y < x {
                y
            } else {
                x
            },
        ),
    }
}

/// The later of a known latest date `a` and a transaction date `d`.
pub open spec fn later(a: Option<i64>, d: Option<i64>) -> Option<i64> {
    match (a, d) {
        (None, _) => d,
        (Some(_), None) => a,
        (Some(x), Some(y)) => Some(
            if y > x {
                y
            } else {
                x
            },
        ),
    }
}

/// The earliest date among `txs` (`None` when none is dated).
pub open spec fn earliest_date(txs: Seq<Transaction>) -> Option<i64>
    decreases txs.len(),
{
    if txs.len() == 0 {
        None
    } else {
        earlier(earliest_date(txs.drop_last()), txs.last().date)
    }
}

/// The latest date among `txs` (`None` when none is dated).
pub open spec fn latest_date(txs: Seq<Transaction>) -> Option<i64>
    decreases txs.len(),
{
    if txs.len() == 0 {
        None
    } else {
        later(latest_date(txs.drop_last()), txs.last().date)
    }
}

/// A wallet from what a lookup found: the transactions sorted by date, and
/// the first and last dates seen. `reported_tx_count` is the number of
/// transactions the API reports, where it reports one; otherwise the
/// transactions are counted.
pub fn assemble_wallet(
    address: &str,
    chain: Chain,
    balance_display: String,
    reported_tx_count: Option<u64>,
    transactions: Vec<Transaction>,
) -> (w: WalletInfo)
    ensures
        w.address@ == address@,
        w.chain == chain,
        w.balance_display == balance_display,
        w.tx_count == match reported_tx_count {
            Some(n) => n as int,
            None => transactions@.len() as int,
        },
        exists|perm: Seq<int>| stably_sorted(transactions@, w.transactions@, perm),
        w.first_seen == earliest_date(w.transactions@),
        w.last_seen == latest_date(w.transactions@),
{
    let count: u64 = match reported_tx_count {
        Some(n) => n,
        None => transactions.len() as u64,
    };
    let sorted = sort_by_date(transactions);
    let mut first: Option<i64> = None;
    let mut last: Option<i64> = None;
    let mut i: usize = 0;
    proof {
        assert(sorted@.take(0) =~= Seq::<Transaction>::empty());
    }
    while i < sorted.len()
        invariant
            i <= sorted@.len(),
            first == earliest_date(sorted@.take(i as int)),
            last == latest_date(sorted@.take(i as int)),
        decreases sorted@.len() - i,
    {
        proof {
            assert(sorted@.take(i + 1).drop_last() =~= sorted@.take(i as int));
            assert(sorted@.take(i + 1).last() == sorted@[i as int]);
        }
        let d = sorted[i].date;
        first = match (first, d) {
            (None, _) => d,
            (Some(_), None) => first,
            (Some(x), Some(y)) => Some(
                if y < x {
                    y
                } else {
                    x
                },
            ),
        };
        last = match (last, d) {
            (None, _) => d,
            (Some(_), None) => last,
            (Some(x), Some(y)) => Some(
                if y > x {
                    y
                } else {
                    x
                },
            ),
        };
        i = i + 1;
    }
    proof {
        assert(sorted@.take(i as int) =~= sorted@);
    }
    WalletInfo {
        address: String::from_str(address),
        chain,
        balance_display,
        tx_count: count,
        first_seen: first,
        last_seen: last,
        transactions: sorted,
    }
}

/// One block of Blockstream's address statistics (confirmed, or in the mempool).
#[derive(Clone, Copy, Debug)]
pub struct ChainStats {
    pub funded_txo_sum: u64,
    pub spent_txo_sum: u64,
    pub tx_count: u64,
}

/// Satoshis received and sent, and transactions, over both blocks.
#[derive(Clone, Copy, Debug)]
pub struct BtcTotals {
    pub received: u64,
    pub sent: u64,
    pub tx_count: u64,
}

/// `a + b` in `u64`, wrapping around at 2^64.
pub open spec fn wrap_u64_sum(a: u64, b: u64) -> int {
    (a + b) % 0x1_0000_0000_0000_0000
}

/// The totals of a Bitcoin address: confirmed plus mempool figures (sums in
/// `u64`, wrapping).
pub fn btc_totals(confirmed: &ChainStats, mempool: &ChainStats) -> (t: BtcTotals)
    ensures
        t.received == wrap_u64_sum(confirmed.funded_txo_sum, mempool.funded_txo_sum),
        t.sent == wrap_u64_sum(confirmed.spent_txo_sum, mempool.spent_txo_sum),
        t.tx_count == wrap_u64_sum(confirmed.tx_count, mempool.tx_count),
{
    BtcTotals {
        received: confirmed.funded_txo_sum.wrapping_add(mempool.funded_txo_sum),
        sent: confirmed.spent_txo_sum.wrapping_add(mempool.spent_txo_sum),
        tx_count: confirmed.tx_count.wrapping_add(mempool.tx_count),
    }
}


/// Whether an Etherscan-style transaction counts: its `isError` field is `"0"`.
pub fn is_successful(is_error: &str) -> (b: bool)
    ensures
        b == (is_error@ == "0"@),
{
    let flag = String::from_str(is_error);
    let zero = String::from_str("0");
    flag == zero
}

/// A Solana transaction as listed by signature: no amount or counterparty
/// is known, only the signature and the block time.
pub fn sol_transaction(signature: String, block_time: Option<i64>) -> (t: Transaction)
    ensures
        t.txid == signature,
        t.date == match block_time {
            Some(secs) => if utc_representable(secs) {
                Some(secs)
            } else {
                None
            },
            None => None,
        },
        t.amount_satoshis == 0,
        t.amount_display@ == "SOL Tx"@,
        t.counterparty is None,
        t.chain == Chain::SOL,
{
    let date = match block_time {
        Some(secs) => utc_date(secs),
        None => None,
    };
    Transaction {
        txid: signature,
        date,
        amount_satoshis: 0,
        amount_display: String::from_str("SOL Tx"),
        counterparty: None,
        chain: Chain::SOL,
    }
}

} // verus!
