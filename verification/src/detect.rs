use vstd::prelude::*;

use crate::text::{byte_len, byte_len_at_most, byte_len_is, chars_of, starts_with, trim_seq, trimmed};
use crate::types::Chain;
use crate::wrappers::{lowercase_text, to_lowercase};

verus! {

/// A character of the Base58 alphabet: ASCII letters and digits without `0`, `O`, `I` and `l`.
pub open spec fn is_base58_char(c: char) -> bool {
    &&& ('0' <= c <= '9' || 'a' <= c <= 'z' || 'A' <= c <= 'Z')
    &&& c != '0'
    &&& c != 'O'
    &&& c != 'I'
    &&& c != 'l'
}

/// Every character of `s` is in the Base58 alphabet.
pub open spec fn all_base58(s: Seq<char>) -> bool {
    forall|i: int| 0 <= i < s.len() ==> #[trigger] is_base58_char(s[i])
}

/// The chain an address belongs to, judged by its format: `addr` is the
/// trimmed address and `lower` its lower-case form.
pub open spec fn chain_of(addr: Seq<char>, lower: Seq<char>) -> Option<Chain> {
    if starts_with(lower, seq!['0', 'x']) && byte_len(lower) == 42 {
        Some(Chain::ETH)
    } else if starts_with(lower, seq!['1']) || starts_with(lower, seq!['3']) || starts_with(
        lower,
        seq!['b', 'c', '1'],
    ) {
        Some(Chain::BTC)
    } else if starts_with(addr, seq!['T']) && byte_len(addr) == 34 {
        Some(Chain::USDT_TRON)
    } else if 43 <= byte_len(addr) <= 44 && all_base58(addr) {
        Some(Chain::SOL)
    } else {
        None
    }
}

/// Every chain a batch looks an address up on: a `0x` address is tried on
/// both ETH and BNB, and the BTC test comes first.
pub open spec fn chains_of(addr: Seq<char>, lower: Seq<char>) -> Seq<Chain> {
    if starts_with(lower, seq!['1']) || starts_with(lower, seq!['3']) || starts_with(
        lower,
        seq!['b', 'c', '1'],
    ) {
        seq![Chain::BTC]
    } else if starts_with(lower, seq!['0', 'x']) && byte_len(lower) == 42 {
        seq![Chain::ETH, Chain::BNB]
    } else if starts_with(addr, seq!['T']) && byte_len(addr) == 34 {
        seq![Chain::USDT_TRON]
    } else if 43 <= byte_len(addr) <= 44 && all_base58(addr) {
        seq![Chain::SOL]
    } else {
        seq![]
    }
}

/// The Base58 alphabet, as Bitcoin and Solana addresses use it.
pub open spec fn base58_alphabet() -> Seq<char> {
    "123456789ABCDEFGHJKLMNPQRSTUVWXYZabcdefghijkmnopqrstuvwxyz"@
}

/// A character passes the Base58 test exactly when it is one of the 58
/// letters of the Base58 alphabet (every lower-case ASCII letter but `l`,
/// every upper-case one but `I` and `O`, every digit but `0`).
pub proof fn lemma_base58_char_is_alphabet(c: char)
    ensures
        is_base58_char(c) <==> base58_alphabet().contains(c),
{
    reveal_strlit("123456789ABCDEFGHJKLMNPQRSTUVWXYZabcdefghijkmnopqrstuvwxyz");
    let a = base58_alphabet();
    assert(a.len() == 58);

    assert(a[0] == '1');
    assert(a[1] == '2');
    assert(a[2] == '3');
    assert(a[3] == '4');
    assert(a[4] == '5');
    assert(a[5] == '6');
    assert(a[6] == '7');
    assert(a[7] == '8');
    assert(a[8] == '9');
    assert(a[9] == 'A');
    assert(a[10] == 'B');
    assert(a[11] == 'C');
    assert(a[12] == 'D');
    assert(a[13] == 'E');
    assert(a[14] == 'F');
    assert(a[15] == 'G');
    assert(a[16] == 'H');
    assert(a[17] == 'J');
    assert(a[18] == 'K');
    assert(a[19] == 'L');
    assert(a[20] == 'M');
    assert(a[21] == 'N');
    assert(a[22] == 'P');
    assert(a[23] == 'Q');
    assert(a[24] == 'R');
    assert(a[25] == 'S');
    assert(a[26] == 'T');
    assert(a[27] == 'U');
    assert(a[28] == 'V');
    assert(a[29] == 'W');
    assert(a[30] == 'X');
    assert(a[31] == 'Y');
    assert(a[32] == 'Z');
    assert(a[33] == 'a');
    assert(a[34] == 'b');
    assert(a[35] == 'c');
    assert(a[36] == 'd');
    assert(a[37] == 'e');
    assert(a[38] == 'f');
    assert(a[39] == 'g');
    assert(a[40] == 'h');
    assert(a[41] == 'i');
    assert(a[42] == 'j');
    assert(a[43] == 'k');
    assert(a[44] == 'm');
    assert(a[45] == 'n');
    assert(a[46] == 'o');
    assert(a[47] == 'p');
    assert(a[48] == 'q');
    assert(a[49] == 'r');
    assert(a[50] == 's');
    assert(a[51] == 't');
    assert(a[52] == 'u');
    assert(a[53] == 'v');
    assert(a[54] == 'w');
    assert(a[55] == 'x');
    assert(a[56] == 'y');
    assert(a[57] == 'z');
    if a.contains(c) {
        let i = choose|i: int| 0 <= i < a.len() && a[i] == c;
        if i == 0 {
        } else if i == 1 {
        } else if i == 2 {
        } else if i == 3 {
        } else if i == 4 {
        } else if i == 5 {
        } else if i == 6 {
        } else if i == 7 {
        } else if i == 8 {
        } else if i == 9 {
        } else if i == 10 {
        } else if i == 11 {
        } else if i == 12 {
        } else if i == 13 {
        } else if i == 14 {
        } else if i == 15 {
        } else if i == 16 {
        } else if i == 17 {
        } else if i == 18 {
        } else if i == 19 {
        } else if i == 20 {
        } else if i == 21 {
        } else if i == 22 {
        } else if i == 23 {
        } else if i == 24 {
        } else if i == 25 {
        } else if i == 26 {
        } else if i == 27 {
        } else if i == 28 {
        } else if i == 29 {
        } else if i == 30 {
        } else if i == 31 {
        } else if i == 32 {
        } else if i == 33 {
        } else if i == 34 {
        } else if i == 35 {
        } else if i == 36 {
        } else if i == 37 {
        } else if i == 38 {
        } else if i == 39 {
        } else if i == 40 {
        } else if i == 41 {
        } else if i == 42 {
        } else if i == 43 {
        } else if i == 44 {
        } else if i == 45 {
        } else if i == 46 {
        } else if i == 47 {
        } else if i == 48 {
        } else if i == 49 {
        } else if i == 50 {
        } else if i == 51 {
        } else if i == 52 {
        } else if i == 53 {
        } else if i == 54 {
        } else if i == 55 {
        } else if i == 56 {
        } else if i == 57 {
        }
        assert(is_base58_char(a[i]));
    }
    if is_base58_char(c) {
        assert(a.contains(c));
    }
}

/// A text passes the Base58 test exactly when every character of it is in
/// the Base58 alphabet.
pub proof fn lemma_base58_text_is_alphabet(s: Seq<char>)
    ensures
        all_base58(s) <==> forall|i: int| 0 <= i < s.len() ==> base58_alphabet().contains(#[trigger] s[i]),
{
    assert forall|i: int| 0 <= i < s.len() implies (is_base58_char(s[i]) <==> base58_alphabet().contains(s[i])) by {
        lemma_base58_char_is_alphabet(s[i]);
    }
}

/// Whether every character of `s` is a Base58 character.
pub fn is_base58(s: &str) -> (b: bool)
    ensures
        b == all_base58(s@),
        b <==> forall|i: int| 0 <= i < s@.len() ==> base58_alphabet().contains(#[trigger] s@[i]),
{
    proof {
        lemma_base58_text_is_alphabet(s@);
    }
    let v = chars_of(s);
    let mut i: usize = 0;
    while i < v.len()
        invariant
            i <= v@.len(),
            v@ == s@,
            forall|j: int| 0 <= j < i ==> #[trigger] is_base58_char(v@[j]),
        decreases v@.len() - i,
    {
        let c = v[i];
        let ok = (('0' <= c && c <= '9') || ('a' <= c && c <= 'z') || ('A' <= c && c <= 'Z'))
            && c != '0' && c != 'O' && c != 'I' && c != 'l';
        if !ok {
            assert(!is_base58_char(v@[i as int]));
            proof {
                lemma_base58_text_is_alphabet(s@);
            }
            return false;
        }
        i = i + 1;
    }
    true
}

fn begins_with_one(v: &Vec<char>, c: char) -> (b: bool)
    ensures
        b == starts_with(v@, seq![c]),
{
    if v.len() >= 1 {
        proof {
            assert(v@.take(1) =~= seq![v@[0]]);
            if v@.take(1) == seq![c] {
                assert(v@.take(1)[0] == c);
            }
        }
        v[0] == c
    } else {
        false
    }
}

fn begins_with_two(v: &Vec<char>, c0: char, c1: char) -> (b: bool)
    ensures
        b == starts_with(v@, seq![c0, c1]),
{
    if v.len() >= 2 {
        proof {
            assert(v@.take(2) =~= seq![v@[0], v@[1]]);
            if v@.take(2) == seq![c0, c1] {
                assert(v@.take(2)[0] == c0 && v@.take(2)[1] == c1);
            }
        }
        v[0] == c0 && v[1] == c1
    } else {
        false
    }
}

fn begins_with_three(v: &Vec<char>, c0: char, c1: char, c2: char) -> (b: bool)
    ensures
        b == starts_with(v@, seq![c0, c1, c2]),
{
    if v.len() >= 3 {
        proof {
            assert(v@.take(3) =~= seq![v@[0], v@[1], v@[2]]);
            if v@.take(3) == seq![c0, c1, c2] {
                assert(v@.take(3)[0] == c0 && v@.take(3)[1] == c1 && v@.take(3)[2] == c2);
            }
        }
        v[0] == c0 && v[1] == c1 && v[2] == c2
    } else {
        false
    }
}

/// The chain `address` belongs to, given the address (already trimmed) and
/// its lower-case form.
pub fn chain_for_address(address: &str, lowered: &str) -> (r: Option<Chain>)
    ensures
        r == chain_of(address@, lowered@),
{
    let a = chars_of(address);
    let lo = chars_of(lowered);
    if begins_with_two(&lo, '0', 'x') && byte_len_is(&lo, 42) {
        Some(Chain::ETH)
    } else if begins_with_one(&lo, '1') || begins_with_one(&lo, '3') || begins_with_three(
        &lo,
        'b',
        'c',
        '1',
    ) {
        Some(Chain::BTC)
    } else if begins_with_one(&a, 'T') && byte_len_is(&a, 34) {
        Some(Chain::USDT_TRON)
    } else if byte_len_at_most(&a, 44) && !byte_len_at_most(&a, 42) && is_base58(address) {
        Some(Chain::SOL)
    } else {
        None
    }
}

/// The chains a batch looks `address` up on, given the address (already
/// trimmed) and its lower-case form.
pub fn chains_for_address(address: &str, lowered: &str) -> (r: Vec<Chain>)
    ensures
        r@ == chains_of(address@, lowered@),
{
    let a = chars_of(address);
    let lo = chars_of(lowered);
    if begins_with_one(&lo, '1') || begins_with_one(&lo, '3') || begins_with_three(
        &lo,
        'b',
        'c',
        '1',
    ) {
        vec![Chain::BTC]
    } else if begins_with_two(&lo, '0', 'x') && byte_len_is(&lo, 42) {
        vec![Chain::ETH, Chain::BNB]
    } else if begins_with_one(&a, 'T') && byte_len_is(&a, 34) {
        vec![Chain::USDT_TRON]
    } else if byte_len_at_most(&a, 44) && !byte_len_at_most(&a, 42) && is_base58(address) {
        vec![Chain::SOL]
    } else {
        vec![]
    }
}

/// Detect chain type by address format.
pub fn detect_chain(address: &str) -> (r: Option<Chain>)
    ensures
        r == chain_of(trim_seq(address@), lowercase_text(trim_seq(address@))),
{
    let addr = trimmed(address);
    let lower = to_lowercase(addr.as_str());
    chain_for_address(addr.as_str(), lower.as_str())
}

/// The chains an address is looked up on in a batch, by its format.
pub fn detect_chains(address: &str) -> (r: Vec<Chain>)
    ensures
        r@ == chains_of(trim_seq(address@), lowercase_text(trim_seq(address@))),
{
    let addr = trimmed(address);
    let lower = to_lowercase(addr.as_str());
    chains_for_address(addr.as_str(), lower.as_str())
}

} // verus!
