use chaintrack::detect::{chain_for_address, chains_for_address, detect_chain, detect_chains, is_base58};
use chaintrack::types::Chain;

#[test]
fn btc_addresses_are_detected() {
    assert_eq!(detect_chain("1A1zP1eP5QGefi2DMPTfTL5SLmv7DivfNa"), Some(Chain::BTC));
    assert_eq!(detect_chain("3J98t1WpEZ73CNmQviecrnyiWrnqRhWNLy"), Some(Chain::BTC));
    assert_eq!(detect_chain("bc1qxy2kgdygjrsqtzq2n0yrf2493p83kkfjhx0wlh"), Some(Chain::BTC));
    assert_eq!(detect_chain("BC1QXY2KGDYGJRSQTZQ2N0YRF2493P83KKFJHX0WLH"), Some(Chain::BTC));
}

#[test]
fn eth_addresses_are_detected() {
    let addr = "0x742d35Cc6634C0532925a3b844Bc454e4438f44e";
    assert_eq!(addr.len(), 42);
    assert_eq!(detect_chain(addr), Some(Chain::ETH));
    assert_eq!(detect_chain("  0X742D35CC6634C0532925A3B844BC454E4438F44E \n"), Some(Chain::ETH));
    assert_eq!(detect_chains(addr), vec![Chain::ETH, Chain::BNB]);
}

#[test]
fn short_hex_is_not_eth() {
    assert_eq!(detect_chain("0x1234"), None);
    assert_eq!(detect_chains("0x1234"), Vec::<Chain>::new());
}

#[test]
fn tron_addresses_are_detected() {
    let addr = "TR7NHqjeKQxGTCi8q8ZY4pL8otSzgjLj6t";
    assert_eq!(addr.len(), 34);
    assert_eq!(detect_chain(addr), Some(Chain::USDT_TRON));
    assert_eq!(detect_chains(addr), vec![Chain::USDT_TRON]);
    // lower case `t` is not a Tron address
    assert_eq!(detect_chain("tR7NHqjeKQxGTCi8q8ZY4pL8otSzgjLj6t"), None);
}

#[test]
fn solana_addresses_are_detected() {
    let addr = "9WzDXwBbmkg8ZTbNMqUxvQRAyrZzDsGYdLVL9zYtAWWM";
    assert_eq!(addr.len(), 44);
    assert_eq!(detect_chain(addr), Some(Chain::SOL));
    assert_eq!(detect_chains(addr), vec![Chain::SOL]);
    // an excluded Base58 letter makes it unknown
    assert_eq!(detect_chain("9WzDXwBbmkg8ZTbNMqUxvQRAyrZzDsGYdLVL9zYtAWW0"), None);
}

#[test]
fn btc_prefix_wins_over_other_formats() {
    // 34 characters starting with `1`: BTC, even though long enough for other tests
    assert_eq!(detect_chain("1TR7NHqjeKQxGTCi8q8ZY4pL8otSzgjLj6"), Some(Chain::BTC));
}

#[test]
fn unknown_addresses() {
    assert_eq!(detect_chain("hello"), None);
    assert_eq!(detect_chain(""), None);
    assert_eq!(detect_chain("   "), None);
    assert!(detect_chains("hello").is_empty());
}

#[test]
fn base58_alphabet() {
    assert!(is_base58("abcXYZ123"));
    assert!(is_base58(""));
    assert!(!is_base58("0"));
    assert!(!is_base58("O"));
    assert!(!is_base58("I"));
    assert!(!is_base58("l"));
    assert!(!is_base58("ab-c"));
    assert!(!is_base58("é"));
}

#[test]
fn detection_from_given_lower_case() {
    // the helper reads the lower-case form it is given
    assert_eq!(chain_for_address("X", "0x0000000000000000000000000000000000000000"), Some(Chain::ETH));
    assert_eq!(chains_for_address("X", "1"), vec![Chain::BTC]);
}
