use monero_keys::errors::Error;
use monero_keys::lang::{language_from_code, Language};
use monero_keys::address::{network_from_code, Network};
use monero_keys::{generate_address, generate_mnemonic};

#[test]
fn language_codes_map_as_documented() {
    assert_eq!(language_from_code(0), Language::German);
    assert_eq!(language_from_code(1), Language::English);
    assert_eq!(language_from_code(7), Language::Russian);
    assert_eq!(language_from_code(12), Language::EnglishOld);
    assert_eq!(language_from_code(13), Language::English);
    assert_eq!(language_from_code(99), Language::English);
}

#[test]
fn network_codes_map_as_documented() {
    assert_eq!(network_from_code(0), Network::Mainnet);
    assert_eq!(network_from_code(1), Network::Testnet);
    assert_eq!(network_from_code(2), Network::Stagenet);
    assert_eq!(network_from_code(3), Network::Mainnet);
    assert_eq!(network_from_code(99), Network::Mainnet);
}

#[test]
fn generated_mnemonic_has_25_words_and_decodes() {
    let m = generate_mnemonic(1).expect("the random source must be available");
    assert_eq!(m.split(' ').count(), 25);
    let addr = generate_address(&m, 0, 0, 0);
    assert!(addr.is_ok());
}

#[test]
fn out_of_range_language_still_decodes() {
    let m = generate_mnemonic(99).expect("the random source must be available");
    assert_eq!(m.split(' ').count(), 25);
    let addr = generate_address(&m, 0, 0, 0);
    assert!(addr.is_ok(), "a mnemonic from an out-of-range language code must decode");
}

#[test]
fn out_of_range_network_defaults_to_mainnet() {
    let m = generate_mnemonic(1).unwrap();
    let default_net = generate_address(&m, 99, 0, 0).unwrap();
    let mainnet = generate_address(&m, 0, 0, 0).unwrap();
    assert_eq!(default_net, mainnet);
    assert!(default_net.starts_with('4'));
}

#[test]
fn malformed_mnemonic_gives_invalid_mnemonic() {
    assert_eq!(
        generate_address("not a real mnemonic phrase", 0, 0, 0),
        Err(Error::InvalidMnemonic)
    );
    assert_eq!(generate_address("", 0, 0, 0), Err(Error::InvalidMnemonic));
}

#[test]
fn generate_address_is_deterministic_per_position() {
    let m = generate_mnemonic(1).unwrap();
    let a1 = generate_address(&m, 0, 3, 4).unwrap();
    let a2 = generate_address(&m, 0, 3, 4).unwrap();
    assert_eq!(a1, a2);
    let b = generate_address(&m, 0, 4, 3).unwrap();
    assert_ne!(a1, b);
}

#[test]
fn zero_entropy_end_to_end() {
    let mut words: Vec<&str> = Vec::new();
    for _ in 0..25 {
        words.push("academy");
    }
    let mnemonic = words.join(" ");
    let addr = generate_address(&mnemonic, 0, 0, 0).unwrap();
    assert_eq!(
        addr,
        "41fJjQDhryD11111111111111111111111111111111112N1GuTZeagfRbbKcALdcZev4QXGGuoLh2x36LhaxLSxCc2YDhi"
    );
    let sub = generate_address(&mnemonic, 0, 1, 2).unwrap();
    assert!(sub.starts_with('8'));
    assert_ne!(addr, sub);
}

#[test]
fn subaddress_and_primary_strings_differ() {
    let m = generate_mnemonic(1).unwrap();
    let primary = generate_address(&m, 0, 0, 0).unwrap();
    let sub = generate_address(&m, 0, 0, 1).unwrap();
    assert_eq!(primary.len(), 95);
    assert_eq!(sub.len(), 95);
    assert_ne!(primary, sub);
    assert!(sub.starts_with('8'), "mainnet subaddresses start with 8, got {sub}");
}
