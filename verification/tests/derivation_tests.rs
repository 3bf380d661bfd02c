use monero_keys::address::{build, AddressKind, Network, SubaddressIndex};
use monero_keys::errors::Error;
use monero_keys::keys::subaddress_scalars;

fn hex(bytes: &[u8]) -> String {
    let mut s = String::new();
    for b in bytes {
        s.push_str(&format!("{:02x}", b));
    }
    s
}

#[test]
fn derivation_is_deterministic() {
    let mut e = [0u8; 32];
    let mut i = 0usize;
    while i < 32 {
        e[i] = (i * 7 + 3) as u8;
        i += 1;
    }
    let a = monero_keys::keys::derive(&e);
    let b = monero_keys::keys::derive(&e);
    assert_eq!(a.spend_scalar, b.spend_scalar);
    assert_eq!(a.spend_point, b.spend_point);
    assert_eq!(a.view_scalar, b.view_scalar);
    assert_eq!(a.view_point, b.view_point);
}

#[test]
fn scalar_one_gives_the_base_point() {
    let mut e = [0u8; 32];
    e[0] = 1;
    let keys = monero_keys::keys::derive(&e);
    assert_eq!(keys.spend_scalar, e);
    let mut base = [0x66u8; 32];
    base[0] = 0x58;
    assert_eq!(keys.spend_point, base);
}

#[test]
fn reduction_changes_out_of_range_bytes() {
    let e = [0xffu8; 32];
    let keys = monero_keys::keys::derive(&e);
    assert_ne!(keys.spend_scalar, e);
    assert!(keys.spend_scalar[31] < 0x20);
}

#[test]
fn view_key_differs_from_spend_key() {
    let e = [7u8; 32];
    let keys = monero_keys::keys::derive(&e);
    assert_ne!(keys.spend_scalar, keys.view_scalar);
    assert_ne!(keys.spend_point, keys.view_point);
}

#[test]
fn subaddress_index_rejects_the_reserved_pair() {
    assert_eq!(
        SubaddressIndex::new(0, 0),
        Err(Error::InvalidSubaddressIndex)
    );
    let s = SubaddressIndex::new(2, 5).unwrap();
    assert_eq!(s.account, 2);
    assert_eq!(s.index, 5);
}

#[test]
fn subaddress_scalars_depend_on_the_position() {
    let e = [9u8; 32];
    let keys = monero_keys::keys::derive(&e);
    let (s01, v01) = subaddress_scalars(&keys, 0, 1);
    let (s10, v10) = subaddress_scalars(&keys, 1, 0);
    assert_ne!(s01, s10);
    assert_ne!(v01, v10);
    assert_ne!(s01, keys.spend_scalar);
}

#[test]
fn primary_and_subaddress_partition() {
    let e = [3u8; 32];
    let keys = monero_keys::keys::derive(&e);
    let primary = build(Network::Mainnet, &keys, 0, 0);
    assert_eq!(primary.kind, AddressKind::Standard);
    assert_eq!(primary.network, Network::Mainnet);
    let sub = build(Network::Mainnet, &keys, 0, 1);
    assert_eq!(sub.kind, AddressKind::Subaddress);
    let sub2 = build(Network::Mainnet, &keys, 1, 0);
    assert_eq!(sub2.kind, AddressKind::Subaddress);
}

#[test]
fn hundred_positions_give_distinct_addresses() {
    let e = [11u8; 32];
    let keys = monero_keys::keys::derive(&e);
    let mut seen: Vec<String> = Vec::new();
    for account in 0..10u32 {
        for index in 0..10u32 {
            let addr = build(Network::Mainnet, &keys, account, index);
            assert!(
                !seen.contains(&addr.text),
                "address for ({account}, {index}) repeats an earlier one"
            );
            seen.push(addr.text);
        }
    }
    assert_eq!(seen.len(), 100);
}

#[test]
fn network_prefixes_differ() {
    let e = [5u8; 32];
    let keys = monero_keys::keys::derive(&e);
    let main = build(Network::Mainnet, &keys, 0, 0);
    let test = build(Network::Testnet, &keys, 0, 0);
    let stage = build(Network::Stagenet, &keys, 0, 0);
    assert_ne!(main.text, test.text);
    assert_ne!(main.text, stage.text);
    assert_ne!(test.text, stage.text);
    assert!(main.text.starts_with('4'), "mainnet primary addresses start with 4, got {}", main.text);
}

#[test]
fn zero_entropy_fixture() {
    let e = [0u8; 32];
    let keys = monero_keys::keys::derive(&e);
    assert_eq!(hex(&keys.spend_scalar), "0000000000000000000000000000000000000000000000000000000000000000");
    assert_eq!(hex(&keys.spend_point), "0100000000000000000000000000000000000000000000000000000000000000");
    assert_eq!(hex(&keys.view_scalar), "9b1529acb638f497d05677d7505d354b4ba6bc95484008f6362f93160ef3e503");
    assert_eq!(hex(&keys.view_point), "23f1e4bd6597b5e5b8f8716f5d5c06e2ad85081da71f5e0ba6d5b4ed92b57566");
    let addr = build(Network::Mainnet, &keys, 0, 0);
    assert_eq!(addr.text.len(), 95);
    assert_eq!(addr.text, "41fJjQDhryD11111111111111111111111111111111112N1GuTZeagfRbbKcALdcZev4QXGGuoLh2x36LhaxLSxCc2YDhi");
}
