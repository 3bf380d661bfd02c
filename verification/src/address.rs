use vstd::prelude::*;
use crate::errors::Error;
use crate::keys::WalletKeys;
use crate::keys::base_point_of;
use crate::keys::lemma_reduce_canonical;
use crate::keys::le_nat;
use crate::keys::reduce_mod_order;
use crate::keys::subaddr_offset_of;
use crate::keys::subaddr_spend_scalar;
use crate::keys::subaddr_view_scalar;
use crate::keys::subaddress_scalars;

verus! {

/// The network an address belongs to.
#[derive(Clone, Copy, Debug, PartialEq, Eq, Structural)]
pub enum Network {
    Mainnet,
    Testnet,
    Stagenet,
}

/// The network a numeric code selects; codes outside 0..=2 give Mainnet.
/// The fallback is a defined default of the boundary contract, not an error.
pub open spec fn network_of_code(code: u8) -> Network {
    if code == 1 {
        Network::Testnet
    } else if code == 2 {
        Network::Stagenet
    } else {
        Network::Mainnet
    }
}

/// Map a numeric network code to a [`Network`], defaulting to Mainnet.
pub fn network_from_code(code: u8) -> (network: Network)
    ensures
        network == network_of_code(code),
{
    match code {
        1 => Network::Testnet,
        2 => Network::Stagenet,
        _ => Network::Mainnet,
    }
}

/// A small integer tag distinguishing the networks inside specifications.
pub open spec fn network_tag(network: Network) -> int {
    match network {
        Network::Mainnet => 0,
        Network::Testnet => 1,
        Network::Stagenet => 2,
    }
}

/// Whether an address is a wallet's primary address or one of its
/// subaddresses.
#[derive(Clone, Copy, Debug, PartialEq, Eq, Structural)]
pub enum AddressKind {
    Standard,
    Subaddress,
}

/// A validated subaddress position.  `(0, 0)` is reserved: it denotes the
/// primary address and the subaddress rules reject it.
#[derive(Clone, Copy, Debug, PartialEq, Eq, Structural)]
pub struct SubaddressIndex {
    pub account: u32,
    pub index: u32,
}

impl SubaddressIndex {
    /// Construct a subaddress position, rejecting the reserved `(0, 0)` pair.
    pub fn new(account: u32, index: u32) -> (r: Result<SubaddressIndex, Error>)
        ensures
            r is Ok <==> !(account == 0 && index == 0),
            r matches Ok(s) ==> s == (SubaddressIndex { account, index }),
            r matches Err(e) ==> e == Error::InvalidSubaddressIndex,
    {
        if account == 0 && index == 0 {
            Err(Error::InvalidSubaddressIndex)
        } else {
            Ok(SubaddressIndex { account, index })
        }
    }
}

/// The canonical Monero base58check address string for a network, an address
/// type, and two compressed key points; a function of those values alone.
pub uninterp spec fn address_text(
    network: int,
    subaddress: bool,
    spend_point: Seq<u8>,
    view_point: Seq<u8>,
) -> Seq<char>;

/// Relies on monero_address::MoneroAddress::new and its Display
/// implementation: the base58check string that encodes the network/type byte
/// and the base-point multiples of the two given scalars.  The payload is
/// always 69 bytes (one type byte, two 32-byte points, a 4-byte checksum)
/// and the block-padded base58 encoding of 69 bytes is always 95 characters.
#[verifier::external_body]
fn encode_address(
    network: &Network,
    subaddress: bool,
    spend_scalar: &[u8; 32],
    view_scalar: &[u8; 32],
) -> (r: String)
    ensures
        r@ == address_text(
            network_tag(*network),
            subaddress,
            base_point_of(reduce_mod_order(spend_scalar@)),
            base_point_of(reduce_mod_order(view_scalar@)),
        ),
        r@.len() == 95,
{
    let net = match network {
        Network::Mainnet => monero_address::Network::Mainnet,
        Network::Testnet => monero_address::Network::Testnet,
        Network::Stagenet => monero_address::Network::Stagenet,
    };
    let kind =
        if subaddress { monero_address::AddressType::Subaddress } else { monero_address::AddressType::Legacy };
    let spend = monero_ed25519::Point::from(curve25519_dalek::edwards::EdwardsPoint::mul_base(
        &curve25519_dalek::scalar::Scalar::from_bytes_mod_order(*spend_scalar),
    ));
    let view = monero_ed25519::Point::from(curve25519_dalek::edwards::EdwardsPoint::mul_base(
        &curve25519_dalek::scalar::Scalar::from_bytes_mod_order(*view_scalar),
    ));
    monero_address::MoneroAddress::new(net, kind, spend, view).to_string()
}

/// A derived address: its network, whether it is the primary address or a
/// subaddress, and its canonical text encoding.
pub struct Address {
    pub network: Network,
    pub kind: AddressKind,
    pub text: String,
}

/// The text of a wallet's primary address on a network: the standard encoding
/// of its public spend and view points.
pub open spec fn primary_address_text(network: Network, keys: WalletKeys) -> Seq<char> {
    address_text(network_tag(network), false, keys.spend_point@, keys.view_point@)
}

/// The text of a wallet's subaddress at `(account, index)` on a network: the
/// subaddress encoding of the points of the offset spend and view scalars.
pub open spec fn subaddress_text(
    network: Network,
    keys: WalletKeys,
    account: u32,
    index: u32,
) -> Seq<char> {
    address_text(
        network_tag(network),
        true,
        base_point_of(subaddr_spend_scalar(keys.spend_scalar@, keys.view_scalar@, account, index)),
        base_point_of(subaddr_view_scalar(keys.spend_scalar@, keys.view_scalar@, account, index)),
    )
}

/// The primary-address text of the wallet of an entropy value on a network.
pub open spec fn primary_text_of(network: Network, e: Seq<u8>) -> Seq<char> {
    address_text(
        network_tag(network),
        false,
        base_point_of(crate::keys::spend_scalar_of(e)),
        base_point_of(crate::keys::view_scalar_of(e)),
    )
}

/// The subaddress text of the wallet of an entropy value at
/// `(account, index)` on a network.
pub open spec fn subaddress_text_of(
    network: Network,
    e: Seq<u8>,
    account: u32,
    index: u32,
) -> Seq<char> {
    address_text(
        network_tag(network),
        true,
        base_point_of(
            subaddr_spend_scalar(
                crate::keys::spend_scalar_of(e),
                crate::keys::view_scalar_of(e),
                account,
                index,
            ),
        ),
        base_point_of(
            subaddr_view_scalar(
                crate::keys::spend_scalar_of(e),
                crate::keys::view_scalar_of(e),
                account,
                index,
            ),
        ),
    )
}

/// Build the wallet's address at `(account, index)` on a network: the primary
/// address when both are zero, the subaddress at that position otherwise.
pub fn build(network: Network, keys: &WalletKeys, account: u32, index: u32) -> (addr: Address)
    requires
        keys.wf(),
    ensures
        addr.network == network,
        (addr.kind == AddressKind::Standard) <==> (account == 0 && index == 0),
        account == 0 && index == 0 ==> addr.text@ == primary_address_text(network, *keys),
        !(account == 0 && index == 0) ==> addr.text@ == subaddress_text(
            network,
            *keys,
            account,
            index,
        ),
        addr.text@.len() == 95,
{
    if account == 0 && index == 0 {
        let text = encode_address(&network, false, &keys.spend_scalar, &keys.view_scalar);
        Address { network, kind: AddressKind::Standard, text }
    } else {
        let position = match SubaddressIndex::new(account, index) {
            Ok(position) => position,
            Err(_) => {
                proof {
                    assert(false);
                }
                SubaddressIndex { account, index }
            },
        };
        let (mut sub_spend, mut sub_view) = subaddress_scalars(keys, position.account, position.index);
        proof {
            lemma_reduce_canonical(
                le_nat(keys.spend_scalar@) + le_nat(
                    subaddr_offset_of(keys.view_scalar@, account, index),
                ),
            );
            lemma_reduce_canonical(
                le_nat(keys.view_scalar@) * le_nat(
                    subaddr_spend_scalar(keys.spend_scalar@, keys.view_scalar@, account, index),
                ),
            );
        }
        let text = encode_address(&network, true, &sub_spend, &sub_view);
        crate::keys::wipe32(&mut sub_spend);
        crate::keys::wipe32(&mut sub_view);
        Address { network, kind: AddressKind::Subaddress, text }
    }
}

} // verus!
