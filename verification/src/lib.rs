//! Deterministic Monero wallet-key material: checksummed mnemonic seeds,
//! spend/view key derivation over Ed25519, and primary/subaddress encoding.

use vstd::prelude::*;
use vstd::string::StringSliceAdditionalSpecFns;
use vstd::string::StrSliceExecFns;

pub mod address;
pub mod errors;
pub mod keys;
pub mod lang;
pub mod seed;
pub mod wordlist;

use crate::address::network_of_code;
use crate::address::primary_text_of;
use crate::address::subaddress_text_of;
use crate::errors::Error;
use crate::seed::decode_spec;
use crate::seed::mnemonic_bytes;
use crate::wordlist::bundled_prefix_length;
use crate::wordlist::bundled_words;
use crate::wordlist::wordlist_valid;

verus! {

/// The characters of an ASCII byte string, one per byte.
pub open spec fn chars_of(bytes: Seq<u8>) -> Seq<char> {
    bytes.map_values(|b: u8| b as char)
}

/// Relies on String::from_utf8: bytes below 128 are valid UTF-8 and decode
/// to one character per byte.
#[verifier::external_body]
fn ascii_string(v: &Vec<u8>) -> (r: String)
    requires
        forall|i: int| 0 <= i < v@.len() ==> v@[i] < 128,
    ensures
        r@ == chars_of(v@),
{
    String::from_utf8(v.clone()).unwrap()
}

/// Relies on rand_core::OsRng::try_fill_bytes: 32 bytes from the operating
/// system's secure random source, or failure.  Nothing can be promised of
/// the value itself.
#[verifier::external_body]
fn os_random_32() -> (r: Result<[u8; 32], ()>) {
    let mut buf = [0u8; 32];
    match rand_core::RngCore::try_fill_bytes(&mut rand_core::OsRng, &mut buf) {
        Ok(()) => Ok(buf),
        Err(_) => Err(()),
    }
}

/// The mnemonic text, as characters, of an entropy value over the bundled
/// wordlist.
pub open spec fn mnemonic_chars_of(e: Seq<u8>) -> Seq<char> {
    chars_of(mnemonic_bytes(e, bundled_words(), bundled_prefix_length()))
}

/// The address text of the wallet of entropy `e`, for a network code and an
/// `(account, index)` position: the primary address at `(0, 0)`, the
/// subaddress there otherwise; out-of-range network codes mean Mainnet.
pub open spec fn address_chars_of(e: Seq<u8>, network: u8, account: u32, index: u32) -> Seq<
    char,
> {
    if account == 0 && index == 0 {
        primary_text_of(network_of_code(network), e)
    } else {
        subaddress_text_of(network_of_code(network), e, account, index)
    }
}

/// Every word index a 32-byte entropy value produces lies below 1626.
proof fn lemma_entropy_indices_in_range(e: Seq<u8>)
    ensures
        forall|k: int|
            0 <= k < 24 ==> 0 <= #[trigger] crate::seed::entropy_indices(e)[k] < 1626,
{
}

/// Joining words whose bytes are printable with spaces yields ASCII bytes.
proof fn lemma_join_words_ascii(ws: Seq<Seq<u8>>)
    requires
        forall|k: int| 0 <= k < ws.len() ==> crate::wordlist::word_ok(#[trigger] ws[k]),
    ensures
        forall|i: int|
            0 <= i < crate::seed::join_words(ws).len() ==> #[trigger] crate::seed::join_words(
                ws,
            )[i] < 128,
    decreases ws.len(),
{
    if ws.len() == 0 {
    } else if ws.len() == 1 {
        assert(crate::seed::join_words(ws) == ws[0]);
    } else {
        assert(forall|k: int|
            0 <= k < ws.drop_last().len() ==> crate::wordlist::word_ok(
                #[trigger] ws.drop_last()[k],
            ));
        lemma_join_words_ascii(ws.drop_last());
        let j = crate::seed::join_words(ws);
        let pre = crate::seed::join_words(ws.drop_last());
        let w = ws.last();
        assert(crate::wordlist::word_ok(w));
        assert(j == pre + seq![32u8] + w);
        assert forall|i: int| 0 <= i < j.len() implies #[trigger] j[i] < 128 by {
            if i < pre.len() {
                assert(j[i] == pre[i]);
            } else if i == pre.len() {
                assert(j[i] == 32u8);
            } else {
                assert(j[i] == w[i - pre.len() - 1]);
            }
        }
    }
}

/// Every byte of a mnemonic over a valid wordlist is ASCII: the words hold
/// printable bytes and the separators are spaces.
proof fn lemma_mnemonic_bytes_ascii(e: Seq<u8>, wl: Seq<Seq<u8>>, plen: int)
    requires
        wordlist_valid(wl),
        e.len() == 32,
    ensures
        forall|i: int|
            0 <= i < mnemonic_bytes(e, wl, plen).len() ==> #[trigger] mnemonic_bytes(
                e,
                wl,
                plen,
            )[i] < 128,
{
    let ws = crate::seed::mnemonic_words(e, wl, plen);
    crate::seed::lemma_mnemonic_words_ok(e, wl, plen);
    lemma_join_words_ascii(ws);
}

/// A mnemonic decodes back to the entropy it encodes, through the exact
/// text handed across the boundary: the seed round trip instantiated at the
/// bundled wordlist and carried over the ASCII string encoding.
pub proof fn lemma_mnemonic_text_decodes(e: Seq<u8>)
    requires
        wordlist_valid(bundled_words()),
        e.len() == 32,
    ensures
        vstd::utf8::encode_utf8(mnemonic_chars_of(e)) == mnemonic_bytes(
            e,
            bundled_words(),
            bundled_prefix_length(),
        ),
        decode_spec(
            vstd::utf8::encode_utf8(mnemonic_chars_of(e)),
            bundled_words(),
            bundled_prefix_length(),
        ) == Some(e),
{
    let m = mnemonic_bytes(e, bundled_words(), bundled_prefix_length());
    let cs = mnemonic_chars_of(e);
    lemma_mnemonic_bytes_ascii(e, bundled_words(), bundled_prefix_length());
    assert(cs.len() == m.len());
    assert(vstd::utf8::is_ascii_chars(cs)) by {
        assert forall|i: int| 0 <= i < cs.len() implies '\0' <= #[trigger] cs[i] <= '\u{7f}' by {
            assert(cs[i] == m[i] as char);
            assert(m[i] < 128);
        }
    }
    vstd::utf8::is_ascii_chars_encode_utf8(cs);
    assert(vstd::utf8::encode_utf8(cs) =~= m) by {
        assert forall|i: int| 0 <= i < m.len() implies vstd::utf8::encode_utf8(cs)[i] == m[i] by {
            assert(cs[i] as u8 == vstd::utf8::encode_utf8(cs)[i]);
            assert(cs[i] == m[i] as char);
            assert((m[i] as char) as u8 == m[i]);
        }
    }
    crate::seed::lemma_mnemonic_round_trip(e, bundled_words(), bundled_prefix_length());
}

/// Generate a fresh mnemonic: 32 bytes drawn from the secure random source,
/// encoded as a checksummed word sequence over the bundled wordlist.
///
/// The language code is kept for interface compatibility and an
/// out-of-range code selects English; the bundled provider supplies a
/// single word table, which every language selects.  Fails with
/// `RandomSourceFailure` when the random source fails (or when the bundled
/// table fails its validation).
pub fn generate_mnemonic(language: u8) -> (r: Result<String, Error>)
    ensures
        r matches Ok(s) ==> exists|e: Seq<u8>|
            e.len() == 32 && s@ == chars_of(
                #[trigger] mnemonic_bytes(
                    e,
                    crate::wordlist::words_of_language(crate::lang::language_of_code(language)),
                    crate::wordlist::prefix_length_of_language(
                        crate::lang::language_of_code(language),
                    ),
                ),
            ) && wordlist_valid(bundled_words()) && decode_spec(
                vstd::utf8::encode_utf8(s@),
                bundled_words(),
                bundled_prefix_length(),
            ) == Some(e),
        !wordlist_valid(bundled_words()) ==> r is Err,
        r matches Err(err) ==> err == Error::RandomSourceFailure,
{
    let lang = crate::lang::language_from_code(language);
    let wl = match crate::wordlist::wordlist_for_language(lang) {
        Some(wl) => wl,
        None => {
            // The boundary taxonomy has no variant for a provider table that
            // fails validation; the failure is surfaced under the only
            // variant generation can report.
            return Err(Error::RandomSourceFailure);
        },
    };
    let mut entropy = match os_random_32() {
        Ok(entropy) => entropy,
        Err(_) => {
            return Err(Error::RandomSourceFailure);
        },
    };
    let mut m = crate::seed::encode_mnemonic(&entropy, &wl);
    proof {
        lemma_mnemonic_bytes_ascii(entropy@, wl.words(), wl.prefix_length());
        lemma_mnemonic_text_decodes(entropy@);
    }
    let s = ascii_string(&m);
    crate::keys::wipe_bytes(&mut m);
    crate::keys::wipe32(&mut entropy);
    Ok(s)
}

/// Derive the address of the wallet a mnemonic describes.
///
/// The network code selects the network, defaulting to Mainnet; `(0, 0)`
/// selects the primary address and any other pair the subaddress at that
/// position.  Fails with `InvalidMnemonic` exactly when the mnemonic does
/// not decode over the bundled wordlist.
pub fn generate_address(mnemonic: &str, network: u8, account: u32, index: u32) -> (r: Result<
    String,
    Error,
>)
    ensures
        r is Ok ==> wordlist_valid(bundled_words()),
        wordlist_valid(bundled_words()) ==> {
            &&& (r is Ok <==> decode_spec(
                mnemonic.spec_bytes(),
                bundled_words(),
                bundled_prefix_length(),
            ) is Some)
            &&& (r matches Ok(s) ==> s@ == address_chars_of(
                decode_spec(mnemonic.spec_bytes(), bundled_words(), bundled_prefix_length())
                    .unwrap(),
                network,
                account,
                index,
            ))
        },
        r matches Ok(s) ==> s@.len() == 95,
        r matches Err(err) ==> err == Error::InvalidMnemonic,
{
    let wl = match crate::wordlist::bundled_wordlist() {
        Some(wl) => wl,
        None => {
            // The taxonomy has no variant for a provider table that fails
            // validation; without a table no mnemonic can decode, which is
            // what this variant reports.
            return Err(Error::InvalidMnemonic);
        },
    };
    let mut bytes = mnemonic.as_bytes_vec();
    let decoded = crate::seed::decode_mnemonic(bytes.as_slice(), &wl);
    crate::keys::wipe_bytes(&mut bytes);
    let mut entropy = match decoded {
        Ok(entropy) => entropy,
        Err(err) => {
            return Err(err);
        },
    };
    let net = crate::address::network_from_code(network);
    let mut keys = crate::keys::derive(&entropy);
    let addr = crate::address::build(net, &keys, account, index);
    crate::keys::wipe32(&mut entropy);
    crate::keys::wipe32(&mut keys.spend_scalar);
    crate::keys::wipe32(&mut keys.view_scalar);
    Ok(addr.text)
}

} // verus!
