use vstd::prelude::*;
use vstd::pervasive::VecAdditionalExecFns;

verus! {

/// The order of the Ed25519 base-point subgroup:
/// 2^252 + 27742317777372353535851937790883648493.
pub open spec fn group_order() -> nat {
    0x1000000000000000000000000000000014def9dea2f79cd65812631a5cf5d3ednat
}

/// The value of a byte sequence read as a little-endian integer.
pub open spec fn le_nat(s: Seq<u8>) -> nat
    decreases s.len(),
{
    if s.len() == 0 {
        0
    } else {
        s[0] as nat + 256 * le_nat(s.drop_first())
    }
}

/// The `len`-byte little-endian encoding of `n` (mod 256^len).
pub open spec fn le_bytes(n: nat, len: nat) -> Seq<u8>
    decreases len,
{
    if len == 0 {
        Seq::empty()
    } else {
        seq![(n % 256) as u8] + le_bytes(n / 256, (len - 1) as nat)
    }
}

/// 256 raised to `len`: the number of distinct `len`-byte strings.
pub open spec fn pow256(len: nat) -> nat
    decreases len,
{
    if len == 0 {
        1
    } else {
        256 * pow256((len - 1) as nat)
    }
}

/// The canonical 32-byte encoding of the little-endian value of `s`,
/// reduced modulo the group order.
pub open spec fn reduce_mod_order(s: Seq<u8>) -> Seq<u8> {
    le_bytes(le_nat(s) % group_order(), 32)
}

pub proof fn lemma_le_nat_of_le_bytes(n: nat, len: nat)
    requires
        n < pow256(len),
    ensures
        le_nat(le_bytes(n, len)) == n,
    decreases len,
{
    if len > 0 {
        assert(n / 256 < pow256((len - 1) as nat)) by {
            assert(n < 256 * pow256((len - 1) as nat));
            assert(n / 256 < pow256((len - 1) as nat)) by (nonlinear_arith)
                requires
                    n < 256 * pow256((len - 1) as nat),
            ;
        }
        lemma_le_nat_of_le_bytes(n / 256, (len - 1) as nat);
        let s = le_bytes(n, len);
        assert(s.drop_first() =~= le_bytes(n / 256, (len - 1) as nat));
        assert(s[0] == (n % 256) as u8);
        assert(n % 256 + 256 * (n / 256) == n) by (nonlinear_arith);
    }
}

pub proof fn lemma_group_order_lt_pow256_32()
    ensures
        group_order() < pow256(32),
{
    reveal_with_fuel(pow256, 33);
    assert(pow256(32) ==
        0x10000000000000000000000000000000000000000000000000000000000000000nat);
}

/// A 32-byte encoding of a value already below the group order is its own
/// reduction.
pub proof fn lemma_reduce_canonical(n: nat)
    ensures
        reduce_mod_order(le_bytes(n % group_order(), 32)) == le_bytes(n % group_order(), 32),
{
    lemma_group_order_lt_pow256_32();
    lemma_le_nat_of_le_bytes(n % group_order(), 32);
    vstd::arithmetic::div_mod::lemma_small_mod(n % group_order(), group_order());
}

/// Reducing twice is the same as reducing once.
pub proof fn lemma_reduce_idempotent(s: Seq<u8>)
    ensures
        reduce_mod_order(reduce_mod_order(s)) == reduce_mod_order(s),
{
    lemma_reduce_canonical(le_nat(s));
}

/// The Keccak-256 digest of a byte string, as the sha3 crate computes it;
/// a function of the input bytes alone.
pub uninterp spec fn keccak256(input: Seq<u8>) -> Seq<u8>;

/// Relies on sha3::Keccak256::digest: the 32-byte Keccak-256 digest of the
/// input, a function of the input bytes alone.
#[verifier::external_body]
pub(crate) fn keccak256_digest(data: &[u8]) -> (r: [u8; 32])
    ensures
        r@ == keccak256(data@),
{
    let digest: [u8; 32] = <sha3::Keccak256 as sha3::Digest>::digest(data).into();
    digest
}

/// Relies on curve25519_dalek's Scalar::from_bytes_mod_order and
/// Scalar::to_bytes: the canonical encoding of the input read little-endian
/// and reduced modulo the group order.
#[verifier::external_body]
pub(crate) fn scalar_reduce(bytes: &[u8; 32]) -> (r: [u8; 32])
    ensures
        r@ == reduce_mod_order(bytes@),
{
    curve25519_dalek::scalar::Scalar::from_bytes_mod_order(*bytes).to_bytes()
}

/// Relies on curve25519_dalek's Scalar addition: the canonical encoding of
/// the sum of the two values, reduced modulo the group order.
#[verifier::external_body]
pub(crate) fn scalar_add_mod(a: &[u8; 32], b: &[u8; 32]) -> (r: [u8; 32])
    ensures
        r@ == le_bytes((le_nat(a@) + le_nat(b@)) % group_order(), 32),
{
    (curve25519_dalek::scalar::Scalar::from_bytes_mod_order(*a)
        + curve25519_dalek::scalar::Scalar::from_bytes_mod_order(*b))
        .to_bytes()
}

/// Relies on curve25519_dalek's Scalar multiplication: the canonical encoding
/// of the product of the two values, reduced modulo the group order.
#[verifier::external_body]
pub(crate) fn scalar_mul_mod(a: &[u8; 32], b: &[u8; 32]) -> (r: [u8; 32])
    ensures
        r@ == le_bytes((le_nat(a@) * le_nat(b@)) % group_order(), 32),
{
    (curve25519_dalek::scalar::Scalar::from_bytes_mod_order(*a)
        * curve25519_dalek::scalar::Scalar::from_bytes_mod_order(*b))
        .to_bytes()
}

/// The compressed Edwards encoding of `scalar * B`, for the canonical scalar
/// bytes given and the Ed25519 base point `B`; a function of those bytes alone.
pub uninterp spec fn base_point_of(scalar_bytes: Seq<u8>) -> Seq<u8>;

/// Relies on curve25519_dalek's EdwardsPoint::mul_base and compression: the
/// compressed encoding of the base point times the scalar the input reduces to.
#[verifier::external_body]
pub(crate) fn point_mul_base(scalar: &[u8; 32]) -> (r: [u8; 32])
    ensures
        r@ == base_point_of(reduce_mod_order(scalar@)),
{
    curve25519_dalek::edwards::EdwardsPoint::mul_base(
        &curve25519_dalek::scalar::Scalar::from_bytes_mod_order(*scalar),
    )
        .compress()
        .to_bytes()
}

/// Relies on zeroize::Zeroize for byte arrays: overwrites the buffer with zeroes
/// so that sensitive material does not outlive its use.
#[verifier::external_body]
pub(crate) fn wipe32(buf: &mut [u8; 32])
    ensures
        forall|i: int| 0 <= i < 32 ==> final(buf)@[i] == 0u8,
{
    zeroize::Zeroize::zeroize(buf);
}

/// Overwrite a byte buffer with zeroes: for copies of key-equivalent
/// material that are about to be dropped.
pub(crate) fn wipe_bytes(v: &mut Vec<u8>)
    ensures
        final(v)@.len() == old(v)@.len(),
        forall|i: int| 0 <= i < final(v)@.len() ==> final(v)@[i] == 0u8,
{
    let n = v.len();
    let mut i: usize = 0;
    while i < n
        invariant
            0 <= i <= n,
            v@.len() == n,
            forall|k: int| 0 <= k < i ==> v@[k] == 0u8,
        decreases n - i,
    {
        v.set(i, 0);
        i = i + 1;
    }
}

/// Overwrite a buffer of word indices with zeroes before it is dropped.
pub(crate) fn wipe_indices(v: &mut Vec<usize>)
    ensures
        final(v)@.len() == old(v)@.len(),
        forall|i: int| 0 <= i < final(v)@.len() ==> final(v)@[i] == 0usize,
{
    let n = v.len();
    let mut i: usize = 0;
    while i < n
        invariant
            0 <= i <= n,
            v@.len() == n,
            forall|k: int| 0 <= k < i ==> v@[k] == 0usize,
        decreases n - i,
    {
        v.set(i, 0);
        i = i + 1;
    }
}

/// Wipe and drop every word buffer a codec pass held.
pub(crate) fn wipe_word_buffers(ws: &mut Vec<Vec<u8>>)
    ensures
        final(ws)@.len() == 0,
{
    while ws.len() > 0
        decreases ws@.len(),
    {
        let mut w = ws.pop().unwrap();
        wipe_bytes(&mut w);
    }
}

/// The spend scalar an entropy value derives: the entropy itself, reduced.
pub open spec fn spend_scalar_of(entropy: Seq<u8>) -> Seq<u8> {
    reduce_mod_order(entropy)
}

/// The view scalar an entropy value derives: its Keccak-256 digest, reduced.
pub open spec fn view_scalar_of(entropy: Seq<u8>) -> Seq<u8> {
    reduce_mod_order(keccak256(entropy))
}

/// The four values a wallet derives from its entropy: the private spend and
/// view scalars and their public base-point multiples.
pub struct WalletKeys {
    pub spend_scalar: [u8; 32],
    pub spend_point: [u8; 32],
    pub view_scalar: [u8; 32],
    pub view_point: [u8; 32],
}

impl WalletKeys {
    /// The keys are exactly those the given entropy determines.
    pub open spec fn derived_from(self, entropy: Seq<u8>) -> bool {
        &&& self.spend_scalar@ == spend_scalar_of(entropy)
        &&& self.spend_point@ == base_point_of(spend_scalar_of(entropy))
        &&& self.view_scalar@ == view_scalar_of(entropy)
        &&& self.view_point@ == base_point_of(view_scalar_of(entropy))
    }

    /// Well-formed key material: the scalars are canonical (already reduced)
    /// and each point is the base-point multiple of its scalar.
    pub open spec fn wf(self) -> bool {
        &&& self.spend_scalar@ == reduce_mod_order(self.spend_scalar@)
        &&& self.view_scalar@ == reduce_mod_order(self.view_scalar@)
        &&& self.spend_point@ == base_point_of(self.spend_scalar@)
        &&& self.view_point@ == base_point_of(self.view_scalar@)
    }
}

/// Derive the wallet's spend and view key material from 32 bytes of entropy.
///
/// The spend scalar is the entropy reduced modulo the group order; the view
/// scalar is the reduction of the entropy's Keccak-256 digest; each point is
/// the base point scaled by the respective scalar.
pub fn derive(entropy: &[u8; 32]) -> (keys: WalletKeys)
    ensures
        keys.derived_from(entropy@),
        keys.wf(),
{
    let spend_scalar = scalar_reduce(entropy);
    proof {
        lemma_reduce_idempotent(entropy@);
    }
    let spend_point = point_mul_base(&spend_scalar);
    let mut digest = keccak256_digest(entropy.as_slice());
    let view_scalar = scalar_reduce(&digest);
    proof {
        lemma_reduce_idempotent(keccak256(entropy@));
    }
    let view_point = point_mul_base(&view_scalar);
    wipe32(&mut digest);
    WalletKeys { spend_scalar, spend_point, view_scalar, view_point }
}

/// Key derivation is deterministic: two key sets derived from the same
/// entropy agree on every scalar and every point.
pub proof fn lemma_derive_deterministic(entropy: Seq<u8>, a: WalletKeys, b: WalletKeys)
    requires
        a.derived_from(entropy),
        b.derived_from(entropy),
    ensures
        a.spend_scalar@ == b.spend_scalar@,
        a.spend_point@ == b.spend_point@,
        a.view_scalar@ == b.view_scalar@,
        a.view_point@ == b.view_point@,
{
}

/// The eight tag bytes Monero prepends when hashing a subaddress offset:
/// the ASCII string "SubAddr" followed by a zero byte.
pub open spec fn subaddr_tag() -> Seq<u8> {
    seq![0x53u8, 0x75u8, 0x62u8, 0x41u8, 0x64u8, 0x64u8, 0x72u8, 0x00u8]
}

/// The bytes hashed to derive a subaddress offset: the tag, the private view
/// scalar, and the account and index as little-endian 32-bit values.
pub open spec fn subaddr_hash_input(view_scalar: Seq<u8>, account: u32, index: u32) -> Seq<u8> {
    subaddr_tag() + view_scalar + vstd::bytes::spec_u32_to_le_bytes(account)
        + vstd::bytes::spec_u32_to_le_bytes(index)
}

/// The per-index offset scalar: the reduced Keccak-256 digest of the tagged
/// view-key material and index pair.
pub open spec fn subaddr_offset_of(view_scalar: Seq<u8>, account: u32, index: u32) -> Seq<u8> {
    reduce_mod_order(keccak256(subaddr_hash_input(view_scalar, account, index)))
}

/// The subaddress's spend scalar: the wallet spend scalar plus the offset.
pub open spec fn subaddr_spend_scalar(
    spend_scalar: Seq<u8>,
    view_scalar: Seq<u8>,
    account: u32,
    index: u32,
) -> Seq<u8> {
    le_bytes(
        (le_nat(spend_scalar) + le_nat(subaddr_offset_of(view_scalar, account, index)))
            % group_order(),
        32,
    )
}

/// The subaddress's view scalar: the wallet view scalar times the
/// subaddress's spend scalar.
pub open spec fn subaddr_view_scalar(
    spend_scalar: Seq<u8>,
    view_scalar: Seq<u8>,
    account: u32,
    index: u32,
) -> Seq<u8> {
    le_bytes(
        (le_nat(view_scalar) * le_nat(subaddr_spend_scalar(spend_scalar, view_scalar, account,
            index))) % group_order(),
        32,
    )
}

/// Compute the (spend, view) scalar pair of the subaddress at
/// `(account, index)`, from the wallet's own key material.
pub fn subaddress_scalars(keys: &WalletKeys, account: u32, index: u32) -> (r: ([u8; 32], [u8; 32]))
    ensures
        r.0@ == subaddr_spend_scalar(keys.spend_scalar@, keys.view_scalar@, account, index),
        r.1@ == subaddr_view_scalar(keys.spend_scalar@, keys.view_scalar@, account, index),
{
    let mut input: Vec<u8> = Vec::new();
    input.push(0x53);
    input.push(0x75);
    input.push(0x62);
    input.push(0x41);
    input.push(0x64);
    input.push(0x64);
    input.push(0x72);
    input.push(0x00);
    assert(input@ =~= subaddr_tag());
    let ghost after_tag = input@;
    let mut i: usize = 0;
    while i < 32
        invariant
            0 <= i <= 32,
            input@ == after_tag + keys.view_scalar@.take(i as int),
        decreases 32 - i,
    {
        input.push(keys.view_scalar[i]);
        assert(input@ =~= after_tag + keys.view_scalar@.take(i + 1));
        i = i + 1;
    }
    assert(keys.view_scalar@.take(32) =~= keys.view_scalar@);
    let mut account_bytes = vstd::bytes::u32_to_le_bytes(account);
    input.append(&mut account_bytes);
    let mut index_bytes = vstd::bytes::u32_to_le_bytes(index);
    input.append(&mut index_bytes);
    assert(input@ =~= subaddr_hash_input(keys.view_scalar@, account, index));
    let mut digest = keccak256_digest(input.as_slice());
    let mut offset = scalar_reduce(&digest);
    let sub_spend = scalar_add_mod(&keys.spend_scalar, &offset);
    let sub_view = scalar_mul_mod(&keys.view_scalar, &sub_spend);
    wipe_bytes(&mut input);
    wipe32(&mut digest);
    wipe32(&mut offset);
    (sub_spend, sub_view)
}

} // verus!
