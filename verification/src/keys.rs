use vstd::prelude::*;

use crate::errors::BlstError;
use blst::min_pk::AggregatePublicKey as BlstAggregatePublicKey;
use blst::min_pk::PublicKey as BlstPublicKey;
use blst::min_pk::SecretKey as BlstSecretKey;

verus! {

// ---------------------------------------------------------------------------
// The curve backend. Points and scalars live inside `blst`; this crate models
// a secret key by its 32-byte big-endian serialization and a public key by its
// canonical 48-byte compressed encoding, and trusts the named facts below
// about what the backend computes on those encodings.
// ---------------------------------------------------------------------------

#[verifier::external_type_specification]
#[verifier::external_body]
pub struct ExMinPkSecretKey(BlstSecretKey);

#[verifier::external_type_specification]
#[verifier::external_body]
pub struct ExMinPkPublicKey(BlstPublicKey);

#[verifier::external_type_specification]
#[verifier::external_body]
pub struct ExMinPkAggregatePublicKey(BlstAggregatePublicKey);

/// The 32-byte big-endian serialization of an opaque secret scalar
/// (`blst_bendian_from_scalar`): the model of what the scalar holds.
pub uninterp spec fn sk_model(sk: BlstSecretKey) -> Seq<u8>;

/// The scalar derived by `blst_keygen` from key material and key info.
pub uninterp spec fn sk_keygen(ikm: Seq<u8>, key_info: Seq<u8>) -> Seq<u8>;

/// The scalar derived by `blst_keygen_v3`.
pub uninterp spec fn sk_keygen_v3(ikm: Seq<u8>, key_info: Seq<u8>) -> Seq<u8>;

/// The scalar derived by `blst_keygen_v4_5`.
pub uninterp spec fn sk_keygen_v4_5(ikm: Seq<u8>, salt: Seq<u8>, info: Seq<u8>) -> Seq<u8>;

/// The scalar derived by `blst_keygen_v5`.
pub uninterp spec fn sk_keygen_v5(ikm: Seq<u8>, salt: Seq<u8>, info: Seq<u8>) -> Seq<u8>;

/// The master scalar of the EIP-2333 hierarchical derivation.
pub uninterp spec fn sk_master(ikm: Seq<u8>) -> Seq<u8>;

/// The child scalar of the EIP-2333 hierarchical derivation.
pub uninterp spec fn sk_child(parent: Seq<u8>, child_index: u32) -> Seq<u8>;

/// Whether 32 big-endian bytes are a valid secret key: non-zero and below the
/// group order (`blst_sk_check`).
pub uninterp spec fn sk_valid(b: Seq<u8>) -> bool;

/// The canonical compressed public key obtained by multiplying the G1
/// generator by a secret scalar (`blst_sk_to_pk2_in_g1`).
pub uninterp spec fn pk_of_sk(sk: Seq<u8>) -> Seq<u8>;

/// Whether the G1 decoder accepts these bytes (`blst_p1_deserialize` /
/// `blst_p1_uncompress`).
pub uninterp spec fn pk_decodes(b: Seq<u8>) -> bool;

/// The canonical compressed encoding of the G1 point these bytes decode to.
pub uninterp spec fn pk_canon(b: Seq<u8>) -> Seq<u8>;

/// Whether the G1 decoder rejects these bytes as malformed rather than as a
/// coordinate pair off the curve.
pub uninterp spec fn pk_badenc(b: Seq<u8>) -> bool;

/// Whether the decoded point lies in the prime-order G1 subgroup
/// (`blst_p1_affine_in_g1`).
pub uninterp spec fn pk_in_group(b: Seq<u8>) -> bool;

/// The canonical compressed encoding of the sum of two G1 points, each given
/// by its canonical compressed encoding (`blst_p1_add_or_double`).
pub uninterp spec fn pk_sum(a: Seq<u8>, b: Seq<u8>) -> Seq<u8>;

/// The 96-byte uncompressed serialization of the G1 point with this canonical
/// compressed encoding (`blst_p1_affine_serialize`).
pub uninterp spec fn pk_uncompressed(b: Seq<u8>) -> Seq<u8>;

/// The canonical compressed encoding of the G1 identity: infinity and
/// compressed flag bits set, all other bits clear.
pub open spec fn is_inf_pk(b: Seq<u8>) -> bool {
    b.len() == 48 && b[0] == 0xc0u8 && (forall|i: int| 1 <= i < 48 ==> b[i] == 0u8)
}

/// Well-formed public key bytes: the canonical compressed encoding of a
/// decodable G1 point.
pub open spec fn pk_wf(b: Seq<u8>) -> bool {
    &&& b.len() == 48
    &&& b[0] & 0x80u8 != 0u8
    &&& pk_decodes(b)
    &&& pk_canon(b) == b
}

/// The length-and-flag shapes the deserializer accepts: compressed bytes with
/// the top bit of the first byte set, or uncompressed bytes with it clear.
pub open spec fn pk_decode_shape(b: Seq<u8>) -> bool {
    ||| (b.len() == 48 && b[0] & 0x80u8 != 0u8)
    ||| (b.len() == 96 && b[0] & 0x80u8 == 0u8)
}

/// What decoding public key bytes of an accepted shape yields.
pub open spec fn spec_pk_decode_checked(b: Seq<u8>) -> Result<Seq<u8>, BlstError> {
    if pk_decodes(b) {
        Ok(pk_canon(b))
    } else if pk_badenc(b) {
        Err(BlstError::BadEncoding)
    } else {
        Err(BlstError::PointNotOnCurve)
    }
}

/// What `PublicKey::deserialize` yields on any input.
pub open spec fn spec_pk_decode(b: Seq<u8>) -> Result<Seq<u8>, BlstError> {
    if pk_decode_shape(b) {
        spec_pk_decode_checked(b)
    } else {
        Err(BlstError::BadEncoding)
    }
}

/// What `PublicKey::uncompress` yields on any input: only the compressed
/// shape is accepted.
pub open spec fn spec_pk_uncompress(b: Seq<u8>) -> Result<Seq<u8>, BlstError> {
    if b.len() == 48 && b[0] & 0x80u8 != 0u8 {
        spec_pk_decode_checked(b)
    } else {
        Err(BlstError::BadEncoding)
    }
}

/// The failure `PublicKey::validate` reports, if any: the identity point is
/// rejected first, then anything outside the prime-order subgroup.
pub open spec fn spec_pk_validate(b: Seq<u8>) -> Option<BlstError> {
    if is_inf_pk(b) {
        Some(BlstError::PkIsInfinity)
    } else if !pk_in_group(b) {
        Some(BlstError::PointNotInGroup)
    } else {
        None
    }
}

/// Left-to-right sum of a non-empty sequence of public key encodings.
pub open spec fn pk_fold(s: Seq<Seq<u8>>) -> Seq<u8>
    decreases s.len(),
{
    if s.len() <= 1 {
        s[0]
    } else {
        pk_sum(pk_fold(s.drop_last()), s.last())
    }
}

/// The views of a sequence of public keys.
pub open spec fn pk_views(s: Seq<PublicKey>) -> Seq<Seq<u8>> {
    s.map_values(|p: PublicKey| p@)
}

// ---------------------------------------------------------------------------
// Secret keys
// ---------------------------------------------------------------------------

/// A secret scalar. Modeled by its 32-byte big-endian serialization; the
/// underlying `blst` value zeroizes its memory when dropped.
pub struct SecretKey {
    pub(crate) sk: BlstSecretKey,
}

impl View for SecretKey {
    type V = Seq<u8>;

    closed spec fn view(&self) -> Seq<u8> {
        sk_model(self.sk)
    }
}

impl SecretKey {
    #[verifier::type_invariant]
    spec fn inv(self) -> bool {
        sk_model(self.sk).len() == 32 && sk_valid(sk_model(self.sk))
    }
}

/// Relies on `blst::min_pk::SecretKey::key_gen`: deterministic HKDF-style
/// derivation, total on key material of at least 32 bytes.
#[verifier::external_body]
fn raw_key_gen(ikm: &[u8], key_info: &[u8]) -> (r: SecretKey)
    requires
        ikm@.len() >= 32,
    ensures
        r@ == sk_keygen(ikm@, key_info@),
{
    let sk = BlstSecretKey::key_gen(ikm, key_info).unwrap();
    SecretKey { sk }
}

/// Relies on `blst::min_pk::SecretKey::key_gen_v3`.
#[verifier::external_body]
fn raw_key_gen_v3(ikm: &[u8], key_info: &[u8]) -> (r: SecretKey)
    requires
        ikm@.len() >= 32,
    ensures
        r@ == sk_keygen_v3(ikm@, key_info@),
{
    let sk = BlstSecretKey::key_gen_v3(ikm, key_info).unwrap();
    SecretKey { sk }
}

/// Relies on `blst::min_pk::SecretKey::key_gen_v4_5`.
#[verifier::external_body]
fn raw_key_gen_v4_5(ikm: &[u8], salt: &[u8], info: &[u8]) -> (r: SecretKey)
    requires
        ikm@.len() >= 32,
    ensures
        r@ == sk_keygen_v4_5(ikm@, salt@, info@),
{
    let sk = BlstSecretKey::key_gen_v4_5(ikm, salt, info).unwrap();
    SecretKey { sk }
}

/// Relies on `blst::min_pk::SecretKey::key_gen_v5`.
#[verifier::external_body]
fn raw_key_gen_v5(ikm: &[u8], salt: &[u8], info: &[u8]) -> (r: SecretKey)
    requires
        ikm@.len() >= 32,
    ensures
        r@ == sk_keygen_v5(ikm@, salt@, info@),
{
    let sk = BlstSecretKey::key_gen_v5(ikm, salt, info).unwrap();
    SecretKey { sk }
}

/// Relies on `blst::min_pk::SecretKey::derive_master_eip2333`.
#[verifier::external_body]
fn raw_derive_master(ikm: &[u8]) -> (r: SecretKey)
    requires
        ikm@.len() >= 32,
    ensures
        r@ == sk_master(ikm@),
{
    let sk = BlstSecretKey::derive_master_eip2333(ikm).unwrap();
    SecretKey { sk }
}

/// Relies on `blst::min_pk::SecretKey::derive_child_eip2333`: a pure function
/// of the parent scalar and the child index, with no failure mode.
#[verifier::external_body]
fn raw_derive_child(parent: &SecretKey, child_index: u32) -> (r: SecretKey)
    ensures
        r@ == sk_child(parent@, child_index),
{
    let sk = parent.sk.derive_child_eip2333(child_index);
    SecretKey { sk }
}

/// Relies on `blst::min_pk::SecretKey::serialize`: the 32-byte big-endian
/// form of the scalar, which is this type's model.
#[verifier::external_body]
fn raw_sk_serialize(sk: &SecretKey) -> (r: Vec<u8>)
    ensures
        r@ == sk_model(sk.sk),
{
    sk.sk.serialize().to_vec()
}

/// Relies on `blst::min_pk::SecretKey::deserialize`: accepts exactly the
/// 32-byte encodings that `blst_sk_check` approves, and keeps them verbatim.
#[verifier::external_body]
fn raw_sk_deserialize(b: &[u8]) -> (r: Result<SecretKey, BlstError>)
    requires
        b@.len() == 32,
    ensures
        r.is_ok() == sk_valid(b@),
        r matches Ok(sk) ==> sk@ == b@,
        r matches Err(e) ==> e == BlstError::BadEncoding,
{
    match BlstSecretKey::deserialize(b) {
        Ok(sk) => Ok(SecretKey { sk }),
        Err(_) => Err(BlstError::BadEncoding),
    }
}

/// Relies on `blst::min_pk::SecretKey::sk_to_pk`: fixed scalar
/// multiplication of the G1 generator.
#[verifier::external_body]
fn raw_sk_to_pk(sk: &SecretKey) -> (r: PublicKey)
    ensures
        r@ == pk_of_sk(sk@),
{
    let point = sk.sk.sk_to_pk();
    PublicKey { bytes: point.compress().to_vec(), point }
}

impl SecretKey {
    /// Deterministically generate a secret key from at least 32 bytes of key
    /// material, with optional key info to derive independent keys.
    pub fn key_gen(ikm: &[u8], key_info: &[u8]) -> (r: Result<Self, BlstError>)
        ensures
            ikm@.len() < 32 ==> r == Err::<Self, BlstError>(BlstError::BadEncoding),
            ikm@.len() >= 32 ==> (r matches Ok(sk) && sk@ == sk_keygen(ikm@, key_info@)),
    {
        if ikm.len() < 32 {
            return Err(BlstError::BadEncoding);
        }
        Ok(raw_key_gen(ikm, key_info))
    }

    /// Key generation following the draft v3 derivation.
    pub fn key_gen_v3(ikm: &[u8], key_info: &[u8]) -> (r: Result<Self, BlstError>)
        ensures
            ikm@.len() < 32 ==> r == Err::<Self, BlstError>(BlstError::BadEncoding),
            ikm@.len() >= 32 ==> (r matches Ok(sk) && sk@ == sk_keygen_v3(ikm@, key_info@)),
    {
        if ikm.len() < 32 {
            return Err(BlstError::BadEncoding);
        }
        Ok(raw_key_gen_v3(ikm, key_info))
    }

    /// Key generation with caller-supplied salt and info, draft v4.5 rules.
    pub fn key_gen_v4_5(ikm: &[u8], salt: &[u8], info: &[u8]) -> (r: Result<Self, BlstError>)
        ensures
            ikm@.len() < 32 ==> r == Err::<Self, BlstError>(BlstError::BadEncoding),
            ikm@.len() >= 32 ==> (r matches Ok(sk) && sk@ == sk_keygen_v4_5(ikm@, salt@, info@)),
    {
        if ikm.len() < 32 {
            return Err(BlstError::BadEncoding);
        }
        Ok(raw_key_gen_v4_5(ikm, salt, info))
    }

    /// Key generation with caller-supplied salt and info, draft v5 rules.
    pub fn key_gen_v5(ikm: &[u8], salt: &[u8], info: &[u8]) -> (r: Result<Self, BlstError>)
        ensures
            ikm@.len() < 32 ==> r == Err::<Self, BlstError>(BlstError::BadEncoding),
            ikm@.len() >= 32 ==> (r matches Ok(sk) && sk@ == sk_keygen_v5(ikm@, salt@, info@)),
    {
        if ikm.len() < 32 {
            return Err(BlstError::BadEncoding);
        }
        Ok(raw_key_gen_v5(ikm, salt, info))
    }

    /// Derive the EIP-2333 master key; requires at least 32 bytes of key
    /// material, as the other derivations do.
    pub fn derive_master_eip2333(ikm: &[u8]) -> (r: Result<Self, BlstError>)
        ensures
            ikm@.len() < 32 ==> r == Err::<Self, BlstError>(BlstError::BadEncoding),
            ikm@.len() >= 32 ==> (r matches Ok(sk) && sk@ == sk_master(ikm@)),
    {
        if ikm.len() < 32 {
            return Err(BlstError::BadEncoding);
        }
        Ok(raw_derive_master(ikm))
    }

    /// Derive an EIP-2333 child key; a pure function of parent and index.
    pub fn derive_child_eip2333(&self, child_index: u32) -> (r: Self)
        ensures
            r@ == sk_child(self@, child_index),
    {
        raw_derive_child(self, child_index)
    }

    /// The 32-byte big-endian serialization.
    pub fn serialize(&self) -> (r: Vec<u8>)
        ensures
            r@ == self@,
            r@.len() == 32,
    {
        proof {
            use_type_invariant(self);
        }
        let r = raw_sk_serialize(self);
        r
    }

    /// The 32-byte big-endian serialization.
    pub fn to_bytes(&self) -> (r: Vec<u8>)
        ensures
            r@ == self@,
            r@.len() == 32,
    {
        self.serialize()
    }

    /// Parse a secret key: exactly 32 bytes encoding a non-zero scalar below
    /// the group order; anything else is `BadEncoding`.
    pub fn deserialize(sk_in: &[u8]) -> (r: Result<Self, BlstError>)
        ensures
            r matches Ok(sk) ==> sk_in@.len() == 32 && sk_valid(sk_in@) && sk@ == sk_in@,
            r matches Err(e) ==> e == BlstError::BadEncoding && (sk_in@.len() != 32 || !sk_valid(
                sk_in@,
            )),
    {
        if sk_in.len() != 32 {
            return Err(BlstError::BadEncoding);
        }
        raw_sk_deserialize(sk_in)
    }

    /// Parse a secret key from its 32-byte serialization.
    pub fn from_bytes(sk_in: &[u8]) -> (r: Result<Self, BlstError>)
        ensures
            r matches Ok(sk) ==> sk_in@.len() == 32 && sk_valid(sk_in@) && sk@ == sk_in@,
            r matches Err(e) ==> e == BlstError::BadEncoding && (sk_in@.len() != 32 || !sk_valid(
                sk_in@,
            )),
    {
        Self::deserialize(sk_in)
    }

    /// The public key bound to this secret key: generator times secret
    /// scalar in G1.
    pub fn sk_to_pk(&self) -> (r: PublicKey)
        ensures
            r@ == pk_of_sk(self@),
    {
        raw_sk_to_pk(self)
    }

    /// The public key bound to this secret key.
    pub fn to_public_key(&self) -> (r: PublicKey)
        ensures
            r@ == pk_of_sk(self@),
    {
        self.sk_to_pk()
    }
}

// ---------------------------------------------------------------------------
// Public keys
// ---------------------------------------------------------------------------

/// An affine G1 point serving as a public key. Modeled by its canonical
/// 48-byte compressed encoding, which is stored alongside the point.
#[derive(Debug)]
pub struct PublicKey {
    pub(crate) point: BlstPublicKey,
    pub(crate) bytes: Vec<u8>,
}

impl View for PublicKey {
    type V = Seq<u8>;

    closed spec fn view(&self) -> Seq<u8> {
        self.bytes@
    }
}

impl PublicKey {
    #[verifier::type_invariant]
    spec fn inv(self) -> bool {
        pk_wf(self.bytes@)
    }
}

impl PartialEq for PublicKey {
    /// Two public keys are equal exactly when their canonical encodings are.
    fn eq(&self, other: &Self) -> (r: bool) {
        let r = self.bytes == other.bytes;
        proof {
            if r {
                assert(self.bytes@ =~= other.bytes@);
            }
        }
        r
    }
}

impl Eq for PublicKey {

}

impl vstd::std_specs::cmp::PartialEqSpecImpl for PublicKey {
    open spec fn obeys_eq_spec() -> bool {
        true
    }

    open spec fn eq_spec(&self, other: &Self) -> bool {
        self@ == other@
    }
}

/// Relies on `blst::min_pk::PublicKey::deserialize` for the curve decoding
/// and on `compress` re-serializing the decoded point canonically. The
/// length-and-flag shape has already been checked by the caller.
#[verifier::external_body]
fn raw_pk_decode(b: &[u8]) -> (r: Result<PublicKey, BlstError>)
    requires
        pk_decode_shape(b@),
    ensures
        r.is_ok() == pk_decodes(b@),
        r matches Ok(pk) ==> pk@ == pk_canon(b@),
        r matches Err(e) ==> e == (if pk_badenc(b@) {
            BlstError::BadEncoding
        } else {
            BlstError::PointNotOnCurve
        }),
{
    match BlstPublicKey::deserialize(b) {
        Ok(point) => Ok(PublicKey { bytes: point.compress().to_vec(), point }),
        Err(blst::BLST_ERROR::BLST_POINT_NOT_ON_CURVE) => Err(BlstError::PointNotOnCurve),
        Err(_) => Err(BlstError::BadEncoding),
    }
}

/// Relies on `blst::min_pk::PublicKey::serialize`: the 96-byte uncompressed
/// form of the same point, which decodes back to it.
#[verifier::external_body]
fn raw_pk_serialize(pk: &PublicKey) -> (r: Vec<u8>)
    ensures
        r@ == pk_uncompressed(pk@),
        r@.len() == 96,
        r@[0] & 0x80u8 == 0u8,
        pk_decodes(r@),
        pk_canon(r@) == pk@,
{
    pk.point.serialize().to_vec()
}

/// Relies on `blst::min_pk::PublicKey` being a plain affine point that can be
/// copied bit for bit.
#[verifier::external_body]
pub(crate) fn raw_pk_dup(pk: &PublicKey) -> (r: PublicKey)
    ensures
        r@ == pk@,
{
    PublicKey { point: pk.point, bytes: pk.bytes.clone() }
}

/// Relies on `blst::min_pk::PublicKey::validate`: rejects the identity point
/// as `PkIsInfinity` (the canonical identity encoding is 0xc0 followed by
/// zeros) and points outside the prime-order subgroup as `PointNotInGroup`.
#[verifier::external_body]
fn raw_pk_validate(pk: &PublicKey) -> (r: Result<(), BlstError>)
    ensures
        r.is_ok() == (!is_inf_pk(pk@) && pk_in_group(pk@)),
        r.is_ok() == (spec_pk_validate(pk@) is None),
        r matches Err(e) ==> spec_pk_validate(pk@) == Some(e),
{
    match pk.point.validate() {
        Ok(()) => Ok(()),
        Err(blst::BLST_ERROR::BLST_PK_IS_INFINITY) => Err(BlstError::PkIsInfinity),
        Err(_) => Err(BlstError::PointNotInGroup),
    }
}

impl PublicKey {
    /// Validate an externally supplied key: not the identity, and inside the
    /// prime-order subgroup.
    pub fn validate(&self) -> (r: Result<(), BlstError>)
        ensures
            r.is_ok() == (spec_pk_validate(self@) is None),
            r matches Err(e) ==> spec_pk_validate(self@) == Some(e),
    {
        raw_pk_validate(self)
    }

    /// The canonical 48-byte compressed encoding.
    pub fn compress(&self) -> (r: Vec<u8>)
        ensures
            r@ == self@,
            r@.len() == 48,
    {
        proof {
            use_type_invariant(self);
        }
        let r = self.bytes.clone();
        assert(r@ =~= self@);
        r
    }

    /// The 96-byte uncompressed serialization.
    pub fn serialize(&self) -> (r: Vec<u8>)
        ensures
            r@ == pk_uncompressed(self@),
            r@.len() == 96,
            spec_pk_decode(r@) == Ok::<Seq<u8>, BlstError>(self@),
    {
        let r = raw_pk_serialize(self);
        r
    }

    /// Decode a compressed public key: exactly 48 bytes with the compressed
    /// flag bit set, naming a point on the curve.
    pub fn uncompress(pk_comp: &[u8]) -> (r: Result<Self, BlstError>)
        ensures
            r matches Ok(pk) ==> spec_pk_uncompress(pk_comp@) == Ok::<Seq<u8>, BlstError>(pk@),
            r matches Err(e) ==> spec_pk_uncompress(pk_comp@) == Err::<Seq<u8>, BlstError>(e),
    {
        if pk_comp.len() == 48 && (pk_comp[0] & 0x80) != 0 {
            raw_pk_decode(pk_comp)
        } else {
            Err(BlstError::BadEncoding)
        }
    }

    /// Decode a public key from either wire form, telling them apart by the
    /// length and the flag bit in the first byte.
    pub fn deserialize(pk_in: &[u8]) -> (r: Result<Self, BlstError>)
        ensures
            r matches Ok(pk) ==> spec_pk_decode(pk_in@) == Ok::<Seq<u8>, BlstError>(pk@),
            r matches Err(e) ==> spec_pk_decode(pk_in@) == Err::<Seq<u8>, BlstError>(e),
    {
        if (pk_in.len() == 96 && (pk_in[0] & 0x80) == 0) || (pk_in.len() == 48 && (pk_in[0] & 0x80)
            != 0) {
            raw_pk_decode(pk_in)
        } else {
            Err(BlstError::BadEncoding)
        }
    }
}

/// Deserializing either serialization of a public key returns that key:
/// the round trip over the compressed form.
pub proof fn lemma_pk_compressed_round_trip(b: Seq<u8>)
    requires
        pk_wf(b),
    ensures
        spec_pk_decode(b) == Ok::<Seq<u8>, BlstError>(b),
        spec_pk_uncompress(b) == Ok::<Seq<u8>, BlstError>(b),
{
}

/// The round trip over the uncompressed form: deserializing the 96-byte
/// serialization of a public key returns that key.
pub fn pk_serialized_round_trip(pk: &PublicKey) -> (r: PublicKey)
    ensures
        r@ == pk@,
{
    let ser = pk.serialize();
    match PublicKey::deserialize(ser.as_slice()) {
        Ok(back) => back,
        Err(_) => {
            proof {
                assert(false);
            }
            raw_pk_dup(pk)
        },
    }
}

// ---------------------------------------------------------------------------
// Aggregate public keys
// ---------------------------------------------------------------------------

/// A running sum of public keys. Modeled by the canonical compressed
/// encoding of its affine normalization.
#[derive(Debug)]
pub struct AggregatePublicKey {
    pub(crate) point: BlstAggregatePublicKey,
    pub(crate) bytes: Vec<u8>,
}

impl View for AggregatePublicKey {
    type V = Seq<u8>;

    closed spec fn view(&self) -> Seq<u8> {
        self.bytes@
    }
}

impl AggregatePublicKey {
    #[verifier::type_invariant]
    spec fn inv(self) -> bool {
        pk_wf(self.bytes@)
    }
}

/// Relies on `blst_p1_from_affine`: lifting a point into the accumulator
/// representation does not change the point.
#[verifier::external_body]
fn raw_agg_pk_from_pk(pk: &PublicKey) -> (r: AggregatePublicKey)
    ensures
        r@ == pk@,
{
    let point = BlstAggregatePublicKey::from_public_key(&pk.point);
    AggregatePublicKey { bytes: pk.bytes.clone(), point }
}

/// Relies on `blst_p1_to_affine`: affine normalization keeps the point.
#[verifier::external_body]
fn raw_agg_pk_to_pk(agg: &AggregatePublicKey) -> (r: PublicKey)
    ensures
        r@ == agg@,
{
    let point = agg.point.to_public_key();
    PublicKey { bytes: point.compress().to_vec(), point }
}

/// Relies on `blst_p1_add_or_double_affine`: group addition in G1, which is
/// commutative and associative on canonical encodings.
#[verifier::external_body]
fn raw_agg_pk_add_pk(agg: &mut AggregatePublicKey, pk: &PublicKey)
    ensures
        final (agg)@ == pk_sum(old(agg)@, pk@),
        final (agg)@ == pk_sum(pk@, old(agg)@),
        forall|c: Seq<u8>| #[trigger] pk_sum(final (agg)@, c) == pk_sum(
            old(agg)@,
            pk_sum(pk@, c),
        ),
{
    agg.point.add_public_key(&pk.point, false).unwrap();
    agg.bytes = agg.point.to_public_key().compress().to_vec();
}

/// Relies on `blst_p1_add_or_double`: group addition in G1, which is
/// commutative.
#[verifier::external_body]
fn raw_agg_pk_add_agg(agg: &mut AggregatePublicKey, other: &AggregatePublicKey)
    ensures
        final (agg)@ == pk_sum(old(agg)@, other@),
        final (agg)@ == pk_sum(other@, old(agg)@),
{
    agg.point.add_aggregate(&other.point);
    agg.bytes = agg.point.to_public_key().compress().to_vec();
}

/// The first validation failure among a sequence of key encodings, if any.
pub open spec fn spec_first_pk_err(s: Seq<Seq<u8>>) -> Option<BlstError>
    decreases s.len(),
{
    if s.len() == 0 {
        None
    } else if spec_pk_validate(s[0]) is Some {
        spec_pk_validate(s[0])
    } else {
        spec_first_pk_err(s.drop_first())
    }
}

impl AggregatePublicKey {
    /// Lift one public key into the accumulator representation.
    pub fn from_public_key(pk: &PublicKey) -> (r: Self)
        ensures
            r@ == pk@,
    {
        raw_agg_pk_from_pk(pk)
    }

    /// Normalize the accumulated sum back to a public key.
    pub fn to_public_key(&self) -> (r: PublicKey)
        ensures
            r@ == self@,
    {
        raw_agg_pk_to_pk(self)
    }

    /// Sum a list of public keys left to right. An empty list is an
    /// `AggrTypeMismatch`; with `pks_validate` each key is validated just
    /// before it is folded in, and the first failure aborts the whole batch.
    pub fn aggregate(pks: &Vec<PublicKey>, pks_validate: bool) -> (r: Result<Self, BlstError>)
        ensures
            pks@.len() == 0 ==> r == Err::<Self, BlstError>(BlstError::AggrTypeMismatch),
            pks@.len() > 0 ==> (match r {
                Ok(agg) => agg@ == pk_fold(pk_views(pks@)) && (pks_validate
                    ==> spec_first_pk_err(pk_views(pks@)) is None),
                Err(e) => pks_validate && spec_first_pk_err(pk_views(pks@)) == Some(e),
            }),
    {
        if pks.len() == 0 {
            return Err(BlstError::AggrTypeMismatch);
        }
        if pks_validate {
            match pks[0].validate() {
                Ok(()) => (),
                Err(e) => {
                    return Err(e);
                },
            }
        }
        let mut agg = AggregatePublicKey::from_public_key(&pks[0]);
        proof {
            let vs = pk_views(pks@);
            assert(vs.take(1).len() == 1);
            assert(vs.take(1)[0] == pks@[0]@);
            assert(spec_first_pk_err(vs.take(1).drop_first()) is None);
        }
        let mut i: usize = 1;
        while i < pks.len()
            invariant
                1 <= i <= pks@.len(),
                agg@ == pk_fold(pk_views(pks@).take(i as int)),
                pks_validate ==> spec_first_pk_err(pk_views(pks@).take(i as int)) is None,
            decreases pks@.len() - i,
        {
            if pks_validate {
                match pks[i].validate() {
                    Ok(()) => (),
                    Err(e) => {
                        proof {
                            lemma_first_pk_err_prefix(pk_views(pks@), i as int);
                        }
                        return Err(e);
                    },
                }
            }
            raw_agg_pk_add_pk(&mut agg, &pks[i]);
            proof {
                assert(pk_views(pks@).take(i + 1).drop_last() =~= pk_views(pks@).take(i as int));
                if pks_validate {
                    lemma_first_pk_err_extend(pk_views(pks@), i as int);
                }
            }
            i = i + 1;
        }
        proof {
            assert(pk_views(pks@).take(pks@.len() as int) =~= pk_views(pks@));
        }
        Ok(agg)
    }

    /// Add one accumulated sum into this one in place.
    pub fn add_aggregate(&mut self, agg_pk: &AggregatePublicKey)
        ensures
            final (self)@ == pk_sum(old(self)@, agg_pk@),
            final (self)@ == pk_sum(agg_pk@, old(self)@),
    {
        raw_agg_pk_add_agg(self, agg_pk)
    }

    /// Add one public key into the sum in place, validating it first when
    /// asked to.
    pub fn add_public_key(&mut self, pk: &PublicKey, pk_validate: bool) -> (r: Result<
        (),
        BlstError,
    >)
        ensures
            r matches Err(e) ==> pk_validate && spec_pk_validate(pk@) == Some(e) && *final (self)
                == *old(self),
            r is Ok ==> final (self)@ == pk_sum(old(self)@, pk@) && (pk_validate ==> spec_pk_validate(
                pk@,
            ) is None),
    {
        if pk_validate {
            match pk.validate() {
                Ok(()) => (),
                Err(e) => {
                    return Err(e);
                },
            }
        }
        raw_agg_pk_add_pk(self, pk);
        Ok(())
    }
}

/// What loading one serialized public key yields: decode, then the optional
/// infinity and subgroup validation.
pub open spec fn spec_pk_load(b: Seq<u8>, pks_validate: bool) -> Result<Seq<u8>, BlstError> {
    match spec_pk_decode(b) {
        Err(e) => Err(e),
        Ok(v) => if pks_validate {
            match spec_pk_validate(v) {
                Some(e) => Err(e),
                None => Ok(v),
            }
        } else {
            Ok(v)
        },
    }
}

/// The canonical form a serialized public key decodes to, where it decodes.
pub open spec fn spec_pk_load_ok(b: Seq<u8>) -> Seq<u8> {
    match spec_pk_decode(b) {
        Ok(v) => v,
        Err(_) => Seq::empty(),
    }
}

/// The first load failure among a sequence of serialized keys, if any.
pub open spec fn spec_first_pk_load_err(s: Seq<Seq<u8>>, pks_validate: bool) -> Option<BlstError>
    decreases s.len(),
{
    if s.len() == 0 {
        None
    } else if spec_pk_load(s[0], pks_validate) is Err {
        Some(spec_pk_load(s[0], pks_validate)->Err_0)
    } else {
        spec_first_pk_load_err(s.drop_first(), pks_validate)
    }
}

impl AggregatePublicKey {
    /// Sum a list of serialized public keys, deserializing each inline, with
    /// the same validation option and failure rules as `aggregate`.
    pub fn aggregate_serialized(pks: &Vec<Vec<u8>>, pks_validate: bool) -> (r: Result<
        Self,
        BlstError,
    >)
        ensures
            pks@.len() == 0 ==> r == Err::<Self, BlstError>(BlstError::AggrTypeMismatch),
            pks@.len() > 0 ==> (match r {
                Ok(agg) => spec_first_pk_load_err(pks@.map_values(|b: Vec<u8>| b@), pks_validate)
                    is None && agg@ == pk_fold(pks@.map_values(|b: Vec<u8>| spec_pk_load_ok(b@))),
                Err(e) => spec_first_pk_load_err(pks@.map_values(|b: Vec<u8>| b@), pks_validate)
                    == Some(e),
            }),
    {
        let ghost raws = pks@.map_values(|b: Vec<u8>| b@);
        let ghost loaded = pks@.map_values(|b: Vec<u8>| spec_pk_load_ok(b@));
        if pks.len() == 0 {
            return Err(BlstError::AggrTypeMismatch);
        }
        let first = match Self::load_one(&pks[0], pks_validate) {
            Ok(pk) => pk,
            Err(e) => {
                proof {
                    assert(spec_pk_load(raws[0], pks_validate) is Err);
                }
                return Err(e);
            },
        };
        let mut agg = AggregatePublicKey::from_public_key(&first);
        proof {
            assert(raws.take(1).len() == 1);
            assert(raws.take(1)[0] == pks@[0]@);
            assert(spec_first_pk_load_err(raws.take(1).drop_first(), pks_validate) is None);
            assert(loaded.take(1).len() == 1);
            assert(agg@ == pk_fold(loaded.take(1)));
        }
        let mut i: usize = 1;
        while i < pks.len()
            invariant
                1 <= i <= pks@.len(),
                raws == pks@.map_values(|b: Vec<u8>| b@),
                loaded == pks@.map_values(|b: Vec<u8>| spec_pk_load_ok(b@)),
                agg@ == pk_fold(loaded.take(i as int)),
                spec_first_pk_load_err(raws.take(i as int), pks_validate) is None,
            decreases pks@.len() - i,
        {
            let pk = match Self::load_one(&pks[i], pks_validate) {
                Ok(pk) => pk,
                Err(e) => {
                    proof {
                        lemma_first_pk_load_err_prefix(raws, i as int, pks_validate);
                    }
                    return Err(e);
                },
            };
            raw_agg_pk_add_pk(&mut agg, &pk);
            proof {
                assert(loaded.take(i + 1).drop_last() =~= loaded.take(i as int));
                assert(loaded.take(i + 1).last() == spec_pk_load_ok(raws[i as int]));
                lemma_first_pk_load_err_extend(raws, i as int, pks_validate);
            }
            i = i + 1;
        }
        proof {
            assert(loaded.take(pks@.len() as int) =~= loaded);
            assert(raws.take(pks@.len() as int) =~= raws);
        }
        Ok(agg)
    }

    /// Deserialize one public key and apply the optional validation.
    fn load_one(b: &Vec<u8>, pks_validate: bool) -> (r: Result<PublicKey, BlstError>)
        ensures
            r matches Ok(pk) ==> spec_pk_load(b@, pks_validate) == Ok::<Seq<u8>, BlstError>(pk@)
                && pk@ == spec_pk_load_ok(b@),
            r matches Err(e) ==> spec_pk_load(b@, pks_validate) == Err::<Seq<u8>, BlstError>(e),
    {
        let pk = match PublicKey::deserialize(b.as_slice()) {
            Ok(pk) => pk,
            Err(e) => {
                return Err(e);
            },
        };
        if pks_validate {
            match pk.validate() {
                Ok(()) => (),
                Err(e) => {
                    return Err(e);
                },
            }
        }
        Ok(pk)
    }
}

/// If no serialized key among the first `i` fails to load and entry `i`
/// fails with `e`, then `e` is the first failure of the whole sequence.
proof fn lemma_first_pk_load_err_prefix(s: Seq<Seq<u8>>, i: int, pv: bool)
    requires
        0 <= i < s.len(),
        spec_first_pk_load_err(s.take(i), pv) is None,
        spec_pk_load(s[i], pv) is Err,
    ensures
        spec_first_pk_load_err(s, pv) == Some(spec_pk_load(s[i], pv)->Err_0),
    decreases i,
{
    if i == 0 {
    } else {
        assert(s.take(i).drop_first() =~= s.drop_first().take(i - 1));
        lemma_first_pk_load_err_prefix(s.drop_first(), i - 1, pv);
    }
}

/// A failure-free prefix stays failure-free when extended by an entry that
/// loads.
proof fn lemma_first_pk_load_err_extend(s: Seq<Seq<u8>>, i: int, pv: bool)
    requires
        0 <= i < s.len(),
        spec_first_pk_load_err(s.take(i), pv) is None,
        spec_pk_load(s[i], pv) is Ok,
    ensures
        spec_first_pk_load_err(s.take(i + 1), pv) is None,
    decreases i,
{
    if i == 0 {
        assert(s.take(1).len() == 1);
        assert(s.take(1)[0] == s[0]);
        assert(s.take(1).drop_first().len() == 0);
        assert(spec_first_pk_load_err(s.take(1).drop_first(), pv) is None);
    } else {
        assert(s.take(i).drop_first() =~= s.drop_first().take(i - 1));
        assert(s.take(i + 1).drop_first() =~= s.drop_first().take(i));
        lemma_first_pk_load_err_extend(s.drop_first(), i - 1, pv);
    }
}

/// Aggregating a list of public keys and aggregating its reversal yield the
/// bitwise-identical aggregate: with group addition commutative and
/// associative, the order of aggregation does not matter.
pub fn aggregate_keys_in_either_direction(pks: &Vec<PublicKey>) -> (r: (
    AggregatePublicKey,
    AggregatePublicKey,
))
    requires
        pks@.len() >= 1,
    ensures
        r.0@ == pk_fold(pk_views(pks@)),
        r.1@ == pk_fold(pk_views(pks@).reverse()),
        r.0@ == r.1@,
{
    let n = pks.len();
    let ghost views = pk_views(pks@);
    proof {
        assert(views.take(1).len() == 1);
        assert(views.take(1)[0] == pks@[0]@);
    }
    let mut fwd = AggregatePublicKey::from_public_key(&pks[0]);
    let mut i: usize = 1;
    while i < n
        invariant
            n == pks@.len(),
            views == pk_views(pks@),
            1 <= i <= n,
            fwd@ == pk_fold(views.take(i as int)),
            forall|m: int, c: Seq<u8>|
                1 <= m < i ==> #[trigger] pk_sum(pk_fold(views.take(m + 1)), c) == pk_sum(
                    pk_fold(views.take(m)),
                    pk_sum(views[m], c),
                ),
        decreases n - i,
    {
        raw_agg_pk_add_pk(&mut fwd, &pks[i]);
        proof {
            assert(views.take(i + 1).drop_last() =~= views.take(i as int));
            assert(views.take(i + 1).last() == views[i as int]);
        }
        i = i + 1;
    }
    proof {
        assert(views.take(n as int) =~= views);
    }
    let ghost rviews = views.reverse();
    proof {
        assert(rviews.take(1).len() == 1);
        assert(rviews.take(1)[0] == pks@[n - 1]@);
    }
    let mut rev = AggregatePublicKey::from_public_key(&pks[n - 1]);
    let mut k: usize = 1;
    while k < n
        invariant
            n == pks@.len(),
            views == pk_views(pks@),
            rviews == views.reverse(),
            1 <= k <= n,
            rev@ == pk_fold(rviews.take(k as int)),
            k < n ==> pk_fold(views) == pk_sum(pk_fold(views.take(n - k)), rev@),
            k == n ==> pk_fold(views) == rev@,
            forall|m: int, c: Seq<u8>|
                1 <= m < n ==> #[trigger] pk_sum(pk_fold(views.take(m + 1)), c) == pk_sum(
                    pk_fold(views.take(m)),
                    pk_sum(views[m], c),
                ),
        decreases n - k,
    {
        let ghost old_rev = rev@;
        raw_agg_pk_add_pk(&mut rev, &pks[n - 1 - k]);
        proof {
            let m = n - 1 - k;
            assert(rviews.take(k + 1).drop_last() =~= rviews.take(k as int));
            assert(rviews.take(k + 1).last() == rviews[k as int]);
            assert(rviews[k as int] == views[m as int]);
            assert(rev@ == pk_fold(rviews.take(k + 1)));
            if k + 1 < n {
                // one associativity step moves the next element from the
                // forward prefix into the reverse suffix
                assert(views.take(m + 1).drop_last() =~= views.take(m as int));
                assert(pk_fold(views.take(m + 1)) == pk_sum(
                    pk_fold(views.take(m as int)),
                    views[m as int],
                ));
                assert(pk_sum(pk_fold(views.take(m + 1)), old_rev) == pk_sum(
                    pk_fold(views.take(m as int)),
                    pk_sum(views[m as int], old_rev),
                ));
                assert(rev@ == pk_sum(views[m as int], old_rev));
            } else {
                // the last element joins by commutativity alone
                assert(m == 0);
                assert(views.take(1).len() == 1);
                assert(views.take(1)[0] == views[0]);
                assert(pk_fold(views.take(1)) == views[0]);
                assert(rev@ == pk_sum(views[0], old_rev));
            }
        }
        k = k + 1;
    }
    proof {
        assert(rviews.take(n as int) =~= rviews);
    }
    (fwd, rev)
}

/// If no key among the first `i` fails validation and key `i` fails with
/// `e`, then `e` is the first failure of the whole sequence.
proof fn lemma_first_pk_err_prefix(s: Seq<Seq<u8>>, i: int)
    requires
        0 <= i < s.len(),
        spec_first_pk_err(s.take(i)) is None,
        spec_pk_validate(s[i]) is Some,
    ensures
        spec_first_pk_err(s) == spec_pk_validate(s[i]),
    decreases i,
{
    if i == 0 {
    } else {
        assert(s.take(i).drop_first() =~= s.drop_first().take(i - 1));
        lemma_first_pk_err_prefix(s.drop_first(), i - 1);
    }
}

/// A failure-free prefix stays failure-free when extended by a key that
/// validates.
proof fn lemma_first_pk_err_extend(s: Seq<Seq<u8>>, i: int)
    requires
        0 <= i < s.len(),
        spec_first_pk_err(s.take(i)) is None,
        spec_pk_validate(s[i]) is None,
    ensures
        spec_first_pk_err(s.take(i + 1)) is None,
    decreases i,
{
    if i == 0 {
    } else {
        assert(s.take(i).drop_first() =~= s.drop_first().take(i - 1));
        assert(s.take(i + 1).drop_first() =~= s.drop_first().take(i));
        lemma_first_pk_err_extend(s.drop_first(), i - 1);
    }
}

} // verus!
