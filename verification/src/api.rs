use vstd::prelude::*;

use crate::errors::{BlstError, ErrorStatus};
use crate::hexutil::{
    raw_hex_decode, raw_hex_encode_prefixed, raw_trim_0x, spec_hex_chars, spec_hex_decode,
    spec_hex_ok, spec_strip_0x,
};
use crate::keys::{
    pk_fold, pk_uncompressed, pk_views, raw_pk_dup, sk_keygen, sk_valid, spec_first_pk_err,
    spec_first_pk_load_err, spec_pk_load, spec_pk_load_ok, spec_pk_validate, AggregatePublicKey,
    PublicKey, SecretKey,
};
use crate::msm::{mult_public_keys, mult_signatures, pk_msm, sig_msm};
use crate::pairing::{agg_accepts, copy_bytes, mult_agg_accepts, scalar_norm, zip_terms, zip_wterms};
use crate::sig::{
    raw_sig_dup, sig_fold, sig_in_group, sig_uncompressed, sig_views, spec_first_sig_err,
    spec_first_sig_load_err, spec_sig_decode, spec_sig_load_ok, spec_sig_validate,
    AggregateSignature, Signature,
};
use crate::verify::{all_pks_valid, all_sigs_in_group, msg_views, norm_scalars};
use rand::Rng;

verus! {

/// The length of a secret key.
pub const SECRET_KEY_LENGTH: u32 = 32;

/// The length of a serialized public key.
pub const PUBLIC_KEY_LENGTH_COMPRESSED: u32 = 48;

pub const PUBLIC_KEY_LENGTH_UNCOMPRESSED: u32 = 96;

/// The length of a serialized signature.
pub const SIGNATURE_LENGTH_COMPRESSED: u32 = 96;

pub const SIGNATURE_LENGTH_UNCOMPRESSED: u32 = 192;

/// The fixed domain-separation tag of the proof-of-possession scheme these
/// operations serve: every hash onto the signature group runs under it.
pub open spec fn spec_dst() -> Seq<u8> {
    seq![
        66u8, 76u8, 83u8, 95u8, 83u8, 73u8, 71u8, 95u8, 66u8, 76u8, 83u8, 49u8, 50u8, 51u8, 56u8,
        49u8, 71u8, 50u8, 95u8, 88u8, 77u8, 68u8, 58u8, 83u8, 72u8, 65u8, 45u8, 50u8, 53u8, 54u8,
        95u8, 83u8, 83u8, 87u8, 85u8, 95u8, 82u8, 79u8, 95u8, 80u8, 79u8, 80u8, 95u8,
    ]
}

/// The domain-separation tag as bytes.
pub fn dst() -> (r: Vec<u8>)
    ensures
        r@ == spec_dst(),
{
    let r: Vec<u8> = vec![
        66u8, 76u8, 83u8, 95u8, 83u8, 73u8, 71u8, 95u8, 66u8, 76u8, 83u8, 49u8, 50u8, 51u8, 56u8,
        49u8, 71u8, 50u8, 95u8, 88u8, 77u8, 68u8, 58u8, 83u8, 72u8, 65u8, 45u8, 50u8, 53u8, 54u8,
        95u8, 83u8, 83u8, 87u8, 85u8, 95u8, 82u8, 79u8, 95u8, 80u8, 79u8, 80u8, 95u8,
    ];
    proof {
        assert(r@ =~= spec_dst());
    }
    r
}

/// An optional flag with its default.
pub open spec fn flag_or(o: Option<bool>, d: bool) -> bool {
    match o {
        Some(v) => v,
        None => d,
    }
}

/// Read an optional flag, falling back to its default.
fn unwrap_flag(o: Option<bool>, d: bool) -> (r: bool)
    ensures
        r == flag_or(o, d),
{
    match o {
        Some(v) => v,
        None => d,
    }
}

/// One verification work item: a message with the key and signature that
/// are claimed to match it.
pub struct SignatureSet {
    pub msg: Vec<u8>,
    pub pk: PublicKey,
    pub sig: Signature,
}

/// A key paired with a signature still in wire form.
pub struct PkAndSerializedSig {
    pub pk: PublicKey,
    pub sig: Vec<u8>,
}

/// A key paired with a decoded signature.
pub struct PkAndSig {
    pub pk: PublicKey,
    pub sig: Signature,
}

impl SecretKey {
    /// Generate a secret key deterministically from a secret byte array
    /// `ikm` of at least 32 bytes, with optional `key_info` to derive
    /// independent keys from the same material.
    pub fn from_keygen(ikm: &[u8], key_info: Option<&Vec<u8>>) -> (r: Result<Self, ErrorStatus>)
        ensures
            ikm@.len() < 32 ==> r == Err::<Self, ErrorStatus>(
                ErrorStatus::Blst(BlstError::BadEncoding),
            ),
            ikm@.len() >= 32 ==> (r matches Ok(sk) && sk@ == sk_keygen(
                ikm@,
                match key_info {
                    Some(k) => k@,
                    None => Seq::empty(),
                },
            )),
    {
        let empty: Vec<u8> = Vec::new();
        let ki = match key_info {
            Some(k) => k.as_slice(),
            None => empty.as_slice(),
        };
        match Self::key_gen(ikm, ki) {
            Ok(sk) => Ok(sk),
            Err(e) => Err(ErrorStatus::Blst(e)),
        }
    }

    /// Deserialize a secret key from a hex string, with or without a
    /// leading "0x".
    pub fn from_hex(hex_str: &str) -> (r: Result<Self, ErrorStatus>)
        ensures
            !spec_hex_ok(spec_strip_0x(hex_str@)) ==> r == Err::<Self, ErrorStatus>(
                ErrorStatus::InvalidHex,
            ),
            spec_hex_ok(spec_strip_0x(hex_str@)) ==> ({
                let b = spec_hex_decode(spec_strip_0x(hex_str@));
                match r {
                    Ok(sk) => b.len() == 32 && sk_valid(b) && sk@ == b,
                    Err(e) => e == ErrorStatus::Blst(BlstError::BadEncoding) && (b.len() != 32
                        || !sk_valid(b)),
                }
            }),
    {
        let stripped = raw_trim_0x(hex_str);
        let bytes = match raw_hex_decode(stripped) {
            Some(v) => v,
            None => {
                return Err(ErrorStatus::InvalidHex);
            },
        };
        match Self::from_bytes(bytes.as_slice()) {
            Ok(sk) => Ok(sk),
            Err(e) => Err(ErrorStatus::Blst(e)),
        }
    }

    /// Serialize a secret key to a lowercase "0x"-prefixed hex string.
    pub fn to_hex(&self) -> (r: String)
        ensures
            r@ == seq!['0', 'x'] + spec_hex_chars(self@),
    {
        let bytes = self.to_bytes();
        raw_hex_encode_prefixed(bytes.as_slice())
    }
}

impl PublicKey {
    /// Deserialize a public key from a byte array; with `pk_validate` the
    /// key is also infinity- and group-checked.
    pub fn from_bytes(bytes: &[u8], pk_validate: Option<bool>) -> (r: Result<Self, ErrorStatus>)
        ensures
            r matches Ok(pk) ==> spec_pk_load(bytes@, flag_or(pk_validate, false)) == Ok::<
                Seq<u8>,
                BlstError,
            >(pk@),
            r matches Err(st) ==> (st matches ErrorStatus::Blst(e) && spec_pk_load(
                bytes@,
                flag_or(pk_validate, false),
            ) == Err::<Seq<u8>, BlstError>(e)),
    {
        let pk = match Self::deserialize(bytes) {
            Ok(pk) => pk,
            Err(e) => {
                return Err(ErrorStatus::Blst(e));
            },
        };
        if unwrap_flag(pk_validate, false) {
            match pk.validate() {
                Ok(()) => (),
                Err(e) => {
                    return Err(ErrorStatus::Blst(e));
                },
            }
        }
        Ok(pk)
    }

    /// Deserialize a public key from a hex string, with or without a
    /// leading "0x".
    pub fn from_hex(hex_str: &str, pk_validate: Option<bool>) -> (r: Result<Self, ErrorStatus>)
        ensures
            !spec_hex_ok(spec_strip_0x(hex_str@)) ==> r == Err::<Self, ErrorStatus>(
                ErrorStatus::InvalidHex,
            ),
            spec_hex_ok(spec_strip_0x(hex_str@)) ==> ({
                let b = spec_hex_decode(spec_strip_0x(hex_str@));
                match r {
                    Ok(pk) => spec_pk_load(b, flag_or(pk_validate, false)) == Ok::<
                        Seq<u8>,
                        BlstError,
                    >(pk@),
                    Err(st) => st matches ErrorStatus::Blst(e) && spec_pk_load(
                        b,
                        flag_or(pk_validate, false),
                    ) == Err::<Seq<u8>, BlstError>(e),
                }
            }),
    {
        let stripped = raw_trim_0x(hex_str);
        let bytes = match raw_hex_decode(stripped) {
            Some(v) => v,
            None => {
                return Err(ErrorStatus::InvalidHex);
            },
        };
        Self::from_bytes(bytes.as_slice(), pk_validate)
    }

    /// Serialize a public key, compressed unless asked otherwise.
    pub fn to_bytes(&self, compress: Option<bool>) -> (r: Vec<u8>)
        ensures
            flag_or(compress, true) ==> r@ == self@,
            !flag_or(compress, true) ==> r@ == pk_uncompressed(self@),
    {
        if unwrap_flag(compress, true) {
            self.compress()
        } else {
            self.serialize()
        }
    }

    /// Serialize a public key to a lowercase "0x"-prefixed hex string.
    pub fn to_hex(&self, compress: Option<bool>) -> (r: String)
        ensures
            flag_or(compress, true) ==> r@ == seq!['0', 'x'] + spec_hex_chars(self@),
            !flag_or(compress, true) ==> r@ == seq!['0', 'x'] + spec_hex_chars(
                pk_uncompressed(self@),
            ),
    {
        let bytes = self.to_bytes(compress);
        raw_hex_encode_prefixed(bytes.as_slice())
    }

    /// Validate a public key with infinity and group check.
    pub fn key_validate(&self) -> (r: Result<(), ErrorStatus>)
        ensures
            r is Ok == (spec_pk_validate(self@) is None),
            r matches Err(st) ==> (st matches ErrorStatus::Blst(e) && spec_pk_validate(self@)
                == Some(e)),
    {
        match self.validate() {
            Ok(()) => Ok(()),
            Err(e) => Err(ErrorStatus::Blst(e)),
        }
    }
}

/// What loading one serialized signature with the requested checks yields:
/// decode, then optionally the full validation under the infinity-check
/// choice.
pub open spec fn spec_sig_load_checked(b: Seq<u8>, validate: bool, infcheck: bool) -> Result<
    Seq<u8>,
    BlstError,
> {
    match spec_sig_decode(b) {
        Err(e) => Err(e),
        Ok(v) => if validate {
            match spec_sig_validate(v, infcheck) {
                Some(e) => Err(e),
                None => Ok(v),
            }
        } else {
            Ok(v)
        },
    }
}

impl Signature {
    /// Deserialize a signature from a byte array; with `sig_validate` it is
    /// also validated, skipping the infinity check when `sig_infcheck` is
    /// false.
    pub fn from_bytes(bytes: &[u8], sig_validate: Option<bool>, sig_infcheck: Option<bool>) -> (r:
        Result<Self, ErrorStatus>)
        ensures
            r matches Ok(sig) ==> spec_sig_load_checked(
                bytes@,
                flag_or(sig_validate, false),
                flag_or(sig_infcheck, true),
            ) == Ok::<Seq<u8>, BlstError>(sig@),
            r matches Err(st) ==> (st matches ErrorStatus::Blst(e) && spec_sig_load_checked(
                bytes@,
                flag_or(sig_validate, false),
                flag_or(sig_infcheck, true),
            ) == Err::<Seq<u8>, BlstError>(e)),
    {
        let sig = match Self::deserialize(bytes) {
            Ok(sig) => sig,
            Err(e) => {
                return Err(ErrorStatus::Blst(e));
            },
        };
        if unwrap_flag(sig_validate, false) {
            match sig.validate(unwrap_flag(sig_infcheck, true)) {
                Ok(()) => (),
                Err(e) => {
                    return Err(ErrorStatus::Blst(e));
                },
            }
        }
        Ok(sig)
    }

    /// Deserialize a signature from a hex string, with or without a leading
    /// "0x".
    pub fn from_hex(hex_str: &str, sig_validate: Option<bool>, sig_infcheck: Option<bool>) -> (r:
        Result<Self, ErrorStatus>)
        ensures
            !spec_hex_ok(spec_strip_0x(hex_str@)) ==> r == Err::<Self, ErrorStatus>(
                ErrorStatus::InvalidHex,
            ),
            spec_hex_ok(spec_strip_0x(hex_str@)) ==> ({
                let b = spec_hex_decode(spec_strip_0x(hex_str@));
                match r {
                    Ok(sig) => spec_sig_load_checked(
                        b,
                        flag_or(sig_validate, false),
                        flag_or(sig_infcheck, true),
                    ) == Ok::<Seq<u8>, BlstError>(sig@),
                    Err(st) => st matches ErrorStatus::Blst(e) && spec_sig_load_checked(
                        b,
                        flag_or(sig_validate, false),
                        flag_or(sig_infcheck, true),
                    ) == Err::<Seq<u8>, BlstError>(e),
                }
            }),
    {
        let stripped = raw_trim_0x(hex_str);
        let bytes = match raw_hex_decode(stripped) {
            Some(v) => v,
            None => {
                return Err(ErrorStatus::InvalidHex);
            },
        };
        Self::from_bytes(bytes.as_slice(), sig_validate, sig_infcheck)
    }

    /// Serialize a signature, compressed unless asked otherwise.
    pub fn to_bytes(&self, compress: Option<bool>) -> (r: Vec<u8>)
        ensures
            flag_or(compress, true) ==> r@ == self@,
            !flag_or(compress, true) ==> r@ == sig_uncompressed(self@),
    {
        if unwrap_flag(compress, true) {
            self.compress()
        } else {
            self.serialize()
        }
    }

    /// Serialize a signature to a lowercase "0x"-prefixed hex string.
    pub fn to_hex(&self, compress: Option<bool>) -> (r: String)
        ensures
            flag_or(compress, true) ==> r@ == seq!['0', 'x'] + spec_hex_chars(self@),
            !flag_or(compress, true) ==> r@ == seq!['0', 'x'] + spec_hex_chars(
                sig_uncompressed(self@),
            ),
    {
        let bytes = self.to_bytes(compress);
        raw_hex_encode_prefixed(bytes.as_slice())
    }

    /// Validate a signature, skipping the infinity check when
    /// `sig_infcheck` is false.
    pub fn sig_validate(&self, sig_infcheck: Option<bool>) -> (r: Result<(), ErrorStatus>)
        ensures
            r is Ok == (spec_sig_validate(self@, flag_or(sig_infcheck, true)) is None),
            r matches Err(st) ==> (st matches ErrorStatus::Blst(e) && spec_sig_validate(
                self@,
                flag_or(sig_infcheck, true),
            ) == Some(e)),
    {
        match self.validate(unwrap_flag(sig_infcheck, true)) {
            Ok(()) => Ok(()),
            Err(e) => Err(ErrorStatus::Blst(e)),
        }
    }
}

/// Aggregate multiple public keys into a single public key; with
/// `pks_validate` each key is infinity- and group-checked first.
pub fn aggregate_public_keys(pks: &Vec<PublicKey>, pks_validate: Option<bool>) -> (r: Result<
    PublicKey,
    ErrorStatus,
>)
    ensures
        pks@.len() == 0 ==> r == Err::<PublicKey, ErrorStatus>(
            ErrorStatus::Blst(BlstError::AggrTypeMismatch),
        ),
        pks@.len() > 0 ==> (match r {
            Ok(pk) => pk@ == pk_fold(pk_views(pks@)) && (flag_or(pks_validate, false)
                ==> spec_first_pk_err(pk_views(pks@)) is None),
            Err(st) => st matches ErrorStatus::Blst(e) && flag_or(pks_validate, false)
                && spec_first_pk_err(pk_views(pks@)) == Some(e),
        }),
{
    match AggregatePublicKey::aggregate(pks, unwrap_flag(pks_validate, false)) {
        Ok(agg) => Ok(agg.to_public_key()),
        Err(e) => Err(ErrorStatus::Blst(e)),
    }
}

/// Aggregate multiple signatures into a single signature; with
/// `sigs_groupcheck` each signature is group-checked first.
pub fn aggregate_signatures(sigs: &Vec<Signature>, sigs_groupcheck: Option<bool>) -> (r: Result<
    Signature,
    ErrorStatus,
>)
    ensures
        sigs@.len() == 0 ==> r == Err::<Signature, ErrorStatus>(
            ErrorStatus::Blst(BlstError::AggrTypeMismatch),
        ),
        sigs@.len() > 0 ==> (match r {
            Ok(sig) => sig@ == sig_fold(sig_views(sigs@)) && (flag_or(sigs_groupcheck, false)
                ==> spec_first_sig_err(sig_views(sigs@)) is None),
            Err(st) => st matches ErrorStatus::Blst(e) && flag_or(sigs_groupcheck, false)
                && spec_first_sig_err(sig_views(sigs@)) == Some(e),
        }),
{
    match AggregateSignature::aggregate(sigs, unwrap_flag(sigs_groupcheck, false)) {
        Ok(agg) => Ok(agg.to_signature()),
        Err(e) => Err(ErrorStatus::Blst(e)),
    }
}

/// Aggregate multiple serialized public keys into a single public key,
/// deserializing and optionally validating each inline.
pub fn aggregate_serialized_public_keys(pks: &Vec<Vec<u8>>, pks_validate: Option<bool>) -> (r:
    Result<PublicKey, ErrorStatus>)
    ensures
        pks@.len() == 0 ==> r == Err::<PublicKey, ErrorStatus>(
            ErrorStatus::Blst(BlstError::AggrTypeMismatch),
        ),
        pks@.len() > 0 ==> (match r {
            Ok(pk) => spec_first_pk_load_err(
                pks@.map_values(|b: Vec<u8>| b@),
                flag_or(pks_validate, false),
            ) is None && pk@ == pk_fold(pks@.map_values(|b: Vec<u8>| spec_pk_load_ok(b@))),
            Err(st) => st matches ErrorStatus::Blst(e) && spec_first_pk_load_err(
                pks@.map_values(|b: Vec<u8>| b@),
                flag_or(pks_validate, false),
            ) == Some(e),
        }),
{
    match AggregatePublicKey::aggregate_serialized(pks, unwrap_flag(pks_validate, false)) {
        Ok(agg) => Ok(agg.to_public_key()),
        Err(e) => Err(ErrorStatus::Blst(e)),
    }
}

/// Aggregate multiple serialized signatures into a single signature,
/// deserializing and optionally group-checking each inline.
pub fn aggregate_serialized_signatures(sigs: &Vec<Vec<u8>>, sigs_groupcheck: Option<bool>) -> (r:
    Result<Signature, ErrorStatus>)
    ensures
        sigs@.len() == 0 ==> r == Err::<Signature, ErrorStatus>(
            ErrorStatus::Blst(BlstError::AggrTypeMismatch),
        ),
        sigs@.len() > 0 ==> (match r {
            Ok(sig) => spec_first_sig_load_err(
                sigs@.map_values(|b: Vec<u8>| b@),
                flag_or(sigs_groupcheck, false),
            ) is None && sig@ == sig_fold(sigs@.map_values(|b: Vec<u8>| spec_sig_load_ok(b@))),
            Err(st) => st matches ErrorStatus::Blst(e) && spec_first_sig_load_err(
                sigs@.map_values(|b: Vec<u8>| b@),
                flag_or(sigs_groupcheck, false),
            ) == Some(e),
        }),
{
    match AggregateSignature::aggregate_serialized(sigs, unwrap_flag(sigs_groupcheck, false)) {
        Ok(agg) => Ok(agg.to_signature()),
        Err(e) => Err(ErrorStatus::Blst(e)),
    }
}

/// Verify a signature against a message and public key under the fixed
/// domain tag.
pub fn verify(
    msg: &[u8],
    pk: &PublicKey,
    sig: &Signature,
    pk_validate: Option<bool>,
    sig_groupcheck: Option<bool>,
) -> (r: bool)
    ensures
        r == ((flag_or(pk_validate, false) ==> spec_pk_validate(pk@) is None) && (flag_or(
            sig_groupcheck,
            false,
        ) ==> sig_in_group(sig@)) && agg_accepts(
            spec_dst(),
            zip_terms(seq![msg@], seq![pk@]),
            sig@,
        )),
{
    let d = dst();
    let empty: Vec<u8> = Vec::new();
    let outcome = sig.verify(
        unwrap_flag(sig_groupcheck, false),
        msg,
        d.as_slice(),
        empty.as_slice(),
        pk,
        unwrap_flag(pk_validate, false),
    );
    proof {
        assert(Seq::<u8>::empty() + msg@ =~= msg@);
        assert(seq![Seq::<u8>::empty() + msg@] =~= seq![msg@]);
    }
    outcome.is_ok()
}

/// Verify an aggregated signature against multiple messages and keys under
/// the fixed domain tag.
pub fn aggregate_verify(
    msgs: &Vec<Vec<u8>>,
    pks: &Vec<PublicKey>,
    sig: &Signature,
    pk_validate: Option<bool>,
    sigs_groupcheck: Option<bool>,
) -> (r: bool)
    ensures
        r == (pks@.len() > 0 && msgs@.len() == pks@.len() && (flag_or(pk_validate, false)
            ==> all_pks_valid(pk_views(pks@))) && (flag_or(sigs_groupcheck, false) ==> sig_in_group(
            sig@,
        )) && agg_accepts(spec_dst(), zip_terms(msg_views(msgs@), pk_views(pks@)), sig@)),
{
    let d = dst();
    let outcome = sig.aggregate_verify(
        unwrap_flag(sigs_groupcheck, false),
        msgs,
        d.as_slice(),
        pks,
        unwrap_flag(pk_validate, false),
    );
    outcome.is_ok()
}

/// Verify an aggregated signature against a single message and multiple
/// proof-of-possession-verified keys under the fixed domain tag.
pub fn fast_aggregate_verify(
    msg: &[u8],
    pks: &Vec<PublicKey>,
    sig: &Signature,
    sigs_groupcheck: Option<bool>,
) -> (r: bool)
    ensures
        r == (pks@.len() > 0 && (flag_or(sigs_groupcheck, false) ==> sig_in_group(sig@))
            && agg_accepts(spec_dst(), zip_terms(seq![msg@], seq![pk_fold(pk_views(pks@))]), sig@)),
{
    let d = dst();
    let outcome = sig.fast_aggregate_verify(
        unwrap_flag(sigs_groupcheck, false),
        msg,
        d.as_slice(),
        pks,
    );
    outcome.is_ok()
}

// ---------------------------------------------------------------------------
// Randomized batching.
// ---------------------------------------------------------------------------

/// Relies on `rand::Rng::gen_range` over `1..=u64::MAX`: a uniformly drawn
/// value that is never zero, as multiplicative randomizers must not be.
#[verifier::external_body]
fn raw_rand_nonzero_u64() -> (r: u64)
    ensures
        r != 0,
{
    rand::thread_rng().gen_range(1..=u64::MAX)
}

/// A scalar whose 64-bit word is not zero: some byte of its low eight is
/// set.
pub open spec fn scalar_word_nonzero(s: Seq<u8>) -> bool {
    exists|j: int| 0 <= j < 8 && (#[trigger] s[j]) != 0
}

/// Every 8-byte word of a flat randomizer string is non-zero.
pub open spec fn word_nonzero_at(s: Seq<u8>, k: int) -> bool {
    exists|j: int| 8 * k <= j < 8 * k + 8 && (#[trigger] s[j]) != 0
}

pub open spec fn rand_words_nonzero(s: Seq<u8>, n: int) -> bool {
    forall|k: int| 0 <= k < n ==> #[trigger] word_nonzero_at(s, k)
}

/// A non-zero 64-bit value has a non-zero byte in its little-endian form.
proof fn lemma_word_bytes_nonzero(v: u64)
    requires
        v != 0,
    ensures
        scalar_word_nonzero(spec_u64_scalar(v)),
{
    assert((((v >> 0) & 0xff) as u8) != 0 || (((v >> 8) & 0xff) as u8) != 0 || (((v >> 16)
        & 0xff) as u8) != 0 || (((v >> 24) & 0xff) as u8) != 0 || (((v >> 32) & 0xff) as u8) != 0
        || (((v >> 40) & 0xff) as u8) != 0 || (((v >> 48) & 0xff) as u8) != 0 || (((v >> 56)
        & 0xff) as u8) != 0) by (bit_vector)
        requires
            v != 0,
    ;
    if (((v >> 0) & 0xff) as u8) != 0 {
        assert(spec_u64_scalar(v)[0] != 0);
    } else if (((v >> 8) & 0xff) as u8) != 0 {
        assert(spec_u64_scalar(v)[1] != 0);
    } else if (((v >> 16) & 0xff) as u8) != 0 {
        assert(spec_u64_scalar(v)[2] != 0);
    } else if (((v >> 24) & 0xff) as u8) != 0 {
        assert(spec_u64_scalar(v)[3] != 0);
    } else if (((v >> 32) & 0xff) as u8) != 0 {
        assert(spec_u64_scalar(v)[4] != 0);
    } else if (((v >> 40) & 0xff) as u8) != 0 {
        assert(spec_u64_scalar(v)[5] != 0);
    } else if (((v >> 48) & 0xff) as u8) != 0 {
        assert(spec_u64_scalar(v)[6] != 0);
    } else {
        assert(spec_u64_scalar(v)[7] != 0);
    }
}

/// The 32-byte little-endian scalar holding a 64-bit value.
pub open spec fn spec_u64_scalar(v: u64) -> Seq<u8> {
    Seq::new(
        32,
        |j: int|
            if j < 8 {
                ((v >> (8 * j) as u64) & 0xff) as u8
            } else {
                0u8
            },
    )
}

/// Write a 64-bit value as a 32-byte little-endian scalar.
fn create_scalar(i: u64) -> (r: Vec<u8>)
    ensures
        r@ == spec_u64_scalar(i),
        r@.len() == 32,
        i != 0 ==> scalar_word_nonzero(r@),
{
    proof {
        if i != 0 {
            lemma_word_bytes_nonzero(i);
        }
    }
    let mut r: Vec<u8> = Vec::new();
    let mut j: usize = 0;
    while j < 32
        invariant
            j <= 32,
            r@.len() == j,
            forall|k: int| 0 <= k < j ==> r@[k] == spec_u64_scalar(i)[k],
        decreases 32 - j,
    {
        let v: u8 = if j < 8 {
            ((i >> (8 * j as u64)) & 0xff) as u8
        } else {
            0
        };
        r.push(v);
        j = j + 1;
    }
    proof {
        assert(r@ =~= spec_u64_scalar(i));
    }
    r
}

/// A vector of `len` random 32-byte scalars, each holding a non-zero
/// 64-bit value.
fn create_rand_scalars(len: usize) -> (r: Vec<Vec<u8>>)
    ensures
        r@.len() == len,
        forall|i: int| 0 <= i < len ==> #[trigger] r@[i]@.len() == 32,
        forall|i: int| 0 <= i < len ==> #[trigger] scalar_word_nonzero(r@[i]@),
{
    let mut r: Vec<Vec<u8>> = Vec::new();
    let mut i: usize = 0;
    while i < len
        invariant
            i <= len,
            r@.len() == i,
            forall|k: int| 0 <= k < i ==> #[trigger] r@[k]@.len() == 32,
            forall|k: int| 0 <= k < i ==> #[trigger] scalar_word_nonzero(r@[k]@),
        decreases len - i,
    {
        r.push(create_scalar(raw_rand_nonzero_u64()));
        i = i + 1;
    }
    r
}

/// A byte string of `len` random non-zero 64-bit values, little-endian.
fn create_rand_slice(len: usize) -> (r: Vec<u8>)
    requires
        len <= 0x1000_0000,
    ensures
        r@.len() == 8 * len,
        rand_words_nonzero(r@, len as int),
{
    let mut r: Vec<u8> = Vec::new();
    let mut i: usize = 0;
    while i < len
        invariant
            len <= 0x1000_0000,
            i <= len,
            r@.len() == 8 * i,
            forall|k: int| 0 <= k < i ==> #[trigger] word_nonzero_at(r@, k),
        decreases len - i,
    {
        let ghost snap = r@;
        let v = raw_rand_nonzero_u64();
        let mut j: usize = 0;
        while j < 8
            invariant
                len <= 0x1000_0000,
                i < len,
                j <= 8,
                snap.len() == 8 * i,
                r@.len() == 8 * i + j,
                forall|q: int| 0 <= q < 8 * i ==> r@[q] == snap[q],
                forall|q: int| 0 <= q < j ==> r@[8 * i + q] == spec_u64_scalar(v)[q],
                forall|k: int| 0 <= k < i ==> #[trigger] word_nonzero_at(snap, k),
            decreases 8 - j,
        {
            r.push(((v >> (8 * j as u64)) & 0xff) as u8);
            j = j + 1;
        }
        proof {
            lemma_word_bytes_nonzero(v);
            assert forall|k: int| 0 <= k < i + 1 implies #[trigger] word_nonzero_at(r@, k) by {
                if k < i {
                    assert(word_nonzero_at(snap, k));
                    let q = choose|q: int| 8 * k <= q < 8 * k + 8 && (#[trigger] snap[q]) != 0;
                    assert(r@[q] == snap[q]);
                    assert((r@[q]) != 0);
                } else {
                    assert(scalar_word_nonzero(spec_u64_scalar(v)));
                    let q = choose|q: int| 0 <= q < 8 && (#[trigger] spec_u64_scalar(v)[q]) != 0;
                    assert(r@[8 * k + q] == spec_u64_scalar(v)[q]);
                    assert((r@[8 * k + q]) != 0);
                }
            }
        }
        i = i + 1;
    }
    r
}

/// Blind and sum matched keys and signatures with one weighted sum each:
/// every pair is weighted by 64 bits of its slice of `scalars`.
fn aggregate_with(pks: &Vec<PublicKey>, sigs: &Vec<Signature>, scalars: &Vec<u8>) -> (r: (
    PublicKey,
    Signature,
))
    requires
        pks@.len() >= 1,
        sigs@.len() == pks@.len(),
        scalars@.len() >= 8 * pks@.len(),
    ensures
        r.0@ == pk_msm(pk_views(pks@), scalars@, 64),
        r.1@ == sig_msm(sig_views(sigs@), scalars@, 64),
{
    let pk = mult_public_keys(pks, scalars, 64).to_public_key();
    let sig = mult_signatures(sigs, scalars, 64).to_signature();
    (pk, sig)
}

/// What loading one aggregation set yields: the signature is deserialized
/// and fully validated, infinity check included.
pub open spec fn spec_set_sig_load(b: Seq<u8>) -> Result<Seq<u8>, BlstError> {
    spec_sig_load_checked(b, true, true)
}

/// The first load failure among the serialized signatures of a list of
/// aggregation sets, if any.
pub open spec fn spec_first_set_err(s: Seq<Seq<u8>>) -> Option<BlstError>
    decreases s.len(),
{
    if s.len() == 0 {
        None
    } else if spec_set_sig_load(s[0]) is Err {
        Some(spec_set_sig_load(s[0])->Err_0)
    } else {
        spec_first_set_err(s.drop_first())
    }
}

/// The serialized signatures of a list of aggregation sets.
pub open spec fn set_sig_bytes(s: Seq<PkAndSerializedSig>) -> Seq<Seq<u8>> {
    s.map_values(|x: PkAndSerializedSig| x.sig@)
}

/// The keys of a list of aggregation sets.
pub open spec fn set_pks(s: Seq<PkAndSerializedSig>) -> Seq<Seq<u8>> {
    s.map_values(|x: PkAndSerializedSig| x.pk@)
}

/// Split aggregation sets into their keys and their deserialized, fully
/// validated signatures, stopping at the first signature that fails.
fn unzip_and_validate_aggregation_sets(sets: &Vec<PkAndSerializedSig>) -> (r: Result<
    (Vec<PublicKey>, Vec<Signature>),
    ErrorStatus,
>)
    ensures
        r matches Ok(pair) ==> spec_first_set_err(set_sig_bytes(sets@)) is None && pk_views(
            pair.0@,
        ) == set_pks(sets@) && sig_views(pair.1@) == set_sig_bytes(sets@).map_values(
            |b: Seq<u8>| spec_sig_load_ok(b),
        ) && pair.0@.len() == sets@.len() && pair.1@.len() == sets@.len(),
        r matches Err(st) ==> (st matches ErrorStatus::Blst(e) && spec_first_set_err(
            set_sig_bytes(sets@),
        ) == Some(e)),
{
    let ghost raws = set_sig_bytes(sets@);
    let ghost loaded = raws.map_values(|b: Seq<u8>| spec_sig_load_ok(b));
    let mut pks: Vec<PublicKey> = Vec::new();
    let mut sigs: Vec<Signature> = Vec::new();
    let mut i: usize = 0;
    while i < sets.len()
        invariant
            i <= sets@.len(),
            raws == set_sig_bytes(sets@),
            loaded == raws.map_values(|b: Seq<u8>| spec_sig_load_ok(b)),
            pks@.len() == i,
            sigs@.len() == i,
            forall|k: int| 0 <= k < i ==> #[trigger] pks@[k]@ == sets@[k].pk@,
            forall|k: int| 0 <= k < i ==> #[trigger] sigs@[k]@ == loaded[k],
            spec_first_set_err(raws.take(i as int)) is None,
        decreases sets@.len() - i,
    {
        let sig = match Signature::deserialize(sets[i].sig.as_slice()) {
            Ok(sig) => sig,
            Err(e) => {
                proof {
                    lemma_first_set_err_prefix(raws, i as int);
                }
                return Err(ErrorStatus::Blst(e));
            },
        };
        match sig.validate(true) {
            Ok(()) => (),
            Err(e) => {
                proof {
                    lemma_first_set_err_prefix(raws, i as int);
                }
                return Err(ErrorStatus::Blst(e));
            },
        }
        pks.push(raw_pk_dup(&sets[i].pk));
        sigs.push(sig);
        proof {
            lemma_first_set_err_extend(raws, i as int);
        }
        i = i + 1;
    }
    proof {
        assert(raws.take(sets@.len() as int) =~= raws);
        assert forall|k: int| 0 <= k < sets@.len() implies pk_views(pks@)[k] == set_pks(sets@)[k]
            by {
            assert(pks@[k]@ == sets@[k].pk@);
        }
        assert(pk_views(pks@) =~= set_pks(sets@));
        assert forall|k: int| 0 <= k < sets@.len() implies sig_views(sigs@)[k] == loaded[k] by {
            assert(sigs@[k]@ == loaded[k]);
        }
        assert(sig_views(sigs@) =~= loaded);
    }
    Ok((pks, sigs))
}

/// If no set among the first `i` fails to load and set `i` fails with `e`,
/// then `e` is the first failure of the whole list.
proof fn lemma_first_set_err_prefix(s: Seq<Seq<u8>>, i: int)
    requires
        0 <= i < s.len(),
        spec_first_set_err(s.take(i)) is None,
        spec_set_sig_load(s[i]) is Err,
    ensures
        spec_first_set_err(s) == Some(spec_set_sig_load(s[i])->Err_0),
    decreases i,
{
    if i == 0 {
    } else {
        assert(s.take(i).drop_first() =~= s.drop_first().take(i - 1));
        lemma_first_set_err_prefix(s.drop_first(), i - 1);
    }
}

/// A failure-free prefix stays failure-free when extended by a set that
/// loads.
proof fn lemma_first_set_err_extend(s: Seq<Seq<u8>>, i: int)
    requires
        0 <= i < s.len(),
        spec_first_set_err(s.take(i)) is None,
        spec_set_sig_load(s[i]) is Ok,
    ensures
        spec_first_set_err(s.take(i + 1)) is None,
    decreases i,
{
    if i == 0 {
        assert(s.take(1).len() == 1);
        assert(s.take(1)[0] == s[0]);
        assert(s.take(1).drop_first().len() == 0);
        assert(spec_first_set_err(s.take(1).drop_first()) is None);
    } else {
        assert(s.take(i).drop_first() =~= s.drop_first().take(i - 1));
        assert(s.take(i + 1).drop_first() =~= s.drop_first().take(i));
        lemma_first_set_err_extend(s.drop_first(), i - 1);
    }
}

/// Aggregate matched public keys and serialized signatures into one blinded
/// key and one blinded signature: each pair is weighted by an independent
/// non-zero 64-bit randomizer before the two weighted sums are taken.
/// Signatures are deserialized and fully validated first.
pub fn aggregate_with_randomness(sets: &Vec<PkAndSerializedSig>) -> (r: Result<
    PkAndSig,
    ErrorStatus,
>)
    requires
        sets@.len() <= 0x1000_0000,
    ensures
        sets@.len() == 0 ==> r == Err::<PkAndSig, ErrorStatus>(
            ErrorStatus::Blst(BlstError::AggrTypeMismatch),
        ),
        sets@.len() > 0 ==> (match r {
            Ok(out) => spec_first_set_err(set_sig_bytes(sets@)) is None && (exists|rs: Seq<u8>|
                rs.len() == 8 * sets@.len() && rand_words_nonzero(rs, sets@.len() as int)
                    && out.pk@ == pk_msm(set_pks(sets@), rs, 64) && out.sig@ == sig_msm(
                    set_sig_bytes(sets@).map_values(|b: Seq<u8>| spec_sig_load_ok(b)),
                    rs,
                    64,
                )),
            Err(st) => st matches ErrorStatus::Blst(e) && spec_first_set_err(set_sig_bytes(sets@))
                == Some(e),
        }),
{
    if sets.len() == 0 {
        return Err(ErrorStatus::Blst(BlstError::AggrTypeMismatch));
    }
    let (pks, sigs) = match unzip_and_validate_aggregation_sets(sets) {
        Ok(pair) => pair,
        Err(e) => {
            return Err(e);
        },
    };
    let rands = create_rand_slice(pks.len());
    let (pk, sig) = aggregate_with(&pks, &sigs, &rands);
    Ok(PkAndSig { pk, sig })
}

// ---------------------------------------------------------------------------
// Multi-signature batch verification over work-item sets.
// ---------------------------------------------------------------------------

/// Every scalar in the list is a full 32-byte value.
pub open spec fn all_scalars_len32(s: Seq<Seq<u8>>) -> bool {
    forall|i: int| 0 <= i < s.len() ==> (#[trigger] s[i]).len() == 32
}

/// The verdict a multi-signature batch verification reaches under one
/// draw of randomizers: every requested validation passes and the weighted
/// pairing-product equation accepts under those scalars.
pub open spec fn randomized_verdict(
    sets: Seq<SignatureSet>,
    pks_validate: bool,
    sigs_groupcheck: bool,
    rs: Seq<Seq<u8>>,
    accepted: bool,
) -> bool {
    &&& rs.len() == sets.len()
    &&& all_scalars_len32(rs)
    &&& forall|i: int| 0 <= i < rs.len() ==> #[trigger] scalar_word_nonzero(rs[i])
    &&& accepted == ((pks_validate ==> all_pks_valid(sset_pks(sets))) && (sigs_groupcheck
        ==> all_sigs_in_group(sset_sigs(sets))) && mult_agg_accepts(
        spec_dst(),
        zip_wterms(sset_msgs(sets), sset_pks(sets), sset_sigs(sets), rs),
    ))
}

/// The messages of a list of signature sets.
pub open spec fn sset_msgs(s: Seq<SignatureSet>) -> Seq<Seq<u8>> {
    s.map_values(|x: SignatureSet| x.msg@)
}

/// The keys of a list of signature sets.
pub open spec fn sset_pks(s: Seq<SignatureSet>) -> Seq<Seq<u8>> {
    s.map_values(|x: SignatureSet| x.pk@)
}

/// The signatures of a list of signature sets.
pub open spec fn sset_sigs(s: Seq<SignatureSet>) -> Seq<Seq<u8>> {
    s.map_values(|x: SignatureSet| x.sig@)
}

/// Split signature sets into message, key and signature lists.
fn unzip_signature_sets(sets: &Vec<SignatureSet>) -> (r: (
    Vec<Vec<u8>>,
    Vec<PublicKey>,
    Vec<Signature>,
))
    ensures
        r.0@.len() == sets@.len(),
        r.1@.len() == sets@.len(),
        r.2@.len() == sets@.len(),
        msg_views(r.0@) == sset_msgs(sets@),
        pk_views(r.1@) == sset_pks(sets@),
        sig_views(r.2@) == sset_sigs(sets@),
{
    let mut msgs: Vec<Vec<u8>> = Vec::new();
    let mut pks: Vec<PublicKey> = Vec::new();
    let mut sigs: Vec<Signature> = Vec::new();
    let mut i: usize = 0;
    while i < sets.len()
        invariant
            i <= sets@.len(),
            msgs@.len() == i,
            pks@.len() == i,
            sigs@.len() == i,
            forall|k: int| 0 <= k < i ==> #[trigger] msgs@[k]@ == sets@[k].msg@,
            forall|k: int| 0 <= k < i ==> #[trigger] pks@[k]@ == sets@[k].pk@,
            forall|k: int| 0 <= k < i ==> #[trigger] sigs@[k]@ == sets@[k].sig@,
        decreases sets@.len() - i,
    {
        msgs.push(copy_bytes(sets[i].msg.as_slice()));
        pks.push(raw_pk_dup(&sets[i].pk));
        sigs.push(raw_sig_dup(&sets[i].sig));
        i = i + 1;
    }
    proof {
        assert forall|k: int| 0 <= k < sets@.len() implies msg_views(msgs@)[k] == sset_msgs(
            sets@,
        )[k] by {
            assert(msgs@[k]@ == sets@[k].msg@);
        }
        assert(msg_views(msgs@) =~= sset_msgs(sets@));
        assert forall|k: int| 0 <= k < sets@.len() implies pk_views(pks@)[k] == sset_pks(sets@)[k]
            by {
            assert(pks@[k]@ == sets@[k].pk@);
        }
        assert(pk_views(pks@) =~= sset_pks(sets@));
        assert forall|k: int| 0 <= k < sets@.len() implies sig_views(sigs@)[k] == sset_sigs(
            sets@,
        )[k] by {
            assert(sigs@[k]@ == sets@[k].sig@);
        }
        assert(sig_views(sigs@) =~= sset_sigs(sets@));
    }
    (msgs, pks, sigs)
}

/// Verify multiple aggregated signatures against their messages and keys,
/// weighting each set with a fresh non-zero 64-bit randomizer to defend
/// against rogue-key forgeries across sets: the verdict is the weighted
/// pairing check under the drawn randomizers.
pub fn verify_multiple_aggregate_signatures(
    sets: &Vec<SignatureSet>,
    pks_validate: Option<bool>,
    sigs_groupcheck: Option<bool>,
) -> (r: bool)
    ensures
        sets@.len() == 0 ==> r == false,
        sets@.len() > 0 ==> (exists|rs: Seq<Seq<u8>>|
            #[trigger] randomized_verdict(
                sets@,
                flag_or(pks_validate, false),
                flag_or(sigs_groupcheck, false),
                rs,
                r,
            )),
{
    let (msgs, pks, sigs) = unzip_signature_sets(sets);
    let rands = create_rand_scalars(sets.len());
    let d = dst();
    let outcome = Signature::verify_multiple_aggregate_signatures(
        &msgs,
        d.as_slice(),
        &pks,
        unwrap_flag(pks_validate, false),
        &sigs,
        unwrap_flag(sigs_groupcheck, false),
        &rands,
        64,
    );
    let r = outcome.is_ok();
    proof {
        if sets@.len() > 0 {
            let rs = norm_scalars(rands@, 64);
            assert(rs.len() == sets@.len());
            assert forall|i: int| 0 <= i < rs.len() implies (#[trigger] rs[i]).len() == 32 by {
                assert(rs[i] == scalar_norm(rands@[i as int]@, 64));
            }
            assert(all_scalars_len32(rs));
            assert forall|i: int| 0 <= i < rs.len() implies #[trigger] scalar_word_nonzero(
                rs[i],
            ) by {
                assert(scalar_word_nonzero(rands@[i as int]@));
                let q = choose|q: int| 0 <= q < 8 && (#[trigger] rands@[i as int]@[q]) != 0;
                assert(rs[i] == scalar_norm(rands@[i as int]@, 64));
                assert(rs[i][q] == rands@[i as int]@[q]);
            }
            assert(r == ((flag_or(pks_validate, false) ==> all_pks_valid(sset_pks(sets@))) && (
            flag_or(sigs_groupcheck, false) ==> all_sigs_in_group(sset_sigs(sets@)))
                && mult_agg_accepts(
                spec_dst(),
                zip_wterms(sset_msgs(sets@), sset_pks(sets@), sset_sigs(sets@), rs),
            )));
            assert(randomized_verdict(
                sets@,
                flag_or(pks_validate, false),
                flag_or(sigs_groupcheck, false),
                rs,
                r,
            ));
        }
    }
    r
}

} // verus!
