use vstd::prelude::*;

use crate::errors::BlstError;
use crate::keys::SecretKey;
use blst::min_pk::AggregateSignature as BlstAggregateSignature;
use blst::min_pk::Signature as BlstSignature;

verus! {

// ---------------------------------------------------------------------------
// Signatures are affine G2 points, modeled like public keys by their
// canonical 96-byte compressed encoding.
// ---------------------------------------------------------------------------

#[verifier::external_type_specification]
#[verifier::external_body]
pub struct ExMinPkSignature(BlstSignature);

#[verifier::external_type_specification]
#[verifier::external_body]
pub struct ExMinPkAggregateSignature(BlstAggregateSignature);

/// The canonical compressed signature produced by hashing `aug ‖ msg` onto G2
/// under domain tag `dst` and multiplying by the secret scalar
/// (`blst_hash_to_g2` followed by `blst_sign_pk2_in_g1`).
pub uninterp spec fn sign_of(sk: Seq<u8>, msg: Seq<u8>, dst: Seq<u8>, aug: Seq<u8>) -> Seq<u8>;

/// Whether the G2 decoder accepts these bytes (`blst_p2_deserialize` /
/// `blst_p2_uncompress`).
pub uninterp spec fn sig_decodes(b: Seq<u8>) -> bool;

/// The canonical compressed encoding of the G2 point these bytes decode to.
pub uninterp spec fn sig_canon(b: Seq<u8>) -> Seq<u8>;

/// Whether the G2 decoder rejects these bytes as malformed rather than as a
/// coordinate pair off the curve.
pub uninterp spec fn sig_badenc(b: Seq<u8>) -> bool;

/// Whether the decoded point lies in the prime-order G2 subgroup
/// (`blst_p2_affine_in_g2`).
pub uninterp spec fn sig_in_group(b: Seq<u8>) -> bool;

/// The canonical compressed encoding of the sum of two G2 points
/// (`blst_p2_add_or_double`).
pub uninterp spec fn sig_sum(a: Seq<u8>, b: Seq<u8>) -> Seq<u8>;

/// The 192-byte uncompressed serialization of the G2 point with this
/// canonical compressed encoding (`blst_p2_affine_serialize`).
pub uninterp spec fn sig_uncompressed(b: Seq<u8>) -> Seq<u8>;

/// The canonical compressed encoding of the G2 identity.
pub open spec fn is_inf_sig(b: Seq<u8>) -> bool {
    b.len() == 96 && b[0] == 0xc0u8 && (forall|i: int| 1 <= i < 96 ==> b[i] == 0u8)
}

/// Well-formed signature bytes: the canonical compressed encoding of a
/// decodable G2 point.
pub open spec fn sig_wf(b: Seq<u8>) -> bool {
    &&& b.len() == 96
    &&& b[0] & 0x80u8 != 0u8
    &&& sig_decodes(b)
    &&& sig_canon(b) == b
}

/// The length-and-flag shapes the signature deserializer accepts.
pub open spec fn sig_decode_shape(b: Seq<u8>) -> bool {
    ||| (b.len() == 96 && b[0] & 0x80u8 != 0u8)
    ||| (b.len() == 192 && b[0] & 0x80u8 == 0u8)
}

/// What decoding signature bytes of an accepted shape yields.
pub open spec fn spec_sig_decode_checked(b: Seq<u8>) -> Result<Seq<u8>, BlstError> {
    if sig_decodes(b) {
        Ok(sig_canon(b))
    } else if sig_badenc(b) {
        Err(BlstError::BadEncoding)
    } else {
        Err(BlstError::PointNotOnCurve)
    }
}

/// What `Signature::deserialize` yields on any input.
pub open spec fn spec_sig_decode(b: Seq<u8>) -> Result<Seq<u8>, BlstError> {
    if sig_decode_shape(b) {
        spec_sig_decode_checked(b)
    } else {
        Err(BlstError::BadEncoding)
    }
}

/// What `Signature::uncompress` yields on any input.
pub open spec fn spec_sig_uncompress(b: Seq<u8>) -> Result<Seq<u8>, BlstError> {
    if b.len() == 96 && b[0] & 0x80u8 != 0u8 {
        spec_sig_decode_checked(b)
    } else {
        Err(BlstError::BadEncoding)
    }
}

/// The failure `Signature::validate` reports, if any. The infinity check is
/// optional: skipping it is cryptographically safe for aggregates, while
/// individual signatures may be guarded against the obviously bogus identity.
pub open spec fn spec_sig_validate(b: Seq<u8>, sig_infcheck: bool) -> Option<BlstError> {
    if sig_infcheck && is_inf_sig(b) {
        Some(BlstError::PkIsInfinity)
    } else if !sig_in_group(b) {
        Some(BlstError::PointNotInGroup)
    } else {
        None
    }
}

/// Left-to-right sum of a non-empty sequence of signature encodings.
pub open spec fn sig_fold(s: Seq<Seq<u8>>) -> Seq<u8>
    decreases s.len(),
{
    if s.len() <= 1 {
        s[0]
    } else {
        sig_sum(sig_fold(s.drop_last()), s.last())
    }
}

/// The views of a sequence of signatures.
pub open spec fn sig_views(s: Seq<Signature>) -> Seq<Seq<u8>> {
    s.map_values(|p: Signature| p@)
}

// ---------------------------------------------------------------------------
// Signatures
// ---------------------------------------------------------------------------

/// An affine G2 point serving as a signature. Modeled by its canonical
/// 96-byte compressed encoding, stored alongside the point.
#[derive(Debug)]
pub struct Signature {
    pub(crate) point: BlstSignature,
    pub(crate) bytes: Vec<u8>,
}

impl View for Signature {
    type V = Seq<u8>;

    closed spec fn view(&self) -> Seq<u8> {
        self.bytes@
    }
}

impl Signature {
    #[verifier::type_invariant]
    spec fn inv(self) -> bool {
        sig_wf(self.bytes@)
    }
}

impl PartialEq for Signature {
    /// Two signatures are equal exactly when their canonical encodings are.
    fn eq(&self, other: &Self) -> (r: bool) {
        let r = self.bytes == other.bytes;
        proof {
            if r {
                assert(self.bytes@ =~= other.bytes@);
            }
        }
        r
    }
}

impl Eq for Signature {

}

impl vstd::std_specs::cmp::PartialEqSpecImpl for Signature {
    open spec fn obeys_eq_spec() -> bool {
        true
    }

    open spec fn eq_spec(&self, other: &Self) -> bool {
        self@ == other@
    }
}

/// Relies on `blst::min_pk::SecretKey::sign`: hash-to-curve of the augmented
/// message followed by scalar multiplication; always succeeds.
#[verifier::external_body]
fn raw_sign(sk: &SecretKey, msg: &[u8], dst: &[u8], aug: &[u8]) -> (r: Signature)
    ensures
        r@ == sign_of(sk@, msg@, dst@, aug@),
{
    let point = sk.sk.sign(msg, dst, aug);
    Signature { bytes: point.compress().to_vec(), point }
}

/// Relies on `blst::min_pk::Signature::deserialize` for the curve decoding
/// and on `compress` re-serializing the decoded point canonically. The
/// length-and-flag shape has already been checked by the caller.
#[verifier::external_body]
fn raw_sig_decode(b: &[u8]) -> (r: Result<Signature, BlstError>)
    requires
        sig_decode_shape(b@),
    ensures
        r.is_ok() == sig_decodes(b@),
        r matches Ok(sig) ==> sig@ == sig_canon(b@),
        r matches Err(e) ==> e == (if sig_badenc(b@) {
            BlstError::BadEncoding
        } else {
            BlstError::PointNotOnCurve
        }),
{
    match BlstSignature::deserialize(b) {
        Ok(point) => Ok(Signature { bytes: point.compress().to_vec(), point }),
        Err(blst::BLST_ERROR::BLST_POINT_NOT_ON_CURVE) => Err(BlstError::PointNotOnCurve),
        Err(_) => Err(BlstError::BadEncoding),
    }
}

/// Relies on `blst::min_pk::Signature::serialize`: the 192-byte uncompressed
/// form of the same point, which decodes back to it.
#[verifier::external_body]
fn raw_sig_serialize(sig: &Signature) -> (r: Vec<u8>)
    ensures
        r@ == sig_uncompressed(sig@),
        r@.len() == 192,
        r@[0] & 0x80u8 == 0u8,
        sig_decodes(r@),
        sig_canon(r@) == sig@,
{
    sig.point.serialize().to_vec()
}

/// Relies on `blst::min_pk::Signature` being a plain affine point that can
/// be copied bit for bit.
#[verifier::external_body]
pub(crate) fn raw_sig_dup(sig: &Signature) -> (r: Signature)
    ensures
        r@ == sig@,
{
    Signature { point: sig.point, bytes: sig.bytes.clone() }
}

/// Relies on `blst::min_pk::Signature::subgroup_check`
/// (`blst_p2_affine_in_g2`).
#[verifier::external_body]
fn raw_sig_in_group(sig: &Signature) -> (r: bool)
    ensures
        r == sig_in_group(sig@),
{
    sig.point.subgroup_check()
}

/// Relies on `blst::min_pk::Signature::uncompress` accepting the canonical
/// encoding of the G2 identity: the signature-side unit of aggregation.
#[verifier::external_body]
pub(crate) fn raw_inf_signature() -> (r: Signature)
    ensures
        is_inf_sig(r@),
{
    let mut b = [0u8; 96];
    b[0] = 0xc0;
    let point = BlstSignature::uncompress(&b).unwrap();
    Signature { bytes: b.to_vec(), point }
}

// ---------------------------------------------------------------------------
// Aggregate signatures
// ---------------------------------------------------------------------------

/// A running sum of signatures. Modeled by the canonical compressed encoding
/// of its affine normalization.
#[derive(Debug)]
pub struct AggregateSignature {
    pub(crate) point: BlstAggregateSignature,
    pub(crate) bytes: Vec<u8>,
}

impl View for AggregateSignature {
    type V = Seq<u8>;

    closed spec fn view(&self) -> Seq<u8> {
        self.bytes@
    }
}

impl AggregateSignature {
    #[verifier::type_invariant]
    spec fn inv(self) -> bool {
        sig_wf(self.bytes@)
    }
}

/// Relies on `blst_p2_from_affine`: lifting a point into the accumulator
/// representation does not change the point.
#[verifier::external_body]
fn raw_agg_sig_from_sig(sig: &Signature) -> (r: AggregateSignature)
    ensures
        r@ == sig@,
{
    let point = BlstAggregateSignature::from_signature(&sig.point);
    AggregateSignature { bytes: sig.bytes.clone(), point }
}

/// Relies on `blst_p2_to_affine`: affine normalization keeps the point.
#[verifier::external_body]
fn raw_agg_sig_to_sig(agg: &AggregateSignature) -> (r: Signature)
    ensures
        r@ == agg@,
{
    let point = agg.point.to_signature();
    Signature { bytes: point.compress().to_vec(), point }
}

/// Relies on `blst_p2_add_or_double_affine`: group addition in G2, which is
/// commutative and associative on canonical encodings.
#[verifier::external_body]
fn raw_agg_sig_add_sig(agg: &mut AggregateSignature, sig: &Signature)
    ensures
        final (agg)@ == sig_sum(old(agg)@, sig@),
        final (agg)@ == sig_sum(sig@, old(agg)@),
        forall|c: Seq<u8>| #[trigger] sig_sum(final (agg)@, c) == sig_sum(
            old(agg)@,
            sig_sum(sig@, c),
        ),
{
    agg.point.add_signature(&sig.point, false).unwrap();
    agg.bytes = agg.point.to_signature().compress().to_vec();
}

/// Relies on `blst_p2_add_or_double`: group addition in G2, which is
/// commutative.
#[verifier::external_body]
fn raw_agg_sig_add_agg(agg: &mut AggregateSignature, other: &AggregateSignature)
    ensures
        final (agg)@ == sig_sum(old(agg)@, other@),
        final (agg)@ == sig_sum(other@, old(agg)@),
{
    agg.point.add_aggregate(&other.point);
    agg.bytes = agg.point.to_signature().compress().to_vec();
}

impl SecretKey {
    /// Sign a message: hash `aug ‖ msg` onto the signature group under the
    /// domain tag `dst` and scalar-multiply by the secret key. Never fails.
    pub fn sign(&self, msg: &[u8], dst: &[u8], aug: &[u8]) -> (r: Signature)
        ensures
            r@ == sign_of(self@, msg@, dst@, aug@),
    {
        raw_sign(self, msg, dst, aug)
    }
}

impl Signature {
    /// Validate an externally supplied signature: optionally reject the
    /// identity, then check membership in the prime-order subgroup.
    pub fn validate(&self, sig_infcheck: bool) -> (r: Result<(), BlstError>)
        ensures
            r.is_ok() == (spec_sig_validate(self@, sig_infcheck) is None),
            r matches Err(e) ==> spec_sig_validate(self@, sig_infcheck) == Some(e),
    {
        if sig_infcheck && self.is_infinity() {
            return Err(BlstError::PkIsInfinity);
        }
        if !raw_sig_in_group(self) {
            return Err(BlstError::PointNotInGroup);
        }
        Ok(())
    }

    /// Whether this is the identity point.
    pub fn is_infinity(&self) -> (r: bool)
        ensures
            r == is_inf_sig(self@),
    {
        proof {
            use_type_invariant(self);
        }
        if self.bytes[0] != 0xc0 {
            return false;
        }
        let mut i: usize = 1;
        while i < 96
            invariant
                1 <= i <= 96,
                sig_wf(self@),
                self.bytes@[0] == 0xc0u8,
                forall|j: int| 1 <= j < i ==> self.bytes@[j] == 0u8,
            decreases 96 - i,
        {
            if self.bytes[i] != 0 {
                return false;
            }
            i = i + 1;
        }
        true
    }

    /// Whether the point lies in the prime-order G2 subgroup.
    pub fn subgroup_check(&self) -> (r: bool)
        ensures
            r == sig_in_group(self@),
    {
        raw_sig_in_group(self)
    }

    /// The canonical 96-byte compressed encoding.
    pub fn compress(&self) -> (r: Vec<u8>)
        ensures
            r@ == self@,
            r@.len() == 96,
    {
        proof {
            use_type_invariant(self);
        }
        let r = self.bytes.clone();
        assert(r@ =~= self@);
        r
    }

    /// The 192-byte uncompressed serialization.
    pub fn serialize(&self) -> (r: Vec<u8>)
        ensures
            r@ == sig_uncompressed(self@),
            r@.len() == 192,
            spec_sig_decode(r@) == Ok::<Seq<u8>, BlstError>(self@),
    {
        let r = raw_sig_serialize(self);
        r
    }

    /// Decode a compressed signature: exactly 96 bytes with the compressed
    /// flag bit set, naming a point on the curve.
    pub fn uncompress(sig_comp: &[u8]) -> (r: Result<Self, BlstError>)
        ensures
            r matches Ok(sig) ==> spec_sig_uncompress(sig_comp@) == Ok::<Seq<u8>, BlstError>(sig@),
            r matches Err(e) ==> spec_sig_uncompress(sig_comp@) == Err::<Seq<u8>, BlstError>(e),
    {
        if sig_comp.len() == 96 && (sig_comp[0] & 0x80) != 0 {
            raw_sig_decode(sig_comp)
        } else {
            Err(BlstError::BadEncoding)
        }
    }

    /// Decode a signature from either wire form, telling them apart by the
    /// length and the flag bit in the first byte.
    pub fn deserialize(sig_in: &[u8]) -> (r: Result<Self, BlstError>)
        ensures
            r matches Ok(sig) ==> spec_sig_decode(sig_in@) == Ok::<Seq<u8>, BlstError>(sig@),
            r matches Err(e) ==> spec_sig_decode(sig_in@) == Err::<Seq<u8>, BlstError>(e),
    {
        if (sig_in.len() == 192 && (sig_in[0] & 0x80) == 0) || (sig_in.len() == 96 && (sig_in[0]
            & 0x80) != 0) {
            raw_sig_decode(sig_in)
        } else {
            Err(BlstError::BadEncoding)
        }
    }

    /// Normalize an accumulated sum back to a signature.
    pub fn from_aggregate(agg_sig: &AggregateSignature) -> (r: Self)
        ensures
            r@ == agg_sig@,
    {
        raw_agg_sig_to_sig(agg_sig)
    }
}

/// Deserializing either serialization of a signature returns that
/// signature: the round trip over the compressed form.
pub proof fn lemma_sig_compressed_round_trip(b: Seq<u8>)
    requires
        sig_wf(b),
    ensures
        spec_sig_decode(b) == Ok::<Seq<u8>, BlstError>(b),
        spec_sig_uncompress(b) == Ok::<Seq<u8>, BlstError>(b),
{
}

/// The round trip over the uncompressed form: deserializing the 192-byte
/// serialization of a signature returns that signature.
pub fn sig_serialized_round_trip(sig: &Signature) -> (r: Signature)
    ensures
        r@ == sig@,
{
    let ser = sig.serialize();
    match Signature::deserialize(ser.as_slice()) {
        Ok(back) => back,
        Err(_) => {
            proof {
                assert(false);
            }
            raw_sig_dup(sig)
        },
    }
}

/// The first validation failure among a sequence of signature encodings, if
/// any. Aggregation never applies the infinity check: an input here may
/// itself be an aggregate, which the identity legitimately occurs in.
pub open spec fn spec_first_sig_err(s: Seq<Seq<u8>>) -> Option<BlstError>
    decreases s.len(),
{
    if s.len() == 0 {
        None
    } else if spec_sig_validate(s[0], false) is Some {
        spec_sig_validate(s[0], false)
    } else {
        spec_first_sig_err(s.drop_first())
    }
}

impl AggregateSignature {
    /// Lift one signature into the accumulator representation.
    pub fn from_signature(sig: &Signature) -> (r: Self)
        ensures
            r@ == sig@,
    {
        raw_agg_sig_from_sig(sig)
    }

    /// Normalize the accumulated sum back to a signature.
    pub fn to_signature(&self) -> (r: Signature)
        ensures
            r@ == self@,
    {
        raw_agg_sig_to_sig(self)
    }

    /// Sum a list of signatures left to right. An empty list is an
    /// `AggrTypeMismatch`; with `sigs_groupcheck` each signature is
    /// subgroup-checked just before it is folded in, and the first failure
    /// aborts the whole batch.
    pub fn aggregate(sigs: &Vec<Signature>, sigs_groupcheck: bool) -> (r: Result<Self, BlstError>)
        ensures
            sigs@.len() == 0 ==> r == Err::<Self, BlstError>(BlstError::AggrTypeMismatch),
            sigs@.len() > 0 ==> (match r {
                Ok(agg) => agg@ == sig_fold(sig_views(sigs@)) && (sigs_groupcheck
                    ==> spec_first_sig_err(sig_views(sigs@)) is None),
                Err(e) => sigs_groupcheck && spec_first_sig_err(sig_views(sigs@)) == Some(e),
            }),
    {
        if sigs.len() == 0 {
            return Err(BlstError::AggrTypeMismatch);
        }
        if sigs_groupcheck {
            match sigs[0].validate(false) {
                Ok(()) => (),
                Err(e) => {
                    return Err(e);
                },
            }
        }
        let mut agg = AggregateSignature::from_signature(&sigs[0]);
        proof {
            let vs = sig_views(sigs@);
            assert(vs.take(1).len() == 1);
            assert(vs.take(1)[0] == sigs@[0]@);
            assert(spec_first_sig_err(vs.take(1).drop_first()) is None);
        }
        let mut i: usize = 1;
        while i < sigs.len()
            invariant
                1 <= i <= sigs@.len(),
                agg@ == sig_fold(sig_views(sigs@).take(i as int)),
                sigs_groupcheck ==> spec_first_sig_err(sig_views(sigs@).take(i as int)) is None,
            decreases sigs@.len() - i,
        {
            if sigs_groupcheck {
                match sigs[i].validate(false) {
                    Ok(()) => (),
                    Err(e) => {
                        proof {
                            lemma_first_sig_err_prefix(sig_views(sigs@), i as int);
                        }
                        return Err(e);
                    },
                }
            }
            raw_agg_sig_add_sig(&mut agg, &sigs[i]);
            proof {
                assert(sig_views(sigs@).take(i + 1).drop_last() =~= sig_views(sigs@).take(i as int));
                if sigs_groupcheck {
                    lemma_first_sig_err_extend(sig_views(sigs@), i as int);
                }
            }
            i = i + 1;
        }
        proof {
            assert(sig_views(sigs@).take(sigs@.len() as int) =~= sig_views(sigs@));
        }
        Ok(agg)
    }

    /// Add one accumulated sum into this one in place.
    pub fn add_aggregate(&mut self, agg_sig: &AggregateSignature)
        ensures
            final (self)@ == sig_sum(old(self)@, agg_sig@),
            final (self)@ == sig_sum(agg_sig@, old(self)@),
    {
        raw_agg_sig_add_agg(self, agg_sig)
    }

    /// Add one signature into the sum in place, subgroup-checking it first
    /// when asked to.
    pub fn add_signature(&mut self, sig: &Signature, sig_groupcheck: bool) -> (r: Result<
        (),
        BlstError,
    >)
        ensures
            r matches Err(e) ==> sig_groupcheck && spec_sig_validate(sig@, false) == Some(e)
                && *final (self) == *old(self),
            r is Ok ==> final (self)@ == sig_sum(old(self)@, sig@) && (sig_groupcheck
                ==> spec_sig_validate(sig@, false) is None),
    {
        if sig_groupcheck {
            match sig.validate(false) {
                Ok(()) => (),
                Err(e) => {
                    return Err(e);
                },
            }
        }
        raw_agg_sig_add_sig(self, sig);
        Ok(())
    }
}

/// Aggregating a list of signatures and aggregating its reversal yield the
/// bitwise-identical aggregate: with group addition commutative and
/// associative, the order of aggregation does not matter.
pub fn aggregate_in_either_direction(sigs: &Vec<Signature>) -> (r: (
    AggregateSignature,
    AggregateSignature,
))
    requires
        sigs@.len() >= 1,
    ensures
        r.0@ == sig_fold(sig_views(sigs@)),
        r.1@ == sig_fold(sig_views(sigs@).reverse()),
        r.0@ == r.1@,
{
    let n = sigs.len();
    let ghost views = sig_views(sigs@);
    proof {
        assert(views.take(1).len() == 1);
        assert(views.take(1)[0] == sigs@[0]@);
    }
    let mut fwd = AggregateSignature::from_signature(&sigs[0]);
    let mut i: usize = 1;
    while i < n
        invariant
            n == sigs@.len(),
            views == sig_views(sigs@),
            1 <= i <= n,
            fwd@ == sig_fold(views.take(i as int)),
            forall|m: int, c: Seq<u8>|
                1 <= m < i ==> #[trigger] sig_sum(sig_fold(views.take(m + 1)), c) == sig_sum(
                    sig_fold(views.take(m)),
                    sig_sum(views[m], c),
                ),
        decreases n - i,
    {
        raw_agg_sig_add_sig(&mut fwd, &sigs[i]);
        proof {
            assert(views.take(i + 1).drop_last() =~= views.take(i as int));
            assert(views.take(i + 1).last() == views[i as int]);
        }
        i = i + 1;
    }
    proof {
        assert(views.take(n as int) =~= views);
    }
    let ghost rviews = views.reverse();
    proof {
        assert(rviews.take(1).len() == 1);
        assert(rviews.take(1)[0] == sigs@[n - 1]@);
    }
    let mut rev = AggregateSignature::from_signature(&sigs[n - 1]);
    let mut k: usize = 1;
    while k < n
        invariant
            n == sigs@.len(),
            views == sig_views(sigs@),
            rviews == views.reverse(),
            1 <= k <= n,
            rev@ == sig_fold(rviews.take(k as int)),
            k < n ==> sig_fold(views) == sig_sum(sig_fold(views.take(n - k)), rev@),
            k == n ==> sig_fold(views) == rev@,
            forall|m: int, c: Seq<u8>|
                1 <= m < n ==> #[trigger] sig_sum(sig_fold(views.take(m + 1)), c) == sig_sum(
                    sig_fold(views.take(m)),
                    sig_sum(views[m], c),
                ),
        decreases n - k,
    {
        let ghost old_rev = rev@;
        raw_agg_sig_add_sig(&mut rev, &sigs[n - 1 - k]);
        proof {
            let m = n - 1 - k;
            assert(rviews.take(k + 1).drop_last() =~= rviews.take(k as int));
            assert(rviews.take(k + 1).last() == rviews[k as int]);
            assert(rviews[k as int] == views[m as int]);
            assert(rev@ == sig_fold(rviews.take(k + 1)));
            if k + 1 < n {
                // one associativity step moves the next element from the
                // forward prefix into the reverse suffix
                assert(views.take(m + 1).drop_last() =~= views.take(m as int));
                assert(sig_fold(views.take(m + 1)) == sig_sum(
                    sig_fold(views.take(m as int)),
                    views[m as int],
                ));
                assert(sig_sum(sig_fold(views.take(m + 1)), old_rev) == sig_sum(
                    sig_fold(views.take(m as int)),
                    sig_sum(views[m as int], old_rev),
                ));
                assert(rev@ == sig_sum(views[m as int], old_rev));
            } else {
                // the last element joins by commutativity alone
                assert(m == 0);
                assert(views.take(1).len() == 1);
                assert(views.take(1)[0] == views[0]);
                assert(sig_fold(views.take(1)) == views[0]);
                assert(rev@ == sig_sum(views[0], old_rev));
            }
        }
        k = k + 1;
    }
    proof {
        assert(rviews.take(n as int) =~= rviews);
    }
    (fwd, rev)
}

/// What loading one serialized signature yields: decode, then the optional
/// subgroup check.
pub open spec fn spec_sig_load(b: Seq<u8>, sigs_groupcheck: bool) -> Result<Seq<u8>, BlstError> {
    match spec_sig_decode(b) {
        Err(e) => Err(e),
        Ok(v) => if sigs_groupcheck {
            match spec_sig_validate(v, false) {
                Some(e) => Err(e),
                None => Ok(v),
            }
        } else {
            Ok(v)
        },
    }
}

/// The canonical form a serialized signature decodes to, where it decodes.
pub open spec fn spec_sig_load_ok(b: Seq<u8>) -> Seq<u8> {
    match spec_sig_decode(b) {
        Ok(v) => v,
        Err(_) => Seq::empty(),
    }
}

/// The first load failure among a sequence of serialized signatures, if any.
pub open spec fn spec_first_sig_load_err(s: Seq<Seq<u8>>, sigs_groupcheck: bool) -> Option<
    BlstError,
>
    decreases s.len(),
{
    if s.len() == 0 {
        None
    } else if spec_sig_load(s[0], sigs_groupcheck) is Err {
        Some(spec_sig_load(s[0], sigs_groupcheck)->Err_0)
    } else {
        spec_first_sig_load_err(s.drop_first(), sigs_groupcheck)
    }
}

impl AggregateSignature {
    /// Sum a list of serialized signatures, deserializing each inline, with
    /// the same validation option and failure rules as `aggregate`.
    pub fn aggregate_serialized(sigs: &Vec<Vec<u8>>, sigs_groupcheck: bool) -> (r: Result<
        Self,
        BlstError,
    >)
        ensures
            sigs@.len() == 0 ==> r == Err::<Self, BlstError>(BlstError::AggrTypeMismatch),
            sigs@.len() > 0 ==> (match r {
                Ok(agg) => spec_first_sig_load_err(sigs@.map_values(|b: Vec<u8>| b@),
                    sigs_groupcheck,
                ) is None && agg@ == sig_fold(
                    sigs@.map_values(|b: Vec<u8>| spec_sig_load_ok(b@)),
                ),
                Err(e) => spec_first_sig_load_err(sigs@.map_values(|b: Vec<u8>| b@),
                    sigs_groupcheck,
                ) == Some(e),
            }),
    {
        let ghost raws = sigs@.map_values(|b: Vec<u8>| b@);
        let ghost loaded = sigs@.map_values(|b: Vec<u8>| spec_sig_load_ok(b@));
        if sigs.len() == 0 {
            return Err(BlstError::AggrTypeMismatch);
        }
        let first = match Self::load_one(&sigs[0], sigs_groupcheck) {
            Ok(sig) => sig,
            Err(e) => {
                proof {
                    assert(spec_sig_load(raws[0], sigs_groupcheck) is Err);
                }
                return Err(e);
            },
        };
        let mut agg = AggregateSignature::from_signature(&first);
        proof {
            assert(raws.take(1).len() == 1);
            assert(raws.take(1)[0] == sigs@[0]@);
            assert(spec_first_sig_load_err(raws.take(1).drop_first(), sigs_groupcheck) is None);
            assert(loaded.take(1).len() == 1);
            assert(agg@ == sig_fold(loaded.take(1)));
        }
        let mut i: usize = 1;
        while i < sigs.len()
            invariant
                1 <= i <= sigs@.len(),
                raws == sigs@.map_values(|b: Vec<u8>| b@),
                loaded == sigs@.map_values(|b: Vec<u8>| spec_sig_load_ok(b@)),
                agg@ == sig_fold(loaded.take(i as int)),
                spec_first_sig_load_err(raws.take(i as int), sigs_groupcheck) is None,
            decreases sigs@.len() - i,
        {
            let sig = match Self::load_one(&sigs[i], sigs_groupcheck) {
                Ok(sig) => sig,
                Err(e) => {
                    proof {
                        lemma_first_sig_load_err_prefix(raws, i as int, sigs_groupcheck);
                    }
                    return Err(e);
                },
            };
            raw_agg_sig_add_sig(&mut agg, &sig);
            proof {
                assert(loaded.take(i + 1).drop_last() =~= loaded.take(i as int));
                assert(loaded.take(i + 1).last() == spec_sig_load_ok(raws[i as int]));
                lemma_first_sig_load_err_extend(raws, i as int, sigs_groupcheck);
            }
            i = i + 1;
        }
        proof {
            assert(loaded.take(sigs@.len() as int) =~= loaded);
            assert(raws.take(sigs@.len() as int) =~= raws);
        }
        Ok(agg)
    }

    /// Deserialize one signature and apply the optional subgroup check.
    fn load_one(b: &Vec<u8>, sigs_groupcheck: bool) -> (r: Result<Signature, BlstError>)
        ensures
            r matches Ok(sig) ==> spec_sig_load(b@, sigs_groupcheck) == Ok::<Seq<u8>, BlstError>(
                sig@,
            ) && sig@ == spec_sig_load_ok(b@),
            r matches Err(e) ==> spec_sig_load(b@, sigs_groupcheck) == Err::<Seq<u8>, BlstError>(e),
    {
        let sig = match Signature::deserialize(b.as_slice()) {
            Ok(sig) => sig,
            Err(e) => {
                return Err(e);
            },
        };
        if sigs_groupcheck {
            match sig.validate(false) {
                Ok(()) => (),
                Err(e) => {
                    return Err(e);
                },
            }
        }
        Ok(sig)
    }
}

/// If no serialized signature among the first `i` fails to load and entry
/// `i` fails with `e`, then `e` is the first failure of the whole sequence.
proof fn lemma_first_sig_load_err_prefix(s: Seq<Seq<u8>>, i: int, gc: bool)
    requires
        0 <= i < s.len(),
        spec_first_sig_load_err(s.take(i), gc) is None,
        spec_sig_load(s[i], gc) is Err,
    ensures
        spec_first_sig_load_err(s, gc) == Some(spec_sig_load(s[i], gc)->Err_0),
    decreases i,
{
    if i == 0 {
    } else {
        assert(s.take(i).drop_first() =~= s.drop_first().take(i - 1));
        lemma_first_sig_load_err_prefix(s.drop_first(), i - 1, gc);
    }
}

/// A failure-free prefix stays failure-free when extended by an entry that
/// loads.
proof fn lemma_first_sig_load_err_extend(s: Seq<Seq<u8>>, i: int, gc: bool)
    requires
        0 <= i < s.len(),
        spec_first_sig_load_err(s.take(i), gc) is None,
        spec_sig_load(s[i], gc) is Ok,
    ensures
        spec_first_sig_load_err(s.take(i + 1), gc) is None,
    decreases i,
{
    if i == 0 {
        assert(s.take(1).len() == 1);
        assert(s.take(1)[0] == s[0]);
        assert(s.take(1).drop_first().len() == 0);
        assert(spec_first_sig_load_err(s.take(1).drop_first(), gc) is None);
    } else {
        assert(s.take(i).drop_first() =~= s.drop_first().take(i - 1));
        assert(s.take(i + 1).drop_first() =~= s.drop_first().take(i));
        lemma_first_sig_load_err_extend(s.drop_first(), i - 1, gc);
    }
}

/// If no signature among the first `i` fails the check and signature `i`
/// fails with `e`, then `e` is the first failure of the whole sequence.
proof fn lemma_first_sig_err_prefix(s: Seq<Seq<u8>>, i: int)
    requires
        0 <= i < s.len(),
        spec_first_sig_err(s.take(i)) is None,
        spec_sig_validate(s[i], false) is Some,
    ensures
        spec_first_sig_err(s) == spec_sig_validate(s[i], false),
    decreases i,
{
    if i == 0 {
    } else {
        assert(s.take(i).drop_first() =~= s.drop_first().take(i - 1));
        lemma_first_sig_err_prefix(s.drop_first(), i - 1);
    }
}

/// A failure-free prefix stays failure-free when extended by a signature
/// that passes the check.
proof fn lemma_first_sig_err_extend(s: Seq<Seq<u8>>, i: int)
    requires
        0 <= i < s.len(),
        spec_first_sig_err(s.take(i)) is None,
        spec_sig_validate(s[i], false) is None,
    ensures
        spec_first_sig_err(s.take(i + 1)) is None,
    decreases i,
{
    if i == 0 {
    } else {
        assert(s.take(i).drop_first() =~= s.drop_first().take(i - 1));
        assert(s.take(i + 1).drop_first() =~= s.drop_first().take(i));
        lemma_first_sig_err_extend(s.drop_first(), i - 1);
    }
}

} // verus!
