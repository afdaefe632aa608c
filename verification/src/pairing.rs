use vstd::prelude::*;

use crate::errors::BlstError;
use vstd::multiset::Multiset;
use crate::keys::{pk_views, raw_pk_dup, spec_pk_validate, PublicKey};
use crate::sig::{
    is_inf_sig, raw_inf_signature, raw_sig_dup, sig_fold, sig_views, spec_sig_validate,
    AggregateSignature, Signature,
};

verus! {

// ---------------------------------------------------------------------------
// The pairing-product decision. The expensive Miller-loop batching runs
// inside the backend; this accumulator collects validated terms and hands the
// whole batch to one backend check at finalization, so its protocol — what
// may be aggregated, merged and finally decided — is specified and verified
// while the curve arithmetic stays a named, trusted fact.
// ---------------------------------------------------------------------------

/// Matched message and key lists as one sequence of terms.
pub open spec fn zip2(msgs: Seq<Seq<u8>>, pks: Seq<Seq<u8>>) -> Seq<(Seq<u8>, Seq<u8>)> {
    if msgs.len() != pks.len() {
        Seq::empty()
    } else {
        Seq::new(msgs.len(), |i: int| (msgs[i], pks[i]))
    }
}

/// The (message, key) terms of a batch as an unordered collection: the
/// pairing product multiplies one factor per term and multiplication in the
/// target group is commutative, so no verdict below may depend on term
/// order.
pub open spec fn zip_terms(msgs: Seq<Seq<u8>>, pks: Seq<Seq<u8>>) -> Multiset<(Seq<u8>, Seq<u8>)> {
    zip2(msgs, pks).to_multiset()
}

/// Matched message, key, signature and scalar lists as one sequence of
/// weighted terms.
pub open spec fn zip4(
    msgs: Seq<Seq<u8>>,
    pks: Seq<Seq<u8>>,
    sigs: Seq<Seq<u8>>,
    scalars: Seq<Seq<u8>>,
) -> Seq<(Seq<u8>, Seq<u8>, Seq<u8>, Seq<u8>)> {
    if msgs.len() != pks.len() || pks.len() != sigs.len() || sigs.len() != scalars.len() {
        Seq::empty()
    } else {
        Seq::new(msgs.len(), |i: int| (msgs[i], pks[i], sigs[i], scalars[i]))
    }
}

/// The weighted terms of a multi-signature batch as an unordered collection.
pub open spec fn zip_wterms(
    msgs: Seq<Seq<u8>>,
    pks: Seq<Seq<u8>>,
    sigs: Seq<Seq<u8>>,
    scalars: Seq<Seq<u8>>,
) -> Multiset<(Seq<u8>, Seq<u8>, Seq<u8>, Seq<u8>)> {
    zip4(msgs, pks, sigs, scalars).to_multiset()
}

/// Whether the pairing-product equation over the hash-to-curve mapping
/// accepts: the product of pairings of each key with its hashed message
/// equals the pairing of the generator with `sig`. This is what
/// `blst::min_pk::Signature::aggregate_verify` computes once every
/// validation flag is off; its workers claim terms from a shared counter in
/// no fixed order, so the verdict is a function of the term multiset.
pub uninterp spec fn agg_accepts(
    dst: Seq<u8>,
    terms: Multiset<(Seq<u8>, Seq<u8>)>,
    sig: Seq<u8>,
) -> bool;

/// Whether the randomized multi-signature pairing-product equation accepts:
/// each (message, key, signature) triple is weighted by its 32-byte scalar.
/// This is what `blst::min_pk::Signature::verify_multiple_aggregate_signatures`
/// computes once every validation flag is off; as above, a function of the
/// term multiset.
pub uninterp spec fn mult_agg_accepts(
    dst: Seq<u8>,
    terms: Multiset<(Seq<u8>, Seq<u8>, Seq<u8>, Seq<u8>)>,
) -> bool;

/// Relies on `blst::min_pk::Signature::aggregate_verify` with both
/// validation flags off: it evaluates exactly the pairing-product equation,
/// deterministically in its inputs, whatever order the backend's own workers
/// process the terms in.
#[verifier::external_body]
fn raw_agg_pairing_check(dst: &Vec<u8>, msgs: &Vec<Vec<u8>>, pks: &Vec<PublicKey>, sig: &Signature) -> (r:
    bool)
    requires
        pks@.len() == msgs@.len(),
        pks@.len() >= 1,
    ensures
        r == agg_accepts(dst@, zip_terms(msgs@.map_values(|m: Vec<u8>| m@), pk_views(pks@)), sig@),
{
    let ms: Vec<&[u8]> = msgs.iter().map(|m| m.as_slice()).collect();
    let ps: Vec<&blst::min_pk::PublicKey> = pks.iter().map(|p| &p.point).collect();
    let err = sig.point.aggregate_verify(false, &ms, dst, &ps, false);
    err == blst::BLST_ERROR::BLST_SUCCESS
}

/// Relies on `blst::min_pk::Signature::verify_multiple_aggregate_signatures`
/// with both validation flags off and the full 256 bits of each 32-byte
/// scalar: it evaluates exactly the weighted pairing-product equation.
#[verifier::external_body]
fn raw_mult_agg_check(
    dst: &Vec<u8>,
    msgs: &Vec<Vec<u8>>,
    pks: &Vec<PublicKey>,
    sigs: &Vec<Signature>,
    scalars: &Vec<Vec<u8>>,
) -> (r: bool)
    requires
        pks@.len() == msgs@.len(),
        pks@.len() == sigs@.len(),
        pks@.len() == scalars@.len(),
        pks@.len() >= 1,
        forall|i: int| 0 <= i < scalars@.len() ==> #[trigger] scalars@[i]@.len() == 32,
    ensures
        r == mult_agg_accepts(
            dst@,
            zip_wterms(
                msgs@.map_values(|m: Vec<u8>| m@),
                pk_views(pks@),
                sig_views(sigs@),
                scalars@.map_values(|s: Vec<u8>| s@),
            ),
        ),
{
    let ms: Vec<&[u8]> = msgs.iter().map(|m| m.as_slice()).collect();
    let ps: Vec<&blst::min_pk::PublicKey> = pks.iter().map(|p| &p.point).collect();
    let ss: Vec<&blst::min_pk::Signature> = sigs.iter().map(|s| &s.point).collect();
    let rs: Vec<blst::blst_scalar> = scalars
        .iter()
        .map(|s| blst::blst_scalar { b: s.as_slice().try_into().unwrap() })
        .collect();
    let err = blst::min_pk::Signature::verify_multiple_aggregate_signatures(
        &ms, dst, &ps, false, &ss, false, &rs, 256,
    );
    err == blst::BLST_ERROR::BLST_SUCCESS
}

/// The canonical encoding of the G2 identity, the signature-side unit.
pub open spec fn inf_sig_bytes() -> Seq<u8> {
    Seq::new(96, |i: int| if i == 0 { 0xc0u8 } else { 0u8 })
}

/// An owned copy of a byte slice.
pub(crate) fn copy_bytes(s: &[u8]) -> (r: Vec<u8>)
    ensures
        r@ == s@,
{
    let mut r: Vec<u8> = Vec::new();
    let mut i: usize = 0;
    while i < s.len()
        invariant
            i <= s@.len(),
            r@ == s@.take(i as int),
        decreases s@.len() - i,
    {
        r.push(s[i]);
        proof {
            assert(s@.take(i + 1) =~= s@.take(i as int).push(s@[i as int]));
        }
        i = i + 1;
    }
    proof {
        assert(s@.take(s@.len() as int) =~= s@);
    }
    r
}

/// Concatenation of two byte strings.
pub(crate) fn concat_bytes(a: &[u8], b: &[u8]) -> (r: Vec<u8>)
    ensures
        r@ == a@ + b@,
{
    let mut r: Vec<u8> = Vec::new();
    let mut i: usize = 0;
    while i < a.len()
        invariant
            i <= a@.len(),
            r@ == a@.take(i as int),
        decreases a@.len() - i,
    {
        r.push(a[i]);
        proof {
            assert(a@.take(i + 1) =~= a@.take(i as int).push(a@[i as int]));
        }
        i = i + 1;
    }
    proof {
        assert(a@.take(a@.len() as int) =~= a@);
    }
    let mut j: usize = 0;
    while j < b.len()
        invariant
            j <= b@.len(),
            r@ == a@ + b@.take(j as int),
        decreases b@.len() - j,
    {
        r.push(b[j]);
        proof {
            assert(a@ + b@.take(j + 1) =~= (a@ + b@.take(j as int)).push(b@[j as int]));
        }
        j = j + 1;
    }
    proof {
        assert(a@ + b@.take(b@.len() as int) =~= a@ + b@);
    }
    r
}

/// The scalar actually used when a term is weighted with `nbits` bits of
/// `s`: the low `nbits` bits, little-endian, padded to 32 bytes.
pub open spec fn scalar_norm(s: Seq<u8>, nbits: int) -> Seq<u8> {
    Seq::new(
        32,
        |i: int|
            if 8 * i + 8 <= nbits && i < s.len() {
                s[i]
            } else if 8 * i < nbits && i < s.len() {
                s[i] & (low_mask(nbits - 8 * i))
            } else {
                0u8
            },
    )
}

/// A byte with the low `k` bits set, for `1 <= k <= 7`.
pub open spec fn low_mask(k: int) -> u8 {
    if k == 1 {
        0x01u8
    } else if k == 2 {
        0x03u8
    } else if k == 3 {
        0x07u8
    } else if k == 4 {
        0x0fu8
    } else if k == 5 {
        0x1fu8
    } else if k == 6 {
        0x3fu8
    } else {
        0x7fu8
    }
}

/// Mask a scalar down to its low `nbits` bits and pad it to 32 bytes.
fn normalize_scalar(s: &[u8], nbits: usize) -> (r: Vec<u8>)
    requires
        1 <= nbits,
        nbits <= 8 * s@.len(),
        s@.len() <= 32,
    ensures
        r@ == scalar_norm(s@, nbits as int),
        r@.len() == 32,
{
    let mut r: Vec<u8> = Vec::new();
    let mut i: usize = 0;
    while i < 32
        invariant
            i <= 32,
            1 <= nbits <= 8 * s@.len(),
            s@.len() <= 32,
            r@.len() == i,
            forall|j: int| 0 <= j < i ==> r@[j] == scalar_norm(s@, nbits as int)[j],
        decreases 32 - i,
    {
        let v: u8 = if 8 * i + 8 <= nbits && i < s.len() {
            s[i]
        } else if 8 * i < nbits && i < s.len() {
            let k = nbits - 8 * i;
            let mask: u8 = if k == 1 {
                0x01
            } else if k == 2 {
                0x03
            } else if k == 3 {
                0x07
            } else if k == 4 {
                0x0f
            } else if k == 5 {
                0x1f
            } else if k == 6 {
                0x3f
            } else {
                0x7f
            };
            s[i] & mask
        } else {
            0
        };
        r.push(v);
        i = i + 1;
    }
    proof {
        assert(r@ =~= scalar_norm(s@, nbits as int));
    }
    r
}

/// The running pairing accumulator: a domain tag, the mapping mode, and the
/// terms collected so far. Aggregation validates each term as it arrives and
/// a rejected term fails the accumulator permanently; commitment freezes it
/// for merging; finalization is read-only.
pub struct Pairing {
    hash_or_encode: bool,
    dst: Vec<u8>,
    pks: Vec<PublicKey>,
    msgs: Vec<Vec<u8>>,
    sigs: Vec<Signature>,
    wpks: Vec<PublicKey>,
    wsigs: Vec<Signature>,
    wscalars: Vec<Vec<u8>>,
    wmsgs: Vec<Vec<u8>>,
    committed: bool,
    failed: bool,
}

impl Pairing {
    /// The lists of one term kind run in step, and every stored scalar is a
    /// full 32-byte little-endian value.
    pub closed spec fn wf(self) -> bool {
        &&& self.pks@.len() == self.msgs@.len()
        &&& self.wpks@.len() == self.wsigs@.len()
        &&& self.wpks@.len() == self.wscalars@.len()
        &&& self.wpks@.len() == self.wmsgs@.len()
        &&& forall|i: int|
            0 <= i < self.wscalars@.len() ==> #[trigger] self.wscalars@[i]@.len() == 32
    }

    /// The domain-separation tag this accumulator was seeded with.
    pub closed spec fn spec_dst(self) -> Seq<u8> {
        self.dst@
    }

    /// Whether messages are mapped by hashing (rather than encoding).
    pub closed spec fn spec_hash_or_encode(self) -> bool {
        self.hash_or_encode
    }

    /// The keys of the plain aggregated terms.
    pub closed spec fn plain_pks(self) -> Seq<Seq<u8>> {
        pk_views(self.pks@)
    }

    /// The augmented messages of the plain aggregated terms.
    pub closed spec fn plain_msgs(self) -> Seq<Seq<u8>> {
        self.msgs@.map_values(|m: Vec<u8>| m@)
    }

    /// The signatures folded in through plain aggregation.
    pub closed spec fn folded_sigs(self) -> Seq<Seq<u8>> {
        sig_views(self.sigs@)
    }

    /// The keys of the weighted terms.
    pub closed spec fn wt_pks(self) -> Seq<Seq<u8>> {
        pk_views(self.wpks@)
    }

    /// The signatures of the weighted terms.
    pub closed spec fn wt_sigs(self) -> Seq<Seq<u8>> {
        sig_views(self.wsigs@)
    }

    /// The 32-byte scalars of the weighted terms.
    pub closed spec fn wt_scalars(self) -> Seq<Seq<u8>> {
        self.wscalars@.map_values(|s: Vec<u8>| s@)
    }

    /// The augmented messages of the weighted terms.
    pub closed spec fn wt_msgs(self) -> Seq<Seq<u8>> {
        self.wmsgs@.map_values(|m: Vec<u8>| m@)
    }

    /// Whether `commit` has frozen this accumulator.
    pub closed spec fn is_committed(self) -> bool {
        self.committed
    }

    /// Whether some term was rejected, which fails the accumulator for good.
    pub closed spec fn has_failed(self) -> bool {
        self.failed
    }

    /// An accumulator fresh from `new` or `init`.
    pub open spec fn is_fresh(self, hash_or_encode: bool, dst: Seq<u8>) -> bool {
        &&& self.wf()
        &&& self.spec_hash_or_encode() == hash_or_encode
        &&& self.spec_dst() == dst
        &&& self.plain_pks().len() == 0
        &&& self.plain_msgs().len() == 0
        &&& self.folded_sigs().len() == 0
        &&& self.wt_pks().len() == 0
        &&& self.wt_sigs().len() == 0
        &&& self.wt_scalars().len() == 0
        &&& self.wt_msgs().len() == 0
        &&& !self.is_committed()
        &&& !self.has_failed()
    }
}

/// The signature side a finalization compares against: the sum of every
/// folded signature and of the optional precomputed one, or the identity
/// where there is none.
pub open spec fn spec_sig_side(folded: Seq<Seq<u8>>, gtsig: Option<Seq<u8>>) -> Seq<u8> {
    let all = match gtsig {
        Some(g) => folded.push(g),
        None => folded,
    };
    if all.len() == 0 {
        inf_sig_bytes()
    } else {
        sig_fold(all)
    }
}

/// What `finalverify` decides: nothing once a term was rejected; the
/// weighted equation for a weighted batch; the plain equation against the
/// collected signature side otherwise.
pub open spec fn spec_pairing_accepts(p: Pairing, gtsig: Option<Seq<u8>>) -> bool {
    if p.has_failed() {
        false
    } else if p.wt_pks().len() > 0 {
        mult_agg_accepts(p.spec_dst(), zip_wterms(p.wt_msgs(), p.wt_pks(), p.wt_sigs(), p.wt_scalars()))
    } else {
        agg_accepts(
            p.spec_dst(),
            zip_terms(p.plain_msgs(), p.plain_pks()),
            spec_sig_side(p.folded_sigs(), gtsig),
        )
    }
}

/// Concatenated batches carry the union of their term multisets.
pub proof fn lemma_zip_terms_concat(
    m1: Seq<Seq<u8>>,
    p1: Seq<Seq<u8>>,
    m2: Seq<Seq<u8>>,
    p2: Seq<Seq<u8>>,
)
    requires
        m1.len() == p1.len(),
        m2.len() == p2.len(),
    ensures
        zip_terms(m1 + m2, p1 + p2) == zip_terms(m1, p1).add(zip_terms(m2, p2)),
{
    assert(zip2(m1 + m2, p1 + p2) =~= zip2(m1, p1) + zip2(m2, p2));
    vstd::seq_lib::lemma_multiset_commutative(zip2(m1, p1), zip2(m2, p2));
}

/// Concatenated weighted batches carry the union of their term multisets.
pub proof fn lemma_zip_wterms_concat(
    m1: Seq<Seq<u8>>,
    p1: Seq<Seq<u8>>,
    s1: Seq<Seq<u8>>,
    r1: Seq<Seq<u8>>,
    m2: Seq<Seq<u8>>,
    p2: Seq<Seq<u8>>,
    s2: Seq<Seq<u8>>,
    r2: Seq<Seq<u8>>,
)
    requires
        m1.len() == p1.len() && p1.len() == s1.len() && s1.len() == r1.len(),
        m2.len() == p2.len() && p2.len() == s2.len() && s2.len() == r2.len(),
    ensures
        zip_wterms(m1 + m2, p1 + p2, s1 + s2, r1 + r2) == zip_wterms(m1, p1, s1, r1).add(
            zip_wterms(m2, p2, s2, r2),
        ),
{
    assert(zip4(m1 + m2, p1 + p2, s1 + s2, r1 + r2) =~= zip4(m1, p1, s1, r1) + zip4(
        m2,
        p2,
        s2,
        r2,
    ));
    vstd::seq_lib::lemma_multiset_commutative(zip4(m1, p1, s1, r1), zip4(m2, p2, s2, r2));
}

/// The final verdict reads the terms as unordered collections: accumulators
/// agreeing on the tag, the failure flag, the term multisets and the
/// collected signature side decide alike, whatever order their terms were
/// aggregated in and however they were split across merges.
pub proof fn lemma_finalverify_order_blind(a: Pairing, b: Pairing, gtsig: Option<Seq<u8>>)
    requires
        a.wf(),
        b.wf(),
        a.spec_dst() == b.spec_dst(),
        a.has_failed() == b.has_failed(),
        zip_terms(a.plain_msgs(), a.plain_pks()) == zip_terms(b.plain_msgs(), b.plain_pks()),
        zip_wterms(a.wt_msgs(), a.wt_pks(), a.wt_sigs(), a.wt_scalars()) == zip_wterms(
            b.wt_msgs(),
            b.wt_pks(),
            b.wt_sigs(),
            b.wt_scalars(),
        ),
        a.folded_sigs() == b.folded_sigs(),
    ensures
        spec_pairing_accepts(a, gtsig) == spec_pairing_accepts(b, gtsig),
{
    broadcast use vstd::seq_lib::group_to_multiset_ensures;

    let za = zip4(a.wt_msgs(), a.wt_pks(), a.wt_sigs(), a.wt_scalars());
    let zb = zip4(b.wt_msgs(), b.wt_pks(), b.wt_sigs(), b.wt_scalars());
    assert(za.len() == za.to_multiset().len());
    assert(zb.len() == zb.to_multiset().len());
    assert(a.wt_pks().len() == b.wt_pks().len());
}

/// The first failure a plain aggregation reports: the key is validated
/// before the signature is subgroup-checked.
pub open spec fn spec_aggregate_err(
    pk: Seq<u8>,
    pk_validate: bool,
    sig: Option<Seq<u8>>,
    sig_groupcheck: bool,
) -> Option<BlstError> {
    if pk_validate && spec_pk_validate(pk) is Some {
        spec_pk_validate(pk)
    } else if sig is Some && sig_groupcheck && spec_sig_validate(sig->0, false) is Some {
        spec_sig_validate(sig->0, false)
    } else {
        None
    }
}

impl Pairing {
    /// A fresh accumulator for the given mapping mode and domain tag.
    pub fn new(hash_or_encode: bool, dst: &[u8]) -> (r: Self)
        ensures
            r.is_fresh(hash_or_encode, dst@),
    {
        Pairing {
            hash_or_encode,
            dst: copy_bytes(dst),
            pks: Vec::new(),
            msgs: Vec::new(),
            sigs: Vec::new(),
            wpks: Vec::new(),
            wsigs: Vec::new(),
            wscalars: Vec::new(),
            wmsgs: Vec::new(),
            committed: false,
            failed: false,
        }
    }

    /// Reset this accumulator to a fresh state.
    pub fn init(&mut self, hash_or_encode: bool, dst: &[u8])
        ensures
            final (self).is_fresh(hash_or_encode, dst@),
    {
        *self = Pairing::new(hash_or_encode, dst);
    }

    /// Fold one (key, message) term — and optionally one signature — into
    /// the accumulator, after the requested checks. A rejected term leaves
    /// the terms unchanged and fails the accumulator permanently.
    pub fn aggregate(
        &mut self,
        pk: &PublicKey,
        pk_validate: bool,
        sig: Option<&Signature>,
        sig_groupcheck: bool,
        msg: &[u8],
        aug: &[u8],
    ) -> (r: Result<(), BlstError>)
        requires
            old(self).wf(),
            !old(self).is_committed(),
        ensures
            final (self).wf(),
            !final (self).is_committed(),
            final (self).spec_dst() == old(self).spec_dst(),
            final (self).spec_hash_or_encode() == old(self).spec_hash_or_encode(),
            final (self).wt_pks() == old(self).wt_pks(),
            final (self).wt_sigs() == old(self).wt_sigs(),
            final (self).wt_scalars() == old(self).wt_scalars(),
            final (self).wt_msgs() == old(self).wt_msgs(),
            r.is_ok() == (spec_aggregate_err(
                pk@,
                pk_validate,
                match sig {
                    Some(s) => Some(s@),
                    None => None,
                },
                sig_groupcheck,
            ) is None),
            r matches Err(e) ==> Some(e) == spec_aggregate_err(
                pk@,
                pk_validate,
                match sig {
                    Some(s) => Some(s@),
                    None => None,
                },
                sig_groupcheck,
            ) && final (self).plain_pks() == old(self).plain_pks() && final (self).plain_msgs()
                == old(self).plain_msgs() && final (self).folded_sigs() == old(self).folded_sigs()
                && final (self).has_failed(),
            r is Ok ==> final (self).plain_pks() == old(self).plain_pks().push(pk@) && final (self).plain_msgs() == old(self).plain_msgs().push(aug@ + msg@) && final (self).folded_sigs()
                == (match sig {
                Some(s) => old(self).folded_sigs().push(s@),
                None => old(self).folded_sigs(),
            }) && final (self).has_failed() == old(self).has_failed(),
    {
        if pk_validate {
            match pk.validate() {
                Ok(()) => (),
                Err(e) => {
                    self.failed = true;
                    return Err(e);
                },
            }
        }
        match sig {
            Some(s) => {
                if sig_groupcheck {
                    match s.validate(false) {
                        Ok(()) => (),
                        Err(e) => {
                            self.failed = true;
                            return Err(e);
                        },
                    }
                }
                self.sigs.push(raw_sig_dup(s));
            },
            None => (),
        }
        self.pks.push(raw_pk_dup(pk));
        self.msgs.push(concat_bytes(aug, msg));
        proof {
            assert(self.plain_pks() =~= old(self).plain_pks().push(pk@));
            assert(self.plain_msgs() =~= old(self).plain_msgs().push(aug@ + msg@));
            match sig {
                Some(s) => {
                    assert(self.folded_sigs() =~= old(self).folded_sigs().push(s@));
                },
                None => (),
            }
        }
        Ok(())
    }

    /// Fold one (key, signature, message) term weighted by the low `nbits`
    /// bits of `scalar` into the accumulator, after the requested checks.
    pub fn mul_n_aggregate(
        &mut self,
        pk: &PublicKey,
        pk_validate: bool,
        sig: &Signature,
        sig_groupcheck: bool,
        scalar: &[u8],
        nbits: usize,
        msg: &[u8],
        aug: &[u8],
    ) -> (r: Result<(), BlstError>)
        requires
            old(self).wf(),
            !old(self).is_committed(),
            1 <= nbits,
            nbits <= 8 * scalar@.len(),
            scalar@.len() <= 32,
        ensures
            final (self).wf(),
            !final (self).is_committed(),
            final (self).spec_dst() == old(self).spec_dst(),
            final (self).spec_hash_or_encode() == old(self).spec_hash_or_encode(),
            final (self).plain_pks() == old(self).plain_pks(),
            final (self).plain_msgs() == old(self).plain_msgs(),
            final (self).folded_sigs() == old(self).folded_sigs(),
            r.is_ok() == (spec_aggregate_err(pk@, pk_validate, Some(sig@), sig_groupcheck)
                is None),
            r matches Err(e) ==> Some(e) == spec_aggregate_err(
                pk@,
                pk_validate,
                Some(sig@),
                sig_groupcheck,
            ) && final (self).wt_pks() == old(self).wt_pks() && final (self).wt_sigs() == old(self).wt_sigs() && final (self).wt_scalars() == old(self).wt_scalars() && final (self).wt_msgs() == old(self).wt_msgs() && final (self).has_failed(),
            r is Ok ==> final (self).wt_pks() == old(self).wt_pks().push(pk@) && final (self).wt_sigs() == old(self).wt_sigs().push(sig@) && final (self).wt_scalars() == old(self).wt_scalars().push(scalar_norm(scalar@, nbits as int)) && final (self).wt_msgs()
                == old(self).wt_msgs().push(aug@ + msg@) && final (self).has_failed() == old(self).has_failed(),
    {
        if pk_validate {
            match pk.validate() {
                Ok(()) => (),
                Err(e) => {
                    self.failed = true;
                    return Err(e);
                },
            }
        }
        if sig_groupcheck {
            match sig.validate(false) {
                Ok(()) => (),
                Err(e) => {
                    self.failed = true;
                    return Err(e);
                },
            }
        }
        self.wpks.push(raw_pk_dup(pk));
        self.wsigs.push(raw_sig_dup(sig));
        self.wscalars.push(normalize_scalar(scalar, nbits));
        self.wmsgs.push(concat_bytes(aug, msg));
        proof {
            assert(self.wt_pks() =~= old(self).wt_pks().push(pk@));
            assert(self.wt_sigs() =~= old(self).wt_sigs().push(sig@));
            assert(self.wt_scalars() =~= old(self).wt_scalars().push(
                scalar_norm(scalar@, nbits as int),
            ));
            assert(self.wt_msgs() =~= old(self).wt_msgs().push(aug@ + msg@));
        }
        Ok(())
    }

    /// Freeze the batched state. Only committed accumulators may be merged.
    pub fn commit(&mut self)
        requires
            old(self).wf(),
        ensures
            final (self).wf(),
            final (self).is_committed(),
            final (self).spec_dst() == old(self).spec_dst(),
            final (self).spec_hash_or_encode() == old(self).spec_hash_or_encode(),
            final (self).plain_pks() == old(self).plain_pks(),
            final (self).plain_msgs() == old(self).plain_msgs(),
            final (self).folded_sigs() == old(self).folded_sigs(),
            final (self).wt_pks() == old(self).wt_pks(),
            final (self).wt_sigs() == old(self).wt_sigs(),
            final (self).wt_scalars() == old(self).wt_scalars(),
            final (self).wt_msgs() == old(self).wt_msgs(),
            final (self).has_failed() == old(self).has_failed(),
    {
        self.committed = true;
    }

    /// Combine another committed accumulator into this one. The combination
    /// is associative and commutative in the terms; merging an uncommitted
    /// accumulator is an `AggrTypeMismatch`, as in the backend.
    pub fn merge(&mut self, ctx1: &Self) -> (r: Result<(), BlstError>)
        requires
            old(self).wf(),
            ctx1.wf(),
            ctx1.spec_dst() == old(self).spec_dst(),
            ctx1.spec_hash_or_encode() == old(self).spec_hash_or_encode(),
        ensures
            final (self).wf(),
            final (self).spec_dst() == old(self).spec_dst(),
            final (self).spec_hash_or_encode() == old(self).spec_hash_or_encode(),
            r.is_ok() == (old(self).is_committed() && ctx1.is_committed()),
            r matches Err(e) ==> e == BlstError::AggrTypeMismatch && *final (self) == *old(self),
            r is Ok ==> final (self).is_committed() && final (self).plain_pks() == old(self).plain_pks() + ctx1.plain_pks() && final (self).plain_msgs() == old(self).plain_msgs()
                + ctx1.plain_msgs() && final (self).folded_sigs() == old(self).folded_sigs()
                + ctx1.folded_sigs() && final (self).wt_pks() == old(self).wt_pks() + ctx1.wt_pks()
                && final (self).wt_sigs() == old(self).wt_sigs() + ctx1.wt_sigs() && final (self).wt_scalars() == old(self).wt_scalars() + ctx1.wt_scalars() && final (self).wt_msgs()
                == old(self).wt_msgs() + ctx1.wt_msgs() && final (self).has_failed() == (old(self).has_failed() || ctx1.has_failed()),
    {
        if !self.committed || !ctx1.committed {
            return Err(BlstError::AggrTypeMismatch);
        }
        self.append_terms(ctx1);
        Ok(())
    }

    /// Append every term list of `ctx1` to this accumulator's.
    fn append_terms(&mut self, ctx1: &Self)
        requires
            old(self).wf(),
            ctx1.wf(),
        ensures
            final (self).wf(),
            final (self).spec_dst() == old(self).spec_dst(),
            final (self).spec_hash_or_encode() == old(self).spec_hash_or_encode(),
            final (self).is_committed() == old(self).is_committed(),
            final (self).plain_pks() == old(self).plain_pks() + ctx1.plain_pks(),
            final (self).plain_msgs() == old(self).plain_msgs() + ctx1.plain_msgs(),
            final (self).folded_sigs() == old(self).folded_sigs() + ctx1.folded_sigs(),
            final (self).wt_pks() == old(self).wt_pks() + ctx1.wt_pks(),
            final (self).wt_sigs() == old(self).wt_sigs() + ctx1.wt_sigs(),
            final (self).wt_scalars() == old(self).wt_scalars() + ctx1.wt_scalars(),
            final (self).wt_msgs() == old(self).wt_msgs() + ctx1.wt_msgs(),
            final (self).has_failed() == (old(self).has_failed() || ctx1.has_failed()),
    {
        append_pks(&mut self.pks, &ctx1.pks);
        append_msgs(&mut self.msgs, &ctx1.msgs);
        append_sigs(&mut self.sigs, &ctx1.sigs);
        append_pks(&mut self.wpks, &ctx1.wpks);
        append_sigs(&mut self.wsigs, &ctx1.wsigs);
        append_msgs(&mut self.wscalars, &ctx1.wscalars);
        append_msgs(&mut self.wmsgs, &ctx1.wmsgs);
        self.failed = self.failed || ctx1.failed;
        proof {
            assert(self.plain_pks() =~= old(self).plain_pks() + ctx1.plain_pks());
            assert(self.plain_msgs() =~= old(self).plain_msgs() + ctx1.plain_msgs());
            assert(self.folded_sigs() =~= old(self).folded_sigs() + ctx1.folded_sigs());
            assert(self.wt_pks() =~= old(self).wt_pks() + ctx1.wt_pks());
            assert(self.wt_sigs() =~= old(self).wt_sigs() + ctx1.wt_sigs());
            assert(self.wt_scalars() =~= old(self).wt_scalars() + ctx1.wt_scalars());
            assert(self.wt_msgs() =~= old(self).wt_msgs() + ctx1.wt_msgs());
        }
    }

    /// An identical copy of this accumulator.
    fn duplicate(&self) -> (r: Pairing)
        requires
            self.wf(),
        ensures
            r.wf(),
            r.spec_dst() == self.spec_dst(),
            r.spec_hash_or_encode() == self.spec_hash_or_encode(),
            r.is_committed() == self.is_committed(),
            r.plain_pks() == self.plain_pks(),
            r.plain_msgs() == self.plain_msgs(),
            r.folded_sigs() == self.folded_sigs(),
            r.wt_pks() == self.wt_pks(),
            r.wt_sigs() == self.wt_sigs(),
            r.wt_scalars() == self.wt_scalars(),
            r.wt_msgs() == self.wt_msgs(),
            r.has_failed() == self.has_failed(),
    {
        let mut r = Pairing {
            hash_or_encode: self.hash_or_encode,
            dst: copy_bytes(self.dst.as_slice()),
            pks: Vec::new(),
            msgs: Vec::new(),
            sigs: Vec::new(),
            wpks: Vec::new(),
            wsigs: Vec::new(),
            wscalars: Vec::new(),
            wmsgs: Vec::new(),
            committed: self.committed,
            failed: false,
        };
        r.append_terms(self);
        proof {
            assert(r.plain_pks() =~= self.plain_pks());
            assert(r.plain_msgs() =~= self.plain_msgs());
            assert(r.folded_sigs() =~= self.folded_sigs());
            assert(r.wt_pks() =~= self.wt_pks());
            assert(r.wt_sigs() =~= self.wt_sigs());
            assert(r.wt_scalars() =~= self.wt_scalars());
            assert(r.wt_msgs() =~= self.wt_msgs());
        }
        r
    }

    /// Decide the batch, read-only: false if any term was rejected, else the
    /// pairing-product equation over the collected terms. The backend
    /// exposes the hash-to-curve mapping, so that mode is required; a batch
    /// holds terms of one kind, as the verification protocols build them.
    pub fn finalverify(&self, gtsig: Option<&Signature>) -> (r: bool)
        requires
            self.wf(),
            self.is_committed(),
            self.spec_hash_or_encode(),
            self.wt_pks().len() > 0 ==> self.plain_pks().len() == 0 && self.folded_sigs().len()
                == 0 && gtsig is None,
            self.wt_pks().len() == 0 ==> self.plain_pks().len() > 0,
        ensures
            r == spec_pairing_accepts(
                *self,
                match gtsig {
                    Some(g) => Some(g@),
                    None => None,
                },
            ),
    {
        if self.failed {
            return false;
        }
        if self.wpks.len() > 0 {
            return raw_mult_agg_check(&self.dst, &self.wmsgs, &self.wpks, &self.wsigs, &self.wscalars);
        }
        let total = compute_sig_side(&self.sigs, gtsig);
        raw_agg_pairing_check(&self.dst, &self.msgs, &self.pks, &total)
    }
}

/// Append one vector of public keys to another.
fn append_pks(dst_v: &mut Vec<PublicKey>, src_v: &Vec<PublicKey>)
    ensures
        final (dst_v)@.len() == old(dst_v)@.len() + src_v@.len(),
        pk_views(final (dst_v)@) == pk_views(old(dst_v)@) + pk_views(src_v@),
{
    let ghost base = old(dst_v)@;
    let mut i: usize = 0;
    while i < src_v.len()
        invariant
            i <= src_v@.len(),
            dst_v@.len() == base.len() + i,
            forall|j: int| 0 <= j < base.len() ==> dst_v@[j] == base[j],
            forall|j: int| 0 <= j < i ==> #[trigger] dst_v@[base.len() + j]@ == src_v@[j]@,
        decreases src_v@.len() - i,
    {
        dst_v.push(raw_pk_dup(&src_v[i]));
        i = i + 1;
    }
    proof {
        assert forall|j: int| 0 <= j < dst_v@.len() implies pk_views(dst_v@)[j] == (pk_views(base)
            + pk_views(src_v@))[j] by {
            if j < base.len() {
                assert(dst_v@[j] == base[j]);
            } else {
                assert(dst_v@[base.len() + (j - base.len())]@ == src_v@[j - base.len()]@);
            }
        }
        assert(pk_views(dst_v@) =~= pk_views(base) + pk_views(src_v@));
    }
}

/// Append one vector of signatures to another.
fn append_sigs(dst_v: &mut Vec<Signature>, src_v: &Vec<Signature>)
    ensures
        final (dst_v)@.len() == old(dst_v)@.len() + src_v@.len(),
        sig_views(final (dst_v)@) == sig_views(old(dst_v)@) + sig_views(src_v@),
{
    let ghost base = old(dst_v)@;
    let mut i: usize = 0;
    while i < src_v.len()
        invariant
            i <= src_v@.len(),
            dst_v@.len() == base.len() + i,
            forall|j: int| 0 <= j < base.len() ==> dst_v@[j] == base[j],
            forall|j: int| 0 <= j < i ==> #[trigger] dst_v@[base.len() + j]@ == src_v@[j]@,
        decreases src_v@.len() - i,
    {
        dst_v.push(raw_sig_dup(&src_v[i]));
        i = i + 1;
    }
    proof {
        assert forall|j: int| 0 <= j < dst_v@.len() implies sig_views(dst_v@)[j] == (sig_views(base)
            + sig_views(src_v@))[j] by {
            if j < base.len() {
                assert(dst_v@[j] == base[j]);
            } else {
                assert(dst_v@[base.len() + (j - base.len())]@ == src_v@[j - base.len()]@);
            }
        }
        assert(sig_views(dst_v@) =~= sig_views(base) + sig_views(src_v@));
    }
}

/// Append one vector of byte strings to another.
fn append_msgs(dst_v: &mut Vec<Vec<u8>>, src_v: &Vec<Vec<u8>>)
    ensures
        final (dst_v)@.len() == old(dst_v)@.len() + src_v@.len(),
        final (dst_v)@.map_values(|m: Vec<u8>| m@) == old(dst_v)@.map_values(|m: Vec<u8>| m@)
            + src_v@.map_values(|m: Vec<u8>| m@),
        forall|j: int|
            0 <= j < old(dst_v)@.len() + src_v@.len() ==> #[trigger] final (dst_v)@[j]@.len() == (
            if j < old(dst_v)@.len() {
                old(dst_v)@[j]@.len()
            } else {
                src_v@[j - old(dst_v)@.len()]@.len()
            }),
{
    let ghost base = old(dst_v)@;
    let mut i: usize = 0;
    while i < src_v.len()
        invariant
            i <= src_v@.len(),
            dst_v@.len() == base.len() + i,
            forall|j: int| 0 <= j < base.len() ==> dst_v@[j] == base[j],
            forall|j: int| 0 <= j < i ==> #[trigger] dst_v@[base.len() + j]@ == src_v@[j]@,
        decreases src_v@.len() - i,
    {
        dst_v.push(copy_bytes(src_v[i].as_slice()));
        i = i + 1;
    }
    proof {
        assert forall|j: int| #![trigger dst_v@[j]]
            0 <= j < dst_v@.len() implies dst_v@.map_values(|m: Vec<u8>| m@)[j] == (base.map_values(
            |m: Vec<u8>| m@,
        ) + src_v@.map_values(|m: Vec<u8>| m@))[j] by {
            if j < base.len() {
                assert(dst_v@[j] == base[j]);
            } else {
                assert(dst_v@[base.len() + (j - base.len())]@ == src_v@[j - base.len()]@);
            }
        }
        assert(dst_v@.map_values(|m: Vec<u8>| m@) =~= base.map_values(|m: Vec<u8>| m@)
            + src_v@.map_values(|m: Vec<u8>| m@));
    }
}

/// Merging two committed accumulators in either order yields accumulators
/// that decide every finalization alike: the merged term collections are
/// equal as multisets. The verification protocols keep per-term signatures
/// out of merged halves (the signature side arrives precomputed or
/// weighted), which the folded-signature condition reflects.
pub fn merge_either_order(a: &Pairing, b: &Pairing) -> (r: (Pairing, Pairing))
    requires
        a.wf(),
        b.wf(),
        a.is_committed(),
        b.is_committed(),
        a.spec_dst() == b.spec_dst(),
        a.spec_hash_or_encode() == b.spec_hash_or_encode(),
        a.folded_sigs().len() == 0,
        b.folded_sigs().len() == 0,
    ensures
        r.0.wf() && r.1.wf(),
        r.0.is_committed() && r.1.is_committed(),
        r.0.plain_pks() == a.plain_pks() + b.plain_pks(),
        r.1.plain_pks() == b.plain_pks() + a.plain_pks(),
        forall|g: Option<Seq<u8>>|
            #[trigger] spec_pairing_accepts(r.0, g) == spec_pairing_accepts(r.1, g),
{
    let mut ab = a.duplicate();
    match ab.merge(b) {
        Ok(()) => (),
        Err(_) => {
            proof {
                assert(false);
            }
        },
    }
    let mut ba = b.duplicate();
    match ba.merge(a) {
        Ok(()) => (),
        Err(_) => {
            proof {
                assert(false);
            }
        },
    }
    proof {
        lemma_zip_terms_concat(a.plain_msgs(), a.plain_pks(), b.plain_msgs(), b.plain_pks());
        lemma_zip_terms_concat(b.plain_msgs(), b.plain_pks(), a.plain_msgs(), a.plain_pks());
        lemma_zip_wterms_concat(
            a.wt_msgs(),
            a.wt_pks(),
            a.wt_sigs(),
            a.wt_scalars(),
            b.wt_msgs(),
            b.wt_pks(),
            b.wt_sigs(),
            b.wt_scalars(),
        );
        lemma_zip_wterms_concat(
            b.wt_msgs(),
            b.wt_pks(),
            b.wt_sigs(),
            b.wt_scalars(),
            a.wt_msgs(),
            a.wt_pks(),
            a.wt_sigs(),
            a.wt_scalars(),
        );
        assert(zip_terms(ab.plain_msgs(), ab.plain_pks()) =~= zip_terms(
            ba.plain_msgs(),
            ba.plain_pks(),
        ));
        assert(zip_wterms(ab.wt_msgs(), ab.wt_pks(), ab.wt_sigs(), ab.wt_scalars()) =~= zip_wterms(
            ba.wt_msgs(),
            ba.wt_pks(),
            ba.wt_sigs(),
            ba.wt_scalars(),
        ));
        assert(ab.folded_sigs() =~= ba.folded_sigs());
        assert forall|g: Option<Seq<u8>>|
            #[trigger] spec_pairing_accepts(ab, g) == spec_pairing_accepts(ba, g) by {
            lemma_finalverify_order_blind(ab, ba, g);
        }
    }
    (ab, ba)
}

/// Sum the folded signatures and the optional precomputed one; the identity
/// where there is nothing to sum.
fn compute_sig_side(sigs: &Vec<Signature>, gtsig: Option<&Signature>) -> (r: Signature)
    ensures
        r@ == spec_sig_side(
            sig_views(sigs@),
            match gtsig {
                Some(g) => Some(g@),
                None => None,
            },
        ),
{
    if sigs.len() == 0 {
        match gtsig {
            Some(g) => {
                let r = raw_sig_dup(g);
                proof {
                    assert(sig_views(sigs@).push(g@).len() == 1);
                    assert(sig_views(sigs@).push(g@)[0] == g@);
                }
                r
            },
            None => {
                let r = raw_inf_signature();
                proof {
                    assert(is_inf_sig(r@));
                    assert(r@ =~= inf_sig_bytes());
                }
                r
            },
        }
    } else {
        let mut acc = AggregateSignature::from_signature(&sigs[0]);
        proof {
            assert(sig_views(sigs@).take(1).len() == 1);
            assert(sig_views(sigs@).take(1)[0] == sigs@[0]@);
        }
        let mut i: usize = 1;
        while i < sigs.len()
            invariant
                1 <= i <= sigs@.len(),
                acc@ == sig_fold(sig_views(sigs@).take(i as int)),
            decreases sigs@.len() - i,
        {
            acc.add_signature(&sigs[i], false).unwrap();
            proof {
                assert(sig_views(sigs@).take(i + 1).drop_last() =~= sig_views(sigs@).take(i as int));
            }
            i = i + 1;
        }
        proof {
            assert(sig_views(sigs@).take(sigs@.len() as int) =~= sig_views(sigs@));
        }
        match gtsig {
            Some(g) => {
                acc.add_signature(g, false).unwrap();
                proof {
                    assert(sig_views(sigs@).push(g@).drop_last() =~= sig_views(sigs@));
                }
            },
            None => (),
        }
        acc.to_signature()
    }
}

} // verus!
