use vstd::prelude::*;

use crate::errors::BlstError;
use crate::keys::{pk_views, raw_pk_dup, spec_pk_validate, AggregatePublicKey, PublicKey, pk_fold};
use crate::pairing::{
    agg_accepts, concat_bytes, copy_bytes, mult_agg_accepts, scalar_norm, zip_terms, zip_wterms,
    Pairing,
};
use crate::sig::{sig_in_group, sig_views, Signature};

verus! {

/// The views of a list of owned messages.
pub open spec fn msg_views(s: Seq<Vec<u8>>) -> Seq<Seq<u8>> {
    s.map_values(|m: Vec<u8>| m@)
}

/// Every key passes the full validation: not the identity, in the subgroup.
pub open spec fn all_pks_valid(s: Seq<Seq<u8>>) -> bool {
    forall|i: int| 0 <= i < s.len() ==> #[trigger] spec_pk_validate(s[i]) is None
}

/// Every signature lies in the prime-order subgroup.
pub open spec fn all_sigs_in_group(s: Seq<Seq<u8>>) -> bool {
    forall|i: int| 0 <= i < s.len() ==> #[trigger] sig_in_group(s[i])
}

/// Each randomizer normalized to the low `nbits` bits of its 32 bytes.
pub open spec fn norm_scalars(s: Seq<Vec<u8>>, nbits: int) -> Seq<Seq<u8>> {
    s.map_values(|b: Vec<u8>| scalar_norm(b@, nbits))
}

impl Signature {
    /// Verify this signature against one batch of (message, key) pairs under
    /// the domain tag `dst`: success exactly when the requested validations
    /// pass and the pairing-product equation accepts. A batch of mismatched
    /// or empty lists fails outright; every failure reads as `VerifyFail`.
    pub fn aggregate_verify(
        &self,
        sig_groupcheck: bool,
        msgs: &Vec<Vec<u8>>,
        dst: &[u8],
        pks: &Vec<PublicKey>,
        pks_validate: bool,
    ) -> (r: Result<(), BlstError>)
        ensures
            (pks@.len() == 0 || msgs@.len() != pks@.len()) ==> r == Err::<(), BlstError>(
                BlstError::VerifyFail,
            ),
            pks@.len() > 0 && msgs@.len() == pks@.len() ==> (r is Ok <==> ((pks_validate
                ==> all_pks_valid(pk_views(pks@))) && (sig_groupcheck ==> sig_in_group(self@))
                && agg_accepts(dst@, zip_terms(msg_views(msgs@), pk_views(pks@)), self@))),
            r matches Err(e) ==> e == BlstError::VerifyFail,
    {
        let n_elems = pks.len();
        if n_elems == 0 || msgs.len() != n_elems {
            return Err(BlstError::VerifyFail);
        }
        let no_aug: Vec<u8> = Vec::new();
        let mut pairing = Pairing::new(true, dst);
        let mut i: usize = 0;
        while i < n_elems
            invariant
                n_elems == pks@.len(),
                msgs@.len() == n_elems,
                i <= n_elems,
                pairing.wf(),
                !pairing.is_committed(),
                !pairing.has_failed(),
                pairing.spec_dst() == dst@,
                pairing.spec_hash_or_encode(),
                pairing.plain_pks() == pk_views(pks@).take(i as int),
                pairing.plain_msgs() == msg_views(msgs@).take(i as int),
                pairing.folded_sigs().len() == 0,
                pairing.wt_pks().len() == 0,
                no_aug@.len() == 0,
                pks_validate ==> forall|j: int|
                    0 <= j < i ==> #[trigger] spec_pk_validate(pk_views(pks@)[j]) is None,
            decreases n_elems - i,
        {
            match pairing.aggregate(
                &pks[i],
                pks_validate,
                None,
                false,
                msgs[i].as_slice(),
                no_aug.as_slice(),
            ) {
                Ok(()) => (),
                Err(_) => {
                    proof {
                        assert(pk_views(pks@)[i as int] == pks@[i as int]@);
                    }
                    return Err(BlstError::VerifyFail);
                },
            }
            proof {
                assert(no_aug@ + msgs@[i as int]@ =~= msgs@[i as int]@);
                assert(pk_views(pks@).take(i + 1) =~= pk_views(pks@).take(i as int).push(
                    pks@[i as int]@,
                ));
                assert(msg_views(msgs@).take(i + 1) =~= msg_views(msgs@).take(i as int).push(
                    msgs@[i as int]@,
                ));
            }
            i = i + 1;
        }
        if sig_groupcheck {
            match self.validate(false) {
                Ok(()) => (),
                Err(_) => {
                    return Err(BlstError::VerifyFail);
                },
            }
        }
        pairing.commit();
        proof {
            assert(pk_views(pks@).take(pks@.len() as int) =~= pk_views(pks@));
            assert(msg_views(msgs@).take(msgs@.len() as int) =~= msg_views(msgs@));
        }
        let accepted = pairing.finalverify(Some(self));
        proof {
            assert(pairing.folded_sigs().push(self@) =~= seq![self@]);
        }
        if accepted {
            Ok(())
        } else {
            Err(BlstError::VerifyFail)
        }
    }

    /// Verify this signature against one message and one key: a batch of
    /// size one whose message is `aug ‖ msg`.
    pub fn verify(
        &self,
        sig_groupcheck: bool,
        msg: &[u8],
        dst: &[u8],
        aug: &[u8],
        pk: &PublicKey,
        pk_validate: bool,
    ) -> (r: Result<(), BlstError>)
        ensures
            r is Ok <==> ((pk_validate ==> spec_pk_validate(pk@) is None) && (sig_groupcheck
                ==> sig_in_group(self@)) && agg_accepts(
                dst@,
                zip_terms(seq![aug@ + msg@], seq![pk@]),
                self@,
            )),
            r matches Err(e) ==> e == BlstError::VerifyFail,
    {
        let aug_msg = concat_bytes(aug, msg);
        let mut msgs: Vec<Vec<u8>> = Vec::new();
        msgs.push(aug_msg);
        let mut pks: Vec<PublicKey> = Vec::new();
        pks.push(raw_pk_dup(pk));
        proof {
            assert(msg_views(msgs@) =~= seq![aug@ + msg@]);
            assert(pk_views(pks@) =~= seq![pk@]);
        }
        let r = self.aggregate_verify(sig_groupcheck, &msgs, dst, &pks, pk_validate);
        proof {
            assert(pk_views(pks@)[0] == pk@);
            if spec_pk_validate(pk@) is None {
                assert forall|j: int|
                    0 <= j < pk_views(pks@).len() implies #[trigger] spec_pk_validate(
                    pk_views(pks@)[j],
                ) is None by {
                    assert(pk_views(pks@)[j] == pk@);
                }
                assert(all_pks_valid(pk_views(pks@)));
            } else {
                assert(!all_pks_valid(pk_views(pks@)));
            }
        }
        r
    }

    /// Verify this signature as an aggregate over one message signed by many
    /// proof-of-possession-verified keys: the keys are summed without
    /// re-validation and the batch of size one is verified. An empty key
    /// list is an `AggrTypeMismatch`.
    pub fn fast_aggregate_verify(
        &self,
        sig_groupcheck: bool,
        msg: &[u8],
        dst: &[u8],
        pks: &Vec<PublicKey>,
    ) -> (r: Result<(), BlstError>)
        ensures
            pks@.len() == 0 ==> r == Err::<(), BlstError>(BlstError::AggrTypeMismatch),
            pks@.len() > 0 ==> (r is Ok <==> ((sig_groupcheck ==> sig_in_group(self@))
                && agg_accepts(dst@, zip_terms(seq![msg@], seq![pk_fold(pk_views(pks@))]), self@))),
            pks@.len() > 0 ==> (r matches Err(e) ==> e == BlstError::VerifyFail),
    {
        let agg_pk = match AggregatePublicKey::aggregate(pks, false) {
            Ok(agg) => agg,
            Err(e) => {
                return Err(e);
            },
        };
        let pk = agg_pk.to_public_key();
        self.fast_aggregate_verify_pre_aggregated(sig_groupcheck, msg, dst, &pk)
    }

    /// Verify this signature as an aggregate over one message against an
    /// already-aggregated key.
    pub fn fast_aggregate_verify_pre_aggregated(
        &self,
        sig_groupcheck: bool,
        msg: &[u8],
        dst: &[u8],
        pk: &PublicKey,
    ) -> (r: Result<(), BlstError>)
        ensures
            r is Ok <==> ((sig_groupcheck ==> sig_in_group(self@)) && agg_accepts(
                dst@,
                zip_terms(seq![msg@], seq![pk@]),
                self@,
            )),
            r matches Err(e) ==> e == BlstError::VerifyFail,
    {
        let mut msgs: Vec<Vec<u8>> = Vec::new();
        msgs.push(copy_bytes(msg));
        let mut pks: Vec<PublicKey> = Vec::new();
        pks.push(raw_pk_dup(pk));
        proof {
            assert(msg_views(msgs@) =~= seq![msg@]);
            assert(pk_views(pks@) =~= seq![pk@]);
        }
        self.aggregate_verify(sig_groupcheck, &msgs, dst, &pks, false)
    }

    /// Verify many independent aggregate signatures at once, each triple
    /// weighted by its random scalar to defend against rogue-key forgeries
    /// across batches: success exactly when the requested validations pass
    /// and the weighted pairing-product equation accepts.
    pub fn verify_multiple_aggregate_signatures(
        msgs: &Vec<Vec<u8>>,
        dst: &[u8],
        pks: &Vec<PublicKey>,
        pks_validate: bool,
        sigs: &Vec<Signature>,
        sigs_groupcheck: bool,
        rands: &Vec<Vec<u8>>,
        rand_bits: usize,
    ) -> (r: Result<(), BlstError>)
        requires
            1 <= rand_bits <= 256,
            forall|i: int| 0 <= i < rands@.len() ==> #[trigger] rands@[i]@.len() == 32,
        ensures
            (pks@.len() == 0 || msgs@.len() != pks@.len() || sigs@.len() != pks@.len()
                || rands@.len() != pks@.len()) ==> r == Err::<(), BlstError>(BlstError::VerifyFail),
            pks@.len() > 0 && msgs@.len() == pks@.len() && sigs@.len() == pks@.len()
                && rands@.len() == pks@.len() ==> (r is Ok <==> ((pks_validate ==> all_pks_valid(
                pk_views(pks@),
            )) && (sigs_groupcheck ==> all_sigs_in_group(sig_views(sigs@))) && mult_agg_accepts(
                dst@,
                zip_wterms(
                    msg_views(msgs@),
                    pk_views(pks@),
                    sig_views(sigs@),
                    norm_scalars(rands@, rand_bits as int),
                ),
            ))),
            r matches Err(e) ==> e == BlstError::VerifyFail,
    {
        let n_elems = pks.len();
        if n_elems == 0 || msgs.len() != n_elems || sigs.len() != n_elems || rands.len()
            != n_elems {
            return Err(BlstError::VerifyFail);
        }
        let ghost norm_rands = norm_scalars(rands@, rand_bits as int);
        let no_aug: Vec<u8> = Vec::new();
        let mut pairing = Pairing::new(true, dst);
        proof {
            assert(pairing.wt_pks() =~= pk_views(pks@).take(0));
            assert(pairing.wt_sigs() =~= sig_views(sigs@).take(0));
            assert(pairing.wt_msgs() =~= msg_views(msgs@).take(0));
            assert(pairing.wt_scalars() =~= norm_rands.take(0));
        }
        let mut i: usize = 0;
        while i < n_elems
            invariant
                n_elems == pks@.len(),
                msgs@.len() == n_elems,
                sigs@.len() == n_elems,
                rands@.len() == n_elems,
                1 <= rand_bits <= 256,
                forall|j: int| 0 <= j < rands@.len() ==> #[trigger] rands@[j]@.len() == 32,
                norm_rands == norm_scalars(rands@, rand_bits as int),
                i <= n_elems,
                pairing.wf(),
                !pairing.is_committed(),
                !pairing.has_failed(),
                pairing.spec_dst() == dst@,
                pairing.spec_hash_or_encode(),
                pairing.plain_pks().len() == 0,
                pairing.folded_sigs().len() == 0,
                pairing.wt_pks() == pk_views(pks@).take(i as int),
                pairing.wt_sigs() == sig_views(sigs@).take(i as int),
                pairing.wt_msgs() == msg_views(msgs@).take(i as int),
                pairing.wt_scalars() == norm_rands.take(i as int),
                no_aug@.len() == 0,
                pks_validate ==> forall|j: int|
                    0 <= j < i ==> #[trigger] spec_pk_validate(pk_views(pks@)[j]) is None,
                sigs_groupcheck ==> forall|j: int|
                    0 <= j < i ==> #[trigger] sig_in_group(sig_views(sigs@)[j]),
            decreases n_elems - i,
        {
            match pairing.mul_n_aggregate(
                &pks[i],
                pks_validate,
                &sigs[i],
                sigs_groupcheck,
                rands[i].as_slice(),
                rand_bits,
                msgs[i].as_slice(),
                no_aug.as_slice(),
            ) {
                Ok(()) => (),
                Err(_) => {
                    proof {
                        assert(pk_views(pks@)[i as int] == pks@[i as int]@);
                        assert(sig_views(sigs@)[i as int] == sigs@[i as int]@);
                    }
                    return Err(BlstError::VerifyFail);
                },
            }
            proof {
                assert(no_aug@ + msgs@[i as int]@ =~= msgs@[i as int]@);
                assert(pk_views(pks@).take(i + 1) =~= pk_views(pks@).take(i as int).push(
                    pks@[i as int]@,
                ));
                assert(sig_views(sigs@).take(i + 1) =~= sig_views(sigs@).take(i as int).push(
                    sigs@[i as int]@,
                ));
                assert(msg_views(msgs@).take(i + 1) =~= msg_views(msgs@).take(i as int).push(
                    msgs@[i as int]@,
                ));
                assert(norm_rands.take(i + 1) =~= norm_rands.take(i as int).push(
                    scalar_norm(rands@[i as int]@, rand_bits as int),
                ));
            }
            i = i + 1;
        }
        pairing.commit();
        proof {
            assert(pk_views(pks@).take(pks@.len() as int) =~= pk_views(pks@));
            assert(sig_views(sigs@).take(sigs@.len() as int) =~= sig_views(sigs@));
            assert(msg_views(msgs@).take(msgs@.len() as int) =~= msg_views(msgs@));
            assert(norm_rands.take(rands@.len() as int) =~= norm_rands);
        }
        let accepted = pairing.finalverify(None);
        if accepted {
            Ok(())
        } else {
            Err(BlstError::VerifyFail)
        }
    }
}

} // verus!
