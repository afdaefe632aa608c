//! BLS signatures over BLS12-381 in the minimal-public-key variant:
//! key generation, signing, aggregation, single and batched verification,
//! multi-scalar multiplication, and a swap-or-not list shuffle.
//!
//! The elliptic-curve and pairing arithmetic itself is supplied by the `blst`
//! crate and is consumed here as a primitive capability library; every
//! decision this crate takes on top of it is specified and verified.

pub mod api;
pub mod errors;
pub mod hexutil;
pub mod keys;
pub mod msm;
pub mod pairing;
pub mod pool;
pub mod shuffle;
pub mod sig;
pub mod uniq;
pub mod verify;

pub use api::PkAndSerializedSig;
pub use api::PkAndSig;
pub use api::SignatureSet;
pub use api::aggregate_public_keys;
pub use api::aggregate_serialized_public_keys;
pub use api::aggregate_serialized_signatures;
pub use api::aggregate_signatures;
pub use api::aggregate_verify;
pub use api::aggregate_with_randomness;
pub use api::fast_aggregate_verify;
pub use api::verify;
pub use api::verify_multiple_aggregate_signatures;
pub use api::SECRET_KEY_LENGTH;
pub use api::PUBLIC_KEY_LENGTH_COMPRESSED;
pub use api::PUBLIC_KEY_LENGTH_UNCOMPRESSED;
pub use api::SIGNATURE_LENGTH_COMPRESSED;
pub use api::SIGNATURE_LENGTH_UNCOMPRESSED;
pub use errors::BlstError;
pub use errors::ErrorStatus;
pub use errors::blst_error_to_reason;
pub use errors::blst_error_to_str;
pub use keys::AggregatePublicKey;
pub use keys::PublicKey;
pub use keys::SecretKey;
pub use msm::breakdown;
pub use msm::mult_public_keys;
pub use msm::mult_signatures;
pub use msm::num_bits;
pub use msm::pippenger_window_size;
pub use pairing::Pairing;
pub use pool::EmptyPool;
pub use pool::da_pool;
pub use shuffle::SHUFFLE_ROUNDS;
pub use shuffle::ShufflingErrorCode;
pub use shuffle::shuffle_list;
pub use shuffle::unshuffle_list;
pub use sig::AggregateSignature;
pub use sig::Signature;
pub use uniq::uniq;
