use vstd::prelude::*;
use soroban_sdk::Env;

verus! {

/// The Soroban environment that a contract invocation runs in.
#[verifier::external_type_specification]
#[verifier::external_body]
pub struct ExEnv(soroban_sdk::Env);

/// The SHA-256 digest of a byte string.
pub uninterp spec fn sha256_digest(data: Seq<u8>) -> Seq<u8>;

/// Calls `soroban_sdk::crypto::Crypto::sha256` on `data`.
/// Claimed: the 32 bytes returned are the SHA-256 digest of `data`, a function
/// of `data` alone (named `sha256_digest`).
#[verifier::external_body]
pub(crate) fn sha256(env: &Env, data: &Vec<u8>) -> (r: [u8; 32])
    ensures
        r@ == sha256_digest(data@),
{
    env.crypto().sha256(&soroban_sdk::Bytes::from_slice(env, data.as_slice())).to_array()
}

} // verus!
