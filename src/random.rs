//! Random choices, through the `rand` crate. Nothing is known of a drawn
//! value beyond its shape.
use vstd::prelude::*;
use rand::seq::IteratorRandom;
use rand::Rng;

verus! {

pub open spec fn is_alphanumeric(c: char) -> bool {
    ('0' <= c && c <= '9') || ('a' <= c && c <= 'z') || ('A' <= c && c <= 'Z')
}

/// Relies on rand's `Alphanumeric` distribution: fifty characters, each one
/// of `[A-Za-z0-9]`.
#[verifier::external_body]
pub(crate) fn random_segment() -> (r: String)
    ensures
        r@.len() == 50,
        forall|i: int| 0 <= i < 50 ==> is_alphanumeric(#[trigger] r@[i]),
{
    rand::thread_rng().sample_iter(&rand::distributions::Alphanumeric).take(50).map(char::from).collect()
}

/// Relies on rand's `IteratorRandom::choose` over `0..n`: an index below `n`,
/// none only when `n` is zero.
#[verifier::external_body]
pub(crate) fn random_index(n: usize) -> (r: Option<usize>)
    ensures
        r is Some <==> n > 0,
        r matches Some(i) ==> i < n,
{
    (0..n).choose(&mut rand::thread_rng())
}

/// Relies on rand::random for a 32-byte array: a fresh 256-bit key.
#[verifier::external_body]
pub(crate) fn random_key() -> (r: Vec<u8>)
    ensures
        r@.len() == 32,
{
    rand::random::<[u8; 32]>().to_vec()
}

/// Relies on rand::random for a 12-byte array: a fresh nonce.
#[verifier::external_body]
pub(crate) fn random_nonce() -> (r: Vec<u8>)
    ensures
        r@.len() == 12,
{
    rand::random::<[u8; 12]>().to_vec()
}

} // verus!
