//! The random choices of the client, made by the `rand` crate.

use vstd::prelude::*;
use rand::Rng;
use rand::seq::SliceRandom;

verus! {

#[verifier::external_type_specification]
#[verifier::external_body]
pub struct ExThreadRng(rand::rngs::ThreadRng);

/// An ASCII letter or digit, the alphabet of `rand::distributions::Alphanumeric`.
pub open spec fn is_ascii_alphanumeric(c: char) -> bool {
    ('A' <= c <= 'Z') || ('a' <= c <= 'z') || ('0' <= c <= '9')
}

/// `rand::thread_rng`: a handle to the thread-local generator. Nothing is stated of it.
#[verifier::external_body]
pub(crate) fn thread_rng() -> rand::rngs::ThreadRng {
    rand::thread_rng()
}

/// `Rng::sample` with `rand::distributions::Alphanumeric`, whose `u8` result is
/// taken as a `char`. The distribution draws from the 62 bytes `A`-`Z`, `a`-`z`,
/// `0`-`9`; which one comes out is left to chance, and what is stated is only
/// that it is one of them.
#[verifier::external_body]
pub(crate) fn sample_alphanumeric(rng: &mut rand::rngs::ThreadRng) -> (c: char)
    ensures
        is_ascii_alphanumeric(c),
{
    rng.sample(rand::distributions::Alphanumeric) as char
}

/// `SliceRandom::choose` on a slice of piece indices: `None` exactly when the
/// slice is empty, else one of its elements (which one is left to chance).
#[verifier::external_body]
pub(crate) fn choose_piece(pieces: &Vec<u32>, rng: &mut rand::rngs::ThreadRng) -> (res: Option<u32>)
    ensures
        res is None <==> pieces@.len() == 0,
        res matches Some(p) ==> pieces@.contains(p),
{
    pieces.as_slice().choose(rng).copied()
}

} // verus!
