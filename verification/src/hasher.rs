//! Running digests. The `ssri` crate computes them; what this module says
//! of it is believed, not proved.

use crate::algorithm::Algorithm;
use crate::base64::decoding;
use ssri::IntegrityOpts;
use vstd::prelude::*;

verus! {

/// A running digest of `ssri`. Nothing of its inside is known here.
#[verifier::external_type_specification]
#[verifier::external_body]
pub struct ExIntegrityOpts(IntegrityOpts);

/// The bytes that a running digest has taken in so far, in order.
pub uninterp spec fn absorbed(state: IntegrityOpts) -> Seq<u8>;

/// The algorithms that a running digest was set up for, in order.
pub uninterp spec fn configured(state: IntegrityOpts) -> Seq<Algorithm>;

/// The digest of `message` under `algorithm`, in base64, as `ssri` gives it.
pub uninterp spec fn encoded_digest(algorithm: Algorithm, message: Seq<u8>) -> Seq<char>;

/// Whether `text` is the base64 of as many bytes as a digest of
/// `algorithm` has.
pub open spec fn is_digest_text(algorithm: Algorithm, text: Seq<char>) -> bool {
    decoding(text) matches Some(digest) && digest.len() == algorithm.digest_len()
}

/// The bytes of the digest of `message` under `algorithm`.
pub open spec fn message_digest(algorithm: Algorithm, message: Seq<u8>) -> Seq<u8> {
    decoding(encoded_digest(algorithm, message)).unwrap()
}

/// `IntegrityOpts::new` followed by `IntegrityOpts::algorithm`: a running
/// digest for `algorithm` alone that has taken in nothing.
#[verifier::external_body]
pub(crate) fn start(algorithm: Algorithm) -> (state: IntegrityOpts)
    ensures
        configured(state) == seq![algorithm],
        absorbed(state) == Seq::<u8>::empty(),
{
    IntegrityOpts::new().algorithm(
        match algorithm {
            Algorithm::Sha1 => ssri::Algorithm::Sha1,
            Algorithm::Sha256 => ssri::Algorithm::Sha256,
            Algorithm::Sha384 => ssri::Algorithm::Sha384,
            Algorithm::Sha512 => ssri::Algorithm::Sha512,
        },
    )
}

/// `IntegrityOpts::input`: the running digest takes in `data` after what
/// it has, and stays set up as it was.
#[verifier::external_body]
pub(crate) fn absorb(state: &mut IntegrityOpts, data: &[u8])
    ensures
        configured(*final(state)) == configured(*old(state)),
        absorbed(*final(state)) == absorbed(*old(state)) + data@,
{
    state.input(data)
}

/// `IntegrityOpts::result`, for a running digest set up for one algorithm:
/// the digest of what it has taken in, as the text that `ssri` holds for
/// it. That text depends on the algorithm and the bytes alone, and is the
/// base64, with padding, of a digest of the algorithm's length.
#[verifier::external_body]
pub(crate) fn finish(state: IntegrityOpts) -> (text: String)
    requires
        configured(state).len() == 1,
    ensures
        text@ == encoded_digest(configured(state)[0], absorbed(state)),
        is_digest_text(configured(state)[0], text@),
{
    state.result().hashes.swap_remove(0).digest
}

} // verus!
