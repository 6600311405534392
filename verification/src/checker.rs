//! Checking a stream of bytes against the digests claimed for it.

use crate::algorithm::Algorithm;
use crate::builder::{digest_record, DigestBuilder};
use crate::errors::SrisumError;
use crate::hasher::message_digest;
use crate::integrity::{has_algorithm, strongest, HashView, Integrity};
use vstd::prelude::*;

verus! {

/// Whether `message` has one of the digests that `expected` claims under
/// its strongest algorithm. Digests under weaker algorithms are not
/// looked at.
pub open spec fn matches(expected: Seq<HashView>, message: Seq<u8>) -> bool {
    exists|i: int|
        0 <= i < expected.len() && (#[trigger] expected[i]).algorithm == strongest(expected)
            && expected[i].digest == message_digest(strongest(expected), message)
}

/// What checking `message` against `expected` comes to: the strongest
/// algorithm claimed, if the message has a digest claimed under it.
pub open spec fn verdict(expected: Seq<HashView>, message: Seq<u8>) -> Result<
    Algorithm,
    SrisumError,
> {
    if matches(expected, message) {
        Ok(strongest(expected))
    } else {
        Err(SrisumError::IntegrityMismatch)
    }
}

/// The strongest algorithm of a list of digests is that of one of them,
/// and none of them has a stronger one.
pub proof fn lemma_strongest(hashes: Seq<HashView>)
    requires
        hashes.len() > 0,
    ensures
        has_algorithm(hashes, strongest(hashes)),
        forall|i: int|
            0 <= i < hashes.len() ==> (#[trigger] hashes[i]).algorithm.strength() <= strongest(
                hashes,
            ).strength(),
{
    let first = hashes[0].algorithm;
    assert(has_algorithm(hashes, first));
    assert forall|i: int| 0 <= i < hashes.len() implies (#[trigger] hashes[i]).algorithm.strength()
        <= strongest(hashes).strength() by {
        assert(has_algorithm(hashes, hashes[i].algorithm));
    }
}

/// Content passes the check against its own integrity value, under the
/// strongest algorithm that was asked for.
pub proof fn lemma_untouched_passes(algorithms: Seq<Algorithm>, content: Seq<u8>)
    requires
        algorithms.len() > 0,
    ensures
        verdict(digest_record(algorithms, content), content) == Ok::<Algorithm, SrisumError>(
            strongest(digest_record(algorithms, content)),
        ),
{
    let record = digest_record(algorithms, content);
    lemma_strongest(record);
    let i = choose|i: int| 0 <= i < record.len() && (#[trigger] record[i]).algorithm == strongest(
        record,
    );
    assert(record[i].digest == message_digest(strongest(record), content));
}

/// Tampering is detected: content whose digest under the strongest
/// algorithm asked for is not that of the genuine content fails the check
/// against the integrity value of the genuine content.
pub proof fn lemma_tamper_detected(
    algorithms: Seq<Algorithm>,
    genuine: Seq<u8>,
    tampered: Seq<u8>,
)
    requires
        algorithms.len() > 0,
        message_digest(strongest(digest_record(algorithms, genuine)), tampered) != message_digest(
            strongest(digest_record(algorithms, genuine)),
            genuine,
        ),
    ensures
        verdict(digest_record(algorithms, genuine), tampered) == Err::<Algorithm, SrisumError>(
            SrisumError::IntegrityMismatch,
        ),
{
    let record = digest_record(algorithms, genuine);
    assert forall|i: int|
        0 <= i < record.len() && (#[trigger] record[i]).algorithm == strongest(
            record,
        ) implies record[i].digest != message_digest(strongest(record), tampered) by {
        assert(record[i].digest == message_digest(record[i].algorithm, genuine));
    }
}

/// Checking content against the integrity value of other content compares
/// their digests under the strongest algorithm asked for, and nothing
/// else.
pub proof fn lemma_check_compares_digests(
    algorithms: Seq<Algorithm>,
    claimed: Seq<u8>,
    content: Seq<u8>,
)
    requires
        algorithms.len() > 0,
    ensures
        verdict(digest_record(algorithms, claimed), content) is Ok <==> message_digest(
            strongest(digest_record(algorithms, claimed)),
            content,
        ) == message_digest(strongest(digest_record(algorithms, claimed)), claimed),
{
    let record = digest_record(algorithms, claimed);
    let strong = strongest(record);
    lemma_strongest(record);
    if message_digest(strong, content) == message_digest(strong, claimed) {
        let i = choose|i: int| 0 <= i < record.len() && (#[trigger] record[i]).algorithm == strong;
        assert(record[i].digest == message_digest(strong, content));
    } else {
        lemma_tamper_detected(algorithms, claimed, content);
    }
}

/// A digest under a weaker algorithm is not looked at: where the content
/// has the digest claimed under the stronger algorithm, the check passes
/// under that algorithm whatever is claimed under the weaker one.
pub proof fn lemma_weaker_ignored(weak: HashView, strong: HashView, message: Seq<u8>)
    requires
        weak.algorithm.strength() < strong.algorithm.strength(),
        strong.digest == message_digest(strong.algorithm, message),
    ensures
        verdict(seq![weak, strong], message) == Ok::<Algorithm, SrisumError>(strong.algorithm),
        verdict(seq![strong, weak], message) == Ok::<Algorithm, SrisumError>(strong.algorithm),
{
    let a = seq![weak, strong];
    let b = seq![strong, weak];
    lemma_strongest(a);
    lemma_strongest(b);
    assert(a[1] == strong);
    assert(b[0] == strong);
    assert(a[0] == weak);
    assert(b[1] == weak);
}

/// Only the digests under the strongest algorithm decide: two lists of
/// digests with the same strongest algorithm and the same digests under it
/// come to the same for every content.
pub proof fn lemma_strongest_decides(first: Seq<HashView>, second: Seq<HashView>, message: Seq<u8>)
    requires
        strongest(first) == strongest(second),
        forall|i: int|
            0 <= i < first.len() && (#[trigger] first[i]).algorithm == strongest(first) ==> exists|
                j: int,
            |
                0 <= j < second.len() && (#[trigger] second[j]).algorithm == strongest(first)
                    && second[j].digest == first[i].digest,
        forall|j: int|
            0 <= j < second.len() && (#[trigger] second[j]).algorithm == strongest(first)
                ==> exists|i: int|
                0 <= i < first.len() && (#[trigger] first[i]).algorithm == strongest(first)
                    && first[i].digest == second[j].digest,
    ensures
        verdict(first, message) == verdict(second, message),
{
    if matches(first, message) {
        let i = choose|i: int|
            0 <= i < first.len() && (#[trigger] first[i]).algorithm == strongest(first)
                && first[i].digest == message_digest(strongest(first), message);
        let j = choose|j: int|
            0 <= j < second.len() && (#[trigger] second[j]).algorithm == strongest(first)
                && second[j].digest == first[i].digest;
        assert(second[j].algorithm == strongest(second));
    }
    if matches(second, message) {
        let j = choose|j: int|
            0 <= j < second.len() && (#[trigger] second[j]).algorithm == strongest(second)
                && second[j].digest == message_digest(strongest(second), message);
        let i = choose|i: int|
            0 <= i < first.len() && (#[trigger] first[i]).algorithm == strongest(first)
                && first[i].digest == second[j].digest;
        assert(first[i].algorithm == strongest(first));
    }
}

/// Checks a stream of bytes, fed in pieces, against the digests claimed
/// for it.
pub struct IntegrityVerifier {
    expected: Integrity,
    builder: DigestBuilder,
}

impl IntegrityVerifier {
    /// The digests claimed.
    pub closed spec fn expected(&self) -> Seq<HashView> {
        self.expected@
    }

    /// The bytes fed so far, in order.
    pub closed spec fn fed(&self) -> Seq<u8> {
        self.builder.fed()
    }

    /// The digest that runs is that of the strongest algorithm claimed.
    pub closed spec fn wf(&self) -> bool {
        &&& self.builder.wf()
        &&& self.expected@.len() > 0
        &&& self.builder.algorithms() == seq![strongest(self.expected@)]
    }

    /// A verifier for the digests of `expected` that has been fed nothing.
    pub fn new(expected: Integrity) -> (verifier: IntegrityVerifier)
        requires
            expected@.len() > 0,
        ensures
            verifier.wf(),
            verifier.expected() == expected@,
            verifier.fed() == Seq::<u8>::empty(),
    {
        let algorithm = expected.pick_algorithm();
        let mut algorithms: Vec<Algorithm> = Vec::new();
        algorithms.push(algorithm);
        let builder = DigestBuilder::new(algorithms.as_slice());
        assert(algorithms@ =~= seq![algorithm]);
        IntegrityVerifier { expected, builder }
    }

    /// Feeds `bytes` to the verifier.
    pub fn feed(&mut self, bytes: &[u8])
        requires
            old(self).wf(),
        ensures
            final(self).wf(),
            final(self).expected() == old(self).expected(),
            final(self).fed() == old(self).fed() + bytes@,
    {
        self.builder.feed(bytes);
    }

    /// The strongest algorithm claimed, if the bytes fed have one of the
    /// digests claimed under it, and a mismatch if they have none.
    pub fn finish(self) -> (result: Result<Algorithm, SrisumError>)
        requires
            self.wf(),
        ensures
            result == verdict(self.expected(), self.fed()),
    {
        let ghost expected = self.expected@;
        let ghost fed = self.builder.fed();
        let computed = self.builder.finish();
        let algorithm = computed.hashes()[0].algorithm();
        let digest = computed.hashes()[0].digest();
        assert(computed@[0].algorithm == strongest(expected));
        assert(digest@ == message_digest(strongest(expected), fed));
        let claimed = self.expected.hashes();
        let mut i: usize = 0;
        while i < claimed.len()
            invariant
                i <= claimed@.len(),
                expected == self.expected(),
                fed == self.fed(),
                claimed@.len() == expected.len(),
                forall|j: int| 0 <= j < claimed@.len() ==> claimed@[j]@ == expected[j],
                algorithm == strongest(expected),
                digest@ == message_digest(strongest(expected), fed),
                forall|j: int|
                    0 <= j < i ==> !((#[trigger] expected[j]).algorithm == strongest(expected)
                        && expected[j].digest == message_digest(strongest(expected), fed)),
            decreases claimed@.len() - i,
        {
            if claimed[i].algorithm() == algorithm && same_bytes(claimed[i].digest(), digest) {
                assert(expected[i as int].algorithm == strongest(expected));
                return Ok(algorithm);
            }
            i += 1;
        }
        Err(SrisumError::IntegrityMismatch)
    }
}

/// Whether `a` and `b` hold the same bytes.
pub fn same_bytes(a: &Vec<u8>, b: &Vec<u8>) -> (same: bool)
    ensures
        same == (a@ == b@),
{
    if a.len() != b.len() {
        return false;
    }
    let mut i: usize = 0;
    while i < a.len()
        invariant
            i <= a.len(),
            a.len() == b.len(),
            forall|j: int| 0 <= j < i ==> a@[j] == b@[j],
        decreases a.len() - i,
    {
        if a[i] != b[i] {
            return false;
        }
        i += 1;
    }
    assert(a@ =~= b@);
    true
}

/// Checks `content` against the digests of `expected`.
pub fn check_file(content: &[u8], expected: Integrity) -> (result: Result<Algorithm, SrisumError>)
    requires
        expected@.len() > 0,
    ensures
        result == verdict(expected@, content@),
{
    let mut verifier = IntegrityVerifier::new(expected);
    verifier.feed(content);
    assert(Seq::<u8>::empty() + content@ =~= content@);
    verifier.finish()
}

} // verus!
