//! Computing the digests of a stream of bytes under several algorithms at
//! once.

use crate::algorithm::Algorithm;
use crate::hasher::{self, absorbed, configured, message_digest};
use crate::integrity::{HashView, Integrity};
use crate::text::chars_of;
use ssri::IntegrityOpts;
use vstd::prelude::*;

verus! {

/// The digests of a stream of bytes under the algorithms asked for. The
/// bytes are fed in pieces, in the order of the stream.
pub struct DigestBuilder {
    algorithms: Vec<Algorithm>,
    states: Vec<IntegrityOpts>,
    fed: Ghost<Seq<u8>>,
}

/// The integrity value of `message` under `algorithms`: one digest for
/// each of them, in their order, without options.
pub open spec fn digest_record(algorithms: Seq<Algorithm>, message: Seq<u8>) -> Seq<HashView> {
    Seq::new(
        algorithms.len(),
        |i: int|
            HashView {
                algorithm: algorithms[i],
                digest: message_digest(algorithms[i], message),
                options: None,
            },
    )
}

/// Hashing is a function of the algorithms and the bytes: two integrity
/// values computed from the same bytes under the same algorithms are the
/// same, digest for digest, and so are their integrity strings.
pub proof fn lemma_same_input_same_digests(
    first: Integrity,
    second: Integrity,
    algorithms: Seq<Algorithm>,
    message: Seq<u8>,
)
    requires
        first@ == digest_record(algorithms, message),
        second@ == digest_record(algorithms, message),
    ensures
        first@ == second@,
        crate::integrity::serialized(first@) == crate::integrity::serialized(second@),
{
}

/// Writing the integrity value of a message as an integrity string and
/// reading that string gives the value back: the same digests, in the same
/// order.
pub proof fn lemma_round_trip(algorithms: Seq<Algorithm>, message: Seq<u8>)
    requires
        algorithms.len() > 0,
        crate::integrity::all_wf(digest_record(algorithms, message)),
    ensures
        crate::integrity::parsed(
            crate::integrity::serialized(digest_record(algorithms, message)),
        ) == Ok::<Seq<HashView>, crate::integrity::ParseError>(
            digest_record(algorithms, message),
        ),
{
    crate::integrity::lemma_parse_serialize(digest_record(algorithms, message));
}

impl DigestBuilder {
    /// The algorithms asked for, in order. One asked for twice is there
    /// twice.
    pub closed spec fn algorithms(&self) -> Seq<Algorithm> {
        self.algorithms@
    }

    /// The bytes fed so far, in order.
    pub closed spec fn fed(&self) -> Seq<u8> {
        self.fed@
    }

    /// There is at least one algorithm, and the running digest of each is
    /// set up for it and has taken in the bytes fed so far.
    pub closed spec fn wf(&self) -> bool {
        &&& self.algorithms@.len() > 0
        &&& self.states@.len() == self.algorithms@.len()
        &&& forall|i: int|
            0 <= i < self.states@.len() ==> configured(#[trigger] self.states@[i])
                == seq![self.algorithms@[i]] && absorbed(self.states@[i]) == self.fed@
    }

    /// A builder for `algorithms` that has been fed nothing.
    pub fn new(algorithms: &[Algorithm]) -> (builder: DigestBuilder)
        requires
            algorithms@.len() > 0,
        ensures
            builder.wf(),
            builder.algorithms() == algorithms@,
            builder.fed() == Seq::<u8>::empty(),
    {
        let mut list: Vec<Algorithm> = Vec::new();
        let mut states: Vec<IntegrityOpts> = Vec::new();
        let mut i: usize = 0;
        while i < algorithms.len()
            invariant
                i <= algorithms.len(),
                list@ == algorithms@.take(i as int),
                states@.len() == i,
                forall|j: int|
                    0 <= j < i ==> configured(#[trigger] states@[j]) == seq![algorithms@[j]]
                        && absorbed(states@[j]) == Seq::<u8>::empty(),
            decreases algorithms.len() - i,
        {
            list.push(algorithms[i]);
            states.push(hasher::start(algorithms[i]));
            i += 1;
        }
        assert(algorithms@.take(i as int) =~= algorithms@);
        DigestBuilder { algorithms: list, states, fed: Ghost(Seq::empty()) }
    }

    /// Feeds `bytes` to the digest of every algorithm asked for.
    pub fn feed(&mut self, bytes: &[u8])
        requires
            old(self).wf(),
        ensures
            final(self).wf(),
            final(self).algorithms() == old(self).algorithms(),
            final(self).fed() == old(self).fed() + bytes@,
    {
        let mut i: usize = 0;
        while i < self.states.len()
            invariant
                i <= self.states@.len(),
                self.algorithms == old(self).algorithms,
                self.algorithms@.len() > 0,
                self.fed == old(self).fed,
                self.states@.len() == self.algorithms@.len(),
                forall|j: int|
                    0 <= j < self.states@.len() ==> configured(#[trigger] self.states@[j])
                        == seq![self.algorithms@[j]],
                forall|j: int|
                    0 <= j < i ==> absorbed(#[trigger] self.states@[j]) == self.fed@ + bytes@,
                forall|j: int|
                    i <= j < self.states@.len() ==> absorbed(#[trigger] self.states@[j])
                        == self.fed@,
            decreases self.states@.len() - i,
        {
            hasher::absorb(&mut self.states[i], bytes);
            i += 1;
        }
        self.fed = Ghost(self.fed@ + bytes@);
    }

    /// The integrity value of the bytes fed: one digest for each algorithm
    /// asked for, in the order in which they were asked for.
    pub fn finish(self) -> (integrity: Integrity)
        requires
            self.wf(),
        ensures
            integrity@ == digest_record(self.algorithms(), self.fed()),
            integrity.wf(),
            crate::integrity::parsed(crate::integrity::serialized(integrity@)) == Ok::<
                Seq<HashView>,
                crate::integrity::ParseError,
            >(integrity@),
    {
        let ghost algorithms = self.algorithms@;
        let ghost fed = self.fed@;
        let mut states = self.states;
        let mut ordered: Vec<crate::integrity::Hash> = Vec::new();
        let mut i: usize = 0;
        while i < self.algorithms.len()
            invariant
                i <= algorithms.len(),
                self.algorithms@ == algorithms,
                states@.len() == algorithms.len() - i,
                forall|j: int|
                    0 <= j < states@.len() ==> configured(#[trigger] states@[j])
                        == seq![algorithms[i + j]] && absorbed(states@[j]) == fed,
                ordered@.len() == i,
                forall|j: int|
                    0 <= j < i ==> (#[trigger] ordered@[j])@ == digest_record(algorithms, fed)[j]
                        && ordered@[j].wf(),
            decreases algorithms.len() - i,
        {
            let state = states.remove(0);
            let text = hasher::finish(state);
            let chars = chars_of(text.as_str());
            let digest = crate::base64::decode(chars.as_slice()).unwrap();
            let hash = crate::integrity::Hash::new(self.algorithms[i], digest, None).unwrap();
            ordered.push(hash);
            i += 1;
        }
        let integrity = Integrity::new(ordered);
        assert(integrity@ =~= digest_record(algorithms, fed));
        proof {
            crate::integrity::lemma_parse_serialize(integrity@);
        }
        integrity
    }
}

} // verus!
