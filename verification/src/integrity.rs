//! Integrity values: digests tagged with their algorithm, and their text
//! form.
//!
//! The text form is one or more entries separated by white space. An entry
//! is the algorithm's token, `-`, the digest in base64 and, where the entry
//! has options, `?` and the options.

use crate::algorithm::{named, Algorithm};
use crate::base64::{decoding, encoding};
use crate::text::{
    chars_of, find, index_of, is_whitespace, join, leading_word, no_space, push_chars, string_of,
    words,
};
use vstd::prelude::*;

verus! {

/// One digest: the algorithm, the bytes of the digest, and options that
/// are carried along unread.
#[derive(Debug, PartialEq, Eq)]
pub struct Hash {
    algorithm: Algorithm,
    digest: Vec<u8>,
    options: Option<String>,
}

/// What a [`Hash`] holds.
pub struct HashView {
    pub algorithm: Algorithm,
    pub digest: Seq<u8>,
    pub options: Option<Seq<char>>,
}

impl HashView {
    /// The digest has the length of its algorithm, and the options hold no
    /// white space.
    pub open spec fn wf(self) -> bool {
        &&& self.digest.len() == self.algorithm.digest_len()
        &&& self.options matches Some(o) ==> no_space(o)
    }

    /// The entry that stands for the digest in an integrity string.
    pub open spec fn text(self) -> Seq<char> {
        self.algorithm.token() + seq!['-'] + encoding(self.digest) + match self.options {
            Some(o) => seq!['?'] + o,
            None => Seq::empty(),
        }
    }
}

impl View for Hash {
    type V = HashView;

    closed spec fn view(&self) -> HashView {
        HashView {
            algorithm: self.algorithm,
            digest: self.digest@,
            options: match self.options {
                Some(o) => Some(o@),
                None => None,
            },
        }
    }
}

impl Clone for Hash {
    fn clone(&self) -> (copy: Self)
        ensures
            copy@ == self@,
    {
        let options = match &self.options {
            Some(o) => Some(o.clone()),
            None => None,
        };
        Hash { algorithm: self.algorithm, digest: self.digest.clone(), options }
    }
}

impl Hash {
    /// Whether the digest has the length of its algorithm and the options
    /// hold no white space.
    pub open spec fn wf(&self) -> bool {
        self@.wf()
    }

    /// A digest of `algorithm` with the bytes `digest`, if they are as
    /// many as the algorithm gives and `options` hold no white space.
    pub fn new(algorithm: Algorithm, digest: Vec<u8>, options: Option<String>) -> (hash: Option<
        Hash,
    >)
        ensures
            ({
                let v = HashView {
                    algorithm,
                    digest: digest@,
                    options: match options {
                        Some(o) => Some(o@),
                        None => None,
                    },
                };
                match hash {
                    Some(h) => h@ == v && v.wf(),
                    None => !v.wf(),
                }
            }),
    {
        if digest.len() != algorithm.digest_len() {
            return None;
        }
        if let Some(o) = &options {
            let chars = chars_of(o.as_str());
            let mut i: usize = 0;
            while i < chars.len()
                invariant
                    i <= chars.len(),
                    chars@ == o@,
                    options == Some(*o),
                    forall|j: int| 0 <= j < i ==> !crate::text::is_space(#[trigger] chars@[j]),
                decreases chars.len() - i,
            {
                if is_whitespace(chars[i]) {
                    assert(crate::text::is_space(o@[i as int]));
                    return None;
                }
                i += 1;
            }
        }
        Some(Hash { algorithm, digest, options })
    }

    /// The algorithm of the digest.
    pub fn algorithm(&self) -> (algorithm: Algorithm)
        ensures
            algorithm == self@.algorithm,
    {
        self.algorithm
    }

    /// The bytes of the digest.
    pub fn digest(&self) -> (digest: &Vec<u8>)
        ensures
            digest@ == self@.digest,
    {
        &self.digest
    }

    /// The digest in base64.
    pub fn encoded_digest(&self) -> (text: String)
        ensures
            text@ == encoding(self@.digest),
    {
        let chars = crate::base64::encode(self.digest.as_slice());
        crate::text::string_of(chars.as_slice())
    }

    /// The options of the entry, if it has any.
    pub fn options(&self) -> (options: Option<&String>)
        ensures
            match options {
                Some(o) => self@.options == Some(o@),
                None => self@.options is None,
            },
    {
        self.options.as_ref()
    }

    /// Appends the entry that stands for the digest to `out`.
    pub fn write(&self, out: &mut String)
        ensures
            final(out)@ == old(out)@ + self@.text(),
    {
        out.append(self.algorithm.name());
        out.push('-');
        let chars = crate::base64::encode(self.digest.as_slice());
        push_chars(out, chars.as_slice());
        if let Some(o) = &self.options {
            out.push('?');
            out.append(o.as_str());
        }
        assert(final(out)@ =~= old(out)@ + self@.text());
    }

    /// The entry that stands for the digest in an integrity string.
    pub fn serialize(&self) -> (text: String)
        ensures
            text@ == self@.text(),
    {
        let mut out = String::new();
        self.write(&mut out);
        out
    }
}

/// Digests of one content, in the order in which they were added.
#[derive(Debug, PartialEq, Eq)]
pub struct Integrity {
    hashes: Vec<Hash>,
}

/// What each of `hashes` holds.
pub open spec fn views(hashes: Seq<Hash>) -> Seq<HashView> {
    Seq::new(hashes.len(), |i: int| hashes[i]@)
}

impl View for Integrity {
    type V = Seq<HashView>;

    closed spec fn view(&self) -> Seq<HashView> {
        views(self.hashes@)
    }
}

impl Clone for Integrity {
    fn clone(&self) -> (copy: Self)
        ensures
            copy@ == self@,
    {
        let mut hashes: Vec<Hash> = Vec::new();
        let mut i: usize = 0;
        while i < self.hashes.len()
            invariant
                i <= self.hashes.len(),
                hashes@.len() == i,
                forall|j: int| 0 <= j < i ==> hashes@[j]@ == self.hashes@[j]@,
            decreases self.hashes.len() - i,
        {
            hashes.push(self.hashes[i].clone());
            i += 1;
        }
        let copy = Integrity { hashes };
        assert(copy@ =~= self@);
        copy
    }
}

/// Why a text is no integrity string.
#[derive(Debug, Clone, Copy, PartialEq, Eq, Structural)]
pub enum ParseError {
    /// The text holds no entry.
    Empty,
    /// An entry has no `-` after its algorithm.
    MissingDigest,
    /// The token of an entry names none of the algorithms.
    UnknownAlgorithm,
    /// The digest of an entry is not base64.
    InvalidBase64,
    /// The digest of an entry does not have the length of its algorithm.
    WrongLength,
}

/// The digest that the entry `e` stands for. The token before the first
/// `-` names the algorithm; what follows, up to the first `?`, is the
/// digest in base64; what follows the `?` are the options.
pub open spec fn parse_entry(e: Seq<char>) -> Result<HashView, ParseError> {
    let dash = index_of(e, '-') as int;
    let rest = e.skip(dash + 1);
    let mark = index_of(rest, '?') as int;
    if dash >= e.len() {
        Err(ParseError::MissingDigest)
    } else {
        match named(e.take(dash)) {
            None => Err(ParseError::UnknownAlgorithm),
            Some(algorithm) => match decoding(rest.take(mark)) {
                None => Err(ParseError::InvalidBase64),
                Some(digest) => if digest.len() != algorithm.digest_len() {
                    Err(ParseError::WrongLength)
                } else {
                    Ok(
                        HashView {
                            algorithm,
                            digest,
                            options: if mark < rest.len() {
                                Some(rest.skip(mark + 1))
                            } else {
                                None
                            },
                        },
                    )
                },
            },
        }
    }
}

/// The digests that the entries `es` stand for, or what is wrong with the
/// first of them that stands for none.
pub open spec fn parse_entries(es: Seq<Seq<char>>) -> Result<Seq<HashView>, ParseError>
    decreases es.len(),
{
    if es.len() == 0 {
        Ok(Seq::empty())
    } else {
        match parse_entries(es.drop_last()) {
            Err(e) => Err(e),
            Ok(hashes) => match parse_entry(es.last()) {
                Err(e) => Err(e),
                Ok(hash) => Ok(hashes.push(hash)),
            },
        }
    }
}

/// The digests that the integrity string `s` stands for: those of its
/// words, of which there is at least one.
pub open spec fn parsed(s: Seq<char>) -> Result<Seq<HashView>, ParseError> {
    if words(s).len() == 0 {
        Err(ParseError::Empty)
    } else {
        parse_entries(words(s))
    }
}

/// The entry of a well-formed digest is one word, and stands for that
/// digest.
pub proof fn lemma_entry_round_trip(h: HashView)
    requires
        h.wf(),
    ensures
        parse_entry(h.text()) == Ok::<HashView, ParseError>(h),
        h.text().len() > 0,
        no_space(h.text()),
{
    let token = h.algorithm.token();
    let digest = encoding(h.digest);
    let options = match h.options {
        Some(o) => seq!['?'] + o,
        None => Seq::empty(),
    };
    let e = h.text();
    crate::algorithm::lemma_token(h.algorithm);
    crate::base64::lemma_encoding_chars(h.digest);
    crate::base64::lemma_decode_encode(h.digest);
    assert(e =~= token + (seq!['-'] + digest + options));
    crate::text::lemma_index_of_prefix(token, seq!['-'] + digest + options, '-');
    let dash = token.len() as int;
    let rest = e.skip(dash + 1);
    assert(rest =~= digest + options);
    crate::text::lemma_index_of_prefix(digest, options, '?');
    let mark = digest.len() as int;
    assert(e.take(dash) =~= token);
    assert(rest.take(mark) =~= digest);
    if h.options is Some {
        assert(rest.skip(mark + 1) =~= h.options.unwrap());
    }
    assert forall|i: int| 0 <= i < e.len() implies !crate::text::is_space(#[trigger] e[i]) by {
        if i < dash {
            assert(e[i] == token[i]);
        } else if i == dash {
        } else if i < dash + 1 + mark {
            assert(e[i] == digest[i - dash - 1]);
        } else if i == dash + 1 + mark {
        } else {
            assert(e[i] == h.options.unwrap()[i - dash - mark - 2]);
        }
    }
}

/// The entries of well-formed digests stand for those digests.
pub proof fn lemma_entries_round_trip(hashes: Seq<HashView>)
    requires
        all_wf(hashes),
    ensures
        parse_entries(entries(hashes)) == Ok::<Seq<HashView>, ParseError>(hashes),
    decreases hashes.len(),
{
    if hashes.len() == 0 {
        assert(entries(hashes) =~= Seq::empty());
        assert(hashes =~= Seq::empty());
    } else {
        let init = hashes.drop_last();
        assert forall|i: int| 0 <= i < init.len() implies (#[trigger] init[i]).wf() by {
            assert(init[i] == hashes[i]);
        }
        lemma_entries_round_trip(init);
        assert(hashes.last().wf());
        lemma_entry_round_trip(hashes.last());
        assert(entries(hashes).drop_last() =~= entries(init));
        assert(entries(hashes).last() == hashes.last().text());
        assert(init.push(hashes.last()) =~= hashes);
    }
}

/// Reading the integrity string of an integrity value gives the value
/// back: the same digests, in the same order.
pub proof fn lemma_parse_serialize(hashes: Seq<HashView>)
    requires
        hashes.len() > 0,
        all_wf(hashes),
    ensures
        parsed(serialized(hashes)) == Ok::<Seq<HashView>, ParseError>(hashes),
{
    let parts = entries(hashes);
    assert forall|i: int| 0 <= i < parts.len() implies (#[trigger] parts[i]).len() > 0 && no_space(
        parts[i],
    ) by {
        assert(hashes[i].wf());
        lemma_entry_round_trip(hashes[i]);
    }
    crate::text::lemma_words_join(parts);
    lemma_entries_round_trip(hashes);
}

/// Once an entry stands for no digest, later entries change nothing.
proof fn lemma_parse_entries_error(a: Seq<Seq<char>>, b: Seq<Seq<char>>)
    requires
        parse_entries(a) is Err,
    ensures
        parse_entries(a + b) == parse_entries(a),
    decreases b.len(),
{
    if b.len() == 0 {
        assert(a + b =~= a);
    } else {
        assert((a + b).drop_last() =~= a + b.drop_last());
        lemma_parse_entries_error(a, b.drop_last());
    }
}

/// The digest that the entry `e` stands for.
fn read_entry(e: &[char]) -> (hash: Result<Hash, ParseError>)
    requires
        no_space(e@),
    ensures
        match hash {
            Ok(h) => parse_entry(e@) == Ok::<HashView, ParseError>(h@) && h.wf(),
            Err(error) => parse_entry(e@) == Err::<HashView, ParseError>(error),
        },
{
    let dash = find(e, '-');
    if dash >= e.len() {
        return Err(ParseError::MissingDigest);
    }
    let rest = &e[dash + 1..e.len()];
    assert(rest@ =~= e@.skip(dash + 1));
    let mark = find(rest, '?');
    let token = &e[0..dash];
    assert(token@ =~= e@.take(dash as int));
    let algorithm = match Algorithm::from_token(token) {
        None => {
            return Err(ParseError::UnknownAlgorithm);
        },
        Some(a) => a,
    };
    let encoded = &rest[0..mark];
    assert(encoded@ =~= rest@.take(mark as int));
    let digest = match crate::base64::decode(encoded) {
        None => {
            return Err(ParseError::InvalidBase64);
        },
        Some(d) => d,
    };
    if digest.len() != algorithm.digest_len() {
        return Err(ParseError::WrongLength);
    }
    let options = if mark < rest.len() {
        let o = &rest[mark + 1..rest.len()];
        assert(o@ =~= rest@.skip(mark + 1));
        assert forall|i: int| 0 <= i < o@.len() implies !crate::text::is_space(
            #[trigger] o@[i],
        ) by {
            assert(o@[i] == e@[dash + 1 + mark + 1 + i]);
        }
        Some(string_of(o))
    } else {
        None
    };
    Ok(Hash { algorithm, digest, options })
}

/// Whether every digest of `hashes` has the length of its algorithm and
/// options without white space.
pub open spec fn all_wf(hashes: Seq<HashView>) -> bool {
    forall|i: int| 0 <= i < hashes.len() ==> (#[trigger] hashes[i]).wf()
}

/// The texts of the entries of `hashes`.
pub open spec fn entries(hashes: Seq<HashView>) -> Seq<Seq<char>> {
    Seq::new(hashes.len(), |i: int| hashes[i].text())
}

/// The integrity string of `hashes`: their entries in order, one space
/// between each two.
pub open spec fn serialized(hashes: Seq<HashView>) -> Seq<char> {
    join(entries(hashes))
}

/// Whether a digest of `algorithm` is among `hashes`.
pub open spec fn has_algorithm(hashes: Seq<HashView>, algorithm: Algorithm) -> bool {
    exists|i: int| 0 <= i < hashes.len() && (#[trigger] hashes[i]).algorithm == algorithm
}

/// The strongest algorithm of which `hashes` holds a digest.
pub open spec fn strongest(hashes: Seq<HashView>) -> Algorithm {
    if has_algorithm(hashes, Algorithm::Sha512) {
        Algorithm::Sha512
    } else if has_algorithm(hashes, Algorithm::Sha384) {
        Algorithm::Sha384
    } else if has_algorithm(hashes, Algorithm::Sha256) {
        Algorithm::Sha256
    } else {
        Algorithm::Sha1
    }
}

impl Integrity {
    /// Whether every digest is well formed.
    pub open spec fn wf(&self) -> bool {
        all_wf(self@)
    }

    /// The integrity value of `hashes`, in their order.
    pub fn new(hashes: Vec<Hash>) -> (integrity: Integrity)
        ensures
            integrity@.len() == hashes@.len(),
            forall|i: int| 0 <= i < hashes@.len() ==> integrity@[i] == hashes@[i]@,
    {
        Integrity { hashes }
    }

    /// The digests, in order.
    pub fn hashes(&self) -> (hashes: &Vec<Hash>)
        ensures
            hashes@.len() == self@.len(),
            forall|i: int| 0 <= i < hashes@.len() ==> hashes@[i]@ == self@[i],
    {
        &self.hashes
    }

    /// The number of digests.
    pub fn len(&self) -> (len: usize)
        ensures
            len == self@.len(),
    {
        self.hashes.len()
    }

    /// The digests of `self` followed by those of `other`.
    pub fn concat(&self, other: &Integrity) -> (both: Integrity)
        ensures
            both@ == self@ + other@,
    {
        let mut hashes: Vec<Hash> = Vec::new();
        let mut i: usize = 0;
        while i < self.hashes.len()
            invariant
                i <= self.hashes.len(),
                hashes@.len() == i,
                forall|j: int| 0 <= j < i ==> hashes@[j]@ == self@[j],
            decreases self.hashes.len() - i,
        {
            hashes.push(self.hashes[i].clone());
            i += 1;
        }
        let mut k: usize = 0;
        while k < other.hashes.len()
            invariant
                k <= other.hashes.len(),
                hashes@.len() == self@.len() + k,
                forall|j: int| 0 <= j < self@.len() ==> hashes@[j]@ == self@[j],
                forall|j: int| 0 <= j < k ==> hashes@[self@.len() + j]@ == other@[j],
            decreases other.hashes.len() - k,
        {
            hashes.push(other.hashes[k].clone());
            k += 1;
        }
        let both = Integrity { hashes };
        assert(both@ =~= self@ + other@);
        both
    }

    /// The strongest algorithm of which there is a digest.
    pub fn pick_algorithm(&self) -> (algorithm: Algorithm)
        requires
            self@.len() > 0,
        ensures
            algorithm == strongest(self@),
            has_algorithm(self@, algorithm),
    {
        let mut best = self.hashes[0].algorithm;
        let mut i: usize = 1;
        assert(self@[0].algorithm == best);
        while i < self.hashes.len()
            invariant
                1 <= i <= self.hashes.len(),
                has_algorithm(self@, best),
                forall|j: int| 0 <= j < i ==> self@[j].algorithm.strength() <= best.strength(),
            decreases self.hashes.len() - i,
        {
            let a = self.hashes[i].algorithm;
            assert(self@[i as int].algorithm == a);
            if a.strength() > best.strength() {
                best = a;
            }
            i += 1;
        }
        proof {
            assert forall|a: Algorithm| has_algorithm(self@, a) implies a.strength()
                <= best.strength() by {
                let j = choose|j: int| 0 <= j < self@.len() && (#[trigger] self@[j]).algorithm == a;
                assert(self@[j].algorithm.strength() <= best.strength());
            }
        }
        best
    }

    /// The integrity value that the integrity string `text` stands for:
    /// one digest for each of its words, in their order. It stands for none
    /// where it has no word or one of its words is no entry.
    pub fn parse(text: &str) -> (integrity: Result<Integrity, ParseError>)
        ensures
            match integrity {
                Ok(i) => parsed(text@) == Ok::<Seq<HashView>, ParseError>(i@) && i.wf() && i@.len()
                    > 0,
                Err(e) => parsed(text@) == Err::<Seq<HashView>, ParseError>(e),
            },
    {
        let chars = chars_of(text);
        Integrity::parse_chars(chars.as_slice())
    }

    /// The integrity value that the characters `s` stand for.
    pub fn parse_chars(s: &[char]) -> (integrity: Result<Integrity, ParseError>)
        ensures
            match integrity {
                Ok(i) => parsed(s@) == Ok::<Seq<HashView>, ParseError>(i@) && i.wf() && i@.len()
                    > 0,
                Err(e) => parsed(s@) == Err::<Seq<HashView>, ParseError>(e),
            },
    {
        let mut hashes: Vec<Hash> = Vec::new();
        let ghost mut done: Seq<Seq<char>> = Seq::empty();
        let mut pos: usize = 0;
        assert(s@.skip(0) =~= s@);
        assert(views(hashes@) =~= Seq::empty());
        assert(words(s@) =~= done + words(s@.skip(0)));
        while pos < s.len()
            invariant
                pos <= s.len(),
                words(s@) == done + words(s@.skip(pos as int)),
                parse_entries(done) == Ok::<Seq<HashView>, ParseError>(views(hashes@)),
                hashes@.len() == done.len(),
                all_wf(views(hashes@)),
            decreases s.len() - pos,
        {
            let rest = &s[pos..s.len()];
            assert(rest@ =~= s@.skip(pos as int));
            if is_whitespace(s[pos]) {
                assert(rest@.drop_first() =~= s@.skip(pos + 1));
                pos += 1;
            } else {
                let n = leading_word(rest);
                proof {
                    crate::text::lemma_word_len(rest@);
                }
                let word = &rest[0..n];
                assert(word@ =~= rest@.take(n as int));
                assert(rest@.skip(n as int) =~= s@.skip(pos + n));
                let ghost before = views(hashes@);
                match read_entry(word) {
                    Err(e) => {
                        proof {
                            let upto = done.push(word@);
                            assert(upto.drop_last() =~= done);
                            assert(words(s@) =~= upto + words(s@.skip(pos + n)));
                            lemma_parse_entries_error(upto, words(s@.skip(pos + n)));
                        }
                        return Err(e);
                    },
                    Ok(h) => {
                        hashes.push(h);
                        proof {
                            assert(done.push(word@).drop_last() =~= done);
                            assert(views(hashes@) =~= before.push(h@));
                            assert(words(s@) =~= done.push(word@) + words(s@.skip(pos + n)));
                            done = done.push(word@);
                        }
                        pos += n;
                    },
                }
            }
        }
        assert(words(s@) =~= done);
        if hashes.len() == 0 {
            Err(ParseError::Empty)
        } else {
            Ok(Integrity { hashes })
        }
    }

    /// The integrity string: the entries in order, one space between each
    /// two.
    pub fn serialize(&self) -> (text: String)
        ensures
            text@ == serialized(self@),
    {
        let mut out = String::new();
        let mut i: usize = 0;
        while i < self.hashes.len()
            invariant
                i <= self.hashes.len(),
                out@ == join(entries(self@).take(i as int)),
            decreases self.hashes.len() - i,
        {
            proof {
                crate::text::lemma_join_push(entries(self@).take(i as int), self@[i as int].text());
                assert(entries(self@).take(i + 1) =~= entries(self@).take(i as int).push(
                    self@[i as int].text(),
                ));
            }
            if i > 0 {
                out.push(' ');
            }
            self.hashes[i].write(&mut out);
            i += 1;
        }
        assert(entries(self@).take(i as int) =~= entries(self@));
        out
    }
}

} // verus!
