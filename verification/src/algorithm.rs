//! The digest algorithms and their order of strength.

use crate::text::chars_of;
use vstd::prelude::*;

verus! {

/// A digest algorithm.
#[derive(Debug, Clone, Copy, PartialEq, Eq, Structural, Hash)]
pub enum Algorithm {
    Sha1,
    Sha256,
    Sha384,
    Sha512,
}

/// `c` in lower case, where it is an upper-case letter of ASCII.
pub open spec fn lower(c: char) -> char {
    if 'A' <= c <= 'Z' {
        ((c as u8) + 32) as char
    } else {
        c
    }
}

/// `s` with its upper-case letters of ASCII in lower case.
pub open spec fn lowered(s: Seq<char>) -> Seq<char> {
    Seq::new(s.len(), |i: int| lower(s[i]))
}

/// The algorithm that the token `t` names, whatever the case of its
/// letters.
pub open spec fn named(t: Seq<char>) -> Option<Algorithm> {
    let l = lowered(t);
    if l == Algorithm::Sha1.token() {
        Some(Algorithm::Sha1)
    } else if l == Algorithm::Sha256.token() {
        Some(Algorithm::Sha256)
    } else if l == Algorithm::Sha384.token() {
        Some(Algorithm::Sha384)
    } else if l == Algorithm::Sha512.token() {
        Some(Algorithm::Sha512)
    } else {
        None
    }
}

impl Algorithm {
    /// The rank of the algorithm by strength: a stronger one has a higher
    /// rank.
    pub open spec fn spec_strength(self) -> u8 {
        match self {
            Algorithm::Sha1 => 1,
            Algorithm::Sha256 => 2,
            Algorithm::Sha384 => 3,
            Algorithm::Sha512 => 4,
        }
    }

    /// The number of bytes of a digest of the algorithm.
    pub open spec fn spec_digest_len(self) -> usize {
        match self {
            Algorithm::Sha1 => 20,
            Algorithm::Sha256 => 32,
            Algorithm::Sha384 => 48,
            Algorithm::Sha512 => 64,
        }
    }

    /// The token that names the algorithm in an integrity string.
    pub open spec fn token(self) -> Seq<char> {
        match self {
            Algorithm::Sha1 => seq!['s', 'h', 'a', '1'],
            Algorithm::Sha256 => seq!['s', 'h', 'a', '2', '5', '6'],
            Algorithm::Sha384 => seq!['s', 'h', 'a', '3', '8', '4'],
            Algorithm::Sha512 => seq!['s', 'h', 'a', '5', '1', '2'],
        }
    }

    /// The rank of the algorithm by strength.
    #[verifier::when_used_as_spec(spec_strength)]
    pub fn strength(self) -> (rank: u8)
        ensures
            rank == self.spec_strength(),
    {
        match self {
            Algorithm::Sha1 => 1,
            Algorithm::Sha256 => 2,
            Algorithm::Sha384 => 3,
            Algorithm::Sha512 => 4,
        }
    }

    /// The number of bytes of a digest of the algorithm.
    #[verifier::when_used_as_spec(spec_digest_len)]
    pub fn digest_len(self) -> (len: usize)
        ensures
            len == self.spec_digest_len(),
    {
        match self {
            Algorithm::Sha1 => 20,
            Algorithm::Sha256 => 32,
            Algorithm::Sha384 => 48,
            Algorithm::Sha512 => 64,
        }
    }

    /// The token that names the algorithm.
    pub fn name(self) -> (name: &'static str)
        ensures
            name@ == self.token(),
    {
        proof {
            reveal_strlit("sha1");
            reveal_strlit("sha256");
            reveal_strlit("sha384");
            reveal_strlit("sha512");
        }
        let name = match self {
            Algorithm::Sha1 => "sha1",
            Algorithm::Sha256 => "sha256",
            Algorithm::Sha384 => "sha384",
            Algorithm::Sha512 => "sha512",
        };
        assert(name@ =~= self.token());
        name
    }

    /// Whether `t` names the algorithm, whatever the case of its letters.
    pub fn is_named(self, t: &[char]) -> (b: bool)
        ensures
            b == (lowered(t@) == self.token()),
    {
        let name = chars_of(self.name());
        if t.len() != name.len() {
            return false;
        }
        let mut i: usize = 0;
        while i < t.len()
            invariant
                i <= t.len(),
                t.len() == name.len(),
                name@ == self.token(),
                forall|j: int| 0 <= j < i ==> lower(t@[j]) == name@[j],
            decreases t.len() - i,
        {
            let c = t[i];
            let l = if 'A' <= c && c <= 'Z' {
                ((c as u8) + 32) as char
            } else {
                c
            };
            if l != name[i] {
                assert(lowered(t@)[i as int] != self.token()[i as int]);
                return false;
            }
            i += 1;
        }
        assert(lowered(t@) =~= self.token());
        true
    }

    /// The algorithm that the token `t` names, whatever the case of its
    /// letters, if it names one.
    pub fn from_token(t: &[char]) -> (algorithm: Option<Algorithm>)
        ensures
            algorithm == named(t@),
    {
        if Algorithm::Sha1.is_named(t) {
            Some(Algorithm::Sha1)
        } else if Algorithm::Sha256.is_named(t) {
            Some(Algorithm::Sha256)
        } else if Algorithm::Sha384.is_named(t) {
            Some(Algorithm::Sha384)
        } else if Algorithm::Sha512.is_named(t) {
            Some(Algorithm::Sha512)
        } else {
            None
        }
    }
}

/// The token of an algorithm names it, and holds neither `-` nor white
/// space.
pub proof fn lemma_token(a: Algorithm)
    ensures
        named(a.token()) == Some(a),
        a.token().len() > 0,
        forall|i: int| 0 <= i < a.token().len() ==> a.token()[i] != '-',
        crate::text::no_space(a.token()),
{
    assert(lowered(a.token()) =~= a.token());
}

} // verus!
