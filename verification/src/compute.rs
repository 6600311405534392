//! Computing the digests of inputs and the lines that show them.

use crate::algorithm::Algorithm;
use crate::builder::{digest_record, DigestBuilder};
use crate::checklist::texts;
use crate::integrity::{serialized, HashView, Integrity};
use crate::text::chars_of;
use crate::CliArgs;
use vstd::prelude::*;
use vstd::utf8::encode_utf8;

verus! {

/// The algorithm whose token is `name`, letter for letter.
pub open spec fn requested(name: Seq<char>) -> Option<Algorithm> {
    if name == Algorithm::Sha1.token() {
        Some(Algorithm::Sha1)
    } else if name == Algorithm::Sha256.token() {
        Some(Algorithm::Sha256)
    } else if name == Algorithm::Sha384.token() {
        Some(Algorithm::Sha384)
    } else if name == Algorithm::Sha512.token() {
        Some(Algorithm::Sha512)
    } else {
        None
    }
}

/// Whether each of `names` is the token of an algorithm.
pub open spec fn all_requested(names: Seq<Seq<char>>) -> bool {
    forall|i: int| 0 <= i < names.len() ==> requested(#[trigger] names[i]) is Some
}

/// The algorithms that `names` name, in order.
pub open spec fn requested_all(names: Seq<Seq<char>>) -> Seq<Algorithm> {
    Seq::new(names.len(), |i: int| requested(names[i]).unwrap())
}

/// Whether `a` and `b` hold the same characters.
fn same_chars(a: &[char], b: &[char]) -> (same: bool)
    ensures
        same == (a@ == b@),
{
    if a.len() != b.len() {
        return false;
    }
    let mut i: usize = 0;
    while i < a.len()
        invariant
            i <= a.len(),
            a.len() == b.len(),
            forall|j: int| 0 <= j < i ==> a@[j] == b@[j],
        decreases a.len() - i,
    {
        if a[i] != b[i] {
            return false;
        }
        i += 1;
    }
    assert(a@ =~= b@);
    true
}

/// The algorithm whose token is `name`, letter for letter, if there is
/// one.
pub fn requested_algorithm(name: &str) -> (algorithm: Option<Algorithm>)
    ensures
        algorithm == requested(name@),
{
    let chars = chars_of(name);
    if same_chars(chars.as_slice(), chars_of(Algorithm::Sha1.name()).as_slice()) {
        Some(Algorithm::Sha1)
    } else if same_chars(chars.as_slice(), chars_of(Algorithm::Sha256.name()).as_slice()) {
        Some(Algorithm::Sha256)
    } else if same_chars(chars.as_slice(), chars_of(Algorithm::Sha384.name()).as_slice()) {
        Some(Algorithm::Sha384)
    } else if same_chars(chars.as_slice(), chars_of(Algorithm::Sha512.name()).as_slice()) {
        Some(Algorithm::Sha512)
    } else {
        None
    }
}

/// The algorithms that `names` name, in order, if each of them is the
/// token of one.
pub fn requested_algorithms(names: &Vec<String>) -> (algorithms: Option<Vec<Algorithm>>)
    ensures
        match algorithms {
            Some(list) => all_requested(texts(names@)) && list@ == requested_all(texts(names@)),
            None => !all_requested(texts(names@)),
        },
{
    let mut list: Vec<Algorithm> = Vec::new();
    let mut i: usize = 0;
    while i < names.len()
        invariant
            i <= names.len(),
            list@.len() == i,
            forall|j: int|
                0 <= j < i ==> requested(#[trigger] texts(names@)[j]) == Some(list@[j]),
        decreases names.len() - i,
    {
        match requested_algorithm(names[i].as_str()) {
            Some(algorithm) => {
                list.push(algorithm);
            },
            None => {
                assert(requested(texts(names@)[i as int]) is None);
                return None;
            },
        }
        i += 1;
    }
    assert(list@ =~= requested_all(texts(names@)));
    Some(list)
}

/// The integrity value of `content` under the algorithms that `args`
/// names.
pub fn hash_file(content: &[u8], args: &CliArgs) -> (sri: Integrity)
    requires
        args.algorithms@.len() > 0,
        all_requested(texts(args.algorithms@)),
    ensures
        sri@ == digest_record(requested_all(texts(args.algorithms@)), content@),
        sri.wf(),
{
    let algorithms = requested_algorithms(&args.algorithms).unwrap();
    let mut builder = DigestBuilder::new(algorithms.as_slice());
    builder.feed(content);
    assert(Seq::<u8>::empty() + content@ =~= content@);
    builder.finish()
}

/// The line that shows the digests `hashes` of the input named `target`:
/// the integrity string, then a space and the name, byte for byte, unless
/// `digest_only` is set.
pub open spec fn output_line(args: CliArgs, target: Seq<u8>, hashes: Seq<HashView>) -> Seq<u8> {
    if args.digest_only {
        encode_utf8(serialized(hashes))
    } else {
        encode_utf8(serialized(hashes)) + seq![0x20u8] + target
    }
}

/// The line that shows the digests `sri` of the input named `target`.
pub fn compute_line(args: &CliArgs, target: &[u8], sri: &Integrity) -> (line: Vec<u8>)
    ensures
        line@ == output_line(*args, target@, sri@),
{
    let text = sri.serialize();
    let mut line = text.as_str().as_bytes_vec();
    if !args.digest_only {
        line.push(0x20u8);
        let mut i: usize = 0;
        while i < target.len()
            invariant
                i <= target.len(),
                line@ == encode_utf8(serialized(sri@)) + seq![0x20u8] + target@.take(i as int),
            decreases target.len() - i,
        {
            line.push(target[i]);
            assert(target@.take(i + 1) =~= target@.take(i as int).push(target@[i as int]));
            i += 1;
        }
        assert(target@.take(i as int) =~= target@);
    }
    line
}

/// The lines that show the digests of the inputs that `args` names, one
/// for each input in order, where `contents` holds what each of them
/// holds.
pub fn compute(args: &CliArgs, contents: &[Vec<u8>]) -> (lines: Vec<Vec<u8>>)
    requires
        args.algorithms@.len() > 0,
        all_requested(texts(args.algorithms@)),
        contents@.len() == args.files@.len(),
    ensures
        lines@.len() == args.files@.len(),
        forall|i: int|
            0 <= i < lines@.len() ==> (#[trigger] lines@[i])@ == output_line(
                *args,
                args.files@[i]@,
                digest_record(requested_all(texts(args.algorithms@)), contents@[i]@),
            ),
{
    let mut lines: Vec<Vec<u8>> = Vec::new();
    let mut i: usize = 0;
    while i < contents.len()
        invariant
            i <= contents@.len(),
            args.algorithms@.len() > 0,
            all_requested(texts(args.algorithms@)),
            contents@.len() == args.files@.len(),
            lines@.len() == i,
            forall|j: int|
                0 <= j < i ==> (#[trigger] lines@[j])@ == output_line(
                    *args,
                    args.files@[j]@,
                    digest_record(requested_all(texts(args.algorithms@)), contents@[j]@),
                ),
        decreases contents@.len() - i,
    {
        let sri = hash_file(contents[i].as_slice(), args);
        lines.push(compute_line(args, args.files[i].as_slice(), &sri));
        i += 1;
    }
    lines
}

} // verus!
