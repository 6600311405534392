use srisum::algorithm::Algorithm;
use srisum::builder::DigestBuilder;
use srisum::integrity::Integrity;

fn digests_of(algorithms: &[Algorithm], pieces: &[&[u8]]) -> Integrity {
    let mut builder = DigestBuilder::new(algorithms);
    for piece in pieces {
        builder.feed(piece);
    }
    builder.finish()
}

fn hex(bytes: &[u8]) -> String {
    let mut text = String::new();
    for byte in bytes {
        text.push_str(&format!("{:02x}", byte));
    }
    text
}

#[test]
fn empty_input_sha1() {
    let sri = digests_of(&[Algorithm::Sha1], &[]);
    assert_eq!(sri.serialize(), "sha1-2jmj7l5rSw0yVb/vlWAYkK/YBwk=");
    assert_eq!(
        hex(sri.hashes()[0].digest()),
        "da39a3ee5e6b4b0d3255bfef95601890afd80709"
    );
}

#[test]
fn empty_input_sha256() {
    let sri = digests_of(&[Algorithm::Sha256], &[]);
    assert_eq!(
        sri.serialize(),
        "sha256-47DEQpj8HBSa+/TImW+5JCeuQeRkm5NMpJWZG3hSuFU="
    );
    assert_eq!(
        hex(sri.hashes()[0].digest()),
        "e3b0c44298fc1c149afbf4c8996fb92427ae41e4649b934ca495991b7852b855"
    );
}

#[test]
fn empty_input_sha384() {
    let sri = digests_of(&[Algorithm::Sha384], &[]);
    assert_eq!(
        sri.serialize(),
        "sha384-OLBgp1GsljhM2TJ+sbHjaiH9txEUvgdDTAzHv2P24donTt6/529l+9Ua0vFImLlb"
    );
    assert_eq!(
        hex(sri.hashes()[0].digest()),
        "38b060a751ac96384cd9327eb1b1e36a21fdb71114be07434c0cc7bf63f6e1da274edebfe76f65fbd51ad2f14898b95b"
    );
}

#[test]
fn empty_input_sha512() {
    let sri = digests_of(&[Algorithm::Sha512], &[]);
    assert_eq!(
        sri.serialize(),
        "sha512-z4PhNX7vuL3xVChQ1m2AB9Yg5AULVxXcg/SpIdNs6c5H0NE8XYXysP+DGNKHfuwvY7kxvUdBeoGlODJ6+SfaPg=="
    );
    assert_eq!(
        hex(sri.hashes()[0].digest()),
        "cf83e1357eefb8bdf1542850d66d8007d620e4050b5715dc83f4a921d36ce9ce47d0d13c5d85f2b0ff8318d2877eec2f63b931bd47417a81a538327af927da3e"
    );
}

#[test]
fn feeding_an_empty_piece_changes_nothing() {
    let sri = digests_of(&[Algorithm::Sha256], &[b"", b"hello", b""]);
    assert_eq!(
        sri.serialize(),
        "sha256-LPJNul+wow4m6DsqxbninhsWHlwfp0JecwQzYpOLmCQ="
    );
}

#[test]
fn digests_come_in_the_order_asked_for() {
    let sri = digests_of(&[Algorithm::Sha1, Algorithm::Sha256], &[b"hello world"]);
    assert_eq!(
        sri.serialize(),
        "sha1-Kq5sNclPz7QV2+lfQIuc6R7oRu0= sha256-uU0nuZNNPgilLlLX2n2r+sSE7+N6U4DukIj3rOLvzek="
    );
    let sri = digests_of(&[Algorithm::Sha256, Algorithm::Sha1], &[b"hello world"]);
    assert_eq!(
        sri.serialize(),
        "sha256-uU0nuZNNPgilLlLX2n2r+sSE7+N6U4DukIj3rOLvzek= sha1-Kq5sNclPz7QV2+lfQIuc6R7oRu0="
    );
}

#[test]
fn every_algorithm_on_hello_world() {
    let sri = digests_of(
        &[
            Algorithm::Sha512,
            Algorithm::Sha384,
            Algorithm::Sha256,
            Algorithm::Sha1,
        ],
        &[b"hello world"],
    );
    assert_eq!(
        sri.serialize(),
        "sha512-MJ7MSJwS1utMxA9QyQLytNDtd+5RGnx6m808qG1M2G+YndNbxf9JlnDaNCVbRbDP2DDoH2Bdz33FVC6TrpzXbw== \
         sha384-/b2OdaZ/KfcBpOBAOF4uI5hjA+oQI5IRr5B/y7g1eLPkF8txzmRu/QgZ3YwIjeG9 \
         sha256-uU0nuZNNPgilLlLX2n2r+sSE7+N6U4DukIj3rOLvzek= \
         sha1-Kq5sNclPz7QV2+lfQIuc6R7oRu0="
    );
    assert_eq!(sri.hashes()[0].digest().len(), 64);
    assert_eq!(sri.hashes()[1].digest().len(), 48);
    assert_eq!(sri.hashes()[2].digest().len(), 32);
    assert_eq!(sri.hashes()[3].digest().len(), 20);
}

#[test]
fn an_algorithm_asked_for_twice_gives_two_digests() {
    let sri = digests_of(&[Algorithm::Sha256, Algorithm::Sha256], &[b"hello"]);
    assert_eq!(sri.len(), 2);
    assert_eq!(
        sri.serialize(),
        "sha256-LPJNul+wow4m6DsqxbninhsWHlwfp0JecwQzYpOLmCQ= sha256-LPJNul+wow4m6DsqxbninhsWHlwfp0JecwQzYpOLmCQ="
    );
}

#[test]
fn pieces_are_taken_in_order() {
    let whole = digests_of(&[Algorithm::Sha512], &[b"hello world"]);
    let pieces = digests_of(&[Algorithm::Sha512], &[b"hel", b"lo ", b"", b"world"]);
    let swapped = digests_of(&[Algorithm::Sha512], &[b"world", b"hello "]);
    assert_eq!(whole.serialize(), pieces.serialize());
    assert_ne!(whole.serialize(), swapped.serialize());
}

#[test]
fn hashing_twice_gives_the_same_value() {
    let algorithms = [Algorithm::Sha1, Algorithm::Sha384];
    let first = digests_of(&algorithms, &[b"the same bytes"]);
    let second = digests_of(&algorithms, &[b"the same bytes"]);
    assert_eq!(first.len(), second.len());
    for i in 0..first.len() {
        assert_eq!(first.hashes()[i].algorithm(), second.hashes()[i].algorithm());
        assert_eq!(first.hashes()[i].digest(), second.hashes()[i].digest());
        assert!(first.hashes()[i].options().is_none());
    }
    assert_eq!(first.serialize(), second.serialize());
}

#[test]
fn round_trip_of_computed_digests() {
    let algorithms = [Algorithm::Sha1, Algorithm::Sha512, Algorithm::Sha256];
    let sri = digests_of(&algorithms, &[b"round", b" trip"]);
    let parsed = Integrity::parse(&sri.serialize()).unwrap();
    assert_eq!(parsed.len(), 3);
    for i in 0..3 {
        assert_eq!(parsed.hashes()[i].algorithm(), algorithms[i]);
        assert_eq!(parsed.hashes()[i].digest(), sri.hashes()[i].digest());
        assert!(parsed.hashes()[i].options().is_none());
    }
    assert_eq!(parsed.serialize(), sri.serialize());
}
