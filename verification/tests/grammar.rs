use srisum::algorithm::Algorithm;
use srisum::integrity::{Integrity, ParseError};

const HELLO_SHA1: &str = "sha1-qvTGHdzF6KLavt4PO0gs2a6pQ00=";
const HELLO_SHA256: &str = "sha256-LPJNul+wow4m6DsqxbninhsWHlwfp0JecwQzYpOLmCQ=";
const HELLO_SHA384: &str =
    "sha384-WeF0h3dEjGnea4ANejO7+5/xtGPkQ1TDVTvNucZm+pASWjx5+QOXvfX2oT3oKGhP";
const HELLO_SHA512: &str = "sha512-m3HSJL1i83hdltRq0+o9czGb+8KJDKra4t/3JRlnPKcjI8PZm6XBHXx6zG4UuMXaDEZjR1wuXDre9G9zvN7AQw==";

fn error_of(text: &str) -> ParseError {
    match Integrity::parse(text) {
        Ok(sri) => panic!("{:?} was read as {:?}", text, sri),
        Err(e) => e,
    }
}

#[test]
fn parse_one_entry() {
    let sri = Integrity::parse(HELLO_SHA256).unwrap();
    assert_eq!(sri.len(), 1);
    let hash = &sri.hashes()[0];
    assert_eq!(hash.algorithm(), Algorithm::Sha256);
    assert_eq!(
        hash.digest(),
        &vec![
            0x2c, 0xf2, 0x4d, 0xba, 0x5f, 0xb0, 0xa3, 0x0e, 0x26, 0xe8, 0x3b, 0x2a, 0xc5, 0xb9,
            0xe2, 0x9e, 0x1b, 0x16, 0x1e, 0x5c, 0x1f, 0xa7, 0x42, 0x5e, 0x73, 0x04, 0x33, 0x62,
            0x93, 0x8b, 0x98, 0x24
        ]
    );
    assert_eq!(
        hash.encoded_digest(),
        "LPJNul+wow4m6DsqxbninhsWHlwfp0JecwQzYpOLmCQ="
    );
    assert!(hash.options().is_none());
    assert_eq!(hash.serialize(), HELLO_SHA256);
    assert_eq!(sri.serialize(), HELLO_SHA256);
}

#[test]
fn parse_keeps_the_order_of_the_entries() {
    let text = format!("{} {} {} {}", HELLO_SHA1, HELLO_SHA512, HELLO_SHA256, HELLO_SHA384);
    let sri = Integrity::parse(&text).unwrap();
    assert_eq!(sri.len(), 4);
    assert_eq!(sri.hashes()[0].algorithm(), Algorithm::Sha1);
    assert_eq!(sri.hashes()[1].algorithm(), Algorithm::Sha512);
    assert_eq!(sri.hashes()[2].algorithm(), Algorithm::Sha256);
    assert_eq!(sri.hashes()[3].algorithm(), Algorithm::Sha384);
    assert_eq!(sri.serialize(), text);
    assert_eq!(sri.pick_algorithm(), Algorithm::Sha512);
}

#[test]
fn parse_keeps_an_entry_that_comes_twice() {
    let text = format!("{} {}", HELLO_SHA256, HELLO_SHA256);
    let sri = Integrity::parse(&text).unwrap();
    assert_eq!(sri.len(), 2);
    assert_eq!(sri.serialize(), text);
}

#[test]
fn parse_takes_any_white_space_between_entries() {
    let text = format!("  {}\t\n {}\u{a0}", HELLO_SHA1, HELLO_SHA256);
    let sri = Integrity::parse(&text).unwrap();
    assert_eq!(sri.len(), 2);
    assert_eq!(sri.serialize(), format!("{} {}", HELLO_SHA1, HELLO_SHA256));
}

#[test]
fn parse_takes_the_token_in_any_case() {
    for token in ["sha256", "SHA256", "Sha256", "sHa256"] {
        let text = format!("{}-LPJNul+wow4m6DsqxbninhsWHlwfp0JecwQzYpOLmCQ=", token);
        let sri = Integrity::parse(&text).unwrap();
        assert_eq!(sri.hashes()[0].algorithm(), Algorithm::Sha256);
        assert_eq!(sri.serialize(), HELLO_SHA256);
    }
    let sri = Integrity::parse("SHA1-qvTGHdzF6KLavt4PO0gs2a6pQ00=").unwrap();
    assert_eq!(sri.hashes()[0].algorithm(), Algorithm::Sha1);
}

#[test]
fn parse_keeps_options_as_they_are() {
    let text = format!("{}?foo=bar?baz-qux {}? {}", HELLO_SHA256, HELLO_SHA1, HELLO_SHA1);
    let sri = Integrity::parse(&text).unwrap();
    assert_eq!(sri.len(), 3);
    assert_eq!(sri.hashes()[0].options(), Some(&String::from("foo=bar?baz-qux")));
    assert_eq!(sri.hashes()[1].options(), Some(&String::new()));
    assert_eq!(sri.hashes()[2].options(), None);
    assert_eq!(sri.serialize(), text);
    let again = Integrity::parse(&sri.serialize()).unwrap();
    assert_eq!(again.serialize(), text);
}

#[test]
fn parse_refuses_a_text_without_entries() {
    assert_eq!(error_of(""), ParseError::Empty);
    assert_eq!(error_of("   "), ParseError::Empty);
    assert_eq!(error_of("\t\n"), ParseError::Empty);
}

#[test]
fn parse_refuses_an_entry_without_digest() {
    assert_eq!(error_of("sha256"), ParseError::MissingDigest);
    assert_eq!(error_of("nothing"), ParseError::MissingDigest);
    assert_eq!(
        error_of(&format!("{} sha1", HELLO_SHA256)),
        ParseError::MissingDigest
    );
}

#[test]
fn parse_refuses_an_unknown_algorithm() {
    assert_eq!(error_of("not-a-hash"), ParseError::UnknownAlgorithm);
    assert_eq!(error_of("md5-1B2M2Y8AsgTpgAmY7PhCfg=="), ParseError::UnknownAlgorithm);
    assert_eq!(error_of("sha7-deadbeef=="), ParseError::UnknownAlgorithm);
    assert_eq!(error_of("-LPJNul+wow4m6DsqxbninhsWHlwfp0JecwQzYpOLmCQ="), ParseError::UnknownAlgorithm);
    assert_eq!(
        error_of("xxh3-LPJNul+wow4m6DsqxbninhsWHlwfp0JecwQzYpOLmCQ="),
        ParseError::UnknownAlgorithm
    );
    assert_eq!(
        error_of("sha2566-LPJNul+wow4m6DsqxbninhsWHlwfp0JecwQzYpOLmCQ="),
        ParseError::UnknownAlgorithm
    );
}

#[test]
fn parse_refuses_what_is_not_base64() {
    assert_eq!(error_of("sha256-deadbeef="), ParseError::InvalidBase64);
    assert_eq!(
        error_of("sha256-LPJNul+wow4m6DsqxbninhsWHlwfp0JecwQzYpOLmCQ"),
        ParseError::InvalidBase64
    );
    assert_eq!(
        error_of("sha256-LPJNul-wow4m6DsqxbninhsWHlwfp0JecwQzYpOLmCQ="),
        ParseError::InvalidBase64
    );
    assert_eq!(
        error_of("sha256-LPJNul+wow4m6DsqxbninhsWHlwfp0JecwQzYpOLmCR="),
        ParseError::InvalidBase64
    );
}

#[test]
fn parse_refuses_a_digest_of_the_wrong_length() {
    assert_eq!(error_of("sha256-"), ParseError::WrongLength);
    assert_eq!(error_of("sha256-deadbeef"), ParseError::WrongLength);
    assert_eq!(
        error_of("sha256-qvTGHdzF6KLavt4PO0gs2a6pQ00="),
        ParseError::WrongLength
    );
    assert_eq!(
        error_of("sha1-LPJNul+wow4m6DsqxbninhsWHlwfp0JecwQzYpOLmCQ="),
        ParseError::WrongLength
    );
    assert_eq!(
        error_of("sha512-WeF0h3dEjGnea4ANejO7+5/xtGPkQ1TDVTvNucZm+pASWjx5+QOXvfX2oT3oKGhP"),
        ParseError::WrongLength
    );
}

#[test]
fn parse_reports_the_first_entry_that_is_wrong() {
    assert_eq!(
        error_of(&format!("{} sha256-deadbeef= md5-abcd", HELLO_SHA1)),
        ParseError::InvalidBase64
    );
    assert_eq!(
        error_of(&format!("md5-abcd {} sha256-deadbeef=", HELLO_SHA1)),
        ParseError::UnknownAlgorithm
    );
}

#[test]
fn hash_new_checks_length_and_options() {
    let digest = vec![7u8; 32];
    assert!(srisum::integrity::Hash::new(Algorithm::Sha256, digest.clone(), None).is_some());
    assert!(srisum::integrity::Hash::new(Algorithm::Sha1, digest.clone(), None).is_none());
    assert!(srisum::integrity::Hash::new(Algorithm::Sha256, vec![7u8; 31], None).is_none());
    assert!(srisum::integrity::Hash::new(
        Algorithm::Sha256,
        digest.clone(),
        Some(String::from("a b"))
    )
    .is_none());
    let hash =
        srisum::integrity::Hash::new(Algorithm::Sha256, digest, Some(String::from("opt"))).unwrap();
    assert_eq!(
        hash.serialize(),
        "sha256-BwcHBwcHBwcHBwcHBwcHBwcHBwcHBwcHBwcHBwcHBwc=?opt"
    );
    assert_eq!(hash.clone().serialize(), hash.serialize());
}

#[test]
fn concat_puts_one_after_the_other() {
    let a = Integrity::parse(&format!("{} {}", HELLO_SHA512, HELLO_SHA1)).unwrap();
    let b = Integrity::parse(&format!("{} {}", HELLO_SHA256, HELLO_SHA1)).unwrap();
    let both = a.concat(&b);
    assert_eq!(
        both.serialize(),
        format!("{} {} {} {}", HELLO_SHA512, HELLO_SHA1, HELLO_SHA256, HELLO_SHA1)
    );
    assert_eq!(a.len(), 2);
    assert_eq!(b.len(), 2);
}

#[test]
fn algorithms_by_strength() {
    assert!(Algorithm::Sha1.strength() < Algorithm::Sha256.strength());
    assert!(Algorithm::Sha256.strength() < Algorithm::Sha384.strength());
    assert!(Algorithm::Sha384.strength() < Algorithm::Sha512.strength());
    assert_eq!(Algorithm::Sha1.digest_len(), 20);
    assert_eq!(Algorithm::Sha256.digest_len(), 32);
    assert_eq!(Algorithm::Sha384.digest_len(), 48);
    assert_eq!(Algorithm::Sha512.digest_len(), 64);
    assert_eq!(Algorithm::Sha1.name(), "sha1");
    assert_eq!(Algorithm::Sha256.name(), "sha256");
    assert_eq!(Algorithm::Sha384.name(), "sha384");
    assert_eq!(Algorithm::Sha512.name(), "sha512");
    let token: Vec<char> = "ShA384".chars().collect();
    assert_eq!(Algorithm::from_token(&token), Some(Algorithm::Sha384));
    let token: Vec<char> = "sha".chars().collect();
    assert_eq!(Algorithm::from_token(&token), None);
    let token: Vec<char> = "\u{17f}ha1".chars().collect();
    assert_eq!(Algorithm::from_token(&token), None);
}

#[test]
fn picking_the_strongest_algorithm() {
    let sri = Integrity::parse(&format!("{} {}", HELLO_SHA1, HELLO_SHA256)).unwrap();
    assert_eq!(sri.pick_algorithm(), Algorithm::Sha256);
    let sri = Integrity::parse(&format!("{} {} {}", HELLO_SHA384, HELLO_SHA1, HELLO_SHA256)).unwrap();
    assert_eq!(sri.pick_algorithm(), Algorithm::Sha384);
    let sri = Integrity::parse(HELLO_SHA1).unwrap();
    assert_eq!(sri.pick_algorithm(), Algorithm::Sha1);
}
