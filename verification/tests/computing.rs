use srisum::algorithm::Algorithm;
use srisum::compute::{
    compute_line, hash_file, requested_algorithm, requested_algorithms,
};
use srisum::integrity::Integrity;
use srisum::CliArgs;

fn args(algorithms: &[&str], files: &[&[u8]]) -> CliArgs {
    CliArgs {
        files: files.iter().map(|f| f.to_vec()).collect(),
        algorithms: algorithms.iter().map(|a| String::from(*a)).collect(),
        digest_only: false,
        check: false,
        ignore_missing: false,
        quiet: false,
        status: false,
        warn: false,
    }
}

#[test]
fn algorithms_are_named_letter_for_letter() {
    assert_eq!(requested_algorithm("sha1"), Some(Algorithm::Sha1));
    assert_eq!(requested_algorithm("sha256"), Some(Algorithm::Sha256));
    assert_eq!(requested_algorithm("sha384"), Some(Algorithm::Sha384));
    assert_eq!(requested_algorithm("sha512"), Some(Algorithm::Sha512));
    assert_eq!(requested_algorithm("SHA256"), None);
    assert_eq!(requested_algorithm("sha-256"), None);
    assert_eq!(requested_algorithm("sha2"), None);
    assert_eq!(requested_algorithm("md5"), None);
    assert_eq!(requested_algorithm(""), None);
    assert_eq!(
        requested_algorithms(&vec![
            String::from("sha512"),
            String::from("sha1"),
            String::from("sha512")
        ]),
        Some(vec![Algorithm::Sha512, Algorithm::Sha1, Algorithm::Sha512])
    );
    assert_eq!(
        requested_algorithms(&vec![String::from("sha512"), String::from("sha3")]),
        None
    );
    assert_eq!(requested_algorithms(&vec![]), Some(vec![]));
}

#[test]
fn hash_file_uses_the_algorithms_asked_for() {
    let a = args(&["sha1", "sha256"], &[b"f"]);
    assert_eq!(
        hash_file(b"hello world", &a).serialize(),
        "sha1-Kq5sNclPz7QV2+lfQIuc6R7oRu0= sha256-uU0nuZNNPgilLlLX2n2r+sSE7+N6U4DukIj3rOLvzek="
    );
    let a = args(&["sha256"], &[b"f"]);
    assert_eq!(
        hash_file(b"", &a).serialize(),
        "sha256-47DEQpj8HBSa+/TImW+5JCeuQeRkm5NMpJWZG3hSuFU="
    );
}

#[test]
fn a_line_shows_the_digests_and_the_name() {
    let a = args(&["sha256"], &[b"f"]);
    let sri = Integrity::parse("sha256-uU0nuZNNPgilLlLX2n2r+sSE7+N6U4DukIj3rOLvzek=").unwrap();
    assert_eq!(
        compute_line(&a, b"dir/hello.txt", &sri),
        b"sha256-uU0nuZNNPgilLlLX2n2r+sSE7+N6U4DukIj3rOLvzek= dir/hello.txt".to_vec()
    );
    assert_eq!(
        compute_line(&a, b"-", &sri),
        b"sha256-uU0nuZNNPgilLlLX2n2r+sSE7+N6U4DukIj3rOLvzek= -".to_vec()
    );
    assert_eq!(
        compute_line(&a, b"", &sri),
        b"sha256-uU0nuZNNPgilLlLX2n2r+sSE7+N6U4DukIj3rOLvzek= ".to_vec()
    );
}

#[test]
fn a_name_is_echoed_byte_for_byte() {
    let a = args(&["sha1"], &[b"f"]);
    let sri = Integrity::parse("sha1-qvTGHdzF6KLavt4PO0gs2a6pQ00=").unwrap();
    let name: &[u8] = &[b'a', 0xff, 0xfe, b' ', 0x80, b'\n', b'z'];
    let mut expected = b"sha1-qvTGHdzF6KLavt4PO0gs2a6pQ00= ".to_vec();
    expected.extend_from_slice(name);
    assert_eq!(compute_line(&a, name, &sri), expected);
}

#[test]
fn digest_only_leaves_the_name_out() {
    let a = CliArgs { digest_only: true, ..args(&["sha1"], &[b"f"]) };
    let sri = Integrity::parse(
        "sha1-qvTGHdzF6KLavt4PO0gs2a6pQ00= sha256-LPJNul+wow4m6DsqxbninhsWHlwfp0JecwQzYpOLmCQ=",
    )
    .unwrap();
    assert_eq!(
        compute_line(&a, b"hello.txt", &sri),
        b"sha1-qvTGHdzF6KLavt4PO0gs2a6pQ00= sha256-LPJNul+wow4m6DsqxbninhsWHlwfp0JecwQzYpOLmCQ="
            .to_vec()
    );
}

#[test]
fn options_are_written_in_utf8() {
    let a = args(&["sha1"], &[b"f"]);
    let sri = Integrity::parse("sha1-qvTGHdzF6KLavt4PO0gs2a6pQ00=?\u{e9}t\u{e9}").unwrap();
    assert_eq!(
        compute_line(&a, b"f", &sri),
        "sha1-qvTGHdzF6KLavt4PO0gs2a6pQ00=?\u{e9}t\u{e9} f".as_bytes().to_vec()
    );
}

#[test]
fn compute_gives_one_line_for_each_input() {
    let a = args(&["sha256", "sha1"], &[b"hello.txt", b"-", b"empty"]);
    let contents = [b"hello world".to_vec(), b"hello".to_vec(), Vec::new()];
    let lines = srisum::compute(&a, &contents);
    assert_eq!(
        lines,
        vec![
            b"sha256-uU0nuZNNPgilLlLX2n2r+sSE7+N6U4DukIj3rOLvzek= sha1-Kq5sNclPz7QV2+lfQIuc6R7oRu0= hello.txt".to_vec(),
            b"sha256-LPJNul+wow4m6DsqxbninhsWHlwfp0JecwQzYpOLmCQ= sha1-qvTGHdzF6KLavt4PO0gs2a6pQ00= -".to_vec(),
            b"sha256-47DEQpj8HBSa+/TImW+5JCeuQeRkm5NMpJWZG3hSuFU= sha1-2jmj7l5rSw0yVb/vlWAYkK/YBwk= empty".to_vec(),
        ]
    );
    let a = CliArgs { digest_only: true, ..args(&["sha512"], &[b"x"]) };
    assert_eq!(
        srisum::compute(&a, &[b"hello".to_vec()]),
        vec![b"sha512-m3HSJL1i83hdltRq0+o9czGb+8KJDKra4t/3JRlnPKcjI8PZm6XBHXx6zG4UuMXaDEZjR1wuXDre9G9zvN7AQw==".to_vec()]
    );
    let a = args(&["sha1"], &[]);
    assert!(srisum::compute(&a, &[]).is_empty());
}

#[test]
fn what_compute_prints_checks_out() {
    let a = args(&["sha384", "sha1"], &[b"data.bin"]);
    let content = b"some data".to_vec();
    let lines = srisum::compute(&a, &[content.clone()]);
    let line = String::from_utf8(lines[0].clone()).unwrap();
    // A checklist line claims one entry: take the first of the two.
    let first = line.split(' ').next().unwrap();
    let entry = srisum::checklist::parse_line(&format!("{} data.bin", first))
        .unwrap()
        .unwrap();
    assert_eq!(entry.target, "data.bin");
    assert_eq!(
        srisum::checker::check_file(&content, entry.claimed).unwrap(),
        Algorithm::Sha384
    );
}
