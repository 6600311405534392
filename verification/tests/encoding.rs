use srisum::base64::{decode, encode, symbol_of, value_of};

fn text(bytes: &[u8]) -> String {
    encode(bytes).into_iter().collect()
}

fn bytes(text: &str) -> Option<Vec<u8>> {
    let chars: Vec<char> = text.chars().collect();
    decode(&chars)
}

#[test]
fn encode_known_vectors() {
    assert_eq!(text(b""), "");
    assert_eq!(text(b"f"), "Zg==");
    assert_eq!(text(b"fo"), "Zm8=");
    assert_eq!(text(b"foo"), "Zm9v");
    assert_eq!(text(b"foob"), "Zm9vYg==");
    assert_eq!(text(b"fooba"), "Zm9vYmE=");
    assert_eq!(text(b"foobar"), "Zm9vYmFy");
    assert_eq!(text(&[0xfb, 0xff, 0xbf]), "+/+/");
    assert_eq!(text(&[0xff]), "/w==");
}

#[test]
fn decode_known_vectors() {
    assert_eq!(bytes(""), Some(b"".to_vec()));
    assert_eq!(bytes("Zg=="), Some(b"f".to_vec()));
    assert_eq!(bytes("Zm8="), Some(b"fo".to_vec()));
    assert_eq!(bytes("Zm9v"), Some(b"foo".to_vec()));
    assert_eq!(bytes("Zm9vYg=="), Some(b"foob".to_vec()));
    assert_eq!(bytes("Zm9vYmE="), Some(b"fooba".to_vec()));
    assert_eq!(bytes("Zm9vYmFy"), Some(b"foobar".to_vec()));
    assert_eq!(bytes("+/+/"), Some(vec![0xfb, 0xff, 0xbf]));
}

#[test]
fn decode_refuses_what_is_no_encoding() {
    assert_eq!(bytes("Z"), None);
    assert_eq!(bytes("Zg"), None);
    assert_eq!(bytes("Zg="), None);
    assert_eq!(bytes("Zm9"), None);
    assert_eq!(bytes("Zh=="), None);
    assert_eq!(bytes("Zm9="), None);
    assert_eq!(bytes("Zg==Zg=="), None);
    assert_eq!(bytes("Zm8=Zm9v"), None);
    assert_eq!(bytes("Z=8="), None);
    assert_eq!(bytes("=m8="), None);
    assert_eq!(bytes("===="), None);
    assert_eq!(bytes("Zg=v"), None);
    assert_eq!(bytes("Zm9-"), None);
    assert_eq!(bytes("Zm9_"), None);
    assert_eq!(bytes("Zm 9"), None);
    assert_eq!(bytes("Zm9v\n"), None);
    assert_eq!(bytes("Zm9\u{e9}"), None);
}

#[test]
fn decode_undoes_encode_for_every_length() {
    let mut data: Vec<u8> = Vec::new();
    for n in 0..200u32 {
        let encoded = encode(&data);
        assert_eq!(encoded.len(), 4 * ((data.len() + 2) / 3));
        assert_eq!(decode(&encoded), Some(data.clone()));
        data.push((n * 37 % 256) as u8);
    }
}

#[test]
fn alphabet() {
    let alphabet = "ABCDEFGHIJKLMNOPQRSTUVWXYZabcdefghijklmnopqrstuvwxyz0123456789+/";
    for (v, c) in alphabet.chars().enumerate() {
        assert_eq!(symbol_of(v as u8), c);
        assert_eq!(value_of(c), Some(v as u8));
    }
    assert_eq!(value_of('='), None);
    assert_eq!(value_of('-'), None);
    assert_eq!(value_of('_'), None);
    assert_eq!(value_of(' '), None);
    assert_eq!(value_of('@'), None);
    assert_eq!(value_of('['), None);
    assert_eq!(value_of('`'), None);
    assert_eq!(value_of('{'), None);
    assert_eq!(value_of(':'), None);
}
