//! Base64 with the standard alphabet and `=` padding.

use vstd::prelude::*;

verus! {

/// The character that stands for the six-bit value `v`.
pub open spec fn symbol(v: int) -> char {
    if v < 26 {
        (0x41 + v) as char
    } else if v < 52 {
        (0x61 + (v - 26)) as char
    } else if v < 62 {
        (0x30 + (v - 52)) as char
    } else if v == 62 {
        '+'
    } else {
        '/'
    }
}

/// The six-bit value that `c` stands for, if it is of the alphabet.
pub open spec fn value(c: char) -> Option<int> {
    let n = c as int;
    if 0x41 <= n <= 0x5A {
        Some(n - 0x41)
    } else if 0x61 <= n <= 0x7A {
        Some(n - 0x61 + 26)
    } else if 0x30 <= n <= 0x39 {
        Some(n - 0x30 + 52)
    } else if n == 0x2B {
        Some(62)
    } else if n == 0x2F {
        Some(63)
    } else {
        None
    }
}

/// The byte of `b` at `i`, and zero past its end.
pub open spec fn byte_at(b: Seq<u8>, i: int) -> int {
    if 0 <= i < b.len() {
        b[i] as int
    } else {
        0
    }
}

/// The number of characters that encode `n` bytes.
pub open spec fn encoded_len(n: nat) -> nat {
    4 * ((n + 2) / 3)
}

/// The character at `i` of the encoding of `b`: every three bytes give
/// four characters of six bits each, and a last group of one or two bytes
/// is filled up with `=`.
pub open spec fn encoded_char(b: Seq<u8>, i: int) -> char {
    let k = i / 4;
    let b0 = byte_at(b, 3 * k);
    let b1 = byte_at(b, 3 * k + 1);
    let b2 = byte_at(b, 3 * k + 2);
    if i % 4 == 0 {
        symbol(b0 / 4)
    } else if i % 4 == 1 {
        symbol((b0 % 4) * 16 + b1 / 16)
    } else if i % 4 == 2 {
        if 3 * k + 1 < b.len() {
            symbol((b1 % 16) * 4 + b2 / 64)
        } else {
            '='
        }
    } else {
        if 3 * k + 2 < b.len() {
            symbol(b2 % 64)
        } else {
            '='
        }
    }
}

/// The encoding of `b`.
pub open spec fn encoding(b: Seq<u8>) -> Seq<char> {
    Seq::new(encoded_len(b.len()), |i: int| encoded_char(b, i))
}

/// The bytes that `t` encodes, if it is the encoding of any.
pub open spec fn decoding(t: Seq<char>) -> Option<Seq<u8>> {
    if exists|b: Seq<u8>| encoding(b) == t {
        Some(choose|b: Seq<u8>| encoding(b) == t)
    } else {
        None
    }
}

/// Each six-bit value is read back from its character, and `=` is none
/// of them.
pub proof fn lemma_symbol_value(v: int)
    requires
        0 <= v < 64,
    ensures
        value(symbol(v)) == Some(v),
        symbol(v) != '=',
        symbol(v) != '?',
        symbol(v) != '-',
        !crate::text::is_space(symbol(v)),
{
}

/// A character of the alphabet is the one that stands for its value.
pub proof fn lemma_value_symbol(c: char)
    requires
        value(c) is Some,
    ensures
        0 <= value(c).unwrap() < 64,
        symbol(value(c).unwrap()) == c,
{
}

/// What a group of four characters says of the bytes behind it: the
/// characters at `4 * k` and after it are those of the encoding of `b`.
pub open spec fn group_matches(t: Seq<char>, b: Seq<u8>, k: int) -> bool {
    &&& t[4 * k] == encoded_char(b, 4 * k)
    &&& t[4 * k + 1] == encoded_char(b, 4 * k + 1)
    &&& t[4 * k + 2] == encoded_char(b, 4 * k + 2)
    &&& t[4 * k + 3] == encoded_char(b, 4 * k + 3)
}

/// An encoding is made of groups of four characters.
pub proof fn lemma_encode_groups(b: Seq<u8>, k: int)
    requires
        0 <= k,
        4 * k < encoding(b).len(),
    ensures
        4 * k + 3 < encoding(b).len(),
        3 * k < b.len(),
        group_matches(encoding(b), b, k),
        encoding(b).len() == encoded_len(b.len()),
{
}

/// Two byte sequences with the same encoding are the same.
pub proof fn lemma_encode_injective(a: Seq<u8>, b: Seq<u8>)
    requires
        encoding(a) == encoding(b),
    ensures
        a == b,
{
    let t = encoding(a);
    assert(t.len() == encoded_len(a.len()));
    assert(t.len() == encoded_len(b.len()));
    let g = (t.len() / 4) as int;
    if g > 0 {
        lemma_encode_groups(a, g - 1);
        lemma_encode_groups(b, g - 1);
        lemma_padding(a, g - 1);
        lemma_padding(b, g - 1);
    }
    assert(a.len() == b.len());
    assert forall|i: int| 0 <= i < a.len() implies a[i] == b[i] by {
        let k = i / 3;
        lemma_encode_groups(a, k);
        lemma_encode_groups(b, k);
        lemma_group_bytes(a, k);
        lemma_group_bytes(b, k);
    }
    assert(a =~= b);
}

/// The padding of the last group says how many bytes there are.
proof fn lemma_padding(b: Seq<u8>, k: int)
    requires
        0 <= k,
        4 * k + 4 == encoding(b).len(),
    ensures
        encoding(b)[4 * k + 2] == '=' <==> b.len() == 3 * k + 1,
        encoding(b)[4 * k + 3] == '=' <==> b.len() <= 3 * k + 2,
        3 * k + 1 <= b.len() <= 3 * k + 3,
{
    let b1 = byte_at(b, 3 * k + 1);
    let b2 = byte_at(b, 3 * k + 2);
    lemma_symbol_value((b1 % 16) * 4 + b2 / 64);
    lemma_symbol_value(b2 % 64);
}

/// The bytes of a group are read back from the values of its characters.
proof fn lemma_group_bytes(b: Seq<u8>, k: int)
    requires
        0 <= k,
        3 * k < b.len(),
    ensures
        ({
            let t = encoding(b);
            let v0 = value(t[4 * k]);
            let v1 = value(t[4 * k + 1]);
            let v2 = value(t[4 * k + 2]);
            let v3 = value(t[4 * k + 3]);
            &&& v0 is Some
            &&& v1 is Some
            &&& b[3 * k] == v0.unwrap() * 4 + v1.unwrap() / 16
            &&& 3 * k + 1 < b.len() ==> v2 is Some && b[3 * k + 1] == (v1.unwrap() % 16) * 16
                + v2.unwrap() / 4
            &&& 3 * k + 2 < b.len() ==> v3 is Some && b[3 * k + 2] == (v2.unwrap() % 4) * 64
                + v3.unwrap()
        }),
{
    let b0 = byte_at(b, 3 * k);
    let b1 = byte_at(b, 3 * k + 1);
    let b2 = byte_at(b, 3 * k + 2);
    lemma_symbol_value(b0 / 4);
    lemma_symbol_value((b0 % 4) * 16 + b1 / 16);
    lemma_symbol_value((b1 % 16) * 4 + b2 / 64);
    lemma_symbol_value(b2 % 64);
    let t = encoding(b);
    assert(t[4 * k] == encoded_char(b, 4 * k));
    assert(t[4 * k + 1] == encoded_char(b, 4 * k + 1));
    assert(t[4 * k + 2] == encoded_char(b, 4 * k + 2));
    assert(t[4 * k + 3] == encoded_char(b, 4 * k + 3));
}

/// An encoding holds no `?`, no `-` and no white space.
pub proof fn lemma_encoding_chars(b: Seq<u8>)
    ensures
        forall|i: int|
            0 <= i < encoding(b).len() ==> {
                let c = #[trigger] encoding(b)[i];
                c != '?' && c != '-' && !crate::text::is_space(c)
            },
{
    assert forall|i: int| 0 <= i < encoding(b).len() implies {
        let c = #[trigger] encoding(b)[i];
        c != '?' && c != '-' && !crate::text::is_space(c)
    } by {
        let k = i / 4;
        let b0 = byte_at(b, 3 * k);
        let b1 = byte_at(b, 3 * k + 1);
        let b2 = byte_at(b, 3 * k + 2);
        lemma_symbol_value(b0 / 4);
        lemma_symbol_value((b0 % 4) * 16 + b1 / 16);
        lemma_symbol_value((b1 % 16) * 4 + b2 / 64);
        lemma_symbol_value(b2 % 64);
    }
}

/// Decoding an encoding gives the bytes back.
pub proof fn lemma_decode_encode(b: Seq<u8>)
    ensures
        decoding(encoding(b)) == Some(b),
{
    let t = encoding(b);
    let c = choose|c: Seq<u8>| encoding(c) == t;
    lemma_encode_injective(c, b);
}

/// The character that stands for the six-bit value `v`.
pub fn symbol_of(v: u8) -> (c: char)
    requires
        v < 64,
    ensures
        c == symbol(v as int),
{
    if v < 26 {
        (0x41 + v) as char
    } else if v < 52 {
        (0x61 + (v - 26)) as char
    } else if v < 62 {
        (0x30 + (v - 52)) as char
    } else if v == 62 {
        '+'
    } else {
        '/'
    }
}

/// The six-bit value that `c` stands for, if it is of the alphabet.
pub fn value_of(c: char) -> (v: Option<u8>)
    ensures
        match v {
            Some(x) => value(c) == Some(x as int) && x < 64,
            None => value(c) is None,
        },
{
    let n: u32 = c as u32;
    if 0x41 <= n && n <= 0x5A {
        Some((n - 0x41) as u8)
    } else if 0x61 <= n && n <= 0x7A {
        Some((n - 0x61 + 26) as u8)
    } else if 0x30 <= n && n <= 0x39 {
        Some((n - 0x30 + 52) as u8)
    } else if n == 0x2B {
        Some(62)
    } else if n == 0x2F {
        Some(63)
    } else {
        None
    }
}

/// The encoding of `bytes`.
pub fn encode(bytes: &[u8]) -> (text: Vec<char>)
    ensures
        text@ == encoding(bytes@),
{
    let n = bytes.len();
    let mut out: Vec<char> = Vec::new();
    let mut i: usize = 0;
    while n - i >= 3
        invariant
            n == bytes.len(),
            i <= n,
            i % 3 == 0,
            out.len() == 4 * (i / 3),
            forall|j: int| 0 <= j < out.len() ==> out[j] == encoded_char(bytes@, j),
        decreases n - i,
    {
        let b0 = bytes[i];
        let b1 = bytes[i + 1];
        let b2 = bytes[i + 2];
        out.push(symbol_of(b0 / 4));
        out.push(symbol_of((b0 % 4) * 16 + b1 / 16));
        out.push(symbol_of((b1 % 16) * 4 + b2 / 64));
        out.push(symbol_of(b2 % 64));
        i += 3;
    }
    if n - i == 1 {
        let b0 = bytes[i];
        out.push(symbol_of(b0 / 4));
        out.push(symbol_of((b0 % 4) * 16));
        out.push('=');
        out.push('=');
    } else if n - i == 2 {
        let b0 = bytes[i];
        let b1 = bytes[i + 1];
        out.push(symbol_of(b0 / 4));
        out.push(symbol_of((b0 % 4) * 16 + b1 / 16));
        out.push(symbol_of((b1 % 16) * 4));
        out.push('=');
    }
    assert(out@ =~= encoding(bytes@));
    out
}

/// In a group that is not the last, every character is of the alphabet.
proof fn lemma_inner_group(b: Seq<u8>, k: int)
    requires
        0 <= k,
        4 * k + 4 < encoding(b).len(),
    ensures
        3 * k + 3 < b.len(),
        value(encoding(b)[4 * k]) is Some,
        value(encoding(b)[4 * k + 1]) is Some,
        value(encoding(b)[4 * k + 2]) is Some,
        value(encoding(b)[4 * k + 3]) is Some,
{
    lemma_group_bytes(b, k);
}

/// The first two characters of every group are of the alphabet; where the
/// group holds one byte, or two, the bits past them are zero.
proof fn lemma_last_group(b: Seq<u8>, k: int)
    requires
        0 <= k,
        4 * k + 4 == encoding(b).len(),
    ensures
        value(encoding(b)[4 * k]) is Some,
        value(encoding(b)[4 * k + 1]) is Some,
        b.len() == 3 * k + 1 ==> value(encoding(b)[4 * k + 1]).unwrap() % 16 == 0,
        b.len() >= 3 * k + 2 ==> value(encoding(b)[4 * k + 2]) is Some,
        b.len() == 3 * k + 2 ==> value(encoding(b)[4 * k + 2]).unwrap() % 4 == 0,
        b.len() == 3 * k + 3 ==> value(encoding(b)[4 * k + 3]) is Some,
{
    lemma_padding(b, k);
    lemma_group_bytes(b, k);
    let b0 = byte_at(b, 3 * k);
    let b1 = byte_at(b, 3 * k + 1);
    let b2 = byte_at(b, 3 * k + 2);
    lemma_symbol_value((b0 % 4) * 16 + b1 / 16);
    lemma_symbol_value((b1 % 16) * 4 + b2 / 64);
}

/// A text whose length is no multiple of four encodes nothing.
proof fn lemma_not_encoding_len(t: Seq<char>)
    requires
        t.len() % 4 != 0,
    ensures
        decoding(t) is None,
{
    assert forall|b: Seq<u8>| encoding(b) != t by {
        assert(encoding(b).len() == encoded_len(b.len()));
    }
}

/// A text with a character outside the alphabet before its last group
/// encodes nothing.
proof fn lemma_not_encoding_inner(t: Seq<char>, k: int, r: int)
    requires
        0 <= k,
        4 * k + 4 < t.len(),
        0 <= r < 4,
        value(t[4 * k + r]) is None,
    ensures
        decoding(t) is None,
{
    assert forall|b: Seq<u8>| encoding(b) != t by {
        if encoding(b) == t {
            lemma_inner_group(b, k);
        }
    }
}

/// What the last group of an encoding looks like: two characters of the
/// alphabet, then a third and a fourth, or a third and `=`, or `==`, with
/// zero bits where no byte stands.
pub open spec fn last_group_ok(c0: char, c1: char, c2: char, c3: char) -> bool {
    &&& value(c0) is Some
    &&& value(c1) is Some
    &&& if c2 == '=' {
        c3 == '=' && value(c1).unwrap() % 16 == 0
    } else {
        &&& value(c2) is Some
        &&& if c3 == '=' {
            value(c2).unwrap() % 4 == 0
        } else {
            value(c3) is Some
        }
    }
}

/// A text whose last group does not look like one encodes nothing.
proof fn lemma_not_encoding_last(t: Seq<char>, k: int)
    requires
        0 <= k,
        4 * k + 4 == t.len(),
        !last_group_ok(t[4 * k], t[4 * k + 1], t[4 * k + 2], t[4 * k + 3]),
    ensures
        decoding(t) is None,
{
    assert forall|b: Seq<u8>| encoding(b) != t by {
        if encoding(b) == t {
            lemma_padding(b, k);
            lemma_last_group(b, k);
        }
    }
}

/// Four six-bit values are read back from the three bytes that they
/// make.
proof fn lemma_sextets(x0: int, x1: int, x2: int, x3: int)
    requires
        0 <= x0 < 64,
        0 <= x1 < 64,
        0 <= x2 < 64,
        0 <= x3 < 64,
    ensures
        ({
            let b0 = x0 * 4 + x1 / 16;
            let b1 = (x1 % 16) * 16 + x2 / 4;
            let b2 = (x2 % 4) * 64 + x3;
            &&& 0 <= b0 < 256
            &&& 0 <= b1 < 256
            &&& 0 <= b2 < 256
            &&& b0 / 4 == x0
            &&& (b0 % 4) * 16 + b1 / 16 == x1
            &&& (b1 % 16) * 4 + b2 / 64 == x2
            &&& b2 % 64 == x3
        }),
{
}

/// The group and the place in it of the character at `4 * k + r`.
proof fn lemma_place(k: int, r: int)
    requires
        0 <= k,
        0 <= r < 4,
    ensures
        (4 * k + r) / 4 == k,
        (4 * k + r) % 4 == r,
{
}

/// A group of four characters of the alphabet is the encoding of the three
/// bytes read from their values.
proof fn lemma_decoded_group(t: Seq<char>, b: Seq<u8>, k: int)
    requires
        0 <= k,
        4 * k + 4 <= t.len(),
        3 * k + 3 <= b.len(),
        value(t[4 * k]) is Some,
        value(t[4 * k + 1]) is Some,
        value(t[4 * k + 2]) is Some,
        value(t[4 * k + 3]) is Some,
        b[3 * k] == value(t[4 * k]).unwrap() * 4 + value(t[4 * k + 1]).unwrap() / 16,
        b[3 * k + 1] == (value(t[4 * k + 1]).unwrap() % 16) * 16 + value(t[4 * k + 2]).unwrap()
            / 4,
        b[3 * k + 2] == (value(t[4 * k + 2]).unwrap() % 4) * 64 + value(t[4 * k + 3]).unwrap(),
    ensures
        group_matches(t, b, k),
{
    let x0 = value(t[4 * k]).unwrap();
    let x1 = value(t[4 * k + 1]).unwrap();
    let x2 = value(t[4 * k + 2]).unwrap();
    let x3 = value(t[4 * k + 3]).unwrap();
    lemma_value_symbol(t[4 * k]);
    lemma_value_symbol(t[4 * k + 1]);
    lemma_value_symbol(t[4 * k + 2]);
    lemma_value_symbol(t[4 * k + 3]);
    lemma_sextets(x0, x1, x2, x3);
    lemma_place(k, 0);
    lemma_place(k, 1);
    lemma_place(k, 2);
    lemma_place(k, 3);
    assert(byte_at(b, 3 * k) == x0 * 4 + x1 / 16);
    assert(byte_at(b, 3 * k + 1) == (x1 % 16) * 16 + x2 / 4);
    assert(byte_at(b, 3 * k + 2) == (x2 % 4) * 64 + x3);
    assert(t[4 * k] == encoded_char(b, 4 * k));
    assert(t[4 * k + 1] == encoded_char(b, 4 * k + 1));
    assert(t[4 * k + 2] == encoded_char(b, 4 * k + 2));
    assert(t[4 * k + 3] == encoded_char(b, 4 * k + 3));
}

/// A last group with padding is the encoding of the one byte, or the two,
/// read from its values.
proof fn lemma_decoded_last(t: Seq<char>, b: Seq<u8>, k: int)
    requires
        0 <= k,
        4 * k + 4 <= t.len(),
        3 * k + 1 <= b.len() <= 3 * k + 2,
        last_group_ok(t[4 * k], t[4 * k + 1], t[4 * k + 2], t[4 * k + 3]),
        t[4 * k + 3] == '=',
        (t[4 * k + 2] == '=') == (b.len() == 3 * k + 1),
        b[3 * k] == value(t[4 * k]).unwrap() * 4 + value(t[4 * k + 1]).unwrap() / 16,
        b.len() == 3 * k + 2 ==> b[3 * k + 1] == (value(t[4 * k + 1]).unwrap() % 16) * 16 + value(
            t[4 * k + 2],
        ).unwrap() / 4,
    ensures
        group_matches(t, b, k),
{
    lemma_value_symbol(t[4 * k]);
    lemma_value_symbol(t[4 * k + 1]);
    if b.len() == 3 * k + 2 {
        lemma_value_symbol(t[4 * k + 2]);
    }
}

/// A group that matches some bytes matches every sequence that goes on
/// from them.
proof fn lemma_group_stable(t: Seq<char>, a: Seq<u8>, b: Seq<u8>, k: int)
    requires
        0 <= k,
        3 * k + 3 <= a.len() <= b.len(),
        b.take(a.len() as int) == a,
        group_matches(t, a, k),
    ensures
        group_matches(t, b, k),
{
    assert(b[3 * k] == b.take(a.len() as int)[3 * k]);
    assert(b[3 * k + 1] == b.take(a.len() as int)[3 * k + 1]);
    assert(b[3 * k + 2] == b.take(a.len() as int)[3 * k + 2]);
}

/// A text all of whose groups match some bytes is their encoding.
proof fn lemma_groups_encoding(t: Seq<char>, b: Seq<u8>)
    requires
        t.len() == encoded_len(b.len()),
        forall|k: int| 0 <= k && 4 * k < t.len() ==> group_matches(t, b, k),
    ensures
        encoding(b) == t,
        decoding(t) == Some(b),
{
    assert forall|j: int| 0 <= j < t.len() implies t[j] == encoding(b)[j] by {
        let k = j / 4;
        assert(group_matches(t, b, k));
    }
    assert(encoding(b) =~= t);
    lemma_decode_encode(b);
}

/// The bytes that `text` encodes, if it is the encoding of any.
pub fn decode(text: &[char]) -> (bytes: Option<Vec<u8>>)
    ensures
        match bytes {
            Some(b) => decoding(text@) == Some(b@),
            None => decoding(text@) is None,
        },
{
    let n = text.len();
    let mut out: Vec<u8> = Vec::new();
    if n % 4 != 0 {
        proof {
            lemma_not_encoding_len(text@);
        }
        return None;
    }
    if n == 0 {
        proof {
            lemma_groups_encoding(text@, out@);
        }
        return Some(out);
    }
    let last: usize = n / 4 - 1;
    let mut k: usize = 0;
    while k < last
        invariant
            n == text.len(),
            n == 4 * (last + 1),
            k <= last,
            out.len() == 3 * k,
            forall|g: int| 0 <= g < k ==> group_matches(text@, out@, g),
        decreases last - k,
    {
        let v0 = value_of(text[4 * k]);
        let v1 = value_of(text[4 * k + 1]);
        let v2 = value_of(text[4 * k + 2]);
        let v3 = value_of(text[4 * k + 3]);
        match (v0, v1, v2, v3) {
            (Some(x0), Some(x1), Some(x2), Some(x3)) => {
                let ghost before = out@;
                out.push(x0 * 4 + x1 / 16);
                out.push((x1 % 16) * 16 + x2 / 4);
                out.push((x2 % 4) * 64 + x3);
                proof {
                    assert(out@.take(before.len() as int) =~= before);
                    assert forall|g: int| 0 <= g < k implies group_matches(text@, out@, g) by {
                        lemma_group_stable(text@, before, out@, g);
                    }
                    lemma_decoded_group(text@, out@, k as int);
                }
            },
            _ => {
                proof {
                    let r: int = if v0 is None {
                        0
                    } else if v1 is None {
                        1
                    } else if v2 is None {
                        2
                    } else {
                        3
                    };
                    lemma_not_encoding_inner(text@, k as int, r);
                }
                return None;
            },
        }
        k += 1;
    }
    let c2 = text[4 * k + 2];
    let c3 = text[4 * k + 3];
    let v0 = value_of(text[4 * k]);
    let v1 = value_of(text[4 * k + 1]);
    let v2 = value_of(c2);
    let v3 = value_of(c3);
    let ghost before = out@;
    let ghost ok = last_group_ok(text@[4 * k], text@[4 * k + 1], c2, c3);
    let mut done: bool = false;
    match (v0, v1) {
        (Some(x0), Some(x1)) => {
            if c2 == '=' {
                if c3 == '=' && x1 % 16 == 0 {
                    out.push(x0 * 4 + x1 / 16);
                    done = true;
                }
            } else if let Some(x2) = v2 {
                if c3 == '=' {
                    if x2 % 4 == 0 {
                        out.push(x0 * 4 + x1 / 16);
                        out.push((x1 % 16) * 16 + x2 / 4);
                        done = true;
                    }
                } else if let Some(x3) = v3 {
                    out.push(x0 * 4 + x1 / 16);
                    out.push((x1 % 16) * 16 + x2 / 4);
                    out.push((x2 % 4) * 64 + x3);
                    done = true;
                }
            }
        },
        _ => {},
    }
    if !done {
        proof {
            assert(!ok);
            lemma_not_encoding_last(text@, k as int);
        }
        return None;
    }
    proof {
        assert(ok);
        assert(out@.take(before.len() as int) =~= before);
        assert forall|g: int| 0 <= g && 4 * g < text@.len() implies group_matches(
            text@,
            out@,
            g,
        ) by {
            if g < k {
                lemma_group_stable(text@, before, out@, g);
            } else if c3 == '=' {
                lemma_decoded_last(text@, out@, k as int);
            } else {
                lemma_decoded_group(text@, out@, k as int);
            }
        }
        lemma_groups_encoding(text@, out@);
    }
    Some(out)
}

} // verus!
