//! Lowercase hexadecimal encoding and decoding, verified against a direct
//! mathematical statement of the format. Digests cross module boundaries as
//! lowercase hex strings, so the registry's binding arguments lean on the
//! injectivity lemmas proved here.

use vstd::prelude::*;
use vstd::string::StrSliceExecFns;
use vstd::string::StringExecFns;

verus! {

/// The lowercase hex digit for a value below 16.
pub open spec fn hex_char_of(v: u8) -> char {
    if v == 0 {
        '0'
    } else if v == 1 {
        '1'
    } else if v == 2 {
        '2'
    } else if v == 3 {
        '3'
    } else if v == 4 {
        '4'
    } else if v == 5 {
        '5'
    } else if v == 6 {
        '6'
    } else if v == 7 {
        '7'
    } else if v == 8 {
        '8'
    } else if v == 9 {
        '9'
    } else if v == 10 {
        'a'
    } else if v == 11 {
        'b'
    } else if v == 12 {
        'c'
    } else if v == 13 {
        'd'
    } else if v == 14 {
        'e'
    } else {
        'f'
    }
}

/// A lowercase hexadecimal digit.
pub open spec fn is_hex_digit(c: char) -> bool {
    (48 <= c as int && c as int <= 57) || (97 <= c as int && c as int <= 102)
}

/// Every character of the sequence is a lowercase hex digit.
pub open spec fn is_hex_seq(s: Seq<char>) -> bool {
    forall|i: int| 0 <= i < s.len() ==> is_hex_digit(#[trigger] s[i])
}

/// Numeric value of a lowercase hex digit.
pub open spec fn hex_val(c: char) -> u8 {
    if 48 <= c as int && c as int <= 57 {
        (c as int - 48) as u8
    } else {
        (c as int - 97 + 10) as u8
    }
}

/// The lowercase hex encoding of a byte sequence: two digits per byte,
/// high nibble first.
pub open spec fn hex_encode(bytes: Seq<u8>) -> Seq<char> {
    Seq::new(
        bytes.len() * 2,
        |i: int|
            if i % 2 == 0 {
                hex_char_of(bytes[i / 2] / 16)
            } else {
                hex_char_of(bytes[i / 2] % 16)
            },
    )
}

/// The bytes denoted by a hex string of even length.
pub open spec fn hex_decode(s: Seq<char>) -> Seq<u8> {
    Seq::new(s.len() / 2, |i: int| (hex_val(s[2 * i]) * 16 + hex_val(s[2 * i + 1])) as u8)
}

pub proof fn lemma_hex_char_roundtrip(v: u8)
    requires
        v < 16,
    ensures
        is_hex_digit(hex_char_of(v)),
        hex_val(hex_char_of(v)) == v,
{
}

/// Decoding inverts encoding.
pub proof fn lemma_hex_decode_encode(bytes: Seq<u8>)
    ensures
        hex_encode(bytes).len() == bytes.len() * 2,
        is_hex_seq(hex_encode(bytes)),
        hex_decode(hex_encode(bytes)) == bytes,
{
    let enc = hex_encode(bytes);
    assert forall|i: int| 0 <= i < enc.len() implies is_hex_digit(#[trigger] enc[i]) by {
        if i % 2 == 0 {
            lemma_hex_char_roundtrip(bytes[i / 2] / 16);
        } else {
            lemma_hex_char_roundtrip(bytes[i / 2] % 16);
        }
    }
    assert forall|i: int| 0 <= i < bytes.len() implies hex_decode(enc)[i] == bytes[i] by {
        lemma_hex_char_roundtrip(bytes[i] / 16);
        lemma_hex_char_roundtrip(bytes[i] % 16);
        assert(enc[2 * i] == hex_char_of(bytes[i] / 16));
        assert(enc[2 * i + 1] == hex_char_of(bytes[i] % 16));
    }
    assert(hex_decode(enc) =~= bytes);
}

/// Two byte sequences with the same hex encoding are equal.
pub proof fn lemma_hex_encode_injective(a: Seq<u8>, b: Seq<u8>)
    requires
        hex_encode(a) == hex_encode(b),
    ensures
        a == b,
{
    lemma_hex_decode_encode(a);
    lemma_hex_decode_encode(b);
}

/// The one-character string for a hex digit value.
fn hex_digit_str(v: u8) -> (r: &'static str)
    requires
        v < 16,
    ensures
        r@ == seq![hex_char_of(v)],
{
    proof {
        reveal_strlit("0");
        reveal_strlit("1");
        reveal_strlit("2");
        reveal_strlit("3");
        reveal_strlit("4");
        reveal_strlit("5");
        reveal_strlit("6");
        reveal_strlit("7");
        reveal_strlit("8");
        reveal_strlit("9");
        reveal_strlit("a");
        reveal_strlit("b");
        reveal_strlit("c");
        reveal_strlit("d");
        reveal_strlit("e");
        reveal_strlit("f");
    }
    let r: &'static str = match v {
        0 => "0",
        1 => "1",
        2 => "2",
        3 => "3",
        4 => "4",
        5 => "5",
        6 => "6",
        7 => "7",
        8 => "8",
        9 => "9",
        10 => "a",
        11 => "b",
        12 => "c",
        13 => "d",
        14 => "e",
        _ => "f",
    };
    proof {
        assert(r@ =~= seq![hex_char_of(v)]);
    }
    r
}

/// Encode bytes as a lowercase hex string.
pub fn encode_hex(bytes: &Vec<u8>) -> (r: String)
    ensures
        r@ == hex_encode(bytes@),
{
    let mut out = String::new();
    let mut i: usize = 0;
    while i < bytes.len()
        invariant
            i <= bytes.len(),
            out@ == hex_encode(bytes@.take(i as int)),
        decreases bytes.len() - i,
    {
        let b = bytes[i];
        out.append(hex_digit_str(b / 16));
        out.append(hex_digit_str(b % 16));
        i = i + 1;
        proof {
            assert(out@ =~= hex_encode(bytes@.take(i as int)));
        }
    }
    proof {
        assert(bytes@.take(bytes@.len() as int) =~= bytes@);
    }
    out
}

/// Numeric value of one character, if it is a lowercase hex digit.
pub fn hex_digit_val(c: char) -> (r: Option<u8>)
    ensures
        match r {
            Some(v) => is_hex_digit(c) && v == hex_val(c) && v < 16,
            None => !is_hex_digit(c),
        },
{
    let u = c as u32;
    if 48 <= u && u <= 57 {
        Some((u - 48) as u8)
    } else if 97 <= u && u <= 102 {
        Some((u - 97 + 10) as u8)
    } else {
        None
    }
}

/// Decode a lowercase hex string; `None` if the length is odd or any
/// character is not a lowercase hex digit.
pub fn decode_hex(s: &str) -> (r: Option<Vec<u8>>)
    ensures
        match r {
            Some(bytes) => s@.len() % 2 == 0 && is_hex_seq(s@) && bytes@ == hex_decode(s@),
            None => !(s@.len() % 2 == 0 && is_hex_seq(s@)),
        },
{
    let n = s.unicode_len();
    if n % 2 != 0 {
        return None;
    }
    let mut out: Vec<u8> = Vec::new();
    let mut i: usize = 0;
    while i < n
        invariant
            s@.len() == n,
            n % 2 == 0,
            i % 2 == 0,
            i <= n,
            forall|k: int| 0 <= k < i ==> is_hex_digit(#[trigger] s@[k]),
            out@ == hex_decode(s@.take(i as int)),
        decreases n - i,
    {
        let hi = match hex_digit_val(s.get_char(i)) {
            Some(v) => v,
            None => {
                return None;
            },
        };
        let lo = match hex_digit_val(s.get_char(i + 1)) {
            Some(v) => v,
            None => {
                return None;
            },
        };
        out.push(hi * 16 + lo);
        i = i + 2;
        proof {
            assert(out@ =~= hex_decode(s@.take(i as int)));
        }
    }
    proof {
        assert(s@.take(n as int) =~= s@);
    }
    Some(out)
}

} // verus!
