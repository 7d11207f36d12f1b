//! Salted password digests and their hexadecimal text.
use vstd::prelude::*;
use crate::text::string_from_chars;

verus! {

/// Length of a digest, in bytes.
pub const DIGEST_LEN: usize = 32;

/// The BLAKE3 digest of the password's UTF-8 bytes followed by the salt.
pub uninterp spec fn salted_digest(password: Seq<char>, salt: Seq<u8>) -> Seq<u8>;

/// Relies on blake3::Hasher (update with the password, update with the salt,
/// finalize): a 32-byte digest that depends on the two inputs alone.
#[verifier::external_body]
pub fn hash_with_salt(password: &str, salt: &[u8]) -> (r: Vec<u8>)
    ensures
        r@ == salted_digest(password@, salt@),
        r@.len() == DIGEST_LEN,
{
    let mut hasher = blake3::Hasher::new();
    hasher.update(password.as_bytes());
    hasher.update(salt);
    hasher.finalize().as_bytes().to_vec()
}

/// The lower-case hexadecimal digit for a value below 16.
pub open spec fn hex_digit(v: int) -> char {
    if v < 10 {
        (48 + v) as char
    } else {
        (87 + v) as char
    }
}

/// The value of a hexadecimal digit, either case.
pub open spec fn digit_value(c: char) -> Option<int> {
    if '0' <= c && c <= '9' {
        Some(c as int - 48)
    } else if 'a' <= c && c <= 'f' {
        Some(c as int - 87)
    } else if 'A' <= c && c <= 'F' {
        Some(c as int - 55)
    } else {
        None
    }
}

/// Two digits per byte, high half first.
pub open spec fn hex_of(b: Seq<u8>) -> Seq<char> {
    Seq::new(2 * b.len(), |i: int| if i % 2 == 0 { hex_digit(b[i / 2] as int / 16) } else { hex_digit(b[i / 2] as int % 16) })
}

/// The digest that a text of exactly 64 hexadecimal digits spells.
pub open spec fn digest_of_hex(s: Seq<char>) -> Option<Seq<u8>> {
    if s.len() == 2 * DIGEST_LEN && forall|i: int| 0 <= i < s.len() ==> (#[trigger] digit_value(s[i])) is Some {
        Some(Seq::new(DIGEST_LEN as nat, |i: int| (digit_value(s[2 * i]).unwrap() * 16 + digit_value(s[2 * i + 1]).unwrap()) as u8))
    } else {
        None
    }
}

fn digit(v: u8) -> (c: char)
    requires
        v < 16,
    ensures
        c == hex_digit(v as int),
{
    if v < 10 {
        (48 + v) as char
    } else {
        (87 + v) as char
    }
}

fn value_of_digit(c: char) -> (r: Option<u8>)
    ensures
        match digit_value(c) {
            Some(v) => r == Some(v as u8) && 0 <= v < 16,
            None => r is None,
        },
{
    if '0' <= c && c <= '9' {
        Some((c as u32 - 48) as u8)
    } else if 'a' <= c && c <= 'f' {
        Some((c as u32 - 87) as u8)
    } else if 'A' <= c && c <= 'F' {
        Some((c as u32 - 55) as u8)
    } else {
        None
    }
}

/// The lower-case hexadecimal text of some bytes.
pub fn to_hex(b: &Vec<u8>) -> (r: String)
    ensures
        r@ == hex_of(b@),
{
    let mut out: Vec<char> = Vec::new();
    let mut i: usize = 0;
    while i < b.len()
        invariant
            i <= b@.len(),
            out@.len() == 2 * i,
            forall|j: int| 0 <= j < 2 * i ==> out@[j] == hex_of(b@)[j],
        decreases b@.len() - i,
    {
        let x = b[i];
        out.push(digit(x / 16));
        out.push(digit(x % 16));
        i = i + 1;
    }
    let r = string_from_chars(&out);
    assert(r@ =~= hex_of(b@));
    r
}

/// Reads a digest back from its hexadecimal text.
pub fn from_hex(s: &str) -> (r: Option<Vec<u8>>)
    ensures
        match digest_of_hex(s@) {
            Some(d) => r matches Some(v) && v@ == d,
            None => r is None,
        },
{
    let n = s.unicode_len();
    if n != 2 * DIGEST_LEN {
        return None;
    }
    let mut out: Vec<u8> = Vec::new();
    let mut i: usize = 0;
    while i < DIGEST_LEN
        invariant
            n == s@.len() == 2 * DIGEST_LEN,
            i <= DIGEST_LEN,
            out@.len() == i,
            forall|j: int| 0 <= j < 2 * i ==> (#[trigger] digit_value(s@[j])) is Some,
            forall|j: int| 0 <= j < i ==> out@[j] == (digit_value(s@[2 * j]).unwrap() * 16 + digit_value(s@[2 * j + 1]).unwrap()) as u8,
        decreases DIGEST_LEN - i,
    {
        let hi = value_of_digit(s.get_char(2 * i));
        let lo = value_of_digit(s.get_char(2 * i + 1));
        match (hi, lo) {
            (Some(h), Some(l)) => {
                out.push(h * 16 + l);
            },
            _ => {
                return None;
            },
        }
        i = i + 1;
    }
    assert(out@ =~= digest_of_hex(s@).unwrap());
    Some(out)
}

/// Reading back the hexadecimal text of a digest gives the digest.
pub proof fn lemma_hex_round_trip(b: Seq<u8>)
    requires
        b.len() == DIGEST_LEN,
    ensures
        digest_of_hex(hex_of(b)) == Some(b),
{
    let h = hex_of(b);
    assert forall|i: int| 0 <= i < h.len() implies (#[trigger] digit_value(h[i])) is Some by {
        let v = if i % 2 == 0 { b[i / 2] as int / 16 } else { b[i / 2] as int % 16 };
        assert(0 <= v < 16);
    }
    assert forall|i: int| 0 <= i < DIGEST_LEN implies
        (digit_value(h[2 * i]).unwrap() * 16 + digit_value(h[2 * i + 1]).unwrap()) as u8 == #[trigger] b[i] by {
        assert((2 * i) / 2 == i && (2 * i) % 2 == 0);
        assert((2 * i + 1) / 2 == i && (2 * i + 1) % 2 == 1);
        assert(digit_value(h[2 * i]).unwrap() == b[i] as int / 16);
        assert(digit_value(h[2 * i + 1]).unwrap() == b[i] as int % 16);
    }
    assert(digest_of_hex(h).unwrap() =~= b);
}

} // verus!
