//! Hash digests and their hexadecimal text.

use crate::text::chars_of;
use vstd::prelude::*;
use vstd::string::*;

verus! {

/// The SHA-256 digest of a byte string.
pub uninterp spec fn sha256_of(bytes: Seq<u8>) -> Seq<u8>;

/// `sha2::Sha256::digest`: 32 bytes that depend on the input alone.
#[verifier::external_body]
fn sha256(bytes: &[u8]) -> (r: Vec<u8>)
    ensures
        r@ == sha256_of(bytes@),
        r@.len() == 32,
{
    <sha2::Sha256 as sha2::Digest>::digest(bytes).to_vec()
}

/// The HMAC-SHA-256 code of a message under a key.
pub uninterp spec fn hmac_sha256_of(key: Seq<u8>, message: Seq<u8>) -> Seq<u8>;

/// `hmac::Hmac<sha2::Sha256>`: the 32-byte code of `message` under `key`, a
/// function of the two. A key of any length is taken, so making the code does
/// not fail.
#[verifier::external_body]
fn hmac_sha256(key: &[u8], message: &[u8]) -> (r: Vec<u8>)
    ensures
        r@ == hmac_sha256_of(key@, message@),
        r@.len() == 32,
{
    let mut mac = <hmac::Hmac<sha2::Sha256> as hmac::Mac>::new_from_slice(key).expect("any length");
    hmac::Mac::update(&mut mac, message);
    hmac::Mac::finalize(mac).into_bytes().to_vec()
}

/// The lower-case hexadecimal digit of a value below 16.
pub open spec fn nibble_char(n: int) -> char {
    if n < 10 {
        (48 + n) as char
    } else {
        (87 + n) as char
    }
}

/// The lower-case hexadecimal text of a byte string.
pub open spec fn hex_text(bytes: Seq<u8>) -> Seq<char>
    decreases bytes.len(),
{
    if bytes.len() == 0 {
        Seq::empty()
    } else {
        hex_text(bytes.drop_last()).push(nibble_char(bytes.last() as int / 16)).push(
            nibble_char(bytes.last() as int % 16),
        )
    }
}

fn nibble(n: u8) -> (c: char)
    requires
        n < 16,
    ensures
        c == nibble_char(n as int),
{
    if n < 10 {
        (48 + n) as char
    } else {
        (87 + n) as char
    }
}

/// The lower-case hexadecimal text of a byte string.
pub fn hex_digest(bytes: &[u8]) -> (r: String)
    ensures
        r@ == hex_text(bytes@),
{
    let mut out: String = String::new();
    let mut i: usize = 0;
    while i < bytes.len()
        invariant
            i <= bytes@.len(),
            out@ == hex_text(bytes@.take(i as int)),
        decreases bytes@.len() - i,
    {
        let b: u8 = bytes[i];
        assert(bytes@.take(i + 1).drop_last() =~= bytes@.take(i as int));
        out.push(nibble(b / 16));
        out.push(nibble(b % 16));
        i = i + 1;
    }
    assert(bytes@.take(bytes@.len() as int) =~= bytes@);
    out
}

/// The lower-case hexadecimal SHA-256 digest of a text's UTF-8 bytes.
pub open spec fn text_digest(s: Seq<char>) -> Seq<char> {
    hex_text(sha256_of(vstd::utf8::encode_utf8(s)))
}

/// The lower-case hexadecimal SHA-256 digest of a text's UTF-8 bytes.
pub fn digest_text(s: &str) -> (r: String)
    ensures
        r@ == text_digest(s@),
{
    hex_digest(sha256(s.as_bytes()).as_slice())
}

/// The lower-case hexadecimal HMAC-SHA-256 code of a message.
pub fn hmac_text(key: &[u8], message: &[u8]) -> (r: String)
    ensures
        r@ == hex_text(hmac_sha256_of(key@, message@)),
{
    hex_digest(hmac_sha256(key, message).as_slice())
}

/// The value of a hexadecimal digit of either case.
pub open spec fn nibble_value(c: char) -> Option<int> {
    let n = c as int;
    if 48 <= n <= 57 {
        Some(n - 48)
    } else if 97 <= n <= 102 {
        Some(n - 87)
    } else if 65 <= n <= 70 {
        Some(n - 55)
    } else {
        None
    }
}

/// The bytes that a hexadecimal text of either case spells, if it spells any.
pub open spec fn hex_bytes(s: Seq<char>) -> Option<Seq<u8>>
    decreases s.len(),
{
    if s.len() == 0 {
        Some(Seq::empty())
    } else if s.len() == 1 {
        None
    } else {
        match (
            hex_bytes(s.take(s.len() - 2)),
            nibble_value(s[s.len() - 2]),
            nibble_value(s[s.len() - 1]),
        ) {
            (Some(head), Some(high), Some(low)) => Some(head.push((high * 16 + low) as u8)),
            _ => None,
        }
    }
}

/// The value of a hexadecimal digit of either case.
pub fn decode_hex_nibble(c: char) -> (r: Option<u8>)
    ensures
        match r {
            Some(n) => nibble_value(c) == Some(n as int) && n < 16,
            None => nibble_value(c) is None,
        },
{
    let n: u32 = c as u32;
    if 48 <= n && n <= 57 {
        Some((n - 48) as u8)
    } else if 97 <= n && n <= 102 {
        Some((n - 87) as u8)
    } else if 65 <= n && n <= 70 {
        Some((n - 55) as u8)
    } else {
        None
    }
}

proof fn lemma_hex_prefix(s: Seq<char>, n: int)
    requires
        0 <= n <= s.len(),
        (s.len() - n) % 2 == 0,
        hex_bytes(s.take(n)) is None,
    ensures
        hex_bytes(s) is None,
    decreases s.len() - n,
{
    if n == s.len() {
        assert(s.take(n) =~= s);
    } else {
        let next = s.take(n + 2);
        assert(next.take(next.len() - 2) =~= s.take(n));
        assert(hex_bytes(next) is None);
        lemma_hex_prefix(s, n + 2);
    }
}

/// The bytes that a hexadecimal text of either case spells, if it spells any.
pub fn decode_hex(s: &str) -> (r: Option<Vec<u8>>)
    ensures
        match r {
            Some(b) => hex_bytes(s@) == Some(b@),
            None => hex_bytes(s@) is None,
        },
{
    let all: Vec<char> = chars_of(s);
    if all.len() % 2 != 0 {
        proof {
            lemma_odd_hex(s@);
        }
        return None;
    }
    let mut out: Vec<u8> = Vec::new();
    let mut i: usize = 0;
    while i < all.len()
        invariant
            i <= all@.len(),
            i % 2 == 0,
            all@.len() % 2 == 0,
            all@ == s@,
            hex_bytes(all@.take(i as int)) == Some(out@),
        decreases all@.len() - i,
    {
        let ghost next = all@.take(i + 2);
        assert(next.take(next.len() - 2) =~= all@.take(i as int));
        assert(next[next.len() - 2] == all@[i as int]);
        assert(next[next.len() - 1] == all@[i + 1]);
        match (decode_hex_nibble(all[i]), decode_hex_nibble(all[i + 1])) {
            (Some(high), Some(low)) => {
                assert(high * 16 + low < 256);
                out.push(high * 16 + low);
            },
            _ => {
                proof {
                    lemma_hex_prefix(all@, i + 2);
                }
                return None;
            },
        }
        i = i + 2;
    }
    assert(all@.take(all@.len() as int) =~= all@);
    Some(out)
}

proof fn lemma_odd_hex(s: Seq<char>)
    requires
        s.len() % 2 == 1,
    ensures
        hex_bytes(s) is None,
    decreases s.len(),
{
    if s.len() > 1 {
        lemma_odd_hex(s.take(s.len() - 2));
    }
}

/// Reading the hexadecimal text of a byte string gives the bytes back.
pub proof fn law_hex_round_trip(bytes: Seq<u8>)
    ensures
        hex_bytes(hex_text(bytes)) == Some(bytes),
        hex_text(bytes).len() == 2 * bytes.len(),
    decreases bytes.len(),
{
    if bytes.len() > 0 {
        let head = bytes.drop_last();
        let last = bytes.last() as int;
        law_hex_round_trip(head);
        let s = hex_text(bytes);
        assert(s.take(s.len() - 2) =~= hex_text(head));
        assert(0 <= last / 16 < 16 && 0 <= last % 16 < 16);
        assert(nibble_value(nibble_char(last / 16)) == Some(last / 16));
        assert(nibble_value(nibble_char(last % 16)) == Some(last % 16));
        assert(last / 16 * 16 + last % 16 == last);
        assert(bytes =~= head.push(bytes.last()));
    } else {
        assert(bytes =~= Seq::<u8>::empty());
    }
}

} // verus!
