//! Digests, and the hexadecimal text they are kept and compared as.

use vstd::prelude::*;

verus! {

/// How many hexadecimal digits of a digest are kept.
pub const FINGERPRINT_HEX_CHARS: usize = 16;

/// How many bytes those digits stand for.
pub const FINGERPRINT_BYTES: usize = 8;

/// The SHA-256 digest of a message.
pub uninterp spec fn sha256(message: Seq<u8>) -> Seq<u8>;

/// `sha2::Sha256::digest`: the digest of the whole message, 32 bytes that
/// depend on the message alone.
#[verifier::external_body]
fn sha256_of(message: &[u8]) -> (r: Vec<u8>)
    ensures
        r@ == sha256(message@),
        r@.len() == 32,
{
    <sha2::Sha256 as sha2::Digest>::digest(message).to_vec()
}

/// The hexadecimal digit for `n`, in lower case.
pub open spec fn hex_digit(n: int) -> char {
    if n < 10 {
        ((48 + n) as u8) as char
    } else {
        ((87 + n) as u8) as char
    }
}

/// `bytes` in hexadecimal, two digits for each.
pub open spec fn hex(bytes: Seq<u8>) -> Seq<char>
    decreases bytes.len(),
{
    if bytes.len() == 0 {
        seq![]
    } else {
        hex(bytes.drop_last()).push(hex_digit(bytes.last() as int / 16)).push(
            hex_digit(bytes.last() as int % 16),
        )
    }
}

/// The text a message's digest is kept as: the first of its bytes, in
/// hexadecimal.
pub open spec fn fingerprint_text(message: Seq<u8>) -> Seq<char> {
    hex(sha256(message).take(FINGERPRINT_BYTES as int))
}

fn hex_char(n: u8) -> (c: char)
    requires
        n < 16,
    ensures
        c == hex_digit(n as int),
{
    if n < 10 {
        (48 + n) as char
    } else {
        (87 + n) as char
    }
}

/// `digest`, cut to the bytes that are kept, in hexadecimal.
pub fn truncated_hex(digest: &Vec<u8>) -> (r: String)
    requires
        digest@.len() >= FINGERPRINT_BYTES,
    ensures
        r@ == hex(digest@.take(FINGERPRINT_BYTES as int)),
        r@.len() == FINGERPRINT_HEX_CHARS,
{
    let mut r = String::new();
    let mut i: usize = 0;
    proof {
        assert(digest@.take(0) =~= seq![]);
        assert(r@ =~= hex(seq![]));
    }
    while i < FINGERPRINT_BYTES
        invariant
            i <= FINGERPRINT_BYTES <= digest@.len(),
            r@ == hex(digest@.take(i as int)),
            r@.len() == 2 * i,
        decreases FINGERPRINT_BYTES - i,
    {
        r.push(hex_char(digest[i] / 16));
        r.push(hex_char(digest[i] % 16));
        proof {
            assert(digest@.take(i + 1).drop_last() =~= digest@.take(i as int));
            assert(digest@.take(i + 1).last() == digest@[i as int]);
        }
        i += 1;
    }
    r
}

/// The text the digest of `message` is kept as.
pub fn fingerprint_of(message: &[u8]) -> (r: String)
    ensures
        r@ == fingerprint_text(message@),
        r@.len() == FINGERPRINT_HEX_CHARS,
{
    truncated_hex(&sha256_of(message))
}

/// Whether `c` is a lower-case hexadecimal digit.
pub open spec fn is_hex(c: char) -> bool {
    '0' <= c <= '9' || 'a' <= c <= 'f'
}

/// Hexadecimal text is two lower-case digits for each byte.
pub proof fn hex_is_hexadecimal(bytes: Seq<u8>)
    ensures
        hex(bytes).len() == 2 * bytes.len(),
        forall|i: int| 0 <= i < hex(bytes).len() ==> is_hex(#[trigger] hex(bytes)[i]),
    decreases bytes.len(),
{
    if bytes.len() > 0 {
        hex_is_hexadecimal(bytes.drop_last());
        let front = hex(bytes.drop_last());
        let high = bytes.last() as int / 16;
        let low = bytes.last() as int % 16;
        lemma_hex_digit(high);
        lemma_hex_digit(low);
        assert(hex(bytes) == front.push(hex_digit(high)).push(hex_digit(low)));
        assert forall|i: int| 0 <= i < hex(bytes).len() implies is_hex(#[trigger] hex(bytes)[i]) by {
            if i < front.len() {
                assert(hex(bytes)[i] == front[i]);
            }
        }
    }
}

proof fn lemma_hex_digit(n: int)
    requires
        0 <= n < 16,
    ensures
        is_hex(hex_digit(n)),
{
}

} // verus!
