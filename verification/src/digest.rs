//! SHA-256 digests and their hexadecimal notation.

use sha2::Digest;
use sha2::Sha256;
use vstd::prelude::*;

verus! {

/// The SHA-256 digest of a message.
pub uninterp spec fn sha256(message: Seq<u8>) -> Seq<u8>;

/// `sha2::Sha256::digest` hashes the whole message in one call. The digest is
/// the 32 bytes that SHA-256 gives for the message; nothing else about the hash
/// function is claimed.
#[verifier::external_body]
pub(crate) fn digest_of(message: &[u8]) -> (out: Vec<u8>)
    ensures
        out@ == sha256(message@),
        out@.len() == 32,
{
    Sha256::digest(message).to_vec()
}

/// The hexadecimal digit `n`, small letters.
pub open spec fn hex_digit(n: int) -> char {
    if n < 10 {
        (48 + n) as char
    } else {
        (87 + n) as char
    }
}

/// The bytes in hexadecimal notation, two digits for each, the high one first.
pub open spec fn hex_of(bytes: Seq<u8>) -> Seq<char> {
    Seq::new(
        2 * bytes.len(),
        |i: int|
            if i % 2 == 0 {
                hex_digit(bytes[i / 2] as int / 16)
            } else {
                hex_digit(bytes[i / 2] as int % 16)
            },
    )
}

fn hex_char(n: u8) -> (c: char)
    requires
        n < 16,
    ensures
        c == hex_digit(n as int),
{
    if n < 10 {
        (48 + n) as char
    } else {
        (87 + n) as char
    }
}

/// The first `count` bytes in hexadecimal notation.
pub fn hex(bytes: &Vec<u8>, count: usize) -> (out: String)
    requires
        count <= bytes@.len(),
    ensures
        out@ == hex_of(bytes@.take(count as int)),
{
    let mut out = String::new();
    let mut i: usize = 0;
    while i < count
        invariant
            i <= count <= bytes@.len(),
            out@ == hex_of(bytes@.take(i as int)),
        decreases count - i,
    {
        let b: u8 = bytes[i];
        out.push(hex_char(b / 16));
        out.push(hex_char(b % 16));
        i += 1;
        proof {
            let done = bytes@.take(i as int);
            let hexed = hex_of(done);
            assert(hexed.len() == out@.len());
            assert forall|k: int| 0 <= k < hexed.len() implies hexed[k] == out@[k] by {
                if k < 2 * (i - 1) {
                    assert(done[k / 2] == bytes@.take(i - 1)[k / 2]);
                }
            }
            assert(out@ =~= hexed);
        }
    }
    out
}

/// Different bytes have different hexadecimal notations.
pub proof fn hex_is_injective(a: Seq<u8>, b: Seq<u8>)
    requires
        hex_of(a) == hex_of(b),
    ensures
        a == b,
{
    assert(hex_of(a).len() == 2 * a.len());
    assert(hex_of(b).len() == 2 * b.len());
    assert forall|i: int| 0 <= i < a.len() implies a[i] == b[i] by {
        assert(hex_of(a)[2 * i] == hex_of(b)[2 * i]);
        assert(hex_of(a)[2 * i + 1] == hex_of(b)[2 * i + 1]);
        let x: u8 = a[i];
        let y: u8 = b[i];
        assert((2 * i) / 2 == i && (2 * i + 1) / 2 == i);
        assert((2 * i) % 2 == 0 && (2 * i + 1) % 2 == 1);
        assert(hex_of(a)[2 * i] == hex_digit(x as int / 16));
        assert(hex_of(b)[2 * i] == hex_digit(y as int / 16));
        assert(hex_of(a)[2 * i + 1] == hex_digit(x as int % 16));
        assert(hex_of(b)[2 * i + 1] == hex_digit(y as int % 16));
        hex_digit_is_injective(x as int / 16, y as int / 16);
        hex_digit_is_injective(x as int % 16, y as int % 16);
    }
    assert(a =~= b);
}

proof fn hex_digit_is_injective(m: int, n: int)
    requires
        0 <= m < 16,
        0 <= n < 16,
        hex_digit(m) == hex_digit(n),
    ensures
        m == n,
{
}

/// The SHA-256 digest of a message in hexadecimal notation.
pub fn hex_digest(message: &[u8]) -> (out: String)
    ensures
        out@ == hex_of(sha256(message@)),
        out@.len() == 64,
{
    let d = digest_of(message);
    proof {
        assert(d@.take(32) =~= d@);
    }
    hex(&d, 32)
}

/// Each byte is written in two digits to the base of sixteen, the high one first, with
/// small letters for what is above nine.
pub proof fn a_byte_is_two_digits(bytes: Seq<u8>, i: int)
    requires
        0 <= i < bytes.len(),
    ensures
        hex_of(bytes).len() == 2 * bytes.len(),
        ({
            let high = hex_of(bytes)[2 * i];
            let low = hex_of(bytes)[2 * i + 1];
            let h = if '0' <= high <= '9' {
                high as int - '0' as int
            } else {
                high as int - 'a' as int + 10
            };
            let l = if '0' <= low <= '9' {
                low as int - '0' as int
            } else {
                low as int - 'a' as int + 10
            };
            &&& '0' <= high <= '9' || 'a' <= high <= 'f'
            &&& '0' <= low <= '9' || 'a' <= low <= 'f'
            &&& bytes[i] == 16 * h + l
        }),
{
    let b: u8 = bytes[i];
    assert((2 * i) / 2 == i && (2 * i + 1) / 2 == i);
    assert((2 * i) % 2 == 0 && (2 * i + 1) % 2 == 1);
    assert(hex_of(bytes)[2 * i] == hex_digit(b as int / 16));
    assert(hex_of(bytes)[2 * i + 1] == hex_digit(b as int % 16));
}

} // verus!
