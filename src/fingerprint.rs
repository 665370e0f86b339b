//! Content and perceptual fingerprints, and the distance between perceptual hashes.

use vstd::prelude::*;
use sha2::Digest;

verus! {

/// Largest Hamming distance at which two perceptual hashes count as similar.
pub const PHASH_THRESHOLD: u32 = 5;

pub open spec fn hex_digits() -> Seq<char> {
    seq!['0', '1', '2', '3', '4', '5', '6', '7', '8', '9', 'a', 'b', 'c', 'd', 'e', 'f']
}

/// Lowercase hexadecimal text of a byte sequence, high nibble first.
pub open spec fn hex_lower(b: Seq<u8>) -> Seq<char> {
    Seq::new(
        (2 * b.len()) as nat,
        |i: int|
            if i % 2 == 0 {
                hex_digits()[(b[i / 2] / 16) as int]
            } else {
                hex_digits()[(b[i / 2] % 16) as int]
            },
    )
}

/// Value of one hexadecimal digit, either case.
pub open spec fn hex_value(c: char) -> Option<int> {
    if '0' <= c && c <= '9' {
        Some(c as int - '0' as int)
    } else if 'a' <= c && c <= 'f' {
        Some(c as int - 'a' as int + 10)
    } else if 'A' <= c && c <= 'F' {
        Some(c as int - 'A' as int + 10)
    } else {
        None
    }
}

/// The bytes that a hexadecimal text stands for, or `None` where its length
/// is odd or it holds a character that is not a hexadecimal digit.
pub open spec fn hex_bytes(s: Seq<char>) -> Option<Seq<u8>>
    decreases s.len(),
{
    if s.len() == 0 {
        Some(Seq::empty())
    } else if s.len() == 1 {
        None
    } else {
        match (hex_value(s[0]), hex_value(s[1]), hex_bytes(s.subrange(2, s.len() as int))) {
            (Some(h), Some(l), Some(rest)) => Some(seq![(h * 16 + l) as u8] + rest),
            _ => None,
        }
    }
}

/// Relies on hex::encode: two lowercase digits per byte, high nibble first.
#[verifier::external_body]
pub(crate) fn hex_encode(b: &[u8]) -> (r: String)
    ensures
        r@ == hex_lower(b@),
{
    hex::encode(b)
}

/// Relies on hex::decode: the decoded bytes, or an error on an odd length or
/// a character that is not a hexadecimal digit.
#[verifier::external_body]
pub(crate) fn hex_decode(s: &str) -> (r: Option<Vec<u8>>)
    ensures
        match r {
            Some(v) => hex_bytes(s@) == Some(v@),
            None => hex_bytes(s@) is None,
        },
{
    hex::decode(s).ok()
}

/// The SHA-256 digest of a byte sequence.
pub uninterp spec fn sha256_of(b: Seq<u8>) -> Seq<u8>;

/// Relies on sha2::Sha256::digest: the 32-byte digest of the input.
#[verifier::external_body]
fn sha256_digest(b: &[u8]) -> (r: Vec<u8>)
    ensures
        r@ == sha256_of(b@),
        r@.len() == 32,
{
    sha2::Sha256::digest(b).to_vec()
}

/// Content hash of a file's bytes: the hex text of its SHA-256 digest.
pub fn compute_sha256(bytes: &[u8]) -> (r: String)
    ensures
        r@ == hex_lower(sha256_of(bytes@)),
        r@.len() == 64,
{
    let d = sha256_digest(bytes);
    hex_encode(d.as_slice())
}

/// The 72 gray intensities (9 columns by 8 rows, row by row) of an image
/// decoded from bytes, converted to grayscale and resized; `None` where the
/// bytes do not decode as an image.
pub uninterp spec fn luma_9x8_of(b: Seq<u8>) -> Option<Seq<u8>>;

/// Relies on image::load_from_memory, then DynamicImage::grayscale,
/// resize_exact to 9 by 8 with a Lanczos filter, and to_luma8: one byte per
/// pixel, row by row.
#[verifier::external_body]
fn luma_thumbnail(b: &[u8]) -> (r: Option<Vec<u8>>)
    ensures
        match r {
            Some(v) => luma_9x8_of(b@) == Some(v@) && v@.len() == 72,
            None => luma_9x8_of(b@) is None,
        },
{
    let img = image::load_from_memory(b).ok()?;
    let small = img.grayscale().resize_exact(9, 8, image::imageops::FilterType::Lanczos3);
    Some(small.to_luma8().into_raw())
}

/// Bit of the difference hash at (row, col): the left pixel is brighter than
/// its right neighbour.
pub open spec fn dhash_bit(px: Seq<u8>, row: int, col: int) -> nat {
    if px[row * 9 + col] > px[row * 9 + col + 1] {
        1
    } else {
        0
    }
}

/// The first `k` bits of a row, read as a binary number, first bit highest.
pub open spec fn row_value(px: Seq<u8>, row: int, k: nat) -> nat
    decreases k,
{
    if k == 0 {
        0
    } else {
        2 * row_value(px, row, (k - 1) as nat) + dhash_bit(px, row, k - 1)
    }
}

/// The 64-bit difference hash as eight bytes, one per row, most significant first.
pub open spec fn dhash_bytes(px: Seq<u8>) -> Seq<u8> {
    Seq::new(8, |r: int| row_value(px, r, 8) as u8)
}

/// The perceptual hash text of a 9 by 8 grayscale thumbnail.
pub open spec fn phash_text(px: Seq<u8>) -> Seq<char> {
    hex_lower(dhash_bytes(px))
}

/// The perceptual hash of a file's bytes, `None` where they do not decode.
pub open spec fn phash_of(bytes: Seq<u8>) -> Option<Seq<char>> {
    match luma_9x8_of(bytes) {
        Some(px) => Some(phash_text(px)),
        None => None,
    }
}

pub open spec fn pow2(k: nat) -> nat
    decreases k,
{
    if k == 0 {
        1
    } else {
        2 * pow2((k - 1) as nat)
    }
}

proof fn lemma_row_value_bound(px: Seq<u8>, row: int, k: nat)
    ensures
        row_value(px, row, k) < pow2(k),
    decreases k,
{
    if k > 0 {
        lemma_row_value_bound(px, row, (k - 1) as nat);
    }
}

proof fn lemma_pow2_small(k: nat)
    requires
        k <= 8,
    ensures
        pow2(k) <= 256,
    decreases 8 - k,
{
    if k < 8 {
        lemma_pow2_small((k + 1) as nat);
        assert(pow2((k + 1) as nat) == 2 * pow2(k));
    } else {
        assert(pow2(0) == 1);
        assert(pow2(1) == 2);
        assert(pow2(2) == 4);
        assert(pow2(3) == 8);
        assert(pow2(4) == 16);
        assert(pow2(5) == 32);
        assert(pow2(6) == 64);
        assert(pow2(7) == 128);
        assert(pow2(8) == 256);
    }
}

/// Difference hash of a 9 by 8 grayscale thumbnail, as 16 lowercase hex digits.
pub fn phash_from_luma(px: &Vec<u8>) -> (r: String)
    requires
        px@.len() == 72,
    ensures
        r@ == phash_text(px@),
        r@.len() == 16,
{
    let mut out: Vec<u8> = Vec::new();
    let mut row: usize = 0;
    while row < 8
        invariant
            row <= 8,
            px@.len() == 72,
            out@.len() == row,
            forall|r: int| 0 <= r < row ==> out@[r] == row_value(px@, r, 8) as u8,
        decreases 8 - row,
    {
        let mut acc: u8 = 0;
        let mut col: usize = 0;
        while col < 8
            invariant
                col <= 8,
                row < 8,
                px@.len() == 72,
                acc as nat == row_value(px@, row as int, col as nat),
            decreases 8 - col,
        {
            proof {
                lemma_row_value_bound(px@, row as int, (col + 1) as nat);
                lemma_pow2_small((col + 1) as nat);
            }
            let bit: u8 = if px[row * 9 + col] > px[row * 9 + col + 1] {
                1
            } else {
                0
            };
            acc = acc * 2 + bit;
            col += 1;
        }
        out.push(acc);
        row += 1;
    }
    assert(out@ =~= dhash_bytes(px@));
    hex_encode(out.as_slice())
}

/// Perceptual hash of a file's bytes; `None` where they do not decode as an image.
pub fn compute_phash(bytes: &[u8]) -> (r: Option<String>)
    ensures
        match r {
            Some(t) => phash_of(bytes@) == Some(t@) && t@.len() == 16,
            None => phash_of(bytes@) is None,
        },
{
    match luma_thumbnail(bytes) {
        Some(px) => Some(phash_from_luma(&px)),
        None => None,
    }
}

/// The perceptual hash depends on the bytes alone: identical bytes give
/// identical results, and a result is always 16 hexadecimal digits.
pub proof fn lemma_phash_deterministic(a: Seq<u8>, b: Seq<u8>)
    requires
        a == b,
    ensures
        phash_of(a) == phash_of(b),
        phash_of(a) is Some ==> phash_of(a).unwrap().len() == 16,
{
}

pub open spec fn popcount8(x: u8) -> nat
    decreases x,
{
    if x == 0 {
        0
    } else {
        (x % 2) as nat + popcount8(x / 2)
    }
}

/// Number of differing bits over the first `n` bytes of two sequences.
pub open spec fn hamming(a: Seq<u8>, b: Seq<u8>, n: nat) -> nat
    decreases n,
{
    if n == 0 {
        0
    } else {
        hamming(a, b, (n - 1) as nat) + popcount8(a[n - 1] ^ b[n - 1])
    }
}

pub open spec fn saturate(n: nat) -> u32 {
    if n >= 0xFFFF_FFFF {
        0xFFFF_FFFF
    } else {
        n as u32
    }
}

/// Bytes of a hash text, with text that is not valid hex read as no bytes.
pub open spec fn hex_or_empty(s: Seq<char>) -> Seq<u8> {
    match hex_bytes(s) {
        Some(b) => b,
        None => Seq::empty(),
    }
}

/// Distance between two hash texts: the Hamming distance of their bytes,
/// or the largest `u32` where the byte lengths differ.
pub open spec fn distance(a: Seq<char>, b: Seq<char>) -> u32 {
    let x = hex_or_empty(a);
    let y = hex_or_empty(b);
    if x.len() != y.len() {
        0xFFFF_FFFF
    } else {
        saturate(hamming(x, y, x.len()))
    }
}

proof fn lemma_popcount_le(x: u8)
    ensures
        popcount8(x) <= x,
    decreases x,
{
    if x > 0 {
        lemma_popcount_le(x / 2);
    }
}

fn count_ones8(x: u8) -> (r: u32)
    ensures
        r as nat == popcount8(x),
        r <= 255,
{
    let mut v: u8 = x;
    let mut c: u32 = 0;
    proof {
        lemma_popcount_le(x);
    }
    while v > 0
        invariant
            c as nat + popcount8(v) == popcount8(x),
            popcount8(x) <= 255,
        decreases v,
    {
        c = c + (v % 2) as u32;
        v = v / 2;
    }
    c
}

/// Hamming distance between two hex-encoded hashes.
pub fn phash_distance(a: &str, b: &str) -> (r: u32)
    ensures
        r == distance(a@, b@),
{
    let x = match hex_decode(a) {
        Some(v) => v,
        None => Vec::new(),
    };
    let y = match hex_decode(b) {
        Some(v) => v,
        None => Vec::new(),
    };
    assert(x@ == hex_or_empty(a@));
    assert(y@ == hex_or_empty(b@));
    if x.len() != y.len() {
        return u32::MAX;
    }
    let mut total: u32 = 0;
    let mut i: usize = 0;
    while i < x.len()
        invariant
            i <= x@.len(),
            x@.len() == y@.len(),
            total == saturate(hamming(x@, y@, i as nat)),
        decreases x@.len() - i,
    {
        let c = count_ones8(x[i] ^ y[i]);
        if total < u32::MAX - c {
            total = total + c;
        } else {
            total = u32::MAX;
        }
        i += 1;
    }
    total
}

proof fn lemma_hamming_symmetric(a: Seq<u8>, b: Seq<u8>, n: nat)
    requires
        n <= a.len(),
        n <= b.len(),
    ensures
        hamming(a, b, n) == hamming(b, a, n),
    decreases n,
{
    if n > 0 {
        lemma_hamming_symmetric(a, b, (n - 1) as nat);
        let p = a[n - 1];
        let q = b[n - 1];
        assert(p ^ q == q ^ p) by (bit_vector);
    }
}

proof fn lemma_hamming_self(a: Seq<u8>, n: nat)
    requires
        n <= a.len(),
    ensures
        hamming(a, a, n) == 0,
    decreases n,
{
    if n > 0 {
        lemma_hamming_self(a, (n - 1) as nat);
        let p = a[n - 1];
        assert(p ^ p == 0) by (bit_vector);
    }
}

/// The distance between two hashes does not depend on their order.
pub proof fn lemma_distance_symmetric(a: Seq<char>, b: Seq<char>)
    ensures
        distance(a, b) == distance(b, a),
{
    let x = hex_or_empty(a);
    let y = hex_or_empty(b);
    if x.len() == y.len() {
        lemma_hamming_symmetric(x, y, x.len());
    }
}

/// Every hash is at distance zero from itself.
pub proof fn lemma_distance_reflexive(a: Seq<char>)
    ensures
        distance(a, a) == 0,
{
    let x = hex_or_empty(a);
    lemma_hamming_self(x, x.len());
}

} // verus!
