use vstd::prelude::*;
use vstd::utf8::{decode_utf8, valid_utf8};

verus! {

/// Unsigned integer in the 4 little-endian bytes of `b` at `o`.
pub open spec fn le_u32(b: Seq<u8>, o: int) -> int {
    b[o] + b[o + 1] * 0x100 + b[o + 2] * 0x1_0000 + b[o + 3] * 0x100_0000
}

/// Unsigned integer in the 8 little-endian bytes of `b` at `o`.
pub open spec fn le_u64(b: Seq<u8>, o: int) -> int {
    le_u32(b, o) + le_u32(b, o + 4) * 0x1_0000_0000
}

/// Two's-complement integer in the 8 little-endian bytes of `b` at `o`.
pub open spec fn le_i64(b: Seq<u8>, o: int) -> int {
    let u = le_u64(b, o);
    if u >= 0x8000_0000_0000_0000 {
        u - 0x1_0000_0000_0000_0000
    } else {
        u
    }
}

pub fn read_u32_le(b: &Vec<u8>, o: usize) -> (r: u32)
    requires
        o + 4 <= b@.len(),
    ensures
        r == le_u32(b@, o as int),
{
    // The length is a usize, which bounds every index below.
    let _len: usize = b.len();
    b[o] as u32 + (b[o + 1] as u32) * 0x100 + (b[o + 2] as u32) * 0x1_0000 + (b[o + 3] as u32)
        * 0x100_0000
}

pub fn read_u64_le(b: &Vec<u8>, o: usize) -> (r: u64)
    requires
        o + 8 <= b@.len(),
    ensures
        r == le_u64(b@, o as int),
{
    // The length is a usize, which bounds every index below.
    let _len: usize = b.len();
    let lo: u32 = read_u32_le(b, o);
    let hi: u32 = read_u32_le(b, o + 4);
    lo as u64 + (hi as u64) * 0x1_0000_0000
}

pub fn read_i64_le(b: &Vec<u8>, o: usize) -> (r: i64)
    requires
        o + 8 <= b@.len(),
    ensures
        r == le_i64(b@, o as int),
{
    let u: u64 = read_u64_le(b, o);
    if u >= 0x8000_0000_0000_0000 {
        ((u - 0x8000_0000_0000_0000) as i64) + i64::MIN
    } else {
        u as i64
    }
}

/// Copy of the `n` bytes of `b` from `o`.
pub fn read_bytes(b: &Vec<u8>, o: usize, n: usize) -> (r: Vec<u8>)
    requires
        o + n <= b@.len(),
    ensures
        r@ == b@.subrange(o as int, o + n),
{
    let len: usize = b.len();
    let mut r: Vec<u8> = Vec::new();
    let mut k: usize = 0;
    while k < n
        invariant
            o + n <= b@.len(),
            len == b@.len(),
            k <= n,
            r@ == b@.subrange(o as int, o + k),
        decreases n - k,
    {
        r.push(b[o + k]);
        k = k + 1;
        proof {
            assert(r@ =~= b@.subrange(o as int, o + k));
        }
    }
    r
}

/// What the standard base64 decoding makes of a text, if it is valid base64.
pub uninterp spec fn base64_decoded(s: Seq<char>) -> Option<Seq<u8>>;

/// What base58 decoding (Bitcoin alphabet) makes of a text, if it is valid base58.
pub uninterp spec fn base58_decoded(s: Seq<char>) -> Option<Seq<u8>>;

/// The base58 text (Bitcoin alphabet) of a byte string.
pub uninterp spec fn base58_encoded(b: Seq<u8>) -> Seq<char>;

/// Relies on base64::decode (standard alphabet, with padding): its result depends on
/// the text alone, and it fails on text that is not valid base64.
#[verifier::external_body]
pub(crate) fn decode_base64(s: &str) -> (r: Option<Vec<u8>>)
    ensures
        r matches Some(v) ==> base64_decoded(s@) == Some(v@),
        r is None ==> base64_decoded(s@) is None,
{
    base64::decode(s).ok()
}

/// Relies on bs58::decode(..).into_vec(): its result depends on the text alone, and it
/// fails on text outside the base58 alphabet.
#[verifier::external_body]
pub(crate) fn decode_base58(s: &str) -> (r: Option<Vec<u8>>)
    ensures
        r matches Some(v) ==> base58_decoded(s@) == Some(v@),
        r is None ==> base58_decoded(s@) is None,
{
    bs58::decode(s).into_vec().ok()
}

/// Relies on bs58::encode(..).into_string(): the text of a key, which depends on its
/// bytes alone.
#[verifier::external_body]
pub(crate) fn encode_base58(b: &Vec<u8>) -> (r: String)
    ensures
        r@ == base58_encoded(b@),
{
    bs58::encode(b).into_string()
}

/// Relies on String::from_utf8: it succeeds exactly on valid UTF-8, and then holds the
/// characters that the bytes encode.
#[verifier::external_body]
pub(crate) fn utf8_string(b: &Vec<u8>) -> (r: Option<String>)
    ensures
        r is Some <==> valid_utf8(b@),
        r matches Some(s) ==> s@ == decode_utf8(b@),
{
    String::from_utf8(b.clone()).ok()
}

} // verus!
