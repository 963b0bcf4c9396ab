//! Data encoding and hashing primitives: base64url without padding, and the
//! 256-bit digest used by the Sidetree hashing process.

use vstd::prelude::*;

verus! {

/// Character of the base64url alphabet at index `i`.
pub open spec fn b64url_char(i: int) -> char
    recommends
        0 <= i < 64,
{
    if 0 <= i < 26 {
        ((65 + i) as u32) as char
    } else if 26 <= i < 52 {
        ((97 + (i - 26)) as u32) as char
    } else if 52 <= i < 62 {
        ((48 + (i - 52)) as u32) as char
    } else if i == 62 {
        '-'
    } else {
        '_'
    }
}

/// Base64url encoding without padding: big-endian 6-bit groups, three input
/// bytes to four output characters, with short final groups.
pub open spec fn b64url_nopad(bs: Seq<u8>) -> Seq<char>
    decreases bs.len(),
{
    if bs.len() == 0 {
        Seq::empty()
    } else if bs.len() == 1 {
        let b0 = bs[0] as int;
        seq![b64url_char(b0 / 4), b64url_char(b0 % 4 * 16)]
    } else if bs.len() == 2 {
        let b0 = bs[0] as int;
        let b1 = bs[1] as int;
        seq![
            b64url_char(b0 / 4),
            b64url_char(b0 % 4 * 16 + b1 / 16),
            b64url_char(b1 % 16 * 4),
        ]
    } else {
        let b0 = bs[0] as int;
        let b1 = bs[1] as int;
        let b2 = bs[2] as int;
        seq![
            b64url_char(b0 / 4),
            b64url_char(b0 % 4 * 16 + b1 / 16),
            b64url_char(b1 % 16 * 4 + b2 / 64),
            b64url_char(b2 % 64),
        ] + b64url_nopad(bs.skip(3))
    }
}

/// Relies on base64::encode_config with base64::URL_SAFE_NO_PAD: the standard
/// base64url alphabet over big-endian 6-bit groups, without padding. The length
/// bound keeps the crate's output-size computation from overflowing.
#[verifier::external_body]
pub fn base64url_encode(data: &Vec<u8>) -> (r: String)
    requires
        data@.len() * 4 <= usize::MAX,
    ensures
        r@ == b64url_nopad(data@),
{
    base64::encode_config(data, base64::URL_SAFE_NO_PAD)
}

/// The SHA-256 digest of a byte sequence. Its value is fixed by the algorithm
/// and depends on the input alone; it is named here, not defined.
pub uninterp spec fn sha256_of(bs: Seq<u8>) -> Seq<u8>;

/// Relies on sha2::Sha256: a 32-byte digest determined by the input alone.
#[verifier::external_body]
pub fn sha256(data: &[u8]) -> (r: Vec<u8>)
    ensures
        r@ == sha256_of(data@),
        r@.len() == 32,
{
    let mut hasher = <sha2::Sha256 as sha2::Digest>::new();
    sha2::Digest::update(&mut hasher, data);
    sha2::Digest::finalize(hasher).to_vec()
}

} // verus!

verus! {

/// Relies on String::from_utf8: on success the returned string's UTF-8 bytes
/// are exactly the input; it fails exactly on input that is not valid UTF-8.
#[verifier::external_body]
pub fn string_from_utf8(bytes: Vec<u8>) -> (r: Option<String>)
    ensures
        match r {
            Option::Some(s) => vstd::utf8::encode_utf8(s@) == bytes@,
            Option::None => !vstd::utf8::valid_utf8(bytes@),
        },
{
    String::from_utf8(bytes).ok()
}

} // verus!
