//! SHA-256 digests and their lowercase hex rendering.
//!
//! The digest itself comes from an outside implementation and is only
//! named, never restated; the hex encoding is small enough to state
//! exactly, and the encoder is held to that statement.

use vstd::prelude::*;
use sha2::Digest;

verus! {

/// The lowercase hex character for one nibble.
pub open spec fn hex_digit(n: u8) -> char
    recommends
        n < 16,
{
    if n < 10 {
        ((n + 0x30) as u8) as char
    } else {
        ((n + 0x57) as u8) as char
    }
}

/// Lowercase hex rendering of a byte string: two digits per byte, high
/// nibble first.
pub open spec fn hex_lower_of(bytes: Seq<u8>) -> Seq<char>
    decreases bytes.len(),
{
    if bytes.len() == 0 {
        Seq::empty()
    } else {
        seq![hex_digit(bytes[0] / 16), hex_digit(bytes[0] % 16)] + hex_lower_of(bytes.skip(1))
    }
}

pub proof fn lemma_hex_lower_len(bytes: Seq<u8>)
    ensures
        hex_lower_of(bytes).len() == 2 * bytes.len(),
    decreases bytes.len(),
{
    if bytes.len() > 0 {
        lemma_hex_lower_len(bytes.skip(1));
    }
}

/// The SHA-256 digest of a byte string. A pure function of the bytes alone;
/// its value is not restated here, only computed by the outside
/// implementation below.
pub uninterp spec fn sha256_of(bytes: Seq<u8>) -> Seq<u8>;

/// Relies on sha2::Sha256: the SHA-256 digest is a pure function of the
/// input bytes and is exactly 32 bytes long.
#[verifier::external_body]
fn sha256(data: &[u8]) -> (r: Vec<u8>)
    ensures
        r@ == sha256_of(data@),
        r@.len() == 32,
{
    let mut hasher = sha2::Sha256::new();
    hasher.update(data);
    hasher.finalize().to_vec()
}

/// Relies on base16ct::lower::encode_string: two lowercase hex digits per
/// input byte, high nibble first. It panics when the input is longer than
/// `usize::MAX / 2`, so such inputs are excluded.
#[verifier::external_body]
fn hex_lower(data: &[u8]) -> (r: String)
    requires
        data@.len() <= usize::MAX / 2,
    ensures
        r@ == hex_lower_of(data@),
{
    base16ct::lower::encode_string(data)
}

/// Lowercase hex SHA-256 digest of `data`, as compared against a catalog
/// checksum.
pub fn sha256_hex(data: &[u8]) -> (r: String)
    ensures
        r@ == hex_lower_of(sha256_of(data@)),
        r@.len() == 64,
{
    let d = sha256(data);
    let r = hex_lower(d.as_slice());
    proof {
        lemma_hex_lower_len(d@);
    }
    r
}

} // verus!
