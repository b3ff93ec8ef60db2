//! Content hashing and text decoding at the outside-crate boundary.
use vstd::prelude::*;
use vstd::string::*;
use sha2::Digest;

verus! {

/// The lowercase hex SHA-256 digest of a byte sequence. The digest itself
/// is far too long to state here; this name pins down that it is a function
/// of the bytes alone.
pub uninterp spec fn sha256_hex_of(bytes: Seq<u8>) -> Seq<char>;

/// A lowercase hexadecimal digit.
pub open spec fn spec_is_lower_hex_digit(c: char) -> bool {
    (('0' as u32) <= (c as u32) && (c as u32) <= ('9' as u32)) || (('a' as u32) <= (c as u32) && (
    c as u32) <= ('f' as u32))
}

/// Relies on sha2's `Sha256` (digest of 32 bytes) and generic-array's
/// `LowerHex` formatting, which draws two digits per byte from the table of
/// lowercase hex digits: the result is the 64-character lowercase hex digest
/// of exactly the given bytes.
#[verifier::external_body]
pub fn sha256_hex(bytes: &[u8]) -> (r: String)
    ensures
        r@ == sha256_hex_of(bytes@),
        r@.len() == 64,
        forall|i: int| 0 <= i < r@.len() ==> spec_is_lower_hex_digit(#[trigger] r@[i]),
{
    let mut hasher = sha2::Sha256::new();
    hasher.update(bytes);
    let out = hasher.finalize();
    format!("{:x}", out)
}

/// Hashes the content of a vector of bytes.
pub fn sha256_hex_vec(bytes: &Vec<u8>) -> (r: String)
    ensures
        r@ == sha256_hex_of(bytes@),
        r@.len() == 64,
        forall|i: int| 0 <= i < r@.len() ==> spec_is_lower_hex_digit(#[trigger] r@[i]),
{
    sha256_hex(bytes.as_slice())
}

/// Hashes the UTF-8 bytes of a string.
pub fn sha256_hex_str(s: &str) -> (r: String)
    ensures
        r@ == sha256_hex_of(s.spec_bytes()),
        r@.len() == 64,
        forall|i: int| 0 <= i < r@.len() ==> spec_is_lower_hex_digit(#[trigger] r@[i]),
{
    sha256_hex(s.as_bytes())
}

/// The hash recorded for an optional local file: the hash of its bytes when
/// it exists, the empty string otherwise.
pub open spec fn spec_hash_opt(bytes: Option<Seq<u8>>) -> Seq<char> {
    match bytes {
        Some(b) => sha256_hex_of(b),
        None => Seq::empty(),
    }
}

pub fn hash_opt(bytes: &Option<Vec<u8>>) -> (r: String)
    ensures
        r@ == spec_hash_opt(bytes.deep_view()),
{
    match bytes {
        Some(b) => {
            let r = sha256_hex_vec(b);
            proof {
                assert(b.deep_view() =~= b@);
                assert(bytes.deep_view() == Some(b.deep_view()));
            }
            r
        },
        None => {
            let e = String::new();
            proof {
                assert(e@ =~= Seq::<char>::empty());
            }
            e
        },
    }
}

/// What `String::from_utf8_lossy` decodes a byte sequence to.
pub uninterp spec fn utf8_lossy_of(bytes: Seq<u8>) -> Seq<char>;

/// Relies on `String::from_utf8_lossy` of std: the result is a function of
/// the bytes alone, and valid UTF-8 passes through unchanged (so re-encoding
/// the result gives back the input bytes).
#[verifier::external_body]
pub fn utf8_lossy(bytes: &Vec<u8>) -> (r: String)
    ensures
        r@ == utf8_lossy_of(bytes@),
        vstd::utf8::valid_utf8(bytes@) ==> vstd::utf8::encode_utf8(r@) == bytes@,
{
    String::from_utf8_lossy(bytes.as_slice()).to_string()
}

} // verus!
