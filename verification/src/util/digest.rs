use vstd::prelude::*;
use crate::util::text::{chars_of, str_equal};

verus! {

/// The SHA-512 digest of `data`.
pub uninterp spec fn sha512_of(data: Seq<u8>) -> Seq<u8>;

/// `ring::digest::digest` with `SHA512`: the contract claims that the result
/// is the SHA-512 digest of the input, a function of the input alone, and is
/// 64 bytes long (`SHA512_OUTPUT_LEN`).
#[verifier::external_body]
fn sha512(data: &[u8]) -> (r: Vec<u8>)
    ensures
        r@ == sha512_of(data@),
        r@.len() == 64,
{
    ring::digest::digest(&ring::digest::SHA512, data).as_ref().to_vec()
}

/// The lower-case hexadecimal digit for `d` in `0..16`.
pub open spec fn hex_digit(d: int) -> char {
    seq!['0', '1', '2', '3', '4', '5', '6', '7', '8', '9', 'a', 'b', 'c', 'd', 'e', 'f'][d]
}

/// The lower-case hexadecimal form of `bytes`: two digits per byte, the
/// high half first.
pub open spec fn hex_lower(bytes: Seq<u8>) -> Seq<char>
    decreases bytes.len(),
{
    if bytes.len() == 0 {
        Seq::<char>::empty()
    } else {
        let b = bytes.last();
        hex_lower(bytes.drop_last()) + seq![hex_digit((b / 16) as int), hex_digit((b % 16) as int)]
    }
}

/// `hex::ToHex::encode_hex` into a `String`: the contract claims what the
/// crate's source shows, two lower-case digits per byte from the table
/// `0123456789abcdef`, the high half first.
#[verifier::external_body]
fn encode_hex(data: &[u8]) -> (r: String)
    ensures
        r@ == hex_lower(data@),
{
    hex::ToHex::encode_hex::<String>(&data)
}

/// Whether a downloaded database matches its published hash: the
/// lower-case hexadecimal SHA-512 digest of the database is the hash text.
pub fn verify_database(content: &[u8], hash: &str) -> (r: bool)
    ensures
        r == (hex_lower(sha512_of(content@)) == hash@),
{
    let digest = sha512(content);
    let hex = encode_hex(digest.as_slice());
    str_equal(hex.as_str(), hash)
}

/// The digest of a database, in lower-case hexadecimal.
pub fn database_hash(content: &[u8]) -> (r: String)
    ensures
        r@ == hex_lower(sha512_of(content@)),
{
    let digest = sha512(content);
    encode_hex(digest.as_slice())
}

} // verus!
