//! The outside calls the engine's logic rests on, each behind one trusted
//! wrapper: the Shift-JIS codec, the SHA-1 digest, the standard base64
//! encoding, and the traditional Unix password hash. Every result is a
//! function of the arguments alone; each gets an uninterpreted name that the
//! callers' contracts speak of.
use vstd::prelude::*;

verus! {

use sha1::Digest;
use base64::Engine;

/// The text that the Shift-JIS decoder yields for a byte sequence.
pub uninterp spec fn sjis_decode_of(bytes: Seq<u8>) -> Seq<char>;

/// The bytes that the Shift-JIS encoder yields for a text.
pub uninterp spec fn sjis_encode_of(text: Seq<char>) -> Seq<u8>;

/// The SHA-1 digest of a byte sequence.
pub uninterp spec fn sha1_of(bytes: Seq<u8>) -> Seq<u8>;

/// The standard padded base64 encoding of a byte sequence.
pub uninterp spec fn base64_of(bytes: Seq<u8>) -> Seq<char>;

/// What the Unix crypt work-alike returns for a password and a salt text.
pub uninterp spec fn crypt_of(pass: Seq<u8>, salt: Seq<char>) -> Seq<char>;

/// Relies on `encoding_rs::SHIFT_JIS`'s `decode`: the text is a function of
/// the bytes alone; malformed sequences become replacement characters, and
/// no bytes decode to no text.
#[verifier::external_body]
pub fn sjis_decode(bytes: &Vec<u8>) -> (r: String)
    ensures
        r@ == sjis_decode_of(bytes@),
        bytes@.len() == 0 ==> r@.len() == 0,
{
    encoding_rs::SHIFT_JIS.decode(bytes.as_slice()).0.to_string()
}

/// Relies on `encoding_rs::SHIFT_JIS`'s `encode`: the bytes are a function
/// of the text alone; unmappable characters become numeric character
/// references, and an empty text encodes to no bytes.
#[verifier::external_body]
pub fn sjis_encode(text: &str) -> (r: Vec<u8>)
    ensures
        r@ == sjis_encode_of(text@),
        text@.len() == 0 ==> r@.len() == 0,
{
    encoding_rs::SHIFT_JIS.encode(text).0.into_owned()
}

/// Relies on `sha1::Sha1` through the `Digest` interface: the digest is
/// twenty bytes and depends on the input bytes alone.
#[verifier::external_body]
pub fn sha1_digest(bytes: &Vec<u8>) -> (r: Vec<u8>)
    ensures
        r@ == sha1_of(bytes@),
        r@.len() == 20,
{
    let mut hasher = sha1::Sha1::new();
    hasher.update(bytes.as_slice());
    hasher.finalize().to_vec()
}

/// A character of the standard base64 alphabet.
pub open spec fn in_base64_alphabet(c: char) -> bool {
    (65 <= c as u32 <= 90) || (97 <= c as u32 <= 122) || (48 <= c as u32 <= 57) || c == '+' || c
        == '/'
}

/// Relies on base64's `STANDARD` engine: the encoding is a function of the
/// bytes alone, four characters for every group of three bytes begun; every
/// character is from the standard alphabet except the `=` padding, which
/// stands only in the final, incomplete group.
#[verifier::external_body]
pub fn base64_standard(bytes: &Vec<u8>) -> (r: String)
    ensures
        r@ == base64_of(bytes@),
        r@.len() == 4 * ((bytes@.len() + 2) / 3),
        forall|i: int| 0 <= i < r@.len() ==> in_base64_alphabet(#[trigger] r@[i]) || r@[i] == '=',
        forall|i: int|
            0 <= i < r@.len() && (#[trigger] r@[i]) == '=' ==> i >= 4 * (bytes@.len() as int / 3),
{
    base64::engine::general_purpose::STANDARD.encode(bytes.as_slice())
}

/// A character of the alphabet that the traditional Unix crypt scheme reads
/// salts and writes hashes in.
pub open spec fn in_crypt_alphabet(c: char) -> bool {
    c == '.' || c == '/' || (48 <= c as u32 <= 57) || (65 <= c as u32 <= 90) || (97 <= c as u32
        <= 122)
}

/// Relies on `pwhash::unix::crypt`, called only on a salt that opens with
/// two characters of the crypt alphabet: such a salt selects the traditional
/// DES scheme, which always succeeds and yields thirteen characters — the
/// re-encoded salt, then the checksum — as a function of the password bytes
/// and the salt alone. Other salts select other schemes with other output
/// shapes, so this wrapper does not admit them.
#[verifier::external_body]
pub fn unix_crypt(pass: &Vec<u8>, salt: &str) -> (r: Option<String>)
    requires
        salt@.len() >= 2,
        in_crypt_alphabet(salt@[0]),
        in_crypt_alphabet(salt@[1]),
    ensures
        r is Some,
        r matches Some(s) ==> s@ == crypt_of(pass@, salt@) && s@.len() == 13,
{
    pwhash::unix::crypt(pass.as_slice(), salt).ok()
}

} // verus!
