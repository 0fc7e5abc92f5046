//! The hashing, encoding and randomness that the server takes from outside
//! crates: `base64` (URL-safe alphabet without padding, and the standard
//! alphabet), `sha2` (SHA-256), `hmac` (HMAC-SHA-256) and `getrandom`.
use vstd::prelude::*;
use base64::Engine;
use hmac::Mac;
use sha2::Digest;

verus! {

/// The character of the URL-safe base64 alphabet for the six-bit value `v`:
/// `A`-`Z`, `a`-`z`, `0`-`9`, `-`, `_`.
pub open spec fn base64url_digit(v: int) -> char {
    if v < 26 {
        ((65 + v) as u32) as char
    } else if v < 52 {
        ((97 + v - 26) as u32) as char
    } else if v < 62 {
        ((48 + v - 52) as u32) as char
    } else if v == 62 {
        '-'
    } else {
        '_'
    }
}

/// The URL-safe base64 text (RFC 4648 section 5, no padding) of `data`:
/// each group of three bytes gives four characters of six bits each; a last
/// group of one or two bytes gives two or three characters, its missing bits
/// taken as zero.
pub open spec fn base64url_of(data: Seq<u8>) -> Seq<char>
    decreases data.len(),
{
    if data.len() == 0 {
        Seq::empty()
    } else if data.len() == 1 {
        seq![base64url_digit(data[0] as int / 4), base64url_digit((data[0] as int % 4) * 16)]
    } else if data.len() == 2 {
        seq![
            base64url_digit(data[0] as int / 4),
            base64url_digit((data[0] as int % 4) * 16 + data[1] as int / 16),
            base64url_digit((data[1] as int % 16) * 4),
        ]
    } else {
        seq![
            base64url_digit(data[0] as int / 4),
            base64url_digit((data[0] as int % 4) * 16 + data[1] as int / 16),
            base64url_digit((data[1] as int % 16) * 4 + data[2] as int / 64),
            base64url_digit(data[2] as int % 64),
        ] + base64url_of(data.skip(3))
    }
}

/// The SHA-256 digest of `data`.
pub uninterp spec fn sha256_of(data: Seq<u8>) -> Seq<u8>;

/// The HMAC-SHA-256 tag of `message` under `key`.
pub uninterp spec fn hmac_sha256_of(key: Seq<u8>, message: Seq<u8>) -> Seq<u8>;

/// The standard base64 text (RFC 4648 section 4, padded) of `data`.
pub uninterp spec fn base64_standard_of(data: Seq<u8>) -> Seq<char>;

/// The bytes that the standard base64 text `text` decodes to, where it is
/// valid padded standard base64.
pub uninterp spec fn base64_standard_decoded(text: Seq<char>) -> Option<Seq<u8>>;

/// Encodes `data` in the standard base64 alphabet with padding, through the
/// `base64` crate's `STANDARD` engine.  Claimed: the text is the named
/// encoding of the bytes, and decoding it with the same engine gives the
/// bytes back.  The crate panics where the encoded length overflows `usize`,
/// which `requires` leaves out.
#[verifier::external_body]
pub fn base64_standard_encode(data: &[u8]) -> (s: String)
    requires
        data@.len() / 3 * 4 + 4 <= usize::MAX,
    ensures
        s@ == base64_standard_of(data@),
        base64_standard_decoded(s@) == Some(data@),
{
    base64::engine::general_purpose::STANDARD.encode(data)
}

/// Decodes the standard base64 text `text`, through the `base64` crate's
/// `STANDARD` engine (`decode`).  Claimed: the result is the named decoding of
/// the text; `None` stands for the crate's decode error.
#[verifier::external_body]
pub fn base64_standard_decode(text: &str) -> (r: Option<Vec<u8>>)
    ensures
        match base64_standard_decoded(text@) {
            Some(b) => r matches Some(v) && v@ == b,
            None => r is None,
        },
{
    base64::engine::general_purpose::STANDARD.decode(text).ok()
}

/// A character of the URL-safe base64 alphabet.
pub open spec fn is_base64url_char(c: char) -> bool {
    ('A' <= c && c <= 'Z') || ('a' <= c && c <= 'z') || ('0' <= c && c <= '9') || c == '-' || c
        == '_'
}

/// Base64url-encodes `data` without padding, through the `base64` crate's
/// `URL_SAFE_NO_PAD` engine.  Claimed: the text is the encoding
/// [`base64url_of`] of the bytes.  The crate panics where the encoded length
/// (`encoded_len`) overflows `usize`, which `requires` leaves out.
#[verifier::external_body]
fn url_safe_no_pad_encode(data: &[u8]) -> (s: String)
    requires
        data@.len() / 3 * 4 + 3 <= usize::MAX,
    ensures
        s@ == base64url_of(data@),
{
    base64::engine::general_purpose::URL_SAFE_NO_PAD.encode(data)
}

/// The URL-safe base64 text has `ceil(4n/3)` characters for `n` bytes, all
/// from the URL-safe alphabet.
pub proof fn lemma_base64url_shape(data: Seq<u8>)
    ensures
        base64url_of(data).len() == (4 * data.len() + 2) / 3,
        forall|i: int| 0 <= i < base64url_of(data).len() ==> is_base64url_char(#[trigger] base64url_of(data)[i]),
    decreases data.len(),
{
    let e = base64url_of(data);
    if data.len() >= 3 {
        lemma_base64url_shape(data.skip(3));
        let rest = base64url_of(data.skip(3));
        let head = seq![
            base64url_digit(data[0] as int / 4),
            base64url_digit((data[0] as int % 4) * 16 + data[1] as int / 16),
            base64url_digit((data[1] as int % 16) * 4 + data[2] as int / 64),
            base64url_digit(data[2] as int % 64),
        ];
        assert(e == head + rest);
        assert forall|i: int| 0 <= i < e.len() implies is_base64url_char(#[trigger] e[i]) by {
            if i >= 4 {
                assert(e[i] == rest[i - 4]);
            }
        }
    }
}

/// Base64url-encodes `data` without padding: the text [`base64url_of`] of
/// the bytes, `ceil(4n/3)` characters long, drawn from the URL-safe alphabet.
pub fn base64url_encode(data: &[u8]) -> (s: String)
    requires
        data@.len() / 3 * 4 + 3 <= usize::MAX,
    ensures
        s@ == base64url_of(data@),
        s@.len() == (4 * data@.len() + 2) / 3,
        forall|i: int| 0 <= i < s@.len() ==> is_base64url_char(#[trigger] s@[i]),
{
    proof {
        lemma_base64url_shape(data@);
    }
    url_safe_no_pad_encode(data)
}

/// The SHA-256 digest of `data`, through `sha2::Sha256::digest`.  Claimed: the
/// digest is the named function of the bytes and has 32 bytes.
#[verifier::external_body]
pub fn sha256_digest(data: &[u8]) -> (d: Vec<u8>)
    ensures
        d@ == sha256_of(data@),
        d@.len() == 32,
{
    sha2::Sha256::digest(data).to_vec()
}

/// The HMAC-SHA-256 tag of `message` under `key`, through the `hmac` crate
/// (`Hmac::<Sha256>::new_from_slice`, `update`, `finalize`).  Claimed: the tag
/// is the named function of key and message and has 32 bytes, and the key is
/// always accepted (for HMAC, `new_from_slice` pads or hashes a key of any
/// length and returns `Ok`).
#[verifier::external_body]
pub fn hmac_sha256(key: &[u8], message: &[u8]) -> (tag: Option<Vec<u8>>)
    ensures
        tag is Some,
        tag is Some ==> tag->0@ == hmac_sha256_of(key@, message@),
        tag is Some ==> tag->0@.len() == 32,
{
    match hmac::Hmac::<sha2::Sha256>::new_from_slice(key) {
        Ok(mut mac) => {
            mac.update(message);
            Some(mac.finalize().into_bytes().to_vec())
        },
        Err(_) => None,
    }
}

/// Fills `buf` with bytes from the operating system's secure random source
/// (`getrandom::fill`).  Claimed: the length of `buf` is unchanged.  Nothing is
/// claimed of the bytes or of whether the call fails; a failure is reported
/// with the error's text.
#[verifier::external_body]
pub fn fill_random(buf: &mut Vec<u8>) -> (r: Result<(), String>)
    ensures
        final(buf)@.len() == old(buf)@.len(),
{
    match getrandom::fill(buf.as_mut_slice()) {
        Ok(()) => Ok(()),
        Err(e) => Err(format!("{e}")),
    }
}

} // verus!
