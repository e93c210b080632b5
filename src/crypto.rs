//! Digests, sealing and text encoding of channel identifiers, through the
//! `md5`, `ring` and `base64` crates.
use vstd::prelude::*;
use base64::Engine;
use ring::aead::{Aad, LessSafeKey, Nonce, UnboundKey, AES_256_GCM};

verus! {

/// The characters of URL-safe base64.
pub open spec fn is_b64url_char(c: char) -> bool {
    ('0' <= c && c <= '9') || ('a' <= c && c <= 'z') || ('A' <= c && c <= 'Z') || c == '-' || c
        == '_'
}

/// The MD5 digest of the UTF-8 bytes of a text.
pub uninterp spec fn md5_text(s: Seq<char>) -> Seq<u8>;

/// What AES-256-GCM sealing of `data` under `key` and `nonce` yields: the
/// ciphertext followed by the tag.
pub uninterp spec fn aes_gcm_sealed(key: Seq<u8>, nonce: Seq<u8>, data: Seq<u8>) -> Seq<u8>;

/// The URL-safe base64 text, without padding, of some bytes.
pub uninterp spec fn b64url(b: Seq<u8>) -> Seq<char>;

/// Relies on md5::compute over the bytes of `s`: a 16-byte digest that
/// depends on the text alone.
#[verifier::external_body]
pub(crate) fn md5_of(s: &str) -> (r: Vec<u8>)
    ensures
        r@ == md5_text(s@),
        r@.len() == 16,
{
    md5::compute(s.as_bytes()).0.to_vec()
}

/// Relies on ring's `LessSafeKey::seal_in_place_append_tag` with AES-256-GCM
/// and no associated data: the ciphertext with a 16-byte tag appended. With a
/// 32-byte key and a 12-byte nonce it fails only on inputs of many GiB.
#[verifier::external_body]
pub(crate) fn aes_gcm_seal(key: &[u8], nonce: &[u8], data: &[u8]) -> (r: Option<Vec<u8>>)
    requires
        key@.len() == 32,
        nonce@.len() == 12,
        data@.len() <= 4096,
    ensures
        r is Some,
        r matches Some(c) ==> c@ == aes_gcm_sealed(key@, nonce@, data@),
        r matches Some(c) ==> c@.len() == data@.len() + 16,
{
    let sealing = LessSafeKey::new(UnboundKey::new(&AES_256_GCM, key).ok()?);
    let nonce = Nonce::try_assume_unique_for_key(nonce).ok()?;
    let mut out = data.to_vec();
    sealing.seal_in_place_append_tag(nonce, Aad::empty(), &mut out).ok()?;
    Some(out)
}

/// Relies on ring's `LessSafeKey::open_in_place` with AES-256-GCM and no
/// associated data: what was sealed under the same key and nonce opens to
/// the sealed data, and what opens is the input without its 16-byte tag.
/// Only input whose tag verifies opens, and the tag is determined by the
/// key, the nonce and the data, so what opens is the seal of what it opens to.
#[verifier::external_body]
pub(crate) fn aes_gcm_open(key: &[u8], nonce: &[u8], sealed: &[u8]) -> (r: Option<Vec<u8>>)
    requires
        key@.len() == 32,
        nonce@.len() == 12,
    ensures
        forall|d: Seq<u8>| sealed@ == aes_gcm_sealed(key@, nonce@, d) ==> r is Some && r->0@ == d,
        r matches Some(p) ==> p@.len() + 16 == sealed@.len(),
        r matches Some(p) ==> sealed@ == aes_gcm_sealed(key@, nonce@, p@),
{
    let opening = LessSafeKey::new(UnboundKey::new(&AES_256_GCM, key).ok()?);
    let nonce = Nonce::try_assume_unique_for_key(nonce).ok()?;
    let mut buf = sealed.to_vec();
    let plain = opening.open_in_place(nonce, Aad::empty(), &mut buf).ok()?;
    Some(plain.to_vec())
}

/// Relies on base64's `URL_SAFE_NO_PAD` engine, `encode`: ceil(4n/3)
/// characters for n bytes.
#[verifier::external_body]
pub(crate) fn b64url_encode(b: &[u8]) -> (r: String)
    ensures
        r@ == b64url(b@),
        r@.len() == (4 * b@.len() + 2) / 3,
        forall|i: int| 0 <= i < r@.len() ==> is_b64url_char(#[trigger] r@[i]),
{
    base64::engine::general_purpose::URL_SAFE_NO_PAD.encode(b)
}

/// Relies on base64's `URL_SAFE_NO_PAD` engine, `decode`: the text of some
/// bytes decodes to those bytes, and since this engine refuses padding and
/// non-zero trailing bits, only such canonical texts decode.
#[verifier::external_body]
pub(crate) fn b64url_decode(s: &str) -> (r: Option<Vec<u8>>)
    ensures
        forall|b: Seq<u8>| s@ == b64url(b) ==> r is Some && r->0@ == b,
        r matches Some(b) ==> s@ == b64url(b@),
{
    base64::engine::general_purpose::URL_SAFE_NO_PAD.decode(s.as_bytes()).ok()
}

} // verus!
