//! Byte encodings used by the library: UTF-8, standard base64 and
//! AES-256-GCM sealing of short secrets.
use vstd::prelude::*;
use vstd::utf8::{decode_utf8, valid_utf8};
use aes_gcm::aead::{Aead, AeadCore, KeyInit, OsRng};
use aes_gcm::{Aes256Gcm, Key, Nonce};
use base64::Engine;
use base64::engine::general_purpose::STANDARD;

verus! {

/// What `String::from_utf8_lossy` gives for bytes: their decoding, with each
/// invalid sequence replaced by U+FFFD.
pub uninterp spec fn spec_utf8_lossy(bytes: Seq<u8>) -> Seq<char>;

/// `String::from_utf8_lossy`; the result is named by `spec_utf8_lossy` and,
/// for valid UTF-8, is the decoding of the bytes.
#[verifier::external_body]
pub(crate) fn utf8_lossy(bytes: &[u8]) -> (s: String)
    ensures
        s@ == spec_utf8_lossy(bytes@),
        valid_utf8(bytes@) ==> s@ == decode_utf8(bytes@),
{
    String::from_utf8_lossy(bytes).to_string()
}

/// The text of the error `String::from_utf8` reports for invalid bytes.
pub uninterp spec fn spec_utf8_error(bytes: Seq<u8>) -> Seq<char>;

/// `String::from_utf8`: succeeds exactly on valid UTF-8, with the decoded
/// text; the error text is named by `spec_utf8_error`.
#[verifier::external_body]
pub(crate) fn string_from_utf8(bytes: Vec<u8>) -> (r: Result<String, String>)
    ensures
        r is Ok <==> valid_utf8(bytes@),
        r matches Ok(s) ==> s@ == decode_utf8(bytes@),
        r matches Err(e) ==> e@ == spec_utf8_error(bytes@),
{
    String::from_utf8(bytes).map_err(|e| e.to_string())
}

/// What the standard base64 engine (with padding) encodes bytes to.
pub uninterp spec fn spec_b64_encode(bytes: Seq<u8>) -> Seq<char>;

/// What the standard base64 engine decodes a text to; `None` when it
/// refuses the text.
pub uninterp spec fn spec_b64_decode(text: Seq<char>) -> Option<Seq<u8>>;

/// The text of the error the standard base64 engine reports for a text it
/// refuses.
pub uninterp spec fn spec_b64_error(text: Seq<char>) -> Seq<char>;

/// `STANDARD.encode`; the result is named by `spec_b64_encode`.
#[verifier::external_body]
pub(crate) fn b64_encode(bytes: &[u8]) -> (s: String)
    ensures
        s@ == spec_b64_encode(bytes@),
{
    STANDARD.encode(bytes)
}

/// `STANDARD.decode`; the result is named by `spec_b64_decode`, the error
/// text by `spec_b64_error`. The encoding of any bytes decodes back to
/// them.
#[verifier::external_body]
pub(crate) fn b64_decode(text: &str) -> (r: Result<Vec<u8>, String>)
    ensures
        match r {
            Ok(v) => spec_b64_decode(text@) == Some(v@),
            Err(e) => spec_b64_decode(text@) is None && e@ == spec_b64_error(text@),
        },
        forall|b: Seq<u8>| text@ == #[trigger] spec_b64_encode(b) ==> r is Ok && r->Ok_0@ == b,
{
    STANDARD.decode(text).map_err(|e| e.to_string())
}

/// The longest plaintext AES-GCM seals, in bytes.
pub const AES_GCM_P_MAX: u64 = 68719476736;

/// The ciphertext and tag AES-256-GCM makes of a plaintext under a key and
/// nonce, with no associated data.
pub uninterp spec fn aes_gcm_seal(key: Seq<u8>, nonce: Seq<u8>, plaintext: Seq<u8>) -> Seq<u8>;

/// What AES-256-GCM opens a ciphertext to under a key and nonce; `None`
/// when the tag does not check.
pub uninterp spec fn aes_gcm_open(key: Seq<u8>, nonce: Seq<u8>, ciphertext: Seq<u8>) -> Option<Seq<u8>>;

/// `Aes256Gcm::encrypt` with a fresh cipher for `key`: it fails exactly
/// when the plaintext is longer than `AES_GCM_P_MAX`; the ciphertext is
/// named by `aes_gcm_seal`.
#[verifier::external_body]
pub(crate) fn aes_encrypt(key: &[u8; 32], nonce: &[u8; 12], plaintext: &[u8]) -> (r: Option<Vec<u8>>)
    ensures
        r is Some <==> plaintext@.len() <= AES_GCM_P_MAX,
        r matches Some(c) ==> c@ == aes_gcm_seal(key@, nonce@, plaintext@),
{
    let cipher = Aes256Gcm::new(Key::<Aes256Gcm>::from_slice(key));
    cipher.encrypt(Nonce::from_slice(nonce), plaintext).ok()
}

/// `Aes256Gcm::decrypt` with a fresh cipher for `key`; the result is named
/// by `aes_gcm_open`. A ciphertext sealed under the same key and nonce opens
/// to its plaintext.
#[verifier::external_body]
pub(crate) fn aes_decrypt(key: &[u8; 32], nonce: &[u8], ciphertext: &[u8]) -> (r: Option<Vec<u8>>)
    requires
        nonce@.len() == 12,
    ensures
        match r {
            Some(p) => aes_gcm_open(key@, nonce@, ciphertext@) == Some(p@),
            None => aes_gcm_open(key@, nonce@, ciphertext@) is None,
        },
        forall|p: Seq<u8>|
            p.len() <= AES_GCM_P_MAX && ciphertext@ == #[trigger] aes_gcm_seal(key@, nonce@, p) ==> r is Some
                && r->0@ == p,
{
    let cipher = Aes256Gcm::new(Key::<Aes256Gcm>::from_slice(key));
    cipher.decrypt(Nonce::from_slice(nonce), ciphertext).ok()
}

/// A fresh random nonce from the operating system (`generate_nonce` with
/// `OsRng`). Nothing is stated of its value.
#[verifier::external_body]
pub(crate) fn generate_nonce() -> [u8; 12] {
    let n = Aes256Gcm::generate_nonce(&mut OsRng);
    let mut out = [0u8; 12];
    out.copy_from_slice(&n);
    out
}

/// The bytes `bs[a..b]`.
pub fn byte_range(bs: &[u8], a: usize, b: usize) -> (r: Vec<u8>)
    requires
        a <= b <= bs@.len(),
    ensures
        r@ == bs@.subrange(a as int, b as int),
{
    let mut r: Vec<u8> = Vec::new();
    let mut i: usize = a;
    while i < b
        invariant
            a <= i <= b,
            b <= bs@.len(),
            r@ == bs@.subrange(a as int, i as int),
        decreases b - i,
    {
        r.push(bs[i]);
        assert(bs@.subrange(a as int, i + 1) =~= bs@.subrange(a as int, i as int).push(bs@[i as int]));
        i += 1;
    }
    r
}

/// The bytes of `a` followed by those of `b`.
pub fn concat_bytes(a: &[u8], b: &[u8]) -> (r: Vec<u8>)
    ensures
        r@ == a@ + b@,
{
    let mut r = byte_range(a, 0, a.len());
    assert(a@.subrange(0, a@.len() as int) =~= a@);
    let mut i: usize = 0;
    while i < b.len()
        invariant
            i <= b@.len(),
            r@ == a@ + b@.take(i as int),
        decreases b@.len() - i,
    {
        r.push(b[i]);
        assert(b@.take(i + 1) =~= b@.take(i as int).push(b@[i as int]));
        assert(a@ + b@.take(i + 1) =~= (a@ + b@.take(i as int)).push(b@[i as int]));
        i += 1;
    }
    assert(b@.take(b@.len() as int) =~= b@);
    r
}

} // verus!
