//! The API key vault: a 32-byte key file and a JSON wrapper holding the
//! base64 nonce and base64 AES-256-GCM ciphertext of the secrets. The
//! library checks and frames the bytes; reading and writing the files is
//! the caller's part.
use vstd::prelude::*;

use aes_gcm::aead::{Aead, KeyInit};

use crate::text::{
    is_blank, lemma_scan_fwd_bounds, push_str, scan_back, scan_fwd, trim, trim_string, white_space, CharClass,
};

verus! {

pub const NONCE_LEN: usize = 12;

pub const KEY_LEN: usize = 32;

/// The largest plaintext AES-GCM seals (`aes_gcm::P_MAX`).
pub const PLAINTEXT_MAX: u64 = 0x10_0000_0000;

/// The secrets kept in the vault.
#[derive(Debug)]
pub struct SecretPayload {
    pub llm_api_key: String,
}

impl Default for SecretPayload {
    fn default() -> (r: Self)
        ensures
            r.llm_api_key@ == Seq::<char>::empty(),
    {
        SecretPayload { llm_api_key: String::new() }
    }
}

/// Forgets the stored LLM API key.
pub fn clear_llm_api_key(s: &mut SecretPayload)
    ensures
        final(s).llm_api_key@ == Seq::<char>::empty(),
{
    s.llm_api_key = String::new();
}

/// Whether a key is stored: one that is not blank.
pub fn api_key_configured(s: &SecretPayload) -> (r: bool)
    ensures
        r == (trim(s.llm_api_key@).len() > 0),
{
    !is_blank(s.llm_api_key.as_str())
}

/// What saving the settings does to the stored key.
#[derive(Debug)]
pub enum KeyUpdate {
    Clear,
    Replace(String),
    Keep,
}

/// Clearing wins; otherwise a key that is not blank replaces the stored one
/// as it was typed; otherwise the stored key stays.
pub fn key_update(clear: bool, new_key: Option<String>) -> (r: KeyUpdate)
    ensures
        clear ==> r is Clear,
        !clear ==> match new_key {
            Some(k) => if trim(k@).len() > 0 {
                r matches KeyUpdate::Replace(x) && x@ == k@
            } else {
                r is Keep
            },
            None => r is Keep,
        },
{
    if clear {
        return KeyUpdate::Clear;
    }
    match new_key {
        Some(k) => if !is_blank(k.as_str()) {
            KeyUpdate::Replace(k)
        } else {
            KeyUpdate::Keep
        },
        None => KeyUpdate::Keep,
    }
}

/// The vault key as read from its file: it must be 32 bytes.
pub fn vault_key_from_file(bytes: Vec<u8>) -> (r: Result<Vec<u8>, String>)
    ensures
        bytes@.len() == KEY_LEN ==> (r matches Ok(k) && k@ == bytes@),
        bytes@.len() != KEY_LEN ==> (r matches Err(e) && e@ == "vault.key 长度无效"@),
{
    if bytes.len() != KEY_LEN {
        return Err("vault.key 长度无效".to_string());
    }
    Ok(bytes)
}

// ---------------------------------------------------------------------------
// Base64
// ---------------------------------------------------------------------------

/// What the standard base64 engine (`base64::engine::general_purpose::STANDARD`)
/// writes for bytes.
pub uninterp spec fn b64_encoded(bytes: Seq<u8>) -> Seq<char>;

/// What the standard base64 engine reads from a text, or `None` where it
/// refuses it.
pub uninterp spec fn b64_decoded(text: Seq<char>) -> Option<Seq<u8>>;

/// A symbol of the standard base64 alphabet, or the padding `=`.
pub open spec fn b64_symbol(c: char) -> bool {
    ('A' <= c <= 'Z') || ('a' <= c <= 'z') || ('0' <= c <= '9') || c == '+' || c == '/' || c == '='
}

/// Encodes bytes with `Engine::encode` of the standard engine: the text is
/// named `b64_encoded`, is made of base64 symbols only, and decodes with the
/// same engine to the bytes (the engine writes canonical padding). The
/// length bound keeps the encoded length from overflowing, on which the
/// crate panics.
#[verifier::external_body]
pub(crate) fn b64_encode(bytes: &[u8]) -> (r: String)
    requires
        bytes@.len() <= usize::MAX / 2,
    ensures
        r@ == b64_encoded(bytes@),
        forall|i: int| 0 <= i < r@.len() ==> b64_symbol(#[trigger] r@[i]),
        b64_decoded(r@) == Some(bytes@),
{
    <base64::engine::GeneralPurpose as base64::Engine>::encode(&base64::engine::general_purpose::STANDARD, bytes)
}

/// Decodes a text with `Engine::decode` of the standard engine: the bytes are
/// named `b64_decoded`, and a text that the engine wrote for some bytes gives
/// those bytes back. An error comes with the crate's own message.
#[verifier::external_body]
pub(crate) fn b64_decode(text: &str) -> (r: Result<Vec<u8>, String>)
    ensures
        match r {
            Ok(b) => b64_decoded(text@) == Some(b@),
            Err(_) => b64_decoded(text@) is None,
        },
        forall|b: Seq<u8>| text@ == b64_encoded(b) ==> (r is Ok && r->Ok_0@ == b),
{
    <base64::engine::GeneralPurpose as base64::Engine>::decode(&base64::engine::general_purpose::STANDARD, text).map_err(
        |e| e.to_string(),
    )
}

// ---------------------------------------------------------------------------
// AES-256-GCM
// ---------------------------------------------------------------------------

/// What AES-256-GCM (`aes_gcm::Aes256Gcm`, no associated data) makes of a
/// plaintext under a key and nonce: ciphertext followed by the tag.
pub uninterp spec fn gcm_sealed(key: Seq<u8>, nonce: Seq<u8>, plain: Seq<u8>) -> Seq<u8>;

/// What AES-256-GCM gives back for a ciphertext under a key and nonce, or
/// `None` where the tag does not match.
pub uninterp spec fn gcm_opened(key: Seq<u8>, nonce: Seq<u8>, sealed: Seq<u8>) -> Option<Seq<u8>>;

/// Encrypts with `Aead::encrypt` of `Aes256Gcm`. The crate refuses only a
/// plaintext longer than `P_MAX`, which `requires` leaves out, so the result
/// is always the sealed bytes, named `gcm_sealed`: the ciphertext, as long as
/// the plaintext, then the 16-byte tag; decrypting them under the same key
/// and nonce gives the plaintext back.
#[verifier::external_body]
fn gcm_encrypt(key: &[u8], nonce: &[u8], plain: &[u8]) -> (r: Result<Vec<u8>, String>)
    requires
        key@.len() == KEY_LEN,
        nonce@.len() == NONCE_LEN,
        plain@.len() <= PLAINTEXT_MAX,
    ensures
        r is Ok && r->Ok_0@ == gcm_sealed(key@, nonce@, plain@) && r->Ok_0@.len() == plain@.len() + 16,
        r is Ok && gcm_opened(key@, nonce@, r->Ok_0@) == Some(plain@),
{
    aes_gcm::Aes256Gcm::new(aes_gcm::Key::<aes_gcm::Aes256Gcm>::from_slice(key)).encrypt(
        aes_gcm::Nonce::from_slice(nonce),
        plain,
    ).map_err(|e| e.to_string())
}

/// Decrypts with `Aead::decrypt` of `Aes256Gcm`: the plaintext is named
/// `gcm_opened`, and bytes sealed under the same key and nonce open to the
/// plaintext they were made from.
#[verifier::external_body]
fn gcm_decrypt(key: &[u8], nonce: &[u8], sealed: &[u8]) -> (r: Option<Vec<u8>>)
    requires
        key@.len() == KEY_LEN,
        nonce@.len() == NONCE_LEN,
    ensures
        match r {
            Some(p) => gcm_opened(key@, nonce@, sealed@) == Some(p@),
            None => gcm_opened(key@, nonce@, sealed@) is None,
        },
        forall|p: Seq<u8>|
            p.len() <= PLAINTEXT_MAX && sealed@ == gcm_sealed(key@, nonce@, p) ==> (r is Some && r->0@ == p),
{
    aes_gcm::Aes256Gcm::new(aes_gcm::Key::<aes_gcm::Aes256Gcm>::from_slice(key)).decrypt(
        aes_gcm::Nonce::from_slice(nonce),
        sealed,
    ).ok()
}

// ---------------------------------------------------------------------------
// The vault file
// ---------------------------------------------------------------------------

/// The nonce and ciphertext of a vault file, from its two base64 fields
/// (each trimmed): the nonce must decode to 12 bytes. Fields written by
/// `seal_secrets` decode to the nonce and ciphertext they were made from.
pub fn decode_secret_file(nonce_text: &str, payload_text: &str) -> (r: Result<(Vec<u8>, Vec<u8>), String>)
    ensures
        match r {
            Ok((n, c)) => vault_fields(nonce_text@, payload_text@) == Some((n@, c@)),
            Err(_) => vault_fields(nonce_text@, payload_text@) is None,
        },
        r is Ok <==> (b64_decoded(trim(nonce_text@)) matches Some(n) && n.len() == NONCE_LEN && b64_decoded(
            trim(payload_text@),
        ) is Some),
        r matches Ok((n, c)) ==> b64_decoded(trim(nonce_text@)) == Some(n@) && b64_decoded(trim(payload_text@))
            == Some(c@),
        (b64_decoded(trim(nonce_text@)) matches Some(n) && n.len() != NONCE_LEN) ==> (r matches Err(e) && e@
            == "nonce 长度无效"@),
        forall|n: Seq<u8>, c: Seq<u8>|
            n.len() == NONCE_LEN && trim(nonce_text@) == b64_encoded(n) && trim(payload_text@) == b64_encoded(c) ==> (r matches Ok(
                (x, y),
            ) && x@ == n && y@ == c),
{
    let nt = trim_string(nonce_text);
    let pt = trim_string(payload_text);
    let nonce = match b64_decode(nt.as_str()) {
        Ok(b) => b,
        Err(e) => {
            let mut m = "nonce 解码失败: ".to_string();
            push_str(&mut m, e.as_str());
            return Err(m);
        },
    };
    if nonce.len() != NONCE_LEN {
        return Err("nonce 长度无效".to_string());
    }
    let sealed = match b64_decode(pt.as_str()) {
        Ok(b) => b,
        Err(e) => {
            let mut m = "密文解码失败: ".to_string();
            push_str(&mut m, e.as_str());
            return Err(m);
        },
    };
    Ok((nonce, sealed))
}

/// Opens the ciphertext of a vault file. Ciphertext sealed under the same
/// key and nonce opens to its plaintext.
pub fn open_sealed(key: &Vec<u8>, nonce: &Vec<u8>, sealed: &Vec<u8>) -> (r: Result<Vec<u8>, String>)
    requires
        key@.len() == KEY_LEN,
        nonce@.len() == NONCE_LEN,
    ensures
        match r {
            Ok(p) => gcm_opened(key@, nonce@, sealed@) == Some(p@),
            Err(e) => gcm_opened(key@, nonce@, sealed@) is None && e@ == "解密失败，密钥或文件可能已损坏"@,
        },
        forall|p: Seq<u8>|
            p.len() <= PLAINTEXT_MAX && sealed@ == gcm_sealed(key@, nonce@, p) ==> (r matches Ok(x) && x@ == p),
{
    match gcm_decrypt(key.as_slice(), nonce.as_slice(), sealed.as_slice()) {
        Some(p) => Ok(p),
        None => Err("解密失败，密钥或文件可能已损坏".to_string()),
    }
}

/// The fields of a vault file, as `decode_secret_file` reads them: the
/// nonce and the ciphertext where both decode and the nonce is 12 bytes.
pub open spec fn vault_fields(nonce_text: Seq<char>, payload_text: Seq<char>) -> Option<(Seq<u8>, Seq<u8>)> {
    match b64_decoded(trim(nonce_text)) {
        Some(n) => if n.len() == NONCE_LEN {
            match b64_decoded(trim(payload_text)) {
                Some(c) => Some((n, c)),
                None => None,
            }
        } else {
            None
        },
        None => None,
    }
}

proof fn lemma_trim_b64(s: Seq<char>)
    requires
        forall|i: int| 0 <= i < s.len() ==> b64_symbol(#[trigger] s[i]),
    ensures
        trim(s) == s,
{
    lemma_scan_fwd_bounds(s, CharClass::Whitespace, 0);
    if s.len() > 0 {
        assert(!white_space(s[0]));
        assert(!white_space(s[s.len() - 1]));
    }
    assert(scan_fwd(s, CharClass::Whitespace, 0) == 0);
    assert(scan_back(s, CharClass::Whitespace, 0, s.len() as int) == s.len());
    assert(s.subrange(0, s.len() as int) =~= s);
}

/// The two fields of a vault file for a plaintext: the base64 nonce and the
/// base64 ciphertext. What is sealed opens again: the fields read back
/// (`vault_fields`, as `decode_secret_file` reads them) as the nonce and the
/// ciphertext, which opens under the key (as `open_sealed` does) to the
/// plaintext.
pub fn seal_secrets(key: &Vec<u8>, nonce: &Vec<u8>, plain: &Vec<u8>) -> (r: Result<(String, String), String>)
    requires
        key@.len() == KEY_LEN,
        nonce@.len() == NONCE_LEN,
        plain@.len() <= PLAINTEXT_MAX,
        plain@.len() + 16 <= usize::MAX / 2,
    ensures
        r matches Ok((n, c)) && n@ == b64_encoded(nonce@) && c@ == b64_encoded(gcm_sealed(key@, nonce@, plain@)),
        r matches Ok((n, c)) && vault_fields(n@, c@) == Some((nonce@, gcm_sealed(key@, nonce@, plain@))),
        gcm_opened(key@, nonce@, gcm_sealed(key@, nonce@, plain@)) == Some(plain@),
{
    let sealed = match gcm_encrypt(key.as_slice(), nonce.as_slice(), plain.as_slice()) {
        Ok(c) => c,
        Err(e) => {
            let mut m = "加密失败: ".to_string();
            push_str(&mut m, e.as_str());
            return Err(m);
        },
    };
    let n = b64_encode(nonce.as_slice());
    let c = b64_encode(sealed.as_slice());
    proof {
        lemma_trim_b64(n@);
        lemma_trim_b64(c@);
    }
    Ok((n, c))
}

} // verus!
