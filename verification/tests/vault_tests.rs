use subforge::secrets::{
    api_key_configured, clear_llm_api_key, decode_secret_file, key_update, open_sealed, seal_secrets,
    vault_key_from_file, KeyUpdate, SecretPayload,
};

fn key() -> Vec<u8> {
    vec![7u8; 32]
}

fn nonce() -> Vec<u8> {
    vec![1u8; 12]
}

#[test]
fn sealed_secrets_decode_and_open_to_the_plaintext() {
    let plain = b"{\"llmApiKey\":\"sk-test\"}".to_vec();
    let (n, c) = seal_secrets(&key(), &nonce(), &plain).unwrap();
    assert_eq!(n, "AQEBAQEBAQEBAQEB");
    assert_ne!(c.as_bytes(), &plain[..]);
    let (n2, c2) = decode_secret_file(&n, &c).unwrap();
    assert_eq!(n2, nonce());
    assert_eq!(c2.len(), plain.len() + 16);
    assert_eq!(open_sealed(&key(), &n2, &c2), Ok(plain));
}

#[test]
fn vault_fields_are_trimmed_before_decoding() {
    let plain = b"abc".to_vec();
    let (n, c) = seal_secrets(&key(), &nonce(), &plain).unwrap();
    let (n2, c2) = decode_secret_file(&format!("  {}\n", n), &format!("\t{} ", c)).unwrap();
    assert_eq!(open_sealed(&key(), &n2, &c2), Ok(plain));
}

#[test]
fn short_nonce_is_refused() {
    assert_eq!(decode_secret_file("AQEBAQ==", "AAAA"), Err("nonce 长度无效".to_string()));
    assert!(decode_secret_file("not base64!", "AAAA").unwrap_err().starts_with("nonce 解码失败: "));
    assert!(decode_secret_file("AQEBAQEBAQEBAQEB", "***").unwrap_err().starts_with("密文解码失败: "));
}

#[test]
fn tampered_or_foreign_ciphertext_does_not_open() {
    let plain = b"secret".to_vec();
    let (n, c) = seal_secrets(&key(), &nonce(), &plain).unwrap();
    let (n2, mut c2) = decode_secret_file(&n, &c).unwrap();
    let other_key = vec![8u8; 32];
    assert_eq!(open_sealed(&other_key, &n2, &c2), Err("解密失败，密钥或文件可能已损坏".to_string()));
    c2[0] ^= 0xff;
    assert_eq!(open_sealed(&key(), &n2, &c2), Err("解密失败，密钥或文件可能已损坏".to_string()));
}

#[test]
fn vault_key_must_be_32_bytes() {
    assert_eq!(vault_key_from_file(vec![0u8; 31]), Err("vault.key 长度无效".to_string()));
    assert_eq!(vault_key_from_file(vec![3u8; 32]), Ok(vec![3u8; 32]));
}

#[test]
fn key_updates_follow_clear_then_typed_key() {
    assert!(matches!(key_update(true, Some("k".into())), KeyUpdate::Clear));
    assert!(matches!(key_update(false, Some("   ".into())), KeyUpdate::Keep));
    assert!(matches!(key_update(false, None), KeyUpdate::Keep));
    match key_update(false, Some(" sk-1 ".into())) {
        KeyUpdate::Replace(k) => assert_eq!(k, " sk-1 "),
        other => panic!("unexpected {:?}", other),
    }
}

#[test]
fn stored_key_is_configured_until_cleared() {
    let mut s = SecretPayload { llm_api_key: "  ".to_string() };
    assert!(!api_key_configured(&s));
    s.llm_api_key = "sk-1".to_string();
    assert!(api_key_configured(&s));
    clear_llm_api_key(&mut s);
    assert_eq!(s.llm_api_key, "");
    assert!(!api_key_configured(&SecretPayload::default()));
}
