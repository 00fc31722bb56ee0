use base64::Engine;
use ssh_server::auth::{
    authenticate_password, authenticate_public_key, authenticate_user, authorized_key_entry,
    decode_public_key, is_supported_key_type, key_fingerprint, keys_equal, KeyError,
};

fn ed25519_blob(fill: u8) -> Vec<u8> {
    let mut b = vec![0u8, 0, 0, 11];
    b.extend_from_slice(b"ssh-ed25519");
    b.extend_from_slice(&[0, 0, 0, 32]);
    b.extend_from_slice(&[fill; 32]);
    b
}

fn b64(data: &[u8]) -> String {
    base64::engine::general_purpose::STANDARD.encode(data)
}

#[test]
fn password_rule() {
    assert!(authenticate_password(&"demo".to_string(), &"demo123".to_string()));
    assert!(!authenticate_password(&"demo".to_string(), &"demo1234".to_string()));
    assert!(!authenticate_password(&"root".to_string(), &"demo123".to_string()));
}

#[test]
fn entry_fields() {
    let e = authorized_key_entry(b"  ssh-rsa AAAA comment here\r").unwrap();
    assert_eq!(e, (b"ssh-rsa".to_vec(), b"AAAA".to_vec()));
    assert_eq!(authorized_key_entry(b"\tssh-ed25519\tQUJD"), Some((b"ssh-ed25519".to_vec(), b"QUJD".to_vec())));
    assert_eq!(authorized_key_entry(b"   "), None);
    assert_eq!(authorized_key_entry(b""), None);
    assert_eq!(authorized_key_entry(b"# ssh-rsa AAAA"), None);
    assert_eq!(authorized_key_entry(b"ssh-rsa"), None);
    assert_eq!(authorized_key_entry(b"ssh-rsa   "), None);
}

#[test]
fn key_types() {
    assert!(is_supported_key_type(b"ssh-rsa"));
    assert!(is_supported_key_type(b"ssh-ed25519"));
    assert!(is_supported_key_type(b"ecdsa-sha2-nistp256"));
    assert!(!is_supported_key_type(b"ssh-dss"));
    assert!(!is_supported_key_type(b"ssh-rsa2"));
}

#[test]
fn fingerprint_of_empty_blob() {
    assert_eq!(key_fingerprint(b""), "47DEQpj8HBSa+/TImW+5JCeuQeRkm5NMpJWZG3hSuFU");
    assert!(keys_equal(b"abc", b"abc"));
    assert!(!keys_equal(b"abc", b"abd"));
}

#[test]
fn decode_errors() {
    assert_eq!(decode_public_key(b"ssh-rsa", b"not base64!"), Err(KeyError::InvalidBase64));
    assert_eq!(decode_public_key(b"ssh-dss", b"QUJD"), Err(KeyError::UnsupportedKeyType));
    assert_eq!(decode_public_key(b"ssh-rsa", b"QUJD"), Err(KeyError::InvalidKey));
}

#[test]
fn decode_ed25519_key() {
    let blob = ed25519_blob(1);
    let text = b64(&blob);
    assert_eq!(decode_public_key(b"ssh-ed25519", text.as_bytes()), Ok(blob));
}

#[test]
fn authorized_keys_lookup() {
    let mine = ed25519_blob(1);
    let other = ed25519_blob(2);
    let text = format!("# keys\n\nssh-rsa bad\nssh-ed25519 {} me@host\r\n", b64(&mine));
    assert!(authenticate_public_key(&mine, text.as_bytes()));
    assert!(!authenticate_public_key(&other, text.as_bytes()));
    let commented = format!("#ssh-ed25519 {}\n", b64(&mine));
    assert!(!authenticate_public_key(&mine, commented.as_bytes()));
    assert!(!authenticate_public_key(&mine, b""));
}

#[test]
fn credential_check() {
    let mine = ed25519_blob(1);
    let text = format!("ssh-ed25519 {}\n", b64(&mine));
    let user = "demo".to_string();
    let pass = "demo123".to_string();
    assert!(authenticate_user(&user, Some(&mine), None, Some(text.as_bytes())));
    assert!(!authenticate_user(&user, Some(&mine), Some(&pass), None));
    assert!(authenticate_user(&user, None, Some(&pass), None));
    assert!(!authenticate_user(&user, None, None, Some(text.as_bytes())));
}
