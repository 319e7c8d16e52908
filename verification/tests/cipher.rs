use imgdock::cipher::{decrypt_payload, encrypt_payload};
use imgdock::config::Config;

fn key() -> Vec<u8> {
    (100u8..132).collect()
}

#[test]
fn envelope_shape() {
    let k = key();
    let plaintext = "{\"ok\":1}";
    let hex = encrypt_payload(plaintext, &k).expect("encrypts");
    // hex(nonce(12) || ciphertext || tag(16)), two digits per byte
    assert_eq!(hex.len(), 2 * (12 + plaintext.len() + 16));
    assert!(hex.chars().all(|c| c.is_ascii_hexdigit() && !c.is_ascii_uppercase()));
}

#[test]
fn fresh_nonce_every_call_and_round_trip() {
    let k = key();
    let plaintext = "{\"url\":\"https://pub.example/x\",\"f\":\"x\",\"s\":1.0,\"t\":1,\"d\":\"\",\"p\":\"\"}";
    let a = encrypt_payload(plaintext, &k).expect("encrypts");
    let b = encrypt_payload(plaintext, &k).expect("encrypts");
    // The nonce must be freshly random per call, so the envelopes differ.
    assert_ne!(a, b);
    // Either envelope decrypts back to the exact plaintext.
    assert_eq!(decrypt_payload(&a, &k).expect("decrypts"), plaintext.as_bytes());
    assert_eq!(decrypt_payload(&b, &k).expect("decrypts"), plaintext.as_bytes());
}

#[test]
fn tampered_envelope_is_rejected() {
    let k = key();
    let hex = encrypt_payload("secret", &k).expect("encrypts");
    let mut chars: Vec<char> = hex.chars().collect();
    let last = chars.len() - 1;
    chars[last] = if chars[last] == '0' { '1' } else { '0' };
    let tampered: String = chars.into_iter().collect();
    assert!(decrypt_payload(&tampered, &k).is_none());
    assert!(decrypt_payload("zz", &k).is_none());
    assert!(decrypt_payload("00ff", &k).is_none());
}

#[test]
fn wrong_key_is_rejected() {
    let k = key();
    let other: Vec<u8> = (0u8..32).collect();
    let hex = encrypt_payload("secret", &k).expect("encrypts");
    assert!(decrypt_payload(&hex, &other).is_none());
}

#[test]
fn config_key_parsing() {
    let hex_key = "000102030405060708090a0b0c0d0e0f101112131415161718191a1b1c1d1e1f";
    let k = Config::parse_key(hex_key).expect("64 hex digits");
    assert_eq!(k.len(), 32);
    assert_eq!(k[0], 0);
    assert_eq!(k[31], 31);
    assert!(Config::parse_key("0011").is_none());
    assert!(Config::parse_key(&"zz".repeat(32)).is_none());
}

#[test]
fn id_generation_shape() {
    for _ in 0..50 {
        let id = imgdock::ident::gen_id();
        assert_eq!(id.len(), 6);
        assert!(id.chars().all(|c| c.is_ascii_alphanumeric()));
    }
}

#[test]
fn format_normalization() {
    assert_eq!(
        imgdock::config::normalize_format("  IMAGE/Png \t"),
        Some(String::from("image/png"))
    );
    assert_eq!(imgdock::config::normalize_format("   "), None);
    assert_eq!(imgdock::config::normalize_format(""), None);
}
