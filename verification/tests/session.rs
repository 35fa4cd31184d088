use sandseal::session::{
    decrypt_with_nonce, derive_key_from_password, encrypt_with_nonce, generate_salt, hkdf_derive,
    hkdf_derive_pair, session_keys_from_password, MessageType, SessionKeys, X25519KeyPair,
};

fn unhex(s: &str) -> Vec<u8> {
    assert!(s.len() % 2 == 0);
    (0..s.len()).step_by(2).map(|i| u8::from_str_radix(&s[i..i + 2], 16).unwrap()).collect()
}

fn hex(bytes: &[u8]) -> String {
    bytes.iter().map(|b| format!("{b:02x}")).collect()
}

fn make_session_pair() -> (SessionKeys, SessionKeys) {
    let alice_kp = X25519KeyPair::generate();
    let bob_kp = X25519KeyPair::generate();
    let alice = SessionKeys::from_key_exchange(&alice_kp, &bob_kp.public, true);
    let bob = SessionKeys::from_key_exchange(&bob_kp, &alice_kp.public, false);
    (alice, bob)
}

#[test]
fn generate_x25519_keypair() {
    let kp = X25519KeyPair::generate();
    assert_eq!(kp.public.len(), 32);
}

#[test]
fn x25519_key_exchange() {
    let alice = X25519KeyPair::generate();
    let bob = X25519KeyPair::generate();
    assert_eq!(alice.diffie_hellman(&bob.public), bob.diffie_hellman(&alice.public));
}

#[test]
fn x25519_matches_vector() {
    // RFC 7748, section 6.1: Alice's private key against Bob's public key.
    let alice = X25519KeyPair {
        secret: unhex("77076d0a7318a57d3c16c17251b26645df4c2f87ebc0992ab177fba51db92c2a"),
        public: unhex("8520f0098930a754748b7ddcb43ef75a0dbf3a0d26381af4eba4a98eaa9b4e6a"),
    };
    let bob_public = unhex("de9edb7d7b7dc1b4d35b61c2ece435373f8343c85b78674dadfc7e146f882b4f");
    assert_eq!(
        hex(&alice.diffie_hellman(&bob_public)),
        "4a5d9d5ba4ce2de1728e3bf480350f25e07e21c947d19e3376f09b3c1e161742"
    );
}

#[test]
fn seal_open_roundtrip() {
    let (mut alice, mut bob) = make_session_pair();
    let frame = alice.seal(MessageType::Data, b"hello bob").unwrap();
    let (msg_type, plaintext) = bob.open(&frame).unwrap();
    assert_eq!(msg_type, MessageType::Data);
    assert_eq!(plaintext, b"hello bob");
}

#[test]
fn bidirectional_communication() {
    let (mut alice, mut bob) = make_session_pair();
    let f1 = alice.seal(MessageType::Data, b"alice->bob").unwrap();
    let (_, p1) = bob.open(&f1).unwrap();
    assert_eq!(p1, b"alice->bob");
    let f2 = bob.seal(MessageType::Data, b"bob->alice").unwrap();
    let (_, p2) = alice.open(&f2).unwrap();
    assert_eq!(p2, b"bob->alice");
    let f3 = alice.seal(MessageType::Data, b"second from alice").unwrap();
    let (_, p3) = bob.open(&f3).unwrap();
    assert_eq!(p3, b"second from alice");
}

#[test]
fn sequence_mismatch_detected() {
    let (mut alice, mut bob) = make_session_pair();
    let _f1 = alice.seal(MessageType::Data, b"first").unwrap();
    let f2 = alice.seal(MessageType::Data, b"second").unwrap();
    assert!(bob.open(&f2).is_err());
}

#[test]
fn cross_session_decryption_fails() {
    let (mut alice1, _) = make_session_pair();
    let (_, mut bob2) = make_session_pair();
    let frame = alice1.seal(MessageType::Data, b"wrong session").unwrap();
    assert!(bob2.open(&frame).is_err());
}

#[test]
fn key_rotation() {
    let (mut alice, mut bob) = make_session_pair();
    let f1 = alice.seal(MessageType::Data, b"before rotation").unwrap();
    let (_, p1) = bob.open(&f1).unwrap();
    assert_eq!(p1, b"before rotation");
    alice.rotate();
    bob.rotate();
    assert_eq!(alice.generation(), 1);
    let f2 = alice.seal(MessageType::Data, b"after rotation").unwrap();
    let (_, p2) = bob.open(&f2).unwrap();
    assert_eq!(p2, b"after rotation");
}

#[test]
fn password_based_session() {
    let salt = generate_salt();
    let mut alice = session_keys_from_password(b"shared-secret", &salt, true).unwrap();
    let mut bob = session_keys_from_password(b"shared-secret", &salt, false).unwrap();
    let frame = alice.seal(MessageType::Data, b"password-paired").unwrap();
    let (_, plaintext) = bob.open(&frame).unwrap();
    assert_eq!(plaintext, b"password-paired");
}

#[test]
fn wrong_password_fails() {
    let salt = generate_salt();
    let mut alice = session_keys_from_password(b"correct", &salt, true).unwrap();
    let mut bob = session_keys_from_password(b"wrong", &salt, false).unwrap();
    let frame = alice.seal(MessageType::Data, b"secret").unwrap();
    assert!(bob.open(&frame).is_err());
}

#[test]
fn message_types_roundtrip() {
    let (mut alice, mut bob) = make_session_pair();
    for msg_type in [MessageType::Data, MessageType::Ping, MessageType::Pong, MessageType::Close, MessageType::Resize] {
        let frame = alice.seal(msg_type, b"").unwrap();
        let (decoded_type, _) = bob.open(&frame).unwrap();
        assert_eq!(decoded_type, msg_type);
    }
}

#[test]
fn hkdf_matches_vector() {
    // RFC 5869, test case 1. Its output key material is 42 bytes; the derived key is the
    // first 32 of them.
    let ikm = unhex("0b0b0b0b0b0b0b0b0b0b0b0b0b0b0b0b0b0b0b0b0b0b");
    let salt = unhex("000102030405060708090a0b0c");
    let info = unhex("f0f1f2f3f4f5f6f7f8f9");
    let expected = "3cb25f25faacd57a90434f64d0362f2a2d2d0a90cf1a5a4c5db02d56ecc4c5bf34007208d5b887185865";
    let okm = hkdf_derive(&ikm, Some(&salt), &info);
    assert_eq!(hex(&okm), expected[..64]);
    let (a, b) = hkdf_derive_pair(&ikm, Some(&salt), &info);
    assert_eq!(a, okm);
    assert_eq!(hex(&b)[..20], expected[64..]);
}

#[test]
fn argon2id_matches_vector() {
    // The derived key is Argon2id with the crate's default parameters and a 32-byte output.
    let password = b"correct horse battery staple".to_vec();
    let salt = unhex("000102030405060708090a0b0c0d0e0f");
    let key = derive_key_from_password(&password, &salt).unwrap();
    let mut expected = [0u8; 32];
    argon2::Argon2::default().hash_password_into(&password, &salt, &mut expected).unwrap();
    assert_eq!(hex(&key), hex(&expected));
    assert!(derive_key_from_password(b"pw", b"short").is_err());
}

#[test]
fn session_keys_match_vector() {
    // The pair is HKDF-SHA256 without salt, 64 bytes expanded and split.
    let shared = unhex("000102030405060708090a0b0c0d0e0f101112131415161718191a1b1c1d1e1f");
    let info = "sandseal-e2e-v1";
    let (key_a, key_b) = hkdf_derive_pair(&shared, None, info.as_bytes());
    let hk = hkdf::Hkdf::<sha2::Sha256>::new(None, &shared);
    let mut okm = [0u8; 64];
    hk.expand(info.as_bytes(), &mut okm).unwrap();
    assert_eq!(hex(&key_a), hex(&okm[..32]));
    assert_eq!(hex(&key_b), hex(&okm[32..]));
}

#[test]
fn chacha20poly1305_roundtrip_matches_vector() {
    let key = unhex("000102030405060708090a0b0c0d0e0f101112131415161718191a1b1c1d1e1f");
    let nonce = unhex("070000004041424344454647");
    let plaintext = "Ladies and Gentlemen of the class of '99";
    let ciphertext = encrypt_with_nonce(&key, &nonce, plaintext.as_bytes()).unwrap();
    assert_eq!(ciphertext.len(), plaintext.len() + 16);
    let decrypted = decrypt_with_nonce(&key, &nonce, &ciphertext).unwrap();
    assert_eq!(decrypted, plaintext.as_bytes());
}

#[test]
fn a_tampered_frame_is_refused() {
    let (mut alice, mut bob) = make_session_pair();
    let mut frame = alice.seal(MessageType::Data, b"payload").unwrap();
    let last = frame.len() - 1;
    frame[last] ^= 1;
    assert!(bob.open(&frame).is_err());
    assert!(bob.open(&[0u8; 3]).is_err());
}

#[test]
fn message_type_bytes() {
    assert_eq!(MessageType::from_byte(0x02), Ok(MessageType::KeyRotation));
    assert_eq!(MessageType::Resize.to_byte(), 0x06);
    assert_eq!(MessageType::from_byte(0x2a), Err("unknown message type: 0x2a".to_string()));
}

#[test]
fn counters_and_rotation_schedule() {
    let (mut alice, _) = make_session_pair();
    assert_eq!(alice.send_count(), 0);
    alice.seal(MessageType::Ping, b"").unwrap();
    assert_eq!(alice.send_count(), 1);
    assert!(!alice.needs_rotation_at(10));
    assert!(alice.needs_rotation_at(3600));
    assert!(!alice.needs_rotation());
}

#[test]
fn rotating_after_both_sides_sent_leaves_them_unpaired() {
    let (mut alice, mut bob) = make_session_pair();
    let f1 = alice.seal(MessageType::Data, b"a").unwrap();
    bob.open(&f1).unwrap();
    let f2 = bob.seal(MessageType::Data, b"b").unwrap();
    alice.open(&f2).unwrap();
    alice.rotate();
    bob.rotate();
    let f3 = alice.seal(MessageType::Data, b"after").unwrap();
    assert!(bob.open(&f3).is_err());
}

#[test]
fn a_salt_under_eight_bytes_is_refused() {
    assert!(session_keys_from_password(b"pw", &[7u8; 7], true).is_err());
    assert!(session_keys_from_password(b"pw", &[7u8; 8], true).is_ok());
    assert!(session_keys_from_password(b"", &[7u8; 16], false).is_ok());
}
