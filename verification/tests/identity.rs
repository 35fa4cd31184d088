use base64::Engine;
use sandseal::identity::{decode_identity, encode_identity, IdentityKeyPair};

#[test]
fn generate_identity_keypair() {
    let kp = IdentityKeyPair::generate();
    assert_eq!(kp.public_key_bytes().len(), 32);
    let mut secret = [0u8; 32];
    secret.copy_from_slice(&kp.signing_key);
    let derived = ed25519_dalek::SigningKey::from_bytes(&secret).verifying_key();
    assert_eq!(derived.to_bytes().to_vec(), kp.verifying_key);
}

#[test]
fn save_load_identity_roundtrip() {
    let first = IdentityKeyPair::generate();
    let (private_text, public_text) = encode_identity(&first);
    let loaded = decode_identity(&format!("{private_text}\n"), &public_text).unwrap();
    assert_eq!(first.signing_key, loaded.signing_key);
    assert_eq!(first.verifying_key, loaded.verifying_key);
}

#[test]
fn public_key_base64_roundtrip() {
    let kp = IdentityKeyPair::generate();
    let b64 = kp.public_key_base64();
    let decoded = base64::engine::general_purpose::STANDARD.decode(&b64).unwrap();
    assert_eq!(decoded, kp.verifying_key);
}

#[test]
fn a_broken_key_file_is_named() {
    let kp = IdentityKeyPair::generate();
    let (private_text, public_text) = encode_identity(&kp);
    assert_eq!(decode_identity("not base64!", &public_text).err().unwrap(), "invalid private key encoding");
    assert_eq!(decode_identity(&private_text, "%%%").err().unwrap(), "invalid public key encoding");
    let short = base64::engine::general_purpose::STANDARD.encode([1u8; 16]);
    assert_eq!(
        decode_identity(&short, &public_text).err().unwrap(),
        "invalid private key length: expected 32 bytes, got 16"
    );
    assert_eq!(
        decode_identity(&private_text, &short).err().unwrap(),
        "invalid public key length: expected 32 bytes, got 16"
    );
}

#[test]
fn a_public_key_from_another_pair_is_refused() {
    let a = IdentityKeyPair::generate();
    let b = IdentityKeyPair::generate();
    let (private_text, _) = encode_identity(&a);
    let (_, other_public) = encode_identity(&b);
    assert_eq!(
        decode_identity(&private_text, &other_public).err().unwrap(),
        "public key does not match private key"
    );
}
