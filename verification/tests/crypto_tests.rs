use base64::engine::general_purpose::STANDARD;
use base64::Engine;
use chacha20poly1305::aead::Aead;
use chacha20poly1305::{ChaCha20Poly1305, Key, KeyInit, Nonce};
use hkdf::Hkdf;
use mc_share::client::crypto::{
    cert_fingerprint, certified, generate_self_signed_cert, CryptoError, Keypair,
};
use mc_share::client::host::HostIdentity;
use mc_share::client::join::{read_fingerprint, JoinIdentity};
use mc_share::client::tunnel::{FingerprintMismatch, PinnedCert};
use mc_share::entropy::{random_12, twelve_of};
use sha2::Sha256;

fn bytes(hex: &str) -> [u8; 32] {
    let mut out = [0u8; 32];
    for i in 0..32 {
        out[i] = u8::from_str_radix(&hex[2 * i..2 * i + 2], 16).unwrap();
    }
    out
}

const SECRET_A: &str = "77076d0a7318a57d3c16c17251b26645db1f92a7d2f4c4f1a0a1b0e0a1b0e0a1";
const SECRET_B: &str = "77076d0a7318a57d3c16c17251b26645df4c2f92ebc099fb9b1f6a6b0e0a1b0e";

#[test]
fn public_key_of_a_known_secret() {
    // The second party of RFC 7748, section 6.1.
    let secret = bytes("5dab087e624a8a4b79e17f8b83800ee66f3bb1292618b6fd1c2f8b27ff88e0eb");
    let public = bytes("de9edb7d7b7dc1b4d35b61c2ece435373f8343c85b78674dadfc7e146f882b4f");
    assert_eq!(Keypair::from_secret(secret).public_bytes(), public);
}

#[test]
fn two_key_pairs_agree() {
    let a = Keypair::from_secret(bytes(SECRET_A));
    let b = Keypair::from_secret(bytes(SECRET_B));
    let (pa, pb) = (a.public_bytes(), b.public_bytes());
    let host = a.into_session(&pb).unwrap();
    let join = b.into_session(&pa).unwrap().reversed();
    let frame = host.encrypt(b"hello").unwrap();
    assert_eq!(join.decrypt(&frame).unwrap(), b"hello");
    let frame = join.encrypt(b"back").unwrap();
    assert_eq!(host.decrypt(&frame).unwrap(), b"back");
}

#[test]
fn the_joiner_opens_what_the_host_seals() {
    let a = Keypair::from_secret(bytes(SECRET_A));
    let b = Keypair::from_secret(bytes(SECRET_B));
    let (pa, pb) = (a.public_bytes(), b.public_bytes());
    let host = a.into_session(&pb).unwrap();
    let joiner = b.into_joiner_session(&pa).unwrap();
    let frame = host.encrypt(b"hello").unwrap();
    assert_eq!(joiner.decrypt(&frame).unwrap(), b"hello");
    let frame = joiner.encrypt(b"back").unwrap();
    assert_eq!(host.decrypt(&frame).unwrap(), b"back");
    let c = Keypair::generate();
    assert!(matches!(c.into_joiner_session(&[0; 33]), Err(CryptoError::PublicKeyLength)));
}

#[test]
fn frames_are_nonce_and_sealed_text_under_the_derived_key() {
    let a = Keypair::from_secret(bytes(SECRET_A));
    let b = Keypair::from_secret(bytes(SECRET_B));
    let shared = x25519_dalek::x25519(bytes(SECRET_A), b.public_bytes());
    let mut key = [0u8; 32];
    Hkdf::<Sha256>::new(None, &shared).expand(b"minescale-v1-host-to-join", &mut key).unwrap();
    let nonce = [7u8; 12];
    let sealed = ChaCha20Poly1305::new(Key::from_slice(&key))
        .encrypt(Nonce::from_slice(&nonce), b"payload".as_slice())
        .unwrap();
    let session = a.into_session(&b.public_bytes()).unwrap();
    let frame = session.encrypt_with(&nonce, b"payload").unwrap();
    assert_eq!(&frame[..12], &nonce);
    assert_eq!(&frame[12..], &sealed[..]);
}

#[test]
fn nonces_are_fresh() {
    let a = Keypair::generate();
    let b = Keypair::generate();
    let s = a.into_session(&b.public_bytes()).unwrap();
    assert_ne!(s.encrypt(b"x").unwrap(), s.encrypt(b"x").unwrap());
}

#[test]
fn each_failure_has_its_error() {
    let a = Keypair::generate();
    assert!(matches!(a.into_session(&[0; 31]), Err(CryptoError::PublicKeyLength)));
    let a = Keypair::generate();
    let b = Keypair::generate();
    let s = a.into_session(&b.public_bytes()).unwrap();
    assert!(matches!(s.decrypt(&[0; 11]), Err(CryptoError::TooShort)));
    assert!(matches!(s.decrypt(&[0; 12]), Err(CryptoError::Decrypt)));
    let mut frame = s.encrypt(b"hello").unwrap();
    assert_eq!(frame.len(), 12 + 5 + 16);
    assert!(matches!(s.decrypt(&frame), Err(CryptoError::Decrypt)));
    let s = s.reversed();
    frame[20] ^= 1;
    assert!(matches!(s.decrypt(&frame), Err(CryptoError::Decrypt)));
}

#[test]
fn failures_have_their_words() {
    let words = [
        (CryptoError::PublicKeyLength, "Public key must be 32 bytes"),
        (CryptoError::Derive, "HKDF expand failed"),
        (CryptoError::Encrypt, "Encrypt failed: Error"),
        (CryptoError::TooShort, "Ciphertext too short"),
        (CryptoError::Decrypt, "Decrypt failed: Error"),
    ];
    for (e, text) in words {
        assert_eq!(e.message(), text);
    }
    let e = certified(Err("no entropy".to_string())).unwrap_err();
    assert_eq!(e.message(), "Certificate generation failed: no entropy");
    let made = generate_self_signed_cert().unwrap();
    let bytes = made.cert_der.clone();
    assert_eq!(certified(Ok(made)).unwrap().cert_der, bytes);
}

#[test]
fn two_sessions_of_the_host_hold_the_same_keys() {
    let a = Keypair::from_secret(bytes(SECRET_A));
    let b = Keypair::from_secret(bytes(SECRET_B));
    let (pa, pb) = (a.public_bytes(), b.public_bytes());
    let one = a.into_session(&pb).unwrap();
    let two = b.into_session(&pa).unwrap();
    let nonce = [3u8; 12];
    let frame = one.encrypt_with(&nonce, b"x").unwrap();
    assert_eq!(frame, two.encrypt_with(&nonce, b"x").unwrap());
    assert!(two.decrypt(&frame).is_err());
    assert_eq!(two.reversed().decrypt(&frame).unwrap(), b"x");
}

#[test]
fn fingerprint_is_sha256() {
    let expected = bytes("ba7816bf8f01cfea414140de5dae2223b00361a396177a9cb410ff61f20015ad");
    assert_eq!(cert_fingerprint(b"abc"), expected.to_vec());
}

#[test]
fn only_the_registered_certificate_is_accepted() {
    let cert = generate_self_signed_cert().unwrap();
    let other = generate_self_signed_cert().unwrap();
    assert_ne!(cert.cert_der, other.cert_der);
    let id = HostIdentity::of(Keypair::generate(), cert);
    let pinned = PinnedCert { fingerprint: read_fingerprint(&id.fingerprint_b64).unwrap() };
    assert_eq!(pinned.verify_server_cert(&id.cert.cert_der), Ok(()));
    assert_eq!(pinned.verify_server_cert(&other.cert_der), Err(FingerprintMismatch));
    let pinned = PinnedCert { fingerprint: vec![1, 2] };
    assert!(pinned.accepts(&[1, 2]));
    assert!(!pinned.accepts(&[1, 3]));
    assert!(!pinned.accepts(&[1]));
}

#[test]
fn identities_register_their_public_keys() {
    let host = HostIdentity::generate().unwrap();
    assert_eq!(host.pubkey_b64, STANDARD.encode(host.keypair.public_bytes()));
    let fp = cert_fingerprint(&host.cert.cert_der);
    assert_eq!(host.fingerprint_b64, STANDARD.encode(fp));
    let join = JoinIdentity::generate();
    assert_eq!(join.pubkey_b64, STANDARD.encode(join.keypair.public_bytes()));
    let secret = bytes("5dab087e624a8a4b79e17f8b83800ee66f3bb1292618b6fd1c2f8b27ff88e0eb");
    let known = JoinIdentity::of(Keypair::from_secret(secret));
    assert_eq!(known.pubkey_b64, "3p7bfXt9wbTTW2HC7OQ1Nz+DQ8hbeGdNrfx+FG+IK08=");
}

#[test]
fn unreadable_fingerprints_are_refused() {
    assert!(read_fingerprint("not base64!").is_err());
    assert_eq!(read_fingerprint("AQID").unwrap(), vec![1, 2, 3]);
}

#[test]
fn twelve_bytes_keep_their_order() {
    assert_eq!(
        twelve_of(&[1, 2, 3, 4, 5, 6, 7, 8, 9, 10, 11, 12]),
        [1, 2, 3, 4, 5, 6, 7, 8, 9, 10, 11, 12]
    );
}

#[test]
fn random_bytes_differ_from_draw_to_draw() {
    assert_ne!(random_12(), random_12());
}
