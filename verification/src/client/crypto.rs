//! Key agreement, the symmetric session, and the certificate of the tunnel.
use crate::entropy;
use chacha20poly1305::aead::{Aead, KeyInit};
use chacha20poly1305::{ChaCha20Poly1305, Key, Nonce};
use hkdf::Hkdf;
use sha2::{Digest, Sha256};
use crate::text;
use vstd::prelude::*;
use vstd::string::*;

verus! {

/// How many bytes a nonce has.
pub const NONCE_LEN: usize = 12;

/// How many bytes sealing adds.
pub const TAG_LEN: usize = 16;

/// The name in the tunnel's certificate.
pub const CERT_NAME: &'static str = "minescale";

// ── Outside types ────────────────────────────────────────────────────────────

/// The reason why HKDF refuses to expand.
#[verifier::external_type_specification]
#[verifier::external_body]
pub struct ExInvalidLength(hkdf::InvalidLength);

/// The reason why the cipher refuses.
#[verifier::external_type_specification]
#[verifier::external_body]
pub struct ExAeadError(chacha20poly1305::Error);

/// The reason why no certificate was made.
#[verifier::external_type_specification]
#[verifier::external_body]
pub struct ExRcgenError(rcgen::Error);

/// Why a cryptographic operation failed.
#[derive(Debug)]
pub enum CryptoError {
    /// A public key is not 32 bytes long.
    PublicKeyLength,
    /// The keys of a session could not be derived.
    Derive,
    /// A plaintext could not be sealed.
    Encrypt,
    /// A frame is too short to hold a nonce.
    TooShort,
    /// A frame was not sealed under the expected key.
    Decrypt,
    /// No certificate could be made, for this reason.
    Certificate(String),
}

impl CryptoError {
    /// The error in words.
    pub open spec fn text(self) -> Seq<char> {
        match self {
            CryptoError::PublicKeyLength => "Public key must be 32 bytes"@,
            CryptoError::Derive => "HKDF expand failed"@,
            CryptoError::Encrypt => "Encrypt failed: Error"@,
            CryptoError::TooShort => "Ciphertext too short"@,
            CryptoError::Decrypt => "Decrypt failed: Error"@,
            CryptoError::Certificate(reason) => "Certificate generation failed: "@ + reason@,
        }
    }

    /// The error in words.
    pub fn message(&self) -> (r: String)
        ensures
            r@ == self.text(),
    {
        match self {
            CryptoError::PublicKeyLength => String::from_str("Public key must be 32 bytes"),
            CryptoError::Derive => String::from_str("HKDF expand failed"),
            CryptoError::Encrypt => String::from_str("Encrypt failed: Error"),
            CryptoError::TooShort => String::from_str("Ciphertext too short"),
            CryptoError::Decrypt => String::from_str("Decrypt failed: Error"),
            CryptoError::Certificate(reason) => {
                let mut m = String::from_str("Certificate generation failed: ");
                m.append(reason.as_str());
                m
            },
        }
    }
}

// ── Outside functions ────────────────────────────────────────────────────────

/// The X25519 function.
pub uninterp spec fn x25519(k: Seq<u8>, u: Seq<u8>) -> Seq<u8>;

/// 32 bytes of HKDF-SHA256 output, without salt.
pub uninterp spec fn hkdf_sha256(ikm: Seq<u8>, info: Seq<u8>) -> Seq<u8>;

/// ChaCha20-Poly1305 sealing, without associated data.
pub uninterp spec fn sealed(key: Seq<u8>, nonce: Seq<u8>, plaintext: Seq<u8>) -> Seq<u8>;

/// ChaCha20-Poly1305 opening, without associated data.
pub uninterp spec fn opened(key: Seq<u8>, nonce: Seq<u8>, data: Seq<u8>) -> Option<Seq<u8>>;

/// SHA-256.
pub uninterp spec fn sha256(data: Seq<u8>) -> Seq<u8>;

/// The base point of X25519: the number nine.
pub open spec fn base_point() -> Seq<u8> {
    Seq::new(32, |i: int| if i == 0 {
        9u8
    } else {
        0u8
    })
}

/// The lengths of plaintext that the cipher can take: its block counter, which
/// begins behind the block that the tag's key comes from, must not run over.
pub open spec fn sealable(len: int) -> bool {
    (len + 63) / 64 < 0xffff_ffff
}

/// Tests whether the cipher can take a plaintext of this length.
fn can_seal(len: usize) -> (r: bool)
    ensures
        r == sealable(len as int),
{
    let blocks: u64 = (len as u64 / 64) + (if len % 64 == 0 {
        0u64
    } else {
        1u64
    });
    blocks < 0xffff_ffff
}

/// `x25519_dalek::x25519`, the function of RFC 7748. Applied to a public key, it
/// gives what the key's owner gets when they apply it to the public key of `k`.
#[verifier::external_body]
fn dh(k: &[u8; 32], u: &[u8; 32]) -> (r: [u8; 32])
    ensures
        r@ == x25519(k@, u@),
        forall|other: Seq<u8>|
            other.len() == 32 && u@ == x25519(other, base_point()) ==> r@ == #[trigger] x25519(
                other,
                x25519(k@, base_point()),
            ),
{
    x25519_dalek::x25519(*k, *u)
}

/// `Hkdf::<Sha256>::new` without salt and `Hkdf::expand` to 32 bytes, which is
/// short enough for it never to refuse.
#[verifier::external_body]
fn expand_32(ikm: &[u8], info: &[u8]) -> (r: Result<[u8; 32], hkdf::InvalidLength>)
    ensures
        r is Ok,
        r matches Ok(k) ==> k@ == hkdf_sha256(ikm@, info@),
{
    let mut okm = [0u8; 32];
    Hkdf::<Sha256>::new(None, ikm).expand(info, &mut okm)?;
    Ok(okm)
}

/// `Aead::encrypt` of `ChaCha20Poly1305`. Where the block counter does not run over
/// it never refuses, adds a tag of 16 bytes, and `Aead::decrypt` under the same key
/// and nonce gives the plaintext back.
#[verifier::external_body]
fn seal(key: &[u8; 32], nonce: &[u8; 12], plaintext: &[u8]) -> (r: Result<
    Vec<u8>,
    chacha20poly1305::Error,
>)
    requires
        sealable(plaintext@.len() as int),
    ensures
        r is Ok,
        r matches Ok(c) ==> c@ == sealed(key@, nonce@, plaintext@) && c@.len() == plaintext@.len()
            + TAG_LEN && opened(key@, nonce@, c@) == Some(plaintext@),
{
    ChaCha20Poly1305::new(Key::from_slice(key)).encrypt(Nonce::from_slice(nonce), plaintext)
}

/// `Aead::decrypt` of `ChaCha20Poly1305`. It refuses what is too short to hold
/// the tag of 16 bytes.
#[verifier::external_body]
fn open(key: &[u8; 32], nonce: &[u8; 12], data: &[u8]) -> (r: Result<
    Vec<u8>,
    chacha20poly1305::Error,
>)
    requires
        data@.len() >= TAG_LEN ==> sealable(data@.len() - TAG_LEN),
    ensures
        match r {
            Ok(p) => opened(key@, nonce@, data@) == Some(p@),
            Err(_) => opened(key@, nonce@, data@) is None,
        },
        data@.len() < TAG_LEN ==> r is Err,
{
    ChaCha20Poly1305::new(Key::from_slice(key)).decrypt(Nonce::from_slice(nonce), data)
}

/// `Sha256::digest`: always 32 bytes.
#[verifier::external_body]
fn digest(data: &[u8]) -> (r: Vec<u8>)
    ensures
        r@ == sha256(data@),
        r@.len() == 32,
{
    Sha256::digest(data).to_vec()
}

/// A certificate and its private key, both in DER.
#[derive(Debug)]
pub struct CertifiedKey {
    pub cert_der: Vec<u8>,
    pub key_der: Vec<u8>,
}

/// `to_string` of an error of `rcgen`: the reason in the crate's own words, of which
/// nothing is said here.
#[verifier::external_body]
fn reason_of(e: &rcgen::Error) -> (r: String) {
    e.to_string()
}

/// The certificate is made out to the name, and signed with the key itself.
pub uninterp spec fn is_self_signed_for(
    cert_der: Seq<u8>,
    key_der: Seq<u8>,
    name: Seq<char>,
) -> bool;

/// `rcgen::generate_simple_self_signed` for one subject name. The key is random, so
/// nothing more is said of the bytes.
#[verifier::external_body]
fn self_signed(name: &str) -> (r: Result<CertifiedKey, rcgen::Error>)
    ensures
        r matches Ok(c) ==> is_self_signed_for(c.cert_der@, c.key_der@, name@),
{
    let made = rcgen::generate_simple_self_signed(vec![name.to_string()])?;
    Ok(CertifiedKey { cert_der: made.cert.der().to_vec(), key_der: made.key_pair.serialize_der() })
}

// ── Key agreement ────────────────────────────────────────────────────────────

/// An X25519 key pair, good for one agreement.
pub struct Keypair {
    secret: [u8; 32],
    public: [u8; 32],
}

/// The label under which the host's sending key is derived.
pub open spec fn host_to_join() -> Seq<u8> {
    vstd::utf8::encode_utf8("minescale-v1-host-to-join"@)
}

/// The label under which the host's receiving key is derived.
pub open spec fn join_to_host() -> Seq<u8> {
    vstd::utf8::encode_utf8("minescale-v1-join-to-host"@)
}

impl Keypair {
    /// The secret half.
    pub closed spec fn secret_key(self) -> Seq<u8> {
        self.secret@
    }

    /// The public half.
    pub closed spec fn public_key(self) -> Seq<u8> {
        self.public@
    }

    /// The public half belongs to the secret one.
    pub open spec fn wf(self) -> bool {
        self.public_key() == x25519(self.secret_key(), base_point())
    }

    #[verifier::type_invariant]
    spec fn inv(self) -> bool {
        self.wf()
    }

    /// The secret that is shared with the owner of `their_public`.
    pub open spec fn shared_with(self, their_public: Seq<u8>) -> Seq<u8> {
        x25519(self.secret_key(), their_public)
    }

    /// The key pair of a secret.
    pub fn from_secret(secret: [u8; 32]) -> (r: Self)
        ensures
            r.wf(),
            r.secret_key() == secret@,
    {
        let base: [u8; 32] = [
            9, 0, 0, 0, 0, 0, 0, 0, 0, 0, 0, 0, 0, 0, 0, 0, 0, 0, 0, 0, 0, 0, 0, 0, 0, 0, 0, 0, 0, 0,
            0, 0,
        ];
        assert(base@ =~= base_point());
        let public = dh(&secret, &base);
        Self { secret, public }
    }

    /// A fresh key pair.
    pub fn generate() -> (r: Self)
        ensures
            r.wf(),
    {
        Self::from_secret(entropy::os_random_key())
    }

    /// The public half.
    pub fn public_bytes(&self) -> (r: [u8; 32])
        ensures
            r@ == self.public_key(),
    {
        self.public
    }

    /// Consumes the key pair and derives the session keys from the secret that it
    /// shares with the owner of `their_public`. Both owners derive the same keys,
    /// in the host's orientation; the joiner takes `into_joiner_session`.
    pub fn into_session(self, their_public: &[u8]) -> (r: Result<Session, CryptoError>)
        ensures
            their_public@.len() != 32 ==> r == Err::<Session, CryptoError>(
                CryptoError::PublicKeyLength,
            ),
            their_public@.len() == 32 ==> (r matches Ok(s) && s.derived_from(
                self.shared_with(their_public@),
            )),
            forall|other: Keypair|
                #![trigger other.public_key()]
                other.wf() && their_public@ == other.public_key() && their_public@.len() == 32 ==> (
                r matches Ok(s) && s.derived_from(other.shared_with(self.public_key()))),
    {
        if their_public.len() != 32 {
            return Err(CryptoError::PublicKeyLength);
        }
        proof {
            use_type_invariant(&self);
        }
        let theirs: [u8; 32] = key_of(their_public);
        let shared = dh(&self.secret, &theirs);
        proof {
            assert forall|other: Keypair|
                #![trigger other.public_key()]
                other.wf() && their_public@ == other.public_key() implies shared@
                == other.shared_with(self.public_key()) by {
                assert(other.secret@.len() == 32);
                assert(shared@ == x25519(
                    other.secret_key(),
                    x25519(self.secret_key(), base_point()),
                ));
            }
        }
        Session::derive(shared.as_slice())
    }

    /// Consumes the joiner's key pair and derives the session keys from the secret
    /// that it shares with the host, the owner of `their_public`: the session opens
    /// what the host's session seals, and seals what that opens.
    pub fn into_joiner_session(self, their_public: &[u8]) -> (r: Result<Session, CryptoError>)
        ensures
            their_public@.len() != 32 ==> r == Err::<Session, CryptoError>(
                CryptoError::PublicKeyLength,
            ),
            their_public@.len() == 32 ==> (r matches Ok(s) && s.mirrors(
                self.shared_with(their_public@),
            )),
            forall|other: Keypair|
                #![trigger other.public_key()]
                other.wf() && their_public@ == other.public_key() && their_public@.len() == 32 ==> (
                r matches Ok(s) && s.mirrors(other.shared_with(self.public_key()))),
            forall|host: Session|
                #![trigger host.tx_key()]
                r is Ok && host.derived_from(self.shared_with(their_public@)) ==> r->Ok_0.rx_key()
                    == host.tx_key() && host.rx_key() == r->Ok_0.tx_key(),
    {
        match self.into_session(their_public) {
            Ok(s) => Ok(s.reversed()),
            Err(e) => Err(e),
        }
    }
}

/// The first 32 bytes of a slice.
fn key_of(b: &[u8]) -> (r: [u8; 32])
    requires
        b@.len() == 32,
    ensures
        r@ == b@,
{
    let r: [u8; 32] = [
        b[0], b[1], b[2], b[3], b[4], b[5], b[6], b[7], b[8], b[9], b[10], b[11], b[12], b[13],
        b[14], b[15], b[16], b[17], b[18], b[19], b[20], b[21], b[22], b[23], b[24], b[25], b[26],
        b[27], b[28], b[29], b[30], b[31],
    ];
    assert(r@ =~= b@);
    r
}

// ── Symmetric session ────────────────────────────────────────────────────────

/// The keys of a session, one for each direction.
pub struct Session {
    tx: [u8; 32],
    rx: [u8; 32],
}

impl Session {
    /// The key that this side seals with.
    pub closed spec fn tx_key(self) -> Seq<u8> {
        self.tx@
    }

    /// The key that this side opens with.
    pub closed spec fn rx_key(self) -> Seq<u8> {
        self.rx@
    }

    /// The keys are those that the secret gives to the host.
    pub open spec fn derived_from(self, shared: Seq<u8>) -> bool {
        &&& self.tx_key() == hkdf_sha256(shared, host_to_join())
        &&& self.rx_key() == hkdf_sha256(shared, join_to_host())
    }

    /// The keys are those that the secret gives to the joiner.
    pub open spec fn mirrors(self, shared: Seq<u8>) -> bool {
        &&& self.tx_key() == hkdf_sha256(shared, join_to_host())
        &&& self.rx_key() == hkdf_sha256(shared, host_to_join())
    }

    /// What a frame holds for this side: nothing where it is too short for a nonce,
    /// or longer than any that the cipher makes.
    pub open spec fn decrypted(self, frame: Seq<u8>) -> Option<Seq<u8>> {
        if frame.len() < NONCE_LEN || !sealable(frame.len() - NONCE_LEN - TAG_LEN) {
            None
        } else {
            opened(self.rx_key(), frame.take(NONCE_LEN as int), frame.skip(NONCE_LEN as int))
        }
    }

    /// What is made of a frame at this end.
    pub open spec fn opens(self, data: Seq<u8>, r: Result<Seq<u8>, CryptoError>) -> bool {
        match r {
            Ok(p) => self.decrypted(data) == Some(p),
            Err(e) => self.decrypted(data) is None && e == (if data.len() < NONCE_LEN {
                CryptoError::TooShort
            } else {
                CryptoError::Decrypt
            }),
        }
    }

    /// The frame of a plaintext: the nonce, then the sealed bytes.
    pub open spec fn frame(self, nonce: Seq<u8>, plaintext: Seq<u8>) -> Seq<u8> {
        nonce + sealed(self.tx_key(), nonce, plaintext)
    }

    fn derive(shared_secret: &[u8]) -> (r: Result<Self, CryptoError>)
        ensures
            r matches Ok(s) && s.derived_from(shared_secret@),
    {
        let tx = match expand_32(shared_secret, "minescale-v1-host-to-join".as_bytes()) {
            Ok(k) => k,
            Err(_) => {
                return Err(CryptoError::Derive);
            },
        };
        let rx = match expand_32(shared_secret, "minescale-v1-join-to-host".as_bytes()) {
            Ok(k) => k,
            Err(_) => {
                return Err(CryptoError::Derive);
            },
        };
        Ok(Self { tx, rx })
    }

    /// The session of the other end: what the one seals with, the other opens with.
    pub fn reversed(self) -> (r: Self)
        ensures
            r.tx_key() == self.rx_key(),
            r.rx_key() == self.tx_key(),
    {
        Self { tx: self.rx, rx: self.tx }
    }

    /// Seals a plaintext under a given nonce.
    pub fn encrypt_with(&self, nonce: &[u8; 12], plaintext: &[u8]) -> (r: Result<
        Vec<u8>,
        CryptoError,
    >)
        ensures
            sealable(plaintext@.len() as int) ==> (r matches Ok(f) && f@ == self.frame(
                nonce@,
                plaintext@,
            ) && f@.len() == NONCE_LEN + plaintext@.len() + TAG_LEN),
            !sealable(plaintext@.len() as int) ==> r == Err::<Vec<u8>, CryptoError>(
                CryptoError::Encrypt,
            ),
            r matches Ok(f) ==> forall|s: Session|
                s.rx_key() == self.tx_key() ==> #[trigger] s.decrypted(f@) == Some(plaintext@),
    {
        if !can_seal(plaintext.len()) {
            return Err(CryptoError::Encrypt);
        }
        let c = match seal(&self.tx, nonce, plaintext) {
            Ok(c) => c,
            Err(_) => {
                return Err(CryptoError::Encrypt);
            },
        };
        let mut out: Vec<u8> = Vec::new();
        out.extend_from_slice(nonce.as_slice());
        out.extend_from_slice(c.as_slice());
        proof {
            assert(out@ =~= nonce@ + c@);
            assert(out@.take(NONCE_LEN as int) =~= nonce@);
            assert(out@.skip(NONCE_LEN as int) =~= c@);
        }
        Ok(out)
    }

    /// Seals a plaintext under a fresh nonce: twelve bytes of nonce, then the
    /// ciphertext and its tag. A session that opens with the key that this one
    /// seals with gets the plaintext back.
    pub fn encrypt(&self, plaintext: &[u8]) -> (r: Result<Vec<u8>, CryptoError>)
        ensures
            sealable(plaintext@.len() as int) ==> (r matches Ok(f) && f@.len() == NONCE_LEN
                + plaintext@.len() + TAG_LEN && f@ == self.frame(
                f@.take(NONCE_LEN as int),
                plaintext@,
            )),
            !sealable(plaintext@.len() as int) ==> r == Err::<Vec<u8>, CryptoError>(
                CryptoError::Encrypt,
            ),
            r matches Ok(f) ==> forall|s: Session|
                s.rx_key() == self.tx_key() ==> #[trigger] s.decrypted(f@) == Some(plaintext@),
    {
        let nonce = entropy::random_12();
        let r = self.encrypt_with(&nonce, plaintext);
        proof {
            if r is Ok {
                assert(r->Ok_0@.take(NONCE_LEN as int) =~= nonce@);
            }
        }
        r
    }

    /// Opens a frame that `encrypt` made at the other end.
    pub fn decrypt(&self, data: &[u8]) -> (r: Result<Vec<u8>, CryptoError>)
        ensures
            self.opens(
                data@,
                match r {
                    Ok(p) => Ok(p@),
                    Err(e) => Err(e),
                },
            ),
            match r {
                Ok(p) => self.decrypted(data@) == Some(p@),
                Err(e) => self.decrypted(data@) is None && e == (if data@.len() < NONCE_LEN {
                    CryptoError::TooShort
                } else {
                    CryptoError::Decrypt
                }),
            },
            data@.len() < NONCE_LEN + TAG_LEN ==> r is Err,
    {
        if data.len() < NONCE_LEN {
            return Err(CryptoError::TooShort);
        }
        let nonce: [u8; 12] = [
            data[0],
            data[1],
            data[2],
            data[3],
            data[4],
            data[5],
            data[6],
            data[7],
            data[8],
            data[9],
            data[10],
            data[11],
        ];
        let body = &data[NONCE_LEN..data.len()];
        proof {
            assert(nonce@ =~= data@.take(NONCE_LEN as int));
            assert(body@ =~= data@.skip(NONCE_LEN as int));
        }
        if body.len() >= TAG_LEN && !can_seal(body.len() - TAG_LEN) {
            return Err(CryptoError::Decrypt);
        }
        match open(&self.rx, &nonce, body) {
            Ok(p) => Ok(p),
            Err(_) => Err(CryptoError::Decrypt),
        }
    }
}

/// The two ends of an agreement can talk: each side opens with the key that the
/// other seals with.
pub proof fn law_ends_are_mirrored(shared: Seq<u8>, host: Session, joiner: Session)
    requires
        host.derived_from(shared),
        joiner.mirrors(shared),
    ensures
        joiner.rx_key() == host.tx_key(),
        host.rx_key() == joiner.tx_key(),
{
}

/// Two sessions in the host's orientation, one from each end of an agreement, hold
/// the same keys, so neither is the other's counterpart; with one of them turned
/// round, each opens with the key that the other seals with.
pub proof fn law_host_sessions_talk_once_one_is_turned(
    shared: Seq<u8>,
    a: Session,
    b: Session,
    turned: Session,
)
    requires
        a.derived_from(shared),
        b.derived_from(shared),
        turned.tx_key() == b.rx_key(),
        turned.rx_key() == b.tx_key(),
    ensures
        a.tx_key() == b.tx_key(),
        a.rx_key() == b.rx_key(),
        turned.mirrors(shared),
        turned.rx_key() == a.tx_key(),
        a.rx_key() == turned.tx_key(),
{
}

// ── Certificate ──────────────────────────────────────────────────────────────

/// What becomes of the attempt to make a certificate: the certificate, or an error
/// that tells the reason.
pub fn certified(made: Result<CertifiedKey, String>) -> (r: Result<CertifiedKey, CryptoError>)
    ensures
        r == (match made {
            Ok(c) => Ok::<CertifiedKey, CryptoError>(c),
            Err(reason) => Err::<CertifiedKey, CryptoError>(CryptoError::Certificate(reason)),
        }),
{
    match made {
        Ok(c) => Ok(c),
        Err(reason) => Err(CryptoError::Certificate(reason)),
    }
}

/// A fresh self-signed certificate for the tunnel. Whether one can be made rests
/// with the machine's random source.
pub fn generate_self_signed_cert() -> (r: Result<CertifiedKey, CryptoError>)
    ensures
        match r {
            Ok(c) => is_self_signed_for(c.cert_der@, c.key_der@, CERT_NAME@),
            Err(e) => e is Certificate,
        },
{
    match self_signed(CERT_NAME) {
        Ok(made) => certified(Ok(made)),
        Err(e) => certified(Err(reason_of(&e))),
    }
}

/// The SHA-256 fingerprint of a DER-encoded certificate.
pub fn cert_fingerprint(cert_der: &[u8]) -> (r: Vec<u8>)
    ensures
        r@ == sha256(cert_der@),
        r@.len() == 32,
{
    digest(cert_der)
}

/// The two directions of a session have keys of their own: they are derived under
/// labels that differ.
pub proof fn law_directions_have_their_own_labels()
    ensures
        host_to_join() != join_to_host(),
        host_to_join() == vstd::utf8::encode_utf8("minescale-v1-"@ + "host-to-join"@),
        join_to_host() == vstd::utf8::encode_utf8("minescale-v1-"@ + "join-to-host"@),
{
    reveal_strlit("minescale-v1-host-to-join");
    reveal_strlit("minescale-v1-join-to-host");
    reveal_strlit("minescale-v1-");
    reveal_strlit("host-to-join");
    reveal_strlit("join-to-host");
    let a = "minescale-v1-host-to-join"@;
    let b = "minescale-v1-join-to-host"@;
    assert(a =~= "minescale-v1-"@ + "host-to-join"@);
    assert(b =~= "minescale-v1-"@ + "join-to-host"@);
    vstd::utf8::encode_utf8_decode_utf8(a);
    vstd::utf8::encode_utf8_decode_utf8(b);
    assert(a[13] != b[13]);
}

/// A frame is the nonce and what is sealed under it: it begins with the twelve bytes of
/// the nonce, and the receiver opens what follows under that nonce.
pub proof fn law_frames_carry_their_nonce(s: Session, nonce: Seq<u8>, plaintext: Seq<u8>)
    requires
        nonce.len() == 12,
    ensures
        s.frame(nonce, plaintext).take(12) == nonce,
        s.frame(nonce, plaintext).skip(12) == sealed(s.tx_key(), nonce, plaintext),
{
    assert(s.frame(nonce, plaintext).take(12) =~= nonce);
    assert(s.frame(nonce, plaintext).skip(12) =~= sealed(s.tx_key(), nonce, plaintext));
}

/// What can be sealed is told by the block: 64 bytes go into a block, a block that is
/// begun counts, and there may be two blocks less than 32 bits count.
pub proof fn law_lengths_are_sealed_by_the_block(blocks: nat, rest: nat)
    requires
        rest < 64,
    ensures
        sealable(blocks * 64 as int) <==> blocks < 0xffff_ffff,
        0 < rest ==> (sealable(blocks * 64 + rest as int) <==> blocks + 1 < 0xffff_ffff),
{
}

/// A frame is opened with the nonce that it begins with. One that is too short to hold a
/// nonce holds nothing, and neither does one that is longer than any that is made.
pub proof fn law_frames_are_opened_by_their_nonce(s: Session, nonce: Seq<u8>, rest: Seq<u8>)
    ensures
        nonce.len() < 12 ==> s.decrypted(nonce) is None,
        nonce.len() == 12 && sealable(rest.len() - 16) ==> s.decrypted(nonce + rest) == opened(
            s.rx_key(),
            nonce,
            rest,
        ),
        nonce.len() == 12 && !sealable(rest.len() - 16) ==> s.decrypted(nonce + rest) is None,
{
    if nonce.len() == 12 {
        assert((nonce + rest).take(12) =~= nonce);
        assert((nonce + rest).skip(12) =~= rest);
    }
}

/// The base point is the number nine, in 32 bytes of which the lowest comes first.
pub proof fn law_base_point_is_nine(i: int)
    ensures
        base_point().len() == 32,
        base_point()[0] == 9,
        1 <= i < 32 ==> base_point()[i] == 0,
{
}

/// Each failure is told in words of its own, and a certificate's with its reason.
pub proof fn law_failures_are_told_in_words(reason: String)
    ensures
        CryptoError::PublicKeyLength.text() == "Public key must be 32 bytes"@,
        CryptoError::Derive.text() == "HKDF expand failed"@,
        CryptoError::Encrypt.text() == "Encrypt failed: Error"@,
        CryptoError::TooShort.text() == "Ciphertext too short"@,
        CryptoError::Decrypt.text() == "Decrypt failed: Error"@,
        text::after_prefix(
            CryptoError::Certificate(reason).text(),
            "Certificate generation failed: "@,
        ) == Some(reason@),
{
    text::law_texts_are_found_where_they_stand(
        seq![],
        "Certificate generation failed: "@,
        reason@,
    );
}

/// A frame that cannot be opened is told to be too short if and only if it cannot hold a
/// nonce.
pub proof fn law_unopened_frames_have_their_reason(s: Session, data: Seq<u8>, e: CryptoError)
    requires
        s.opens(data, Err(e)),
    ensures
        e == CryptoError::TooShort <==> data.len() < 12,
        e == CryptoError::Decrypt <==> data.len() >= 12,
{
}

} // verus!
