//! The long-lived Ed25519 identity of this machine: generated once, kept as two base64
//! files, and checked for consistency whenever it is read back.
use vstd::prelude::*;
use crate::clipboard::{base64_decode, base64_decoded, base64_encode, base64_encoded, decodes_to, base64_text, base64_char};
use crate::text::{concat, decimal, usize_to_string};
use crate::title::{trim, trim_spec, trim_start, trim_end, is_ws};

verus! {

/// The file that holds the private key, base64.
pub const IDENTITY_PRIVATE_FILE: &'static str = "identity.key";

/// The file that holds the public key, base64.
pub const IDENTITY_PUBLIC_FILE: &'static str = "identity.pub";

/// The Ed25519 public key of a 32-byte secret key.
pub uninterp spec fn ed25519_public(secret: Seq<u8>) -> Seq<u8>;

/// Whether 32 bytes are the compressed form of a point on the curve.
pub uninterp spec fn ed25519_point_valid(bytes: Seq<u8>) -> bool;

/// A fresh signing key from the operating system (`SigningKey::generate`) and its
/// verifying key, both as 32 bytes.
#[verifier::external_body]
fn ed25519_generate() -> (r: (Vec<u8>, Vec<u8>))
    ensures
        r.0@.len() == 32,
        r.1@ == ed25519_public(r.0@),
        r.1@.len() == 32,
        ed25519_point_valid(r.1@),
{
    let signing = ed25519_dalek::SigningKey::generate(&mut rand_core::OsRng);
    (signing.to_bytes().to_vec(), signing.verifying_key().to_bytes().to_vec())
}

/// `SigningKey::from_bytes(..).verifying_key().to_bytes()`: the 32-byte public key.
#[verifier::external_body]
fn ed25519_verifying_key(secret: &Vec<u8>) -> (r: Vec<u8>)
    requires
        secret@.len() == 32,
    ensures
        r@ == ed25519_public(secret@),
        r@.len() == 32,
{
    let mut s = [0u8; 32];
    s.copy_from_slice(secret);
    ed25519_dalek::SigningKey::from_bytes(&s).verifying_key().to_bytes().to_vec()
}

/// Whether `VerifyingKey::from_bytes` accepts 32 bytes, that is whether they decompress to
/// a curve point. An accepted key keeps its bytes, and keys compare by them.
#[verifier::external_body]
fn ed25519_accepts(public: &Vec<u8>) -> (r: bool)
    requires
        public@.len() == 32,
    ensures
        r == ed25519_point_valid(public@),
{
    let mut p = [0u8; 32];
    p.copy_from_slice(public);
    ed25519_dalek::VerifyingKey::from_bytes(&p).is_ok()
}

/// An identity key pair: the 32-byte signing key and its 32-byte verifying key.
pub struct IdentityKeyPair {
    pub signing_key: Vec<u8>,
    pub verifying_key: Vec<u8>,
}

impl IdentityKeyPair {
    /// Both halves have their length and belong together.
    pub open spec fn wf(&self) -> bool {
        &&& self.signing_key@.len() == 32
        &&& self.verifying_key@ == ed25519_public(self.signing_key@)
        &&& self.verifying_key@.len() == 32
        &&& ed25519_point_valid(self.verifying_key@)
    }

    /// A fresh key pair from the operating system's random source.
    pub fn generate() -> (r: IdentityKeyPair)
        ensures
            r.wf(),
    {
        let (signing_key, verifying_key) = ed25519_generate();
        IdentityKeyPair { signing_key, verifying_key }
    }

    /// The verifying key's 32 bytes.
    pub fn public_key_bytes(&self) -> (r: Vec<u8>)
        ensures
            r@ == self.verifying_key@,
    {
        self.verifying_key.clone()
    }

    /// The verifying key in standard base64.
    pub fn public_key_base64(&self) -> (r: String)
        ensures
            r@ == base64_encoded(self.verifying_key@),
            decodes_to(r@, self.verifying_key@),
    {
        base64_encode(self.verifying_key.as_slice())
    }
}

/// The two files' contents for a key pair: the signing key and the verifying key, each in
/// standard base64.
pub open spec fn encoded_identity_spec(signing: Seq<u8>, verifying: Seq<u8>) -> (Seq<char>, Seq<char>) {
    (base64_encoded(signing), base64_encoded(verifying))
}

/// Text without white space at either end is its own trim.
proof fn lemma_base64_trim(s: Seq<char>)
    requires
        base64_text(s),
    ensures
        trim_spec(s) == s,
{
    if s.len() > 0 {
        assert(base64_char(s[0]));
        assert(!is_ws(s[0]));
        assert(base64_char(s[s.len() - 1]));
        assert(!is_ws(s.last()));
    }
    assert(trim_start(s) == s);
    assert(trim_end(s) == s);
}

/// What goes into the private and the public key file. Read back, they give the same pair.
pub fn encode_identity(kp: &IdentityKeyPair) -> (r: (String, String))
    requires
        kp.wf(),
    ensures
        (r.0@, r.1@) == encoded_identity_spec(kp.signing_key@, kp.verifying_key@),
        decoded_identity_spec(r.0@, r.1@) == Ok::<(Seq<u8>, Seq<u8>), Seq<char>>((kp.signing_key@, kp.verifying_key@)),
{
    let private_text = base64_encode(kp.signing_key.as_slice());
    let public_text = base64_encode(kp.verifying_key.as_slice());
    proof {
        lemma_base64_trim(private_text@);
        lemma_base64_trim(public_text@);
        assert(key_file_bytes(private_text@) == Ok::<Seq<u8>, Seq<char>>(kp.signing_key@));
        assert(key_file_bytes(public_text@) == Ok::<Seq<u8>, Seq<char>>(kp.verifying_key@));
    }
    (private_text, public_text)
}

/// The bytes that a key file's text stands for: the text without surrounding white
/// space, decoded.
pub open spec fn key_file_bytes(text: Seq<char>) -> Result<Seq<u8>, Seq<char>> {
    base64_decoded(vstd::utf8::encode_utf8(trim_spec(text)))
}

/// The error for a key of the wrong length.
pub open spec fn length_error(which: Seq<char>, len: nat) -> Seq<char> {
    "invalid "@ + which + " key length: expected 32 bytes, got "@ + decimal(len)
}

/// Reading a key pair back from the two files' texts: both decode, both have 32 bytes, the
/// public key is a curve point, and it is the one that the private key gives. The error
/// names the first check that fails.
pub open spec fn decoded_identity_spec(private_text: Seq<char>, public_text: Seq<char>) -> Result<(Seq<u8>, Seq<u8>), Seq<char>> {
    match key_file_bytes(private_text) {
        Err(_) => Err("invalid private key encoding"@),
        Ok(sk) => if sk.len() != 32 {
            Err(length_error("private"@, sk.len()))
        } else {
            match key_file_bytes(public_text) {
                Err(_) => Err("invalid public key encoding"@),
                Ok(pk) => if pk.len() != 32 {
                    Err(length_error("public"@, pk.len()))
                } else if !ed25519_point_valid(pk) {
                    Err("invalid public key"@)
                } else if ed25519_public(sk) != pk {
                    Err("public key does not match private key"@)
                } else {
                    Ok((sk, pk))
                },
            }
        },
    }
}

fn length_message(which: &str, len: usize) -> (r: String)
    ensures
        r@ == length_error(which@, len as nat),
{
    let m = concat("invalid ", which);
    let m = concat(m.as_str(), " key length: expected 32 bytes, got ");
    let n = usize_to_string(len);
    concat(m.as_str(), n.as_str())
}

/// The key pair that the private and public key files hold, or why they cannot be used.
pub fn decode_identity(private_text: &str, public_text: &str) -> (r: Result<IdentityKeyPair, String>)
    ensures
        match decoded_identity_spec(private_text@, public_text@) {
            Ok(pair) => r matches Ok(kp) && kp.signing_key@ == pair.0 && kp.verifying_key@
                == pair.1 && kp.wf(),
            Err(e) => r matches Err(m) && m@ == e,
        },
{
    let sk_text = trim(private_text);
    let signing_key = match base64_decode(sk_text.as_str().as_bytes()) {
        Ok(b) => b,
        Err(_) => {
            return Err("invalid private key encoding".to_owned());
        },
    };
    if signing_key.len() != 32 {
        return Err(length_message("private", signing_key.len()));
    }
    let pk_text = trim(public_text);
    let verifying_key = match base64_decode(pk_text.as_str().as_bytes()) {
        Ok(b) => b,
        Err(_) => {
            return Err("invalid public key encoding".to_owned());
        },
    };
    if verifying_key.len() != 32 {
        return Err(length_message("public", verifying_key.len()));
    }
    if !ed25519_accepts(&verifying_key) {
        return Err("invalid public key".to_owned());
    }
    let derived = ed25519_verifying_key(&signing_key);
    let mut same = true;
    let mut i: usize = 0;
    while i < 32
        invariant
            i <= 32,
            derived@.len() == 32,
            verifying_key@.len() == 32,
            same <==> (forall|j: int| 0 <= j < i ==> derived@[j] == verifying_key@[j]),
        decreases 32 - i,
    {
        if derived[i] != verifying_key[i] {
            same = false;
        }
        i = i + 1;
    }
    proof {
        if same {
            assert(derived@ =~= verifying_key@);
        }
    }
    if !same {
        return Err("public key does not match private key".to_owned());
    }
    Ok(IdentityKeyPair { signing_key, verifying_key })
}

} // verus!
