//! End-to-end encrypted frames between two paired peers: session keys from a key exchange
//! or a shared password, sealing and opening of sequenced frames, and key rotation.
use vstd::prelude::*;
use chacha20poly1305::aead::Aead;
use chacha20poly1305::KeyInit;
use rand_core::RngCore;
use crate::text::{usize_to_string, decimal};
use zeroize::Zeroize;

verus! {

/// Size of a key, in bytes.
pub const KEY_SIZE: usize = 32;

/// Size of a nonce, in bytes.
pub const NONCE_SIZE: usize = 12;

/// Size of the authentication tag, in bytes.
pub const TAG_SIZE: usize = 16;

/// Rotate after this many seconds.
pub const ROTATION_INTERVAL_SECS: u64 = 3600;

/// Rotate after this many sent messages.
pub const ROTATION_MESSAGE_COUNT: u64 = 1_000_000;

/// Type byte and sequence number.
pub const FRAME_HEADER_SIZE: usize = 5;

/// The smallest frame: header, nonce and tag.
pub const FRAME_OVERHEAD: usize = 33;

/// ChaCha20-Poly1305 encryption of `plaintext` under `key` and `nonce`, tag appended.
pub uninterp spec fn aead_seal(key: Seq<u8>, nonce: Seq<u8>, plaintext: Seq<u8>) -> Seq<u8>;

/// ChaCha20-Poly1305 decryption: the plaintext when the tag authenticates.
pub uninterp spec fn aead_open(key: Seq<u8>, nonce: Seq<u8>, ciphertext: Seq<u8>) -> Option<Seq<u8>>;

/// The longest plaintext the cipher takes, counted in 64-byte blocks.
pub open spec fn aead_fits(len: nat) -> bool {
    len / 64 < 0xffff_ffff
}

/// `ChaCha20Poly1305::encrypt`: the ciphertext with the tag appended, sixteen bytes longer
/// than the plaintext. It fails only for a plaintext of 2^32 blocks or more.
#[verifier::external_body]
pub fn encrypt_with_nonce(key: &Vec<u8>, nonce: &Vec<u8>, plaintext: &[u8]) -> (r: Result<Vec<u8>, String>)
    requires
        key@.len() == KEY_SIZE,
        nonce@.len() == NONCE_SIZE,
    ensures
        aead_fits(plaintext@.len()) ==> r is Ok,
        r matches Ok(c) ==> c@ == aead_seal(key@, nonce@, plaintext@) && c@.len() == plaintext@.len() + TAG_SIZE,
{
    let cipher = chacha20poly1305::ChaCha20Poly1305::new(chacha20poly1305::Key::from_slice(key));
    match cipher.encrypt(chacha20poly1305::Nonce::from_slice(nonce), plaintext) {
        Ok(c) => Ok(c),
        Err(_) => Err("encryption failed".to_string()),
    }
}

/// A decryption that gave back exactly `p`.
pub open spec fn opened(r: Result<Vec<u8>, String>, p: Seq<u8>) -> bool {
    r matches Ok(x) && x@ == p
}

/// `ChaCha20Poly1305::decrypt`: the plaintext when the tag authenticates. What one key and
/// nonce sealed, the same key and nonce open again.
#[verifier::external_body]
pub fn decrypt_with_nonce(key: &Vec<u8>, nonce: &Vec<u8>, ciphertext: &[u8]) -> (r: Result<Vec<u8>, String>)
    requires
        key@.len() == KEY_SIZE,
        nonce@.len() == NONCE_SIZE,
    ensures
        match aead_open(key@, nonce@, ciphertext@) {
            Some(p) => r matches Ok(x) && x@ == p,
            None => r is Err,
        },
        forall|p: Seq<u8>| #[trigger] aead_seal(key@, nonce@, p) == ciphertext@ && aead_fits(p.len()) ==> opened(r, p),
{
    let cipher = chacha20poly1305::ChaCha20Poly1305::new(chacha20poly1305::Key::from_slice(key));
    match cipher.decrypt(chacha20poly1305::Nonce::from_slice(nonce), ciphertext) {
        Ok(p) => Ok(p),
        Err(_) => Err("decryption failed".to_string()),
    }
}

/// A fresh random nonce from the operating system.
#[verifier::external_body]
fn generate_nonce() -> (r: Vec<u8>)
    ensures
        r@.len() == NONCE_SIZE,
{
    let mut nonce = vec![0u8; 12];
    rand_core::OsRng.fill_bytes(&mut nonce);
    nonce
}

/// A fresh random salt from the operating system.
#[verifier::external_body]
pub fn generate_salt() -> (r: Vec<u8>)
    ensures
        r@.len() == 16,
{
    let mut salt = vec![0u8; 16];
    rand_core::OsRng.fill_bytes(&mut salt);
    salt
}

/// HKDF-SHA256 of some input key material under an optional salt, expanded with `info`
/// to 64 bytes and split into two 32-byte keys.
pub uninterp spec fn hkdf_pair(salt: Option<Seq<u8>>, ikm: Seq<u8>, info: Seq<u8>) -> (Seq<u8>, Seq<u8>);

/// The view of an optional byte slice.
pub open spec fn opt_bytes(o: Option<&[u8]>) -> Option<Seq<u8>> {
    match o {
        Some(b) => Some(b@),
        None => None,
    }
}

/// `Hkdf::<Sha256>::new(salt, ikm).expand(info, 64 bytes)`, split in halves. Expanding 64
/// bytes is within HKDF-SHA256's limit, so it does not fail.
#[verifier::external_body]
pub fn hkdf_derive_pair(ikm: &[u8], salt: Option<&[u8]>, info: &[u8]) -> (r: (Vec<u8>, Vec<u8>))
    ensures
        (r.0@, r.1@) == hkdf_pair(opt_bytes(salt), ikm@, info@),
        r.0@.len() == KEY_SIZE,
        r.1@.len() == KEY_SIZE,
{
    let hk = hkdf::Hkdf::<sha2::Sha256>::new(salt, ikm);
    let mut okm = [0u8; 64];
    match hk.expand(info, &mut okm) {
        Ok(()) => (okm[..32].to_vec(), okm[32..].to_vec()),
        Err(_) => (vec![0u8; 32], vec![0u8; 32]),
    }
}

/// `Hkdf::<Sha256>::new(salt, ikm).expand(info, 32 bytes)`. HKDF's output is a stream, so
/// these are the first 32 of the 64 bytes that `hkdf_derive_pair` expands.
#[verifier::external_body]
pub fn hkdf_derive(ikm: &[u8], salt: Option<&[u8]>, info: &[u8]) -> (r: Vec<u8>)
    ensures
        r@ == hkdf_pair(opt_bytes(salt), ikm@, info@).0,
        r@.len() == KEY_SIZE,
{
    let hk = hkdf::Hkdf::<sha2::Sha256>::new(salt, ikm);
    let mut okm = [0u8; 32];
    match hk.expand(info, &mut okm) {
        Ok(()) => okm.to_vec(),
        Err(_) => vec![0u8; 32],
    }
}

/// Argon2id (the crate's default parameters) of a password and salt: a 32-byte key, or
/// nothing when the salt or password is out of the accepted range.
pub uninterp spec fn argon2_key(password: Seq<u8>, salt: Seq<u8>) -> Option<Seq<u8>>;

/// Whether Argon2 accepts a password and salt: a password of at most `0xFFFFFFFF` bytes
/// and a salt of 8 to `0xFFFFFFFF` bytes.
pub open spec fn argon2_accepts(password_len: nat, salt_len: nat) -> bool {
    &&& password_len <= 0xFFFF_FFFF
    &&& 8 <= salt_len
    &&& salt_len <= 0xFFFF_FFFF
}

/// `Argon2::default().hash_password_into` with a 32-byte output. It fails exactly when
/// the crate's input check refuses the password or salt length (`verify_inputs`); the
/// 32-byte output is within the default parameters' output range.
#[verifier::external_body]
pub fn derive_key_from_password(password: &[u8], salt: &[u8]) -> (r: Result<Vec<u8>, String>)
    ensures
        match argon2_key(password@, salt@) {
            Some(k) => r matches Ok(x) && x@ == k && k.len() == KEY_SIZE,
            None => r is Err,
        },
        r is Ok <==> argon2_accepts(password@.len(), salt@.len()),
{
    let mut out = [0u8; 32];
    match argon2::Argon2::default().hash_password_into(password, salt, &mut out) {
        Ok(()) => Ok(out.to_vec()),
        Err(e) => Err(e.to_string()),
    }
}

/// Message types in the encrypted frame protocol.
#[derive(Clone, Copy, Debug, PartialEq, Eq, Structural)]
pub enum MessageType {
    Data,
    KeyRotation,
    Ping,
    Pong,
    Close,
    /// Terminal resize: the payload is `[cols: u16 BE][rows: u16 BE]`.
    Resize,
}

/// The byte that carries a message type.
pub open spec fn type_byte(t: MessageType) -> u8 {
    match t {
        MessageType::Data => 0x01,
        MessageType::KeyRotation => 0x02,
        MessageType::Ping => 0x03,
        MessageType::Pong => 0x04,
        MessageType::Close => 0x05,
        MessageType::Resize => 0x06,
    }
}

/// Two lower-case hexadecimal digits of a byte.
pub open spec fn hex2(b: u8) -> Seq<char> {
    seq![crate::jsontext::hex_digit((b / 16) as u32), crate::jsontext::hex_digit((b % 16) as u32)]
}

fn hex_char(d: u8) -> (c: char)
    requires
        d < 16,
    ensures
        c == crate::jsontext::hex_digit(d as u32),
{
    if d < 10 {
        ((0x30u8 + d) as char)
    } else {
        ((0x61u8 + d - 10) as char)
    }
}

impl MessageType {
    /// The message type a byte names.
    pub fn from_byte(b: u8) -> (r: Result<MessageType, String>)
        ensures
            1 <= b <= 6 ==> (r matches Ok(t) && type_byte(t) == b),
            !(1 <= b <= 6) ==> (r matches Err(m) && m@ == "unknown message type: 0x"@ + hex2(b)),
    {
        match b {
            0x01 => Ok(MessageType::Data),
            0x02 => Ok(MessageType::KeyRotation),
            0x03 => Ok(MessageType::Ping),
            0x04 => Ok(MessageType::Pong),
            0x05 => Ok(MessageType::Close),
            0x06 => Ok(MessageType::Resize),
            _ => {
                let mut m = "unknown message type: 0x".to_owned();
                crate::text::push_char(&mut m, hex_char(b / 16));
                crate::text::push_char(&mut m, hex_char(b % 16));
                Err(m)
            },
        }
    }

    /// The byte that carries this type.
    pub fn to_byte(self) -> (r: u8)
        ensures
            r == type_byte(self),
    {
        match self {
            MessageType::Data => 0x01,
            MessageType::KeyRotation => 0x02,
            MessageType::Ping => 0x03,
            MessageType::Pong => 0x04,
            MessageType::Close => 0x05,
            MessageType::Resize => 0x06,
        }
    }
}

/// Law: a message type survives its own byte.
pub proof fn law_message_type_byte_round_trip(t: MessageType)
    ensures
        1 <= type_byte(t) <= 6,
        forall|u: MessageType| type_byte(u) == type_byte(t) ==> u == t,
{
}


#[verifier::external_type_specification]
#[verifier::external_body]
pub struct ExInstant(std::time::Instant);

/// `Instant::now`.
#[verifier::external_body]
fn now() -> (r: std::time::Instant) {
    std::time::Instant::now()
}

/// Whole seconds since `t` (`Instant::elapsed`, `Duration::as_secs`).
#[verifier::external_body]
fn elapsed_secs(t: &std::time::Instant) -> (r: u64) {
    t.elapsed().as_secs()
}

/// Overwrites the bytes with zeros and empties the vector (`Zeroize` for `Vec`).
#[verifier::external_body]
fn wipe(v: &mut Vec<u8>)
    ensures
        final(v)@.len() == 0,
{
    v.zeroize();
}

/// The key schedule's label for a generation: `sandseal-session-v1-gen<n>`.
pub open spec fn generation_info(g: u32) -> Seq<u8> {
    crate::clipboard::utf8("sandseal-session-v1-gen"@ + decimal(g as nat))
}

fn generation_info_bytes(g: u32) -> (r: Vec<u8>)
    ensures
        r@ == generation_info(g),
{
    let s = crate::text::concat("sandseal-session-v1-gen", usize_to_string(g as usize).as_str());
    let b = s.as_str().as_bytes();
    let mut out: Vec<u8> = Vec::new();
    let mut i: usize = 0;
    while i < b.len()
        invariant
            i <= b.len(),
            b@ == crate::clipboard::utf8(s@),
            s@ == "sandseal-session-v1-gen"@ + decimal(g as nat),
            out@ == b@.take(i as int),
        decreases b.len() - i,
    {
        out.push(b[i]);
        proof {
            assert(b@.take(i + 1) =~= b@.take(i as int).push(b@[i as int]));
        }
        i = i + 1;
    }
    proof {
        assert(b@.take(i as int) =~= b@);
    }
    out
}

/// The abstract state of a session.
pub struct SessionView {
    pub send_key: Seq<u8>,
    pub recv_key: Seq<u8>,
    pub send_seq: u32,
    pub recv_seq: u32,
    pub send_count: u64,
    pub recv_count: u64,
    pub shared_secret: Seq<u8>,
    pub generation: u32,
}

/// Keys, sequence numbers and counters of one side of a paired session.
pub struct SessionKeys {
    send_key: Vec<u8>,
    recv_key: Vec<u8>,
    send_seq: u32,
    recv_seq: u32,
    send_count: u64,
    recv_count: u64,
    created_at: std::time::Instant,
    shared_secret: Vec<u8>,
    generation: u32,
}

impl View for SessionKeys {
    type V = SessionView;

    closed spec fn view(&self) -> SessionView {
        SessionView {
            send_key: self.send_key@,
            recv_key: self.recv_key@,
            send_seq: self.send_seq,
            recv_seq: self.recv_seq,
            send_count: self.send_count,
            recv_count: self.recv_count,
            shared_secret: self.shared_secret@,
            generation: self.generation,
        }
    }
}

/// Which of a derived pair sends: the initiator sends with the first key.
pub open spec fn directed(pair: (Seq<u8>, Seq<u8>), is_initiator: bool) -> (Seq<u8>, Seq<u8>) {
    if is_initiator {
        pair
    } else {
        (pair.1, pair.0)
    }
}

/// A fresh session over a shared secret: generation 0, all counters at zero.
pub open spec fn fresh_session(shared: Seq<u8>, is_initiator: bool, s: SessionView) -> bool {
    let keys = directed(hkdf_pair(None, shared, generation_info(0)), is_initiator);
    &&& s.send_key == keys.0
    &&& s.recv_key == keys.1
    &&& s.send_seq == 0
    &&& s.recv_seq == 0
    &&& s.send_count == 0
    &&& s.recv_count == 0
    &&& s.shared_secret == shared
    &&& s.generation == 0
}

/// The frame that carries one message: type, sequence number (big-endian), nonce, then
/// the ciphertext with its tag.
pub open spec fn frame_spec(t: MessageType, seq: u32, nonce: Seq<u8>, ciphertext: Seq<u8>) -> Seq<u8> {
    seq![type_byte(t)] + be_u32(seq) + nonce + ciphertext
}

/// The big-endian bytes of a 32-bit number.
pub open spec fn be_u32(v: u32) -> Seq<u8> {
    seq![(v / 0x1000000) as u8, ((v / 0x10000) % 0x100) as u8, ((v / 0x100) % 0x100) as u8, (v % 0x100) as u8]
}

/// The number of four big-endian bytes.
pub open spec fn from_be(b0: u8, b1: u8, b2: u8, b3: u8) -> u32 {
    (b0 as int * 0x1000000 + b1 as int * 0x10000 + b2 as int * 0x100 + b3 as int) as u32
}

fn be_bytes(v: u32) -> (r: Vec<u8>)
    ensures
        r@ == be_u32(v),
{
    let mut r: Vec<u8> = Vec::new();
    r.push((v / 0x1000000) as u8);
    r.push(((v / 0x10000) % 0x100) as u8);
    r.push(((v / 0x100) % 0x100) as u8);
    r.push((v % 0x100) as u8);
    proof {
        assert(r@ =~= be_u32(v));
    }
    r
}

proof fn lemma_be_round_trip(v: u32)
    ensures
        from_be(be_u32(v)[0], be_u32(v)[1], be_u32(v)[2], be_u32(v)[3]) == v,
{
    let b = be_u32(v);
    assert(b[0] == (v / 0x1000000) as u8);
    assert(b[1] == ((v / 0x10000) % 0x100) as u8);
    assert(b[2] == ((v / 0x100) % 0x100) as u8);
    assert(b[3] == (v % 0x100) as u8);
    assert((v / 0x1000000) < 0x100);
    assert(v == (v / 0x1000000) * 0x1000000 + ((v / 0x10000) % 0x100) * 0x10000 + ((v / 0x100) % 0x100) * 0x100 + v % 0x100) by (nonlinear_arith);
}

fn append_bytes(out: &mut Vec<u8>, src: &[u8])
    ensures
        final(out)@ == old(out)@ + src@,
{
    let mut i: usize = 0;
    while i < src.len()
        invariant
            i <= src.len(),
            out@ == old(out)@ + src@.take(i as int),
        decreases src.len() - i,
    {
        out.push(src[i]);
        proof {
            assert(src@.take(i + 1) =~= src@.take(i as int).push(src@[i as int]));
        }
        i = i + 1;
    }
    proof {
        assert(src@.take(i as int) =~= src@);
    }
}

fn copy_bytes(src: &[u8], from: usize, to: usize) -> (r: Vec<u8>)
    requires
        from <= to <= src@.len(),
    ensures
        r@ == src@.subrange(from as int, to as int),
{
    let mut out: Vec<u8> = Vec::new();
    let mut i = from;
    while i < to
        invariant
            from <= i <= to <= src@.len(),
            out@ == src@.subrange(from as int, i as int),
        decreases to - i,
    {
        out.push(src[i]);
        proof {
            assert(src@.subrange(from as int, i + 1) =~= src@.subrange(from as int, i as int).push(src@[i as int]));
        }
        i = i + 1;
    }
    out
}

impl SessionKeys {
    /// Both keys are key-sized.
    pub closed spec fn wf(&self) -> bool {
        self.send_key@.len() == KEY_SIZE && self.recv_key@.len() == KEY_SIZE
    }

    /// Session keys over a shared secret: the initiator sends with the first derived key
    /// and receives with the second, the other side the other way round.
    pub fn from_shared_secret(shared: Vec<u8>, is_initiator: bool) -> (r: SessionKeys)
        ensures
            fresh_session(shared@, is_initiator, r@),
            r.wf(),
    {
        let info = generation_info_bytes(0);
        let (key_a, key_b) = hkdf_derive_pair(shared.as_slice(), None, info.as_slice());
        let (send_key, recv_key) = if is_initiator {
            (key_a, key_b)
        } else {
            (key_b, key_a)
        };
        SessionKeys {
            send_key,
            recv_key,
            send_seq: 0,
            recv_seq: 0,
            send_count: 0,
            recv_count: 0,
            created_at: now(),
            shared_secret: shared,
            generation: 0,
        }
    }

    /// Seals a message into a frame with the given nonce, then advances the send sequence
    /// (wrapping) and the send count.
    pub fn seal_with_nonce(&mut self, msg_type: MessageType, plaintext: &[u8], nonce: &Vec<u8>) -> (r: Result<Vec<u8>, String>)
        requires
            old(self).wf(),
            nonce@.len() == NONCE_SIZE,
            old(self)@.send_count < u64::MAX,
        ensures
            final(self).wf(),
            aead_fits(plaintext@.len()) ==> r is Ok,
            r matches Ok(frame) ==> {
                &&& frame@ == frame_spec(msg_type, old(self)@.send_seq, nonce@, aead_seal(old(self)@.send_key, nonce@, plaintext@))
                &&& frame@.len() == FRAME_OVERHEAD + plaintext@.len()
                &&& final(self)@ == after_send(old(self)@)
            },
            r is Err ==> final(self)@ == old(self)@,
    {
        let ciphertext = match encrypt_with_nonce(&self.send_key, nonce, plaintext) {
            Ok(c) => c,
            Err(e) => {
                return Err(e);
            },
        };
        let mut frame: Vec<u8> = Vec::new();
        frame.push(msg_type.to_byte());
        let seq = be_bytes(self.send_seq);
        append_bytes(&mut frame, seq.as_slice());
        append_bytes(&mut frame, nonce.as_slice());
        append_bytes(&mut frame, ciphertext.as_slice());
        proof {
            assert(frame@ =~= frame_spec(msg_type, self.send_seq, nonce@, ciphertext@));
        }
        self.send_seq = self.send_seq.wrapping_add(1);
        self.send_count = self.send_count + 1;
        Ok(frame)
    }

    /// Seals a message into a frame under a fresh random nonce.
    pub fn seal(&mut self, msg_type: MessageType, plaintext: &[u8]) -> (r: Result<Vec<u8>, String>)
        requires
            old(self).wf(),
            old(self)@.send_count < u64::MAX,
        ensures
            final(self).wf(),
            aead_fits(plaintext@.len()) ==> r is Ok,
            r matches Ok(frame) ==> exists|nonce: Seq<u8>| nonce.len() == NONCE_SIZE && #[trigger] frame@ == frame_spec(
                msg_type,
                old(self)@.send_seq,
                nonce,
                aead_seal(old(self)@.send_key, nonce, plaintext@),
            ),
            r matches Ok(frame) ==> frame@.len() == FRAME_OVERHEAD + plaintext@.len(),
            r is Ok ==> final(self)@ == after_send(old(self)@),
            r is Err ==> final(self)@ == old(self)@,
    {
        let nonce = generate_nonce();
        self.seal_with_nonce(msg_type, plaintext, &nonce)
    }

    /// Opens a frame: it must be long enough, carry a known type and the expected sequence
    /// number, and authenticate under the receive key. Then the receive sequence advances
    /// (wrapping) and the receive count.
    #[verifier::rlimit(30)]
    pub fn open(&mut self, frame: &[u8]) -> (r: Result<(MessageType, Vec<u8>), String>)
        requires
            old(self).wf(),
            old(self)@.recv_count < u64::MAX,
        ensures
            final(self).wf(),
            r is Ok <==> open_ok(old(self)@, frame@),
            r matches Ok(x) ==> {
                &&& type_byte(x.0) == frame@[0]
                &&& aead_open(old(self)@.recv_key, frame@.subrange(5, 17), frame@.skip(17)) == Some(x.1@)
            },
            r is Ok ==> final(self)@ == after_recv(old(self)@),
            r is Err ==> final(self)@ == old(self)@,
            frame@.len() >= FRAME_OVERHEAD ==> forall|t: MessageType, nonce: Seq<u8>, p: Seq<u8>|
                nonce.len() == NONCE_SIZE && aead_fits(p.len()) && #[trigger] frame_spec(
                    t,
                    old(self)@.recv_seq,
                    nonce,
                    aead_seal(old(self)@.recv_key, nonce, p),
                ) == frame@ ==> delivered(r, t, p),
    {
        if frame.len() < FRAME_OVERHEAD {
            return Err(crate::text::concat(
                crate::text::concat("frame too short: ", usize_to_string(frame.len()).as_str()).as_str(),
                " bytes",
            ));
        }
        let msg_type = match MessageType::from_byte(frame[0]) {
            Ok(t) => t,
            Err(e) => {
                proof {
                    lemma_sealed_frame(self@, frame@);
                }
                return Err(e);
            },
        };
        let seq = ((frame[1] as u32) * 0x1000000) + ((frame[2] as u32) * 0x10000) + ((frame[3] as u32) * 0x100) + (frame[4] as u32);
        proof {
            assert(seq == from_be(frame@[1], frame@[2], frame@[3], frame@[4]));
        }
        if seq != self.recv_seq {
            proof {
                lemma_sealed_frame(self@, frame@);
            }
            let m = crate::text::concat("sequence mismatch: expected ", usize_to_string(self.recv_seq as usize).as_str());
            let m = crate::text::concat(m.as_str(), ", got ");
            return Err(crate::text::concat(m.as_str(), usize_to_string(seq as usize).as_str()));
        }
        let nonce = copy_bytes(frame, 5, 17);
        let ciphertext = copy_bytes(frame, 17, frame.len());
        proof {
            assert(ciphertext@ =~= frame@.skip(17));
            lemma_sealed_frame(self@, frame@);
        }
        let plaintext = match decrypt_with_nonce(&self.recv_key, &nonce, ciphertext.as_slice()) {
            Ok(p) => p,
            Err(e) => {
                return Err(e);
            },
        };
        self.recv_seq = self.recv_seq.wrapping_add(1);
        self.recv_count = self.recv_count + 1;
        Ok((msg_type, plaintext))
    }

    /// Whether rotation is due after `elapsed` seconds: a million messages sent, or an
    /// hour passed.
    pub fn needs_rotation_at(&self, elapsed: u64) -> (r: bool)
        ensures
            r == (self@.send_count >= ROTATION_MESSAGE_COUNT || elapsed >= ROTATION_INTERVAL_SECS),
    {
        self.send_count >= ROTATION_MESSAGE_COUNT || elapsed >= ROTATION_INTERVAL_SECS
    }

    /// Whether rotation is due now: `needs_rotation_at` on the whole seconds that the clock
    /// reports since this generation began. What the clock reports is not stated, so of the
    /// result only the message-count arm is; on every reading the decision is the one that
    /// `needs_rotation_at` states.
    pub fn needs_rotation(&self) -> (r: bool)
        ensures
            self@.send_count >= ROTATION_MESSAGE_COUNT ==> r,
    {
        let elapsed = elapsed_secs(&self.created_at);
        self.needs_rotation_at(elapsed)
    }

    /// Rotates to the next generation: new keys derived from the shared secret with the
    /// generation's label, sequence numbers and counters reset. A side counts as the
    /// initiator when it has sent under the old keys or is past the first rotation. The
    /// generation's clock restarts too; the view holds no clock, so no clause says so.
    pub fn rotate(&mut self)
        requires
            old(self).wf(),
            old(self)@.generation < u32::MAX,
        ensures
            final(self).wf(),
            final(self)@ == rotated(old(self)@),
    {
        self.generation = self.generation + 1;
        let info = generation_info_bytes(self.generation);
        let (key_a, key_b) = hkdf_derive_pair(self.shared_secret.as_slice(), None, info.as_slice());
        let is_initiator = self.send_seq > 0 || self.generation > 1;
        let (new_send, new_recv) = if is_initiator {
            (key_a, key_b)
        } else {
            (key_b, key_a)
        };
        wipe(&mut self.send_key);
        wipe(&mut self.recv_key);
        self.send_key = new_send;
        self.recv_key = new_recv;
        self.send_seq = 0;
        self.recv_seq = 0;
        self.send_count = 0;
        self.recv_count = 0;
        self.created_at = now();
    }

    pub fn generation(&self) -> (r: u32)
        ensures
            r == self@.generation,
    {
        self.generation
    }

    pub fn send_count(&self) -> (r: u64)
        ensures
            r == self@.send_count,
    {
        self.send_count
    }
}

/// The state after sending one frame: the sequence number advances (wrapping), and the
/// count.
pub open spec fn after_send(s: SessionView) -> SessionView {
    SessionView {
        send_seq: (if s.send_seq == u32::MAX {
            0
        } else {
            (s.send_seq + 1) as u32
        }),
        send_count: (s.send_count + 1) as u64,
        ..s
    }
}

/// The state after opening one frame.
pub open spec fn after_recv(s: SessionView) -> SessionView {
    SessionView {
        recv_seq: (if s.recv_seq == u32::MAX {
            0
        } else {
            (s.recv_seq + 1) as u32
        }),
        recv_count: (s.recv_count + 1) as u64,
        ..s
    }
}

/// The state after a rotation: the next generation's keys, derived from the shared secret
/// with that generation's label; a side counts as the initiator when it has sent under the
/// old keys or is past the first rotation; sequence numbers and counters start over.
pub open spec fn rotated(s: SessionView) -> SessionView {
    let g = (s.generation + 1) as u32;
    let keys = directed(hkdf_pair(None, s.shared_secret, generation_info(g)), s.send_seq > 0 || g > 1);
    SessionView {
        send_key: keys.0,
        recv_key: keys.1,
        send_seq: 0,
        recv_seq: 0,
        send_count: 0,
        recv_count: 0,
        shared_secret: s.shared_secret,
        generation: g,
    }
}

proof fn lemma_frame_parts(t: MessageType, seq: u32, n: Seq<u8>, c: Seq<u8>)
    requires
        n.len() == NONCE_SIZE,
    ensures
        frame_spec(t, seq, n, c).len() == 17 + c.len(),
        frame_spec(t, seq, n, c)[0] == type_byte(t),
        frame_spec(t, seq, n, c)[1] == be_u32(seq)[0],
        frame_spec(t, seq, n, c)[2] == be_u32(seq)[1],
        frame_spec(t, seq, n, c)[3] == be_u32(seq)[2],
        frame_spec(t, seq, n, c)[4] == be_u32(seq)[3],
        frame_spec(t, seq, n, c).subrange(5, 17) == n,
        frame_spec(t, seq, n, c).skip(17) == c,
{
    let f = frame_spec(t, seq, n, c);
    assert(f.subrange(5, 17) =~= n);
    assert(f.skip(17) =~= c);
}

/// What a frame sealed for this side must look like: its type byte, sequence number,
/// nonce and ciphertext sit where `open` reads them.
proof fn lemma_sealed_frame(s: SessionView, frame: Seq<u8>)
    ensures
        forall|t: MessageType, n: Seq<u8>, p: Seq<u8>|
            n.len() == NONCE_SIZE && #[trigger] frame_spec(t, s.recv_seq, n, aead_seal(s.recv_key, n, p))
                == frame ==> {
                &&& 1 <= frame[0] <= 6
                &&& frame[0] == type_byte(t)
                &&& from_be(frame[1], frame[2], frame[3], frame[4]) == s.recv_seq
                &&& frame.subrange(5, 17) == n
                &&& frame.skip(17) == aead_seal(s.recv_key, n, p)
            },
{
    assert forall|t: MessageType, n: Seq<u8>, p: Seq<u8>|
        n.len() == NONCE_SIZE && #[trigger] frame_spec(t, s.recv_seq, n, aead_seal(s.recv_key, n, p))
            == frame implies {
            &&& 1 <= frame[0] <= 6
            &&& frame[0] == type_byte(t)
            &&& from_be(frame[1], frame[2], frame[3], frame[4]) == s.recv_seq
            &&& frame.subrange(5, 17) == n
            &&& frame.skip(17) == aead_seal(s.recv_key, n, p)
        } by {
        lemma_frame_parts(t, s.recv_seq, n, aead_seal(s.recv_key, n, p));
        lemma_be_round_trip(s.recv_seq);
    }
}

/// Whether a frame opens: long enough, a known type, the expected sequence number, and a
/// tag that authenticates under the receive key.
pub open spec fn open_ok(s: SessionView, frame: Seq<u8>) -> bool {
    &&& frame.len() >= FRAME_OVERHEAD
    &&& 1 <= frame[0] <= 6
    &&& from_be(frame[1], frame[2], frame[3], frame[4]) == s.recv_seq
    &&& aead_open(s.recv_key, frame.subrange(5, 17), frame.skip(17)) is Some
}

/// An opening that gave back the message type and plaintext sealed.
pub open spec fn delivered(r: Result<(MessageType, Vec<u8>), String>, t: MessageType, p: Seq<u8>) -> bool {
    r matches Ok(x) && x.0 == t && x.1@ == p
}

/// Session keys derived from a pre-shared password and salt (password pairing).
pub fn session_keys_from_password(password: &[u8], salt: &[u8], is_initiator: bool) -> (r: Result<SessionKeys, String>)
    ensures
        match argon2_key(password@, salt@) {
            Some(k) => r matches Ok(s) && s.wf() && fresh_session(k, is_initiator, s@),
            None => r is Err,
        },
        r is Ok <==> argon2_accepts(password@.len(), salt@.len()),
{
    match derive_key_from_password(password, salt) {
        Ok(psk) => Ok(SessionKeys::from_shared_secret(psk, is_initiator)),
        Err(e) => Err(e),
    }
}

/// Law: two sides paired over the same secret, one the initiator, each send with the key
/// the other receives with, starting at the same sequence numbers.
pub proof fn law_paired_sessions_agree(shared: Seq<u8>, a: SessionView, b: SessionView)
    requires
        fresh_session(shared, true, a),
        fresh_session(shared, false, b),
    ensures
        paired(a, b),
{
}


/// Law: the first rotation keeps two sides paired when exactly one of them has sent under
/// the first keys: the one that has sent takes the initiator's keys, the other the
/// responder's, and both start counting again from zero.
pub proof fn law_first_rotation_keeps_pairing(a: SessionView, b: SessionView)
    requires
        a.shared_secret == b.shared_secret,
        a.generation == 0,
        b.generation == 0,
        a.send_seq > 0,
        b.send_seq == 0,
    ensures
        rotated(a).send_key == rotated(b).recv_key,
        rotated(a).recv_key == rotated(b).send_key,
        rotated(a).generation == rotated(b).generation,
        rotated(a).send_seq == rotated(b).recv_seq,
        rotated(b).send_seq == rotated(a).recv_seq,
{
}

/// Two sides in step: each sends with the key the other receives with, and each expects
/// the sequence number the other sends next.
pub open spec fn paired(a: SessionView, b: SessionView) -> bool {
    &&& a.send_key == b.recv_key
    &&& a.recv_key == b.send_key
    &&& a.send_seq == b.recv_seq
    &&& b.send_seq == a.recv_seq
}

/// Law: two sides in step stay in step while every frame that one seals is opened by the
/// other, in order, in either direction; and a frame that one side seals is one that the
/// other's `open` delivers (its contract speaks of frames sealed under the receive key at
/// the expected sequence number).
pub proof fn law_exchange_keeps_pairing(a: SessionView, b: SessionView)
    requires
        paired(a, b),
    ensures
        paired(b, a),
        paired(after_send(a), after_recv(b)),
        paired(after_recv(a), after_send(b)),
        forall|t: MessageType, nonce: Seq<u8>, p: Seq<u8>|
            #[trigger] frame_spec(t, a.send_seq, nonce, aead_seal(a.send_key, nonce, p)) == frame_spec(
                t,
                b.recv_seq,
                nonce,
                aead_seal(b.recv_key, nonce, p),
            ),
{
}

/// The X25519 shared secret of a secret key and a peer's public key.
pub uninterp spec fn x25519_shared(secret: Seq<u8>, public: Seq<u8>) -> Seq<u8>;

/// The X25519 public key of a secret key.
pub uninterp spec fn x25519_public(secret: Seq<u8>) -> Seq<u8>;

/// An X25519 key pair, as its 32-byte secret and public halves.
pub struct X25519KeyPair {
    pub secret: Vec<u8>,
    pub public: Vec<u8>,
}

/// A fresh X25519 secret from the operating system (`StaticSecret::random_from_rng`) and
/// its public key (`PublicKey::from`).
#[verifier::external_body]
fn x25519_generate() -> (r: (Vec<u8>, Vec<u8>))
    ensures
        r.0@.len() == 32,
        r.1@ == x25519_public(r.0@),
        r.1@.len() == 32,
{
    let secret = x25519_dalek::StaticSecret::random_from_rng(rand_core::OsRng);
    let public = x25519_dalek::PublicKey::from(&secret);
    (secret.to_bytes().to_vec(), public.to_bytes().to_vec())
}

/// `StaticSecret::diffie_hellman` on 32-byte keys: the 32-byte shared secret. The contract
/// also claims the agreement that makes the exchange work: where `public` is the public key
/// of another secret `peer` (`PublicKey::from`), the result is what `peer` computes with
/// this secret's public key. Both sides multiply the base point by the two clamped
/// scalars, in either order.
#[verifier::external_body]
fn x25519_diffie_hellman(secret: &Vec<u8>, public: &Vec<u8>) -> (r: Vec<u8>)
    requires
        secret@.len() == 32,
        public@.len() == 32,
    ensures
        r@ == x25519_shared(secret@, public@),
        r@.len() == 32,
        forall|peer: Seq<u8>|
            peer.len() == 32 && public@ == #[trigger] x25519_public(peer) ==> r@ == x25519_shared(
                peer,
                x25519_public(secret@),
            ),
{
    let mut s = [0u8; 32];
    s.copy_from_slice(secret);
    let mut p = [0u8; 32];
    p.copy_from_slice(public);
    let shared = x25519_dalek::StaticSecret::from(s).diffie_hellman(&x25519_dalek::PublicKey::from(p));
    shared.as_bytes().to_vec()
}

impl X25519KeyPair {
    pub fn generate() -> (r: X25519KeyPair)
        ensures
            r.secret@.len() == 32,
            r.public@.len() == 32,
            r.public@ == x25519_public(r.secret@),
    {
        let (secret, public) = x25519_generate();
        X25519KeyPair { secret, public }
    }

    /// The shared secret with a peer's public key.
    pub fn diffie_hellman(&self, their_public: &Vec<u8>) -> (r: Vec<u8>)
        requires
            self.secret@.len() == 32,
            their_public@.len() == 32,
        ensures
            r@ == x25519_shared(self.secret@, their_public@),
            forall|peer: Seq<u8>|
                peer.len() == 32 && their_public@ == #[trigger] x25519_public(peer) ==> r@ == x25519_shared(
                    peer,
                    x25519_public(self.secret@),
                ),
    {
        x25519_diffie_hellman(&self.secret, their_public)
    }
}

/// A session set up by an X25519 exchange of `secret` with `their_public`: fresh over the
/// shared secret, which is also what the owner of `their_public` computes with this side's
/// public key.
pub open spec fn exchanged_session(secret: Seq<u8>, their_public: Seq<u8>, is_initiator: bool, s: SessionView) -> bool {
    &&& fresh_session(x25519_shared(secret, their_public), is_initiator, s)
    &&& forall|peer: Seq<u8>|
        peer.len() == 32 && their_public == #[trigger] x25519_public(peer) ==> s.shared_secret
            == x25519_shared(peer, x25519_public(secret))
}

/// Law: two sides that each ran the exchange with the other's public key, one of them the
/// initiator, hold paired sessions: each sends with the key the other receives with, and
/// each expects the sequence number the other sends next.
pub proof fn law_exchanged_sessions_agree(ka: Seq<u8>, kb: Seq<u8>, a: SessionView, b: SessionView)
    requires
        ka.len() == 32,
        kb.len() == 32,
        exchanged_session(ka, x25519_public(kb), true, a),
        exchanged_session(kb, x25519_public(ka), false, b),
    ensures
        a.shared_secret == b.shared_secret,
        paired(a, b),
{
    assert(b.shared_secret == x25519_shared(ka, x25519_public(kb)));
    law_paired_sessions_agree(a.shared_secret, a, b);
}

impl SessionKeys {
    /// Session keys from an X25519 exchange: `is_initiator` decides which side sends with
    /// which derived key.
    pub fn from_key_exchange(our_keypair: &X25519KeyPair, their_public: &Vec<u8>, is_initiator: bool) -> (r: SessionKeys)
        requires
            our_keypair.secret@.len() == 32,
            their_public@.len() == 32,
        ensures
            exchanged_session(our_keypair.secret@, their_public@, is_initiator, r@),
            r.wf(),
    {
        let shared = our_keypair.diffie_hellman(their_public);
        SessionKeys::from_shared_secret(shared, is_initiator)
    }
}

} // verus!
