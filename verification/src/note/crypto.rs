//! Sealing of note text between two devices: an x25519 key agreement gives a
//! shared AES-256-GCM-SIV key, and the sealed bytes travel as Base64 text.
use vstd::prelude::*;
use vstd::utf8::*;
use base64ct::{Base64, Encoding};
use aes_gcm_siv::{Aes256GcmSiv, KeyInit, Nonce, aead::Aead};
use x25519_dalek::{PublicKey, StaticSecret};

verus! {

broadcast use vstd::utf8::group_utf8_lib;

/// Errors of parsing keys and of sealing or opening text.
#[derive(Clone, Copy, Debug, PartialEq, Eq, Structural)]
pub enum Error {
    Base64Decode,
    InvalidLength,
    Decrypt,
    Encrypt,
}

// ---------------------------------------------------------------------------
// Names for what the outside functions compute.

/// The Base64 text (standard alphabet, padded) that `base64ct` gives for `bytes`.
pub uninterp spec fn base64_encoding(bytes: Seq<u8>) -> Seq<char>;

/// What `base64ct` decodes `text` to, or `None` where it refuses it.
pub uninterp spec fn base64_decoding(text: Seq<char>) -> Option<Seq<u8>>;

/// The x25519 shared secret of `secret` with the public key `public`.
pub uninterp spec fn x25519_shared(secret: Seq<u8>, public: Seq<u8>) -> Seq<u8>;

/// The x25519 public key of `secret`.
pub uninterp spec fn x25519_public(secret: Seq<u8>) -> Seq<u8>;

/// AES-256-GCM-SIV sealing of `plaintext` under `key` and `nonce`, or `None` where it fails.
pub uninterp spec fn aes_gcm_siv_seal(key: Seq<u8>, nonce: Seq<u8>, plaintext: Seq<u8>) -> Option<Seq<u8>>;

/// AES-256-GCM-SIV opening of `ciphertext` under `key` and `nonce`, or `None` where it fails.
pub uninterp spec fn aes_gcm_siv_open(key: Seq<u8>, nonce: Seq<u8>, ciphertext: Seq<u8>) -> Option<Seq<u8>>;

/// Largest plaintext that AES-GCM-SIV accepts (RFC 8452 section 6).
pub open spec fn plaintext_max() -> int {
    0x10_0000_0000
}

// ---------------------------------------------------------------------------
// Calls into the cryptography crates: their contracts are assumed, not proved.

/// Calls `base64ct::Base64::encode_string`, which panics only for inputs longer
/// than `usize::MAX / 4`. Its result is named.
#[verifier::external_body]
pub(crate) fn base64_encode(bytes: &[u8]) -> (text: String)
    requires
        bytes@.len() <= usize::MAX / 4,
    ensures
        text@ == base64_encoding(bytes@),
{
    Base64::encode_string(bytes)
}

/// Calls `base64ct::Base64::decode_vec`. Its result is named; as the crate's
/// documentation shows, the encoding of some bytes decodes back to them.
#[verifier::external_body]
fn base64_decode(text: &str) -> (bytes: Option<Vec<u8>>)
    ensures
        match bytes {
            Some(b) => base64_decoding(text@) == Some(b@),
            None => base64_decoding(text@) is None,
        },
        forall|b: Seq<u8>| #[trigger] base64_encoding(b) == text@ ==> (bytes is Some && bytes.unwrap()@ == b),
{
    Base64::decode_vec(text).ok()
}

/// Calls `StaticSecret::diffie_hellman` of `x25519_dalek`. Its result is named,
/// 32 bytes long, and, as the crate's documentation shows, two parties that
/// each hold the other's public key reach the same secret.
#[verifier::external_body]
fn x25519_diffie_hellman(secret: &[u8], public: &[u8]) -> (shared: Vec<u8>)
    requires
        secret@.len() == 32,
        public@.len() == 32,
    ensures
        shared@ == x25519_shared(secret@, public@),
        shared@.len() == 32,
        forall|peer: Seq<u8>|
            peer.len() == 32 && #[trigger] x25519_public(peer) == public@
                ==> shared@ == x25519_shared(peer, x25519_public(secret@)),
{
    let secret: [u8; 32] = secret.try_into().unwrap();
    let public: [u8; 32] = public.try_into().unwrap();
    StaticSecret::from(secret).diffie_hellman(&PublicKey::from(public)).to_bytes().to_vec()
}

/// Calls `PublicKey::from(&StaticSecret)` of `x25519_dalek`. Its result is
/// named and 32 bytes long.
#[verifier::external_body]
pub(crate) fn x25519_public_key(secret: &[u8]) -> (public: Vec<u8>)
    requires
        secret@.len() == 32,
    ensures
        public@ == x25519_public(secret@),
        public@.len() == 32,
{
    let secret: [u8; 32] = secret.try_into().unwrap();
    PublicKey::from(&StaticSecret::from(secret)).to_bytes().to_vec()
}

/// Calls `Aes256GcmSiv::new_from_slice` and `Aead::encrypt` of `aes_gcm_siv`.
/// Its result is named; the source shows that with a 32-byte key it fails
/// only above `plaintext_max()` bytes, and adds a 16-byte tag.
#[verifier::external_body]
fn aes_seal(key: &[u8], nonce: &[u8], plaintext: &[u8]) -> (sealed: Option<Vec<u8>>)
    requires
        nonce@.len() == 12,
    ensures
        match sealed {
            Some(c) => aes_gcm_siv_seal(key@, nonce@, plaintext@) == Some(c@),
            None => aes_gcm_siv_seal(key@, nonce@, plaintext@) is None,
        },
        key@.len() == 32 && plaintext@.len() <= plaintext_max() ==> sealed is Some,
        sealed matches Some(c) ==> c@.len() == plaintext@.len() + 16,
{
    let cipher = Aes256GcmSiv::new_from_slice(key).ok()?;
    cipher.encrypt(Nonce::from_slice(nonce), plaintext).ok()
}

/// Calls `Aes256GcmSiv::new_from_slice` and `Aead::decrypt` of `aes_gcm_siv`.
/// Its result is named; as the crate's documentation shows, opening what was
/// sealed under the same key and nonce gives the plaintext back.
#[verifier::external_body]
fn aes_open(key: &[u8], nonce: &[u8], ciphertext: &[u8]) -> (opened: Option<Vec<u8>>)
    requires
        nonce@.len() == 12,
    ensures
        match opened {
            Some(p) => aes_gcm_siv_open(key@, nonce@, ciphertext@) == Some(p@),
            None => aes_gcm_siv_open(key@, nonce@, ciphertext@) is None,
        },
        forall|m: Seq<u8>|
            #[trigger] aes_gcm_siv_seal(key@, nonce@, m) == Some(ciphertext@)
                ==> (opened is Some && opened.unwrap()@ == m),
{
    let cipher = Aes256GcmSiv::new_from_slice(key).ok()?;
    cipher.decrypt(Nonce::from_slice(nonce), ciphertext).ok()
}

/// Calls `String::from_utf8`: it gives a string whose UTF-8 bytes are the
/// input, and it succeeds on the UTF-8 encoding of any text.
#[verifier::external_body]
fn string_from_utf8(bytes: Vec<u8>) -> (text: Option<String>)
    ensures
        text matches Some(s) ==> encode_utf8(s@) == bytes@,
        forall|cs: Seq<char>| #[trigger] encode_utf8(cs) == bytes@ ==> text is Some,
{
    String::from_utf8(bytes).ok()
}

} // verus!

verus! {

// ---------------------------------------------------------------------------
// The library's sealing of text between devices.

/// The fixed 96-bit nonce under which device messages are sealed: the bytes of "unique nonce".
pub open spec fn message_nonce_spec() -> Seq<u8> {
    seq![117u8, 110, 105, 113, 117, 101, 32, 110, 111, 110, 99, 101]
}

fn message_nonce() -> (n: Vec<u8>)
    ensures
        n@ == message_nonce_spec(),
{
    let n: Vec<u8> = vec![117u8, 110, 105, 113, 117, 101, 32, 110, 111, 110, 99, 101];
    assert(n@ =~= message_nonce_spec());
    n
}

/// What `parse_key` gives for the Base64 text `key`: its 32 bytes, or why not.
pub open spec fn parse_key_spec(key: Seq<char>) -> Result<Seq<u8>, Error> {
    match base64_decoding(key) {
        None => Err(Error::Base64Decode),
        Some(bytes) => if bytes.len() == 32 {
            Ok(bytes)
        } else {
            Err(Error::InvalidLength)
        },
    }
}

/// Decodes a Base64 key and checks that it is 32 bytes long.
pub fn parse_key(key: &str) -> (r: Result<Vec<u8>, Error>)
    ensures
        match r {
            Ok(bytes) => parse_key_spec(key@) == Ok::<Seq<u8>, Error>(bytes@),
            Err(e) => parse_key_spec(key@) == Err::<Seq<u8>, Error>(e),
        },
        forall|b: Seq<u8>| #[trigger] base64_encoding(b) == key@ ==> {
            &&& b.len() == 32 ==> (r matches Ok(v) && v@ == b)
            &&& b.len() != 32 ==> r == Err::<Vec<u8>, Error>(Error::InvalidLength)
        },
{
    match base64_decode(key) {
        None => Err(Error::Base64Decode),
        Some(bytes) => if bytes.len() == 32 {
            Ok(bytes)
        } else {
            Err(Error::InvalidLength)
        },
    }
}

/// Whether a text is short enough to be sealed and Base64-encoded on any platform.
pub open spec fn sealable(message: Seq<char>) -> bool {
    encode_utf8(message).len() + 16 <= usize::MAX / 4
}

/// The Base64 text that sealing `message` under `key` gives, or `None` where sealing fails.
pub open spec fn sealed_text(key: Seq<u8>, message: Seq<char>) -> Option<Seq<char>> {
    match aes_gcm_siv_seal(key, message_nonce_spec(), encode_utf8(message)) {
        Some(c) => Some(base64_encoding(c)),
        None => None,
    }
}

/// The text that some UTF-8 bytes stand for, or `None` where they are not UTF-8.
pub open spec fn utf8_text(bytes: Seq<u8>) -> Option<Seq<char>> {
    if exists|cs: Seq<char>| encode_utf8(cs) == bytes {
        Some(decode_utf8(bytes))
    } else {
        None
    }
}

/// What opening the Base64 text `encoded` under `key` gives.
pub open spec fn opened_text(key: Seq<u8>, encoded: Seq<char>) -> Result<Seq<char>, Error> {
    match base64_decoding(encoded) {
        None => Err(Error::Base64Decode),
        Some(c) => match aes_gcm_siv_open(key, message_nonce_spec(), c) {
            None => Err(Error::Decrypt),
            Some(p) => match utf8_text(p) {
                None => Err(Error::Decrypt),
                Some(t) => Ok(t),
            },
        },
    }
}

/// The key that a device agrees with the device whose Base64 public key is
/// `pubkey`, holding the secret `privkey`.
pub open spec fn agreed_key(privkey: Seq<u8>, pubkey: Seq<char>) -> Result<Seq<u8>, Error> {
    match parse_key_spec(pubkey) {
        Ok(public) => Ok(x25519_shared(privkey, public)),
        Err(e) => Err(e),
    }
}

/// What a channel that the device with secret `privkey` keyed for the
/// Base64 public key `pubkey` holds: the agreed key, which is the x25519
/// secret of `privkey` and the bytes that `pubkey` encodes, and which is
/// also the secret that the owner of `pubkey` gets from its own secret and
/// the public key of `privkey`.
pub open spec fn keyed_for(c: DeviceCipher, privkey: Seq<u8>, pubkey: Seq<char>) -> bool {
    &&& agreed_key(privkey, pubkey) == Ok::<Seq<u8>, Error>(c.key())
    &&& c.key().len() == 32
    &&& forall|b: Seq<u8>| #[trigger] base64_encoding(b) == pubkey
        ==> b.len() == 32 && c.key() == x25519_shared(privkey, b)
    &&& forall|peer: Seq<u8>|
        peer.len() == 32 && base64_encoding(#[trigger] x25519_public(peer)) == pubkey
            ==> c.key() == x25519_shared(peer, x25519_public(privkey))
}

/// Whether every channel of `ciphers` holds a full 32-byte key, as every
/// channel that `DeviceCipher::try_from_key` gives does.
pub open spec fn full_keys(ciphers: Seq<DeviceCipher>) -> bool {
    forall|i: int| 0 <= i < ciphers.len() ==> (#[trigger] ciphers[i].key()).len() == 32
}

/// Whether the UTF-8 bytes of `message` are few enough for AES-GCM-SIV.
pub open spec fn within_limit(message: Seq<char>) -> bool {
    encode_utf8(message).len() <= plaintext_max()
}

/// A sealing channel to one other device.
pub struct DeviceCipher {
    pub device_id: i32,
    key: Vec<u8>,
}

/// Channels are told apart by the device they seal for.
impl PartialEq for DeviceCipher {
    fn eq(&self, other: &Self) -> (r: bool) {
        self.device_id == other.device_id
    }
}

impl vstd::std_specs::cmp::PartialEqSpecImpl for DeviceCipher {
    open spec fn obeys_eq_spec() -> bool {
        true
    }

    open spec fn eq_spec(&self, other: &Self) -> bool {
        self.id() == other.id()
    }
}

impl Eq for DeviceCipher {}

impl DeviceCipher {
    /// The symmetric key shared with the device.
    pub closed spec fn key(&self) -> Seq<u8> {
        self.key@
    }

    /// The device this channel seals for.
    pub closed spec fn id(&self) -> i32 {
        self.device_id
    }

    /// The device this channel seals for.
    pub fn device_id(&self) -> (id: i32)
        ensures
            id == self.id(),
    {
        self.device_id
    }

    /// Agrees a key with the device `device_id` whose Base64 public key is
    /// `pubkey`: the x25519 secret of `privkey` and that key. It succeeds
    /// whenever `pubkey` is the Base64 encoding of 32 bytes.
    pub fn try_from_key(device_id: i32, privkey: &[u8], pubkey: &str) -> (r: Result<DeviceCipher, Error>)
        requires
            privkey@.len() == 32,
        ensures
            match r {
                Ok(c) => c.id() == device_id && keyed_for(c, privkey@, pubkey@),
                Err(e) => agreed_key(privkey@, pubkey@) == Err::<Seq<u8>, Error>(e),
            },
            forall|b: Seq<u8>| #[trigger] base64_encoding(b) == pubkey@ ==> {
                &&& b.len() == 32 ==> r is Ok
                &&& b.len() != 32 ==> r == Err::<DeviceCipher, Error>(Error::InvalidLength)
            },
    {
        let public = parse_key(pubkey)?;
        let key = x25519_diffie_hellman(privkey, &public);
        Ok(DeviceCipher { device_id, key })
    }

    /// Seals `message` for the device and encodes it as Base64.
    pub fn encrypt(&self, message: &str) -> (r: Result<String, Error>)
        requires
            sealable(message@),
        ensures
            match sealed_text(self.key(), message@) {
                Some(e) => (r matches Ok(s) && s@ == e),
                None => r == Err::<String, Error>(Error::Encrypt),
            },
            self.key().len() == 32 && within_limit(message@) ==> r is Ok,
    {
        let nonce = message_nonce();
        let bytes = message.as_bytes();
        match aes_seal(&self.key, &nonce, bytes) {
            None => Err(Error::Encrypt),
            Some(sealed) => Ok(base64_encode(&sealed)),
        }
    }

    /// Two devices that each keyed a channel for the other's public key hold
    /// the same key: `to_peer` is what `try_from_key` gave the device with
    /// secret `own` for the Base64 public key of the device with secret
    /// `peer`, and `to_own` what it gave that device for the Base64 public
    /// key of `own`. So what one of them seals with `encrypt`, the other
    /// opens to the same text with `decrypt`.
    pub proof fn lemma_channels_agree(own: Seq<u8>, peer: Seq<u8>, to_peer: DeviceCipher, to_own: DeviceCipher)
        requires
            own.len() == 32,
            peer.len() == 32,
            keyed_for(to_peer, own, base64_encoding(x25519_public(peer))),
            keyed_for(to_own, peer, base64_encoding(x25519_public(own))),
        ensures
            to_peer.key() == to_own.key(),
            forall|m: Seq<char>| #[trigger] sealed_text(to_peer.key(), m) == sealed_text(to_own.key(), m),
    {
        assert(to_peer.key() == x25519_shared(peer, x25519_public(own)));
        assert(to_own.key() == x25519_shared(peer, x25519_public(own)));
    }

    /// Opens Base64 text sealed for this device. What was sealed under the
    /// same key opens to the message that was sealed.
    pub fn decrypt(&self, encoded: &str) -> (r: Result<String, Error>)
        ensures
            match opened_text(self.key(), encoded@) {
                Ok(t) => (r matches Ok(s) && s@ == t),
                Err(e) => r == Err::<String, Error>(e),
            },
            forall|m: Seq<char>|
                #[trigger] sealed_text(self.key(), m) == Some(encoded@) ==> (r matches Ok(s) && s@ == m),
    {
        let nonce = message_nonce();
        let sealed = match base64_decode(encoded) {
            None => return Err(Error::Base64Decode),
            Some(b) => b,
        };
        let plain = match aes_open(&self.key, &nonce, &sealed) {
            None => return Err(Error::Decrypt),
            Some(p) => p,
        };
        let ghost pbytes = plain@;
        match string_from_utf8(plain) {
            None => {
                assert(!(exists|cs: Seq<char>| encode_utf8(cs) == pbytes));
                Err(Error::Decrypt)
            },
            Some(s) => {
                proof {
                    assert(encode_utf8(s@) == pbytes);
                    assert(decode_utf8(encode_utf8(s@)) == s@);
                    assert(utf8_text(pbytes) == Some(s@));
                    assert forall|m: Seq<char>|
                        #[trigger] sealed_text(self.key(), m) == Some(encoded@) implies s@ == m by {
                        let c = aes_gcm_siv_seal(self.key(), message_nonce_spec(), encode_utf8(m))->0;
                        assert(base64_encoding(c) == encoded@);
                        assert(sealed@ == c);
                        assert(pbytes == encode_utf8(m));
                        assert(decode_utf8(encode_utf8(m)) == m);
                    }
                }
                Ok(s)
            },
        }
    }
}

} // verus!
