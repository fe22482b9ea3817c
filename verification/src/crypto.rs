use vstd::prelude::*;
use vstd::utf8::encode_utf8;

use chacha20poly1305::aead::{Aead, KeyInit, OsRng};
use chacha20poly1305::{AeadCore, ChaCha20Poly1305, Key, Nonce};

verus! {

// ---------------------------------------------------------------------------
// Group key

/// The salt that every peer of a network group hashes its password with.
pub const KEY_SALT: &'static str = "sp2p-network-static-salt";

/// The 32-byte Argon2id (version 0x13, the crate's default cost parameters) hash
/// of `password` under `salt`, both taken as their UTF-8 bytes.
pub uninterp spec fn argon2id_key(password: Seq<char>, salt: Seq<char>) -> Seq<u8>;

/// `argon2::Argon2::hash_password_into` with Argon2id, version 0x13 and
/// `Params::default()`, into a 32-byte buffer. The crate fails only for a password
/// over 2^32 - 1 bytes or a salt outside 8 ..= 2^32 - 1 bytes, which `requires`
/// leaves out; the contract names the result.
#[verifier::external_body]
fn argon2id_hash(password: &str, salt: &str) -> (key: [u8; 32])
    requires
        encode_utf8(password@).len() <= 0xFFFF_FFFF,
        8 <= encode_utf8(salt@).len() <= 0xFFFF_FFFF,
    ensures
        key@ == argon2id_key(password@, salt@),
{
    let mut key = [0u8; 32];
    let argon2 = argon2::Argon2::new(argon2::Algorithm::Argon2id, argon2::Version::V0x13, argon2::Params::default());
    argon2.hash_password_into(password.as_bytes(), salt.as_bytes(), &mut key).expect("argon2 inputs are in range");
    key
}

/// The group key that a password stands for: every peer that knows the password
/// derives the same 32 bytes.
pub fn derive_key(password: &str) -> (key: [u8; 32])
    requires
        encode_utf8(password@).len() <= 0xFFFF_FFFF,
    ensures
        key@ == argon2id_key(password@, KEY_SALT@),
{
    proof {
        reveal_strlit("sp2p-network-static-salt");
        assert(vstd::utf8::is_ascii_chars(KEY_SALT@));
        vstd::utf8::is_ascii_chars_encode_utf8(KEY_SALT@);
    }
    argon2id_hash(password, KEY_SALT)
}

// ---------------------------------------------------------------------------
// Discovery datagrams

/// ChaCha20-Poly1305 sealing of `plaintext` under `key` and `nonce` with no
/// associated data: the ciphertext followed by the 16-byte tag.
pub uninterp spec fn chacha20poly1305_seal(key: Seq<u8>, nonce: Seq<u8>, plaintext: Seq<u8>) -> Seq<u8>;

/// ChaCha20-Poly1305 opening of `ciphertext` (tag last) under `key` and `nonce`
/// with no associated data: the plaintext, or `None` when the tag does not verify.
pub uninterp spec fn chacha20poly1305_open(key: Seq<u8>, nonce: Seq<u8>, ciphertext: Seq<u8>) -> Option<Seq<u8>>;

/// The longest plaintext, in 64-byte blocks, that the cipher takes.
pub open spec fn sealable(plaintext: Seq<u8>) -> bool {
    plaintext.len() / 64 < 0xFFFF_FFFF
}

/// `AeadCore::generate_nonce` of `chacha20poly1305` with `OsRng`: 12 random bytes.
/// Nothing is claimed of them.
#[verifier::external_body]
fn random_nonce() -> (nonce: [u8; 12]) {
    ChaCha20Poly1305::generate_nonce(&mut OsRng).into()
}

/// `Aead::encrypt` of `chacha20poly1305::ChaCha20Poly1305` with the cipher made from
/// `key`. The crate refuses exactly the plaintexts of 2^32 - 1 or more blocks of 64
/// bytes; what it returns otherwise is the named sealing, 16 bytes longer.
#[verifier::external_body]
fn chacha_seal(key: &[u8; 32], nonce: &[u8; 12], plaintext: &[u8]) -> (res: Option<Vec<u8>>)
    ensures
        res is Some <==> sealable(plaintext@),
        res matches Some(c) ==> c@ == chacha20poly1305_seal(key@, nonce@, plaintext@)
            && c@.len() == plaintext@.len() + 16,
{
    ChaCha20Poly1305::new(Key::from_slice(key)).encrypt(Nonce::from_slice(nonce), plaintext).ok()
}

/// The bytes an optional buffer holds.
pub open spec fn bytes_of(o: Option<Vec<u8>>) -> Option<Seq<u8>> {
    match o {
        Some(v) => Some(v@),
        None => None,
    }
}

/// `opened` is what opening `ciphertext` gave; if `ciphertext` is the sealing of
/// some plaintext under `key` and `nonce`, that plaintext is what came out.
pub open spec fn opens_what_was_sealed(key: Seq<u8>, nonce: Seq<u8>, ciphertext: Seq<u8>, opened: Option<Seq<u8>>) -> bool {
    forall|p: Seq<u8>| sealable(p) && #[trigger] chacha20poly1305_seal(key, nonce, p) == ciphertext
        ==> opened == Some(p)
}

/// `Aead::decrypt` of `chacha20poly1305::ChaCha20Poly1305` with the cipher made from
/// `key`. Claimed: the result is the named opening; a ciphertext shorter than the tag
/// never opens; and, as for every AEAD, what was sealed under a key and nonce opens
/// under them to the plaintext it was sealed from.
#[verifier::external_body]
fn chacha_open(key: &[u8; 32], nonce: &[u8; 12], ciphertext: &[u8]) -> (res: Option<Vec<u8>>)
    ensures
        res matches Some(p) ==> chacha20poly1305_open(key@, nonce@, ciphertext@) == Some(p@),
        res is None ==> chacha20poly1305_open(key@, nonce@, ciphertext@) is None,
        ciphertext@.len() < 16 ==> res is None,
        opens_what_was_sealed(key@, nonce@, ciphertext@, bytes_of(res)),
{
    ChaCha20Poly1305::new(Key::from_slice(key)).decrypt(Nonce::from_slice(nonce), ciphertext).ok()
}

/// Length of the random nonce in front of a sealed datagram.
pub const NONCE_LEN: usize = 12;

/// A sealed datagram: the nonce, then the sealing of the payload under it.
pub open spec fn is_sealed_datagram(key: Seq<u8>, plaintext: Seq<u8>, datagram: Seq<u8>) -> bool {
    &&& datagram.len() >= NONCE_LEN
    &&& datagram.skip(NONCE_LEN as int) == chacha20poly1305_seal(key, datagram.take(NONCE_LEN as int), plaintext)
}

/// Seals a discovery payload under the group key with a fresh random nonce.
/// Returns the nonce followed by the ciphertext.
pub fn encrypt_udp(key: &[u8; 32], plaintext: &[u8]) -> (res: Result<Vec<u8>, &'static str>)
    ensures
        match res {
            Ok(c) => sealable(plaintext@) && is_sealed_datagram(key@, plaintext@, c@)
                && c@.len() == NONCE_LEN + plaintext@.len() + 16,
            Err(e) => !sealable(plaintext@) && e@ == "Encryption failed"@,
        },
{
    let nonce = random_nonce();
    let ciphertext = match chacha_seal(key, &nonce, plaintext) {
        Some(c) => c,
        None => {
            proof { reveal_strlit("Encryption failed"); }
            return Err("Encryption failed");
        },
    };
    let mut combined: Vec<u8> = Vec::new();
    let mut i: usize = 0;
    while i < NONCE_LEN
        invariant
            i <= NONCE_LEN,
            nonce@.len() == NONCE_LEN,
            combined@ == nonce@.subrange(0, i as int),
        decreases NONCE_LEN - i,
    {
        combined.push(nonce[i]);
        assert(nonce@.subrange(0, i + 1) =~= nonce@.subrange(0, i as int).push(nonce@[i as int]));
        i = i + 1;
    }
    let mut j: usize = 0;
    while j < ciphertext.len()
        invariant
            j <= ciphertext@.len(),
            combined@ == nonce@ + ciphertext@.subrange(0, j as int),
        decreases ciphertext@.len() - j,
    {
        combined.push(ciphertext[j]);
        assert(ciphertext@.subrange(0, j + 1) =~= ciphertext@.subrange(0, j as int).push(ciphertext@[j as int]));
        j = j + 1;
    }
    assert(combined@ =~= nonce@ + ciphertext@);
    assert(combined@.take(NONCE_LEN as int) =~= nonce@);
    assert(combined@.skip(NONCE_LEN as int) =~= ciphertext@);
    Ok(combined)
}

/// Opens a discovery datagram: the first 12 bytes are the nonce, the rest the
/// ciphertext. Fails when it is too short to hold a nonce, or does not open under
/// the key. A datagram sealed by `encrypt_udp` under the same key opens to the
/// payload it was sealed from.
pub fn decrypt_udp(key: &[u8; 32], combined: &[u8]) -> (res: Result<Vec<u8>, &'static str>)
    ensures
        combined@.len() < NONCE_LEN ==> (res matches Err(e) && e@ == "Payload too short"@),
        NONCE_LEN <= combined@.len() < NONCE_LEN + 16 ==> (res matches Err(e) && e@ == "Decryption failed"@),
        combined@.len() >= NONCE_LEN ==> match chacha20poly1305_open(
            key@,
            combined@.take(NONCE_LEN as int),
            combined@.skip(NONCE_LEN as int),
        ) {
            Some(p) => (res matches Ok(q) && q@ == p),
            None => (res matches Err(e) && e@ == "Decryption failed"@),
        },
        forall|p: Seq<u8>| sealable(p) && #[trigger] is_sealed_datagram(key@, p, combined@)
            ==> (res matches Ok(q) && q@ == p),
{
    if combined.len() < NONCE_LEN {
        proof { reveal_strlit("Payload too short"); }
        return Err("Payload too short");
    }
    let mut nonce = [0u8; 12];
    let mut i: usize = 0;
    while i < NONCE_LEN
        invariant
            i <= NONCE_LEN,
            combined@.len() >= NONCE_LEN,
            nonce@.len() == NONCE_LEN,
            forall|k: int| 0 <= k < i ==> nonce@[k] == combined@[k],
        decreases NONCE_LEN - i,
    {
        nonce[i] = combined[i];
        i = i + 1;
    }
    assert(nonce@ =~= combined@.take(NONCE_LEN as int));
    let mut ciphertext: Vec<u8> = Vec::new();
    let mut j: usize = NONCE_LEN;
    while j < combined.len()
        invariant
            NONCE_LEN <= j <= combined@.len(),
            ciphertext@ == combined@.subrange(NONCE_LEN as int, j as int),
        decreases combined@.len() - j,
    {
        ciphertext.push(combined[j]);
        assert(combined@.subrange(NONCE_LEN as int, j + 1) =~= combined@.subrange(NONCE_LEN as int, j as int).push(combined@[j as int]));
        j = j + 1;
    }
    assert(ciphertext@ =~= combined@.skip(NONCE_LEN as int));
    match chacha_open(key, &nonce, ciphertext.as_slice()) {
        Some(p) => Ok(p),
        None => {
            proof { reveal_strlit("Decryption failed"); }
            Err("Decryption failed")
        },
    }
}

} // verus!
