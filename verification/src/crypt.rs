//! Sealing a document under a password: a key derived with Argon2id, and
//! XChaCha20-Poly1305 over the whole document.
//!
//! A sealed document is the salt (16 bytes), the nonce (24 bytes) and the
//! ciphertext with its tag, in that order.

use argon2::Argon2;
use chacha20poly1305::aead::rand_core::RngCore;
use chacha20poly1305::aead::{Aead, KeyInit, OsRng};
use chacha20poly1305::{Key, XChaCha20Poly1305, XNonce};
use vstd::prelude::*;
use vstd::slice::slice_subrange;
use vstd::string::StringSliceAdditionalSpecFns;

verus! {

/// Length of the salt at the head of a sealed document.
pub const SALT_LEN: usize = 16;

/// Length of the nonce that follows the salt.
pub const NONCE_LEN: usize = 24;

/// Length of the authentication tag that ends the ciphertext.
pub const TAG_LEN: usize = 16;

/// Why sealing or opening failed.
#[derive(Debug, Clone, Copy, PartialEq, Eq, Structural)]
pub enum CryptError {
    Encryption,
    Decryption,
    KeyDerivation,
}

impl CryptError {
    /// The sentence that names the failure.
    pub open spec fn text(self) -> Seq<char> {
        match self {
            CryptError::Encryption => "Encryption failed"@,
            CryptError::Decryption => "Decryption failed"@,
            CryptError::KeyDerivation => "Key derivation failed"@,
        }
    }

    /// The sentence that names the failure.
    pub fn message(&self) -> (s: &'static str)
        ensures
            s@ == self.text(),
    {
        match self {
            CryptError::Encryption => "Encryption failed",
            CryptError::Decryption => "Decryption failed",
            CryptError::KeyDerivation => "Key derivation failed",
        }
    }
}

/// `Error` of argon2: why no key was derived.
#[verifier::external_type_specification]
#[verifier::external_body]
pub struct ExArgon2Error(argon2::Error);

/// `Error` of aead: the cipher's one failure, which says nothing more.
#[verifier::external_type_specification]
#[verifier::external_body]
pub struct ExAeadError(chacha20poly1305::aead::Error);

/// `Error` of rand_core: why the operating system gave no random bytes.
#[verifier::external_type_specification]
#[verifier::external_body]
pub struct ExRngError(chacha20poly1305::aead::rand_core::Error);

/// The 32 bytes that Argon2id, version 0x13, with 19 MiB of memory, two
/// passes and one lane, without secret or associated data, derives from a
/// password and a salt.
pub uninterp spec fn argon2id_key(password: Seq<u8>, salt: Seq<u8>) -> Seq<u8>;

/// The ciphertext and tag that XChaCha20-Poly1305 gives for a plaintext
/// under a key and a nonce, without associated data.
pub uninterp spec fn xchacha_sealed(key: Seq<u8>, nonce: Seq<u8>, plaintext: Seq<u8>) -> Seq<u8>;

/// The plaintext that XChaCha20-Poly1305 gives back for a ciphertext with
/// its tag under a key and a nonce, or nothing where the tag does not
/// authenticate it.
pub uninterp spec fn xchacha_opened(key: Seq<u8>, nonce: Seq<u8>, ciphertext: Seq<u8>) -> Option<
    Seq<u8>,
>;

/// The lengths of password and salt that the key derivation takes: a salt
/// of 8 bytes or more, and neither longer than 2^32 - 1 bytes.
pub open spec fn kdf_accepts(password_len: nat, salt_len: nat) -> bool {
    password_len <= 0xFFFF_FFFF && 8 <= salt_len <= 0xFFFF_FFFF
}

/// The greatest length of a plaintext that the cipher seals: 2^32 - 2
/// blocks of 64 bytes. The cipher's key stream has 2^32 blocks under one
/// nonce; the first gives the key of the tag, and the counter stops short
/// of the last.
pub const SEAL_MAX: u64 = 0x3F_FFFF_FF80;

/// The lengths of plaintext that the cipher seals.
pub open spec fn seal_accepts(plaintext_len: nat) -> bool {
    plaintext_len <= SEAL_MAX
}

/// The lengths of ciphertext with its tag that the cipher opens or
/// refuses: those of the plaintexts that it seals, and the tag.
pub open spec fn open_accepts(ciphertext_len: nat) -> bool {
    ciphertext_len <= SEAL_MAX + TAG_LEN
}

/// `Argon2::hash_password_into` of argon2, on `Argon2::default()` and an
/// output of 32 bytes. It fails exactly on the lengths that `kdf_accepts`
/// leaves out, and otherwise fills the output with a value that depends on
/// password and salt alone.
#[verifier::external_body]
fn argon2id(password: &[u8], salt: &[u8]) -> (r: Result<[u8; 32], argon2::Error>)
    ensures
        r is Ok <==> kdf_accepts(password@.len(), salt@.len()),
        r is Ok ==> r->Ok_0@ == argon2id_key(password@, salt@),
{
    let mut key = [0u8; 32];
    Argon2::default().hash_password_into(password, salt, &mut key).map(|_| key)
}

/// `Aead::encrypt` of chacha20poly1305's `XChaCha20Poly1305`, keyed with
/// `key`. On a plaintext longer than `SEAL_MAX` it fails or, where the
/// key stream ends within the last block, does not return: such a
/// plaintext is not handed to it. On the others it succeeds. The
/// ciphertext depends on key, nonce and plaintext alone, is 16 bytes
/// longer than the plaintext, and opens to the plaintext under the same key
/// and nonce.
#[verifier::external_body]
fn aead_seal(key: &[u8; 32], nonce: &[u8; 24], plaintext: &[u8]) -> (r: Result<
    Vec<u8>,
    chacha20poly1305::aead::Error,
>)
    requires
        seal_accepts(plaintext@.len()),
    ensures
        r is Ok,
        r->Ok_0@ == xchacha_sealed(key@, nonce@, plaintext@),
        r->Ok_0@.len() == plaintext@.len() + TAG_LEN,
        xchacha_opened(key@, nonce@, r->Ok_0@) == Some(plaintext@),
{
    XChaCha20Poly1305::new(Key::from_slice(key)).encrypt(XNonce::from_slice(nonce), plaintext)
}

/// `Aead::decrypt` of chacha20poly1305's `XChaCha20Poly1305`, keyed with
/// `key`. The nonce has 24 bytes. A ciphertext whose plaintext would be
/// longer than `SEAL_MAX` is not handed to it: where the tag of such a one
/// verifies and the key stream ends within the last block, the call does
/// not return. Whether it succeeds, and the plaintext it then returns,
/// depend on key, nonce and ciphertext alone.
#[verifier::external_body]
fn aead_open(key: &[u8; 32], nonce: &[u8], ciphertext: &[u8]) -> (r: Result<
    Vec<u8>,
    chacha20poly1305::aead::Error,
>)
    requires
        nonce@.len() == NONCE_LEN,
        open_accepts(ciphertext@.len()),
    ensures
        match r {
            Ok(plaintext) => xchacha_opened(key@, nonce@, ciphertext@) == Some(plaintext@),
            Err(_) => xchacha_opened(key@, nonce@, ciphertext@) is None,
        },
{
    XChaCha20Poly1305::new(Key::from_slice(key)).decrypt(XNonce::from_slice(nonce), ciphertext)
}

/// `RngCore::try_fill_bytes` of rand_core's `OsRng`, on a buffer of `N`
/// bytes: what the operating system's generator gave, or its failure.
#[verifier::external_body]
fn random_bytes<const N: usize>() -> (r: Result<
    [u8; N],
    chacha20poly1305::aead::rand_core::Error,
>) {
    let mut buf = [0u8; N];
    OsRng.try_fill_bytes(&mut buf).map(|_| buf)
}

/// The key for a password and a salt, where their lengths are taken.
pub open spec fn spec_derive_key(password: Seq<u8>, salt: Seq<u8>) -> Option<Seq<u8>> {
    if kdf_accepts(password.len(), salt.len()) {
        Some(argon2id_key(password, salt))
    } else {
        None
    }
}

/// The sealed document for a plaintext, a password, a salt and a nonce.
pub open spec fn spec_encrypt(
    data: Seq<u8>,
    password: Seq<u8>,
    salt: Seq<u8>,
    nonce: Seq<u8>,
) -> Result<Seq<u8>, CryptError> {
    match spec_derive_key(password, salt) {
        None => Err(CryptError::KeyDerivation),
        Some(key) => if seal_accepts(data.len()) {
            Ok(salt + nonce + xchacha_sealed(key, nonce, data))
        } else {
            Err(CryptError::Encryption)
        },
    }
}

/// The plaintext of a sealed document under a password. A document that
/// is shorter than salt and nonce, or whose ciphertext is longer than the
/// cipher takes, is refused.
pub open spec fn spec_decrypt(blob: Seq<u8>, password: Seq<u8>) -> Result<Seq<u8>, CryptError> {
    if blob.len() < SALT_LEN + NONCE_LEN {
        Err(CryptError::Decryption)
    } else {
        match spec_derive_key(password, blob.subrange(0, SALT_LEN as int)) {
            None => Err(CryptError::KeyDerivation),
            Some(key) => if !open_accepts((blob.len() - SALT_LEN - NONCE_LEN) as nat) {
                Err(CryptError::Decryption)
            } else {
                match xchacha_opened(
                    key,
                    blob.subrange(SALT_LEN as int, SALT_LEN + NONCE_LEN),
                    blob.skip(SALT_LEN + NONCE_LEN),
                ) {
                    Some(plaintext) => Ok(plaintext),
                    None => Err(CryptError::Decryption),
                }
            },
        }
    }
}

/// A sealed document opens to what its ciphertext opens to: salt, nonce
/// and a ciphertext of a length that the cipher takes, which opens to
/// `data` under the key that `password` and the salt give, put together,
/// decrypt to `data` under `password`.
/// The documents that `encrypt` returns are of this form.
pub proof fn lemma_sealed_document_decrypts(
    data: Seq<u8>,
    password: Seq<u8>,
    salt: Seq<u8>,
    nonce: Seq<u8>,
    ciphertext: Seq<u8>,
)
    requires
        salt.len() == SALT_LEN,
        nonce.len() == NONCE_LEN,
        kdf_accepts(password.len(), salt.len()),
        open_accepts(ciphertext.len()),
        xchacha_opened(argon2id_key(password, salt), nonce, ciphertext) == Some(data),
    ensures
        spec_decrypt(salt + nonce + ciphertext, password) == Ok::<Seq<u8>, CryptError>(data),
{
    let blob = salt + nonce + ciphertext;
    assert(blob.subrange(0, SALT_LEN as int) =~= salt);
    assert(blob.subrange(SALT_LEN as int, SALT_LEN + NONCE_LEN) =~= nonce);
    assert(blob.skip(SALT_LEN + NONCE_LEN) =~= ciphertext);
}

/// Derives the 32-byte key for `password` and `salt`. It fails with
/// `KeyDerivation` exactly when the salt is shorter than 8 bytes or one of
/// the two is longer than 2^32 - 1 bytes.
pub fn derive_key(password: &str, salt: &[u8]) -> (r: Result<[u8; 32], CryptError>)
    ensures
        match r {
            Ok(key) => spec_derive_key(password.spec_bytes(), salt@) == Some(key@),
            Err(e) => e == CryptError::KeyDerivation && spec_derive_key(
                password.spec_bytes(),
                salt@,
            ) is None,
        },
{
    match argon2id(password.as_bytes(), salt) {
        Ok(key) => Ok(key),
        Err(_) => Err(CryptError::KeyDerivation),
    }
}

/// Appends the bytes of `src` to `out`.
fn append_bytes(out: &mut Vec<u8>, src: &[u8])
    ensures
        final(out)@ == old(out)@ + src@,
{
    let mut i: usize = 0;
    while i < src.len()
        invariant
            i <= src.len(),
            out@ == old(out)@ + src@.take(i as int),
        decreases src.len() - i,
    {
        out.push(src[i]);
        i += 1;
    }
    assert(src@.take(src.len() as int) == src@);
}

/// Whether the cipher seals a plaintext of `len` bytes.
fn fits_cipher(len: usize) -> (r: bool)
    ensures
        r == seal_accepts(len as nat),
{
    len as u64 <= SEAL_MAX
}

/// Seals `data` under `password` with the given salt and nonce. The result
/// is the salt, the nonce and the ciphertext, and opens to `data` under
/// the same password. It fails with `KeyDerivation` where no key can be
/// derived, and else with `Encryption` where `data` is longer than
/// `SEAL_MAX`.
pub fn encrypt_with(data: &[u8], password: &str, salt: &[u8; 16], nonce: &[u8; 24]) -> (r: Result<
    Vec<u8>,
    CryptError,
>)
    ensures
        match r {
            Ok(blob) => spec_encrypt(data@, password.spec_bytes(), salt@, nonce@) == Ok::<
                Seq<u8>,
                CryptError,
            >(blob@) && spec_decrypt(blob@, password.spec_bytes()) == Ok::<Seq<u8>, CryptError>(
                data@,
            ) && blob@.len() == SALT_LEN + NONCE_LEN + data@.len() + TAG_LEN,
            Err(e) => spec_encrypt(data@, password.spec_bytes(), salt@, nonce@) == Err::<
                Seq<u8>,
                CryptError,
            >(e),
        },
{
    let key = match derive_key(password, salt.as_slice()) {
        Ok(k) => k,
        Err(e) => {
            return Err(e);
        },
    };
    if !fits_cipher(data.len()) {
        return Err(CryptError::Encryption);
    }
    let ciphertext = match aead_seal(&key, nonce, data) {
        Ok(c) => c,
        Err(_) => {
            return Err(CryptError::Encryption);
        },
    };
    let mut blob: Vec<u8> = Vec::new();
    append_bytes(&mut blob, salt.as_slice());
    append_bytes(&mut blob, nonce.as_slice());
    append_bytes(&mut blob, ciphertext.as_slice());
    proof {
        lemma_sealed_document_decrypts(
            data@,
            password.spec_bytes(),
            salt@,
            nonce@,
            ciphertext@,
        );
    }
    Ok(blob)
}

/// Draws a salt and a nonce from the operating system's generator. Where
/// the generator fails, the failure is `Encryption`.
pub fn draw_salt_and_nonce() -> (r: Result<([u8; 16], [u8; 24]), CryptError>)
    ensures
        r is Err ==> r->Err_0 == CryptError::Encryption,
{
    let salt: [u8; 16] = match random_bytes::<16>() {
        Ok(s) => s,
        Err(_) => {
            return Err(CryptError::Encryption);
        },
    };
    let nonce: [u8; 24] = match random_bytes::<24>() {
        Ok(n) => n,
        Err(_) => {
            return Err(CryptError::Encryption);
        },
    };
    Ok((salt, nonce))
}

/// Seals `data` under `password` with a salt and a nonce that are drawn
/// anew from the operating system at each call. What comes back carries
/// both at its head, is the sealed document for them, and opens to `data`
/// under the same password.
pub fn encrypt(data: &[u8], password: &str) -> (r: Result<Vec<u8>, CryptError>)
    ensures
        match r {
            Ok(blob) => {
                &&& blob@.len() == SALT_LEN + NONCE_LEN + data@.len() + TAG_LEN
                &&& spec_encrypt(
                    data@,
                    password.spec_bytes(),
                    blob@.subrange(0, SALT_LEN as int),
                    blob@.subrange(SALT_LEN as int, SALT_LEN + NONCE_LEN),
                ) == Ok::<Seq<u8>, CryptError>(blob@)
                &&& spec_decrypt(blob@, password.spec_bytes()) == Ok::<Seq<u8>, CryptError>(data@)
            },
            Err(e) => e == CryptError::Encryption || (e == CryptError::KeyDerivation
                && !kdf_accepts(password.spec_bytes().len(), SALT_LEN as nat)),
        },
        !kdf_accepts(password.spec_bytes().len(), SALT_LEN as nat) || !seal_accepts(data@.len())
            ==> r is Err,
{
    let (salt, nonce) = match draw_salt_and_nonce() {
        Ok(drawn) => drawn,
        Err(e) => {
            return Err(e);
        },
    };
    let r = encrypt_with(data, password, &salt, &nonce);
    proof {
        if r is Ok {
            let blob = r->Ok_0@;
            assert(blob.subrange(0, SALT_LEN as int) =~= salt@);
            assert(blob.subrange(SALT_LEN as int, SALT_LEN + NONCE_LEN) =~= nonce@);
        }
    }
    r
}

/// Opens a sealed document under `password`. It fails with `Decryption`
/// when the document is shorter than salt and nonce together, when its
/// ciphertext is longer than the cipher takes, or when the tag does not
/// authenticate the ciphertext under the derived key, and with
/// `KeyDerivation` when the password is too long to derive a key from.
pub fn decrypt(encrypted_data: &[u8], password: &str) -> (r: Result<Vec<u8>, CryptError>)
    ensures
        match r {
            Ok(plaintext) => spec_decrypt(encrypted_data@, password.spec_bytes()) == Ok::<
                Seq<u8>,
                CryptError,
            >(plaintext@),
            Err(e) => spec_decrypt(encrypted_data@, password.spec_bytes()) == Err::<
                Seq<u8>,
                CryptError,
            >(e),
        },
{
    if encrypted_data.len() < SALT_LEN + NONCE_LEN {
        return Err(CryptError::Decryption);
    }
    let salt = slice_subrange(encrypted_data, 0, SALT_LEN);
    let nonce = slice_subrange(encrypted_data, SALT_LEN, SALT_LEN + NONCE_LEN);
    let ciphertext = slice_subrange(encrypted_data, SALT_LEN + NONCE_LEN, encrypted_data.len());
    assert(ciphertext@ == encrypted_data@.skip(SALT_LEN + NONCE_LEN));
    let key = match derive_key(password, salt) {
        Ok(k) => k,
        Err(e) => {
            return Err(e);
        },
    };
    if ciphertext.len() as u64 > SEAL_MAX + 16 {
        return Err(CryptError::Decryption);
    }
    match aead_open(&key, nonce, ciphertext) {
        Ok(plaintext) => Ok(plaintext),
        Err(_) => Err(CryptError::Decryption),
    }
}

} // verus!
