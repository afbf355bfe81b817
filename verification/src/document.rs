//! The bytes that a profile's document is stored as: the text itself for a
//! plain profile, and for a sealed one the base64 form of the sealed text.

use crate::crypt::{
    decrypt, draw_salt_and_nonce, encrypt_with, spec_decrypt, spec_encrypt, CryptError, NONCE_LEN,
    SALT_LEN,
};
use crate::errors::{ErrorKind, ThecaError};
use crate::text::{chars_of, find, find_from, string_between};
use crate::utils::{trim_bounds, trim_end, trim_start, trimmed, white_space};
use base64::engine::general_purpose::STANDARD;
use base64::Engine;
use vstd::prelude::*;
use vstd::string::StringSliceAdditionalSpecFns;
use vstd::utf8::{decode_utf8, encode_utf8, valid_utf8};

verus! {

/// `DecodeError` of base64: why a text is no base64.
#[verifier::external_type_specification]
#[verifier::external_body]
pub struct ExDecodeError(base64::DecodeError);

/// `FromUtf8Error` of std: why bytes are no text.
#[verifier::external_type_specification]
#[verifier::external_body]
pub struct ExFromUtf8Error(std::string::FromUtf8Error);

/// The base64 form of bytes: standard alphabet, padded.
pub uninterp spec fn base64_encoded(bytes: Seq<u8>) -> Seq<char>;

/// The bytes that a text is the padded base64 form of, or nothing where it
/// is none.
pub uninterp spec fn base64_decoded(text: Seq<char>) -> Option<Seq<u8>>;

/// A character of padded base64 in the standard alphabet: a letter of the
/// English alphabet, a digit, `+`, `/`, or the padding `=`.
pub open spec fn is_base64_char(c: char) -> bool {
    ('A' <= c && c <= 'Z') || ('a' <= c && c <= 'z') || ('0' <= c && c <= '9') || c == '+' || c
        == '/' || c == '='
}

/// `Engine::encode` of base64 on `general_purpose::STANDARD`. The text
/// depends on the bytes alone, decodes to them, and is written in the
/// standard alphabet with padding. The call computes the text's length,
/// four characters for each three bytes, and does not return where that
/// overflows.
#[verifier::external_body]
fn base64_encode(bytes: &[u8]) -> (r: String)
    requires
        bytes@.len() <= usize::MAX / 4 * 3,
    ensures
        r@ == base64_encoded(bytes@),
        base64_decoded(r@) == Some(bytes@),
        forall|i: int| 0 <= i < r@.len() ==> is_base64_char(#[trigger] r@[i]),
{
    STANDARD.encode(bytes)
}

/// `Engine::decode` of base64 on `general_purpose::STANDARD`. Whether a
/// text is taken, and the bytes it then gives, depend on the text alone.
#[verifier::external_body]
fn base64_decode(text: &str) -> (r: Result<Vec<u8>, base64::DecodeError>)
    ensures
        match r {
            Ok(bytes) => base64_decoded(text@) == Some(bytes@),
            Err(_) => base64_decoded(text@) is None,
        },
{
    STANDARD.decode(text)
}

/// `DecodeError::to_string` of base64: the sentence that says why a text
/// is no base64.
#[verifier::external_body]
fn decode_error_text(e: &base64::DecodeError) -> String {
    e.to_string()
}

/// `String::from_utf8` of std: the text that the bytes encode, and a
/// failure exactly where they are no UTF-8.
#[verifier::external_body]
fn utf8_text(bytes: Vec<u8>) -> (r: Result<String, std::string::FromUtf8Error>)
    ensures
        match r {
            Ok(s) => valid_utf8(bytes@) && s@ == decode_utf8(bytes@),
            Err(_) => !valid_utf8(bytes@),
        },
{
    String::from_utf8(bytes)
}

/// `FromUtf8Error::to_string` of std: the sentence that says where bytes
/// stop being UTF-8.
#[verifier::external_body]
fn utf8_error_text(e: &std::string::FromUtf8Error) -> String {
    e.to_string()
}

/// The text that plain bytes hold, or why they hold none.
pub open spec fn plain_text(bytes: Seq<u8>) -> Result<Seq<char>, (ErrorKind, Seq<char>)> {
    if valid_utf8(bytes) {
        Ok(decode_utf8(bytes))
    } else {
        Err((ErrorKind::InvalidFormat, "UTF-8 error"@))
    }
}

/// The document's text that stored bytes hold, or the kind and the
/// description of the failure. Plain bytes are the text in UTF-8. Sealed
/// bytes are, in UTF-8 and with white space allowed around it, the base64
/// form of the sealed text, which is opened with the key. Where the bytes
/// are no base64, the description is followed in the failure's message by
/// what the decoder said.
pub open spec fn spec_open_document(
    contents: Seq<u8>,
    key: Option<Seq<u8>>,
    encrypted: bool,
) -> Result<Seq<char>, (ErrorKind, Seq<char>)> {
    if !encrypted {
        plain_text(contents)
    } else {
        match key {
            None => Err((ErrorKind::KeyMissing, "Profile is encrypted but no key provided"@)),
            Some(k) => if !valid_utf8(contents) {
                Err(
                    (
                        ErrorKind::InvalidFormat,
                        "Failed to read encrypted file as UTF-8/Base64. Is it a legacy binary?"@,
                    ),
                )
            } else {
                let armored = decode_utf8(contents);
                match base64_decoded(trimmed(armored)) {
                    None => Err(
                        (
                            ErrorKind::InvalidFormat,
                            if find_from(armored, "encrypted:"@, 0) is Some {
                                "Profile on disk appears to be plaintext (found 'encrypted:' key), but --encrypted was specified. Try without --encrypted. Original error"@
                            } else {
                                "Base64 decode error"@
                            },
                        ),
                    ),
                    Some(blob) => match spec_decrypt(blob, k) {
                        Ok(plain) => plain_text(plain),
                        Err(_) => Err((ErrorKind::Decryption, "Decryption failed. Wrong key?"@)),
                    },
                }
            },
        }
    }
}

/// The bytes of a key that may be absent.
pub open spec fn key_bytes(key: Option<&str>) -> Option<Seq<u8>> {
    match key {
        Some(k) => Some(k.spec_bytes()),
        None => None,
    }
}

/// The text that plain bytes hold.
fn text_of(bytes: Vec<u8>) -> (r: Result<String, ThecaError>)
    ensures
        match r {
            Ok(s) => plain_text(bytes@) == Ok::<Seq<char>, (ErrorKind, Seq<char>)>(s@),
            Err(e) => plain_text(bytes@) == Err::<Seq<char>, (ErrorKind, Seq<char>)>(
                (e.kind, e.desc@),
            ),
        },
{
    match utf8_text(bytes) {
        Ok(s) => Ok(s),
        Err(e) => Err(
            ThecaError::with_detail(ErrorKind::InvalidFormat, "UTF-8 error", utf8_error_text(&e)),
        ),
    }
}

/// Reads the document's text out of the bytes that were stored.
pub fn open_document(contents: Vec<u8>, key: Option<&str>, encrypted: bool) -> (r: Result<
    String,
    ThecaError,
>)
    ensures
        match r {
            Ok(text) => spec_open_document(contents@, key_bytes(key), encrypted) == Ok::<
                Seq<char>,
                (ErrorKind, Seq<char>),
            >(text@),
            Err(e) => spec_open_document(contents@, key_bytes(key), encrypted) == Err::<
                Seq<char>,
                (ErrorKind, Seq<char>),
            >((e.kind, e.desc@)),
        },
{
    if !encrypted {
        return text_of(contents);
    }
    let password = match key {
        Some(k) => k,
        None => {
            return Err(
                ThecaError::new(ErrorKind::KeyMissing, "Profile is encrypted but no key provided"),
            );
        },
    };
    let armored = match utf8_text(contents) {
        Ok(s) => s,
        Err(_) => {
            return Err(
                ThecaError::new(
                    ErrorKind::InvalidFormat,
                    "Failed to read encrypted file as UTF-8/Base64. Is it a legacy binary?",
                ),
            );
        },
    };
    let chars = chars_of(armored.as_str());
    let (a, b) = trim_bounds(&chars, 0, chars.len());
    assert(chars@.subrange(0, chars.len() as int) =~= chars@);
    let inner = string_between(&chars, a, b);
    let blob = match base64_decode(inner.as_str()) {
        Ok(blob) => blob,
        Err(e) => {
            let needle = chars_of("encrypted:");
            let desc = if find(&chars, &needle, 0).is_some() {
                "Profile on disk appears to be plaintext (found 'encrypted:' key), but --encrypted was specified. Try without --encrypted. Original error"
            } else {
                "Base64 decode error"
            };
            return Err(
                ThecaError::with_detail(ErrorKind::InvalidFormat, desc, decode_error_text(&e)),
            );
        },
    };
    match decrypt(blob.as_slice(), password) {
        Ok(plain) => text_of(plain),
        Err(_) => Err(ThecaError::new(ErrorKind::Decryption, "Decryption failed. Wrong key?")),
    }
}

/// A text in the base64 alphabet is its own trimmed form: no character
/// of the alphabet is white space.
pub proof fn lemma_base64_is_trimmed(s: Seq<char>)
    requires
        forall|i: int| 0 <= i < s.len() ==> is_base64_char(#[trigger] s[i]),
    ensures
        trimmed(s) == s,
{
    if s.len() > 0 {
        assert(is_base64_char(s[0]));
        assert(is_base64_char(s[s.len() - 1]));
        assert(!white_space(s[0]));
        assert(!white_space(s[s.len() - 1]));
    }
    assert(trim_start(s) == s);
    assert(trim_end(s) == s);
}

/// What sealing gives where the profile is sealed and no key was given.
pub open spec fn is_key_missing(e: ThecaError) -> bool {
    e.is(ErrorKind::KeyMissing, "Profile is encrypted but no key provided"@) && e.detail is None
}

/// What sealing gives where the cipher fails.
pub open spec fn is_encryption_failure(e: ThecaError) -> bool {
    e.is(ErrorKind::Encryption, "Encryption error"@) && e.detail is Some
}

/// What sealing gives where the cipher fails for the reason `why`: the
/// detail is the sentence that names the reason.
pub open spec fn is_encryption_failure_for(e: ThecaError, why: CryptError) -> bool {
    is_encryption_failure(e) && e.detail->Some_0@ == why.text()
}

/// The bytes to store for a text sealed under a key with a salt and a
/// nonce: the base64 form, in UTF-8, of salt, nonce and ciphertext. A
/// sealed text too long to be written in base64 on this machine fails as
/// the cipher does.
pub open spec fn spec_seal_document(
    text: Seq<char>,
    key: Seq<u8>,
    salt: Seq<u8>,
    nonce: Seq<u8>,
) -> Result<Seq<u8>, CryptError> {
    match spec_encrypt(encode_utf8(text), key, salt, nonce) {
        Ok(blob) => if blob.len() <= usize::MAX / 4 * 3 {
            Ok(encode_utf8(base64_encoded(blob)))
        } else {
            Err(CryptError::Encryption)
        },
        Err(why) => Err(why),
    }
}

/// Whether `bytes` are a form in which a document's text is stored: the
/// text in UTF-8 for a plain profile, and for a sealed one what sealing
/// under the key gives for some salt and some nonce.
pub open spec fn is_stored_form(
    text: Seq<char>,
    key: Option<Seq<u8>>,
    encrypted: bool,
    bytes: Seq<u8>,
) -> bool {
    if !encrypted {
        bytes == encode_utf8(text)
    } else {
        key is Some && exists|salt: Seq<u8>, nonce: Seq<u8>|
            salt.len() == SALT_LEN && nonce.len() == NONCE_LEN && #[trigger] spec_seal_document(
                text,
                key->Some_0,
                salt,
                nonce,
            ) == Ok::<Seq<u8>, CryptError>(bytes)
    }
}

/// The failure that stands for a failure of the cipher.
fn encryption_failure(why: CryptError) -> (e: ThecaError)
    ensures
        is_encryption_failure_for(e, why),
{
    ThecaError::with_detail(ErrorKind::Encryption, "Encryption error", why.message().to_owned())
}

/// The bytes to store for `text` sealed under `key` with the given salt
/// and nonce: the base64 form of salt, nonce and ciphertext, which
/// `open_document` reads back into the text with the same key. It fails
/// where no key can be derived, where the text is longer than the cipher
/// takes, and where the sealed text is too long for its base64 form.
pub fn seal_document_with(text: &str, key: &str, salt: &[u8; 16], nonce: &[u8; 24]) -> (r: Result<
    Vec<u8>,
    ThecaError,
>)
    ensures
        match spec_seal_document(text@, key.spec_bytes(), salt@, nonce@) {
            Ok(bytes) => r is Ok && r->Ok_0@ == bytes && spec_open_document(
                bytes,
                Some(key.spec_bytes()),
                true,
            ) == Ok::<Seq<char>, (ErrorKind, Seq<char>)>(text@),
            Err(why) => r is Err && is_encryption_failure_for(r->Err_0, why),
        },
{
    proof {
        vstd::utf8::encode_utf8_valid_utf8(text@);
        vstd::utf8::encode_utf8_decode_utf8(text@);
    }
    let blob = match encrypt_with(text.as_bytes(), key, salt, nonce) {
        Ok(blob) => blob,
        Err(why) => {
            return Err(encryption_failure(why));
        },
    };
    if blob.len() > usize::MAX / 4 * 3 {
        return Err(encryption_failure(CryptError::Encryption));
    }
    let armored = base64_encode(blob.as_slice());
    proof {
        lemma_base64_is_trimmed(armored@);
        vstd::utf8::encode_utf8_valid_utf8(armored@);
        vstd::utf8::encode_utf8_decode_utf8(armored@);
    }
    Ok(armored.as_str().as_bytes_vec())
}

/// The bytes to store for a document's text: the text in UTF-8 for a
/// plain profile. For a sealed one a salt and a nonce are drawn, and the
/// bytes are what `seal_document_with` gives for them; they are read back
/// into the text by `open_document` with the same key.
pub fn seal_document(text: &str, encrypted: bool, key: Option<&str>) -> (r: Result<
    Vec<u8>,
    ThecaError,
>)
    ensures
        !encrypted ==> r is Ok,
        encrypted && key is None ==> r is Err && is_key_missing(r->Err_0),
        encrypted && key is Some ==> r is Err ==> is_encryption_failure(r->Err_0),
        r is Ok ==> is_stored_form(text@, key_bytes(key), encrypted, r->Ok_0@),
        r is Ok ==> spec_open_document(r->Ok_0@, key_bytes(key), encrypted) == Ok::<
            Seq<char>,
            (ErrorKind, Seq<char>),
        >(text@),
{
    proof {
        vstd::utf8::encode_utf8_valid_utf8(text@);
        vstd::utf8::encode_utf8_decode_utf8(text@);
    }
    if !encrypted {
        return Ok(text.as_bytes_vec());
    }
    let password = match key {
        Some(k) => k,
        None => {
            return Err(
                ThecaError::new(ErrorKind::KeyMissing, "Profile is encrypted but no key provided"),
            );
        },
    };
    let (salt, nonce) = match draw_salt_and_nonce() {
        Ok(drawn) => drawn,
        Err(why) => {
            return Err(encryption_failure(why));
        },
    };
    let r = seal_document_with(text, password, &salt, &nonce);
    proof {
        if r is Ok {
            assert(spec_seal_document(text@, password.spec_bytes(), salt@, nonce@) == Ok::<
                Seq<u8>,
                CryptError,
            >(r->Ok_0@));
        }
    }
    r
}

} // verus!
