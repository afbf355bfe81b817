use base64::engine::general_purpose::STANDARD;
use base64::Engine;
use theca::crypt::{decrypt, draw_salt_and_nonce, encrypt, encrypt_with};
use theca::document::{open_document, seal_document, seal_document_with};
use theca::errors::ErrorKind;

const TEXT: &str = "encrypted: true\nnotes:\n- id: 1\n  title: héllo ♥\n";

#[test]
fn plain_document_is_its_text() {
    let bytes = seal_document(TEXT, false, None).unwrap();
    assert_eq!(bytes, TEXT.as_bytes());
    assert_eq!(seal_document(TEXT, false, Some("ignored")).unwrap(), TEXT.as_bytes());
    assert_eq!(open_document(bytes, None, false).unwrap(), TEXT);
    assert_eq!(open_document(Vec::new(), None, false).unwrap(), "");
}

#[test]
fn sealed_document_opens_with_its_key() {
    let bytes = seal_document(TEXT, true, Some("s3cret")).unwrap();
    assert_eq!(open_document(bytes, Some("s3cret"), true).unwrap(), TEXT);
    let empty = seal_document("", true, Some("k")).unwrap();
    assert_eq!(open_document(empty, Some("k"), true).unwrap(), "");
}

#[test]
fn sealed_document_is_base64_of_the_sealed_text() {
    let bytes = seal_document(TEXT, true, Some("s3cret")).unwrap();
    let armored = String::from_utf8(bytes).unwrap();
    assert!(armored.chars().all(|c| c.is_ascii_alphanumeric() || "+/=".contains(c)));
    let blob = STANDARD.decode(&armored).unwrap();
    assert_eq!(blob.len(), 16 + 24 + TEXT.len() + 16);
    assert_ne!(armored.as_bytes(), &blob[..]);
    assert_eq!(armored, STANDARD.encode(&blob));
    assert_eq!(decrypt(&blob, "s3cret").unwrap(), TEXT.as_bytes());
}

#[test]
fn base64_form_is_read_with_white_space_around_it() {
    let blob = encrypt(TEXT.as_bytes(), "pw").unwrap();
    let armored = format!("\n  {}\r\n\t", STANDARD.encode(&blob));
    assert_eq!(open_document(armored.into_bytes(), Some("pw"), true).unwrap(), TEXT);
}

#[test]
fn sealing_twice_gives_different_bytes() {
    let a = seal_document(TEXT, true, Some("pw")).unwrap();
    let b = seal_document(TEXT, true, Some("pw")).unwrap();
    assert_ne!(a, b);
}

#[test]
fn wrong_key_does_not_open() {
    let bytes = seal_document(TEXT, true, Some("right")).unwrap();
    let e = open_document(bytes, Some("wrong"), true).unwrap_err();
    assert_eq!(e.kind, ErrorKind::Decryption);
    assert_eq!(e.desc, "Decryption failed. Wrong key?");
    assert_eq!(e.detail, None);
}

#[test]
fn damaged_or_short_blob_does_not_open() {
    let mut blob = encrypt(TEXT.as_bytes(), "pw").unwrap();
    blob[50] ^= 1;
    let e = open_document(STANDARD.encode(&blob).into_bytes(), Some("pw"), true).unwrap_err();
    assert_eq!(e.kind, ErrorKind::Decryption);
    let e = open_document(STANDARD.encode([1u8; 12]).into_bytes(), Some("pw"), true).unwrap_err();
    assert_eq!(e.kind, ErrorKind::Decryption);
    let e = open_document(Vec::new(), Some("pw"), true).unwrap_err();
    assert_eq!(e.kind, ErrorKind::Decryption);
}

#[test]
fn missing_key_is_reported() {
    let e = seal_document(TEXT, true, None).unwrap_err();
    assert_eq!(e.kind, ErrorKind::KeyMissing);
    assert_eq!(e.desc, "Profile is encrypted but no key provided");
    let e = open_document(b"AAAA".to_vec(), None, true).unwrap_err();
    assert_eq!(e.kind, ErrorKind::KeyMissing);
    assert_eq!(e.desc, "Profile is encrypted but no key provided");
}

#[test]
fn plain_document_read_as_sealed_is_named() {
    let e = open_document(TEXT.as_bytes().to_vec(), Some("pw"), true).unwrap_err();
    assert_eq!(e.kind, ErrorKind::InvalidFormat);
    assert_eq!(
        e.desc,
        "Profile on disk appears to be plaintext (found 'encrypted:' key), but --encrypted was specified. Try without --encrypted. Original error"
    );
    let why = STANDARD.decode(TEXT).unwrap_err().to_string();
    assert_eq!(e.detail, Some(why.clone()));
    assert_eq!(
        e.message(),
        format!(
            "Profile on disk appears to be plaintext (found 'encrypted:' key), but --encrypted was specified. Try without --encrypted. Original error: {}",
            why
        )
    );
}

#[test]
fn text_that_is_no_base64_is_refused() {
    let e = open_document(b"not base64 at all!".to_vec(), Some("pw"), true).unwrap_err();
    assert_eq!(e.kind, ErrorKind::InvalidFormat);
    assert_eq!(e.desc, "Base64 decode error");
    let why = STANDARD.decode("not base64 at all!").unwrap_err().to_string();
    assert_eq!(e.message(), format!("Base64 decode error: {}", why));
    // padding is required
    let e = open_document(b"AAA".to_vec(), Some("pw"), true).unwrap_err();
    assert_eq!(e.desc, "Base64 decode error");
}

#[test]
fn bytes_that_are_no_text_are_refused() {
    let e = open_document(vec![0xff, 0xfe, 0x00], None, false).unwrap_err();
    assert_eq!(e.kind, ErrorKind::InvalidFormat);
    assert_eq!(e.desc, "UTF-8 error");
    assert!(e.detail.is_some());
    let e = open_document(vec![0xff, 0xfe, 0x00], Some("pw"), true).unwrap_err();
    assert_eq!(e.kind, ErrorKind::InvalidFormat);
    assert_eq!(e.desc, "Failed to read encrypted file as UTF-8/Base64. Is it a legacy binary?");
    let blob = encrypt(&[0xff, 0xfe], "pw").unwrap();
    let e = open_document(STANDARD.encode(&blob).into_bytes(), Some("pw"), true).unwrap_err();
    assert_eq!(e.kind, ErrorKind::InvalidFormat);
    assert_eq!(e.desc, "UTF-8 error");
}

#[test]
fn sealing_with_given_salt_and_nonce_is_exact() {
    let salt = [3u8; 16];
    let nonce = [5u8; 24];
    let bytes = seal_document_with(TEXT, "pw", &salt, &nonce).unwrap();
    let blob = encrypt_with(TEXT.as_bytes(), "pw", &salt, &nonce).unwrap();
    assert_eq!(bytes, STANDARD.encode(&blob).into_bytes());
    assert_eq!(bytes, seal_document_with(TEXT, "pw", &salt, &nonce).unwrap());
    assert_ne!(bytes, seal_document_with(TEXT, "pw", &salt, &[6u8; 24]).unwrap());
    assert_ne!(bytes, seal_document_with(TEXT, "pw", &[4u8; 16], &nonce).unwrap());
    assert_ne!(bytes, seal_document_with(TEXT, "pW", &salt, &nonce).unwrap());
    assert_eq!(open_document(bytes, Some("pw"), true).unwrap(), TEXT);
    let empty = seal_document_with("", "pw", &salt, &nonce).unwrap();
    assert_eq!(STANDARD.decode(&empty).unwrap().len(), 56);
    assert_eq!(open_document(empty, Some("pw"), true).unwrap(), "");
}

#[test]
fn sealed_document_carries_its_salt_and_nonce() {
    let bytes = seal_document(TEXT, true, Some("pw")).unwrap();
    let blob = STANDARD.decode(String::from_utf8(bytes.clone()).unwrap()).unwrap();
    let salt: [u8; 16] = blob[..16].try_into().unwrap();
    let nonce: [u8; 24] = blob[16..40].try_into().unwrap();
    assert_eq!(seal_document_with(TEXT, "pw", &salt, &nonce).unwrap(), bytes);
}

#[test]
fn salt_and_nonce_are_drawn_anew() {
    let (salt, nonce) = draw_salt_and_nonce().unwrap();
    let (salt2, nonce2) = draw_salt_and_nonce().unwrap();
    assert_ne!(salt, salt2);
    assert_ne!(nonce, nonce2);
    assert_ne!(salt, [0u8; 16]);
    assert_ne!(nonce, [0u8; 24]);
}
