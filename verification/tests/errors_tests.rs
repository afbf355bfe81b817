use theca::errors::{ErrorKind, ThecaError};

#[test]
fn failure_without_detail() {
    let e = ThecaError::new(ErrorKind::Conflict, "changed on disk");
    assert_eq!(e.kind, ErrorKind::Conflict);
    assert_eq!(e.desc, "changed on disk");
    assert_eq!(e.detail, None);
    assert_eq!(e.message(), "changed on disk");
    let e = ThecaError::described(ErrorKind::Io, String::from("permission denied"));
    assert_eq!(e.kind, ErrorKind::Io);
    assert_eq!(e.message(), "permission denied");
    assert_eq!(e.detail, None);
}

#[test]
fn failure_with_detail() {
    let e = ThecaError::with_detail(ErrorKind::InvalidFormat, "invalid YAML", "line 3".to_string());
    assert_eq!(e.kind, ErrorKind::InvalidFormat);
    assert_eq!(e.desc, "invalid YAML");
    assert_eq!(e.detail, Some("line 3".to_string()));
    assert_eq!(e.message(), "invalid YAML: line 3");
    let e = ThecaError::with_detail(ErrorKind::Generic, "", String::new());
    assert_eq!(e.message(), ": ");
}

#[test]
fn kinds_are_told_apart() {
    let kinds = [
        ErrorKind::NotFound,
        ErrorKind::InvalidFormat,
        ErrorKind::Decryption,
        ErrorKind::Encryption,
        ErrorKind::KeyMissing,
        ErrorKind::Conflict,
        ErrorKind::UserCancelled,
        ErrorKind::Io,
        ErrorKind::Unsupported,
        ErrorKind::Chrono,
        ErrorKind::Generic,
    ];
    for (i, a) in kinds.iter().enumerate() {
        for (j, b) in kinds.iter().enumerate() {
            assert_eq!(a == b, i == j);
        }
    }
}

#[test]
fn time_stamp_failure_shows_its_description_alone() {
    let e = theca::clock::parse_last_touched("yesterday").unwrap_err();
    assert_eq!(e.kind, ErrorKind::Chrono);
    assert!(e.detail.is_some());
    assert_eq!(e.message(), "Failed to parse date/time");
}
