use theca::errors::ErrorKind;
use theca::profile::{check_transfer, Profile};
use theca::prompt::{cancelled, check_new_key, folder_from_pointer, read_yes_no, NewKey};

#[test]
fn yes_and_no() {
    for word in ["y", "Y", "yes", "YES", "Yes"] {
        assert_eq!(read_yes_no(word), Some(true));
        assert_eq!(read_yes_no(&format!("  {}\n", word)), Some(true));
    }
    for word in ["n", "N", "no", "NO", "No"] {
        assert_eq!(read_yes_no(word), Some(false));
        assert_eq!(read_yes_no(&format!("{}\r\n", word)), Some(false));
    }
    for word in ["", "\n", "yEs", "nope", "y e s", "yes please", "0", "true"] {
        assert_eq!(read_yes_no(word), None);
    }
}

#[test]
fn new_keys() {
    assert_eq!(check_new_key("secret", "secret"), NewKey::Accepted);
    assert_eq!(check_new_key("secret", "Secret"), NewKey::Mismatch);
    assert_eq!(check_new_key("", "x"), NewKey::Mismatch);
    assert_eq!(check_new_key("", ""), NewKey::Empty);
    assert_eq!(check_new_key(" ", " "), NewKey::Accepted);
}

#[test]
fn pointer_to_the_profile_folder() {
    assert_eq!(folder_from_pointer("/home/me/notes\n").unwrap(), "/home/me/notes");
    assert_eq!(folder_from_pointer("  relative dir \t\n").unwrap(), "relative dir");
    for empty in ["", "\n", "   \t\r\n"] {
        let e = folder_from_pointer(empty).unwrap_err();
        assert_eq!(e.kind, ErrorKind::Generic);
        assert_eq!(
            e.desc,
            "~/.theca is a file but is empty. It should contain a path to the profile directory."
        );
    }
}

#[test]
fn transfer_names_must_differ() {
    assert!(check_transfer("work", "default").is_ok());
    let e = check_transfer("work", "work").unwrap_err();
    assert_eq!(e.kind, ErrorKind::Generic);
    assert_eq!(e.desc, "cannot transfer a note from a profile to itself");
}

#[test]
fn position_of_a_note() {
    let (mut p, _) = Profile::new(false);
    p.add_note_at("a", "", None, "now");
    p.add_note_at("b", "", None, "now");
    assert_eq!(p.position(2).unwrap(), 1);
    let e = p.position(3).unwrap_err();
    assert_eq!(e.kind, ErrorKind::NotFound);
    assert_eq!(e.desc, "note 3 doesn't exist");
    assert_eq!(e.message(), "note 3 doesn't exist");
}

#[test]
fn refusal_is_a_cancellation() {
    let e = cancelled();
    assert_eq!(e.kind, ErrorKind::UserCancelled);
    assert_eq!(e.desc, "ok bye ♥");
    assert_eq!(e.detail, None);
}
