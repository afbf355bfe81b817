use theca::errors::ErrorKind;
use theca::item::Status;
use theca::profile::{
    edit_body_source, join_lines, new_body_source, without_newlines, BodySource, EditBodySource,
    Profile, ProfileFlags,
};

const NOW: &str = "2024-05-01 10:00:00 +0200";
const LATER: &str = "2024-05-02 11:00:00 +0200";

fn ids(p: &Profile) -> Vec<usize> {
    p.notes.iter().map(|n| n.id).collect()
}

fn three() -> Profile {
    let (mut p, _) = Profile::new(false);
    p.add_note_at("one", "1", None, NOW);
    p.add_note_at("two", "2", Some(Status::Started), NOW);
    p.add_note_at("three", "3", Some(Status::Urgent), NOW);
    p
}

#[test]
fn new_profile_is_empty_with_fingerprint_zero() {
    let (p, fingerprint) = Profile::new(true);
    assert!(p.encrypted);
    assert!(p.notes.is_empty());
    assert_eq!(fingerprint, 0);
    let (p, fingerprint) = Profile::new(false);
    assert!(!p.encrypted);
    assert_eq!(fingerprint, 0);
}

#[test]
fn ids_count_from_one() {
    let (mut p, _) = Profile::new(false);
    for n in 1..=20usize {
        assert_eq!(p.add_note_at("t", "b", None, NOW), n);
    }
    assert_eq!(ids(&p), (1..=20).collect::<Vec<usize>>());
    assert_eq!(p.greatest_id(), 20);
}

#[test]
fn add_note_fills_the_note() {
    let (mut p, _) = Profile::new(false);
    let id = p.add_note_at("a\ntitle\n", "line 1\nline 2", Some(Status::Done), NOW);
    assert_eq!(id, 1);
    let n = &p.notes[0];
    assert_eq!(n.id, 1);
    assert_eq!(n.title, "atitle");
    assert_eq!(n.status, Status::Done);
    assert_eq!(n.body, "line 1\nline 2");
    assert_eq!(n.last_touched, NOW);
    p.add_note_at("x", "", None, NOW);
    assert_eq!(p.notes[1].status, Status::Blank);
    assert_eq!(p.notes[1].body, "");
}

#[test]
fn add_note_joins_body_and_stamps() {
    let (mut p, _) = Profile::new(false);
    let id = p.add_note("t", &["a".to_string(), "b".to_string()], None);
    assert_eq!(id, 1);
    assert_eq!(p.notes[0].body, "a\nb");
    assert!(theca::clock::parse_last_touched(&p.notes[0].last_touched).is_ok());
    p.add_note("u", &[], Some(Status::Urgent));
    assert_eq!(p.notes[1].body, "");
    assert_eq!(p.notes[1].id, 2);
}

#[test]
fn id_after_delete_is_greatest_plus_one() {
    let mut p = three();
    assert_eq!(p.delete_note(&[2]), vec![true]);
    assert_eq!(ids(&p), vec![1, 3]);
    assert_eq!(p.add_note_at("four", "", None, NOW), 4);
    assert_eq!(ids(&p), vec![1, 3, 4]);
}

#[test]
fn id_of_deleted_last_note_is_given_again() {
    let mut p = three();
    p.delete_note(&[3]);
    assert_eq!(p.add_note_at("again", "", None, NOW), 3);
}

#[test]
fn id_is_above_the_greatest_not_the_last() {
    let (mut p, _) = Profile::new(false);
    p.add_note_at("a", "", None, NOW);
    p.notes[0].id = 9;
    p.add_note_at("b", "", None, NOW);
    p.notes[1].id = 4;
    assert_eq!(p.greatest_id(), 9);
    assert_eq!(p.add_note_at("c", "", None, NOW), 10);
}

#[test]
fn delete_note_reports_each_id() {
    let mut p = three();
    assert_eq!(p.delete_note(&[7, 1, 1, 3]), vec![false, true, false, true]);
    assert_eq!(ids(&p), vec![2]);
    assert_eq!(p.delete_note(&[]), Vec::<bool>::new());
    assert_eq!(ids(&p), vec![2]);
}

#[test]
fn find_note_gives_first_position() {
    let mut p = three();
    assert_eq!(p.find_note(1), Some(0));
    assert_eq!(p.find_note(3), Some(2));
    assert_eq!(p.find_note(4), None);
    p.notes[2].id = 1;
    assert_eq!(p.find_note(1), Some(0));
}

#[test]
fn edit_note_changes_what_is_given() {
    let mut p = three();
    p.edit_note_at(2, &Some("new\ntitle".to_string()), &None, &None, LATER).unwrap();
    assert_eq!(p.notes[1].title, "newtitle");
    assert_eq!(p.notes[1].status, Status::Started);
    assert_eq!(p.notes[1].body, "2");
    assert_eq!(p.notes[1].last_touched, LATER);
    assert_eq!(p.notes[0].last_touched, NOW);

    p.edit_note_at(2, &Some(String::new()), &Some("body".to_string()), &Some(Status::Blank), NOW)
        .unwrap();
    assert_eq!(p.notes[1].title, "newtitle");
    assert_eq!(p.notes[1].status, Status::Blank);
    assert_eq!(p.notes[1].body, "body");
    assert_eq!(p.notes[1].id, 2);
    assert_eq!(ids(&p), vec![1, 2, 3]);
}

#[test]
fn edit_note_without_changes_still_stamps() {
    let mut p = three();
    p.edit_note_at(1, &None, &None, &None, LATER).unwrap();
    assert_eq!(p.notes[0].title, "one");
    assert_eq!(p.notes[0].last_touched, LATER);
}

#[test]
fn edit_note_of_missing_id_fails() {
    let mut p = three();
    let e = p.edit_note_at(9, &Some("x".to_string()), &None, &None, LATER).unwrap_err();
    assert_eq!(e.kind, ErrorKind::NotFound);
    assert_eq!(e.desc, "note 9 doesn't exist");
    assert_eq!(p.notes[0].title, "one");
    let e = p.edit_note(9, &None, &None, &None).unwrap_err();
    assert_eq!(e.message(), "note 9 doesn't exist");
    assert!(p.edit_note(1, &None, &Some("b".to_string()), &None).is_ok());
    assert_eq!(p.notes[0].body, "b");
}

#[test]
fn clear_needs_yes_or_confirmation() {
    let mut p = three();
    let e = p.clear(false, false).unwrap_err();
    assert_eq!(e.kind, ErrorKind::UserCancelled);
    assert_eq!(e.desc, "ok bye ♥");
    assert_eq!(p.notes.len(), 3);
    p.clear(false, true).unwrap();
    assert!(p.notes.is_empty());
    let mut p = three();
    p.encrypted = true;
    p.clear(true, false).unwrap();
    assert!(p.notes.is_empty());
    assert!(p.encrypted);
}

#[test]
fn transfer_moves_the_note() {
    let mut source = three();
    let mut target = three();
    target.delete_note(&[1]);
    let id = source.transfer_note_at(2, &mut target, "work", "default", LATER).unwrap();
    assert_eq!(id, 4);
    assert_eq!(ids(&source), vec![1, 3]);
    assert_eq!(ids(&target), vec![2, 3, 4]);
    let moved = &target.notes[2];
    assert_eq!(moved.title, "two");
    assert_eq!(moved.body, "2");
    assert_eq!(moved.status, Status::Started);
    assert_eq!(moved.last_touched, LATER);
}

#[test]
fn transfer_to_itself_or_of_missing_note_fails() {
    let mut source = three();
    let mut target = three();
    let e = source.transfer_note_at(2, &mut target, "default", "default", LATER).unwrap_err();
    assert_eq!(e.kind, ErrorKind::Generic);
    assert_eq!(e.desc, "cannot transfer a note from a profile to itself");
    let e = source.transfer_note_at(8, &mut target, "work", "default", LATER).unwrap_err();
    assert_eq!(e.kind, ErrorKind::NotFound);
    assert_eq!(e.desc, "Note 8 not found");
    assert_eq!(ids(&source), vec![1, 2, 3]);
    assert_eq!(ids(&target), vec![1, 2, 3]);
    assert_eq!(source.transfer_note(1, &mut target, "work", "default").unwrap(), 4);
}

#[test]
fn clone_copies_the_notes() {
    let p = three();
    let mut q = p.clone();
    q.notes[0].title = "changed".to_string();
    q.encrypted = true;
    assert_eq!(p.notes[0].title, "one");
    assert_eq!(ids(&q), vec![1, 2, 3]);
    assert!(!p.encrypted);
}

#[test]
fn default_flags_are_all_off() {
    let f = ProfileFlags::default();
    assert!(!f.condensed && !f.datesort && !f.editor && !f.encrypted && !f.yaml);
    assert!(!f.regex && !f.reverse && !f.search_body && !f.yes);
}

#[test]
fn text_helpers() {
    assert_eq!(without_newlines("a\nb\n\nc"), "abc");
    assert_eq!(without_newlines("a\r\nb"), "a\rb");
    assert_eq!(without_newlines(""), "");
    assert_eq!(join_lines(&[]), "");
    assert_eq!(join_lines(&["a".to_string()]), "a");
    assert_eq!(join_lines(&["a".to_string(), String::new(), "b".to_string()]), "a\n\nb");
}

#[test]
fn body_sources() {
    assert_eq!(new_body_source(true, true, true), BodySource::Stdin);
    assert_eq!(new_body_source(false, false, true), BodySource::Given);
    assert_eq!(new_body_source(false, true, true), BodySource::Editor);
    assert_eq!(new_body_source(false, true, false), BodySource::Empty);
    assert_eq!(edit_body_source(true, true, true, true, true, false), EditBodySource::Given);
    assert_eq!(edit_body_source(false, true, true, true, true, false), EditBodySource::Stdin);
    assert_eq!(
        edit_body_source(false, false, true, true, true, false),
        EditBodySource::Editor { confirm: true }
    );
    assert_eq!(
        edit_body_source(false, false, true, true, true, true),
        EditBodySource::Editor { confirm: false }
    );
    assert_eq!(
        edit_body_source(false, false, true, true, false, false),
        EditBodySource::Editor { confirm: false }
    );
    assert_eq!(edit_body_source(false, false, true, false, false, false), EditBodySource::Keep);
    assert_eq!(edit_body_source(false, false, false, true, false, false), EditBodySource::Keep);
}
