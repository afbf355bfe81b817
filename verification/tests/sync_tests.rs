use theca::errors::ErrorKind;
use theca::item::Status;
use theca::mirror::{mirror_files, stale_mirrors, MirrorFile};
use theca::profile::Profile;

const THEN: &str = "2024-05-01 10:00:00 +0200";
const NOW: &str = "2024-06-01 12:00:00 +0200";

fn file(name: &str, content: &str) -> MirrorFile {
    MirrorFile { name: name.to_string(), content: content.to_string() }
}

fn one_note() -> Profile {
    let (mut p, _) = Profile::new(false);
    p.add_note_at("A", "x", None, THEN);
    p
}

#[test]
fn edited_mirror_body_comes_back() {
    let mut p = one_note();
    let mut files = mirror_files(&p.notes);
    assert_eq!(files.len(), 1);
    assert_eq!(files[0].name, "1-A.md");
    files[0].content = files[0].content.replace("---\nx", "---\ny");
    let taken = p.sync_at(&files, NOW).unwrap();
    assert!(taken.is_empty());
    assert_eq!(p.notes.len(), 1);
    assert_eq!(p.notes[0].id, 1);
    assert_eq!(p.notes[0].title, "A");
    assert_eq!(p.notes[0].body, "y");
    assert_eq!(p.notes[0].last_touched, NOW);
}

#[test]
fn deleted_mirror_deletes_the_note() {
    let mut p = one_note();
    let taken = p.sync_at(&Vec::new(), NOW).unwrap();
    assert!(taken.is_empty());
    assert!(p.notes.is_empty());
    assert!(p.find_note(1).is_none());
}

#[test]
fn file_without_front_matter_becomes_a_note() {
    let mut p = one_note();
    let mut files = mirror_files(&p.notes);
    files.push(file("notes.md", "hello"));
    let taken = p.sync_at(&files, NOW).unwrap();
    assert_eq!(taken, vec!["notes.md".to_string()]);
    assert_eq!(p.notes.len(), 2);
    let n = &p.notes[1];
    assert_eq!(n.id, 2);
    assert_eq!(n.title, "notes");
    assert_eq!(n.body, "hello");
    assert_eq!(n.status, Status::Blank);
    assert_eq!(n.last_touched, NOW);
    // the note's own mirror replaces the file that was taken
    let mirrors = mirror_files(&p.notes);
    assert_eq!(mirrors[1].name, "2-notes.md");
    let existing = vec!["1-A.md".to_string(), "notes.md".to_string()];
    assert_eq!(stale_mirrors(&p.notes, &existing), vec!["notes.md".to_string()]);
}

#[test]
fn first_note_from_a_file_gets_id_one() {
    let (mut p, _) = Profile::new(false);
    let taken = p.sync_at(&vec![file("notes.md", "hello")], NOW).unwrap();
    assert_eq!(taken, vec!["notes.md".to_string()]);
    assert_eq!(p.notes.len(), 1);
    assert_eq!(p.notes[0].id, 1);
    assert_eq!(p.notes[0].title, "notes");
}

#[test]
fn unchanged_mirrors_change_nothing() {
    let (mut p, _) = Profile::new(false);
    p.add_note_at("A", "x", Some(Status::Done), THEN);
    p.add_note_at("B", "", Some(Status::Started), THEN);
    p.add_note_at("C", "multi\nline\n", None, THEN);
    let files = mirror_files(&p.notes);
    let taken = p.sync_at(&files, NOW).unwrap();
    assert!(taken.is_empty());
    assert_eq!(p.notes.len(), 3);
    for n in &p.notes {
        assert_eq!(n.last_touched, THEN);
    }
    assert_eq!(p.notes[0].status, Status::Done);
    assert_eq!(p.notes[1].status, Status::Started);
    assert_eq!(p.notes[2].status, Status::Blank);
    assert_eq!(p.notes[2].body, "multi\nline\n");
}

#[test]
fn title_and_status_come_back() {
    let mut p = one_note();
    let files = vec![file(
        "1-A.md",
        "---\nid: 1\ntitle: Renamed\nstatus: urgent\nlast_touched: whenever\n---\nx",
    )];
    p.sync_at(&files, NOW).unwrap();
    assert_eq!(p.notes[0].title, "Renamed");
    assert_eq!(p.notes[0].status, Status::Urgent);
    assert_eq!(p.notes[0].body, "x");
    assert_eq!(p.notes[0].last_touched, NOW);
    assert_eq!(mirror_files(&p.notes)[0].name, "1-Renamed.md");
}

#[test]
fn missing_fields_keep_the_note() {
    let mut p = one_note();
    p.notes[0].status = Status::Started;
    p.sync_at(&vec![file("whatever.md", "---\nid: 1\n---\nx")], NOW).unwrap();
    assert_eq!(p.notes[0].title, "A");
    assert_eq!(p.notes[0].status, Status::Started);
    assert_eq!(p.notes[0].last_touched, THEN);
}

#[test]
fn mirror_of_unknown_id_makes_no_note() {
    let mut p = one_note();
    let mut files = mirror_files(&p.notes);
    files.push(file("7-Gone.md", "---\nid: 7\ntitle: Gone\nstatus: \n---\nold"));
    let taken = p.sync_at(&files, NOW).unwrap();
    assert!(taken.is_empty());
    assert_eq!(p.notes.len(), 1);
    assert_eq!(p.notes[0].id, 1);
    let existing = vec!["1-A.md".to_string(), "7-Gone.md".to_string()];
    assert_eq!(stale_mirrors(&p.notes, &existing), vec!["7-Gone.md".to_string()]);
}

#[test]
fn front_matter_without_id_becomes_a_note_without_it() {
    let (mut p, _) = Profile::new(false);
    let files = vec![file("3-draft.md", "---\ntitle: ignored\n---\ntext")];
    let taken = p.sync_at(&files, NOW).unwrap();
    assert_eq!(taken, vec!["3-draft.md".to_string()]);
    assert_eq!(p.notes[0].id, 1);
    assert_eq!(p.notes[0].title, "draft");
    assert_eq!(p.notes[0].body, "text");
}

#[test]
fn new_notes_follow_the_kept_ones_in_file_order() {
    let (mut p, _) = Profile::new(false);
    p.add_note_at("A", "a", None, THEN);
    p.add_note_at("B", "b", None, THEN);
    p.add_note_at("C", "c", None, THEN);
    let mirrors = mirror_files(&p.notes);
    let files = vec![
        file("z.md", "last letter"),
        file(&mirrors[2].name, &mirrors[2].content),
        file("a.md", "first letter"),
        file(&mirrors[0].name, &mirrors[0].content),
    ];
    let taken = p.sync_at(&files, NOW).unwrap();
    assert_eq!(taken, vec!["z.md".to_string(), "a.md".to_string()]);
    let got: Vec<(usize, &str)> = p.notes.iter().map(|n| (n.id, n.title.as_str())).collect();
    assert_eq!(got, vec![(1, "A"), (3, "C"), (4, "z"), (5, "a")]);
}

#[test]
fn files_that_are_no_mirrors_are_left_alone() {
    let mut p = one_note();
    let mut files = mirror_files(&p.notes);
    files.push(file("profile.yaml", "encrypted: false\nnotes: []\n"));
    files.push(file("readme.txt", "hello"));
    files.push(file(".md", "hidden"));
    let taken = p.sync_at(&files, NOW).unwrap();
    assert!(taken.is_empty());
    assert_eq!(p.notes.len(), 1);
}

#[test]
fn sealed_profile_is_not_synchronised() {
    let (mut p, _) = Profile::new(true);
    p.add_note_at("A", "x", None, THEN);
    let e = p.sync_at(&vec![file("notes.md", "hello")], NOW).unwrap_err();
    assert_eq!(e.kind, ErrorKind::Unsupported);
    assert_eq!(e.desc, "synchronization is only supported for plaintext profiles");
    assert_eq!(p.notes.len(), 1);
    assert!(p.sync(&Vec::new()).is_err());
    assert_eq!(p.notes.len(), 1);
}

#[test]
fn sync_stamps_with_the_clock() {
    let mut p = one_note();
    let files = vec![file("1-A.md", "---\nid: 1\n---\nchanged")];
    assert!(p.sync(&files).unwrap().is_empty());
    assert_eq!(p.notes[0].body, "changed");
    assert_ne!(p.notes[0].last_touched, THEN);
    assert!(theca::clock::parse_last_touched(&p.notes[0].last_touched).is_ok());
}

#[test]
fn two_files_for_one_note_apply_in_order() {
    let mut p = one_note();
    let files = vec![
        file("1-A.md", "---\nid: 1\ntitle: first\n---\nx"),
        file("1-copy.md", "---\nid: 1\ntitle: second\n---\nx"),
    ];
    p.sync_at(&files, NOW).unwrap();
    assert_eq!(p.notes[0].title, "second");
}

#[test]
fn mirrors_of_plain_notes_are_read_back_unchanged() {
    let (mut p, _) = Profile::new(false);
    p.add_note_at("  spaced title ", "body\n---\nwith a marker line\n", Some(Status::Urgent), THEN);
    p.add_note_at("--", "", Some(Status::Done), THEN);
    p.add_note_at("", "---\n", None, THEN);
    p.add_note_at("title: id: 9", "id: 9", Some(Status::Started), THEN);
    let before: Vec<(usize, String, Status, String, String)> = p
        .notes
        .iter()
        .map(|n| (n.id, n.title.clone(), n.status, n.body.clone(), n.last_touched.clone()))
        .collect();
    let files = mirror_files(&p.notes);
    assert!(p.sync_at(&files, NOW).unwrap().is_empty());
    let after: Vec<(usize, String, Status, String, String)> = p
        .notes
        .iter()
        .map(|n| (n.id, n.title.clone(), n.status, n.body.clone(), n.last_touched.clone()))
        .collect();
    assert_eq!(before, after);
}

#[test]
fn title_that_ends_like_a_marker_is_cut_there() {
    let (mut p, _) = Profile::new(false);
    p.add_note_at("x---", "body", None, THEN);
    let files = mirror_files(&p.notes);
    p.sync_at(&files, NOW).unwrap();
    assert_eq!(p.notes.len(), 1);
    assert_eq!(p.notes[0].id, 1);
    assert_eq!(p.notes[0].title, "x");
    assert_eq!(
        p.notes[0].body,
        "status: \nlast_touched: 2024-05-01 10:00:00 +0200\n---\nbody"
    );
    assert_eq!(p.notes[0].last_touched, NOW);
}

#[test]
fn only_the_changed_note_is_stamped() {
    let (mut p, _) = Profile::new(false);
    p.add_note_at("A", "a", Some(Status::Started), THEN);
    p.add_note_at("B", "b", None, THEN);
    p.add_note_at("C", "c", Some(Status::Done), THEN);
    let mut files = mirror_files(&p.notes);
    files[1].content = files[1].content.replace("status: \n", "status: urgent\n");
    files.reverse();
    assert!(p.sync_at(&files, NOW).unwrap().is_empty());
    let got: Vec<(usize, &str, Status, &str, &str)> = p
        .notes
        .iter()
        .map(|n| (n.id, n.title.as_str(), n.status, n.body.as_str(), n.last_touched.as_str()))
        .collect();
    assert_eq!(
        got,
        vec![
            (1, "A", Status::Started, "a", THEN),
            (2, "B", Status::Urgent, "b", NOW),
            (3, "C", Status::Done, "c", THEN),
        ]
    );
}

#[test]
fn note_changed_and_changed_back_stays_stamped() {
    let mut p = one_note();
    let files = vec![
        file("1-A.md", "---\nid: 1\ntitle: other\n---\nx"),
        file("1-copy.md", "---\nid: 1\ntitle: A\n---\nx"),
    ];
    p.sync_at(&files, NOW).unwrap();
    assert_eq!(p.notes.len(), 1);
    assert_eq!(p.notes[0].title, "A");
    assert_eq!(p.notes[0].body, "x");
    assert_eq!(p.notes[0].last_touched, NOW);
}

#[test]
fn many_notes_are_kept_by_their_ids() {
    let (mut p, _) = Profile::new(false);
    for n in 0..200 {
        p.add_note_at(&format!("note {}", n), "b", None, THEN);
    }
    let files: Vec<MirrorFile> =
        mirror_files(&p.notes).into_iter().filter(|f| !f.name.starts_with("1")).collect();
    assert!(p.sync_at(&files, NOW).unwrap().is_empty());
    let kept: Vec<usize> = p.notes.iter().map(|n| n.id).collect();
    let expected: Vec<usize> = (1..=200).filter(|id| !id.to_string().starts_with('1')).collect();
    assert_eq!(kept, expected);
    assert!(p.notes.iter().all(|n| n.last_touched == THEN));
}
