use theca::item::{Item, Status};
use theca::mirror::{
    body_for, has_mirror_extension, mirror_file, mirror_files, parse_front_matter, purge_list,
    stale_mirrors, title_for,
};

fn note(id: usize, title: &str, status: Status, body: &str) -> Item {
    Item {
        id,
        title: title.to_string(),
        status,
        body: body.to_string(),
        last_touched: "2024-05-01 10:00:00 +0200".to_string(),
    }
}

fn names(v: &[&str]) -> Vec<String> {
    v.iter().map(|s| s.to_string()).collect()
}

#[test]
fn mirror_file_has_name_and_front_matter() {
    let file = mirror_file(&note(3, "Buy milk", Status::Started, "two litres\n"));
    assert_eq!(file.name, "3-Buy milk.md");
    assert_eq!(
        file.content,
        "---\nid: 3\ntitle: Buy milk\nstatus: Started\nlast_touched: 2024-05-01 10:00:00 +0200\n---\ntwo litres\n"
    );
}

#[test]
fn mirror_file_of_blank_note_without_body() {
    let file = mirror_file(&note(12, "a/b: c?", Status::Blank, ""));
    assert_eq!(file.name, "12-a_b_ c_.md");
    assert_eq!(
        file.content,
        "---\nid: 12\ntitle: a/b: c?\nstatus: \nlast_touched: 2024-05-01 10:00:00 +0200\n---\n"
    );
}

#[test]
fn mirror_files_follow_the_notes() {
    let notes = vec![note(1, "A", Status::Blank, "x"), note(2, "B", Status::Done, "")];
    let files = mirror_files(&notes);
    assert_eq!(files.len(), 2);
    assert_eq!(files[0].name, "1-A.md");
    assert_eq!(files[1].name, "2-B.md");
    assert!(files[1].content.contains("status: Done\n"));
    assert!(mirror_files(&Vec::new()).is_empty());
}

#[test]
fn front_matter_is_read_back() {
    let item = note(3, "Buy milk", Status::Urgent, "two litres\nand bread");
    let parsed = parse_front_matter(&mirror_file(&item).content).unwrap();
    assert_eq!(parsed.fields.id, Some(3));
    assert_eq!(parsed.fields.title, Some("Buy milk".to_string()));
    assert_eq!(parsed.fields.status, Some(Status::Urgent));
    assert_eq!(parsed.body, "two litres\nand bread");
}

#[test]
fn front_matter_of_each_status() {
    for status in [Status::Started, Status::Urgent, Status::Done] {
        let parsed = parse_front_matter(&mirror_file(&note(1, "t", status, "b")).content).unwrap();
        assert_eq!(parsed.fields.status, Some(status));
    }
    let parsed = parse_front_matter(&mirror_file(&note(1, "t", Status::Blank, "b")).content);
    assert_eq!(parsed.unwrap().fields.status, None);
}

#[test]
fn text_without_front_matter_gives_nothing() {
    assert!(parse_front_matter("hello").is_none());
    assert!(parse_front_matter("").is_none());
    assert!(parse_front_matter("---\nid: 1\nno closing marker").is_none());
    assert!(parse_front_matter(" ---\nid: 1\n---\n").is_none());
    assert!(parse_front_matter("---").is_none());
    assert!(parse_front_matter("---\r\nid: 1\r\n---\r\n").is_none());
}

#[test]
fn front_matter_fields_and_their_edge_cases() {
    let p = parse_front_matter("---\n---\nbody").unwrap();
    assert_eq!((p.fields.id, p.fields.title.clone(), p.fields.status), (None, None, None));
    assert_eq!(p.body, "body");

    let p = parse_front_matter("---\nid: +7\ntitle: \nstatus:   done  \n---\n").unwrap();
    assert_eq!(p.fields.id, Some(7));
    assert_eq!(p.fields.title, Some(String::new()));
    assert_eq!(p.fields.status, Some(Status::Done));
    assert_eq!(p.body, "");

    // a later line replaces what an earlier one said, also by nothing
    let p = parse_front_matter("---\nid: 4\nid: x\ntitle: a\ntitle: b\n---\n").unwrap();
    assert_eq!(p.fields.id, None);
    assert_eq!(p.fields.title, Some("b".to_string()));

    // unknown keys and keys without their space are skipped
    let p = parse_front_matter("---\nid:5\nID: 5\nlast_touched: x\nstatus: later\n---\n").unwrap();
    assert_eq!((p.fields.id, p.fields.title.clone(), p.fields.status), (None, None, None));

    // a carriage return before the line feed ends the line
    let p = parse_front_matter("---\nid: 9\r\ntitle: T\r\n---\nb").unwrap();
    assert_eq!(p.fields.id, Some(9));
    assert_eq!(p.fields.title, Some("T".to_string()));

    // the body starts right behind the second marker, wherever that stands
    let p = parse_front_matter("---\nid: 1\ntitle: x---\nrest\n---\ntail").unwrap();
    assert_eq!(p.fields.id, Some(1));
    assert_eq!(p.fields.title, Some("x".to_string()));
    assert_eq!(p.body, "rest\n---\ntail");
}

#[test]
fn title_comes_from_the_file_name() {
    assert_eq!(title_for("notes.md"), "notes");
    assert_eq!(title_for("12-shopping list.md"), "shopping list");
    assert_eq!(title_for("-dash.md"), "dash");
    assert_eq!(title_for("a-b.md"), "a-b");
    assert_eq!(title_for("2024-05-01.md"), "05-01");
    assert_eq!(title_for("1a-b.md"), "1a-b");
    assert_eq!(title_for("plain"), "plain");
    assert_eq!(title_for("7-"), "");
    assert_eq!(title_for(".md"), "");
}

#[test]
fn body_comes_from_behind_the_front_matter() {
    assert_eq!(body_for("hello"), "hello");
    assert_eq!(body_for("---\ntitle: x\n---\nhello"), "hello");
    assert_eq!(body_for("---\ntitle: x\nhello"), "---\ntitle: x\nhello");
    assert_eq!(body_for(""), "");
}

#[test]
fn mirror_extension() {
    assert!(has_mirror_extension("1-A.md"));
    assert!(has_mirror_extension("a.md"));
    assert!(has_mirror_extension("..md"));
    assert!(!has_mirror_extension(".md"));
    assert!(!has_mirror_extension("md"));
    assert!(!has_mirror_extension("a.MD"));
    assert!(!has_mirror_extension("a.md "));
    assert!(!has_mirror_extension("profile.yaml"));
    for name in ["1-A.md", "a.md", "..md", ".md", "md", "a.MD", "x.y.md", "a.mdx"] {
        let by_std = std::path::Path::new(name).extension().and_then(|e| e.to_str()) == Some("md");
        assert_eq!(has_mirror_extension(name), by_std, "{}", name);
    }
}

#[test]
fn stale_mirrors_are_those_that_mirror_no_note() {
    let notes = vec![note(1, "A", Status::Blank, "x"), note(2, "B", Status::Blank, "")];
    let existing = names(&["1-A.md", "1-Old title.md", "profile.yaml", "3-C.md", "2-B.md", "x.txt"]);
    assert_eq!(stale_mirrors(&notes, &existing), names(&["1-Old title.md", "3-C.md"]));
    assert_eq!(stale_mirrors(&Vec::new(), &existing), names(&["1-A.md", "1-Old title.md", "3-C.md", "2-B.md"]));
    assert!(stale_mirrors(&notes, &Vec::new()).is_empty());
}

#[test]
fn purge_takes_every_mirror_file() {
    let existing = names(&["1-A.md", "profile.yaml", ".md", "notes.md", "sub", "b.md"]);
    assert_eq!(purge_list(&existing), names(&["1-A.md", "notes.md", "b.md"]));
    assert!(purge_list(&Vec::new()).is_empty());
}

#[test]
fn mirror_file_name_is_the_name_of_the_mirror_file() {
    for item in [
        note(3, "Buy milk", Status::Started, "x"),
        note(12, "a/b: c?", Status::Blank, ""),
        note(0, "", Status::Done, ""),
    ] {
        assert_eq!(theca::mirror::mirror_file_name(&item), mirror_file(&item).name);
    }
    assert_eq!(theca::mirror::mirror_file_name(&note(7, " x ", Status::Blank, "")), "7-x.md");
    assert_eq!(theca::mirror::mirror_file_name(&note(0, "", Status::Blank, "")), "0-.md");
}
