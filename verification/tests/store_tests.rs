use theca::document::open_document;
use theca::errors::ErrorKind;
use theca::store::{
    check_fingerprint, check_profile_name, load_failure, locate, mirror_action, profile_line,
    save_step, validate_profile, LoadPaths, LoadProbe, MirrorAction, SaveAction, SaveEvent,
    SaveRequest, SaveState,
};

fn request(name: &str, new_profile: bool, encrypting: bool, yes: bool, fingerprint: u64) -> SaveRequest {
    SaveRequest { profile_name: name.to_string(), new_profile, encrypting, yes, fingerprint }
}

fn probe(dir_exists: bool, path_exists: bool, legacy_yaml: bool, legacy_json: bool) -> LoadProbe {
    LoadProbe { dir_exists, path_exists, legacy_yaml, legacy_json }
}

#[test]
fn default_profile_lives_at_the_root() {
    let at = locate("default");
    assert_eq!(at.dir, None);
    assert_eq!(at.document, "profile.yaml");
    let at = locate("work");
    assert_eq!(at.dir, Some("work".to_string()));
    assert_eq!(at.document, "profile.yaml");
    assert_eq!(locate("Default").dir, Some("Default".to_string()));
}

fn paths(folder: &str, name: &str) -> LoadPaths {
    let dir = if name == "default" { folder.to_string() } else { format!("{}/{}", folder, name) };
    LoadPaths {
        document: format!("{}/profile.yaml", dir),
        dir,
        legacy_yaml: format!("{}/{}.yaml", folder, name),
        legacy_json: format!("{}/{}.json", folder, name),
    }
}

#[test]
fn load_failures_say_what_was_found() {
    let at = paths("/home/me/.theca", "work");
    let e = load_failure("work", &probe(true, false, true, true), &at);
    assert_eq!(e.kind, ErrorKind::NotFound);
    assert_eq!(
        e.desc,
        "Profile directory /home/me/.theca/work exists but contains no profile.yaml."
    );
    let e = load_failure("work", &probe(false, false, true, true), &at);
    assert_eq!(e.kind, ErrorKind::NotFound);
    assert_eq!(
        e.desc,
        "Found legacy profile at /home/me/.theca/work.yaml. Please move it to /home/me/.theca/work/profile.yaml"
    );
    let e = load_failure("work", &probe(false, false, false, true), &at);
    assert_eq!(e.kind, ErrorKind::NotFound);
    assert_eq!(e.desc, "Found legacy JSON profile at /home/me/.theca/work.json. Please migrate.");
    let e = load_failure("work", &probe(false, false, false, false), &at);
    assert_eq!(e.desc, "/home/me/.theca/work/profile.yaml does not exist.");
    assert_eq!(e.kind, ErrorKind::NotFound);
    assert_eq!(e.detail, None);
    assert_eq!(e.message(), "/home/me/.theca/work/profile.yaml does not exist.");
    // something that is no file lies under the document's name
    let e = load_failure("work", &probe(true, true, false, false), &at);
    assert_eq!(e.desc, "/home/me/.theca/work/profile.yaml does not exist.");
}

#[test]
fn load_failures_of_the_default_profile() {
    let at = paths("/home/me/.theca", "default");
    // the folder of the default profile is no profile directory of its own
    let e = load_failure("default", &probe(true, false, false, false), &at);
    assert_eq!(e.kind, ErrorKind::NotFound);
    assert_eq!(e.desc, "/home/me/.theca/profile.yaml does not exist.");
    let e = load_failure("default", &probe(true, false, true, false), &at);
    assert_eq!(
        e.desc,
        "Found legacy profile at /home/me/.theca/default.yaml. Please move it to /home/me/.theca/profile.yaml"
    );
    let e = load_failure("default", &probe(false, false, false, true), &at);
    assert_eq!(e.desc, "Found legacy JSON profile at /home/me/.theca/default.json. Please migrate.");
}

#[test]
fn profile_names() {
    assert!(check_profile_name("default").is_ok());
    assert!(check_profile_name("work").is_ok());
    assert!(check_profile_name("profile.yaml.bak").is_ok());
    assert!(check_profile_name("md").is_ok());
    let e = check_profile_name("profile.yaml").unwrap_err();
    assert_eq!(e.kind, ErrorKind::Generic);
    assert_eq!(
        e.desc,
        "Invalid profile name 'profile.yaml'. Profile names cannot be 'profile.yaml' or end in '.md'."
    );
    let e = check_profile_name("notes.md").unwrap_err();
    assert_eq!(
        e.desc,
        "Invalid profile name 'notes.md'. Profile names cannot be 'profile.yaml' or end in '.md'."
    );
    assert!(check_profile_name(".md").is_err());
}

#[test]
fn changed_fingerprint_is_a_conflict() {
    let e = check_fingerprint("work", 1714550400, 1714550401, false).unwrap_err();
    assert_eq!(e.kind, ErrorKind::Conflict);
    assert_eq!(e.desc, "Profile 'work' has been modified on disk. Please reload.");
    assert!(check_fingerprint("work", 1714550400, 1714550399, false).is_err());
    assert!(check_fingerprint("work", 1714550400, 0, false).is_err());
}

#[test]
fn fingerprint_is_not_checked_when_unchanged_zero_or_overridden() {
    assert!(check_fingerprint("work", 1714550400, 1714550400, false).is_ok());
    assert!(check_fingerprint("work", 0, 1714550401, false).is_ok());
    assert!(check_fingerprint("work", 1714550400, 1714550401, true).is_ok());
}

#[test]
fn mirror_actions() {
    assert_eq!(mirror_action(false, false), MirrorAction::Export);
    assert_eq!(mirror_action(false, true), MirrorAction::Export);
    assert_eq!(mirror_action(true, true), MirrorAction::Purge);
    assert_eq!(mirror_action(true, false), MirrorAction::Keep);
}

#[test]
fn save_of_loaded_profile_goes_through() {
    let req = request("work", false, false, false, 1714550400);
    let doc = "encrypted: false\nnotes: []\n";
    let (state, action) = save_step(SaveState::Start, SaveEvent::Begin, &req, false, doc, None);
    assert_eq!(state, SaveState::AwaitTarget);
    assert!(matches!(action, SaveAction::PrepareTarget));
    let (state, action) = save_step(state, SaveEvent::Target(true), &req, false, doc, None);
    assert_eq!(state, SaveState::AwaitFingerprint);
    assert!(matches!(action, SaveAction::ReadFingerprint));
    let (state, action) =
        save_step(state, SaveEvent::Fingerprint(1714550400), &req, false, doc, None);
    assert_eq!(state, SaveState::AwaitWrite);
    match action {
        SaveAction::Write(bytes) => assert_eq!(bytes, doc.as_bytes()),
        other => panic!("{:?}", other),
    }
    let (state, action) = save_step(state, SaveEvent::Written, &req, false, doc, None);
    assert_eq!(state, SaveState::Finished);
    assert!(matches!(action, SaveAction::Finish(MirrorAction::Export)));
}

#[test]
fn save_over_changed_document_is_refused() {
    let req = request("work", false, false, false, 1714550400);
    let (state, action) = save_step(
        SaveState::AwaitFingerprint,
        SaveEvent::Fingerprint(1714550460),
        &req,
        false,
        "doc",
        None,
    );
    assert_eq!(state, SaveState::Finished);
    match action {
        SaveAction::Fail(e) => {
            assert_eq!(e.kind, ErrorKind::Conflict);
            assert_eq!(e.desc, "Profile 'work' has been modified on disk. Please reload.");
        }
        other => panic!("{:?}", other),
    }
    // with yes the save goes on
    let req = request("work", false, false, true, 1714550400);
    let (state, action) = save_step(
        SaveState::AwaitFingerprint,
        SaveEvent::Fingerprint(1714550460),
        &req,
        false,
        "doc",
        None,
    );
    assert_eq!(state, SaveState::AwaitWrite);
    assert!(matches!(action, SaveAction::Write(_)));
}

#[test]
fn save_of_new_profile_asks_before_overwriting() {
    let req = request("work", true, false, false, 0);
    let (state, action) =
        save_step(SaveState::AwaitTarget, SaveEvent::Target(true), &req, false, "doc", None);
    assert_eq!(state, SaveState::AwaitAnswer);
    assert!(matches!(action, SaveAction::AskOverwrite));
    let (state, action) = save_step(state, SaveEvent::Answer(false), &req, false, "doc", None);
    assert_eq!(state, SaveState::Finished);
    match action {
        SaveAction::Fail(e) => {
            assert_eq!(e.kind, ErrorKind::UserCancelled);
            assert_eq!(e.desc, "ok bye ♥");
        }
        other => panic!("{:?}", other),
    }
    let (state, action) =
        save_step(SaveState::AwaitAnswer, SaveEvent::Answer(true), &req, false, "doc", None);
    assert_eq!(state, SaveState::AwaitWrite);
    assert!(matches!(action, SaveAction::Write(_)));
    // nothing to ask where nothing is there, or where yes is set
    let (state, _) =
        save_step(SaveState::AwaitTarget, SaveEvent::Target(false), &req, false, "doc", None);
    assert_eq!(state, SaveState::AwaitWrite);
    let req = request("work", true, false, true, 0);
    let (state, _) =
        save_step(SaveState::AwaitTarget, SaveEvent::Target(true), &req, false, "doc", None);
    assert_eq!(state, SaveState::AwaitWrite);
}

#[test]
fn save_refuses_invalid_name() {
    let req = request("notes.md", true, false, true, 0);
    let (state, action) = save_step(SaveState::Start, SaveEvent::Begin, &req, false, "doc", None);
    assert_eq!(state, SaveState::Finished);
    match action {
        SaveAction::Fail(e) => assert_eq!(e.kind, ErrorKind::Generic),
        other => panic!("{:?}", other),
    }
}

#[test]
fn sealing_save_writes_sealed_bytes_and_purges_mirrors() {
    let req = request("default", false, true, false, 0);
    let doc = "encrypted: true\nnotes: []\n";
    let (state, action) =
        save_step(SaveState::AwaitTarget, SaveEvent::Target(true), &req, true, doc, Some("pw"));
    assert_eq!(state, SaveState::AwaitWrite);
    match action {
        SaveAction::Write(bytes) => {
            assert_ne!(bytes, doc.as_bytes());
            assert_eq!(open_document(bytes, Some("pw"), true).unwrap(), doc);
        }
        other => panic!("{:?}", other),
    }
    let (state, action) = save_step(state, SaveEvent::Written, &req, true, doc, Some("pw"));
    assert_eq!(state, SaveState::Finished);
    assert!(matches!(action, SaveAction::Finish(MirrorAction::Purge)));
    // a profile that was sealed before has no mirrors to remove
    let req = request("default", false, false, false, 0);
    let (_, action) =
        save_step(SaveState::AwaitWrite, SaveEvent::Written, &req, true, doc, Some("pw"));
    assert!(matches!(action, SaveAction::Finish(MirrorAction::Keep)));
}

#[test]
fn sealing_save_without_key_fails_before_writing() {
    let req = request("default", false, true, false, 0);
    let (state, action) =
        save_step(SaveState::AwaitTarget, SaveEvent::Target(true), &req, true, "doc", None);
    assert_eq!(state, SaveState::Finished);
    match action {
        SaveAction::Fail(e) => {
            assert_eq!(e.kind, ErrorKind::KeyMissing);
            assert_eq!(e.desc, "Profile is encrypted but no key provided");
        }
        other => panic!("{:?}", other),
    }
}

#[test]
fn event_out_of_turn_ends_the_save() {
    let req = request("default", false, false, false, 0);
    for (state, event) in [
        (SaveState::Start, SaveEvent::Written),
        (SaveState::AwaitTarget, SaveEvent::Begin),
        (SaveState::AwaitWrite, SaveEvent::Target(true)),
        (SaveState::Finished, SaveEvent::Begin),
        (SaveState::AwaitAnswer, SaveEvent::Fingerprint(3)),
    ] {
        let (next, action) = save_step(state, event, &req, false, "doc", None);
        assert_eq!(next, SaveState::Finished);
        match action {
            SaveAction::Fail(e) => {
                assert_eq!(e.kind, ErrorKind::Generic);
                assert_eq!(e.desc, "unexpected event while saving");
            }
            other => panic!("{:?}", other),
        }
    }
}

#[test]
fn documents_are_recognised() {
    assert_eq!(validate_profile("profile.yaml", true, true), (true, false));
    assert_eq!(validate_profile("profile.yaml", true, false), (true, true));
    assert_eq!(validate_profile("old.json", true, false), (true, true));
    assert_eq!(validate_profile("profile.yaml", false, false), (false, false));
    assert_eq!(validate_profile("profile.yml", true, true), (false, false));
    assert_eq!(validate_profile(".yaml", true, true), (false, false));
    assert_eq!(validate_profile("1-A.md", true, true), (false, false));
}

#[test]
fn profile_lines() {
    assert_eq!(profile_line("work", false), "work");
    assert_eq!(profile_line("work", true), "work [encrypted]");
}

#[test]
fn profile_saves_itself_step_by_step() {
    let (mut p, fingerprint) = theca::profile::Profile::new(false);
    p.add_note_at("A", "x", None, "2024-05-01 10:00:00 +0200");
    let req = request("default", true, false, false, fingerprint);
    let doc = "encrypted: false\nnotes: []\n";
    let (state, action) = p.save_to_file(SaveState::Start, SaveEvent::Begin, &req, doc, None);
    assert_eq!(state, SaveState::AwaitTarget);
    assert!(matches!(action, SaveAction::PrepareTarget));
    let (state, action) = p.save_to_file(state, SaveEvent::Target(false), &req, doc, None);
    assert_eq!(state, SaveState::AwaitWrite);
    match action {
        SaveAction::Write(bytes) => assert_eq!(bytes, doc.as_bytes()),
        other => panic!("{:?}", other),
    }
    let (state, action) = p.save_to_file(state, SaveEvent::Written, &req, doc, None);
    assert_eq!(state, SaveState::Finished);
    assert!(matches!(action, SaveAction::Finish(MirrorAction::Export)));
}
