//! Where a profile's document lives, why a profile cannot be loaded, and
//! the steps of saving one.
//!
//! Saving alternates questions to the outside (is the document there, may
//! it be overwritten, when was it last changed) with decisions.
//! `save_step` makes the decisions: it takes the state of a save and what
//! the outside answered, and gives the next state and what to do next.

use crate::document::{
    is_encryption_failure, is_key_missing, is_stored_form, key_bytes, seal_document,
    spec_open_document,
};
use crate::errors::{ErrorKind, ThecaError};
use crate::mirror::is_mirror_name;
use crate::profile::Profile;
use crate::text::{chars_of, ends_with, has_suffix, same_text};
use vstd::prelude::*;

verus! {

/// Where a profile lives below the folder of all profiles: the default
/// profile at the folder's root, any other in a directory of its name.
/// The document has the same name in both.
#[derive(Debug)]
pub struct ProfileLocation {
    pub dir: Option<String>,
    pub document: String,
}

/// The name `default`, which names the profile at the folder's root.
pub open spec fn is_default(name: Seq<char>) -> bool {
    name == "default"@
}

/// Where the profile `profile_name` lives.
pub fn locate(profile_name: &str) -> (r: ProfileLocation)
    ensures
        r.document@ == "profile.yaml"@,
        is_default(profile_name@) ==> r.dir is None,
        !is_default(profile_name@) ==> r.dir is Some && r.dir->Some_0@ == profile_name@,
{
    let dir = if same_text(profile_name, "default") {
        None
    } else {
        Some(profile_name.to_owned())
    };
    ProfileLocation { dir, document: "profile.yaml".to_owned() }
}

/// What was found in place of a profile's document.
pub struct LoadProbe {
    /// The profile's directory exists.
    pub dir_exists: bool,
    /// Something exists under the document's name.
    pub path_exists: bool,
    /// A file `<name>.yaml` lies at the folder's root.
    pub legacy_yaml: bool,
    /// A file `<name>.json` lies at the folder's root.
    pub legacy_json: bool,
}

/// The paths that were looked at for a profile, as they are shown.
#[derive(Debug)]
pub struct LoadPaths {
    /// The profile's directory.
    pub dir: String,
    /// The profile's document.
    pub document: String,
    /// The file `<name>.yaml` at the folder's root.
    pub legacy_yaml: String,
    /// The file `<name>.json` at the folder's root.
    pub legacy_json: String,
}

/// Why a profile whose document is no file cannot be loaded. Where the
/// directory of a named profile is there and nothing lies under the
/// document's name, the directory is named. Else a document of an earlier
/// layout at the folder's root is named, with the place to move it to. And
/// where nothing is there at all, the path of the missing document is
/// named.
pub open spec fn load_failure_text(
    name: Seq<char>,
    probe: LoadProbe,
    dir: Seq<char>,
    document: Seq<char>,
    legacy_yaml: Seq<char>,
    legacy_json: Seq<char>,
) -> Seq<char> {
    if probe.dir_exists && !is_default(name) && !probe.path_exists {
        "Profile directory "@ + dir + " exists but contains no profile.yaml."@
    } else if probe.legacy_yaml {
        "Found legacy profile at "@ + legacy_yaml + ". Please move it to "@ + dir
            + "/profile.yaml"@
    } else if probe.legacy_json {
        "Found legacy JSON profile at "@ + legacy_json + ". Please migrate."@
    } else {
        document + " does not exist."@
    }
}

/// The failure to report for a profile whose document is no file.
pub fn load_failure(profile_name: &str, probe: &LoadProbe, paths: &LoadPaths) -> (e: ThecaError)
    ensures
        e.is(
            ErrorKind::NotFound,
            load_failure_text(
                profile_name@,
                *probe,
                paths.dir@,
                paths.document@,
                paths.legacy_yaml@,
                paths.legacy_json@,
            ),
        ),
        e.detail is None,
{
    let mut desc: String;
    if probe.dir_exists && !same_text(profile_name, "default") && !probe.path_exists {
        desc = "Profile directory ".to_owned();
        desc.append(paths.dir.as_str());
        desc.append(" exists but contains no profile.yaml.");
    } else if probe.legacy_yaml {
        desc = "Found legacy profile at ".to_owned();
        desc.append(paths.legacy_yaml.as_str());
        desc.append(". Please move it to ");
        desc.append(paths.dir.as_str());
        desc.append("/profile.yaml");
    } else if probe.legacy_json {
        desc = "Found legacy JSON profile at ".to_owned();
        desc.append(paths.legacy_json.as_str());
        desc.append(". Please migrate.");
    } else {
        desc = paths.document.clone();
        desc.append(" does not exist.");
    }
    ThecaError::described(ErrorKind::NotFound, desc)
}

/// A name that a profile may have: `default`, or one that is neither the
/// document's name nor that of a mirror file.
pub open spec fn is_profile_name(name: Seq<char>) -> bool {
    is_default(name) || !(name == "profile.yaml"@ || ends_with(name, ".md"@))
}

/// What the refusal of a profile's name says.
pub open spec fn invalid_name_text(name: Seq<char>) -> Seq<char> {
    "Invalid profile name '"@ + name
        + "'. Profile names cannot be 'profile.yaml' or end in '.md'."@
}

/// What the refusal to save over a changed document says.
pub open spec fn conflict_text(name: Seq<char>) -> Seq<char> {
    "Profile '"@ + name + "' has been modified on disk. Please reload."@
}

/// Accepts the names that a profile may have.
pub fn check_profile_name(profile_name: &str) -> (r: Result<(), ThecaError>)
    ensures
        r is Ok <==> is_profile_name(profile_name@),
        r is Err ==> r->Err_0.is(ErrorKind::Generic, invalid_name_text(profile_name@))
            && r->Err_0.detail is None,
{
    if same_text(profile_name, "default") {
        return Ok(());
    }
    let v = chars_of(profile_name);
    let ext = chars_of(".md");
    if same_text(profile_name, "profile.yaml") || has_suffix(&v, &ext) {
        let mut desc = "Invalid profile name '".to_owned();
        desc.append(profile_name);
        desc.append("'. Profile names cannot be 'profile.yaml' or end in '.md'.");
        return Err(ThecaError::described(ErrorKind::Generic, desc));
    }
    Ok(())
}

/// Whether the document on disk may be replaced: always where no
/// fingerprint was taken (0) or `yes` overrides, and else only while the
/// document's fingerprint is the one it had when it was loaded.
pub open spec fn fingerprint_allows(fingerprint: u64, current: u64, yes: bool) -> bool {
    fingerprint == 0 || current == fingerprint || yes
}

/// Refuses to save over a document that changed since it was loaded.
pub fn check_fingerprint(profile_name: &str, fingerprint: u64, current: u64, yes: bool) -> (r:
    Result<(), ThecaError>)
    ensures
        r is Ok <==> fingerprint_allows(fingerprint, current, yes),
        r is Err ==> r->Err_0.is(ErrorKind::Conflict, conflict_text(profile_name@))
            && r->Err_0.detail is None,
{
    if fingerprint > 0 && current != fingerprint && !yes {
        let mut desc = "Profile '".to_owned();
        desc.append(profile_name);
        desc.append("' has been modified on disk. Please reload.");
        return Err(ThecaError::described(ErrorKind::Conflict, desc));
    }
    Ok(())
}

/// What a save does to the mirror files of the profile's directory.
#[derive(Clone, Copy, PartialEq, Eq, Debug, Structural)]
pub enum MirrorAction {
    /// Write the mirror file of each note and remove the stale ones.
    Export,
    /// Remove every mirror file.
    Purge,
    /// Leave the directory as it is.
    Keep,
}

/// The mirror files of a plain profile are written anew at each save.
/// Those of a profile that is being sealed are removed: a mirror file
/// would show what the seal hides. A profile that was sealed before has
/// none.
pub open spec fn spec_mirror_action(encrypted: bool, encrypting: bool) -> MirrorAction {
    if !encrypted {
        MirrorAction::Export
    } else if encrypting {
        MirrorAction::Purge
    } else {
        MirrorAction::Keep
    }
}

/// What a save does to the mirror files.
pub fn mirror_action(encrypted: bool, encrypting: bool) -> (r: MirrorAction)
    ensures
        r == spec_mirror_action(encrypted, encrypting),
{
    if !encrypted {
        MirrorAction::Export
    } else if encrypting {
        MirrorAction::Purge
    } else {
        MirrorAction::Keep
    }
}

/// What is asked of a save.
#[derive(Debug)]
pub struct SaveRequest {
    /// The profile's name.
    pub profile_name: String,
    /// The profile is being created.
    pub new_profile: bool,
    /// The profile was plain and is being sealed.
    pub encrypting: bool,
    /// Do not ask, and do not stop at a conflict.
    pub yes: bool,
    /// The document's fingerprint when it was loaded, or 0.
    pub fingerprint: u64,
}

/// How far a save has come.
#[derive(Clone, Copy, PartialEq, Eq, Debug, Structural)]
pub enum SaveState {
    Start,
    AwaitTarget,
    AwaitAnswer,
    AwaitFingerprint,
    AwaitWrite,
    Finished,
}

/// What the outside reports to a save.
#[derive(Clone, Copy, PartialEq, Eq, Debug, Structural)]
pub enum SaveEvent {
    /// The save begins.
    Begin,
    /// The profile's directory is there, and the document exists or not.
    Target(bool),
    /// The user's answer to the question whether to overwrite.
    Answer(bool),
    /// The fingerprint that the document has now.
    Fingerprint(u64),
    /// The bytes were written.
    Written,
}

/// What a save asks of the outside next.
#[derive(Debug)]
pub enum SaveAction {
    /// Make sure that the profile's directory exists, and report whether
    /// the document does.
    PrepareTarget,
    /// Ask the user whether the existing document may be overwritten.
    AskOverwrite,
    /// Report the fingerprint that the document has now.
    ReadFingerprint,
    /// Replace the document by these bytes.
    Write(Vec<u8>),
    /// The save is done; treat the mirror files as said.
    Finish(MirrorAction),
    /// The save is refused, and nothing was written.
    Fail(ThecaError),
}

/// The decision that a step of a save comes to.
pub enum Decision {
    Prepare,
    Ask,
    Fingerprint,
    Seal,
    Done(MirrorAction),
    Refuse(ErrorKind, Seq<char>),
}

/// What follows once the document may be overwritten: the fingerprint is
/// asked for where one was taken at load, and else the document is sealed
/// and written.
pub open spec fn after_overwrite(fingerprint: u64) -> Decision {
    if fingerprint > 0 {
        Decision::Fingerprint
    } else {
        Decision::Seal
    }
}

/// The decision of each step of a save.
pub open spec fn decide(
    state: SaveState,
    event: SaveEvent,
    name: Seq<char>,
    new_profile: bool,
    encrypting: bool,
    yes: bool,
    fingerprint: u64,
    encrypted: bool,
) -> Decision {
    match (state, event) {
        (SaveState::Start, SaveEvent::Begin) => if is_profile_name(name) {
            Decision::Prepare
        } else {
            Decision::Refuse(ErrorKind::Generic, invalid_name_text(name))
        },
        (SaveState::AwaitTarget, SaveEvent::Target(exists)) => if new_profile && exists && !yes {
            Decision::Ask
        } else {
            after_overwrite(fingerprint)
        },
        (SaveState::AwaitAnswer, SaveEvent::Answer(overwrite)) => if overwrite {
            after_overwrite(fingerprint)
        } else {
            Decision::Refuse(ErrorKind::UserCancelled, "ok bye ♥"@)
        },
        (SaveState::AwaitFingerprint, SaveEvent::Fingerprint(current)) => if fingerprint_allows(
            fingerprint,
            current,
            yes,
        ) {
            Decision::Seal
        } else {
            Decision::Refuse(ErrorKind::Conflict, conflict_text(name))
        },
        (SaveState::AwaitWrite, SaveEvent::Written) => Decision::Done(
            spec_mirror_action(encrypted, encrypting),
        ),
        _ => Decision::Refuse(ErrorKind::Generic, "unexpected event while saving"@),
    }
}

/// Whether a step's result carries out a decision. Sealing draws a salt
/// and a nonce, so the bytes to write are not decided by the document:
/// what is decided is that they are a form in which the document is
/// stored, what `seal_document_with` gives for some salt and some nonce,
/// that they open to the document under the same key, and that a failure
/// to seal is reported as such.
pub open spec fn carries_out(
    decision: Decision,
    result: (SaveState, SaveAction),
    document: Seq<char>,
    key: Option<Seq<u8>>,
    encrypted: bool,
) -> bool {
    match decision {
        Decision::Prepare => result.0 == SaveState::AwaitTarget
            && result.1 is PrepareTarget,
        Decision::Ask => result.0 == SaveState::AwaitAnswer && result.1 is AskOverwrite,
        Decision::Fingerprint => result.0 == SaveState::AwaitFingerprint
            && result.1 is ReadFingerprint,
        Decision::Seal => match result.1 {
            SaveAction::Write(bytes) => result.0 == SaveState::AwaitWrite && is_stored_form(
                document,
                key,
                encrypted,
                bytes@,
            ) && spec_open_document(bytes@, key, encrypted) == Ok::<
                Seq<char>,
                (ErrorKind, Seq<char>),
            >(document),
            SaveAction::Fail(e) => result.0 == SaveState::Finished && encrypted && if key is None {
                is_key_missing(e)
            } else {
                is_encryption_failure(e)
            },
            _ => false,
        },
        Decision::Done(mirrors) => result.0 == SaveState::Finished && result.1 == SaveAction::Finish(
            mirrors,
        ),
        Decision::Refuse(kind, desc) => result.0 == SaveState::Finished && result.1 is Fail
            && result.1->Fail_0.is(kind, desc) && result.1->Fail_0.detail is None,
    }
}

/// The step that seals the document and hands out the bytes to write.
fn seal_and_write(document: &str, encrypted: bool, key: Option<&str>) -> (r: (
    SaveState,
    SaveAction,
))
    ensures
        carries_out(Decision::Seal, r, document@, key_bytes(key), encrypted),
{
    match seal_document(document, encrypted, key) {
        Ok(bytes) => (SaveState::AwaitWrite, SaveAction::Write(bytes)),
        Err(e) => (SaveState::Finished, SaveAction::Fail(e)),
    }
}

/// The step that follows once the document may be overwritten.
fn after_overwrite_step(fingerprint: u64, document: &str, encrypted: bool, key: Option<&str>) -> (r:
    (SaveState, SaveAction))
    ensures
        carries_out(after_overwrite(fingerprint), r, document@, key_bytes(key), encrypted),
{
    if fingerprint > 0 {
        (SaveState::AwaitFingerprint, SaveAction::ReadFingerprint)
    } else {
        seal_and_write(document, encrypted, key)
    }
}

/// The step that ends a save with a failure.
fn refuse(kind: ErrorKind, desc: &str) -> (r: (SaveState, SaveAction))
    ensures
        r.0 == SaveState::Finished,
        r.1 is Fail,
        r.1->Fail_0.is(kind, desc@),
        r.1->Fail_0.detail is None,
{
    (SaveState::Finished, SaveAction::Fail(ThecaError::new(kind, desc)))
}

/// One step of a save: from the state and what the outside reported to
/// the next state and what to do next. `encrypted` says whether the
/// profile is sealed, `document` is its document's text, and `key` the
/// key to seal it with.
pub fn save_step(
    state: SaveState,
    event: SaveEvent,
    request: &SaveRequest,
    encrypted: bool,
    document: &str,
    key: Option<&str>,
) -> (r: (SaveState, SaveAction))
    ensures
        carries_out(
            decide(
                state,
                event,
                request.profile_name@,
                request.new_profile,
                request.encrypting,
                request.yes,
                request.fingerprint,
                encrypted,
            ),
            r,
            document@,
            key_bytes(key),
            encrypted,
        ),
{
    match (state, event) {
        (SaveState::Start, SaveEvent::Begin) => {
            match check_profile_name(request.profile_name.as_str()) {
                Ok(_) => (SaveState::AwaitTarget, SaveAction::PrepareTarget),
                Err(e) => (SaveState::Finished, SaveAction::Fail(e)),
            }
        },
        (SaveState::AwaitTarget, SaveEvent::Target(exists)) => {
            if request.new_profile && exists && !request.yes {
                (SaveState::AwaitAnswer, SaveAction::AskOverwrite)
            } else {
                after_overwrite_step(request.fingerprint, document, encrypted, key)
            }
        },
        (SaveState::AwaitAnswer, SaveEvent::Answer(overwrite)) => {
            if overwrite {
                after_overwrite_step(request.fingerprint, document, encrypted, key)
            } else {
                refuse(ErrorKind::UserCancelled, "ok bye ♥")
            }
        },
        (SaveState::AwaitFingerprint, SaveEvent::Fingerprint(current)) => {
            match check_fingerprint(
                request.profile_name.as_str(),
                request.fingerprint,
                current,
                request.yes,
            ) {
                Ok(_) => seal_and_write(document, encrypted, key),
                Err(e) => (SaveState::Finished, SaveAction::Fail(e)),
            }
        },
        (SaveState::AwaitWrite, SaveEvent::Written) => (
            SaveState::Finished,
            SaveAction::Finish(mirror_action(encrypted, request.encrypting)),
        ),
        _ => refuse(ErrorKind::Generic, "unexpected event while saving"),
    }
}

impl Profile {
    /// One step of saving this profile, whose document's text is
    /// `document`: from the state of the save and what the outside
    /// reported to the next state and what to do next.
    pub fn save_to_file(
        &self,
        state: SaveState,
        event: SaveEvent,
        request: &SaveRequest,
        document: &str,
        key: Option<&str>,
    ) -> (r: (SaveState, SaveAction))
        ensures
            carries_out(
                decide(
                    state,
                    event,
                    request.profile_name@,
                    request.new_profile,
                    request.encrypting,
                    request.yes,
                    request.fingerprint,
                    self.encrypted,
                ),
                r,
                document@,
                key_bytes(key),
                self.encrypted,
            ),
    {
        save_step(state, event, request, self.encrypted, document, key)
    }
}

/// The decision at which a save arrives when the outside answers as
/// given: whether the document exists, what the user says where asked,
/// and the fingerprint that the document has now. It is `Seal` where
/// nothing stands against writing.
pub open spec fn outcome(
    name: Seq<char>,
    new_profile: bool,
    encrypting: bool,
    yes: bool,
    fingerprint: u64,
    encrypted: bool,
    exists: bool,
    answer: bool,
    current: u64,
) -> Decision {
    let at_fingerprint = decide(
        SaveState::AwaitFingerprint,
        SaveEvent::Fingerprint(current),
        name,
        new_profile,
        encrypting,
        yes,
        fingerprint,
        encrypted,
    );
    match decide(
        SaveState::Start,
        SaveEvent::Begin,
        name,
        new_profile,
        encrypting,
        yes,
        fingerprint,
        encrypted,
    ) {
        Decision::Prepare => match decide(
            SaveState::AwaitTarget,
            SaveEvent::Target(exists),
            name,
            new_profile,
            encrypting,
            yes,
            fingerprint,
            encrypted,
        ) {
            Decision::Ask => match decide(
                SaveState::AwaitAnswer,
                SaveEvent::Answer(answer),
                name,
                new_profile,
                encrypting,
                yes,
                fingerprint,
                encrypted,
            ) {
                Decision::Fingerprint => at_fingerprint,
                other => other,
            },
            Decision::Fingerprint => at_fingerprint,
            other => other,
        },
        other => other,
    }
}

/// A profile that was loaded with a fingerprint other than 0 is not saved
/// over a document whose fingerprint has changed since, unless `yes` is
/// set: the save is refused as a conflict, and nothing is written.
pub proof fn lemma_changed_document_is_a_conflict(
    name: Seq<char>,
    encrypting: bool,
    fingerprint: u64,
    encrypted: bool,
    exists: bool,
    answer: bool,
    current: u64,
)
    requires
        is_profile_name(name),
        fingerprint != 0,
        current != fingerprint,
    ensures
        outcome(name, false, encrypting, false, fingerprint, encrypted, exists, answer, current)
            == Decision::Refuse(ErrorKind::Conflict, conflict_text(name)),
{
}

/// A save is never refused as a conflict where the document's fingerprint
/// is still the one it was loaded with.
pub proof fn lemma_unchanged_document_is_no_conflict(
    name: Seq<char>,
    new_profile: bool,
    encrypting: bool,
    yes: bool,
    fingerprint: u64,
    encrypted: bool,
    exists: bool,
    answer: bool,
)
    ensures
        !(outcome(
            name,
            new_profile,
            encrypting,
            yes,
            fingerprint,
            encrypted,
            exists,
            answer,
            fingerprint,
        ) matches Decision::Refuse(kind, _) && kind == ErrorKind::Conflict),
{
}

/// When a profile that was plain has been written sealed, every mirror
/// file leaves its directory: the save ends with `Purge`, and the names
/// to remove then are exactly those in the directory that name a mirror
/// file.
pub proof fn lemma_sealing_purges_every_mirror(
    name: Seq<char>,
    new_profile: bool,
    yes: bool,
    fingerprint: u64,
    existing: Seq<Seq<char>>,
)
    ensures
        decide(
            SaveState::AwaitWrite,
            SaveEvent::Written,
            name,
            new_profile,
            true,
            yes,
            fingerprint,
            true,
        ) == Decision::Done(MirrorAction::Purge),
        forall|file: Seq<char>|
            existing.filter(|n: Seq<char>| is_mirror_name(n)).contains(file) <==> existing.contains(
                file,
            ) && is_mirror_name(file),
{
    let mirror = |n: Seq<char>| is_mirror_name(n);
    let kept = existing.filter(mirror);
    assert forall|file: Seq<char>| kept.contains(file) <==> existing.contains(file)
        && is_mirror_name(file) by {
        if kept.contains(file) {
            let i = choose|i: int| 0 <= i < kept.len() && kept[i] == file;
            existing.lemma_filter_pred(mirror, i);
            existing.lemma_filter_contains_rev(mirror, file);
        }
        if existing.contains(file) && is_mirror_name(file) {
            let i = choose|i: int| 0 <= i < existing.len() && existing[i] == file;
            existing.lemma_filter_contains(mirror, i);
        }
    }
}

/// Whether a file under `file_name` counts as a profile's document, and
/// whether that is sealed. A document has the extension `yaml` or `json`
/// and can be read; it is taken as sealed where its text is not that of a
/// profile.
pub fn validate_profile(file_name: &str, readable: bool, parses: bool) -> (r: (bool, bool))
    ensures
        r.0 == (readable && (ends_with(file_name@, ".yaml"@) || ends_with(file_name@, ".json"@))
            && file_name@.len() > 5),
        r.1 == (r.0 && !parses),
{
    let v = chars_of(file_name);
    let yaml = chars_of(".yaml");
    let json = chars_of(".json");
    let is_document = readable && (has_suffix(&v, &yaml) || has_suffix(&v, &json)) && v.len() > 5;
    (is_document, is_document && !parses)
}

/// The line that lists a profile: its name, followed by ` [encrypted]`
/// where the profile is sealed.
pub fn profile_line(name: &str, encrypted: bool) -> (r: String)
    ensures
        r@ == if encrypted {
            name@ + " [encrypted]"@
        } else {
            name@
        },
{
    let mut line = name.to_owned();
    if encrypted {
        line.append(" [encrypted]");
    }
    line
}

} // verus!
