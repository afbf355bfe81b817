//! Taking the mirror files of a directory back into the notes.
//!
//! A file whose front matter gives an id speaks for the note with that id:
//! title, status and body go from the file into the note. A note for which
//! no file speaks was deleted by the user and leaves. A file without an id
//! becomes a new note.

use crate::clock::timestamp_now;
use crate::errors::{ErrorKind, ThecaError};
use crate::item::{views, Item, ItemView, Status};
use crate::mirror::{
    body_for, body_of, file_views, front_matter_fields, has_mirror_extension, is_mirror_name,
    mirror_id, parse_front_matter, split_front_matter, texts, title_for, title_of_name,
    FrontMatterView, MirrorFile, MirrorFileView,
};
use crate::profile::{
    ids_unique, lemma_index_of_id, lemma_new_note_keeps_well_formed, max_id, new_note,
    position_of, well_formed, Profile, ProfileView,
};
use std::collections::HashSet;
use vstd::prelude::*;

verus! {

/// A note after its mirror file was read at the moment `now`: the title
/// and the status that the front matter gives replace the note's, the
/// file's body replaces the note's, and a note that any of this changed is
/// stamped.
pub open spec fn reconciled(
    note: ItemView,
    fields: FrontMatterView,
    body: Seq<char>,
    now: Seq<char>,
) -> ItemView {
    let title = match fields.title {
        Some(t) => t,
        None => note.title,
    };
    let status = match fields.status {
        Some(s) => s,
        None => note.status,
    };
    ItemView {
        id: note.id,
        title,
        status,
        body,
        last_touched: if title != note.title || status != note.status || body != note.body {
            now
        } else {
            note.last_touched
        },
    }
}

/// The notes after one file was read: where its front matter gives an id,
/// the first note with that id is reconciled with it; any other file
/// changes no note.
pub open spec fn absorbed(notes: Seq<ItemView>, content: Seq<char>, now: Seq<char>) -> Seq<
    ItemView,
> {
    match split_front_matter(content) {
        Some((block, body)) => {
            let fields = front_matter_fields(block);
            match fields.id {
                Some(id) => {
                    let k = position_of(notes, id);
                    if k < notes.len() {
                        notes.update(k, reconciled(notes[k], fields, body, now))
                    } else {
                        notes
                    }
                },
                None => notes,
            }
        },
        None => notes,
    }
}

/// The notes after each of `files` was read, in order.
pub open spec fn absorbed_all(
    notes: Seq<ItemView>,
    files: Seq<MirrorFileView>,
    now: Seq<char>,
) -> Seq<ItemView>
    decreases files.len(),
{
    if files.len() == 0 {
        notes
    } else {
        absorbed(absorbed_all(notes, files.drop_last(), now), files.last().content, now)
    }
}

/// Whether one of `files` gives the id `id`.
pub open spec fn is_seen(files: Seq<MirrorFileView>, id: usize) -> bool {
    exists|i: int| 0 <= i < files.len() && mirror_id(#[trigger] files[i].content) == Some(id)
}

/// Of `notes`, those for which one of `files` speaks.
pub open spec fn retained(notes: Seq<ItemView>, files: Seq<MirrorFileView>) -> Seq<ItemView> {
    notes.filter(|n: ItemView| is_seen(files, n.id))
}

/// The notes after each of `files` that gives no id was added as a new
/// note, in order: its title from the file's name, its body from the
/// file's text, no status, stamped `now`.
pub open spec fn promoted(notes: Seq<ItemView>, files: Seq<MirrorFileView>, now: Seq<char>) -> Seq<
    ItemView,
>
    decreases files.len(),
{
    if files.len() == 0 {
        notes
    } else {
        let before = promoted(notes, files.drop_last(), now);
        let file = files.last();
        if mirror_id(file.content) is None {
            before.push(new_note(before, title_of_name(file.name), body_of(file.content), None, now))
        } else {
            before
        }
    }
}

/// The names of those of `files` that give no id, in order.
pub open spec fn unclaimed(files: Seq<MirrorFileView>) -> Seq<Seq<char>>
    decreases files.len(),
{
    if files.len() == 0 {
        Seq::empty()
    } else if mirror_id(files.last().content) is None {
        unclaimed(files.drop_last()).push(files.last().name)
    } else {
        unclaimed(files.drop_last())
    }
}

/// Of the files of a directory, those with the extension `md`.
pub open spec fn mirrors_among(files: Seq<MirrorFileView>) -> Seq<MirrorFileView> {
    files.filter(|f: MirrorFileView| is_mirror_name(f.name))
}

/// The notes after the files of their directory were taken in at the
/// moment `now`: each mirror file is read into its note, the notes for
/// which no file speaks leave, and the files without an id become new
/// notes.
pub open spec fn imported(notes: Seq<ItemView>, files: Seq<MirrorFileView>, now: Seq<char>) -> Seq<
    ItemView,
> {
    let mirrors = mirrors_among(files);
    promoted(retained(absorbed_all(notes, mirrors, now), mirrors), mirrors, now)
}

/// What taking in mirror files gives for a sealed profile.
pub open spec fn is_sync_unsupported(e: ThecaError) -> bool {
    e.is(ErrorKind::Unsupported, "synchronization is only supported for plaintext profiles"@)
        && e.detail is None
}

/// Reading a file leaves each note's id in its place.
pub proof fn lemma_absorbed_keeps_ids(notes: Seq<ItemView>, content: Seq<char>, now: Seq<char>)
    ensures
        absorbed(notes, content, now).len() == notes.len(),
        forall|i: int| 0 <= i < notes.len() ==> absorbed(notes, content, now)[i].id == notes[i].id,
{
    match split_front_matter(content) {
        Some((block, body)) => {
            match front_matter_fields(block).id {
                Some(id) => {
                    lemma_index_of_id(notes, id, 0);
                },
                None => {},
            }
        },
        None => {},
    }
}

/// Notes with the same ids in the same places have the same greatest id.
pub proof fn lemma_max_id_by_ids(a: Seq<ItemView>, b: Seq<ItemView>)
    requires
        a.len() == b.len(),
        forall|i: int| 0 <= i < a.len() ==> a[i].id == b[i].id,
    ensures
        max_id(a) == max_id(b),
    decreases a.len(),
{
    if a.len() > 0 {
        lemma_max_id_by_ids(a.drop_last(), b.drop_last());
    }
}

/// Reading files does not change the greatest id.
pub proof fn lemma_absorbed_all_max_id(
    notes: Seq<ItemView>,
    files: Seq<MirrorFileView>,
    now: Seq<char>,
)
    ensures
        max_id(absorbed_all(notes, files, now)) == max_id(notes),
    decreases files.len(),
{
    if files.len() > 0 {
        let before = absorbed_all(notes, files.drop_last(), now);
        lemma_absorbed_all_max_id(notes, files.drop_last(), now);
        lemma_absorbed_keeps_ids(before, files.last().content, now);
        lemma_max_id_by_ids(absorbed(before, files.last().content, now), before);
    }
}

/// Notes that leave do not raise the greatest id.
pub proof fn lemma_retained_max_id(notes: Seq<ItemView>, files: Seq<MirrorFileView>)
    ensures
        max_id(retained(notes, files)) <= max_id(notes),
    decreases notes.len(),
{
    reveal(Seq::filter);
    if notes.len() > 0 {
        let keep = |n: ItemView| is_seen(files, n.id);
        lemma_retained_max_id(notes.drop_last(), files);
        let front = notes.drop_last().filter(keep);
        assert(front == retained(notes.drop_last(), files));
        if keep(notes.last()) {
            assert(front.push(notes.last()).drop_last() =~= front);
        }
    }
}

/// A new note raises the greatest id by one.
pub proof fn lemma_new_note_max_id(
    notes: Seq<ItemView>,
    title: Seq<char>,
    body: Seq<char>,
    status: Option<Status>,
    now: Seq<char>,
)
    requires
        max_id(notes) < usize::MAX,
    ensures
        max_id(notes.push(new_note(notes, title, body, status, now))) == max_id(notes) + 1,
{
    let after = notes.push(new_note(notes, title, body, status, now));
    assert(after.drop_last() =~= notes);
}

/// Reading files leaves each note's id in its place.
pub proof fn lemma_absorbed_all_keeps_ids(
    notes: Seq<ItemView>,
    files: Seq<MirrorFileView>,
    now: Seq<char>,
)
    ensures
        absorbed_all(notes, files, now).len() == notes.len(),
        forall|i: int|
            0 <= i < notes.len() ==> absorbed_all(notes, files, now)[i].id == notes[i].id,
    decreases files.len(),
{
    if files.len() > 0 {
        let before = absorbed_all(notes, files.drop_last(), now);
        lemma_absorbed_all_keeps_ids(notes, files.drop_last(), now);
        lemma_absorbed_keeps_ids(before, files.last().content, now);
    }
}

/// Notes that leave take their ids with them: the notes that stay are well
/// formed as before.
pub proof fn lemma_retained_keeps_well_formed(notes: Seq<ItemView>, files: Seq<MirrorFileView>)
    requires
        well_formed(notes),
    ensures
        well_formed(retained(notes, files)),
    decreases notes.len(),
{
    reveal(Seq::filter);
    if notes.len() > 0 {
        let keep = |n: ItemView| is_seen(files, n.id);
        let front = notes.drop_last();
        assert(well_formed(front)) by {
            assert forall|i: int, j: int| 0 <= i < j < front.len() implies front[i].id
                != front[j].id by {
                assert(front[i] == notes[i] && front[j] == notes[j]);
            }
            assert forall|i: int| 0 <= i < front.len() implies front[i].id > 0 by {
                assert(front[i] == notes[i]);
            }
        }
        lemma_retained_keeps_well_formed(front, files);
        let kept = front.filter(keep);
        assert(kept == retained(front, files));
        if keep(notes.last()) {
            let all = kept.push(notes.last());
            assert forall|i: int, j: int| 0 <= i < j < all.len() implies all[i].id != all[j].id by {
                if j == kept.len() {
                    assert(kept.contains(kept[i]));
                    front.lemma_filter_contains_rev(keep, kept[i]);
                    let m = choose|m: int| 0 <= m < front.len() && front[m] == kept[i];
                    assert(notes[m] == kept[i]);
                }
            }
        }
    }
}

/// New notes from files get ids above all others: the notes stay well
/// formed, and the greatest id grows by at most one for each file.
pub proof fn lemma_promoted_keeps_well_formed(
    notes: Seq<ItemView>,
    files: Seq<MirrorFileView>,
    now: Seq<char>,
)
    requires
        well_formed(notes),
        max_id(notes) + files.len() <= usize::MAX,
    ensures
        well_formed(promoted(notes, files, now)),
        max_id(promoted(notes, files, now)) <= max_id(notes) + files.len(),
    decreases files.len(),
{
    if files.len() > 0 {
        let before = promoted(notes, files.drop_last(), now);
        lemma_promoted_keeps_well_formed(notes, files.drop_last(), now);
        let file = files.last();
        if mirror_id(file.content) is None {
            let title = title_of_name(file.name);
            let body = body_of(file.content);
            lemma_new_note_max_id(before, title, body, None, now);
            lemma_new_note_keeps_well_formed(before, title, body, None, now);
        }
    }
}

/// Taking in the files of a directory keeps the notes well formed.
pub proof fn lemma_imported_keeps_well_formed(
    notes: Seq<ItemView>,
    files: Seq<MirrorFileView>,
    now: Seq<char>,
)
    requires
        well_formed(notes),
        max_id(notes) + files.len() <= usize::MAX,
    ensures
        well_formed(imported(notes, files, now)),
{
    let mirrors = mirrors_among(files);
    let read = absorbed_all(notes, mirrors, now);
    files.lemma_filter_len(|f: MirrorFileView| is_mirror_name(f.name));
    lemma_absorbed_all_keeps_ids(notes, mirrors, now);
    lemma_absorbed_all_max_id(notes, mirrors, now);
    assert(well_formed(read)) by {
        assert forall|i: int, j: int| 0 <= i < j < read.len() implies read[i].id != read[j].id by {
            assert(read[i].id == notes[i].id && read[j].id == notes[j].id);
        }
        assert forall|i: int| 0 <= i < read.len() implies read[i].id > 0 by {
            assert(read[i].id == notes[i].id);
        }
    }
    lemma_retained_keeps_well_formed(read, mirrors);
    lemma_retained_max_id(read, mirrors);
    lemma_promoted_keeps_well_formed(retained(read, mirrors), mirrors, now);
}

/// What the front matter of a mirror file says, where it has front
/// matter.
pub open spec fn mirror_fields(content: Seq<char>) -> FrontMatterView {
    front_matter_fields(split_front_matter(content)->Some_0.0)
}

/// A note after the files were read in order: each file that gives the
/// note's id is reconciled into it, one after the other.
pub open spec fn absorbed_note(note: ItemView, files: Seq<MirrorFileView>, now: Seq<char>) -> ItemView
    decreases files.len(),
{
    if files.len() == 0 {
        note
    } else {
        let before = absorbed_note(note, files.drop_last(), now);
        let file = files.last();
        if mirror_id(file.content) == Some(note.id) {
            reconciled(before, mirror_fields(file.content), body_of(file.content), now)
        } else {
            before
        }
    }
}

/// Whether a file shows a difference to a note: its title, its status or
/// its body is not the note's.
pub open spec fn shows_difference(note: ItemView, file: MirrorFileView, now: Seq<char>) -> bool {
    let after = reconciled(note, mirror_fields(file.content), body_of(file.content), now);
    after.title != note.title || after.status != note.status || after.body != note.body
}

/// Reading the files does to each note what reading them does to that
/// note alone: where the ids are distinct, a file touches the one note
/// whose id it gives.
pub proof fn lemma_absorbed_all_notewise(
    notes: Seq<ItemView>,
    files: Seq<MirrorFileView>,
    now: Seq<char>,
    k: int,
)
    requires
        ids_unique(notes),
        0 <= k < notes.len(),
    ensures
        absorbed_all(notes, files, now).len() == notes.len(),
        absorbed_all(notes, files, now)[k] == absorbed_note(notes[k], files, now),
    decreases files.len(),
{
    lemma_absorbed_all_keeps_ids(notes, files, now);
    if files.len() > 0 {
        let front = files.drop_last();
        let last = files.last();
        let before = absorbed_all(notes, front, now);
        lemma_absorbed_all_notewise(notes, front, now, k);
        lemma_absorbed_all_keeps_ids(notes, front, now);
        match mirror_id(last.content) {
            Some(id) => {
                lemma_index_of_id(before, id, 0);
                let p = position_of(before, id);
                if id == notes[k].id {
                    if p < k {
                        assert(before[p].id == notes[p].id);
                    }
                    assert(p == k);
                } else if p < before.len() {
                    assert(before[p].id == notes[p].id);
                    assert(p != k);
                }
            },
            None => {},
        }
    }
}

/// A note keeps its id through the reading of files. It either stays as
/// it is or is stamped with the moment of the reading.
pub proof fn lemma_absorbed_note_stamp(note: ItemView, files: Seq<MirrorFileView>, now: Seq<char>)
    ensures
        absorbed_note(note, files, now).id == note.id,
        absorbed_note(note, files, now) == note || absorbed_note(note, files, now).last_touched
            == now,
    decreases files.len(),
{
    if files.len() > 0 {
        lemma_absorbed_note_stamp(note, files.drop_last(), now);
    }
}

/// A note whose mirror file shows a difference when it is read is
/// stamped with the moment of the reading, whatever is read after it.
pub proof fn lemma_changed_note_is_stamped(
    note: ItemView,
    files: Seq<MirrorFileView>,
    now: Seq<char>,
    j: int,
)
    requires
        0 <= j < files.len(),
        mirror_id(files[j].content) == Some(note.id),
        shows_difference(absorbed_note(note, files.take(j), now), files[j], now),
    ensures
        absorbed_note(note, files, now).last_touched == now,
    decreases files.len() - j,
{
    lemma_absorbed_note_stamp(note, files.take(j), now);
    if j == files.len() - 1 {
        assert(files.drop_last() =~= files.take(j));
    } else {
        let front = files.drop_last();
        assert(front.take(j) =~= files.take(j));
        assert(front[j] == files[j]);
        lemma_changed_note_is_stamped(note, front, now, j);
    }
}

/// A note whose mirror files show no difference to it stays as it is,
/// time stamp and all.
pub proof fn lemma_unchanged_note_keeps_stamp(
    note: ItemView,
    files: Seq<MirrorFileView>,
    now: Seq<char>,
)
    requires
        forall|j: int|
            0 <= j < files.len() && mirror_id(#[trigger] files[j].content) == Some(note.id)
                ==> !shows_difference(note, files[j], now),
    ensures
        absorbed_note(note, files, now) == note,
    decreases files.len(),
{
    if files.len() > 0 {
        let front = files.drop_last();
        assert forall|j: int|
            0 <= j < front.len() && mirror_id(#[trigger] front[j].content) == Some(
                note.id,
            ) implies !shows_difference(note, front[j], now) by {
            assert(front[j] == files[j]);
        }
        lemma_unchanged_note_keeps_stamp(note, front, now);
        assert(files[files.len() - 1] == files.last());
    }
}

/// New notes from files come behind the notes that were there, which stay
/// as they are.
pub proof fn lemma_promoted_keeps_notes(
    notes: Seq<ItemView>,
    files: Seq<MirrorFileView>,
    now: Seq<char>,
)
    ensures
        promoted(notes, files, now).len() >= notes.len(),
        forall|i: int| 0 <= i < notes.len() ==> promoted(notes, files, now)[i] == notes[i],
    decreases files.len(),
{
    if files.len() > 0 {
        lemma_promoted_keeps_notes(notes, files.drop_last(), now);
    }
}

/// What an import does to a note for which a mirror file speaks, where
/// the ids of the notes are distinct. The note is among the notes
/// afterwards, with its id, as the reading of the directory's mirror files
/// left it: stamped with the moment of the import if one of the files
/// showed a difference when it was read (`lemma_changed_note_is_stamped`),
/// and as it was, time stamp and all, if none shows a difference to it
/// (`lemma_unchanged_note_keeps_stamp`). Nothing else happens to it: it
/// either stays as it is or is stamped with that moment.
pub proof fn lemma_import_stamps_what_changed(
    notes: Seq<ItemView>,
    files: Seq<MirrorFileView>,
    now: Seq<char>,
    k: int,
)
    requires
        ids_unique(notes),
        0 <= k < notes.len(),
        is_seen(mirrors_among(files), notes[k].id),
    ensures
        ({
            let after = absorbed_note(notes[k], mirrors_among(files), now);
            &&& imported(notes, files, now).contains(after)
            &&& after.id == notes[k].id
            &&& (after == notes[k] || after.last_touched == now)
        }),
{
    let mirrors = mirrors_among(files);
    let after = absorbed_note(notes[k], mirrors, now);
    let read = absorbed_all(notes, mirrors, now);
    lemma_absorbed_all_notewise(notes, mirrors, now, k);
    lemma_absorbed_note_stamp(notes[k], mirrors, now);
    assert(read[k] == after);
    let keep = |n: ItemView| is_seen(mirrors, n.id);
    assert(keep(read[k]));
    read.lemma_filter_contains(keep, k);
    let kept = retained(read, mirrors);
    assert(kept.contains(after));
    let i = choose|i: int| 0 <= i < kept.len() && kept[i] == after;
    lemma_promoted_keeps_notes(kept, mirrors, now);
    assert(promoted(kept, mirrors, now)[i] == after);
}

/// Of `files`, those with the extension `md`, in order.
fn only_mirrors(files: &Vec<MirrorFile>) -> (r: Vec<MirrorFile>)
    ensures
        file_views(r@) == mirrors_among(file_views(files@)),
        r.len() <= files.len(),
{
    let ghost all = file_views(files@);
    let ghost mirror = |f: MirrorFileView| is_mirror_name(f.name);
    let mut r: Vec<MirrorFile> = Vec::new();
    let mut i: usize = 0;
    proof {
        reveal(Seq::filter);
        assert(all.take(0) =~= Seq::<MirrorFileView>::empty());
        assert(file_views(r@) =~= all.take(0).filter(mirror));
    }
    while i < files.len()
        invariant
            i <= files.len(),
            r.len() <= i,
            all == file_views(files@),
            mirror == |f: MirrorFileView| is_mirror_name(f.name),
            file_views(r@) == all.take(i as int).filter(mirror),
        decreases files.len() - i,
    {
        let file = &files[i];
        proof {
            assert(all.take(i + 1) =~= all.take(i as int).push(file@));
            all.take(i as int).lemma_filter_push(file@, mirror);
        }
        let ghost before = file_views(r@);
        if has_mirror_extension(file.name.as_str()) {
            r.push(MirrorFile { name: file.name.clone(), content: file.content.clone() });
            assert(file_views(r@) =~= before.push(file@));
        }
        i += 1;
    }
    assert(all.take(files.len() as int) =~= all);
    r
}

/// The set of the ids that `ids` holds.
fn seen_ids(ids: &Vec<Option<usize>>) -> (seen: HashSet<usize>)
    ensures
        forall|id: usize|
            seen@.contains(id) <==> exists|j: int|
                0 <= j < ids.len() && #[trigger] ids@[j] == Some(id),
{
    broadcast use vstd::std_specs::hash::group_hash_axioms;

    let mut seen: HashSet<usize> = HashSet::new();
    let mut i: usize = 0;
    while i < ids.len()
        invariant
            i <= ids.len(),
            forall|id: usize|
                seen@.contains(id) <==> exists|j: int| 0 <= j < i && #[trigger] ids@[j] == Some(id),
        decreases ids.len() - i,
    {
        let ghost before = seen@;
        match ids[i] {
            Some(x) => {
                seen.insert(x);
                assert forall|id: usize| seen@.contains(id) <==> exists|j: int|
                    0 <= j < i + 1 && #[trigger] ids@[j] == Some(id) by {
                    if seen@.contains(id) {
                        if id == x {
                            assert(ids@[i as int] == Some(id));
                        } else {
                            assert(before.contains(id));
                        }
                    }
                    if exists|j: int| 0 <= j < i + 1 && #[trigger] ids@[j] == Some(id) {
                        let j = choose|j: int| 0 <= j < i + 1 && #[trigger] ids@[j] == Some(id);
                        if j < i {
                            assert(before.contains(id));
                        }
                    }
                }
            },
            None => {
                assert forall|id: usize| seen@.contains(id) <==> exists|j: int|
                    0 <= j < i + 1 && #[trigger] ids@[j] == Some(id) by {
                    if exists|j: int| 0 <= j < i + 1 && #[trigger] ids@[j] == Some(id) {
                        let j = choose|j: int| 0 <= j < i + 1 && #[trigger] ids@[j] == Some(id);
                        assert(j < i);
                    }
                }
            },
        }
        i += 1;
    }
    seen
}

impl Profile {
    /// Reads one mirror file into its note at the moment `now`, and
    /// returns the id that the file gives.
    fn absorb(&mut self, content: &str, now: &str) -> (id: Option<usize>)
        ensures
            id == mirror_id(content@),
            final(self)@ == (ProfileView {
                encrypted: old(self).encrypted,
                notes: absorbed(old(self)@.notes, content@, now@),
            }),
    {
        let parsed = match parse_front_matter(content) {
            Some(p) => p,
            None => {
                return None;
            },
        };
        let id = match parsed.fields.id {
            Some(id) => id,
            None => {
                return None;
            },
        };
        let k = match self.find_note(id) {
            Some(k) => k,
            None => {
                return Some(id);
            },
        };
        let ghost before = views(self.notes@);
        let note = &self.notes[k];
        let title = match &parsed.fields.title {
            Some(t) => t.clone(),
            None => note.title.clone(),
        };
        let status = match parsed.fields.status {
            Some(s) => s,
            None => note.status,
        };
        let changed = !(title == note.title) || status != note.status || !(parsed.body
            == note.body);
        let last_touched = if changed {
            now.to_owned()
        } else {
            note.last_touched.clone()
        };
        let item = Item { id: note.id, title, status, body: parsed.body, last_touched };
        self.notes.set(k, item);
        assert(views(self.notes@) =~= absorbed(before, content@, now@));
        Some(id)
    }

    /// Keeps the notes whose id is in `seen`.
    fn retain_seen(&mut self, seen: &HashSet<usize>, Ghost(files): Ghost<Seq<MirrorFileView>>)
        requires
            forall|id: usize| seen@.contains(id) <==> is_seen(files, id),
        ensures
            final(self)@ == (ProfileView {
                encrypted: old(self).encrypted,
                notes: retained(old(self)@.notes, files),
            }),
    {
        broadcast use vstd::std_specs::hash::group_hash_axioms;

        let ghost all = views(self.notes@);
        let ghost keep = |n: ItemView| is_seen(files, n.id);
        let mut kept: Vec<Item> = Vec::new();
        let mut i: usize = 0;
        proof {
            reveal(Seq::filter);
            assert(all.take(0) =~= Seq::<ItemView>::empty());
            assert(views(kept@) =~= all.take(0).filter(keep));
        }
        while i < self.notes.len()
            invariant
                i <= self.notes.len(),
                *self == *old(self),
                all == views(self.notes@),
                keep == |n: ItemView| is_seen(files, n.id),
                forall|id: usize| seen@.contains(id) <==> is_seen(files, id),
                views(kept@) == all.take(i as int).filter(keep),
            decreases self.notes.len() - i,
        {
            let note = &self.notes[i];
            proof {
                assert(all.take(i + 1) =~= all.take(i as int).push(note@));
                all.take(i as int).lemma_filter_push(note@, keep);
            }
            let ghost before = views(kept@);
            let id = note.id;
            let is_in = seen.contains(&id);
            assert(is_in == seen@.contains(id));
            if is_in {
                kept.push(note.clone());
                assert(views(kept@) =~= before.push(note@));
            }
            i += 1;
        }
        assert(all.take(self.notes.len() as int) =~= all);
        self.notes = kept;
    }

    /// Takes the files of the profile's directory into the notes at the
    /// moment `now`, and returns the names of the files that became new
    /// notes: they are to leave the directory, since each of these notes
    /// gets a mirror file under a name of its own. A sealed profile has
    /// no mirror files: it is left as it is, and the failure is
    /// `Unsupported`.
    pub fn sync_at(&mut self, files: &Vec<MirrorFile>, now: &str) -> (r: Result<
        Vec<String>,
        ThecaError,
    >)
        requires
            !old(self).encrypted ==> max_id(old(self)@.notes) + files.len() <= usize::MAX,
        ensures
            old(self).wf() ==> final(self).wf(),
            match r {
                Ok(taken) => {
                    &&& !old(self).encrypted
                    &&& final(self)@ == (ProfileView {
                        encrypted: false,
                        notes: imported(old(self)@.notes, file_views(files@), now@),
                    })
                    &&& texts(taken@) == unclaimed(mirrors_among(file_views(files@)))
                },
                Err(e) => old(self).encrypted && is_sync_unsupported(e) && *final(self) == *old(
                    self,
                ),
            },
    {
        if self.encrypted {
            return Err(
                ThecaError::new(
                    ErrorKind::Unsupported,
                    "synchronization is only supported for plaintext profiles",
                ),
            );
        }
        proof {
            if old(self).wf() {
                lemma_imported_keeps_well_formed(old(self)@.notes, file_views(files@), now@);
            }
        }
        let mirrors = only_mirrors(files);
        let ghost fv = file_views(mirrors@);
        let ghost start = old(self)@.notes;
        let mut ids: Vec<Option<usize>> = Vec::new();
        let mut i: usize = 0;
        assert(fv.take(0) =~= Seq::<MirrorFileView>::empty());
        while i < mirrors.len()
            invariant
                i <= mirrors.len(),
                !self.encrypted,
                fv == file_views(mirrors@),
                ids.len() == i,
                forall|j: int| 0 <= j < i ==> ids@[j] == mirror_id(#[trigger] fv[j].content),
                views(self.notes@) == absorbed_all(start, fv.take(i as int), now@),
            decreases mirrors.len() - i,
        {
            proof {
                assert(fv.take(i + 1).drop_last() =~= fv.take(i as int));
                assert(fv.take(i + 1).last() == mirrors@[i as int]@);
            }
            let id = self.absorb(mirrors[i].content.as_str(), now);
            ids.push(id);
            i += 1;
        }
        assert(fv.take(mirrors.len() as int) =~= fv);
        let seen = seen_ids(&ids);
        proof {
            assert forall|id: usize| seen@.contains(id) <==> is_seen(fv, id) by {
                if seen@.contains(id) {
                    let j = choose|j: int| 0 <= j < ids.len() && #[trigger] ids@[j] == Some(id);
                    assert(mirror_id(fv[j].content) == Some(id));
                }
                if is_seen(fv, id) {
                    let j = choose|j: int|
                        0 <= j < fv.len() && mirror_id(#[trigger] fv[j].content) == Some(id);
                    assert(ids@[j] == Some(id));
                }
            }
        }
        self.retain_seen(&seen, Ghost(fv));
        let ghost kept = views(self.notes@);
        proof {
            lemma_absorbed_all_max_id(start, fv, now@);
            lemma_retained_max_id(absorbed_all(start, fv, now@), fv);
        }
        let mut taken: Vec<String> = Vec::new();
        let mut i: usize = 0;
        assert(texts(taken@) =~= unclaimed(fv.take(0)));
        while i < mirrors.len()
            invariant
                i <= mirrors.len(),
                mirrors.len() <= files.len(),
                !self.encrypted,
                fv == file_views(mirrors@),
                ids.len() == mirrors.len(),
                forall|j: int|
                    0 <= j < mirrors.len() ==> ids@[j] == mirror_id(#[trigger] fv[j].content),
                views(self.notes@) == promoted(kept, fv.take(i as int), now@),
                texts(taken@) == unclaimed(fv.take(i as int)),
                max_id(views(self.notes@)) + (files.len() - i) <= usize::MAX,
            decreases mirrors.len() - i,
        {
            let file = &mirrors[i];
            let ghost before = views(self.notes@);
            let ghost names = texts(taken@);
            proof {
                assert(fv.take(i + 1).drop_last() =~= fv.take(i as int));
                assert(fv.take(i + 1).last() == file@);
                assert(ids@[i as int] == mirror_id(fv[i as int].content));
            }
            if ids[i].is_none() {
                let title = title_for(file.name.as_str());
                let body = body_for(file.content.as_str());
                proof {
                    lemma_new_note_max_id(before, title@, body@, None, now@);
                }
                self.add_note_at(title.as_str(), body.as_str(), None, now);
                taken.push(file.name.clone());
                assert(texts(taken@) =~= names.push(file.name@));
            }
            i += 1;
        }
        assert(fv.take(mirrors.len() as int) =~= fv);
        Ok(taken)
    }

    /// Takes the files of the profile's directory into the notes, stamping
    /// what changes with the present moment.
    pub fn sync(&mut self, files: &Vec<MirrorFile>) -> (r: Result<Vec<String>, ThecaError>)
        requires
            !old(self).encrypted ==> max_id(old(self)@.notes) + files.len() <= usize::MAX,
        ensures
            old(self).wf() ==> final(self).wf(),
            r is Ok <==> !old(self).encrypted,
            match r {
                Ok(taken) => {
                    &&& texts(taken@) == unclaimed(mirrors_among(file_views(files@)))
                    &&& exists|now: Seq<char>|
                        final(self)@ == (ProfileView {
                            encrypted: false,
                            notes: #[trigger] imported(old(self)@.notes, file_views(files@), now),
                        })
                },
                Err(e) => is_sync_unsupported(e) && *final(self) == *old(self),
            },
    {
        let now = timestamp_now();
        self.sync_at(files, now.as_str())
    }
}

} // verus!
