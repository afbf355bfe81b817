//! A profile: its notes, and what adding, editing, deleting and moving a
//! note do to them.

use crate::clock::timestamp_now;
use crate::errors::{ErrorKind, ThecaError};
use crate::item::{views, Item, ItemView, Status};
use crate::text::{chars_of, decimal, decimal_of, same_text, string_of};
use vstd::prelude::*;

verus! {

/// The notes of one profile, and whether its document is kept sealed.
#[derive(Debug)]
pub struct Profile {
    pub encrypted: bool,
    pub notes: Vec<Item>,
}

/// A profile as plain values.
pub struct ProfileView {
    pub encrypted: bool,
    pub notes: Seq<ItemView>,
}

impl View for Profile {
    type V = ProfileView;

    open spec fn view(&self) -> ProfileView {
        ProfileView { encrypted: self.encrypted, notes: views(self.notes@) }
    }
}

impl Clone for Profile {
    fn clone(&self) -> (r: Profile)
        ensures
            r@ == self@,
    {
        let mut notes: Vec<Item> = Vec::new();
        let mut i: usize = 0;
        while i < self.notes.len()
            invariant
                i <= self.notes.len(),
                notes.len() == i,
                forall|j: int| 0 <= j < i ==> notes@[j]@ == self.notes@[j]@,
            decreases self.notes.len() - i,
        {
            notes.push(self.notes[i].clone());
            i += 1;
        }
        assert(views(notes@) =~= views(self.notes@));
        Profile { encrypted: self.encrypted, notes }
    }
}

/// How a command wants the notes shown or searched, and whether it may
/// ask.
pub struct ProfileFlags {
    pub condensed: bool,
    pub datesort: bool,
    pub editor: bool,
    pub encrypted: bool,
    pub yaml: bool,
    pub regex: bool,
    pub reverse: bool,
    pub search_body: bool,
    pub yes: bool,
}

impl Default for ProfileFlags {
    fn default() -> (r: ProfileFlags)
        ensures
            !r.condensed && !r.datesort && !r.editor && !r.encrypted && !r.yaml && !r.regex
                && !r.reverse && !r.search_body && !r.yes,
    {
        ProfileFlags {
            condensed: false,
            datesort: false,
            editor: false,
            encrypted: false,
            yaml: false,
            regex: false,
            reverse: false,
            search_body: false,
            yes: false,
        }
    }
}

/// The greatest id among `notes`, and 0 where there is no note.
pub open spec fn max_id(notes: Seq<ItemView>) -> nat
    decreases notes.len(),
{
    if notes.len() == 0 {
        0
    } else if notes.last().id >= max_id(notes.drop_last()) {
        notes.last().id as nat
    } else {
        max_id(notes.drop_last())
    }
}

/// The id that the next new note gets: one more than the greatest in use.
pub open spec fn next_id(notes: Seq<ItemView>) -> nat {
    max_id(notes) + 1
}

/// No two notes share an id.
pub open spec fn ids_unique(notes: Seq<ItemView>) -> bool {
    forall|i: int, j: int| 0 <= i < j < notes.len() ==> notes[i].id != notes[j].id
}

/// Every id is 1 or greater.
pub open spec fn ids_positive(notes: Seq<ItemView>) -> bool {
    forall|i: int| 0 <= i < notes.len() ==> notes[i].id > 0
}

/// What holds of the notes of a profile: their ids are positive, and no
/// two notes share one.
pub open spec fn well_formed(notes: Seq<ItemView>) -> bool {
    ids_unique(notes) && ids_positive(notes)
}

/// The position at or after `from` of the first note with the id `id`, or
/// the number of notes where there is none.
pub open spec fn index_of_id(notes: Seq<ItemView>, id: usize, from: int) -> int
    decreases notes.len() - from,
{
    if from < 0 || from >= notes.len() {
        notes.len() as int
    } else if notes[from].id == id {
        from
    } else {
        index_of_id(notes, id, from + 1)
    }
}

/// The position of the first note with the id `id`, or the number of
/// notes where there is none.
pub open spec fn position_of(notes: Seq<ItemView>, id: usize) -> int {
    index_of_id(notes, id, 0)
}

/// A text without its line feeds.
pub open spec fn strip_newlines(s: Seq<char>) -> Seq<char> {
    s.filter(|c: char| c != '\n')
}

/// The pieces of a body, each on a line of its own.
pub open spec fn joined(parts: Seq<Seq<char>>) -> Seq<char>
    decreases parts.len(),
{
    if parts.len() == 0 {
        Seq::empty()
    } else if parts.len() == 1 {
        parts[0]
    } else {
        joined(parts.drop_last()) + seq!['\n'] + parts.last()
    }
}

/// The note that a new title, body and status make at the moment `now`.
pub open spec fn new_note(
    notes: Seq<ItemView>,
    title: Seq<char>,
    body: Seq<char>,
    status: Option<Status>,
    now: Seq<char>,
) -> ItemView {
    ItemView {
        id: next_id(notes) as usize,
        title: strip_newlines(title),
        status: match status {
            Some(s) => s,
            None => Status::Blank,
        },
        body,
        last_touched: now,
    }
}

/// The notes with the first note of id `id` taken out.
pub open spec fn without(notes: Seq<ItemView>, id: usize) -> Seq<ItemView> {
    let k = position_of(notes, id);
    if k < notes.len() {
        notes.remove(k)
    } else {
        notes
    }
}

/// The notes after the ids of `ids` were taken out one after the other.
pub open spec fn without_all(notes: Seq<ItemView>, ids: Seq<usize>) -> Seq<ItemView>
    decreases ids.len(),
{
    if ids.len() == 0 {
        notes
    } else {
        without(without_all(notes, ids.drop_last()), ids.last())
    }
}

/// A text that may be absent, as plain values.
pub open spec fn opt_text(o: Option<String>) -> Option<Seq<char>> {
    match o {
        Some(s) => Some(s@),
        None => None,
    }
}

/// A note after an edit at the moment `now`: a new title that is not empty
/// replaces the old one, without its line feeds; a new status and a new
/// body replace the old ones; and the edit is stamped.
pub open spec fn edited(
    note: ItemView,
    title: Option<Seq<char>>,
    body: Option<Seq<char>>,
    status: Option<Status>,
    now: Seq<char>,
) -> ItemView {
    ItemView {
        id: note.id,
        title: match title {
            Some(t) => if t.len() > 0 {
                strip_newlines(t)
            } else {
                note.title
            },
            None => note.title,
        },
        status: match status {
            Some(s) => s,
            None => note.status,
        },
        body: match body {
            Some(b) => b,
            None => note.body,
        },
        last_touched: now,
    }
}

/// What `index_of_id` finds lies within the notes, holds the id, and is
/// the first to do so.
pub proof fn lemma_index_of_id(notes: Seq<ItemView>, id: usize, from: int)
    requires
        0 <= from <= notes.len(),
    ensures
        from <= index_of_id(notes, id, from) <= notes.len(),
        index_of_id(notes, id, from) < notes.len() ==> notes[index_of_id(notes, id, from)].id == id,
        forall|k: int| from <= k < index_of_id(notes, id, from) ==> notes[k].id != id,
    decreases notes.len() - from,
{
    if from < notes.len() && notes[from].id != id {
        lemma_index_of_id(notes, id, from + 1);
    }
}

/// No id is greater than the greatest.
pub proof fn lemma_max_id_bounds(notes: Seq<ItemView>)
    ensures
        forall|i: int| 0 <= i < notes.len() ==> notes[i].id <= max_id(notes),
        max_id(notes) <= usize::MAX,
        notes.len() > 0 ==> exists|i: int| 0 <= i < notes.len() && notes[i].id == max_id(notes),
    decreases notes.len(),
{
    if notes.len() > 0 {
        let front = notes.drop_last();
        lemma_max_id_bounds(front);
        assert forall|i: int| 0 <= i < notes.len() implies notes[i].id <= max_id(notes) by {
            if i < notes.len() - 1 {
                assert(front[i] == notes[i]);
            }
        }
        if notes.last().id >= max_id(front) {
            assert(notes[notes.len() - 1].id == max_id(notes));
        } else {
            let i = choose|i: int| 0 <= i < front.len() && front[i].id == max_id(front);
            assert(notes[i].id == max_id(notes));
        }
    }
}

/// What one call that adds a note is given.
pub struct NoteInput {
    pub title: Seq<char>,
    pub body: Seq<char>,
    pub status: Option<Status>,
    pub now: Seq<char>,
}

/// The notes after one note was added for each of `inputs`, in order.
pub open spec fn add_each(notes: Seq<ItemView>, inputs: Seq<NoteInput>) -> Seq<ItemView>
    decreases inputs.len(),
{
    if inputs.len() == 0 {
        notes
    } else {
        let before = add_each(notes, inputs.drop_last());
        let input = inputs.last();
        before.push(new_note(before, input.title, input.body, input.status, input.now))
    }
}

/// Notes added one after the other to a profile without notes are
/// numbered from 1 upwards: the i-th note added has the id i, whatever
/// the notes hold.
pub proof fn lemma_ids_count_from_one(inputs: Seq<NoteInput>)
    requires
        inputs.len() <= usize::MAX,
    ensures
        add_each(Seq::empty(), inputs).len() == inputs.len(),
        max_id(add_each(Seq::empty(), inputs)) == inputs.len(),
        forall|i: int| 0 <= i < inputs.len() ==> add_each(Seq::empty(), inputs)[i].id == i + 1,
    decreases inputs.len(),
{
    if inputs.len() > 0 {
        let before = add_each(Seq::empty(), inputs.drop_last());
        lemma_ids_count_from_one(inputs.drop_last());
        let after = add_each(Seq::empty(), inputs);
        assert(after.drop_last() =~= before);
    }
}

/// A note that is added after another was deleted gets one more than the
/// greatest id that is left, and so not the id of the deleted note, as
/// long as a note is left whose id is not below the deleted one. (Where
/// the deleted note had the greatest id of all, the next note gets that
/// id again.)
pub proof fn lemma_id_after_delete(
    notes: Seq<ItemView>,
    id: usize,
    title: Seq<char>,
    body: Seq<char>,
    status: Option<Status>,
    now: Seq<char>,
)
    requires
        position_of(notes, id) < notes.len(),
        max_id(without(notes, id)) < usize::MAX,
        id <= max_id(without(notes, id)),
    ensures
        new_note(without(notes, id), title, body, status, now).id == max_id(without(notes, id)) + 1,
        new_note(without(notes, id), title, body, status, now).id != id,
{
}

/// A new note keeps the notes well formed: its id is above all others.
pub proof fn lemma_new_note_keeps_well_formed(
    notes: Seq<ItemView>,
    title: Seq<char>,
    body: Seq<char>,
    status: Option<Status>,
    now: Seq<char>,
)
    requires
        well_formed(notes),
        max_id(notes) < usize::MAX,
    ensures
        well_formed(notes.push(new_note(notes, title, body, status, now))),
{
    lemma_max_id_bounds(notes);
}

/// Taking a note out keeps the notes well formed, and no note with the id
/// is left.
pub proof fn lemma_without_keeps_well_formed(notes: Seq<ItemView>, id: usize)
    requires
        well_formed(notes),
    ensures
        well_formed(without(notes, id)),
        position_of(without(notes, id), id) == without(notes, id).len(),
{
    lemma_index_of_id(notes, id, 0);
    let rest = without(notes, id);
    lemma_index_of_id(rest, id, 0);
    let k = position_of(notes, id);
    if k < notes.len() {
        assert forall|i: int| 0 <= i < rest.len() implies rest[i].id != id && rest[i].id > 0 by {
            if i < k {
                assert(rest[i] == notes[i]);
            } else {
                assert(rest[i] == notes[i + 1]);
            }
        }
    }
}

/// Taking notes out one after the other keeps the notes well formed.
pub proof fn lemma_without_all_keeps_well_formed(notes: Seq<ItemView>, ids: Seq<usize>)
    requires
        well_formed(notes),
    ensures
        well_formed(without_all(notes, ids)),
    decreases ids.len(),
{
    if ids.len() > 0 {
        lemma_without_all_keeps_well_formed(notes, ids.drop_last());
        lemma_without_keeps_well_formed(without_all(notes, ids.drop_last()), ids.last());
    }
}

/// An edit keeps each note's id, and so keeps the notes well formed.
pub proof fn lemma_edited_keeps_well_formed(
    notes: Seq<ItemView>,
    k: int,
    title: Option<Seq<char>>,
    body: Option<Seq<char>>,
    status: Option<Status>,
    now: Seq<char>,
)
    requires
        well_formed(notes),
        0 <= k < notes.len(),
    ensures
        well_formed(notes.update(k, edited(notes[k], title, body, status, now))),
{
}

/// The text `s` without its line feeds.
pub fn without_newlines(s: &str) -> (r: String)
    ensures
        r@ == strip_newlines(s@),
{
    let v = chars_of(s);
    let ghost keep = |c: char| c != '\n';
    let mut out: Vec<char> = Vec::new();
    let mut i: usize = 0;
    proof {
        reveal(Seq::filter);
        assert(v@.take(0) =~= Seq::<char>::empty());
        assert(out@ =~= v@.take(0).filter(keep));
    }
    while i < v.len()
        invariant
            i <= v.len(),
            keep == |c: char| c != '\n',
            out@ == v@.take(i as int).filter(keep),
        decreases v.len() - i,
    {
        proof {
            assert(v@.take(i + 1) =~= v@.take(i as int).push(v@[i as int]));
            v@.take(i as int).lemma_filter_push(v@[i as int], keep);
        }
        if v[i] != '\n' {
            out.push(v[i]);
        }
        i += 1;
    }
    assert(v@.take(v.len() as int) =~= v@);
    string_of(&out)
}

/// The pieces of a body put together, a line feed between each two.
pub fn join_lines(parts: &[String]) -> (r: String)
    ensures
        r@ == joined(crate::mirror::texts(parts@)),
{
    let ghost all = crate::mirror::texts(parts@);
    let mut r = String::new();
    let mut i: usize = 0;
    assert(all.take(0) =~= Seq::<Seq<char>>::empty());
    while i < parts.len()
        invariant
            i <= parts.len(),
            all == crate::mirror::texts(parts@),
            r@ == joined(all.take(i as int)),
        decreases parts.len() - i,
    {
        proof {
            assert(all.take(i + 1).drop_last() =~= all.take(i as int));
            assert(all.take(i + 1).last() == parts@[i as int]@);
        }
        if i > 0 {
            r.append("\n");
            proof {
                reveal_strlit("\n");
                assert("\n"@ =~= seq!['\n']);
            }
        } else {
            assert(Seq::<char>::empty() + parts@[i as int]@ =~= parts@[i as int]@);
        }
        r.append(parts[i].as_str());
        i += 1;
    }
    assert(all.take(parts.len() as int) =~= all);
    r
}

/// What a refused confirmation gives.
pub open spec fn is_cancelled(e: ThecaError) -> bool {
    e.is(ErrorKind::UserCancelled, "ok bye ♥"@) && e.detail is None
}

/// What editing a note that is not there gives.
pub open spec fn is_missing_note(e: ThecaError, id: usize) -> bool {
    e.is(ErrorKind::NotFound, "note "@ + decimal(id as nat) + " doesn't exist"@) && e.detail is None
}

/// What moving a note that is not there gives.
pub open spec fn is_note_not_found(e: ThecaError, id: usize) -> bool {
    e.is(ErrorKind::NotFound, "Note "@ + decimal(id as nat) + " not found"@) && e.detail is None
}

/// What moving a note into the profile it is in gives.
pub open spec fn is_self_transfer(e: ThecaError) -> bool {
    e.is(ErrorKind::Generic, "cannot transfer a note from a profile to itself"@) && e.detail is None
}

impl Profile {
    /// The ids of the notes are positive, and no two notes share one.
    pub open spec fn wf(&self) -> bool {
        well_formed(self@.notes)
    }

    /// A profile without notes, and the fingerprint 0 of a document that
    /// was never read.
    pub fn new(encrypted: bool) -> (r: (Profile, u64))
        ensures
            r.0@ == (ProfileView { encrypted, notes: Seq::empty() }),
            r.0.wf(),
            r.1 == 0,
    {
        let p = Profile { encrypted, notes: Vec::new() };
        assert(views(p.notes@) =~= Seq::<ItemView>::empty());
        (p, 0)
    }

    /// Removes all notes, where `yes` allows it without asking or the user
    /// has confirmed. A refusal changes nothing and is reported as
    /// `UserCancelled`.
    pub fn clear(&mut self, yes: bool, confirmed: bool) -> (r: Result<(), ThecaError>)
        ensures
            yes || confirmed ==> r is Ok && final(self)@ == (ProfileView {
                encrypted: old(self).encrypted,
                notes: Seq::empty(),
            }),
            !(yes || confirmed) ==> r is Err && is_cancelled(r->Err_0) && *final(self) == *old(
                self,
            ),
    {
        if !yes && !confirmed {
            return Err(crate::prompt::cancelled());
        }
        self.notes.truncate(0);
        assert(views(self.notes@) =~= Seq::<ItemView>::empty());
        Ok(())
    }

    /// The greatest id in use, and 0 where there is no note.
    pub fn greatest_id(&self) -> (r: usize)
        ensures
            r == max_id(self@.notes),
    {
        let ghost all = self@.notes;
        let mut r: usize = 0;
        let mut i: usize = 0;
        assert(all.take(0) =~= Seq::<ItemView>::empty());
        while i < self.notes.len()
            invariant
                i <= self.notes.len(),
                all == views(self.notes@),
                r == max_id(all.take(i as int)),
            decreases self.notes.len() - i,
        {
            proof {
                assert(all.take(i + 1).drop_last() =~= all.take(i as int));
                assert(all.take(i + 1).last() == self.notes@[i as int]@);
            }
            if self.notes[i].id >= r {
                r = self.notes[i].id;
            }
            i += 1;
        }
        assert(all.take(self.notes.len() as int) =~= all);
        r
    }

    /// The position of the first note with the id `id`.
    pub fn find_note(&self, id: usize) -> (r: Option<usize>)
        ensures
            match r {
                Some(k) => k == position_of(self@.notes, id) && k < self.notes.len()
                    && self.notes@[k as int].id == id,
                None => position_of(self@.notes, id) == self.notes.len(),
            },
    {
        let ghost all = self@.notes;
        let mut i: usize = 0;
        while i < self.notes.len()
            invariant
                i <= self.notes.len(),
                all == views(self.notes@),
                position_of(all, id) == index_of_id(all, id, i as int),
            decreases self.notes.len() - i,
        {
            if self.notes[i].id == id {
                return Some(i);
            }
            i += 1;
        }
        None
    }

    /// The position of the first note with the id `id`, or the failure
    /// that says that there is no such note.
    pub fn position(&self, id: usize) -> (r: Result<usize, ThecaError>)
        ensures
            match r {
                Ok(k) => k == position_of(self@.notes, id) && k < self.notes.len()
                    && self.notes@[k as int].id == id,
                Err(e) => position_of(self@.notes, id) == self.notes.len() && is_missing_note(
                    e,
                    id,
                ),
            },
    {
        match self.find_note(id) {
            Some(k) => Ok(k),
            None => Err(missing_note(id)),
        }
    }

    /// Adds a note at the moment `now` and returns its id: one more than
    /// the greatest id in use, so 1 in a profile without notes.
    pub fn add_note_at(&mut self, title: &str, body: &str, status: Option<Status>, now: &str) -> (id:
        usize)
        requires
            max_id(old(self)@.notes) < usize::MAX,
        ensures
            final(self)@ == (ProfileView {
                encrypted: old(self).encrypted,
                notes: old(self)@.notes.push(
                    new_note(old(self)@.notes, title@, body@, status, now@),
                ),
            }),
            id == next_id(old(self)@.notes),
            old(self).wf() ==> final(self).wf(),
    {
        proof {
            if old(self).wf() {
                lemma_new_note_keeps_well_formed(old(self)@.notes, title@, body@, status, now@);
            }
        }
        let id = self.greatest_id() + 1;
        let item = Item {
            id,
            title: without_newlines(title),
            status: match status {
                Some(s) => s,
                None => Status::Blank,
            },
            body: body.to_owned(),
            last_touched: now.to_owned(),
        };
        self.notes.push(item);
        assert(views(self.notes@) =~= old(self)@.notes.push(
            new_note(old(self)@.notes, title@, body@, status, now@),
        ));
        id
    }

    /// Adds a note whose body is the pieces of `body`, each on a line of
    /// its own, stamps it with the present moment and returns its id.
    pub fn add_note(&mut self, title: &str, body: &[String], status: Option<Status>) -> (id: usize)
        requires
            max_id(old(self)@.notes) < usize::MAX,
        ensures
            id == next_id(old(self)@.notes),
            old(self).wf() ==> final(self).wf(),
            exists|now: Seq<char>|
                final(self)@ == (ProfileView {
                    encrypted: old(self).encrypted,
                    notes: old(self)@.notes.push(
                        #[trigger] new_note(
                            old(self)@.notes,
                            title@,
                            joined(crate::mirror::texts(body@)),
                            status,
                            now,
                        ),
                    ),
                }),
    {
        let now = timestamp_now();
        let text = join_lines(body);
        self.add_note_at(title, text.as_str(), status, now.as_str())
    }

    /// Takes out the first note with the id `id`, and says whether there
    /// was one.
    fn remove_first(&mut self, id: usize) -> (found: bool)
        ensures
            final(self)@ == (ProfileView {
                encrypted: old(self).encrypted,
                notes: without(old(self)@.notes, id),
            }),
            found == (position_of(old(self)@.notes, id) < old(self)@.notes.len()),
    {
        match self.find_note(id) {
            Some(k) => {
                self.notes.remove(k);
                assert(views(self.notes@) =~= old(self)@.notes.remove(k as int));
                true
            },
            None => false,
        }
    }

    /// Takes out, for each id of `ids` in turn, the first note that has
    /// it, and says for each id whether there was one.
    pub fn delete_note(&mut self, ids: &[usize]) -> (found: Vec<bool>)
        ensures
            final(self)@ == (ProfileView {
                encrypted: old(self).encrypted,
                notes: without_all(old(self)@.notes, ids@),
            }),
            found.len() == ids.len(),
            forall|i: int|
                0 <= i < ids.len() ==> found@[i] == (position_of(
                    without_all(old(self)@.notes, ids@.take(i)),
                    #[trigger] ids@[i],
                ) < without_all(old(self)@.notes, ids@.take(i)).len()),
            old(self).wf() ==> final(self).wf(),
    {
        proof {
            if old(self).wf() {
                lemma_without_all_keeps_well_formed(old(self)@.notes, ids@);
            }
        }
        let ghost start = old(self)@.notes;
        let mut found: Vec<bool> = Vec::new();
        let mut i: usize = 0;
        assert(ids@.take(0) =~= Seq::<usize>::empty());
        while i < ids.len()
            invariant
                i <= ids.len(),
                found.len() == i,
                self.encrypted == old(self).encrypted,
                self@.notes == without_all(start, ids@.take(i as int)),
                forall|j: int|
                    0 <= j < i ==> found@[j] == (position_of(
                        without_all(start, ids@.take(j)),
                        #[trigger] ids@[j],
                    ) < without_all(start, ids@.take(j)).len()),
            decreases ids.len() - i,
        {
            proof {
                assert(ids@.take(i + 1).drop_last() =~= ids@.take(i as int));
                assert(ids@.take(i + 1).last() == ids@[i as int]);
            }
            let was_there = self.remove_first(ids[i]);
            found.push(was_there);
            i += 1;
        }
        assert(ids@.take(ids.len() as int) =~= ids@);
        found
    }

    /// Edits the first note with the id `id` at the moment `now`. Where no
    /// note has that id, nothing changes and the failure is `NotFound`.
    pub fn edit_note_at(
        &mut self,
        id: usize,
        title: &Option<String>,
        body: &Option<String>,
        status: &Option<Status>,
        now: &str,
    ) -> (r: Result<(), ThecaError>)
        ensures
            final(self).encrypted == old(self).encrypted,
            old(self).wf() ==> final(self).wf(),
            match r {
                Ok(_) => {
                    let k = position_of(old(self)@.notes, id);
                    &&& k < old(self)@.notes.len()
                    &&& final(self)@.notes == old(self)@.notes.update(
                        k,
                        edited(old(self)@.notes[k], opt_text(*title), opt_text(*body), *status, now@),
                    )
                },
                Err(e) => {
                    &&& position_of(old(self)@.notes, id) == old(self)@.notes.len()
                    &&& is_missing_note(e, id)
                    &&& *final(self) == *old(self)
                },
            },
    {
        let k = match self.position(id) {
            Ok(k) => k,
            Err(e) => {
                return Err(e);
            },
        };
        let ghost before = views(self.notes@);
        let new_title = match title {
            Some(t) => if t.as_str().is_empty() {
                self.notes[k].title.clone()
            } else {
                without_newlines(t.as_str())
            },
            None => self.notes[k].title.clone(),
        };
        let new_status = match status {
            Some(s) => *s,
            None => self.notes[k].status,
        };
        let new_body = match body {
            Some(b) => b.clone(),
            None => self.notes[k].body.clone(),
        };
        let item = Item {
            id: self.notes[k].id,
            title: new_title,
            status: new_status,
            body: new_body,
            last_touched: now.to_owned(),
        };
        self.notes.set(k, item);
        assert(views(self.notes@) =~= before.update(
            k as int,
            edited(before[k as int], opt_text(*title), opt_text(*body), *status, now@),
        ));
        Ok(())
    }

    /// Moves the first note with the id `note_id` into `target` at the
    /// moment `now`: the target gets a new note with its title, body and
    /// status, and this profile loses it. The result is the id that the
    /// note has in the target. A move within one profile, and a move of a
    /// note that is not there, change nothing.
    pub fn transfer_note_at(
        &mut self,
        note_id: usize,
        target: &mut Profile,
        target_profile_name: &str,
        current_profile_name: &str,
        now: &str,
    ) -> (r: Result<usize, ThecaError>)
        requires
            max_id(old(target)@.notes) < usize::MAX,
        ensures
            old(self).wf() ==> final(self).wf(),
            old(target).wf() ==> final(target).wf(),
            match r {
                Ok(new_id) => {
                    let k = position_of(old(self)@.notes, note_id);
                    &&& current_profile_name@ != target_profile_name@
                    &&& k < old(self)@.notes.len()
                    &&& new_id == next_id(old(target)@.notes)
                    &&& final(target)@ == (ProfileView {
                        encrypted: old(target).encrypted,
                        notes: old(target)@.notes.push(
                            new_note(
                                old(target)@.notes,
                                old(self)@.notes[k].title,
                                old(self)@.notes[k].body,
                                Some(old(self)@.notes[k].status),
                                now@,
                            ),
                        ),
                    })
                    &&& final(self)@ == (ProfileView {
                        encrypted: old(self).encrypted,
                        notes: old(self)@.notes.remove(k),
                    })
                },
                Err(e) => {
                    &&& *final(self) == *old(self)
                    &&& *final(target) == *old(target)
                    &&& if current_profile_name@ == target_profile_name@ {
                        is_self_transfer(e)
                    } else {
                        position_of(old(self)@.notes, note_id) == old(self)@.notes.len()
                            && is_note_not_found(e, note_id)
                    }
                },
            },
    {
        match check_transfer(target_profile_name, current_profile_name) {
            Ok(_) => {},
            Err(e) => {
                return Err(e);
            },
        }
        let k = match self.find_note(note_id) {
            Some(k) => k,
            None => {
                return Err(note_not_found(note_id));
            },
        };
        let ghost before = views(self.notes@);
        proof {
            if old(self).wf() {
                lemma_without_keeps_well_formed(before, note_id);
            }
        }
        let new_id = target.add_note_at(
            self.notes[k].title.as_str(),
            self.notes[k].body.as_str(),
            Some(self.notes[k].status),
            now,
        );
        self.notes.remove(k);
        assert(views(self.notes@) =~= before.remove(k as int));
        Ok(new_id)
    }

    /// Moves the first note with the id `note_id` into `target`, stamped
    /// with the present moment.
    pub fn transfer_note(
        &mut self,
        note_id: usize,
        target: &mut Profile,
        target_profile_name: &str,
        current_profile_name: &str,
    ) -> (r: Result<usize, ThecaError>)
        requires
            max_id(old(target)@.notes) < usize::MAX,
        ensures
            old(self).wf() ==> final(self).wf(),
            old(target).wf() ==> final(target).wf(),
            r is Ok <==> current_profile_name@ != target_profile_name@ && position_of(
                old(self)@.notes,
                note_id,
            ) < old(self)@.notes.len(),
            match r {
                Ok(new_id) => {
                    let k = position_of(old(self)@.notes, note_id);
                    &&& new_id == next_id(old(target)@.notes)
                    &&& final(self)@ == (ProfileView {
                        encrypted: old(self).encrypted,
                        notes: old(self)@.notes.remove(k),
                    })
                    &&& exists|now: Seq<char>|
                        final(target)@ == (ProfileView {
                            encrypted: old(target).encrypted,
                            notes: old(target)@.notes.push(
                                #[trigger] new_note(
                                    old(target)@.notes,
                                    old(self)@.notes[k].title,
                                    old(self)@.notes[k].body,
                                    Some(old(self)@.notes[k].status),
                                    now,
                                ),
                            ),
                        })
                },
                Err(e) => {
                    &&& *final(self) == *old(self)
                    &&& *final(target) == *old(target)
                    &&& if current_profile_name@ == target_profile_name@ {
                        is_self_transfer(e)
                    } else {
                        is_note_not_found(e, note_id)
                    }
                },
            },
    {
        let now = timestamp_now();
        proof {
            lemma_index_of_id(old(self)@.notes, note_id, 0);
        }
        self.transfer_note_at(
            note_id,
            target,
            target_profile_name,
            current_profile_name,
            now.as_str(),
        )
    }

    /// Edits the first note with the id `id` and stamps it with the
    /// present moment.
    pub fn edit_note(
        &mut self,
        id: usize,
        title: &Option<String>,
        body: &Option<String>,
        status: &Option<Status>,
    ) -> (r: Result<(), ThecaError>)
        ensures
            final(self).encrypted == old(self).encrypted,
            old(self).wf() ==> final(self).wf(),
            r is Ok <==> position_of(old(self)@.notes, id) < old(self)@.notes.len(),
            r is Ok ==> exists|now: Seq<char>|
                final(self)@.notes == old(self)@.notes.update(
                    position_of(old(self)@.notes, id),
                    #[trigger] edited(
                        old(self)@.notes[position_of(old(self)@.notes, id)],
                        opt_text(*title),
                        opt_text(*body),
                        *status,
                        now,
                    ),
                ),
            r is Err ==> is_missing_note(r->Err_0, id) && *final(self) == *old(self),
    {
        let now = timestamp_now();
        proof {
            lemma_index_of_id(old(self)@.notes, id, 0);
        }
        self.edit_note_at(id, title, body, status, now.as_str())
    }
}

/// Refuses to move a note into the profile it is in.
pub fn check_transfer(target_profile_name: &str, current_profile_name: &str) -> (r: Result<
    (),
    ThecaError,
>)
    ensures
        r is Ok <==> current_profile_name@ != target_profile_name@,
        r is Err ==> is_self_transfer(r->Err_0),
{
    if same_text(current_profile_name, target_profile_name) {
        Err(ThecaError::new(ErrorKind::Generic, "cannot transfer a note from a profile to itself"))
    } else {
        Ok(())
    }
}

/// The failure for an edit or a view of a note that is not there.
fn missing_note(id: usize) -> (e: ThecaError)
    ensures
        is_missing_note(e, id),
{
    let mut desc = "note ".to_owned();
    desc.append(string_of(&decimal_of(id)).as_str());
    desc.append(" doesn't exist");
    ThecaError::described(ErrorKind::NotFound, desc)
}

/// The failure for a move of a note that is not there.
fn note_not_found(id: usize) -> (e: ThecaError)
    ensures
        is_note_not_found(e, id),
{
    let mut desc = "Note ".to_owned();
    desc.append(string_of(&decimal_of(id)).as_str());
    desc.append(" not found");
    ThecaError::described(ErrorKind::NotFound, desc)
}

/// Where the body of a new note comes from.
#[derive(Clone, Copy, PartialEq, Eq, Debug, Structural)]
pub enum BodySource {
    /// It is read from standard input.
    Stdin,
    /// It is the pieces given with the command.
    Given,
    /// The user writes it in an editor.
    Editor,
    /// The note has no body.
    Empty,
}

/// Where the body of a new note comes from: standard input where that is
/// asked for; else the pieces given, unless the editor is asked for; and
/// the editor only on a terminal.
pub fn new_body_source(use_stdin: bool, use_editor: bool, tty: bool) -> (r: BodySource)
    ensures
        r == if use_stdin {
            BodySource::Stdin
        } else if !use_editor {
            BodySource::Given
        } else if tty {
            BodySource::Editor
        } else {
            BodySource::Empty
        },
{
    if use_stdin {
        BodySource::Stdin
    } else if !use_editor {
        BodySource::Given
    } else if tty {
        BodySource::Editor
    } else {
        BodySource::Empty
    }
}

/// Where the new body of an edited note comes from.
#[derive(Clone, Copy, PartialEq, Eq, Debug, Structural)]
pub enum EditBodySource {
    /// It was given with the command.
    Given,
    /// It is read from standard input.
    Stdin,
    /// The user edits the old body in an editor. Where `confirm` is set
    /// the user is asked first: the body of a note from a sealed profile
    /// would lie in a file in the clear.
    Editor { confirm: bool },
    /// The body stays as it is.
    Keep,
}

/// Where the new body of an edited note comes from: the command where it
/// gives one; else standard input where that is asked for; else the
/// editor where that is asked for on a terminal; and else the body is
/// kept.
pub fn edit_body_source(
    body_given: bool,
    use_stdin: bool,
    use_editor: bool,
    tty: bool,
    encrypted: bool,
    yes: bool,
) -> (r: EditBodySource)
    ensures
        r == if body_given {
            EditBodySource::Given
        } else if use_stdin {
            EditBodySource::Stdin
        } else if use_editor && tty {
            (EditBodySource::Editor { confirm: encrypted && !yes })
        } else {
            EditBodySource::Keep
        },
{
    if body_given {
        EditBodySource::Given
    } else if use_stdin {
        EditBodySource::Stdin
    } else if use_editor && tty {
        EditBodySource::Editor { confirm: encrypted && !yes }
    } else {
        EditBodySource::Keep
    }
}

} // verus!
