//! Choosing and ordering the notes that a command shows: counts, the
//! oldest and the newest note, filters, searches, and the text of a single
//! note.

use crate::clock::{
    instant_now, is_stamp_failure, localize_last_touched_string, parse_last_touched,
    stamp_instant,
};
use crate::errors::{ErrorKind, ThecaError};
use crate::item::{field, gap, views, Item, ItemView, Status};
use crate::lineformat::LineFormat;
use crate::profile::{is_missing_note, position_of, Profile, ProfileFlags};
use crate::text::{chars_of, decimal, decimal_of, ends_with, find, find_from, string_of};
use crate::utils::{format_field, spaces};
use regex::Regex;
use vstd::prelude::*;

verus! {

/// `Error` of regex: why a pattern does not compile.
#[verifier::external_type_specification]
#[verifier::external_body]
pub struct ExRegexError(regex::Error);

/// Whether a regular expression matches somewhere in a text.
pub uninterp spec fn regex_matches(pattern: Seq<char>, text: Seq<char>) -> bool;

/// `Regex::new` of regex on `pattern`, and `Regex::is_match` of the
/// compiled expression on each of `texts`. Where the pattern compiles,
/// the answers stand in the order of the texts, and each depends on
/// pattern and text alone. Whether a pattern compiles depends on the
/// machine as well: the compiled form must fit a limit in bytes, and its
/// size follows the width of the machine's words.
#[verifier::external_body]
fn regex_match_each(pattern: &str, texts: &Vec<String>) -> (r: Result<Vec<bool>, regex::Error>)
    ensures
        r is Ok ==> r->Ok_0.len() == texts.len() && forall|i: int|
            0 <= i < texts.len() ==> r->Ok_0@[i] == regex_matches(pattern@, #[trigger] texts@[i]@),
{
    let re = Regex::new(pattern)?;
    Ok(texts.iter().map(|t| re.is_match(t)).collect())
}

/// `Error::to_string` of regex: the sentence that says why a pattern does
/// not compile.
#[verifier::external_body]
fn regex_error_text(e: &regex::Error) -> String {
    e.to_string()
}

/// A moment: seconds since 1970 UTC, and nanoseconds.
pub type Instant = (i64, u32);

/// `a` is not later than `b`.
pub open spec fn at_most(a: Instant, b: Instant) -> bool {
    a.0 < b.0 || (a.0 == b.0 && a.1 <= b.1)
}

/// The moment by which a note is ordered: the one its time stamp names,
/// and `now` where that cannot be read.
pub open spec fn note_instant(note: ItemView, now: Instant) -> Instant {
    match stamp_instant(note.last_touched) {
        Some(t) => t,
        None => now,
    }
}

/// The number of notes with the status `status`.
pub open spec fn count_status(notes: Seq<ItemView>, status: Status) -> nat
    decreases notes.len(),
{
    if notes.len() == 0 {
        0
    } else {
        count_status(notes.drop_last(), status) + if notes.last().status == status {
            1nat
        } else {
            0nat
        }
    }
}

/// The position of the oldest note: the first of those that no note is
/// older than.
pub open spec fn is_oldest(notes: Seq<ItemView>, now: Instant, i: int) -> bool {
    &&& 0 <= i < notes.len()
    &&& forall|j: int|
        0 <= j < notes.len() ==> at_most(
            note_instant(notes[i], now),
            note_instant(#[trigger] notes[j], now),
        )
    &&& forall|j: int|
        0 <= j < i ==> !at_most(note_instant(#[trigger] notes[j], now), note_instant(notes[i], now))
}

/// The position of the newest note: the last of those that no note is
/// newer than.
pub open spec fn is_newest(notes: Seq<ItemView>, now: Instant, i: int) -> bool {
    &&& 0 <= i < notes.len()
    &&& forall|j: int|
        0 <= j < notes.len() ==> at_most(
            note_instant(#[trigger] notes[j], now),
            note_instant(notes[i], now),
        )
    &&& forall|j: int|
        i < j < notes.len() ==> !at_most(
            note_instant(notes[i], now),
            note_instant(#[trigger] notes[j], now),
        )
}

/// What a profile holds, in numbers.
#[derive(Debug)]
pub struct ProfileStats {
    /// The number of notes.
    pub notes: usize,
    /// The number of notes without a status.
    pub blank: usize,
    /// The number of notes that were started.
    pub started: usize,
    /// The number of urgent notes.
    pub urgent: usize,
    /// The position of the oldest note, where there is a note.
    pub oldest: Option<usize>,
    /// The position of the newest note, where there is a note.
    pub newest: Option<usize>,
}

/// Whether `a` is not later than `b`.
fn not_later(a: Instant, b: Instant) -> (r: bool)
    ensures
        r == at_most(a, b),
{
    a.0 < b.0 || (a.0 == b.0 && a.1 <= b.1)
}

/// The moment by which `note` is ordered.
fn instant_of(note: &Item, now: Instant) -> (r: Instant)
    ensures
        r == note_instant(note@, now),
{
    match parse_last_touched(note.last_touched.as_str()) {
        Ok(t) => t,
        Err(_) => now,
    }
}

/// The moments by which `notes` are ordered.
fn instants_of(notes: &Vec<Item>, now: Instant) -> (r: Vec<Instant>)
    ensures
        r.len() == notes.len(),
        forall|i: int| 0 <= i < notes.len() ==> r@[i] == note_instant(#[trigger] notes@[i]@, now),
{
    let mut r: Vec<Instant> = Vec::new();
    let mut i: usize = 0;
    while i < notes.len()
        invariant
            i <= notes.len(),
            r.len() == i,
            forall|j: int| 0 <= j < i ==> r@[j] == note_instant(#[trigger] notes@[j]@, now),
        decreases notes.len() - i,
    {
        r.push(instant_of(&notes[i], now));
        i += 1;
    }
    r
}

/// The notes with the status `status`, or all where none is asked for.
pub open spec fn with_status(notes: Seq<ItemView>, status: Option<Status>) -> Seq<ItemView> {
    match status {
        Some(s) => notes.filter(|n: ItemView| n.status == s),
        None => notes,
    }
}

/// `sorted` with `x` put behind the last note that is not later than it.
pub open spec fn insert_by(sorted: Seq<ItemView>, x: ItemView, now: Instant) -> Seq<ItemView>
    decreases sorted.len(),
{
    if sorted.len() == 0 {
        seq![x]
    } else if at_most(note_instant(sorted.last(), now), note_instant(x, now)) {
        sorted.push(x)
    } else {
        insert_by(sorted.drop_last(), x, now).push(sorted.last())
    }
}

/// The notes from the oldest to the newest; notes of one moment keep
/// their order.
pub open spec fn sorted_by_date(notes: Seq<ItemView>, now: Instant) -> Seq<ItemView>
    decreases notes.len(),
{
    if notes.len() == 0 {
        Seq::empty()
    } else {
        insert_by(sorted_by_date(notes.drop_last(), now), notes.last(), now)
    }
}

/// How many notes a listing shows: `limit` where that is not 0 and below
/// their number, and all of them else.
pub open spec fn shown(limit: nat, len: nat) -> nat {
    if limit != 0 && limit < len {
        limit
    } else {
        len
    }
}

/// The notes that a listing shows, in its order: those with the status
/// asked for, from the oldest to the newest where that is asked for, in
/// reverse where that is asked for, and of these the first `limit`.
pub open spec fn selected(
    notes: Seq<ItemView>,
    limit: nat,
    datesort: bool,
    reverse: bool,
    status: Option<Status>,
    now: Instant,
) -> Seq<ItemView> {
    let chosen = with_status(notes, status);
    let ordered = if datesort {
        sorted_by_date(chosen, now)
    } else {
        chosen
    };
    let turned = if reverse {
        ordered.reverse()
    } else {
        ordered
    };
    turned.take(shown(limit, chosen.len()) as int)
}

/// Putting a note in place is putting it at the position behind which
/// all notes are later and before which the next is not.
pub proof fn lemma_insert_by_position(sorted: Seq<ItemView>, x: ItemView, now: Instant, p: int)
    requires
        0 <= p <= sorted.len(),
        forall|j: int|
            p <= j < sorted.len() ==> !at_most(
                note_instant(#[trigger] sorted[j], now),
                note_instant(x, now),
            ),
        p > 0 ==> at_most(note_instant(sorted[p - 1], now), note_instant(x, now)),
    ensures
        insert_by(sorted, x, now) == sorted.insert(p, x),
    decreases sorted.len(),
{
    if sorted.len() == 0 {
        assert(seq![x] =~= sorted.insert(p, x));
    } else if p == sorted.len() {
        assert(sorted.push(x) =~= sorted.insert(p, x));
    } else {
        lemma_insert_by_position(sorted.drop_last(), x, now, p);
        assert(sorted.drop_last().insert(p, x).push(sorted.last()) =~= sorted.insert(p, x));
    }
}

/// Ordering notes neither adds nor loses one.
pub proof fn lemma_sorted_by_date_len(notes: Seq<ItemView>, now: Instant)
    ensures
        sorted_by_date(notes, now).len() == notes.len(),
        sorted_by_date(notes, now).to_multiset() == notes.to_multiset(),
    decreases notes.len(),
{
    broadcast use vstd::seq_lib::group_to_multiset_ensures;

    if notes.len() > 0 {
        let front = sorted_by_date(notes.drop_last(), now);
        lemma_sorted_by_date_len(notes.drop_last(), now);
        lemma_insert_by_keeps(front, notes.last(), now);
        assert(notes.drop_last().push(notes.last()) =~= notes);
    }
}

/// Putting a note in place adds that note and nothing else.
pub proof fn lemma_insert_by_keeps(sorted: Seq<ItemView>, x: ItemView, now: Instant)
    ensures
        insert_by(sorted, x, now).len() == sorted.len() + 1,
        insert_by(sorted, x, now).to_multiset() == sorted.to_multiset().insert(x),
    decreases sorted.len(),
{
    broadcast use vstd::seq_lib::group_to_multiset_ensures;

    if sorted.len() == 0 {
        assert(seq![x] =~= sorted.push(x));
    } else if at_most(note_instant(sorted.last(), now), note_instant(x, now)) {
    } else {
        lemma_insert_by_keeps(sorted.drop_last(), x, now);
        assert(sorted.drop_last().push(sorted.last()) =~= sorted);
        assert(sorted.drop_last().to_multiset().insert(x).insert(sorted.last())
            =~= sorted.drop_last().to_multiset().insert(sorted.last()).insert(x));
    }
}

/// No note stands before an older one.
pub open spec fn is_ordered(notes: Seq<ItemView>, now: Instant) -> bool {
    forall|i: int, j: int|
        0 <= i < j < notes.len() ==> at_most(
            note_instant(#[trigger] notes[i], now),
            note_instant(#[trigger] notes[j], now),
        )
}

/// Putting a note in place keeps the order.
pub proof fn lemma_insert_by_ordered(sorted: Seq<ItemView>, x: ItemView, now: Instant)
    requires
        is_ordered(sorted, now),
    ensures
        is_ordered(insert_by(sorted, x, now), now),
        forall|k: int|
            0 <= k < insert_by(sorted, x, now).len() ==> #[trigger] insert_by(sorted, x, now)[k]
                == x || sorted.contains(insert_by(sorted, x, now)[k]),
    decreases sorted.len(),
{
    let after = insert_by(sorted, x, now);
    if sorted.len() == 0 {
    } else if at_most(note_instant(sorted.last(), now), note_instant(x, now)) {
        assert forall|i: int, j: int| 0 <= i < j < after.len() implies at_most(
            note_instant(#[trigger] after[i], now),
            note_instant(#[trigger] after[j], now),
        ) by {
            if j == sorted.len() {
                if i < sorted.len() - 1 {
                    assert(at_most(
                        note_instant(sorted[i], now),
                        note_instant(sorted[sorted.len() - 1], now),
                    ));
                }
            }
        }
        assert forall|k: int| 0 <= k < after.len() implies #[trigger] after[k] == x
            || sorted.contains(after[k]) by {
            if k < sorted.len() {
                assert(sorted[k] == after[k]);
            }
        }
    } else {
        let front = sorted.drop_last();
        assert(is_ordered(front, now)) by {
            assert forall|i: int, j: int| 0 <= i < j < front.len() implies at_most(
                note_instant(#[trigger] front[i], now),
                note_instant(#[trigger] front[j], now),
            ) by {
                assert(front[i] == sorted[i] && front[j] == sorted[j]);
            }
        }
        lemma_insert_by_ordered(front, x, now);
        let mid = insert_by(front, x, now);
        lemma_insert_by_keeps(front, x, now);
        assert forall|i: int, j: int| 0 <= i < j < after.len() implies at_most(
            note_instant(#[trigger] after[i], now),
            note_instant(#[trigger] after[j], now),
        ) by {
            if j == after.len() - 1 {
                assert(after[i] == mid[i]);
                if mid[i] == x {
                } else {
                    assert(front.contains(mid[i]));
                    let m = choose|m: int| 0 <= m < front.len() && front[m] == mid[i];
                    assert(sorted[m] == mid[i]);
                    assert(at_most(
                        note_instant(sorted[m], now),
                        note_instant(sorted[sorted.len() - 1], now),
                    ));
                }
            } else {
                assert(after[i] == mid[i] && after[j] == mid[j]);
            }
        }
        assert forall|k: int| 0 <= k < after.len() implies #[trigger] after[k] == x
            || sorted.contains(after[k]) by {
            if k < mid.len() {
                assert(after[k] == mid[k]);
                if mid[k] != x {
                    let m = choose|m: int| 0 <= m < front.len() && front[m] == mid[k];
                    assert(sorted[m] == mid[k]);
                }
            } else {
                assert(after[k] == sorted[sorted.len() - 1]);
            }
        }
    }
}

/// Notes ordered by date stand from the oldest to the newest.
pub proof fn lemma_sorted_by_date_ordered(notes: Seq<ItemView>, now: Instant)
    ensures
        is_ordered(sorted_by_date(notes, now), now),
    decreases notes.len(),
{
    if notes.len() > 0 {
        lemma_sorted_by_date_ordered(notes.drop_last(), now);
        lemma_insert_by_ordered(sorted_by_date(notes.drop_last(), now), notes.last(), now);
    }
}

/// The notes that have the status `status`, or all where none is asked
/// for.
fn notes_with_status(notes: &Vec<Item>, status: Option<Status>) -> (r: Vec<Item>)
    ensures
        views(r@) == with_status(views(notes@), status),
{
    let ghost all = views(notes@);
    let mut r: Vec<Item> = Vec::new();
    let mut i: usize = 0;
    match status {
        None => {
            while i < notes.len()
                invariant
                    i <= notes.len(),
                    r.len() == i,
                    forall|j: int| 0 <= j < i ==> r@[j]@ == notes@[j]@,
                decreases notes.len() - i,
            {
                r.push(notes[i].clone());
                i += 1;
            }
            assert(views(r@) =~= all);
        },
        Some(s) => {
            let ghost keep = |n: ItemView| n.status == s;
            proof {
                reveal(Seq::filter);
                assert(all.take(0) =~= Seq::<ItemView>::empty());
                assert(views(r@) =~= all.take(0).filter(keep));
            }
            while i < notes.len()
                invariant
                    i <= notes.len(),
                    all == views(notes@),
                    keep == |n: ItemView| n.status == s,
                    views(r@) == all.take(i as int).filter(keep),
                decreases notes.len() - i,
            {
                let note = &notes[i];
                proof {
                    assert(all.take(i + 1) =~= all.take(i as int).push(note@));
                    all.take(i as int).lemma_filter_push(note@, keep);
                }
                let ghost before = views(r@);
                if note.status == s {
                    r.push(note.clone());
                    assert(views(r@) =~= before.push(note@));
                }
                i += 1;
            }
            assert(all.take(notes.len() as int) =~= all);
        },
    }
    r
}

/// The notes from the oldest to the newest.
fn sort_by_date(notes: Vec<Item>, now: Instant) -> (r: Vec<Item>)
    ensures
        views(r@) == sorted_by_date(views(notes@), now),
{
    let ghost all = views(notes@);
    let keys = instants_of(&notes, now);
    let mut out: Vec<Item> = Vec::new();
    let mut out_keys: Vec<Instant> = Vec::new();
    let mut i: usize = 0;
    assert(all.take(0) =~= Seq::<ItemView>::empty());
    assert(views(out@) =~= sorted_by_date(all.take(0), now));
    while i < notes.len()
        invariant
            i <= notes.len(),
            all == views(notes@),
            keys.len() == notes.len(),
            forall|j: int|
                0 <= j < notes.len() ==> keys@[j] == note_instant(#[trigger] notes@[j]@, now),
            out.len() == out_keys.len(),
            forall|j: int|
                0 <= j < out.len() ==> out_keys@[j] == note_instant(#[trigger] out@[j]@, now),
            views(out@) == sorted_by_date(all.take(i as int), now),
        decreases notes.len() - i,
    {
        let key = keys[i];
        let ghost sorted = views(out@);
        let ghost x = notes@[i as int]@;
        let mut p: usize = out.len();
        while p > 0 && !not_later(out_keys[p - 1], key)
            invariant
                p <= out.len(),
                out.len() == out_keys.len(),
                sorted == views(out@),
                key == note_instant(x, now),
                forall|j: int|
                    0 <= j < out.len() ==> out_keys@[j] == note_instant(#[trigger] out@[j]@, now),
                forall|j: int|
                    p <= j < sorted.len() ==> !at_most(
                        note_instant(#[trigger] sorted[j], now),
                        note_instant(x, now),
                    ),
            decreases p,
        {
            assert(sorted[p - 1] == out@[p - 1]@);
            p -= 1;
        }
        proof {
            if p > 0 {
                assert(sorted[p - 1] == out@[p - 1]@);
            }
            lemma_insert_by_position(sorted, x, now, p as int);
            assert(all.take(i + 1).drop_last() =~= all.take(i as int));
            assert(all.take(i + 1).last() == x);
        }
        out.insert(p, notes[i].clone());
        out_keys.insert(p, key);
        assert(views(out@) =~= sorted.insert(p as int, x));
        i += 1;
    }
    assert(all.take(notes.len() as int) =~= all);
    out
}

/// The notes in reverse.
fn reversed(notes: Vec<Item>) -> (r: Vec<Item>)
    ensures
        views(r@) == views(notes@).reverse(),
{
    let mut r: Vec<Item> = Vec::new();
    let mut i: usize = notes.len();
    while i > 0
        invariant
            i <= notes.len(),
            r.len() == notes.len() - i,
            forall|j: int| 0 <= j < r.len() ==> r@[j]@ == notes@[notes.len() - 1 - j]@,
        decreases i,
    {
        i -= 1;
        r.push(notes[i].clone());
    }
    assert(views(r@) =~= views(notes@).reverse());
    r
}

/// The notes that a listing of `notes` shows at the moment `now`.
pub fn select_notes(
    notes: &Vec<Item>,
    limit: usize,
    flags: &ProfileFlags,
    status: Option<Status>,
    now: Instant,
) -> (r: Vec<Item>)
    ensures
        views(r@) == selected(
            views(notes@),
            limit as nat,
            flags.datesort,
            flags.reverse,
            status,
            now,
        ),
{
    let chosen = notes_with_status(notes, status);
    let ghost chosen_view = views(chosen@);
    let count = chosen.len();
    let n = if limit != 0 && limit < count {
        limit
    } else {
        count
    };
    proof {
        lemma_sorted_by_date_len(chosen_view, now);
    }
    let ordered = if flags.datesort {
        sort_by_date(chosen, now)
    } else {
        chosen
    };
    let mut turned = if flags.reverse {
        reversed(ordered)
    } else {
        ordered
    };
    let ghost whole = views(turned@);
    assert(whole.len() == count);
    turned.truncate(n);
    assert(views(turned@) =~= whole.take(n as int));
    turned
}

/// Whether `pattern` stands somewhere in `text`.
pub open spec fn holds_text(text: Seq<char>, pattern: Seq<char>) -> bool {
    find_from(text, pattern, 0) is Some
}

/// What a note is searched in: its body where the bodies are searched,
/// and its title else.
pub open spec fn searched_text(note: ItemView, search_body: bool) -> Seq<char> {
    if search_body {
        note.body
    } else {
        note.title
    }
}

/// Whether a search finds a note: its text holds the pattern, or where the
/// pattern is a regular expression, that matches in it.
pub open spec fn is_hit(note: ItemView, pattern: Seq<char>, regex: bool, search_body: bool) -> bool {
    if regex {
        regex_matches(pattern, searched_text(note, search_body))
    } else {
        holds_text(searched_text(note, search_body), pattern)
    }
}

/// The notes that a search finds, in their order.
pub open spec fn hits(
    notes: Seq<ItemView>,
    pattern: Seq<char>,
    regex: bool,
    search_body: bool,
) -> Seq<ItemView> {
    notes.filter(|n: ItemView| is_hit(n, pattern, regex, search_body))
}

/// What a search gives for a pattern that is no regular expression: the
/// detail is the sentence that says why, ended by a full stop.
pub open spec fn is_regex_failure(e: ThecaError) -> bool {
    e.is(ErrorKind::Generic, "regex error"@) && e.detail is Some && ends_with(
        e.detail->Some_0@,
        "."@,
    )
}

/// Of `notes`, those that `hits` marks, in their order; none where `hits`
/// is not as long as `notes`.
pub open spec fn picked(notes: Seq<ItemView>, hits: Seq<bool>) -> Seq<ItemView>
    decreases notes.len(),
{
    if notes.len() == 0 || hits.len() != notes.len() {
        Seq::empty()
    } else if hits.last() {
        picked(notes.drop_last(), hits.drop_last()).push(notes.last())
    } else {
        picked(notes.drop_last(), hits.drop_last())
    }
}

/// Marks that say of each note whether it is kept pick the notes that are
/// kept.
pub proof fn lemma_picked_is_filter(
    notes: Seq<ItemView>,
    hits: Seq<bool>,
    keep: spec_fn(ItemView) -> bool,
)
    requires
        hits.len() == notes.len(),
        forall|j: int| 0 <= j < notes.len() ==> hits[j] == keep(#[trigger] notes[j]),
    ensures
        picked(notes, hits) == notes.filter(keep),
    decreases notes.len(),
{
    reveal(Seq::filter);
    if notes.len() > 0 {
        assert forall|j: int| 0 <= j < notes.len() - 1 implies hits.drop_last()[j] == keep(
            #[trigger] notes.drop_last()[j],
        ) by {
            assert(notes.drop_last()[j] == notes[j]);
        }
        lemma_picked_is_filter(notes.drop_last(), hits.drop_last(), keep);
        assert(hits.last() == keep(notes[notes.len() - 1]));
    }
}

/// Of `notes`, those that `hits` marks: what a search shows once each
/// note was held against the pattern.
pub fn pick_notes(notes: &Vec<Item>, hits: &Vec<bool>) -> (r: Vec<Item>)
    ensures
        views(r@) == picked(views(notes@), hits@),
{
    let ghost all = views(notes@);
    let mut r: Vec<Item> = Vec::new();
    if hits.len() != notes.len() {
        assert(views(r@) =~= Seq::<ItemView>::empty());
        return r;
    }
    let mut i: usize = 0;
    assert(views(r@) =~= picked(all.take(0), hits@.take(0)));
    while i < notes.len()
        invariant
            i <= notes.len(),
            hits.len() == notes.len(),
            all == views(notes@),
            views(r@) == picked(all.take(i as int), hits@.take(i as int)),
        decreases notes.len() - i,
    {
        let note = &notes[i];
        proof {
            assert(all.take(i + 1).drop_last() =~= all.take(i as int));
            assert(hits@.take(i + 1).drop_last() =~= hits@.take(i as int));
            assert(all.take(i + 1).last() == note@);
            assert(hits@.take(i + 1).last() == hits@[i as int]);
        }
        let ghost before = views(r@);
        if hits[i] {
            r.push(note.clone());
            assert(views(r@) =~= before.push(note@));
        }
        i += 1;
    }
    assert(all.take(notes.len() as int) =~= all);
    assert(hits@.take(notes.len() as int) =~= hits@);
    r
}

/// The notes that a search for `pattern` finds, in their order. A pattern
/// that is to be a regular expression and does not compile is refused;
/// else each note is held against the pattern, and `pick_notes` takes those
/// that it hits.
pub fn find_notes(notes: &Vec<Item>, pattern: &str, regex: bool, search_body: bool) -> (r: Result<
    Vec<Item>,
    ThecaError,
>)
    ensures
        !regex ==> r is Ok,
        r is Ok ==> views(r->Ok_0@) == hits(views(notes@), pattern@, regex, search_body),
        r is Err ==> is_regex_failure(r->Err_0),
{
    let ghost all = views(notes@);
    let ghost hit = |n: ItemView| is_hit(n, pattern@, regex, search_body);
    let mut hits: Vec<bool> = Vec::new();
    if regex {
        let mut texts: Vec<String> = Vec::new();
        let mut i: usize = 0;
        while i < notes.len()
            invariant
                i <= notes.len(),
                texts.len() == i,
                forall|j: int|
                    0 <= j < i ==> texts@[j]@ == searched_text(#[trigger] notes@[j]@, search_body),
            decreases notes.len() - i,
        {
            if search_body {
                texts.push(notes[i].body.clone());
            } else {
                texts.push(notes[i].title.clone());
            }
            i += 1;
        }
        hits = match regex_match_each(pattern, &texts) {
            Ok(h) => h,
            Err(e) => {
                let mut why = regex_error_text(&e);
                why.append(".");
                proof {
                    reveal_strlit(".");
                    assert(why@.subrange(why@.len() - 1, why@.len() as int) =~= "."@);
                }
                return Err(ThecaError::with_detail(ErrorKind::Generic, "regex error", why));
            },
        };
        assert forall|j: int| 0 <= j < notes.len() implies hits@[j] == hit(
            #[trigger] notes@[j]@,
        ) by {
            assert(hits@[j] == regex_matches(pattern@, texts@[j]@));
        }
    } else {
        let needle = chars_of(pattern);
        let mut i: usize = 0;
        while i < notes.len()
            invariant
                i <= notes.len(),
                hits.len() == i,
                needle@ == pattern@,
                !regex,
                hit == |n: ItemView| is_hit(n, pattern@, regex, search_body),
                forall|j: int| 0 <= j < i ==> hits@[j] == hit(#[trigger] notes@[j]@),
            decreases notes.len() - i,
        {
            let text = if search_body {
                chars_of(notes[i].body.as_str())
            } else {
                chars_of(notes[i].title.as_str())
            };
            hits.push(find(&text, &needle, 0).is_some());
            i += 1;
        }
    }
    proof {
        lemma_picked_is_filter(all, hits@, hit);
    }
    Ok(pick_notes(notes, &hits))
}

impl Profile {
    /// The counts of the profile's notes, and its oldest and newest note
    /// at the moment `now`.
    pub fn stats_at(&self, now: Instant) -> (r: ProfileStats)
        ensures
            r.notes == self@.notes.len(),
            r.blank == count_status(self@.notes, Status::Blank),
            r.started == count_status(self@.notes, Status::Started),
            r.urgent == count_status(self@.notes, Status::Urgent),
            self@.notes.len() == 0 ==> r.oldest is None && r.newest is None,
            self@.notes.len() > 0 ==> r.oldest is Some && r.newest is Some && is_oldest(
                self@.notes,
                now,
                r.oldest->Some_0 as int,
            ) && is_newest(self@.notes, now, r.newest->Some_0 as int),
    {
        let ghost all = self@.notes;
        let keys = instants_of(&self.notes, now);
        let mut blank: usize = 0;
        let mut started: usize = 0;
        let mut urgent: usize = 0;
        let mut oldest: usize = 0;
        let mut newest: usize = 0;
        let mut i: usize = 0;
        assert(all.take(0) =~= Seq::<ItemView>::empty());
        while i < self.notes.len()
            invariant
                i <= self.notes.len(),
                all == views(self.notes@),
                keys.len() == self.notes.len(),
                forall|j: int| 0 <= j < all.len() ==> keys@[j] == note_instant(#[trigger] all[j], now),
                blank == count_status(all.take(i as int), Status::Blank),
                started == count_status(all.take(i as int), Status::Started),
                urgent == count_status(all.take(i as int), Status::Urgent),
                blank <= i && started <= i && urgent <= i,
                i > 0 ==> is_oldest(all.take(i as int), now, oldest as int) && is_newest(
                    all.take(i as int),
                    now,
                    newest as int,
                ),
                i == 0 ==> oldest == 0 && newest == 0,
            decreases self.notes.len() - i,
        {
            let ghost seen = all.take(i as int);
            let ghost more = all.take(i + 1);
            proof {
                assert(more.drop_last() =~= seen);
                assert(more.last() == all[i as int]);
                assert(forall|j: int| 0 <= j < i ==> more[j] == seen[j]);
            }
            match self.notes[i].status {
                Status::Blank => {
                    blank += 1;
                },
                Status::Started => {
                    started += 1;
                },
                Status::Urgent => {
                    urgent += 1;
                },
                Status::Done => {},
            }
            if i > 0 {
                if !not_later(keys[oldest], keys[i]) {
                    oldest = i;
                }
                if not_later(keys[newest], keys[i]) {
                    newest = i;
                }
            }
            proof {
                assert(keys@[i as int] == note_instant(all[i as int], now));
                assert(is_oldest(more, now, oldest as int)) by {
                    assert(more[oldest as int] == all[oldest as int]);
                    assert forall|j: int| 0 <= j < more.len() implies at_most(
                        note_instant(more[oldest as int], now),
                        note_instant(#[trigger] more[j], now),
                    ) by {
                        if j < i && i > 0 {
                            assert(more[j] == seen[j]);
                        }
                    }
                    assert forall|j: int| 0 <= j < oldest implies !at_most(
                        note_instant(#[trigger] more[j], now),
                        note_instant(more[oldest as int], now),
                    ) by {
                        assert(more[j] == seen[j]);
                    }
                }
                assert(is_newest(more, now, newest as int)) by {
                    assert(more[newest as int] == all[newest as int]);
                    assert forall|j: int| 0 <= j < more.len() implies at_most(
                        note_instant(#[trigger] more[j], now),
                        note_instant(more[newest as int], now),
                    ) by {
                        if j < i && i > 0 {
                            assert(more[j] == seen[j]);
                        }
                    }
                    assert forall|j: int| newest < j < more.len() implies !at_most(
                        note_instant(more[newest as int], now),
                        note_instant(#[trigger] more[j], now),
                    ) by {
                        if j < i {
                            assert(more[j] == seen[j]);
                        }
                    }
                }
            }
            i += 1;
        }
        assert(all.take(self.notes.len() as int) =~= all);
        let some = self.notes.len() > 0;
        ProfileStats {
            notes: self.notes.len(),
            blank,
            started,
            urgent,
            oldest: if some {
                Some(oldest)
            } else {
                None
            },
            newest: if some {
                Some(newest)
            } else {
                None
            },
        }
    }

    /// The counts of the profile's notes, and its oldest and newest note.
    /// A note whose time stamp cannot be read counts as touched at the
    /// present moment.
    pub fn stats(&self) -> (r: ProfileStats)
        ensures
            r.notes == self@.notes.len(),
            r.blank == count_status(self@.notes, Status::Blank),
            r.started == count_status(self@.notes, Status::Started),
            r.urgent == count_status(self@.notes, Status::Urgent),
            r.oldest is Some <==> self@.notes.len() > 0,
            r.newest is Some <==> self@.notes.len() > 0,
            self@.notes.len() > 0 ==> exists|now: Instant| #[trigger]
                is_oldest(self@.notes, now, r.oldest->Some_0 as int) && is_newest(
                    self@.notes,
                    now,
                    r.newest->Some_0 as int,
                ),
    {
        let now = instant_now();
        self.stats_at(now)
    }

    /// The notes that a listing of the profile shows.
    pub fn list_notes(&self, limit: usize, flags: &ProfileFlags, status: Option<Status>) -> (r: Vec<
        Item,
    >)
        ensures
            exists|now: Instant|
                views(r@) == #[trigger] selected(
                    self@.notes,
                    limit as nat,
                    flags.datesort,
                    flags.reverse,
                    status,
                    now,
                ),
    {
        let now = instant_now();
        let r = select_notes(&self.notes, limit, flags, status, now);
        assert(views(r@) == selected(
            self@.notes,
            limit as nat,
            flags.datesort,
            flags.reverse,
            status,
            now,
        ));
        r
    }

    /// The notes that a search of the profile for `pattern` shows: those
    /// that the search finds, chosen and ordered as in a listing.
    pub fn search_notes(
        &self,
        pattern: &str,
        limit: usize,
        flags: &ProfileFlags,
        status: Option<Status>,
    ) -> (r: Result<Vec<Item>, ThecaError>)
        ensures
            !flags.regex ==> r is Ok,
            r is Ok ==> exists|now: Instant|
                views(r->Ok_0@) == #[trigger] selected(
                    hits(self@.notes, pattern@, flags.regex, flags.search_body),
                    limit as nat,
                    flags.datesort,
                    flags.reverse,
                    status,
                    now,
                ),
            r is Err ==> is_regex_failure(r->Err_0),
    {
        let found = match find_notes(&self.notes, pattern, flags.regex, flags.search_body) {
            Ok(found) => found,
            Err(e) => {
                return Err(e);
            },
        };
        let now = instant_now();
        let r = select_notes(&found, limit, flags, status, now);
        assert(views(r@) == selected(
            hits(self@.notes, pattern@, flags.regex, flags.search_body),
            limit as nat,
            flags.datesort,
            flags.reverse,
            status,
            now,
        ));
        Ok(r)
    }
}

/// A label and the text under it, as plain values.
pub open spec fn pairs(lines: Seq<(String, String)>) -> Seq<(Seq<char>, Seq<char>)> {
    Seq::new(lines.len(), |i: int| (lines[i].0@, lines[i].1@))
}

/// One entry of a note's full view: in the condensed form the label, a
/// colon and the value on one line; in the long form the label underlined
/// and the value below it, followed by an empty line.
pub open spec fn entry(label: Seq<char>, rule: Seq<char>, value: Seq<char>, condensed: bool) -> (
    Seq<char>,
    Seq<char>,
) {
    if condensed {
        (label + ": "@, value + "\n"@)
    } else {
        (label + "\n"@ + rule + "\n"@, value + "\n\n"@)
    }
}

/// The full view of a note: its id, its title, its status unless that is
/// blank, its time stamp as `touched` shows it, and its body unless that
/// is empty. Each entry is a label, which is shown in bold, and a text.
pub open spec fn view_entries(item: ItemView, condensed: bool, touched: Seq<char>) -> Seq<
    (Seq<char>, Seq<char>),
> {
    seq![
        entry("id"@, "--"@, decimal(item.id as nat), condensed),
        entry("title"@, "-----"@, item.title, condensed),
    ] + if item.status != Status::Blank {
        seq![entry("status"@, "------"@, item.status.text(), condensed)]
    } else {
        Seq::empty()
    } + seq![entry("last touched"@, "------------"@, touched, condensed)] + if item.body.len() > 0 {
        seq![entry("body"@, "----"@, item.body, condensed)]
    } else {
        Seq::empty()
    }
}

/// One entry of a note's full view.
fn make_entry(label: &str, rule: &str, value: &str, condensed: bool) -> (r: (String, String))
    ensures
        (r.0@, r.1@) == entry(label@, rule@, value@, condensed),
{
    let mut bold = label.to_owned();
    let mut plain = value.to_owned();
    if condensed {
        bold.append(": ");
        plain.append("\n");
    } else {
        bold.append("\n");
        bold.append(rule);
        bold.append("\n");
        plain.append("\n\n");
    }
    (bold, plain)
}

/// The full view of `item`, with `touched` as its time stamp.
pub fn view_item(item: &Item, condensed: bool, touched: &str) -> (r: Vec<(String, String)>)
    ensures
        pairs(r@) == view_entries(item@, condensed, touched@),
{
    let mut r: Vec<(String, String)> = Vec::new();
    let id = string_of(&decimal_of(item.id));
    r.push(make_entry("id", "--", id.as_str(), condensed));
    r.push(make_entry("title", "-----", item.title.as_str(), condensed));
    if item.status != Status::Blank {
        r.push(make_entry("status", "------", item.status.label(), condensed));
    }
    r.push(make_entry("last touched", "------------", touched, condensed));
    if !item.body.as_str().is_empty() {
        r.push(make_entry("body", "----", item.body.as_str(), condensed));
    }
    assert(pairs(r@) =~= view_entries(item@, condensed, touched@));
    r
}

/// `n` hyphens.
pub open spec fn dashes(n: nat) -> Seq<char> {
    Seq::new(n, |i: int| '-')
}

/// The head of a listing: the names of the columns in their widths, and
/// under them a rule as wide as a line.
pub open spec fn header_text(format: LineFormat) -> Seq<char> {
    field("id"@, format.id_width as nat, false) + spaces(format.colsep as nat) + field(
        "title"@,
        format.title_width as nat,
        false,
    ) + spaces(format.colsep as nat) + if format.status_width == 0 {
        Seq::empty()
    } else {
        field("status"@, format.status_width as nat, false) + spaces(format.colsep as nat)
    } + field("last touched"@, format.touched_width as nat, false) + seq!['\n'] + dashes(
        (format.id_width + format.title_width + format.status_width + format.touched_width + 3
            * format.colsep) as nat,
    ) + seq!['\n']
}

/// The head of a listing with the columns of `format`.
pub fn header(format: &LineFormat) -> (r: String)
    requires
        format.wf(),
    ensures
        r@ == header_text(*format),
{
    let sep = gap(format.colsep);
    let mut line = format_field("id", format.id_width, false);
    line.append(sep.as_str());
    line.append(format_field("title", format.title_width, false).as_str());
    line.append(sep.as_str());
    if format.status_width != 0 {
        line.append(format_field("status", format.status_width, false).as_str());
        line.append(sep.as_str());
    }
    line.append(format_field("last touched", format.touched_width, false).as_str());
    line.append("\n");
    let width = format.line_width();
    let mut rule: Vec<char> = Vec::new();
    let mut i: usize = 0;
    while i < width
        invariant
            i <= width,
            rule@ == dashes(i as nat),
        decreases width - i,
    {
        rule.push('-');
        assert(rule@ =~= dashes((i + 1) as nat));
        i += 1;
    }
    line.append(string_of(&rule).as_str());
    line.append("\n");
    proof {
        reveal_strlit("\n");
        assert("\n"@ =~= seq!['\n']);
        assert(line@ =~= header_text(*format));
    }
    line
}

impl Profile {
    /// The full view of the first note with the id `id`, its time stamp
    /// shown in the machine's time zone. It fails with `NotFound` where no
    /// note has the id, and where the note's time stamp cannot be read.
    pub fn view_note(&self, id: usize, condensed: bool) -> (r: Result<
        Vec<(String, String)>,
        ThecaError,
    >)
        ensures
            match r {
                Ok(lines) => {
                    let k = position_of(self@.notes, id);
                    &&& k < self@.notes.len()
                    &&& stamp_instant(self@.notes[k].last_touched) is Some
                    &&& exists|touched: Seq<char>|
                        pairs(lines@) == #[trigger] view_entries(self@.notes[k], condensed, touched)
                },
                Err(e) => {
                    let k = position_of(self@.notes, id);
                    if k < self@.notes.len() {
                        stamp_instant(self@.notes[k].last_touched) is None && is_stamp_failure(e)
                    } else {
                        is_missing_note(e, id)
                    }
                },
            },
    {
        proof {
            crate::profile::lemma_index_of_id(self@.notes, id, 0);
        }
        let k = match self.position(id) {
            Ok(k) => k,
            Err(e) => {
                return Err(e);
            },
        };
        let touched = match localize_last_touched_string(self.notes[k].last_touched.as_str()) {
            Ok(t) => t,
            Err(e) => {
                return Err(e);
            },
        };
        Ok(view_item(&self.notes[k], condensed, touched.as_str()))
    }
}

} // verus!
