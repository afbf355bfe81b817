//! What is written is read back: a note's mirror file gives the note
//! again, and the mirror files of a profile, taken in, leave the notes as
//! they are.

use crate::item::{ItemView, Status};
use crate::mirror::{
    apply_line, front_matter_fields, is_mirror_name, mirror_content, mirror_id, mirror_name,
    mirror_of, mirrors_of, no_fields, scan_fields, split_front_matter, status_field,
    FrontMatterView, MirrorFileView,
};
use crate::profile::{ids_unique, lemma_index_of_id, position_of};
use crate::sync::{
    absorbed_all, imported, is_seen, mirrors_among, promoted, reconciled, retained,
};
use crate::text::{
    all_digits, decimal, digit_char, digit_value, digits_number, ends_with, find_from,
    index_of_char, is_digit, line_stop, matches_at, parse_number, unsigned_part,
};
use crate::utils::{trim_start, trimmed, white_space};
use vstd::prelude::*;

verus! {

/// A number written in base ten is read as that number.
pub proof fn lemma_decimal_reads_back(n: nat)
    requires
        n <= usize::MAX,
    ensures
        decimal(n).len() > 0,
        all_digits(decimal(n)),
        digits_number(decimal(n)) == n,
        parse_number(decimal(n)) == Some(n as usize),
    decreases n,
{
    let d = decimal(n);
    if n < 10 {
        assert(d =~= seq![digit_char(n)]);
        assert(d.drop_last() =~= Seq::<char>::empty());
        assert(digits_number(d.drop_last()) == 0);
        assert(digit_value(digit_char(n)) == n);
    } else {
        lemma_decimal_reads_back(n / 10);
        let front = decimal(n / 10);
        let last = digit_char(n % 10);
        assert(d == front.push(last));
        assert(d.drop_last() =~= front);
        assert(digit_value(last) == n % 10);
        assert forall|i: int| 0 <= i < d.len() implies is_digit(#[trigger] d[i]) by {
            if i < front.len() {
                assert(d[i] == front[i]);
            }
        }
    }
    assert(is_digit(d[0]));
    assert(unsigned_part(d) == d);
}

/// The first place at which a pattern stands is the place before which it
/// stands nowhere.
pub proof fn lemma_find_from_is(s: Seq<char>, pat: Seq<char>, from: int, at: int)
    requires
        0 <= from <= at,
        matches_at(s, pat, at),
        forall|i: int| from <= i < at ==> !matches_at(s, pat, i),
    ensures
        find_from(s, pat, from) == Some(at),
    decreases at - from,
{
    if from < at {
        lemma_find_from_is(s, pat, from + 1, at);
    }
}

/// The first place that holds a character is the place before which none
/// holds it.
pub proof fn lemma_index_of_char_is(s: Seq<char>, c: char, from: int, at: int)
    requires
        0 <= from <= at <= s.len(),
        forall|i: int| from <= i < at ==> s[i] != c,
        at < s.len() ==> s[at] == c,
    ensures
        index_of_char(s, c, from) == at,
    decreases at - from,
{
    if from < at {
        lemma_index_of_char_is(s, c, from + 1, at);
    }
}

/// Reading a text from the beginning of one of its lines on is applying
/// that line and reading on behind it.
pub proof fn lemma_scan_one_line(s: Seq<char>, from: int, line: Seq<char>, acc: FrontMatterView)
    requires
        0 <= from,
        from + line.len() < s.len(),
        s.subrange(from, from + line.len()) == line,
        s[from + line.len()] == '\n',
        forall|i: int| 0 <= i < line.len() ==> line[i] != '\n',
        line.len() > 0 ==> line.last() != '\r',
    ensures
        scan_fields(s, from, acc) == scan_fields(s, from + line.len() + 1, apply_line(acc, line)),
{
    let end = from + line.len();
    assert forall|i: int| from <= i < end implies s[i] != '\n' by {
        assert(s[i] == s.subrange(from, end)[i - from]);
    }
    lemma_index_of_char_is(s, '\n', from, end);
    if line.len() > 0 {
        assert(s[end - 1] == s.subrange(from, end)[line.len() - 1]);
    }
    assert(line_stop(s, from, end) == end);
}

/// The line of a note's front matter that gives its id.
pub open spec fn id_line(note: ItemView) -> Seq<char> {
    "id: "@ + decimal(note.id as nat)
}

/// The line of a note's front matter that gives its title.
pub open spec fn title_line(note: ItemView) -> Seq<char> {
    "title: "@ + note.title
}

/// The line of a note's front matter that gives its status.
pub open spec fn status_line(note: ItemView) -> Seq<char> {
    "status: "@ + note.status.text()
}

/// The line of a note's front matter that gives its time stamp.
pub open spec fn touched_line(note: ItemView) -> Seq<char> {
    "last_touched: "@ + note.last_touched
}

/// The front matter of a note's mirror file: its four lines, each ended
/// by a line feed.
pub open spec fn block_of(note: ItemView) -> Seq<char> {
    id_line(note) + seq!['\n'] + title_line(note) + seq!['\n'] + status_line(note) + seq!['\n']
        + touched_line(note) + seq!['\n']
}

/// A text without a line feed.
pub open spec fn is_line(s: Seq<char>) -> bool {
    forall|i: int| 0 <= i < s.len() ==> s[i] != '\n'
}

/// What a note must be like for its mirror file to say all of it: title
/// and time stamp are each one line; they do not end with three hyphens,
/// which together with the line's end would pass for a marker line; and
/// they do not end with a carriage return, which would pass for a part of
/// the line's end.
pub open spec fn mirrors_faithfully(note: ItemView) -> bool {
    &&& is_line(note.title)
    &&& is_line(note.last_touched)
    &&& !ends_with(note.title, "---"@)
    &&& !ends_with(note.last_touched, "---"@)
    &&& (note.title.len() > 0 ==> note.title.last() != '\r')
    &&& (note.last_touched.len() > 0 ==> note.last_touched.last() != '\r')
}

/// No status word begins or ends with white space.
pub open spec fn status_words_are_trimmed() -> bool {
    forall|status: Status| trimmed(#[trigger] status.text()) == status.text()
}

/// No status word begins or ends with white space: each is empty or
/// begins and ends with a letter.
pub proof fn lemma_status_words_are_trimmed()
    ensures
        status_words_are_trimmed(),
{
    reveal_strlit("");
    reveal_strlit("Started");
    reveal_strlit("Urgent");
    reveal_strlit("Done");
    assert forall|status: Status| trimmed(#[trigger] status.text()) == status.text() by {
        let word = status.text();
        if word.len() > 0 {
            assert(!white_space(word[0]));
            assert(!white_space(word.last()));
            assert(trim_start(word) == word);
        }
    }
}

/// What the front matter of a note's mirror file says: the note's id and
/// title, and its status unless that is blank.
pub open spec fn fields_of(note: ItemView) -> FrontMatterView {
    FrontMatterView {
        id: Some(note.id),
        title: Some(note.title),
        status: if note.status == Status::Blank {
            None
        } else {
            Some(note.status)
        },
    }
}

/// The text of a mirror file is a marker line, the front matter, a marker
/// line, and the body.
pub proof fn lemma_mirror_content_parts(note: ItemView)
    ensures
        mirror_content(note) == "---\n"@ + block_of(note) + "---\n"@ + note.body,
        "---\n"@ == seq!['-', '-', '-', '\n'],
{
    reveal_strlit("---\n");
    reveal_strlit("---\nid: ");
    reveal_strlit("id: ");
    reveal_strlit("\ntitle: ");
    reveal_strlit("title: ");
    reveal_strlit("\nstatus: ");
    reveal_strlit("status: ");
    reveal_strlit("\nlast_touched: ");
    reveal_strlit("last_touched: ");
    reveal_strlit("\n---\n");
    assert("---\n"@ =~= seq!['-', '-', '-', '\n']);
    assert("---\nid: "@ =~= "---\n"@ + "id: "@);
    assert("\ntitle: "@ =~= seq!['\n'] + "title: "@);
    assert("\nstatus: "@ =~= seq!['\n'] + "status: "@);
    assert("\nlast_touched: "@ =~= seq!['\n'] + "last_touched: "@);
    assert("\n---\n"@ =~= seq!['\n'] + "---\n"@);
    assert(mirror_content(note) =~= "---\n"@ + block_of(note) + "---\n"@ + note.body);
}

/// The text in which a status is written names that status, and the text
/// of a blank status names none.
pub proof fn lemma_status_reads_back(status: Status)
    ensures
        status_field(status.text()) == if status == Status::Blank {
            None
        } else {
            Some(status)
        },
{
    reveal_strlit("");
    reveal_strlit("Started");
    reveal_strlit("started");
    reveal_strlit("Urgent");
    reveal_strlit("urgent");
    reveal_strlit("Done");
    reveal_strlit("done");
    reveal_strlit("Blank");
    reveal_strlit("blank");
    reveal_strlit("none");
    lemma_status_words_are_trimmed();
    assert(trimmed(status.text()) == status.text());
    match status {
        Status::Blank => {},
        Status::Started => {},
        Status::Urgent => {
            assert("Urgent"@[0] == 'U' && "started"@[0] == 's' && "Started"@[0] == 'S'
                && "urgent"@[0] == 'u');
        },
        Status::Done => {
            assert("Done"@[0] == 'D' && "started"@[0] == 's' && "Started"@[0] == 'S'
                && "urgent"@[0] == 'u' && "Urgent"@[0] == 'U' && "done"@[0] == 'd');
        },
    }
}

/// The line that gives the id sets the id.
proof fn lemma_apply_id_line(note: ItemView, acc: FrontMatterView)
    ensures
        apply_line(acc, id_line(note)) == (FrontMatterView { id: Some(note.id), ..acc }),
        is_line(id_line(note)),
        id_line(note).len() >= 5,
        is_digit(id_line(note).last()),
{
    reveal_strlit("id: ");
    let line = id_line(note);
    let digits = decimal(note.id as nat);
    lemma_decimal_reads_back(note.id as nat);
    assert(line.subrange(0, 4) =~= "id: "@);
    assert(line.skip(4) =~= digits);
    assert forall|i: int| 0 <= i < line.len() implies line[i] != '\n' by {
        if i >= 4 {
            assert(line[i] == digits[i - 4]);
            assert(is_digit(digits[i - 4]));
        }
    }
    assert(line.last() == digits[digits.len() - 1]);
}

/// The line that gives the title sets the title.
proof fn lemma_apply_title_line(note: ItemView, acc: FrontMatterView)
    requires
        is_line(note.title),
    ensures
        apply_line(acc, title_line(note)) == (FrontMatterView { title: Some(note.title), ..acc }),
        is_line(title_line(note)),
        title_line(note).len() >= 7,
{
    reveal_strlit("id: ");
    reveal_strlit("title: ");
    let line = title_line(note);
    assert(line.subrange(0, 7) =~= "title: "@);
    assert(line.skip(7) =~= note.title);
    assert(line.subrange(0, 4)[0] == 't');
    assert forall|i: int| 0 <= i < line.len() implies line[i] != '\n' by {
        if i >= 7 {
            assert(line[i] == note.title[i - 7]);
        }
    }
}

/// The line that gives the status sets the status.
proof fn lemma_apply_status_line(note: ItemView, acc: FrontMatterView)
    ensures
        apply_line(acc, status_line(note)) == (FrontMatterView {
            status: fields_of(note).status,
            ..acc
        }),
        is_line(status_line(note)),
        status_line(note).len() >= 8,
        status_line(note).last() != '-',
        status_line(note).last() != '\r',
{
    reveal_strlit("id: ");
    reveal_strlit("title: ");
    reveal_strlit("status: ");
    reveal_strlit("");
    reveal_strlit("Started");
    reveal_strlit("Urgent");
    reveal_strlit("Done");
    let line = status_line(note);
    let word = note.status.text();
    lemma_status_reads_back(note.status);
    assert(line.subrange(0, 8) =~= "status: "@);
    assert(line.skip(8) =~= word);
    assert(line.subrange(0, 4)[0] == 's');
    assert(line.subrange(0, 7)[0] == 's');
    assert forall|i: int| 0 <= i < line.len() implies line[i] != '\n' by {
        if i >= 8 {
            assert(line[i] == word[i - 8]);
        }
    }
    if word.len() > 0 {
        assert(line.last() == word[word.len() - 1]);
    } else {
        assert(line.last() == ' ');
    }
}

/// The line that gives the time stamp changes nothing.
proof fn lemma_apply_touched_line(note: ItemView, acc: FrontMatterView)
    requires
        is_line(note.last_touched),
    ensures
        apply_line(acc, touched_line(note)) == acc,
        is_line(touched_line(note)),
        touched_line(note).len() >= 14,
{
    reveal_strlit("id: ");
    reveal_strlit("title: ");
    reveal_strlit("status: ");
    reveal_strlit("last_touched: ");
    let line = touched_line(note);
    assert(line.subrange(0, 4)[0] == 'l');
    assert(line.subrange(0, 7)[0] == 'l');
    assert(line.subrange(0, 8)[0] == 'l');
    assert forall|i: int| 0 <= i < line.len() implies line[i] != '\n' by {
        if i >= 14 {
            assert(line[i] == note.last_touched[i - 14]);
        }
    }
}

/// The front matter of a note's mirror file says what the note holds.
pub proof fn lemma_block_reads_back(note: ItemView)
    requires
        mirrors_faithfully(note),
    ensures
        front_matter_fields(block_of(note)) == fields_of(note),
{
    reveal_strlit("title: ");
    reveal_strlit("last_touched: ");
    let b = block_of(note);
    let l1 = id_line(note);
    let l2 = title_line(note);
    let l3 = status_line(note);
    let l4 = touched_line(note);
    let p1: int = (l1.len() + 1) as int;
    let p2: int = p1 + l2.len() + 1;
    let p3: int = p2 + l3.len() + 1;
    let acc0 = no_fields();
    let acc1 = FrontMatterView { id: Some(note.id), ..acc0 };
    let acc2 = FrontMatterView { title: Some(note.title), ..acc1 };
    let acc3 = FrontMatterView { status: fields_of(note).status, ..acc2 };
    lemma_apply_id_line(note, acc0);
    lemma_apply_title_line(note, acc1);
    lemma_apply_status_line(note, acc2);
    lemma_apply_touched_line(note, acc3);
    assert(b.len() == p3 + l4.len() + 1);
    assert(b.subrange(0, l1.len() as int) =~= l1);
    assert(b.subrange(p1, p1 + l2.len()) =~= l2);
    assert(b.subrange(p2, p2 + l3.len()) =~= l3);
    assert(b.subrange(p3, p3 + l4.len()) =~= l4);
    assert(b[l1.len() as int] == '\n');
    assert(b[p1 + l2.len()] == '\n');
    assert(b[p2 + l3.len()] == '\n');
    assert(b[p3 + l4.len()] == '\n');
    assert(l2.last() != '\r') by {
        if note.title.len() > 0 {
            assert(l2.last() == note.title.last());
        } else {
            assert(l2.last() == ' ');
        }
    }
    assert(l4.last() != '\r') by {
        if note.last_touched.len() > 0 {
            assert(l4.last() == note.last_touched.last());
        } else {
            assert(l4.last() == ' ');
        }
    }
    lemma_scan_one_line(b, 0, l1, acc0);
    lemma_scan_one_line(b, p1, l2, acc1);
    lemma_scan_one_line(b, p2, l3, acc2);
    lemma_scan_one_line(b, p3, l4, acc3);
    assert(scan_fields(b, b.len() as int, acc3) == acc3);
    assert(acc3 == fields_of(note));
}

/// No line feed of the text stands right behind three hyphens.
pub open spec fn dash_free(s: Seq<char>) -> bool {
    forall|q: int|
        3 <= q < s.len() && #[trigger] s[q] == '\n' ==> !(s[q - 1] == '-' && s[q - 2] == '-' && s[q
            - 3] == '-')
}

/// A line that does not end with three hyphens, put with its line feed
/// behind whole lines, brings no line feed behind three hyphens.
proof fn lemma_append_line(s: Seq<char>, line: Seq<char>)
    requires
        dash_free(s),
        s.len() == 0 || s.last() == '\n',
        is_line(line),
        !ends_with(line, "---"@),
    ensures
        dash_free(s + line + seq!['\n']),
{
    reveal_strlit("---");
    let t = s + line + seq!['\n'];
    let end = s.len() + line.len();
    assert forall|q: int| 3 <= q < t.len() && #[trigger] t[q] == '\n' implies !(t[q - 1] == '-'
        && t[q - 2] == '-' && t[q - 3] == '-') by {
        if q < s.len() {
            assert(t[q] == s[q] && t[q - 1] == s[q - 1] && t[q - 2] == s[q - 2] && t[q - 3] == s[q
                - 3]);
        } else if q < end {
            assert(t[q] == line[q - s.len()]);
        } else {
            if line.len() >= 3 {
                let n = line.len() as int;
                if t[q - 1] == '-' && t[q - 2] == '-' && t[q - 3] == '-' {
                    assert(t[q - 1] == line[n - 1] && t[q - 2] == line[n - 2] && t[q - 3] == line[n
                        - 3]);
                    assert(line.subrange(n - 3, n) =~= "---"@);
                }
            } else {
                assert(s.len() > 0);
                assert(t[s.len() - 1] == s[s.len() - 1]);
            }
        }
    }
}

/// A line whose last character is no hyphen does not end with three.
proof fn lemma_no_dashes_at_end(line: Seq<char>)
    requires
        line.len() > 0,
        line.last() != '-',
    ensures
        !ends_with(line, "---"@),
{
    reveal_strlit("---");
    if ends_with(line, "---"@) {
        let n = line.len() as int;
        assert(line.subrange(n - 3, n)[2] == line[n - 1]);
    }
}

/// A key that ends with a space, followed by a text that does not end
/// with three hyphens, does not end with three hyphens.
proof fn lemma_keyed_line_end(key: Seq<char>, value: Seq<char>)
    requires
        key.len() >= 3,
        key.last() == ' ',
        !ends_with(value, "---"@),
    ensures
        !ends_with(key + value, "---"@),
{
    reveal_strlit("---");
    let line = key + value;
    let n = line.len() as int;
    if ends_with(line, "---"@) {
        let tail = line.subrange(n - 3, n);
        if value.len() >= 3 {
            let m = value.len() as int;
            assert(value.subrange(m - 3, m) =~= tail);
        } else {
            let k = n - 1 - value.len();
            assert(line[k] == key[key.len() - 1]);
            assert(tail[k - (n - 3)] == line[k]);
        }
    }
}

/// The front matter of a note's mirror file holds no line feed behind
/// three hyphens.
proof fn lemma_block_is_dash_free(note: ItemView)
    requires
        mirrors_faithfully(note),
    ensures
        dash_free(block_of(note)),
{
    reveal_strlit("title: ");
    reveal_strlit("last_touched: ");
    let nl = seq!['\n'];
    let l1 = id_line(note);
    let l2 = title_line(note);
    let l3 = status_line(note);
    let l4 = touched_line(note);
    let acc = no_fields();
    lemma_apply_id_line(note, acc);
    lemma_apply_title_line(note, acc);
    lemma_apply_status_line(note, acc);
    lemma_apply_touched_line(note, acc);
    lemma_no_dashes_at_end(l1);
    lemma_keyed_line_end("title: "@, note.title);
    lemma_no_dashes_at_end(l3);
    lemma_keyed_line_end("last_touched: "@, note.last_touched);
    let s0 = Seq::<char>::empty();
    let s1 = s0 + l1 + nl;
    let s2 = s1 + l2 + nl;
    let s3 = s2 + l3 + nl;
    let s4 = s3 + l4 + nl;
    lemma_append_line(s0, l1);
    lemma_append_line(s1, l2);
    lemma_append_line(s2, l3);
    lemma_append_line(s3, l4);
    assert(s4 =~= block_of(note));
}

/// A note's mirror file is read back into what the note holds: its front
/// matter gives the note's id and title and, unless that is blank, its
/// status, and its body is the note's body.
pub proof fn lemma_mirror_reads_back(note: ItemView)
    requires
        mirrors_faithfully(note),
    ensures
        split_front_matter(mirror_content(note)) == Some((block_of(note), note.body)),
        front_matter_fields(block_of(note)) == fields_of(note),
        mirror_id(mirror_content(note)) == Some(note.id),
{
    let content = mirror_content(note);
    let marker = "---\n"@;
    let block = block_of(note);
    let close: int = (4 + block.len()) as int;
    lemma_mirror_content_parts(note);
    lemma_block_is_dash_free(note);
    lemma_block_reads_back(note);
    assert(content.subrange(0, 4) =~= marker);
    assert(content.subrange(close, close + 4) =~= marker);
    assert forall|i: int| 4 <= i < close implies !matches_at(content, marker, i) by {
        if matches_at(content, marker, i) {
            let window = content.subrange(i, i + 4);
            assert(window[0] == content[i] && window[1] == content[i + 1] && window[2] == content[i
                + 2] && window[3] == content[i + 3]);
            if i + 3 < close {
                assert(content[i + 3] == block[i - 1] && content[i + 2] == block[i - 2] && content[i
                    + 1] == block[i - 3] && content[i] == block[i - 4]);
                assert(block[i - 1] == '\n');
            } else {
                assert(content[i + 3] == marker[i + 3 - close]);
            }
        }
    }
    lemma_find_from_is(content, marker, 4, close);
    assert(content.subrange(4, close) =~= block);
    assert(content.skip(close + 4) =~= note.body);
}

/// What keeps every element is no filter.
proof fn lemma_filter_keeps_all<A>(s: Seq<A>, keep: spec_fn(A) -> bool)
    requires
        forall|i: int| 0 <= i < s.len() ==> keep(#[trigger] s[i]),
    ensures
        s.filter(keep) == s,
    decreases s.len(),
{
    reveal(Seq::filter);
    if s.len() > 0 {
        assert forall|i: int| 0 <= i < s.drop_last().len() implies keep(
            #[trigger] s.drop_last()[i],
        ) by {
            assert(s.drop_last()[i] == s[i]);
        }
        lemma_filter_keeps_all(s.drop_last(), keep);
        assert(s.drop_last().push(s.last()) =~= s);
    }
}

/// The file that mirrors a note has the extension `md`.
proof fn lemma_mirror_name_is_mirror_name(note: ItemView)
    ensures
        is_mirror_name(mirror_name(note)),
{
    reveal_strlit(".md");
    reveal_strlit("-");
    let name = mirror_name(note);
    let n = name.len() as int;
    assert(name.subrange(n - 3, n) =~= ".md"@);
}

/// Reading the mirror files of the first notes leaves the notes as they
/// are.
proof fn lemma_own_mirrors_absorbed(notes: Seq<ItemView>, now: Seq<char>, k: int)
    requires
        ids_unique(notes),
        forall|i: int| 0 <= i < notes.len() ==> mirrors_faithfully(#[trigger] notes[i]),
        0 <= k <= notes.len(),
    ensures
        absorbed_all(notes, mirrors_of(notes).take(k), now) == notes,
        promoted(notes, mirrors_of(notes).take(k), now) == notes,
    decreases k,
{
    let files = mirrors_of(notes).take(k);
    if k > 0 {
        lemma_own_mirrors_absorbed(notes, now, k - 1);
        assert(files.drop_last() =~= mirrors_of(notes).take(k - 1));
        let note = notes[k - 1];
        assert(files.last() == mirror_of(note));
        lemma_mirror_reads_back(note);
        lemma_index_of_id(notes, note.id, 0);
        assert(position_of(notes, note.id) == k - 1);
        assert(reconciled(note, fields_of(note), note.body, now) == note);
        assert(notes.update(k - 1, note) =~= notes);
    }
}

/// Taking in the mirror files that were just written for the notes
/// leaves the notes as they are: no note changes, none leaves, and none
/// is added.
pub proof fn lemma_own_mirrors_import_nothing(notes: Seq<ItemView>, now: Seq<char>)
    requires
        ids_unique(notes),
        forall|i: int| 0 <= i < notes.len() ==> mirrors_faithfully(#[trigger] notes[i]),
    ensures
        imported(notes, mirrors_of(notes), now) == notes,
{
    let files = mirrors_of(notes);
    let mirror = |f: MirrorFileView| is_mirror_name(f.name);
    assert forall|i: int| 0 <= i < files.len() implies mirror(#[trigger] files[i]) by {
        lemma_mirror_name_is_mirror_name(notes[i]);
    }
    lemma_filter_keeps_all(files, mirror);
    assert(mirrors_among(files) == files);
    lemma_own_mirrors_absorbed(notes, now, notes.len() as int);
    assert(files.take(notes.len() as int) =~= files);
    let seen = |n: ItemView| is_seen(files, n.id);
    assert forall|i: int| 0 <= i < notes.len() implies seen(#[trigger] notes[i]) by {
        lemma_mirror_reads_back(notes[i]);
        assert(mirror_id(files[i].content) == Some(notes[i].id));
    }
    lemma_filter_keeps_all(notes, seen);
    assert(retained(notes, files) == notes);
}

} // verus!
