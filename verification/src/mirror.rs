//! The file that mirrors a note: a block of front matter between two
//! marker lines, then the note's body.
//!
//! ```text
//! ---
//! id: 3
//! title: Buy milk
//! status: Started
//! last_touched: 2024-05-01 10:00:00 +0200
//! ---
//! two litres
//! ```

use crate::item::{Item, ItemView, Status};
use crate::text::{
    all_digits, chars_of, decimal, decimal_of, ends_with, find, find_char, find_from, has_at,
    has_prefix, has_suffix, index_of_char, is_digit, lemma_index_of_char_bounds, line_stop,
    number_between, parse_number, starts_with, string_between, string_of,
};
use crate::utils::{sanitized, sanitized_chars, status_for, status_of_word, trim_bounds, trimmed};
use vstd::prelude::*;

verus! {

/// A mirror file: its name within the profile's directory, and its text.
#[derive(Debug)]
pub struct MirrorFile {
    pub name: String,
    pub content: String,
}

/// A mirror file as plain values.
pub struct MirrorFileView {
    pub name: Seq<char>,
    pub content: Seq<char>,
}

impl View for MirrorFile {
    type V = MirrorFileView;

    open spec fn view(&self) -> MirrorFileView {
        MirrorFileView { name: self.name@, content: self.content@ }
    }
}

/// The files of a list, each as plain values.
pub open spec fn file_views(files: Seq<MirrorFile>) -> Seq<MirrorFileView> {
    Seq::new(files.len(), |i: int| files[i]@)
}

/// The texts of a list of strings.
pub open spec fn texts(names: Seq<String>) -> Seq<Seq<char>> {
    Seq::new(names.len(), |i: int| names[i]@)
}

/// The name of the file that mirrors a note: its id, a hyphen, its title
/// made safe, and the extension `.md`.
pub open spec fn mirror_name(item: ItemView) -> Seq<char> {
    decimal(item.id as nat) + "-"@ + sanitized(item.title) + ".md"@
}

/// The text of the file that mirrors a note.
pub open spec fn mirror_content(item: ItemView) -> Seq<char> {
    "---\nid: "@ + decimal(item.id as nat) + "\ntitle: "@ + item.title + "\nstatus: "@
        + item.status.text() + "\nlast_touched: "@ + item.last_touched + "\n---\n"@ + item.body
}

/// The file that mirrors a note.
pub open spec fn mirror_of(item: ItemView) -> MirrorFileView {
    MirrorFileView { name: mirror_name(item), content: mirror_content(item) }
}

/// The file that mirrors `item`.
pub fn mirror_file(item: &Item) -> (r: MirrorFile)
    ensures
        r@ == mirror_of(item@),
{
    let id = string_of(&decimal_of(item.id));
    let name = mirror_file_name(item);
    let mut content = "---\nid: ".to_owned();
    content.append(id.as_str());
    content.append("\ntitle: ");
    content.append(item.title.as_str());
    content.append("\nstatus: ");
    content.append(item.status.label());
    content.append("\nlast_touched: ");
    content.append(item.last_touched.as_str());
    content.append("\n---\n");
    content.append(item.body.as_str());
    MirrorFile { name, content }
}

/// What the front matter of a mirror file says of its note.
#[derive(Debug)]
pub struct FrontMatter {
    pub id: Option<usize>,
    pub title: Option<String>,
    pub status: Option<Status>,
}

/// Front matter as plain values.
pub struct FrontMatterView {
    pub id: Option<usize>,
    pub title: Option<Seq<char>>,
    pub status: Option<Status>,
}

impl View for FrontMatter {
    type V = FrontMatterView;

    open spec fn view(&self) -> FrontMatterView {
        FrontMatterView {
            id: self.id,
            title: match self.title {
                Some(t) => Some(t@),
                None => None,
            },
            status: self.status,
        }
    }
}

/// Front matter that says nothing.
pub open spec fn no_fields() -> FrontMatterView {
    FrontMatterView { id: None, title: None, status: None }
}

/// The status that the rest of a `status: ` line names: none where only
/// white space follows the key, or a word that names no status.
pub open spec fn status_field(rest: Seq<char>) -> Option<Status> {
    let word = trimmed(rest);
    if word.len() == 0 {
        None
    } else {
        status_of_word(word)
    }
}

/// What one line of front matter changes. A line that begins with `id: `
/// sets the id to the number that follows, or to none where no number
/// follows; one that begins with `title: ` sets the title to what follows;
/// one that begins with `status: ` sets the status. Any other line changes
/// nothing.
pub open spec fn apply_line(acc: FrontMatterView, line: Seq<char>) -> FrontMatterView {
    if starts_with(line, "id: "@) {
        FrontMatterView { id: parse_number(line.skip(4)), ..acc }
    } else if starts_with(line, "title: "@) {
        FrontMatterView { title: Some(line.skip(7)), ..acc }
    } else if starts_with(line, "status: "@) {
        FrontMatterView { status: status_field(line.skip(8)), ..acc }
    } else {
        acc
    }
}

/// The fields that the lines of `s` from position `from` on give, one line
/// after the other, starting from `acc`.
pub open spec fn scan_fields(s: Seq<char>, from: int, acc: FrontMatterView) -> FrontMatterView
    decreases s.len() + 1 - from,
    via scan_fields_decreases
{
    if from < 0 || from >= s.len() {
        acc
    } else {
        let end = index_of_char(s, '\n', from);
        scan_fields(s, end + 1, apply_line(acc, s.subrange(from, line_stop(s, from, end))))
    }
}

/// Each line ends at or behind its beginning, so reading goes forward.
#[via_fn]
proof fn scan_fields_decreases(s: Seq<char>, from: int, acc: FrontMatterView) {
    if 0 <= from < s.len() {
        lemma_index_of_char_bounds(s, '\n', from);
    }
}

/// What a block of front matter says.
pub open spec fn front_matter_fields(block: Seq<char>) -> FrontMatterView {
    scan_fields(block, 0, no_fields())
}

/// A mirror file's text parted into its front matter and its body: the
/// text begins with a marker line, the front matter runs up to the next
/// marker, and the body is what follows that. A text that does not begin
/// with a marker, or holds no second one, has no front matter.
pub open spec fn split_front_matter(content: Seq<char>) -> Option<(Seq<char>, Seq<char>)> {
    if starts_with(content, "---\n"@) {
        match find_from(content, "---\n"@, 4) {
            Some(close) => Some((content.subrange(4, close), content.skip(close + 4))),
            None => None,
        }
    } else {
        None
    }
}

/// The id that a mirror file's front matter gives, if it has front matter
/// and that holds a number as id.
pub open spec fn mirror_id(content: Seq<char>) -> Option<usize> {
    match split_front_matter(content) {
        Some((block, _)) => front_matter_fields(block).id,
        None => None,
    }
}

/// The body of a file that is taken up as a new note: what follows the
/// front matter, or the whole text where it has none.
pub open spec fn body_of(content: Seq<char>) -> Seq<char> {
    match split_front_matter(content) {
        Some((_, body)) => body,
        None => content,
    }
}

/// The title that a file's name gives a new note: the name without its
/// extension `.md`, and without what stands up to its first hyphen where
/// that is nothing but digits.
pub open spec fn title_of_name(name: Seq<char>) -> Seq<char> {
    let base = if ends_with(name, ".md"@) {
        name.take(name.len() - 3)
    } else {
        name
    };
    let dash = index_of_char(base, '-', 0);
    if dash < base.len() && all_digits(base.take(dash)) {
        base.skip(dash + 1)
    } else {
        base
    }
}

/// Whether `v[from..to]` begins with `key`.
fn begins(v: &Vec<char>, from: usize, to: usize, key: &Vec<char>) -> (r: bool)
    requires
        from <= to <= v.len(),
    ensures
        r == starts_with(v@.subrange(from as int, to as int), key@),
{
    let ghost line = v@.subrange(from as int, to as int);
    if key.len() > to - from {
        return false;
    }
    let r = has_at(v, key, from);
    assert(line.subrange(0, key.len() as int) =~= v@.subrange(from as int, from + key.len()));
    r
}

/// The keys of the lines of front matter, as characters.
struct Keys {
    id: Vec<char>,
    title: Vec<char>,
    status: Vec<char>,
}

impl Keys {
    /// Each key holds its text.
    spec fn wf(&self) -> bool {
        &&& self.id@ == "id: "@
        &&& self.title@ == "title: "@
        &&& self.status@ == "status: "@
    }

    /// The keys `id: `, `title: ` and `status: `.
    fn new() -> (k: Keys)
        ensures
            k.wf(),
    {
        Keys { id: chars_of("id: "), title: chars_of("title: "), status: chars_of("status: ") }
    }
}

/// What the line `v[from..to]` changes in `acc`.
fn apply_to(acc: FrontMatter, v: &Vec<char>, from: usize, to: usize, keys: &Keys) -> (r:
    FrontMatter)
    requires
        from <= to <= v.len(),
        keys.wf(),
    ensures
        r@ == apply_line(acc@, v@.subrange(from as int, to as int)),
{
    let ghost line = v@.subrange(from as int, to as int);
    proof {
        reveal_strlit("id: ");
        reveal_strlit("title: ");
        reveal_strlit("status: ");
    }
    if begins(v, from, to, &keys.id) {
        assert(line.skip(4) =~= v@.subrange(from + 4, to as int));
        FrontMatter { id: number_between(v, from + 4, to), title: acc.title, status: acc.status }
    } else if begins(v, from, to, &keys.title) {
        assert(line.skip(7) =~= v@.subrange(from + 7, to as int));
        FrontMatter { id: acc.id, title: Some(string_between(v, from + 7, to)), status: acc.status }
    } else if begins(v, from, to, &keys.status) {
        assert(line.skip(8) =~= v@.subrange(from + 8, to as int));
        let (a, b) = trim_bounds(v, from + 8, to);
        let status = if a == b {
            None
        } else {
            let word = string_between(v, a, b);
            status_for(word.as_str())
        };
        FrontMatter { id: acc.id, title: acc.title, status }
    } else {
        acc
    }
}

/// What the block of front matter `block` says.
pub fn read_fields(block: &Vec<char>) -> (r: FrontMatter)
    ensures
        r@ == front_matter_fields(block@),
{
    let keys = Keys::new();
    let mut acc = FrontMatter { id: None, title: None, status: None };
    let mut from: usize = 0;
    while from < block.len()
        invariant
            from <= block.len(),
            keys.wf(),
            front_matter_fields(block@) == scan_fields(block@, from as int, acc@),
        decreases block.len() - from,
    {
        let end = find_char(block, '\n', from);
        let stop = if from < end && end < block.len() && block[end - 1] == '\r' {
            end - 1
        } else {
            end
        };
        let ghost before = acc@;
        acc = apply_to(acc, block, from, stop, &keys);
        proof {
            assert(stop == line_stop(block@, from as int, end as int));
            assert(scan_fields(block@, from as int, before) == scan_fields(
                block@,
                end + 1,
                acc@,
            ));
            assert(scan_fields(block@, block.len() + 1, acc@) == acc@);
            assert(scan_fields(block@, block.len() as int, acc@) == acc@);
        }
        if end == block.len() {
            from = end;
        } else {
            from = end + 1;
        }
    }
    acc
}

/// A mirror file read: what its front matter says, and its body.
#[derive(Debug)]
pub struct ParsedMirror {
    pub fields: FrontMatter,
    pub body: String,
}

/// Reads a mirror file's text. A text without front matter gives nothing.
pub fn parse_front_matter(content: &str) -> (r: Option<ParsedMirror>)
    ensures
        match split_front_matter(content@) {
            Some((block, body)) => r is Some && r->Some_0.fields@ == front_matter_fields(block)
                && r->Some_0.body@ == body,
            None => r is None,
        },
{
    let v = chars_of(content);
    let marker = chars_of("---\n");
    proof {
        reveal_strlit("---\n");
    }
    if !has_prefix(&v, &marker) {
        return None;
    }
    match find(&v, &marker, 4) {
        None => None,
        Some(close) => {
            let mut block: Vec<char> = Vec::new();
            let mut i: usize = 4;
            while i < close
                invariant
                    4 <= i <= close <= v.len(),
                    block@ == v@.subrange(4, i as int),
                decreases close - i,
            {
                block.push(v[i]);
                i += 1;
            }
            let fields = read_fields(&block);
            let body = string_between(&v, close + 4, v.len());
            assert(v@.skip(close + 4) =~= v@.subrange(close + 4, v.len() as int));
            Some(ParsedMirror { fields, body })
        },
    }
}

/// The title that the file name `name` gives a new note.
pub fn title_for(name: &str) -> (r: String)
    ensures
        r@ == title_of_name(name@),
{
    let v = chars_of(name);
    let ext = chars_of(".md");
    proof {
        reveal_strlit(".md");
    }
    let to: usize = if has_suffix(&v, &ext) {
        v.len() - 3
    } else {
        v.len()
    };
    let ghost base = v@.take(to as int);
    assert(base == if ends_with(name@, ".md"@) {
        name@.take(name@.len() - 3)
    } else {
        name@
    }) by {
        assert(v@.take(v.len() as int) =~= v@);
    }
    let mut dash: usize = 0;
    let mut digits = true;
    while dash < to && v[dash] != '-'
        invariant
            dash <= to <= v.len(),
            base == v@.take(to as int),
            digits == all_digits(base.take(dash as int)),
            index_of_char(base, '-', 0) == index_of_char(base, '-', dash as int),
        decreases to - dash,
    {
        let c = v[dash];
        proof {
            let shorter = base.take(dash as int);
            let longer = base.take(dash + 1);
            assert(longer[dash as int] == c);
            assert(forall|i: int| 0 <= i < dash ==> longer[i] == shorter[i]);
            if all_digits(longer) {
                assert(forall|i: int| 0 <= i < dash ==> is_digit(#[trigger] shorter[i])) by {
                    assert(forall|i: int| 0 <= i < dash ==> is_digit(#[trigger] longer[i]));
                }
            }
        }
        digits = digits && '0' <= c && c <= '9';
        dash += 1;
    }
    if dash < to && digits {
        assert(base.skip(dash + 1) =~= v@.subrange(dash + 1, to as int));
        string_between(&v, dash + 1, to)
    } else {
        assert(base =~= v@.subrange(0, to as int));
        string_between(&v, 0, to)
    }
}

/// The body that the text of a file gives a new note.
pub fn body_for(content: &str) -> (r: String)
    ensures
        r@ == body_of(content@),
{
    match parse_front_matter(content) {
        Some(parsed) => parsed.body,
        None => content.to_owned(),
    }
}

/// A name with the extension `md`: it ends with `.md`, and something
/// stands before that.
pub open spec fn is_mirror_name(name: Seq<char>) -> bool {
    name.len() > 3 && ends_with(name, ".md"@)
}

/// Whether `name` has the extension `md`.
pub fn has_mirror_extension(name: &str) -> (r: bool)
    ensures
        r == is_mirror_name(name@),
{
    let v = chars_of(name);
    let ext = chars_of(".md");
    v.len() > 3 && has_suffix(&v, &ext)
}

/// The files that mirror a list of notes, one for each note, in order.
pub open spec fn mirrors_of(notes: Seq<ItemView>) -> Seq<MirrorFileView> {
    Seq::new(notes.len(), |i: int| mirror_of(notes[i]))
}

/// Whether `name` is the name of the file that mirrors one of `notes`.
pub open spec fn names_a_mirror(notes: Seq<ItemView>, name: Seq<char>) -> bool {
    exists|i: int| 0 <= i < notes.len() && #[trigger] mirror_name(notes[i]) == name
}

/// Whether a file of this name is to leave the directory when `notes` are
/// mirrored there: it has the extension `md` and mirrors none of them.
pub open spec fn is_stale(notes: Seq<ItemView>, name: Seq<char>) -> bool {
    is_mirror_name(name) && !names_a_mirror(notes, name)
}

/// The files that mirror `notes`.
pub fn mirror_files(notes: &Vec<Item>) -> (r: Vec<MirrorFile>)
    ensures
        file_views(r@) == mirrors_of(crate::item::views(notes@)),
{
    let mut r: Vec<MirrorFile> = Vec::new();
    let mut i: usize = 0;
    while i < notes.len()
        invariant
            i <= notes.len(),
            r.len() == i,
            forall|j: int| 0 <= j < i ==> r@[j]@ == mirror_of(notes@[j]@),
        decreases notes.len() - i,
    {
        r.push(mirror_file(&notes[i]));
        i += 1;
    }
    assert(file_views(r@) =~= mirrors_of(crate::item::views(notes@)));
    r
}

/// The name of the file that mirrors `item`.
pub fn mirror_file_name(item: &Item) -> (r: String)
    ensures
        r@ == mirror_name(item@),
{
    let mut name = string_of(&decimal_of(item.id));
    name.append("-");
    name.append(string_of(&sanitized_chars(&chars_of(item.title.as_str()))).as_str());
    name.append(".md");
    name
}

/// The names of the files that mirror `notes`, in order.
fn mirror_names(notes: &Vec<Item>) -> (r: Vec<String>)
    ensures
        r.len() == notes.len(),
        forall|j: int| 0 <= j < notes.len() ==> r@[j]@ == mirror_name(#[trigger] notes@[j]@),
{
    let mut r: Vec<String> = Vec::new();
    let mut i: usize = 0;
    while i < notes.len()
        invariant
            i <= notes.len(),
            r.len() == i,
            forall|j: int| 0 <= j < i ==> r@[j]@ == mirror_name(#[trigger] notes@[j]@),
        decreases notes.len() - i,
    {
        r.push(mirror_file_name(&notes[i]));
        i += 1;
    }
    r
}

/// Whether `name` is among `names`.
fn is_among(names: &Vec<String>, name: &String) -> (r: bool)
    ensures
        r == exists|j: int| 0 <= j < names.len() && #[trigger] names@[j]@ == name@,
{
    let mut i: usize = 0;
    while i < names.len()
        invariant
            i <= names.len(),
            forall|j: int| 0 <= j < i ==> #[trigger] names@[j]@ != name@,
        decreases names.len() - i,
    {
        if names[i] == *name {
            return true;
        }
        i += 1;
    }
    false
}

/// Of the names in a directory, those of the files that are to leave it
/// when `notes` are mirrored there, in the order given.
pub fn stale_mirrors(notes: &Vec<Item>, existing: &Vec<String>) -> (r: Vec<String>)
    ensures
        texts(r@) == texts(existing@).filter(
            |name: Seq<char>| is_stale(crate::item::views(notes@), name),
        ),
{
    let ghost all = texts(existing@);
    let ghost mirrored = crate::item::views(notes@);
    let ghost stale = |name: Seq<char>| is_stale(crate::item::views(notes@), name);
    let kept = mirror_names(notes);
    let mut r: Vec<String> = Vec::new();
    let mut i: usize = 0;
    proof {
        reveal(Seq::filter);
        assert(all.take(0) =~= Seq::<Seq<char>>::empty());
        assert(texts(r@) =~= all.take(0).filter(stale));
    }
    while i < existing.len()
        invariant
            i <= existing.len(),
            all == texts(existing@),
            mirrored == crate::item::views(notes@),
            kept.len() == notes.len(),
            forall|j: int|
                0 <= j < notes.len() ==> kept@[j]@ == mirror_name(#[trigger] notes@[j]@),
            stale == |name: Seq<char>| is_stale(crate::item::views(notes@), name),
            texts(r@) == all.take(i as int).filter(stale),
        decreases existing.len() - i,
    {
        let name = &existing[i];
        proof {
            assert(all.take(i + 1) =~= all.take(i as int).push(name@));
            all.take(i as int).lemma_filter_push(name@, stale);
        }
        let ghost before = texts(r@);
        let mirrors_a_note = is_among(&kept, name);
        proof {
            if mirrors_a_note {
                let j = choose|j: int| 0 <= j < kept.len() && #[trigger] kept@[j]@ == name@;
                assert(mirror_name(mirrored[j]) == name@);
            } else if names_a_mirror(mirrored, name@) {
                let j = choose|j: int|
                    0 <= j < mirrored.len() && #[trigger] mirror_name(mirrored[j]) == name@;
                assert(kept@[j]@ == mirror_name(notes@[j]@));
            }
        }
        if has_mirror_extension(name.as_str()) && !mirrors_a_note {
            r.push(name.clone());
            assert(texts(r@) =~= before.push(name@));
        }
        i += 1;
    }
    assert(all.take(existing.len() as int) =~= all);
    r
}

/// Of the names in a directory, those of all mirror files, in the order
/// given: what leaves the directory when its profile is sealed.
pub fn purge_list(existing: &Vec<String>) -> (r: Vec<String>)
    ensures
        texts(r@) == texts(existing@).filter(|name: Seq<char>| is_mirror_name(name)),
{
    let ghost all = texts(existing@);
    let ghost mirror = |name: Seq<char>| is_mirror_name(name);
    let mut r: Vec<String> = Vec::new();
    let mut i: usize = 0;
    proof {
        reveal(Seq::filter);
        assert(all.take(0) =~= Seq::<Seq<char>>::empty());
        assert(texts(r@) =~= all.take(0).filter(mirror));
    }
    while i < existing.len()
        invariant
            i <= existing.len(),
            all == texts(existing@),
            mirror == |name: Seq<char>| is_mirror_name(name),
            texts(r@) == all.take(i as int).filter(mirror),
        decreases existing.len() - i,
    {
        let name = &existing[i];
        proof {
            assert(all.take(i + 1) =~= all.take(i as int).push(name@));
            all.take(i as int).lemma_filter_push(name@, mirror);
        }
        let ghost before = texts(r@);
        if has_mirror_extension(name.as_str()) {
            r.push(name.clone());
            assert(texts(r@) =~= before.push(name@));
        }
        i += 1;
    }
    assert(all.take(existing.len() as int) =~= all);
    r
}

} // verus!
