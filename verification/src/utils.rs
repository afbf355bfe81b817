//! Small rules on text: status words, fields of fixed width, names that are
//! safe for a file, and trimming.

use crate::errors::{ErrorKind, ThecaError};
use crate::item::Status;
use crate::text::{chars_of, is_digit, same_text, string_between, string_of};
use vstd::prelude::*;
use vstd::string::StringSliceAdditionalSpecFns;

verus! {

/// Whether a character has Unicode's `White_Space` property: the controls
/// from tab to carriage return, the space, the next-line control, the
/// no-break space, the ogham space mark, the spaces from en quad to hair
/// space, the line and the paragraph separator, the narrow no-break space,
/// the medium mathematical space and the ideographic space.
pub open spec fn white_space(c: char) -> bool {
    let u = c as u32;
    (0x09 <= u <= 0x0D) || u == 0x20 || u == 0x85 || u == 0xA0 || u == 0x1680 || (0x2000 <= u
        <= 0x200A) || u == 0x2028 || u == 0x2029 || u == 0x202F || u == 0x205F || u == 0x3000
}

/// Whether `c` has the `White_Space` property.
fn is_space(c: char) -> (r: bool)
    ensures
        r == white_space(c),
{
    let u: u32 = c as u32;
    (0x09 <= u && u <= 0x0D) || u == 0x20 || u == 0x85 || u == 0xA0 || u == 0x1680 || (0x2000 <= u
        && u <= 0x200A) || u == 0x2028 || u == 0x2029 || u == 0x202F || u == 0x205F || u == 0x3000
}

/// A text without the white space at its head.
pub open spec fn trim_start(s: Seq<char>) -> Seq<char>
    decreases s.len(),
{
    if s.len() > 0 && white_space(s[0]) {
        trim_start(s.drop_first())
    } else {
        s
    }
}

/// A text without the white space at its end.
pub open spec fn trim_end(s: Seq<char>) -> Seq<char>
    decreases s.len(),
{
    if s.len() > 0 && white_space(s.last()) {
        trim_end(s.drop_last())
    } else {
        s
    }
}

/// A text without the white space at its head and at its end.
pub open spec fn trimmed(s: Seq<char>) -> Seq<char> {
    trim_end(trim_start(s))
}

/// The bounds within `v[from..to]` of what is left when the white space at
/// both ends is taken away: as far from `to` as what is left without the
/// white space at the head is long, and as far apart as what is left
/// without that at both ends.
pub fn trim_bounds(v: &Vec<char>, from: usize, to: usize) -> (r: (usize, usize))
    requires
        from <= to <= v.len(),
    ensures
        from <= r.0 <= r.1 <= to,
        v@.subrange(r.0 as int, r.1 as int) == trimmed(v@.subrange(from as int, to as int)),
        r.0 == to - trim_start(v@.subrange(from as int, to as int)).len(),
        r.1 == r.0 + trimmed(v@.subrange(from as int, to as int)).len(),
{
    let mut a: usize = from;
    while a < to && is_space(v[a])
        invariant
            from <= a <= to <= v.len(),
            trim_start(v@.subrange(from as int, to as int)) == trim_start(
                v@.subrange(a as int, to as int),
            ),
        decreases to - a,
    {
        assert(v@.subrange(a as int, to as int).drop_first() =~= v@.subrange(a + 1, to as int));
        a += 1;
    }
    let mut b: usize = to;
    while a < b && is_space(v[b - 1])
        invariant
            a <= b <= to <= v.len(),
            trim_end(v@.subrange(a as int, to as int)) == trim_end(v@.subrange(a as int, b as int)),
        decreases b - a,
    {
        assert(v@.subrange(a as int, b as int).drop_last() =~= v@.subrange(a as int, b - 1));
        b -= 1;
    }
    (a, b)
}

/// The status that a word names. `blank`, `Blank` and `none` name `Blank`;
/// each other status is named by its own name, with a small or a capital
/// first letter. No other word names a status.
pub open spec fn status_of_word(w: Seq<char>) -> Option<Status> {
    if w == "started"@ || w == "Started"@ {
        Some(Status::Started)
    } else if w == "urgent"@ || w == "Urgent"@ {
        Some(Status::Urgent)
    } else if w == "done"@ || w == "Done"@ {
        Some(Status::Done)
    } else if w == "blank"@ || w == "Blank"@ || w == "none"@ {
        Some(Status::Blank)
    } else {
        None
    }
}

/// What `extract_status` gives for a word that names no status.
pub open spec fn is_invalid_status(e: ThecaError) -> bool {
    e.is(ErrorKind::Generic, "Invalid status (started,urgent,done, or none)"@) && e.detail is None
}

/// The status that `word` names.
pub fn status_for(word: &str) -> (r: Option<Status>)
    ensures
        r == status_of_word(word@),
{
    if same_text(word, "started") || same_text(word, "Started") {
        Some(Status::Started)
    } else if same_text(word, "urgent") || same_text(word, "Urgent") {
        Some(Status::Urgent)
    } else if same_text(word, "done") || same_text(word, "Done") {
        Some(Status::Done)
    } else if same_text(word, "blank") || same_text(word, "Blank") || same_text(word, "none") {
        Some(Status::Blank)
    } else {
        None
    }
}

/// Reads an optional status word: no word is no status, a word that names
/// a status is that status, and any other word is refused.
pub fn extract_status(status_str: Option<String>) -> (r: Result<Option<Status>, ThecaError>)
    ensures
        match status_str {
            None => r == Ok::<Option<Status>, ThecaError>(None),
            Some(s) => match status_of_word(s@) {
                Some(status) => r == Ok::<Option<Status>, ThecaError>(Some(status)),
                None => r is Err && is_invalid_status(r->Err_0),
            },
        },
{
    match status_str {
        None => Ok(None),
        Some(s) => match status_for(s.as_str()) {
            Some(status) => Ok(Some(status)),
            None => Err(
                ThecaError::new(ErrorKind::Generic, "Invalid status (started,urgent,done, or none)"),
            ),
        },
    }
}

/// `n` spaces.
pub open spec fn spaces(n: nat) -> Seq<char> {
    Seq::new(n, |i: int| ' ')
}

/// `s` in exactly `width` characters: cut after `width` characters where
/// it is longer, filled with spaces at its end where it is shorter.
pub open spec fn fitted(s: Seq<char>, width: nat) -> Seq<char> {
    if s.len() >= width {
        s.take(width as int)
    } else {
        s + spaces((width - s.len()) as nat)
    }
}

/// A field of a line. Where cutting is asked for, the field is wider than
/// three characters and the value takes more bytes than the field has
/// characters, the value is fitted into three characters less and three
/// dots follow; otherwise it is fitted into the field's width.
pub open spec fn spec_format_field(
    value: Seq<char>,
    byte_len: nat,
    width: nat,
    truncate: bool,
) -> Seq<char> {
    if byte_len > width && width > 3 && truncate {
        fitted(value, (width - 3) as nat) + "..."@
    } else {
        fitted(value, width)
    }
}

/// Appends `fitted(value, width)` to `out`.
fn push_fitted(out: &mut Vec<char>, value: &Vec<char>, width: usize)
    ensures
        final(out)@ == old(out)@ + fitted(value@, width as nat),
{
    let mut i: usize = 0;
    while i < width
        invariant
            i <= width,
            out@ == old(out)@ + fitted(value@, width as nat).take(i as int),
        decreases width - i,
    {
        let c = if i < value.len() {
            value[i]
        } else {
            ' '
        };
        assert(fitted(value@, width as nat)[i as int] == c);
        out.push(c);
        assert(fitted(value@, width as nat).take(i + 1) =~= fitted(value@, width as nat).take(
            i as int,
        ).push(c));
        i += 1;
    }
    assert(fitted(value@, width as nat).take(width as int) =~= fitted(value@, width as nat));
}

/// `value` as a field of `width` characters.
pub fn format_field(value: &str, width: usize, truncate: bool) -> (r: String)
    ensures
        r@ == spec_format_field(value@, value.spec_bytes().len(), width as nat, truncate),
{
    let chars = chars_of(value);
    let mut out: Vec<char> = Vec::new();
    if value.as_bytes().len() > width && width > 3 && truncate {
        push_fitted(&mut out, &chars, width - 3);
        out.push('.');
        out.push('.');
        out.push('.');
        proof {
            reveal_strlit("...");
            assert(out@ =~= fitted(value@, (width - 3) as nat) + "..."@);
        }
    } else {
        push_fitted(&mut out, &chars, width);
        assert(out@ =~= fitted(value@, width as nat));
    }
    string_of(&out)
}

/// A letter of the English alphabet, a digit, a hyphen, an underscore or a
/// space.
pub open spec fn is_name_char(c: char) -> bool {
    ('a' <= c && c <= 'z') || ('A' <= c && c <= 'Z') || is_digit(c) || c == '-' || c == '_' || c
        == ' '
}

/// `c` where a file name may hold it, and an underscore in place of any
/// other character.
pub open spec fn safe_char(c: char) -> char {
    if is_name_char(c) {
        c
    } else {
        '_'
    }
}

/// A text without the spaces at its head.
pub open spec fn skip_spaces(s: Seq<char>) -> Seq<char>
    decreases s.len(),
{
    if s.len() > 0 && s[0] == ' ' {
        skip_spaces(s.drop_first())
    } else {
        s
    }
}

/// A text without the spaces at its end.
pub open spec fn drop_spaces(s: Seq<char>) -> Seq<char>
    decreases s.len(),
{
    if s.len() > 0 && s.last() == ' ' {
        drop_spaces(s.drop_last())
    } else {
        s
    }
}

/// The name that a title gives a file: each character that is not safe
/// replaced by an underscore, and the spaces at both ends taken away.
pub open spec fn sanitized(name: Seq<char>) -> Seq<char> {
    drop_spaces(skip_spaces(name.map_values(|c: char| safe_char(c))))
}

/// `c` where a file name may hold it, and an underscore else.
fn safe_for(c: char) -> (r: char)
    ensures
        r == safe_char(c),
{
    if ('a' <= c && c <= 'z') || ('A' <= c && c <= 'Z') || ('0' <= c && c <= '9') || c == '-' || c
        == '_' || c == ' ' {
        c
    } else {
        '_'
    }
}

/// The characters of `sanitized(name)`.
pub fn sanitized_chars(name: &Vec<char>) -> (r: Vec<char>)
    ensures
        r@ == sanitized(name@),
{
    let ghost mapped = name@.map_values(|c: char| safe_char(c));
    let mut m: Vec<char> = Vec::new();
    let mut i: usize = 0;
    while i < name.len()
        invariant
            i <= name.len(),
            mapped == name@.map_values(|c: char| safe_char(c)),
            m@ == mapped.take(i as int),
        decreases name.len() - i,
    {
        m.push(safe_for(name[i]));
        assert(mapped.take(i + 1) =~= mapped.take(i as int).push(mapped[i as int]));
        i += 1;
    }
    assert(mapped.take(name.len() as int) =~= mapped);
    let to: usize = m.len();
    let mut a: usize = 0;
    while a < to && m[a] == ' '
        invariant
            a <= to == m.len(),
            skip_spaces(m@) == skip_spaces(m@.subrange(a as int, to as int)),
        decreases to - a,
    {
        assert(m@.subrange(a as int, to as int).drop_first() =~= m@.subrange(a + 1, to as int));
        a += 1;
    }
    let mut b: usize = to;
    while a < b && m[b - 1] == ' '
        invariant
            a <= b <= to == m.len(),
            drop_spaces(m@.subrange(a as int, to as int)) == drop_spaces(
                m@.subrange(a as int, b as int),
            ),
        decreases b - a,
    {
        assert(m@.subrange(a as int, b as int).drop_last() =~= m@.subrange(a as int, b - 1));
        b -= 1;
    }
    let mut r: Vec<char> = Vec::new();
    let mut k: usize = a;
    while k < b
        invariant
            a <= k <= b <= m.len(),
            r@ == m@.subrange(a as int, k as int),
        decreases b - k,
    {
        r.push(m[k]);
        assert(m@.subrange(a as int, k + 1) =~= m@.subrange(a as int, k as int).push(m@[k as int]));
        k += 1;
    }
    assert(m@.subrange(0, to as int) =~= m@);
    r
}

/// The name that the title `name` gives a file.
pub fn sanitize_filename(name: &str) -> (r: String)
    ensures
        r@ == sanitized(name@),
{
    let chars = chars_of(name);
    let clean = sanitized_chars(&chars);
    string_of(&clean)
}

/// The position of the last `c` in `s`, or -1 where `s` holds none.
pub open spec fn last_index_of(s: Seq<char>, c: char) -> int
    decreases s.len(),
{
    if s.len() == 0 {
        -1
    } else if s.last() == c {
        s.len() - 1
    } else {
        last_index_of(s.drop_last(), c)
    }
}

/// A file name without its extension: what stands before the last dot,
/// and the whole name where it holds no dot or only the one it begins
/// with.
pub open spec fn file_stem(name: Seq<char>) -> Seq<char> {
    let dot = last_index_of(name, '.');
    if dot <= 0 {
        name
    } else {
        name.take(dot)
    }
}

/// What names one entry of a directory: a text that is not empty, holds no
/// slash, and is neither `.` nor `..`.
pub open spec fn is_file_name(name: Seq<char>) -> bool {
    name.len() > 0 && !name.contains('/') && name != seq!['.'] && name != seq!['.', '.']
}

/// The name of the profile that lives in the directory entry `file_name`:
/// the entry's name without its extension.
pub fn path_to_profile_name(file_name: &str) -> (r: Result<String, ThecaError>)
    requires
        is_file_name(file_name@),
    ensures
        r is Ok,
        r->Ok_0@ == file_stem(file_name@),
{
    let v = chars_of(file_name);
    let mut i: usize = v.len();
    assert(v@.take(v.len() as int) =~= v@);
    while i > 0 && v[i - 1] != '.'
        invariant
            i <= v.len(),
            last_index_of(v@, '.') == last_index_of(v@.take(i as int), '.'),
        decreases i,
    {
        assert(v@.take(i as int).drop_last() =~= v@.take(i - 1));
        i -= 1;
    }
    if i <= 1 {
        Ok(string_of(&v))
    } else {
        assert(v@.take(i as int).last() == '.');
        assert(v@.take(i - 1) =~= v@.subrange(0, i - 1));
        Ok(string_between(&v, 0, i - 1))
    }
}

} // verus!
