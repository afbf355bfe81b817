//! A note and its status.

use crate::clock::{is_stamp_failure, localize_last_touched_string, stamp_instant};
use crate::errors::ThecaError;
use crate::lineformat::{byte_len, LineFormat};
use crate::text::{
    chars_of, decimal, decimal_of, find_char, index_of_char, lemma_index_of_char_bounds,
    line_stop, string_between, string_of,
};
use crate::utils::{format_field, spaces, spec_format_field};
use vstd::prelude::*;

verus! {

/// How far a note has come.
#[derive(Clone, Copy, PartialEq, Eq, Debug, Structural)]
pub enum Status {
    Blank,
    Started,
    Urgent,
    Done,
}

impl Status {
    /// The word that shows a status: nothing for `Blank`, the variant's name
    /// for the others.
    pub open spec fn text(self) -> Seq<char> {
        match self {
            Status::Blank => ""@,
            Status::Started => "Started"@,
            Status::Urgent => "Urgent"@,
            Status::Done => "Done"@,
        }
    }

    /// The word that shows this status.
    pub fn label(&self) -> (s: &'static str)
        ensures
            s@ == self.text(),
    {
        match self {
            Status::Blank => "",
            Status::Started => "Started",
            Status::Urgent => "Urgent",
            Status::Done => "Done",
        }
    }
}

/// One note.
#[derive(Debug)]
pub struct Item {
    pub id: usize,
    pub title: String,
    pub status: Status,
    pub body: String,
    pub last_touched: String,
}

/// What a note holds, as plain values.
pub struct ItemView {
    pub id: usize,
    pub title: Seq<char>,
    pub status: Status,
    pub body: Seq<char>,
    pub last_touched: Seq<char>,
}

impl View for Item {
    type V = ItemView;

    open spec fn view(&self) -> ItemView {
        ItemView {
            id: self.id,
            title: self.title@,
            status: self.status,
            body: self.body@,
            last_touched: self.last_touched@,
        }
    }
}

impl Clone for Item {
    fn clone(&self) -> (r: Item)
        ensures
            r@ == self@,
    {
        Item {
            id: self.id,
            title: self.title.clone(),
            status: self.status,
            body: self.body.clone(),
            last_touched: self.last_touched.clone(),
        }
    }
}

/// The notes of a list, each as plain values.
pub open spec fn views(notes: Seq<Item>) -> Seq<ItemView> {
    Seq::new(notes.len(), |i: int| notes[i]@)
}

/// `value` as a field of `width` characters.
pub open spec fn field(value: Seq<char>, width: nat, truncate: bool) -> Seq<char> {
    spec_format_field(value, byte_len(value), width, truncate)
}

/// The title column of a note's line. The title of a note with a body is
/// followed by the mark ` (+)`, for which it gives up four characters,
/// unless the bodies are shown.
pub open spec fn title_field(item: ItemView, title_width: nat, search_body: bool) -> Seq<char> {
    if item.body.len() > 0 && !search_body {
        field(
            item.title,
            if title_width > 4 {
                (title_width - 4) as nat
            } else {
                0
            },
            true,
        ) + field(" (+)"@, 4, false)
    } else {
        field(item.title, title_width, true)
    }
}

/// The status column of a note's line and the gap behind it, or nothing
/// where the listing has no status column.
pub open spec fn status_cell(item: ItemView, format: LineFormat) -> Seq<char> {
    if format.status_width != 0 {
        field(item.status.text(), format.status_width as nat, false) + spaces(format.colsep as nat)
    } else {
        Seq::empty()
    }
}

/// The lines of `s` from position `from` on, each behind a tab and each
/// ended by a line feed. A line ends at a line feed, with or without a
/// carriage return before it, or at the end of the text.
pub open spec fn indented_lines(s: Seq<char>, from: int) -> Seq<char>
    decreases s.len() + 1 - from,
    via indented_lines_decreases
{
    if from < 0 || from >= s.len() {
        Seq::empty()
    } else {
        let end = index_of_char(s, '\n', from);
        seq!['\t'] + s.subrange(from, line_stop(s, from, end)) + seq!['\n'] + indented_lines(
            s,
            end + 1,
        )
    }
}

/// Each line ends at or behind its beginning, so reading goes forward.
#[via_fn]
proof fn indented_lines_decreases(s: Seq<char>, from: int) {
    if 0 <= from < s.len() {
        lemma_index_of_char_bounds(s, '\n', from);
    }
}

/// The line that lists a note: id, title, status and time stamp in their
/// columns, and below it, where the bodies are shown, the lines of the
/// body. `touched` is the time stamp as it is shown.
pub open spec fn line_text(
    item: ItemView,
    format: LineFormat,
    search_body: bool,
    touched: Seq<char>,
) -> Seq<char> {
    field(decimal(item.id as nat), format.id_width as nat, false) + spaces(format.colsep as nat)
        + title_field(item, format.title_width as nat, search_body) + spaces(format.colsep as nat)
        + status_cell(item, format) + field(touched, format.touched_width as nat, false)
        + seq!['\n'] + if search_body {
        indented_lines(item.body, 0)
    } else {
        Seq::empty()
    }
}

/// `n` spaces.
pub fn gap(n: usize) -> (r: String)
    ensures
        r@ == spaces(n as nat),
{
    let mut v: Vec<char> = Vec::new();
    let mut i: usize = 0;
    while i < n
        invariant
            i <= n,
            v@ == spaces(i as nat),
        decreases n - i,
    {
        v.push(' ');
        assert(v@ =~= spaces((i + 1) as nat));
        i += 1;
    }
    string_of(&v)
}

/// Appends the lines of `body`, each behind a tab, to `output`.
fn push_indented(output: &mut String, body: &str)
    ensures
        final(output)@ == old(output)@ + indented_lines(body@, 0),
{
    let v = chars_of(body);
    let mut from: usize = 0;
    let ghost done = Seq::<char>::empty();
    assert(output@ =~= old(output)@ + done);
    while from < v.len()
        invariant
            from <= v.len(),
            v@ == body@,
            output@ == old(output)@ + done,
            indented_lines(v@, 0) == done + indented_lines(v@, from as int),
        decreases v.len() - from,
    {
        let end = find_char(&v, '\n', from);
        let stop = if from < end && end < v.len() && v[end - 1] == '\r' {
            end - 1
        } else {
            end
        };
        let line = string_between(&v, from, stop);
        let ghost before = output@;
        output.append("\t");
        output.append(line.as_str());
        output.append("\n");
        proof {
            reveal_strlit("\t");
            reveal_strlit("\n");
            let piece = seq!['\t'] + v@.subrange(from as int, stop as int) + seq!['\n'];
            assert("\t"@ =~= seq!['\t']);
            assert("\n"@ =~= seq!['\n']);
            assert(output@ =~= before + piece);
            assert(stop == line_stop(v@, from as int, end as int));
            assert(indented_lines(v@, from as int) == piece + indented_lines(v@, end + 1));
            assert(indented_lines(v@, v.len() + 1) =~= Seq::<char>::empty());
            assert(indented_lines(v@, v.len() as int) =~= Seq::<char>::empty());
            assert(done + (piece + indented_lines(v@, end + 1)) =~= (done + piece)
                + indented_lines(v@, end + 1));
            done = done + piece;
            assert(output@ =~= old(output)@ + done);
        }
        if end == v.len() {
            from = end;
        } else {
            from = end + 1;
        }
    }
    assert(indented_lines(v@, from as int) =~= Seq::<char>::empty());
    assert(done + Seq::<char>::empty() =~= done);
}

impl Item {
    /// Appends the line that lists this note to `output`, with `touched`
    /// as its time stamp.
    pub fn write_line(
        &self,
        output: &mut String,
        line_format: &LineFormat,
        search_body: bool,
        touched: &str,
    )
        ensures
            final(output)@ == old(output)@ + line_text(self@, *line_format, search_body, touched@),
    {
        let sep = gap(line_format.colsep);
        let id = string_of(&decimal_of(self.id));
        let mut line = format_field(id.as_str(), line_format.id_width, false);
        line.append(sep.as_str());
        if !self.body.as_str().is_empty() && !search_body {
            let width = if line_format.title_width > 4 {
                line_format.title_width - 4
            } else {
                0
            };
            line.append(format_field(self.title.as_str(), width, true).as_str());
            line.append(format_field(" (+)", 4, false).as_str());
        } else {
            line.append(format_field(self.title.as_str(), line_format.title_width, true).as_str());
        }
        line.append(sep.as_str());
        if line_format.status_width != 0 {
            line.append(
                format_field(self.status.label(), line_format.status_width, false).as_str(),
            );
            line.append(sep.as_str());
        }
        line.append(format_field(touched, line_format.touched_width, false).as_str());
        line.append("\n");
        proof {
            reveal_strlit("\n");
            assert("\n"@ =~= seq!['\n']);
        }
        if search_body {
            push_indented(&mut line, self.body.as_str());
        }
        assert(line@ =~= line_text(self@, *line_format, search_body, touched@));
        output.append(line.as_str());
    }

    /// Appends the line that lists this note to `output`, its time stamp
    /// shown in the machine's time zone. A note whose time stamp cannot be
    /// read is not listed: `output` stays as it is.
    pub fn write(&self, output: &mut String, line_format: &LineFormat, search_body: bool) -> (r:
        Result<(), ThecaError>)
        ensures
            r is Ok <==> stamp_instant(self.last_touched@) is Some,
            r is Ok ==> exists|touched: Seq<char>|
                final(output)@ == old(output)@ + #[trigger] line_text(
                    self@,
                    *line_format,
                    search_body,
                    touched,
                ),
            r is Err ==> is_stamp_failure(r->Err_0) && final(output)@ == old(output)@,
    {
        let touched = match localize_last_touched_string(self.last_touched.as_str()) {
            Ok(t) => t,
            Err(e) => {
                return Err(e);
            },
        };
        self.write_line(output, line_format, search_body, touched.as_str());
        Ok(())
    }
}

} // verus!
