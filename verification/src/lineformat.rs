//! The widths of the columns in which notes are listed.

use crate::errors::{ErrorKind, ThecaError};
use crate::item::{views, Item, ItemView};
use crate::text::{decimal, decimal_of};
use vstd::prelude::*;
use vstd::utf8::encode_utf8;

verus! {

/// The widths of the columns of a listing, and of the gap between two
/// columns.
#[derive(Clone, Copy, Debug)]
pub struct LineFormat {
    pub colsep: usize,
    pub id_width: usize,
    pub title_width: usize,
    pub status_width: usize,
    pub touched_width: usize,
}

/// The number of bytes that a text takes in UTF-8.
pub open spec fn byte_len(s: Seq<char>) -> nat {
    encode_utf8(s).len()
}

/// The width that a note's id needs.
pub open spec fn id_need(note: ItemView) -> nat {
    decimal(note.id as nat).len()
}

/// The width that a note's title needs: the bytes of the title, and four
/// more for the mark ` (+)` that follows the title of a note with a body
/// where the bodies are not shown.
pub open spec fn title_need(note: ItemView, search_body: bool) -> nat {
    byte_len(note.title) + if note.body.len() > 0 && !search_body {
        4nat
    } else {
        0nat
    }
}

/// The width that a note's status needs.
pub open spec fn status_need(note: ItemView) -> nat {
    byte_len(note.status.text())
}

/// The greatest of what `need` gives for each of `notes`, and 0 where
/// there is no note.
pub open spec fn widest(notes: Seq<ItemView>, need: spec_fn(ItemView) -> nat) -> nat
    decreases notes.len(),
{
    if notes.len() == 0 {
        0
    } else if need(notes.last()) >= widest(notes.drop_last(), need) {
        need(notes.last())
    } else {
        widest(notes.drop_last(), need)
    }
}

/// The width of the id column: what the longest id needs, and at least 2.
pub open spec fn id_column(notes: Seq<ItemView>) -> nat {
    let w = widest(notes, |n: ItemView| id_need(n));
    if w < 2 {
        2
    } else {
        w
    }
}

/// The width of the title column before it is fitted to the console: what
/// the longest title needs, and at least 5.
pub open spec fn title_column(notes: Seq<ItemView>, search_body: bool) -> nat {
    let w = widest(notes, |n: ItemView| title_need(n, search_body));
    if w < 5 {
        5
    } else {
        w
    }
}

/// The width of the status column: one character in a condensed listing;
/// else nothing where no note has a status, and what the longest status
/// needs but at least 7 where one has.
pub open spec fn status_column(notes: Seq<ItemView>, condensed: bool) -> nat {
    let w = widest(notes, |n: ItemView| status_need(n));
    if condensed {
        1
    } else if 0 < w < 7 {
        7
    } else {
        w
    }
}

/// The width of the column of time stamps: the date alone in a condensed
/// listing, date and time of day else.
pub open spec fn touched_column(condensed: bool) -> nat {
    if condensed {
        10
    } else {
        19
    }
}

/// The width of a line with these columns and two spaces between them.
pub open spec fn columns_width(id: nat, title: nat, status: nat, touched: nat) -> nat {
    id + title + status + touched + 6
}

/// A title column that makes the line fit the console: narrower by what
/// the line is too wide, as long as something of the column is left.
pub open spec fn fit_title(title: nat, line: nat, console_width: nat) -> nat {
    if line > console_width && title > line - console_width {
        (title - (line - console_width)) as nat
    } else {
        title
    }
}

/// What a listing gives whose columns do not fit the machine word.
pub open spec fn is_too_wide(e: ThecaError) -> bool {
    e.is(ErrorKind::Generic, "the line is too wide"@) && e.detail is None
}

/// The greatest of `need` over `notes`, computed by `measure`.
fn widest_of(notes: &[Item], search_body: bool, what: u8) -> (r: Option<usize>)
    requires
        what < 3,
    ensures
        match r {
            Some(w) => w == widest(views(notes@), need_of(what, search_body)),
            None => widest(views(notes@), need_of(what, search_body)) > usize::MAX,
        },
        what != 1 ==> r is Some,
{
    let ghost all = views(notes@);
    let ghost need = need_of(what, search_body);
    let mut w: usize = 0;
    let mut i: usize = 0;
    assert(all.take(0) =~= Seq::<ItemView>::empty());
    while i < notes.len()
        invariant
            i <= notes.len(),
            what < 3,
            all == views(notes@),
            need == need_of(what, search_body),
            w == widest(all.take(i as int), need),
        decreases notes.len() - i,
    {
        let note = &notes[i];
        proof {
            assert(all.take(i + 1).drop_last() =~= all.take(i as int));
            assert(all.take(i + 1).last() == note@);
        }
        let n: usize = if what == 0 {
            decimal_of(note.id).len()
        } else if what == 1 {
            let bytes = note.title.as_str().as_bytes().len();
            if !note.body.as_str().is_empty() && !search_body {
                if bytes > usize::MAX - 4 {
                    proof {
                        lemma_widest_grows(all, need, i + 1);
                    }
                    return None;
                }
                bytes + 4
            } else {
                bytes
            }
        } else {
            note.status.label().as_bytes().len()
        };
        if n >= w {
            w = n;
        }
        i += 1;
    }
    assert(all.take(notes.len() as int) =~= all);
    Some(w)
}

/// The need that a number stands for: 0 the id's, 1 the title's, 2 the
/// status's.
pub open spec fn need_of(what: u8, search_body: bool) -> spec_fn(ItemView) -> nat {
    if what == 0 {
        |n: ItemView| id_need(n)
    } else if what == 1 {
        |n: ItemView| title_need(n, search_body)
    } else {
        |n: ItemView| status_need(n)
    }
}

/// More notes need no less.
proof fn lemma_widest_grows(notes: Seq<ItemView>, need: spec_fn(ItemView) -> nat, k: int)
    requires
        0 <= k <= notes.len(),
    ensures
        widest(notes.take(k), need) <= widest(notes, need),
    decreases notes.len() - k,
{
    if k < notes.len() {
        lemma_widest_grows(notes, need, k + 1);
        assert(notes.take(k + 1).drop_last() =~= notes.take(k));
    } else {
        assert(notes.take(k) =~= notes);
    }
}

impl LineFormat {
    /// The columns as plain numbers fit the machine word together.
    pub open spec fn wf(&self) -> bool {
        self.id_width + self.title_width + self.status_width + self.touched_width + 3
            * self.colsep <= usize::MAX
    }

    /// The columns for a listing of `notes` on a console that is
    /// `console_width` characters wide (0 where that is not known).
    pub fn new(notes: &[Item], condensed: bool, search_body: bool, console_width: usize) -> (r:
        Result<LineFormat, ThecaError>)
        ensures
            r is Ok <==> columns_width(
                id_column(views(notes@)),
                title_column(views(notes@), search_body),
                status_column(views(notes@), condensed),
                touched_column(condensed),
            ) <= usize::MAX,
            r is Ok ==> {
                let f = r->Ok_0;
                let all = views(notes@);
                &&& f.wf()
                &&& f.colsep == 2
                &&& f.id_width == id_column(all)
                &&& f.status_width == status_column(all, condensed)
                &&& f.touched_width == touched_column(condensed)
                &&& f.title_width == fit_title(
                    title_column(all, search_body),
                    columns_width(
                        id_column(all),
                        title_column(all, search_body),
                        status_column(all, condensed),
                        touched_column(condensed),
                    ),
                    console_width as nat,
                )
            },
            r is Err ==> is_too_wide(r->Err_0),
    {
        let ghost all = views(notes@);
        assert(need_of(0, search_body) == |n: ItemView| id_need(n));
        assert(need_of(1, search_body) == |n: ItemView| title_need(n, search_body));
        assert(need_of(2, search_body) == |n: ItemView| status_need(n));
        let ids = widest_of(notes, search_body, 0);
        let titles = widest_of(notes, search_body, 1);
        let statuses = widest_of(notes, search_body, 2);
        let (id_width, title_width, status_width) = match (ids, titles, statuses) {
            (Some(a), Some(b), Some(c)) => (
                if a < 2 {
                    2
                } else {
                    a
                },
                if b < 5 {
                    5
                } else {
                    b
                },
                if condensed {
                    1
                } else if 0 < c && c < 7 {
                    7
                } else {
                    c
                },
            ),
            _ => {
                return Err(ThecaError::new(ErrorKind::Generic, "the line is too wide"));
            },
        };
        let touched_width: usize = if condensed {
            10
        } else {
            19
        };
        let line: usize = match id_width.checked_add(title_width) {
            Some(x) => match x.checked_add(status_width) {
                Some(y) => match y.checked_add(touched_width + 6) {
                    Some(z) => z,
                    None => {
                        return Err(ThecaError::new(ErrorKind::Generic, "the line is too wide"));
                    },
                },
                None => {
                    return Err(ThecaError::new(ErrorKind::Generic, "the line is too wide"));
                },
            },
            None => {
                return Err(ThecaError::new(ErrorKind::Generic, "the line is too wide"));
            },
        };
        let fitted = if line > console_width && title_width > line - console_width {
            title_width - (line - console_width)
        } else {
            title_width
        };
        Ok(LineFormat { colsep: 2, id_width, title_width: fitted, status_width, touched_width })
    }

    /// The width of a line: the columns and the three gaps between them.
    pub fn line_width(&self) -> (w: usize)
        requires
            self.wf(),
        ensures
            w == self.id_width + self.title_width + self.status_width + self.touched_width + 3
                * self.colsep,
    {
        self.id_width + self.title_width + self.status_width + self.touched_width + 3 * self.colsep
    }
}

} // verus!
