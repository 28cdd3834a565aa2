//! What is shown on the phone's screen, and the keys that are pressed there.

use vstd::prelude::*;

use crate::listing;

verus! {

/// A key, as far as the panels care.
#[derive(Clone, Copy, PartialEq, Eq, Structural)]
pub enum Key {
    /// The left softkey.
    Left,
    /// The right softkey.
    Right,
    /// The red key.
    End,
    Other,
}

/// Whether a panel made use of what it was given.
#[derive(Clone, Copy, PartialEq, Eq, Structural)]
pub enum Handled {
    Consumed,
    Ignored,
}

/// The colour of a line, by what it stands for.
#[derive(Clone, Copy, PartialEq, Eq, Structural)]
pub enum Tint {
    Accent,
    Text,
    Dim,
    Unread,
}

/// A line of text on the screen, between two heights.
pub struct Row {
    pub top: i32,
    pub bottom: i32,
    pub text: String,
    pub tint: Tint,
}

/// The model of a line on the screen.
#[verifier::ext_equal]
pub struct RowModel {
    pub top: int,
    pub bottom: int,
    pub text: Seq<char>,
    pub tint: Tint,
}

impl View for Row {
    type V = RowModel;

    open spec fn view(&self) -> RowModel {
        RowModel {
            top: self.top as int,
            bottom: self.bottom as int,
            text: self.text@,
            tint: self.tint,
        }
    }
}

/// The models of a list of lines on the screen.
pub open spec fn rows(list: Seq<Row>) -> Seq<RowModel> {
    list.map_values(|r: Row| r@)
}

/// All that a panel shows.
pub struct Screen {
    pub title: String,
    /// What the left softkey does.
    pub left: Option<String>,
    /// What the right softkey does.
    pub right: Option<String>,
    pub rows: Vec<Row>,
}

/// The model of what a panel shows.
#[verifier::ext_equal]
pub struct ScreenModel {
    pub title: Seq<char>,
    pub left: Option<Seq<char>>,
    pub right: Option<Seq<char>>,
    pub rows: Seq<RowModel>,
}

impl View for Screen {
    type V = ScreenModel;

    open spec fn view(&self) -> ScreenModel {
        ScreenModel {
            title: self.title@,
            left: match self.left {
                Some(s) => Some(s@),
                None => None,
            },
            right: match self.right {
                Some(s) => Some(s@),
                None => None,
            },
            rows: rows(self.rows@),
        }
    }
}

/// The part of the screen that the lines stand in.
#[derive(Clone, Copy)]
pub struct Area {
    pub top: i32,
    pub bottom: i32,
}

impl Area {
    /// Lines of this height can be laid out without leaving the range of the coordinates.
    pub open spec fn holds(self, line_h: i32) -> bool {
        &&& 1 <= line_h
        &&& self.top + line_h <= i32::MAX
        &&& self.bottom + line_h <= i32::MAX
    }

    /// Whether lines of this height can be laid out.
    pub fn can_hold(&self, line_h: i32) -> (r: bool)
        ensures
            r == self.holds(line_h),
    {
        1 <= line_h && self.top as i64 + line_h as i64 <= i32::MAX as i64 && self.bottom as i64
            + line_h as i64 <= i32::MAX as i64
    }
}

/// The lines that fit, one under the other from `top` on, all in one colour.
pub open spec fn stacked(
    list: Seq<Seq<char>>,
    tint: Tint,
    top: int,
    bottom: int,
    line_h: int,
) -> Seq<RowModel>
    decreases list.len(),
{
    if list.len() == 0 || top + line_h > bottom {
        seq![]
    } else {
        seq![RowModel { top, bottom: top + line_h, text: list[0], tint }] + stacked(
            list.skip(1),
            tint,
            top + line_h,
            bottom,
            line_h,
        )
    }
}

/// Adds a line if it fits, and gives the height where the next one goes.
pub fn push_row(
    out: &mut Vec<Row>,
    text: &str,
    tint: Tint,
    top: i32,
    bottom: i32,
    line_h: i32,
) -> (r: i32)
    requires
        line_h >= 1,
    ensures
        rows(final(out)@) == rows(old(out)@) + stacked(
            seq![text@],
            tint,
            top as int,
            bottom as int,
            line_h as int,
        ),
        r == if top + line_h > bottom {
            top as int
        } else {
            top + line_h
        },
{
    let ghost one = seq![text@];
    assert(stacked(one.skip(1), tint, top + line_h, bottom as int, line_h as int) =~= seq![]);
    if top as i64 + line_h as i64 > bottom as i64 {
        assert(rows(out@) =~= rows(old(out)@) + seq![]);
        return top;
    }
    let next: i32 = top + line_h;
    out.push(Row { top, bottom: next, text: text.to_owned(), tint });
    assert(rows(out@) =~= rows(old(out)@) + stacked(
        one,
        tint,
        top as int,
        bottom as int,
        line_h as int,
    ));
    next
}

/// Adds the lines that fit.
pub fn push_rows(
    out: &mut Vec<Row>,
    list: &Vec<String>,
    tint: Tint,
    top: i32,
    bottom: i32,
    line_h: i32,
)
    requires
        line_h >= 1,
    ensures
        rows(final(out)@) == rows(old(out)@) + stacked(
            listing::texts(list@),
            tint,
            top as int,
            bottom as int,
            line_h as int,
        ),
{
    let ghost texts = listing::texts(list@);
    let ghost goal = rows(out@) + stacked(texts, tint, top as int, bottom as int, line_h as int);
    let mut y: i32 = top;
    let mut i: usize = 0;
    assert(texts.skip(0) =~= texts);
    while i < list.len() && y as i64 + line_h as i64 <= bottom as i64
        invariant
            i <= list@.len(),
            line_h >= 1,
            texts == listing::texts(list@),
            goal == rows(out@) + stacked(
                texts.skip(i as int),
                tint,
                y as int,
                bottom as int,
                line_h as int,
            ),
        decreases list@.len() - i,
    {
        let ghost before = rows(out@);
        let ghost rest = texts.skip(i as int);
        let next: i32 = y + line_h;
        out.push(Row { top: y, bottom: next, text: list[i].clone(), tint });
        let ghost row = RowModel { top: y as int, bottom: next as int, text: rest[0], tint };
        assert(rows(out@) =~= before.push(row));
        assert(rest.skip(1) =~= texts.skip(i + 1));
        let ghost tail = stacked(
            rest.skip(1),
            tint,
            next as int,
            bottom as int,
            line_h as int,
        );
        assert(before + (seq![row] + tail) =~= rows(out@) + tail);
        y = next;
        i += 1;
    }
    assert(stacked(texts.skip(i as int), tint, y as int, bottom as int, line_h as int) =~= seq![]);
    assert(rows(out@) =~= goal);
}

/// No line sticks out of the area, lines do not overlap, each is in its colour, and a line is missing only where there
/// is no room for it.
pub proof fn law_lines_keep_to_their_area(
    list: Seq<Seq<char>>,
    tint: Tint,
    top: int,
    bottom: int,
    line_h: int,
)
    requires
        line_h >= 1,
    ensures
        ({
            let shown = stacked(list, tint, top, bottom, line_h);
            &&& shown.len() <= list.len()
            &&& forall|i: int|
                0 <= i < shown.len() ==> {
                    let row = #[trigger] shown[i];
                    &&& row.text == list[i]
                    &&& row.top == top + i * line_h
                    &&& row.bottom == row.top + line_h
                    &&& row.bottom <= bottom
                    &&& row.tint == tint
                }
            &&& shown.len() < list.len() ==> top + (shown.len() + 1) * line_h > bottom
        }),
    decreases list.len(),
{
    if list.len() > 0 && top + line_h <= bottom {
        law_lines_keep_to_their_area(list.skip(1), tint, top + line_h, bottom, line_h);
        let tail = stacked(list.skip(1), tint, top + line_h, bottom, line_h);
        let shown = stacked(list, tint, top, bottom, line_h);
        assert(shown.len() == tail.len() + 1);
        assert forall|i: int| 0 <= i < shown.len() implies {
            let row = #[trigger] shown[i];
            &&& row.text == list[i]
            &&& row.top == top + i * line_h
            &&& row.bottom == row.top + line_h
            &&& row.bottom <= bottom
            &&& row.tint == tint
        } by {
            if i > 0 {
                assert(shown[i] == tail[i - 1]);
                assert((i - 1) * line_h + line_h == i * line_h) by (nonlinear_arith);
            } else {
                assert(i * line_h == 0) by (nonlinear_arith)
                    requires
                        i == 0,
                ;
            }
        }
        let n = tail.len() as int;
        assert((n + 1) * line_h + line_h == (n + 2) * line_h) by (nonlinear_arith);
    } else {
        assert((0 + 1) * line_h == line_h) by (nonlinear_arith);
    }
}

} // verus!
