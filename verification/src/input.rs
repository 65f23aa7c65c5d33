//! What the panel is given by the terminal - keys, clicks, pointer moves, wheel ticks - and
//! where its click targets sit on screen. `App::handle_input` decides what each input does.
use vstd::prelude::*;

verus! {

/// A key the panel reacts to (`Other` for every key it ignores).
#[derive(Clone, Copy, PartialEq, Eq, Structural, Debug)]
pub enum Key {
    Up,
    Down,
    Enter,
    Space,
    D,
    J,
    K,
    Backspace,
    Delete,
    /// Capital `C`: shifted on purpose, since clearing everything cannot be undone.
    ShiftC,
    Esc,
    Q,
    Other,
}

/// One input event, with the pointer's column and row on screen where it has one.
#[derive(Clone, Copy, PartialEq, Eq, Structural, Debug)]
pub enum Input {
    Key(Key),
    Click { col: u16, row: u16 },
    Hover { col: u16, row: u16 },
    WheelUp,
    WheelDown,
    Other,
}

/// A rectangle of terminal cells.
#[derive(Clone, Copy, PartialEq, Eq, Structural, Debug)]
pub struct Rect16 {
    pub x: u16,
    pub y: u16,
    pub width: u16,
    pub height: u16,
}

/// Where the panel's parts sit: the close button and the "clear" button on the top row,
/// the hint row, the divider, and the list of rows below.
#[derive(Clone, Copy, PartialEq, Eq, Structural, Debug)]
pub struct PanelAreas {
    pub close: Rect16,
    pub clear_all: Rect16,
    pub hint: Rect16,
    pub divider: Rect16,
    pub list: Rect16,
}

/// Whether the cell (`col`, `row`) lies in `r`.
pub open spec fn within_spec(r: Rect16, col: u16, row: u16) -> bool {
    &&& r.x <= col
    &&& col < r.x + r.width
    &&& r.y <= row
    &&& row < r.y + r.height
}

/// Whether the cell (`col`, `row`) lies in `r`.
pub fn within(r: Rect16, col: u16, row: u16) -> (b: bool)
    ensures
        b == within_spec(r, col, row),
{
    let (c, w, x) = (col as u32, r.width as u32, r.x as u32);
    let (rw, h, y) = (row as u32, r.height as u32, r.y as u32);
    x <= c && c < x + w && y <= rw && rw < y + h
}

/// How tall one of the stacked areas is asked to be.
#[derive(Clone, Copy, PartialEq, Eq, Structural, Debug)]
pub enum RowSize {
    /// This many rows.
    Exactly(u16),
    /// At least this many rows, taking what is left.
    AtLeast(u16),
}

/// The width ratatui keeps of an area at column `x`: clipped at the screen's last column.
pub open spec fn clipped_width(x: u16, width: u16) -> u16 {
    if width > u16::MAX - x {
        (u16::MAX - x) as u16
    } else {
        width
    }
}

/// The height ratatui keeps of an area at row `y`: clipped at the screen's last row.
pub open spec fn clipped_height(y: u16, height: u16) -> u16 {
    if height > u16::MAX - y {
        (u16::MAX - y) as u16
    } else {
        height
    }
}

/// Rows a size asks for exactly (none for an `AtLeast`).
pub open spec fn exact_rows(s: RowSize) -> int {
    match s {
        RowSize::Exactly(n) => n as int,
        RowSize::AtLeast(_) => 0,
    }
}

/// Rows the sizes ask for exactly, in all.
pub open spec fn exact_total(sizes: Seq<RowSize>) -> int
    decreases sizes.len(),
{
    if sizes.len() == 0 {
        0
    } else {
        exact_total(sizes.drop_last()) + exact_rows(sizes.last())
    }
}

/// The sizes are exact rows followed by one last `AtLeast(m)`, and they fit in `height`
/// rows: the exact rows and `m` together take no more.
pub open spec fn fits_stack(sizes: Seq<RowSize>, height: int) -> bool {
    &&& sizes.len() >= 1
    &&& forall|i: int| 0 <= i < sizes.len() - 1 ==> #[trigger] sizes[i] is Exactly
    &&& sizes.last() matches RowSize::AtLeast(m) && exact_total(sizes.drop_last()) + m <= height
}

/// Area `i` of such a stack in the area at row `y`, `height` rows tall: the exact rows one
/// under the other from the top, the last area taking every row left.
pub open spec fn stacked_area(
    x: u16,
    y: u16,
    width: u16,
    height: int,
    sizes: Seq<RowSize>,
    i: int,
) -> Rect16 {
    let top = y + exact_total(sizes.take(i));
    Rect16 {
        x,
        y: top as u16,
        width,
        height: (if i < sizes.len() - 1 {
            exact_rows(sizes[i])
        } else {
            height - exact_total(sizes.drop_last())
        }) as u16,
    }
}

/// Splits `area` into areas stacked top to bottom, one per size: ratatui's
/// `Layout::vertical(..).split` on `Rect::new(..)`, with the default `Flex::Start`.
/// Trusted: claims one area per size, each with the area's column and its width as
/// `Rect::new` clips them (`changes_to_rects` copies both for a vertical split), each lying
/// within the clipped area's rows (every solver variable is required to lie in the area).
/// When the sizes are exact rows then one `AtLeast` and they fit, the weighted optimum is
/// unique - an exact row off by one costs `STRONG * 10`, while each row the last area takes
/// from the trailing spacer gains `MEDIUM` for a `MEDIUM / 10` loss - so the rows are
/// stacked from the top as asked and the last area takes the rest. Where they do not fit,
/// which rows give way depends on the solver's hash-map order, and is left unsaid.
/// `Length` and `Min` add only non-required constraints, so the split never fails.
#[verifier::external_body]
fn stack_vertically(area: Rect16, sizes: &Vec<RowSize>) -> (r: Vec<Rect16>)
    ensures
        r@.len() == sizes@.len(),
        forall|i: int|
            0 <= i < r@.len() ==> {
                &&& #[trigger] r@[i].x == area.x
                &&& r@[i].width == clipped_width(area.x, area.width)
                &&& area.y <= r@[i].y
                &&& r@[i].y + r@[i].height <= area.y + clipped_height(area.y, area.height)
            },
        fits_stack(sizes@, clipped_height(area.y, area.height) as int) ==> forall|i: int|
            0 <= i < r@.len() ==> #[trigger] r@[i] == stacked_area(
                area.x,
                area.y,
                clipped_width(area.x, area.width),
                clipped_height(area.y, area.height) as int,
                sizes@,
                i,
            ),
{
    let constraints = sizes.iter().map(|s| match s {
        RowSize::Exactly(n) => ratatui::layout::Constraint::Length(*n),
        RowSize::AtLeast(n) => ratatui::layout::Constraint::Min(*n),
    });
    let area = ratatui::layout::Rect::new(area.x, area.y, area.width, area.height);
    let parts = ratatui::layout::Layout::vertical(constraints).split(area);
    parts.iter().map(|p| Rect16 { x: p.x, y: p.y, width: p.width, height: p.height }).collect()
}

/// Width of the "clear" button's label.
pub const CLEAR_ALL_WIDTH: u16 = 5;

/// The column of the close button: the last column of the area, clipped at the screen's
/// last column.
pub open spec fn close_col(x: u16, width: u16) -> int {
    let right = x + clipped_width(x, width);
    if right >= 1 {
        right - 1
    } else {
        0
    }
}

/// The column of the "clear" button: two columns of gap and its own width before the close
/// button, or the first column.
pub open spec fn clear_all_col(x: u16, width: u16) -> int {
    if close_col(x, width) >= 2 + CLEAR_ALL_WIDTH {
        close_col(x, width) - (2 + CLEAR_ALL_WIDTH)
    } else {
        0
    }
}

/// A button one row tall at column `col` of row `row`.
pub open spec fn one_row(col: int, row: u16, width: u16) -> Rect16 {
    Rect16 { x: col as u16, y: row, width, height: 1 }
}

/// The rows from `top`, `height` of them, across the columns from `x`, `width` of them.
pub open spec fn band(x: u16, top: int, width: u16, height: int) -> Rect16 {
    Rect16 { x, y: top as u16, width, height: height as u16 }
}

/// Whether `r` spans the columns of the area at column `x`, `width` wide, and lies within
/// its rows.
pub open spec fn spans_area(r: Rect16, x: u16, y: u16, width: u16, height: u16) -> bool {
    &&& r.x == x
    &&& r.width == clipped_width(x, width)
    &&& y <= r.y
    &&& r.y + r.height <= y + clipped_height(y, height)
}

/// Lays the panel out in the area at (`x`, `y`) of `width` by `height` cells: the buttons
/// row, the hint row and the divider row, one row each, then the list taking the rest; the
/// close button in the last column of the top row, the "clear" button two columns before
/// it. Where the area has fewer than three rows, the four areas still span its columns and
/// lie within its rows, but which of them give way is the layout solver's choice.
pub fn panel_areas(x: u16, y: u16, width: u16, height: u16) -> (a: PanelAreas)
    ensures
        a.close == one_row(close_col(x, width), a.close.y, 1),
        a.clear_all == one_row(clear_all_col(x, width), a.close.y, CLEAR_ALL_WIDTH),
        y <= a.close.y <= y + clipped_height(y, height),
        spans_area(a.hint, x, y, width, height),
        spans_area(a.divider, x, y, width, height),
        spans_area(a.list, x, y, width, height),
        clipped_height(y, height) >= 3 ==> a.close.y == y && a.hint == band(
            x,
            y + 1,
            clipped_width(x, width),
            1,
        ) && a.divider == band(x, y + 2, clipped_width(x, width), 1) && a.list == band(
            x,
            y + 3,
            clipped_width(x, width),
            clipped_height(y, height) - 3,
        ),
{
    let sizes = vec![RowSize::Exactly(1), RowSize::Exactly(1), RowSize::Exactly(1), RowSize::AtLeast(0)];
    let parts = stack_vertically(Rect16 { x, y, width, height }, &sizes);
    proof {
        let h = clipped_height(y, height) as int;
        let w = clipped_width(x, width);
        let sz = sizes@;
        assert(parts@[0].x == x);
        assert(parts@[1].x == x);
        assert(parts@[2].x == x);
        assert(parts@[3].x == x);
        if h >= 3 {
            assert(sz.take(0) =~= Seq::<RowSize>::empty());
            assert(sz.take(1).drop_last() =~= sz.take(0));
            assert(sz.take(2).drop_last() =~= sz.take(1));
            assert(sz.take(3).drop_last() =~= sz.take(2));
            assert(sz.drop_last() =~= sz.take(3));
            assert(exact_total(sz.take(0)) == 0);
            assert(exact_total(sz.take(1)) == 1);
            assert(exact_total(sz.take(2)) == 2);
            assert(exact_total(sz.take(3)) == 3);
            assert(fits_stack(sz, h));
            assert(parts@[0] == stacked_area(x, y, w, h, sz, 0));
            assert(parts@[1] == stacked_area(x, y, w, h, sz, 1));
            assert(parts@[2] == stacked_area(x, y, w, h, sz, 2));
            assert(parts@[3] == stacked_area(x, y, w, h, sz, 3));
        }
    }
    let top = parts[0];
    let right = top.x.saturating_add(top.width);
    let close = Rect16 { x: right.saturating_sub(1), y: top.y, width: 1, height: 1 };
    let clear_all = Rect16 {
        x: close.x.saturating_sub(2 + CLEAR_ALL_WIDTH),
        y: top.y,
        width: CLEAR_ALL_WIDTH,
        height: 1,
    };
    PanelAreas { close, clear_all, hint: parts[1], divider: parts[2], list: parts[3] }
}

/// Where the feedback message goes on a screen `width` by `height` cells: the bottom row,
/// flush right, as wide as its `chars` characters (the count taken modulo 2^16) where the
/// screen allows.
pub open spec fn status_area_spec(width: u16, height: u16, chars: usize) -> Rect16 {
    let n = chars as u16;
    let w = if n < width {
        n
    } else {
        width
    };
    Rect16 {
        x: (width - w) as u16,
        y: if height >= 1 {
            (height - 1) as u16
        } else {
            0
        },
        width: w,
        height: 1,
    }
}

/// Where the feedback message goes (see `status_area_spec`).
pub fn status_area(width: u16, height: u16, chars: usize) -> (r: Rect16)
    ensures
        r == status_area_spec(width, height, chars),
{
    let n = chars as u16;
    let w = if n < width {
        n
    } else {
        width
    };
    Rect16 { x: width - w, y: height.saturating_sub(1), width: w, height: 1 }
}

} // verus!
