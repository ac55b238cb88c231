//! Where things stand on the screen.
use vstd::prelude::*;
use super::draw::Rect;
use ratatui::layout::{Constraint, Direction, Layout};

verus! {

/// How much of an area a part takes.
#[derive(Clone, Copy, Debug, PartialEq, Eq, Structural)]
pub enum Size {
    /// So many rows or columns.
    Length(u16),
    /// At least so many.
    Min(u16),
    /// So much of the whole.
    Percentage(u16),
}

/// How an area is divided.
#[derive(Clone, Copy, Debug, PartialEq, Eq, Structural)]
pub enum Axis {
    /// Into rows.
    Rows,
    /// Into columns.
    Columns,
}

/// Whether `parts` are what `ratatui::layout::Layout::split` may divide an area
/// into.
pub uninterp spec fn may_split(
    parts: Seq<Rect>,
    axis: Axis,
    sizes: Seq<Size>,
    area: Rect,
) -> bool;

/// What holds of the parts that an area is divided into: the layout may give
/// them, there is one for each size, and each goes all the way across.
pub open spec fn divides(parts: Seq<Rect>, axis: Axis, sizes: Seq<Size>, area: Rect) -> bool {
    &&& may_split(parts, axis, sizes, area)
    &&& parts.len() == sizes.len()
    &&& forall|i: int| #![trigger parts[i]]
        0 <= i < parts.len() ==> match axis {
            Axis::Rows => parts[i].x == area.x && parts[i].width == area.width,
            Axis::Columns => parts[i].y == area.y && parts[i].height == area.height,
        }
}

/// Calls `ratatui::layout::Layout::split`, which divides an area by solving a
/// system of constraints. The solver walks hash maps that are seeded anew in
/// each process, so of the divisions that it may give, which one it gives is
/// left unsaid, and so is where the parts begin and end.
#[verifier::external_body]
fn split(axis: Axis, sizes: &[Size], area: Rect) -> (r: Vec<Rect>)
    ensures
        may_split(r@, axis, sizes@, area),
        divides(r@, axis, sizes@, area),
{
    let direction = match axis {
        Axis::Rows => Direction::Vertical,
        Axis::Columns => Direction::Horizontal,
    };
    let constraints = sizes.iter().map(
        |size| match *size {
            Size::Length(n) => Constraint::Length(n),
            Size::Min(n) => Constraint::Min(n),
            Size::Percentage(n) => Constraint::Percentage(n),
        },
    );
    let Rect { x, y, width, height } = area;
    let whole = ratatui::layout::Rect { x, y, width, height };
    let parts = Layout::default().direction(direction).constraints(constraints).split(whole);
    parts.iter().map(|p| Rect { x: p.x, y: p.y, width: p.width, height: p.height }).collect()
}

/// How the screen is divided into the header, the content and the help line.
pub open spec fn screen_sizes() -> Seq<Size> {
    seq![Size::Length(1), Size::Min(0), Size::Length(1)]
}

/// The header, the content and the help line.
pub fn screen_parts(area: Rect) -> (r: Vec<Rect>)
    ensures
        divides(r@, Axis::Rows, screen_sizes(), area),
{
    let sizes = [Size::Length(1), Size::Min(0), Size::Length(1)];
    assert(sizes@ =~= screen_sizes());
    split(Axis::Rows, &sizes, area)
}

/// What is left of the whole beside the file list, in percent.
pub open spec fn rest_of(pct: u16) -> u16 {
    if pct < 100 {
        (100 - pct) as u16
    } else {
        0
    }
}

/// How the content is divided into the file list and two panes.
pub open spec fn two_pane_sizes(pct: u16) -> Seq<Size> {
    let rest = rest_of(pct);
    seq![
        Size::Percentage(pct),
        Size::Percentage(rest / 2),
        Size::Percentage((rest - rest / 2) as u16),
    ]
}

/// The file list and two panes.
pub fn two_pane_parts(pct: u16, area: Rect) -> (r: Vec<Rect>)
    ensures
        divides(r@, Axis::Columns, two_pane_sizes(pct), area),
{
    let rest: u16 = 100u16.saturating_sub(pct);
    let left: u16 = rest / 2;
    let right: u16 = rest - left;
    let sizes = [Size::Percentage(pct), Size::Percentage(left), Size::Percentage(right)];
    assert(sizes@ =~= two_pane_sizes(pct));
    split(Axis::Columns, &sizes, area)
}

/// How the content is divided into the file list and one pane.
pub open spec fn one_pane_sizes(pct: u16) -> Seq<Size> {
    seq![Size::Percentage(pct), Size::Percentage(rest_of(pct))]
}

/// The file list and one pane.
pub fn one_pane_parts(pct: u16, area: Rect) -> (r: Vec<Rect>)
    ensures
        divides(r@, Axis::Columns, one_pane_sizes(pct), area),
{
    let sizes = [Size::Percentage(pct), Size::Percentage(100u16.saturating_sub(pct))];
    assert(sizes@ =~= one_pane_sizes(pct));
    split(Axis::Columns, &sizes, area)
}

/// How a window is divided into its message and its buttons.
pub open spec fn message_sizes(lines: nat) -> Seq<Size> {
    seq![Size::Length(low_bits(lines + 2)), Size::Length(3)]
}

/// `n`, cut down to 16 bits.
pub open spec fn low_bits(n: nat) -> u16 {
    (n % 65536) as u16
}

/// The message and the buttons of a window.
pub fn message_parts(lines: usize, area: Rect) -> (r: Vec<Rect>)
    ensures
        divides(r@, Axis::Rows, message_sizes(lines as nat), area),
{
    let rows: usize = lines % 65536;
    let n: usize = (rows + 2) % 65536;
    assert(n == low_bits((lines + 2) as nat));
    let sizes = [Size::Length(n as u16), Size::Length(3)];
    assert(sizes@ =~= message_sizes(lines as nat));
    split(Axis::Rows, &sizes, area)
}

/// How much of `have` is wanted, and how much is left on each side, in
/// percent.
pub open spec fn centered_sizes(want: u16, have: u16) -> Seq<Size> {
    let size = if want < have {
        want
    } else {
        have
    };
    let margin = Size::Percentage(((100 - size as int * 100 / have as int) / 2) as u16);
    seq![margin, Size::Length(size), margin]
}

/// Divides an area so that the middle part has the size that is wanted.
fn centered_parts(axis: Axis, want: u16, have: u16, area: Rect) -> (r: Vec<Rect>)
    requires
        have > 0,
    ensures
        divides(r@, axis, centered_sizes(want, have), area),
{
    let size: u16 = if want < have {
        want
    } else {
        have
    };
    let share: u32 = size as u32 * 100 / have as u32;
    assert(size as int * 100 / have as int <= 100) by (nonlinear_arith)
        requires
            size <= have,
            have > 0,
    ;
    let margin = Size::Percentage(((100 - share) / 2) as u16);
    let sizes = [margin, Size::Length(size), margin];
    assert(sizes@ =~= centered_sizes(want, have));
    split(axis, &sizes, area)
}

/// Whether `part` is what `centered_rect` may give: the middle column of the
/// middle row.
pub open spec fn is_centered(part: Rect, width: u16, height: u16, area: Rect) -> bool {
    if area.width == 0 || area.height == 0 {
        part == area
    } else {
        exists|rows: Seq<Rect>, columns: Seq<Rect>| #[trigger]
            divides(rows, Axis::Rows, centered_sizes(height, area.height), area)
                && #[trigger] divides(
                columns,
                Axis::Columns,
                centered_sizes(width, area.width),
                rows[1],
            ) && part == columns[1]
    }
}

/// A part of this size in the middle of an area, or as large as there is room.
pub fn centered_rect(width: u16, height: u16, area: Rect) -> (r: Rect)
    ensures
        is_centered(r, width, height, area),
{
    if area.width == 0 || area.height == 0 {
        return area;
    }
    let rows = centered_parts(Axis::Rows, height, area.height, area);
    let columns = centered_parts(Axis::Columns, width, area.width, rows[1]);
    columns[1]
}

/// The header and the help line have one row each, and the content has what is left.
pub proof fn law_screen_rows(parts: Seq<Rect>, area: Rect)
    requires
        divides(parts, Axis::Rows, screen_sizes(), area),
    ensures
        parts.len() == 3,
        may_split(parts, Axis::Rows, seq![Size::Length(1), Size::Min(0), Size::Length(1)], area),
{
}

/// The file list and the panes share the whole content. Two panes are of one size, or
/// the right one has one percent more.
pub proof fn law_columns_shared(pct: u16)
    requires
        pct <= 100,
    ensures
        ({
            let two = two_pane_sizes(pct);
            let one = one_pane_sizes(pct);
            &&& two.len() == 3 && one.len() == 2
            &&& two[0] == Size::Percentage(pct) && one[0] == Size::Percentage(pct)
            &&& two[1] is Percentage && two[2] is Percentage && one[1] is Percentage
            &&& pct + two[1]->Percentage_0 + two[2]->Percentage_0 == 100
            &&& two[1]->Percentage_0 <= two[2]->Percentage_0 <= two[1]->Percentage_0 + 1
            &&& pct + one[1]->Percentage_0 == 100
        }),
{
}

/// What is centred has the size that is wanted, or all there is, and the same margin on
/// both sides. The three make up the whole, but for at most one percent.
pub proof fn law_centred(want: u16, have: u16)
    requires
        have > 0,
    ensures
        ({
            let size = if want <= have {
                want
            } else {
                have
            };
            let sizes = centered_sizes(want, have);
            &&& sizes.len() == 3
            &&& sizes[1] == Size::Length(size)
            &&& sizes[0] is Percentage && sizes[2] == sizes[0]
            &&& -have < 100 * have - 2 * sizes[0]->Percentage_0 * have - 100 * size <= have
        }),
{
    let size = if want < have {
        want
    } else {
        have
    };
    let s = size as int;
    let h = have as int;
    let q = s * 100 / h;
    assert(0 <= q <= 100 && q * h <= s * 100 < (q + 1) * h) by (nonlinear_arith)
        requires
            0 <= s <= h,
            h > 0,
            q == s * 100 / h,
    ;
    let m = (100 - q) / 2;
    assert(2 * m == 100 - q || 2 * m == 99 - q);
    let over = 100 * h - 2 * m * h - 100 * s;
    assert(-h < over <= h) by (nonlinear_arith)
        requires
            over == 100 * h - 2 * m * h - 100 * s,
            2 * m == 100 - q || 2 * m == 99 - q,
            q * h <= s * 100 < (q + 1) * h,
            h > 0,
    ;
    assert(centered_sizes(want, have)[0]->Percentage_0 == m);
}

/// A message gets a row for each of its lines and two more, and the buttons get three.
pub proof fn law_message_rows(lines: nat)
    requires
        lines + 2 < 65536,
    ensures
        message_sizes(lines) == seq![Size::Length((lines + 2) as u16), Size::Length(3)],
{
    vstd::arithmetic::div_mod::lemma_small_mod(lines + 2, 65536);
}

} // verus!
