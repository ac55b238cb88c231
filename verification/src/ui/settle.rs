//! Scrolling that stays within what there is to be shown.
use vstd::prelude::*;
use super::align;
use super::align::LineView;
use super::draw::Rect;
use super::keys;
use super::mouse;
use super::types::{App, AppMode, AppView, ViewMode};
use super::width;
use crate::diff::{LineChange, SideView};

verus! {

/// The columns inside a pane, on a content area of this width.
pub open spec fn pane_columns(width: u16, pct: u16, mode: ViewMode) -> usize {
    let list = mouse::list_width(width, pct);
    let rest = if list < width {
        width - list
    } else {
        0
    };
    let pane = match mode {
        ViewMode::SideBySide => rest / 2,
        ViewMode::Unified => rest,
    };
    if pane >= 2 {
        (pane - 2) as usize
    } else {
        0
    }
}

/// The columns inside a pane.
fn columns_of_pane(width: u16, pct: u16, mode: ViewMode) -> (r: usize)
    ensures
        r == pane_columns(width, pct, mode),
{
    let rest: u16 = width.saturating_sub(mouse::file_list_width(width, pct));
    let pane: u16 = match mode {
        ViewMode::SideBySide => rest / 2,
        ViewMode::Unified => rest,
    };
    pane.saturating_sub(2) as usize
}

/// The rows between the borders of a pane.
pub open spec fn pane_rows(height: u16) -> usize {
    if height >= 2 {
        (height - 2) as usize
    } else {
        0
    }
}

/// How many rows there are to be shown of a file.
pub open spec fn content_rows(
    base: SideView,
    head: SideView,
    wrap: bool,
    mode: ViewMode,
    columns: usize,
) -> usize {
    let (b, h) = align::aligned(base, head);
    let u = align::unified(base, head);
    match (wrap, mode) {
        (true, ViewMode::SideBySide) => align::capped(align::paired_rows(b, h, columns)),
        (true, ViewMode::Unified) => align::capped(align::side_rows(u, columns)),
        (false, ViewMode::SideBySide) => align::capped(b.len()),
        (false, ViewMode::Unified) => align::capped(u.len()),
    }
}

/// How many rows there are to be shown of a file.
fn rows_of_content(
    base: &Vec<LineChange>,
    head: &Vec<LineChange>,
    wrap: bool,
    mode: ViewMode,
    columns: usize,
) -> (r: usize)
    ensures
        r == content_rows(base.deep_view(), head.deep_view(), wrap, mode, columns),
{
    match (wrap, mode) {
        (true, ViewMode::SideBySide) => align::aligned_wrapped_row_count(
            base.as_slice(),
            head.as_slice(),
            columns,
        ),
        (true, ViewMode::Unified) => align::unified_wrapped_row_count(
            base.as_slice(),
            head.as_slice(),
            columns,
        ),
        (false, ViewMode::SideBySide) => align::aligned_line_count(
            base.as_slice(),
            head.as_slice(),
        ),
        (false, ViewMode::Unified) => align::unified_line_count(base.as_slice(), head.as_slice()),
    }
}

/// The widest of the lines of a side, without their marks. A gap has no width.
pub open spec fn widest(side: SideView) -> usize
    decreases side.len(),
{
    if side.len() == 0 {
        0
    } else {
        let before = widest(side.drop_last());
        let last = width::str_columns(align::unmarked(side.last().1));
        if side.last().0 != 0 && before < last {
            last
        } else {
            before
        }
    }
}

/// The widest of the lines of a side.
fn widest_of(side: &Vec<LineChange>) -> (r: usize)
    ensures
        r == widest(side.deep_view()),
{
    let ghost all = side.deep_view();
    let mut r: usize = 0;
    for i in 0..side.len()
        invariant
            all == side.deep_view(),
            r == widest(all.take(i as int)),
    {
        proof {
            assert(all.take(i + 1).drop_last() =~= all.take(i as int));
            assert(all.take(i + 1).last() == (side@[i as int].0, side@[i as int].1@));
        }
        let n: usize = align::content_width(side[i].1.as_str());
        if side[i].0 != 0 && r < n {
            r = n;
        }
    }
    assert(all.take(all.len() as int) =~= all);
    r
}

impl AppView {
    /// The widest line of `file`, without its mark.
    pub open spec fn file_width(self, file: Seq<char>) -> usize {
        if self.file_changes.dom().contains(file) {
            let b = widest(self.file_changes[file].0);
            let h = widest(self.file_changes[file].1);
            if b < h {
                h
            } else {
                b
            }
        } else {
            0
        }
    }

    /// Scrolled so that the last row shown is not past the end.
    pub open spec fn within_rows(self, width: u16, height: u16) -> AppView {
        match self.current_file() {
            Some(f) => if self.file_changes.dom().contains(f) {
                let (base, head) = self.file_changes[f];
                let columns = pane_columns(width, self.file_list_width_pct, self.view_mode);
                let rows = content_rows(base, head, self.wrap_mode, self.view_mode, columns);
                if rows <= pane_rows(height) {
                    self.scrolled_to(0)
                } else if self.scroll() > rows - pane_rows(height) {
                    self.scrolled_to((rows - pane_rows(height)) as usize)
                } else {
                    self
                }
            } else {
                self
            },
            None => self,
        }
    }

    /// Scrolled so that the last column shown is not past the end of the widest
    /// line.
    pub open spec fn within_columns(self, width: u16) -> AppView {
        match self.current_file() {
            Some(f) => {
                let columns = keys::less(
                    pane_columns(width, self.file_list_width_pct, self.view_mode),
                    align::GUTTER_WIDTH,
                );
                let most = keys::less(self.file_width(f), columns);
                if self.h_scroll() > most {
                    self.h_scrolled_to(most)
                } else {
                    self
                }
            },
            None => self,
        }
    }

    /// Scrolled so that the cursor is shown. Rows of wrapped lines are not
    /// lines, so nothing is done there.
    pub open spec fn with_cursor(self, height: u16) -> AppView {
        let rows = pane_rows(height);
        if self.app_mode != AppMode::Diff || self.wrap_mode || self.current_file() is None || rows
            == 0 {
            self
        } else if self.diff_cursor < self.scroll() {
            self.scrolled_to(self.diff_cursor)
        } else if self.diff_cursor >= self.scroll() + rows {
            self.scrolled_to((self.diff_cursor + 1 - rows) as usize)
        } else {
            self
        }
    }

    /// With the cursor on the nearest row that is shown. Rows of wrapped lines are
    /// not lines, so nothing is done there.
    pub open spec fn with_cursor_along(self, height: u16) -> AppView {
        let rows = pane_rows(height);
        if self.app_mode != AppMode::Diff || self.wrap_mode || self.current_file() is None || rows
            == 0 {
            self
        } else if self.diff_cursor < self.scroll() {
            self.cursor_at(self.scroll())
        } else if self.diff_cursor >= self.scroll() + rows {
            self.cursor_at((self.scroll() + rows - 1) as usize)
        } else {
            self
        }
    }

    /// The state that a frame shows, on a content area of this size: scrolling
    /// stays within the file, and the cursor stays in sight. The diff follows the
    /// cursor of a selection. A cursor without a selection comes along where the
    /// diff is scrolled.
    pub open spec fn settled(self, content: Rect) -> AppView {
        if self.app_mode == AppMode::Diff {
            let a = self.within_rows(content.width, content.height);
            let b = if a.wrap_mode {
                a
            } else {
                a.within_columns(content.width)
            };
            if b.selection_anchor is Some {
                b.with_cursor(content.height)
            } else {
                b.with_cursor_along(content.height)
            }
        } else {
            self
        }
    }
}

impl App {
    /// The widest line of `file`, without its mark.
    pub fn max_line_width(&self, file: &str) -> (r: usize)
        ensures
            r == self.deep_view().file_width(file@),
    {
        match self.file_changes.look_up(file) {
            Some(sides) => {
                let b: usize = widest_of(&sides.0);
                let h: usize = widest_of(&sides.1);
                if b < h {
                    h
                } else {
                    b
                }
            },
            None => 0,
        }
    }

    /// Scrolls back where the last row shown is past the end.
    pub fn clamp_scroll(&mut self, content_area_width: u16, content_area_height: u16)
        ensures
            final(self).deep_view() == old(self).deep_view().within_rows(
                content_area_width,
                content_area_height,
            ),
    {
        let file = match self.current_file() {
            Some(f) => f,
            None => return,
        };
        let rows: usize = match self.file_changes.look_up(file.as_str()) {
            Some(sides) => rows_of_content(
                &sides.0,
                &sides.1,
                self.wrap_mode,
                self.view_mode,
                columns_of_pane(content_area_width, self.file_list_width_pct, self.view_mode),
            ),
            None => return,
        };
        let visible: usize = content_area_height.saturating_sub(2) as usize;
        if rows <= visible {
            self.scroll_to(0);
        } else if self.scroll() > rows - visible {
            self.scroll_to(rows - visible);
        }
    }

    /// Scrolls back where the last column shown is past the end of the widest
    /// line.
    pub fn clamp_h_scroll(&mut self, content_area_width: u16)
        ensures
            final(self).deep_view() == old(self).deep_view().within_columns(content_area_width),
    {
        let file = match self.current_file() {
            Some(f) => f,
            None => return,
        };
        let columns: usize = columns_of_pane(
            content_area_width,
            self.file_list_width_pct,
            self.view_mode,
        ).saturating_sub(align::GUTTER_WIDTH);
        let most: usize = self.max_line_width(file.as_str()).saturating_sub(columns);
        if self.h_scroll() > most {
            self.h_scroll_to(most);
        }
    }

    /// Scrolls so that the cursor is shown.
    pub fn follow_cursor(&mut self, content_height: u16)
        ensures
            final(self).deep_view() == old(self).deep_view().with_cursor(content_height),
    {
        if self.app_mode != AppMode::Diff || self.wrap_mode || self.current_file().is_none() {
            return;
        }
        let visible: usize = content_height.saturating_sub(2) as usize;
        if visible == 0 {
            return;
        }
        let scroll: usize = self.scroll();
        let cursor: usize = self.diff_cursor;
        if cursor < scroll {
            self.scroll_to(cursor);
        } else if cursor - scroll >= visible {
            self.scroll_to(cursor - visible + 1);
        }
    }

    /// Puts the cursor on the nearest row that is shown.
    fn take_cursor_along(&mut self, content_height: u16)
        ensures
            final(self).deep_view() == old(self).deep_view().with_cursor_along(content_height),
    {
        if self.app_mode != AppMode::Diff || self.wrap_mode || self.current_file().is_none() {
            return;
        }
        let visible: usize = content_height.saturating_sub(2) as usize;
        if visible == 0 {
            return;
        }
        let scroll: usize = self.scroll();
        if self.diff_cursor < scroll {
            self.diff_cursor = scroll;
        } else if self.diff_cursor - scroll >= visible {
            self.diff_cursor = scroll + visible - 1;
        }
    }

    /// Brings scrolling and the cursor in line with what is shown on a content area
    /// of this size.
    pub fn settle(&mut self, content: Rect)
        ensures
            final(self).deep_view() == old(self).deep_view().settled(content),
    {
        if self.app_mode != AppMode::Diff {
            return;
        }
        self.clamp_scroll(content.width, content.height);
        if !self.wrap_mode {
            self.clamp_h_scroll(content.width);
        }
        if self.selection_anchor.is_some() {
            self.follow_cursor(content.height);
        } else {
            self.take_cursor_along(content.height);
        }
    }
}

/// What is shown is within the file: the last row shown is not past its end.
pub proof fn law_scroll_within(a: AppView, width: u16, height: u16)
    requires
        a.current_file() matches Some(f) && a.file_changes.dom().contains(f),
    ensures
        ({
            let f = a.current_file()->0;
            let (base, head) = a.file_changes[f];
            let columns = pane_columns(width, a.file_list_width_pct, a.view_mode);
            let rows = content_rows(base, head, a.wrap_mode, a.view_mode, columns);
            let after = a.within_rows(width, height);
            after.scroll() == 0 || after.scroll() + pane_rows(height) <= rows
        }),
        a.within_rows(width, height).within_rows(width, height).scroll() == a.within_rows(
            width,
            height,
        ).scroll(),
{
    let f = a.current_file()->0;
    let after = a.within_rows(width, height);
    assert(after.current_file() == a.current_file());
    assert(after.file_changes == a.file_changes);
}

/// The cursor is in sight: it is on one of the rows that are shown, whether the
/// diff follows it or it comes along with the diff.
pub proof fn law_cursor_in_sight(a: AppView, height: u16)
    requires
        a.app_mode == AppMode::Diff,
        !a.wrap_mode,
        a.current_file() is Some,
        pane_rows(height) > 0,
    ensures
        ({
            let after = a.with_cursor(height);
            after.scroll() <= after.diff_cursor < after.scroll() + pane_rows(height)
        }),
        ({
            let after = a.with_cursor_along(height);
            after.scroll() <= after.diff_cursor < after.scroll() + pane_rows(height)
        }),
{
    assert(a.with_cursor(height).current_file() == a.current_file());
    assert(a.with_cursor_along(height).current_file() == a.current_file());
}

/// Whether `b` is `a`, but for how far it is scrolled and where the cursor is.
spec fn moved(a: AppView, b: AppView) -> bool {
    b == AppView {
        scroll_positions: b.scroll_positions,
        h_scroll_positions: b.h_scroll_positions,
        diff_cursor: b.diff_cursor,
        ..a
    }
}

proof fn lemma_rows_moved(a: AppView, width: u16, height: u16)
    ensures
        moved(a, a.within_rows(width, height)),
        a.within_rows(width, height).diff_cursor == a.diff_cursor,
{
}

proof fn lemma_columns_moved(a: AppView, width: u16)
    ensures
        moved(a, a.within_columns(width)),
        a.within_columns(width).diff_cursor == a.diff_cursor,
{
}

proof fn lemma_cursor_moved(a: AppView, height: u16)
    ensures
        moved(a, a.with_cursor(height)),
        a.with_cursor(height).diff_cursor == a.diff_cursor,
        moved(a, a.with_cursor_along(height)),
{
}

/// Settling changes how far the selected file is scrolled and where the cursor is,
/// and nothing else. While lines are selected the cursor stays where it is.
pub proof fn law_settled_keeps(a: AppView, content: Rect)
    ensures
        a.settled(content) == (AppView {
            scroll_positions: a.settled(content).scroll_positions,
            h_scroll_positions: a.settled(content).h_scroll_positions,
            diff_cursor: a.settled(content).diff_cursor,
            ..a
        }),
        a.selection_anchor is Some ==> a.settled(content).diff_cursor == a.diff_cursor,
{
    let b = a.within_rows(content.width, content.height);
    let c = if b.wrap_mode {
        b
    } else {
        b.within_columns(content.width)
    };
    lemma_rows_moved(a, content.width, content.height);
    lemma_columns_moved(b, content.width);
    lemma_cursor_moved(c, content.height);
}

proof fn lemma_widest(side: SideView)
    ensures
        forall|i: int|
            0 <= i < side.len() && (#[trigger] side[i]).0 != 0 ==> width::str_columns(
                align::unmarked(side[i].1),
            ) <= widest(side),
        widest(side) > 0 ==> exists|i: int|
            0 <= i < side.len() && (#[trigger] side[i]).0 != 0 && width::str_columns(
                align::unmarked(side[i].1),
            ) == widest(side),
    decreases side.len(),
{
    if side.len() > 0 {
        let before = side.drop_last();
        lemma_widest(before);
        assert forall|i: int| 0 <= i < side.len() && (#[trigger] side[i]).0
            != 0 implies width::str_columns(align::unmarked(side[i].1)) <= widest(side) by {
            if i < before.len() {
                assert(before[i] == side[i]);
            }
        }
        if widest(side) > 0 {
            if widest(side) == widest(before) {
                let i = choose|i: int|
                    0 <= i < before.len() && (#[trigger] before[i]).0 != 0 && width::str_columns(
                        align::unmarked(before[i].1),
                    ) == widest(before);
                assert(side[i] == before[i]);
            } else {
                assert(side[side.len() - 1] == side.last());
            }
        }
    }
}

/// Scrolled sideways, a pane ends at the latest where the widest line of the file
/// ends, and it stays where it is if it does not go further than that.
pub proof fn law_columns_within(a: AppView, width: u16, f: Seq<char>)
    requires
        a.current_file() == Some(f),
        a.h_scroll_positions.dom().contains(f),
    ensures
        ({
            let columns = pane_columns(width, a.file_list_width_pct, a.view_mode);
            let at = a.h_scroll_positions[f];
            let b = a.within_columns(width).h_scroll_positions[f];
            let room = if columns > 7 {
                columns - 7
            } else {
                0
            };
            &&& b <= at
            &&& b > 0 ==> b + room <= a.file_width(f)
            &&& b < at ==> b + room >= a.file_width(f)
        }),
{
    assert(a.h_scroll() == a.h_scroll_positions[f]);
}

/// The width of a file is that of the widest line of its two sides, without marks.
pub proof fn law_file_width(a: AppView, f: Seq<char>, line: LineView)
    requires
        a.file_changes.dom().contains(f),
        line.0 != 0,
        a.file_changes[f].0.contains(line) || a.file_changes[f].1.contains(line),
    ensures
        width::str_columns(align::unmarked(line.1)) <= a.file_width(f),
        a.file_width(f) > 0 ==> exists|l: LineView|
            (a.file_changes[f].0.contains(l) || a.file_changes[f].1.contains(l))
                && #[trigger] width::str_columns(align::unmarked(l.1)) == a.file_width(f),
{
    let (base, head) = a.file_changes[f];
    lemma_widest(base);
    lemma_widest(head);
    if base.contains(line) {
        let i = choose|i: int| 0 <= i < base.len() && base[i] == line;
        assert(base[i].0 != 0);
    }
    if head.contains(line) {
        let i = choose|i: int| 0 <= i < head.len() && head[i] == line;
        assert(head[i].0 != 0);
    }
    if a.file_width(f) > 0 {
        if widest(base) < widest(head) {
            let i = choose|i: int|
                0 <= i < head.len() && (#[trigger] head[i]).0 != 0 && width::str_columns(
                    align::unmarked(head[i].1),
                ) == widest(head);
            assert(head.contains(head[i]));
        } else {
            let i = choose|i: int|
                0 <= i < base.len() && (#[trigger] base[i]).0 != 0 && width::str_columns(
                    align::unmarked(base[i].1),
                ) == widest(base);
            assert(base.contains(base[i]));
        }
    }
}

} // verus!
