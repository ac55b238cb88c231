//! What the mouse does.
use vstd::prelude::*;
use super::files;
use super::keys;
use super::types::{App, AppMode, AppView, Pane};

verus! {

/// What the mouse did.
#[derive(Clone, Copy, Debug, PartialEq, Eq, Structural)]
pub enum MouseKind {
    /// The left button was pressed.
    LeftDown,
    /// The mouse was moved with the left button held.
    LeftDrag,
    /// The left button was let go.
    LeftUp,
    ScrollDown,
    ScrollUp,
    ScrollLeft,
    ScrollRight,
    Other,
}

/// What the mouse did, and where.
#[derive(Clone, Copy, Debug, PartialEq, Eq, Structural)]
pub struct Mouse {
    pub kind: MouseKind,
    pub column: u16,
    pub row: u16,
}

/// How far the wheel scrolls.
pub const WHEEL_STEP: usize = 3;

/// The first row of the file list, below the header and the border.
pub const LIST_TOP: u16 = 2;

/// The width of the file list on a screen of this width. It is cut down to 16
/// bits.
pub open spec fn list_width(width: u16, pct: u16) -> int {
    (width * pct / 100) % 65536
}

/// The width of the file list, in percent, when the divider is dragged to
/// `column`.
pub open spec fn dragged_pct(column: u16, width: u16) -> u16 {
    let raw = (column * 100 / (width as int)) % 65536;
    if raw < 10 {
        10
    } else if raw > 60 {
        60
    } else {
        raw as u16
    }
}

/// Whether a row lies between the header and the help line.
pub open spec fn is_inside(row: u16, height: u16) -> bool {
    0 < row && row + 1 < height
}

impl AppView {
    /// Whether the mouse is on the divider between the file list and the diff.
    pub open spec fn on_divider(self, mouse: Mouse, width: u16, height: u16) -> bool {
        let edge = list_width(width, self.file_list_width_pct);
        is_inside(mouse.row, height) && edge - 1 <= mouse.column <= edge + 1
    }

    /// Whether the mouse is in the file list.
    pub open spec fn in_file_list(self, mouse: Mouse, width: u16, height: u16) -> bool {
        is_inside(mouse.row, height) && mouse.column < list_width(width, self.file_list_width_pct)
    }

    /// After a click into the file list: the file under the mouse is selected.
    pub open spec fn clicked(self, row: u16, height: u16) -> AppView {
        let shown = if height >= 4 {
            height - 4
        } else {
            0
        };
        let target = files::list_offset(
            self.current_file_idx as int,
            self.file_names.len() as int,
            shown,
        ) + (row - LIST_TOP);
        if row >= LIST_TOP && target < self.file_names.len() {
            AppView { focused_pane: Pane::FileList, ..self.at_file(target as usize) }
        } else {
            self
        }
    }

    /// The line of the diff in a row of the screen. Rows of wrapped lines are not
    /// lines.
    pub open spec fn line_in(self, row: u16, height: u16) -> Option<usize> {
        let line = self.scroll() + (row - LIST_TOP);
        if !self.wrap_mode && LIST_TOP <= row && row + 2 < height && line < self.line_count() {
            Some(line as usize)
        } else {
            None
        }
    }

    /// After a click into the diff: the cursor is on the line under the mouse, and a
    /// selection starts there.
    pub open spec fn pointed(self, line: usize) -> AppView {
        AppView {
            diff_cursor: line,
            selection_anchor: Some(line),
            mouse_selecting: true,
            focused_pane: Pane::DiffContent,
            ..self
        }
    }

    /// The selection reaches to the line in this row, above or below the rows that
    /// are shown too.
    pub open spec fn extended(self, row: u16) -> AppView {
        let line = self.scroll() + (row - LIST_TOP);
        if self.line_count() == 0 || line < 0 {
            self.cursor_at(0)
        } else if line < self.line_count() {
            self.cursor_at(line as usize)
        } else {
            self.cursor_at((self.line_count() - 1) as usize)
        }
    }

    /// The mouse extends the selection no more. A click alone selects nothing.
    pub open spec fn let_go(self) -> AppView {
        AppView {
            mouse_selecting: false,
            selection_anchor: if self.selection_anchor == Some(self.diff_cursor) {
                None
            } else {
                self.selection_anchor
            },
            ..self
        }
    }

    /// What the left button does in the diff, where it does anything.
    pub open spec fn diff_button(self, mouse: Mouse, height: u16) -> Option<AppView> {
        if mouse.kind == MouseKind::LeftDown {
            match self.line_in(mouse.row, height) {
                Some(line) => Some(self.pointed(line)),
                None => None,
            }
        } else if mouse.kind == MouseKind::LeftDrag && self.mouse_selecting {
            Some(self.extended(mouse.row))
        } else if mouse.kind == MouseKind::LeftUp && self.mouse_selecting {
            Some(self.let_go())
        } else {
            None
        }
    }

    /// What the left button does, where it does anything.
    pub open spec fn left_button(self, mouse: Mouse, width: u16, height: u16) -> Option<AppView> {
        if self.app_mode != AppMode::Diff {
            None
        } else if mouse.kind == MouseKind::LeftDown && self.on_divider(mouse, width, height) {
            Some(AppView { resizing_divider: true, ..self })
        } else if mouse.kind == MouseKind::LeftDrag && self.resizing_divider && width > 0 {
            Some(AppView { file_list_width_pct: dragged_pct(mouse.column, width), ..self })
        } else if mouse.kind == MouseKind::LeftUp && self.resizing_divider {
            Some(AppView { resizing_divider: false, ..self })
        } else if mouse.kind == MouseKind::LeftDown && self.in_file_list(mouse, width, height)
            && self.file_names.len() > 0 {
            Some(self.clicked(mouse.row, height))
        } else if mouse.kind == MouseKind::LeftDown && self.in_file_list(mouse, width, height) {
            None
        } else {
            self.diff_button(mouse, height)
        }
    }

    /// What the wheel does, up or down.
    pub open spec fn wheel(self, down: bool, in_list: bool) -> AppView {
        match self.app_mode {
            AppMode::Diff => if in_list {
                if self.file_names.len() == 0 {
                    self
                } else if down {
                    self.at_file(
                        keys::index_after(
                            self.current_file_idx,
                            WHEEL_STEP,
                            self.file_names.len(),
                        ),
                    )
                } else {
                    self.at_file(keys::less(self.current_file_idx, WHEEL_STEP))
                }
            } else if down {
                self.scrolled_to(keys::more(self.scroll(), WHEEL_STEP))
            } else {
                self.scrolled_to(keys::less(self.scroll(), WHEEL_STEP))
            },
            AppMode::Rebase => if down {
                self.change_after(WHEEL_STEP)
            } else if self.change_count() > 0 {
                AppView {
                    current_change_idx: keys::less(self.current_change_idx, WHEEL_STEP),
                    ..self
                }
            } else {
                self
            },
            AppMode::Log => if down {
                self.commit_after(WHEEL_STEP)
            } else if self.commits.len() > 0 {
                AppView {
                    current_commit_idx: keys::less(self.current_commit_idx, WHEEL_STEP),
                    ..self
                }
            } else {
                self
            },
            AppMode::RemotePicker => self,
        }
    }

    /// What the mouse does. A window keeps it from doing anything.
    pub open spec fn moused(self, mouse: Mouse, width: u16, height: u16) -> AppView {
        if self.show_help_modal || self.show_rebase_modal || self.show_commit_modal {
            self
        } else if self.left_button(mouse, width, height) is Some {
            self.left_button(mouse, width, height)->0
        } else if !is_inside(mouse.row, height) {
            self
        } else {
            let in_list = mouse.column < list_width(width, self.file_list_width_pct);
            match mouse.kind {
                MouseKind::ScrollDown => self.wheel(true, in_list),
                MouseKind::ScrollUp => self.wheel(false, in_list),
                MouseKind::ScrollLeft => if self.app_mode == AppMode::Diff && !in_list {
                    self.h_scrolled_to(keys::less(self.h_scroll(), WHEEL_STEP))
                } else {
                    self
                },
                MouseKind::ScrollRight => if self.app_mode == AppMode::Diff && !in_list {
                    self.h_scrolled_to(keys::more(self.h_scroll(), WHEEL_STEP))
                } else {
                    self
                },
                _ => self,
            }
        }
    }
}

/// The width of the file list on a screen of this width.
pub fn file_list_width(width: u16, pct: u16) -> (r: u16)
    ensures
        r == list_width(width, pct),
{
    assert(0 <= width * pct <= 65535 * 65535) by (nonlinear_arith)
        requires
            0 <= width <= 65535,
            0 <= pct <= 65535,
    ;
    let raw: u32 = width as u32 * pct as u32 / 100;
    (raw % 65536) as u16
}

/// The width of the file list, in percent, when the divider is dragged.
fn pct_at(column: u16, width: u16) -> (r: u16)
    requires
        width > 0,
    ensures
        r == dragged_pct(column, width),
{
    let raw: u32 = (column as u32 * 100 / width as u32) % 65536;
    if raw < 10 {
        10
    } else if raw > 60 {
        60
    } else {
        raw as u16
    }
}

/// Whether a row lies between the header and the help line.
fn row_inside(row: u16, height: u16) -> (r: bool)
    ensures
        r == is_inside(row, height),
{
    row > 0 && row < height.saturating_sub(1)
}

impl App {
    /// Selects the file under a click.
    fn click(&mut self, row: u16, height: u16)
        ensures
            final(self).deep_view() == old(self).deep_view().clicked(row, height),
    {
        if row >= LIST_TOP {
            let relative: usize = (row - LIST_TOP) as usize;
            let shown: usize = height.saturating_sub(4) as usize;
            let offset: usize = files::file_list_offset(
                self.current_file_idx,
                self.file_names.len(),
                shown,
            );
            if offset < self.file_names.len() && relative < self.file_names.len() - offset {
                self.select_file(offset + relative);
                self.focused_pane = Pane::FileList;
            }
        }
    }

    /// Extends the selection to the line in a row of the screen.
    fn extend_to(&mut self, row: u16)
        ensures
            final(self).deep_view() == old(self).deep_view().extended(row),
    {
        let count: usize = self.line_count();
        let scroll: usize = self.scroll();
        let line: usize = if row >= LIST_TOP {
            scroll.saturating_add((row - LIST_TOP) as usize)
        } else {
            scroll.saturating_sub((LIST_TOP - row) as usize)
        };
        self.diff_cursor = if line < count {
            line
        } else {
            count.saturating_sub(1)
        };
    }

    /// Does what the left button does in the diff, and says whether it did anything.
    fn on_diff_button(&mut self, mouse: Mouse, height: u16) -> (r: bool)
        ensures
            match old(self).deep_view().diff_button(mouse, height) {
                Some(after) => r && final(self).deep_view() == after,
                None => !r && final(self).deep_view() == old(self).deep_view(),
            },
    {
        if mouse.kind == MouseKind::LeftDown {
            if self.wrap_mode || mouse.row < LIST_TOP || mouse.row >= height.saturating_sub(2) {
                return false;
            }
            let scroll: usize = self.scroll();
            let relative: usize = (mouse.row - LIST_TOP) as usize;
            let count: usize = self.line_count();
            if scroll >= count || relative >= count - scroll {
                return false;
            }
            self.diff_cursor = scroll + relative;
            self.selection_anchor = Some(scroll + relative);
            self.mouse_selecting = true;
            self.focused_pane = Pane::DiffContent;
            return true;
        }
        if mouse.kind == MouseKind::LeftDrag && self.mouse_selecting {
            self.extend_to(mouse.row);
            return true;
        }
        if mouse.kind == MouseKind::LeftUp && self.mouse_selecting {
            self.mouse_selecting = false;
            if self.selection_anchor == Some(self.diff_cursor) {
                self.selection_anchor = None;
            }
            return true;
        }
        false
    }

    /// Does what the left button does, and says whether it did anything.
    fn on_left_button(&mut self, mouse: Mouse, width: u16, height: u16) -> (r: bool)
        ensures
            match old(self).deep_view().left_button(mouse, width, height) {
                Some(after) => r && final(self).deep_view() == after,
                None => !r && final(self).deep_view() == old(self).deep_view(),
            },
    {
        if self.app_mode != AppMode::Diff {
            return false;
        }
        let edge: u16 = file_list_width(width, self.file_list_width_pct);
        let inside = row_inside(mouse.row, height);
        let column: u32 = mouse.column as u32;
        let on_divider = inside && edge as u32 <= column + 1 && column <= edge as u32 + 1;
        if mouse.kind == MouseKind::LeftDown && on_divider {
            self.resizing_divider = true;
            return true;
        }
        if mouse.kind == MouseKind::LeftDrag && self.resizing_divider && width > 0 {
            self.file_list_width_pct = pct_at(mouse.column, width);
            return true;
        }
        if mouse.kind == MouseKind::LeftUp && self.resizing_divider {
            self.resizing_divider = false;
            return true;
        }
        if mouse.kind == MouseKind::LeftDown && inside && mouse.column < edge {
            if self.file_names.len() > 0 {
                self.click(mouse.row, height);
                return true;
            }
            return false;
        }
        self.on_diff_button(mouse, height)
    }

    /// Scrolls with the wheel, up or down.
    fn on_wheel(&mut self, down: bool, in_list: bool)
        ensures
            final(self).deep_view() == old(self).deep_view().wheel(down, in_list),
    {
        match self.app_mode {
            AppMode::Diff => {
                if in_list {
                    if self.file_names.len() > 0 {
                        let i: usize = if down {
                            keys::index_after_of(
                                self.current_file_idx,
                                WHEEL_STEP,
                                self.file_names.len(),
                            )
                        } else {
                            self.current_file_idx.saturating_sub(WHEEL_STEP)
                        };
                        self.select_file(i);
                    }
                } else {
                    let row: usize = if down {
                        self.scroll().saturating_add(WHEEL_STEP)
                    } else {
                        self.scroll().saturating_sub(WHEEL_STEP)
                    };
                    self.scroll_to(row);
                }
            },
            AppMode::Rebase => {
                if down {
                    self.change_forward(WHEEL_STEP);
                } else if self.change_count() > 0 {
                    self.current_change_idx = self.current_change_idx.saturating_sub(WHEEL_STEP);
                }
            },
            AppMode::Log => {
                if down {
                    self.commit_forward(WHEEL_STEP);
                } else if self.commits.len() > 0 {
                    self.current_commit_idx = self.current_commit_idx.saturating_sub(WHEEL_STEP);
                }
            },
            AppMode::RemotePicker => {},
        }
    }

    /// Takes in what the mouse did, on a screen of this size.
    pub fn mouse(&mut self, mouse: Mouse, width: u16, height: u16)
        ensures
            final(self).deep_view() == old(self).deep_view().moused(mouse, width, height),
    {
        if self.show_help_modal || self.show_rebase_modal || self.show_commit_modal {
            return;
        }
        if self.on_left_button(mouse, width, height) {
            return;
        }
        if !row_inside(mouse.row, height) {
            return;
        }
        let in_list = mouse.column < file_list_width(width, self.file_list_width_pct);
        match mouse.kind {
            MouseKind::ScrollDown => self.on_wheel(true, in_list),
            MouseKind::ScrollUp => self.on_wheel(false, in_list),
            MouseKind::ScrollLeft => {
                if self.app_mode == AppMode::Diff && !in_list {
                    let column: usize = self.h_scroll().saturating_sub(WHEEL_STEP);
                    self.h_scroll_to(column);
                }
            },
            MouseKind::ScrollRight => {
                if self.app_mode == AppMode::Diff && !in_list {
                    let column: usize = self.h_scroll().saturating_add(WHEEL_STEP);
                    self.h_scroll_to(column);
                }
            },
            _ => {},
        }
    }
}

} // verus!
