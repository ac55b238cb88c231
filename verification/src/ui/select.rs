//! Lines of the diff that are selected and copied.
use vstd::prelude::*;
use super::align;
use super::task::{Task, TaskView};
use super::types::{App, AppView, Pane, ViewMode};
use crate::diff::{FilesView, LineChange, SideView};
use crate::text;

verus! {

/// The texts of the rows of two aligned sides, without their marks. Each row gives
/// what the right side has in it, and where that has nothing, what the left side
/// has.
pub open spec fn paired_texts(b: SideView, h: SideView) -> Seq<Seq<char>> {
    Seq::new(
        b.len(),
        |r: int|
            align::unmarked(
                if h[r].0 != 0 {
                    h[r].1
                } else {
                    b[r].1
                },
            ),
    )
}

/// The texts of lines, without their marks.
pub open spec fn line_texts(lines: SideView) -> Seq<Seq<char>> {
    Seq::new(lines.len(), |r: int| align::unmarked(lines[r].1))
}

/// The texts of the lines of `file`, as they follow each other in a layout.
pub open spec fn texts_of(file: Option<Seq<char>>, files: FilesView, mode: ViewMode) -> Seq<
    Seq<char>,
> {
    match file {
        Some(f) => if files.dom().contains(f) {
            let (base, head) = files[f];
            match mode {
                ViewMode::SideBySide => {
                    let (b, h) = align::aligned(base, head);
                    paired_texts(b, h)
                },
                ViewMode::Unified => line_texts(align::unified(base, head)),
            }
        } else {
            seq![]
        },
        None => seq![],
    }
}

/// What is said once `n` lines were copied.
pub open spec fn copied_message(n: nat) -> Seq<char> {
    if n == 1 {
        "Copied 1 line"@
    } else {
        "Copied "@ + text::decimal(n) + " lines"@
    }
}

impl AppView {
    /// The texts of the lines that the cursor can be on.
    pub open spec fn shown_texts(self) -> Seq<Seq<char>> {
        texts_of(self.current_file(), self.file_changes, self.view_mode)
    }

    /// The number of lines that the cursor can be on.
    pub open spec fn line_count(self) -> nat {
        self.shown_texts().len()
    }

    /// With the cursor on another line.
    pub open spec fn cursor_at(self, line: usize) -> AppView {
        AppView { diff_cursor: line, ..self }
    }

    /// With a selection that starts at the cursor, or without the one there was.
    /// A diff without lines has nothing to select.
    pub open spec fn selection_switched(self) -> AppView {
        if self.selection_anchor is Some {
            AppView { selection_anchor: None, mouse_selecting: false, ..self }
        } else if self.line_count() > 0 {
            AppView {
                selection_anchor: Some(self.diff_cursor),
                focused_pane: Pane::DiffContent,
                ..self
            }
        } else {
            self
        }
    }

    /// The first and the last line to be copied: those of the selection, or the
    /// line under the cursor.
    pub open spec fn copy_range(self) -> (usize, usize) {
        match self.selection() {
            Some(range) => range,
            None => (self.diff_cursor, self.diff_cursor),
        }
    }

    /// The lines to be copied.
    pub open spec fn copied_texts(self) -> Seq<Seq<char>> {
        let all = self.shown_texts();
        let (lo, hi) = self.copy_range();
        if lo >= all.len() {
            seq![]
        } else if hi < all.len() {
            all.subrange(lo as int, hi + 1)
        } else {
            all.subrange(lo as int, all.len() as int)
        }
    }

    /// The selected lines, or the one under the cursor, go to the clipboard. That
    /// ends the selection.
    pub open spec fn copying(self) -> (AppView, TaskView) {
        let parts = self.copied_texts();
        if parts.len() == 0 {
            (self, TaskView::Nothing)
        } else {
            (
                AppView { selection_anchor: None, mouse_selecting: false, ..self }.told(
                    copied_message(parts.len()),
                ),
                TaskView::Copy(text::join(parts, "\n"@)),
            )
        }
    }
}

/// The texts of the rows of two aligned sides.
fn texts_of_pairs(b: &Vec<LineChange>, h: &Vec<LineChange>) -> (r: Vec<String>)
    requires
        b@.len() == h@.len(),
    ensures
        r.deep_view() == paired_texts(b.deep_view(), h.deep_view()),
{
    let ghost want = paired_texts(b.deep_view(), h.deep_view());
    let mut r: Vec<String> = Vec::new();
    for i in 0..b.len()
        invariant
            b@.len() == h@.len(),
            want == paired_texts(b.deep_view(), h.deep_view()),
            r.deep_view() == want.take(i as int),
    {
        assert(b.deep_view()[i as int] == (b@[i as int].0, b@[i as int].1@));
        assert(h.deep_view()[i as int] == (h@[i as int].0, h@[i as int].1@));
        let line = if h[i].0 != 0 {
            align::without_mark(h[i].1.as_str())
        } else {
            align::without_mark(b[i].1.as_str())
        };
        let ghost before = r.deep_view();
        let ghost last = line@;
        r.push(line);
        assert(r.deep_view() =~= before.push(last));
        assert(want.take(i + 1) =~= want.take(i as int).push(want[i as int]));
    }
    assert(want.take(want.len() as int) =~= want);
    r
}

/// The texts of lines.
fn texts_of_lines(lines: &Vec<LineChange>) -> (r: Vec<String>)
    ensures
        r.deep_view() == line_texts(lines.deep_view()),
{
    let ghost want = line_texts(lines.deep_view());
    let mut r: Vec<String> = Vec::new();
    for i in 0..lines.len()
        invariant
            want == line_texts(lines.deep_view()),
            r.deep_view() == want.take(i as int),
    {
        assert(lines.deep_view()[i as int] == (lines@[i as int].0, lines@[i as int].1@));
        let line = align::without_mark(lines[i].1.as_str());
        let ghost before = r.deep_view();
        let ghost last = line@;
        r.push(line);
        assert(r.deep_view() =~= before.push(last));
        assert(want.take(i + 1) =~= want.take(i as int).push(want[i as int]));
    }
    assert(want.take(want.len() as int) =~= want);
    r
}

impl App {
    /// The texts of the lines that the cursor can be on.
    fn shown_texts(&self) -> (r: Vec<String>)
        ensures
            r.deep_view() == self.deep_view().shown_texts(),
    {
        let file = match self.current_file() {
            Some(f) => f,
            None => {
                let r: Vec<String> = Vec::new();
                assert(r.deep_view() =~= seq![]);
                return r;
            },
        };
        match self.file_changes.look_up(file.as_str()) {
            Some(sides) => match self.view_mode {
                ViewMode::SideBySide => {
                    proof {
                        align::law_aligned_lengths(sides.0.deep_view(), sides.1.deep_view());
                    }
                    let (b, h) = align::align_lines(sides.0.as_slice(), sides.1.as_slice());
                    assert(b.deep_view().len() == b@.len() && h.deep_view().len() == h@.len());
                    texts_of_pairs(&b, &h)
                },
                ViewMode::Unified => {
                    let lines = align::build_unified_lines(
                        sides.0.as_slice(),
                        sides.1.as_slice(),
                    );
                    texts_of_lines(&lines)
                },
            },
            None => {
                let r: Vec<String> = Vec::new();
                assert(r.deep_view() =~= seq![]);
                r
            },
        }
    }

    /// The number of lines that the cursor can be on.
    pub fn line_count(&self) -> (r: usize)
        ensures
            r == self.deep_view().line_count(),
    {
        let texts = self.shown_texts();
        assert(texts.deep_view().len() == texts@.len());
        texts.len()
    }

    /// Starts a selection at the cursor, or stops the one there is.
    pub fn switch_selection(&mut self)
        ensures
            final(self).deep_view() == old(self).deep_view().selection_switched(),
    {
        if self.selection_anchor.is_some() {
            self.selection_anchor = None;
            self.mouse_selecting = false;
        } else if self.line_count() > 0 {
            self.selection_anchor = Some(self.diff_cursor);
            self.focused_pane = Pane::DiffContent;
        }
    }

    /// The lines to be copied.
    fn copied_texts(&self) -> (r: Vec<String>)
        ensures
            r.deep_view() == self.deep_view().copied_texts(),
    {
        let all = self.shown_texts();
        let (lo, hi) = match self.selection_range() {
            Some(range) => range,
            None => (self.diff_cursor, self.diff_cursor),
        };
        assert(all.deep_view().len() == all@.len());
        if lo >= all.len() {
            let r: Vec<String> = Vec::new();
            assert(r.deep_view() =~= seq![]);
            return r;
        }
        let end: usize = if hi < all.len() {
            hi + 1
        } else {
            all.len()
        };
        let parts = vstd::slice::slice_subrange(all.as_slice(), lo, end);
        assert(parts.deep_view() =~= all.deep_view().subrange(lo as int, end as int));
        text::copy_strings(parts)
    }

    /// Copies the selected lines, or the one under the cursor.
    pub fn copy_selection(&mut self) -> (r: Task)
        ensures
            (final(self).deep_view(), r@) == old(self).deep_view().copying(),
    {
        let parts = self.copied_texts();
        assert(parts.deep_view().len() == parts@.len());
        if parts.len() == 0 {
            return Task::Nothing;
        }
        self.selection_anchor = None;
        self.mouse_selecting = false;
        if parts.len() == 1 {
            self.tell("Copied 1 line".to_owned());
        } else {
            let count = text::decimal_of(parts.len());
            self.tell(text::cat3("Copied ", count.as_str(), " lines"));
        }
        Task::Copy(text::joined(parts.as_slice(), "\n"))
    }
}

/// The text of a row is the code that the right side has in it, without its mark, and
/// where the right side has nothing, the code of the left side.
pub proof fn law_row_texts(b: SideView, h: SideView, r: int, mark: char, code: Seq<char>)
    requires
        0 <= r < b.len() == h.len(),
        mark == '+' || mark == '-' || mark == ' ',
    ensures
        paired_texts(b, h).len() == b.len(),
        h[r].0 > 0 && h[r].1 == seq![mark] + code ==> paired_texts(b, h)[r] == code,
        h[r].0 == 0 && b[r].1 == seq![mark] + code ==> paired_texts(b, h)[r] == code,
        line_texts(b).len() == b.len(),
        b[r].1 == seq![mark] + code ==> line_texts(b)[r] == code,
{
    assert((seq![mark] + code).skip(1) =~= code);
}

/// The texts of a file are those of the rows that the layout shows.
pub proof fn law_texts_of_layout(files: FilesView, f: Seq<char>)
    requires
        files.dom().contains(f),
    ensures
        ({
            let (left, right) = files[f];
            let (b, h) = align::aligned(left, right);
            &&& texts_of(Some(f), files, ViewMode::SideBySide) == paired_texts(b, h)
            &&& texts_of(Some(f), files, ViewMode::Unified) == line_texts(
                align::unified(left, right),
            )
        }),
{
}

} // verus!
