//! What keys do.
use vstd::prelude::*;
use super::types::{App, AppMode, AppView, Pane};

verus! {

/// A key.
#[derive(Clone, Copy, Debug, PartialEq, Eq, Structural)]
pub enum Key {
    Char(char),
    Enter,
    Esc,
    Tab,
    Up,
    Down,
    Left,
    Right,
    PageUp,
    PageDown,
    Home,
    End,
    Other,
}

/// How many columns a key scrolls sideways.
pub const H_STEP: usize = 5;

// ---------------------------------------------------------------------------
// Indices

/// The index after `i`, up to the last of `len`.
pub open spec fn next_index(i: usize, len: nat) -> usize {
    if i + 1 < len {
        (i + 1) as usize
    } else {
        i
    }
}

/// The index `by` after `i`, but at most the last of `len`.
pub open spec fn index_after(i: usize, by: usize, len: nat) -> usize {
    if len == 0 {
        0
    } else if i + by < len {
        (i + by) as usize
    } else {
        (len - 1) as usize
    }
}

/// `by` less than `i`, but at least 0.
pub open spec fn less(i: usize, by: usize) -> usize {
    if i >= by {
        (i - by) as usize
    } else {
        0
    }
}

/// `by` more than `i`, but at most the largest number.
pub open spec fn more(i: usize, by: usize) -> usize {
    if i + by <= usize::MAX {
        (i + by) as usize
    } else {
        usize::MAX
    }
}

/// The number of rows that a page key moves by.
pub open spec fn page(height: u16) -> usize {
    if height >= 6 {
        (height - 6) as usize
    } else {
        0
    }
}

/// The index `by` after `i`, but at most the last of `len`.
pub fn index_after_of(i: usize, by: usize, len: usize) -> (r: usize)
    ensures
        r == index_after(i, by, len as nat),
{
    if len == 0 {
        0
    } else {
        let j: usize = i.saturating_add(by);
        if j < len {
            j
        } else {
            len - 1
        }
    }
}

/// The number of rows that a page key moves by.
fn page_rows(height: u16) -> (r: usize)
    ensures
        r == page(height),
{
    height.saturating_sub(6) as usize
}

/// The first place of `name` among `names`.
pub open spec fn place_of(names: Seq<Seq<char>>, name: Seq<char>) -> Option<usize>
    decreases names.len(),
{
    if names.len() == 0 {
        None
    } else {
        match place_of(names.drop_last(), name) {
            Some(i) => Some(i),
            None => if names.last() == name {
                Some((names.len() - 1) as usize)
            } else {
                None
            },
        }
    }
}

/// The first place of `name` among `names`, or 0 where it has none.
pub open spec fn place_or_first(names: Seq<Seq<char>>, name: Option<Seq<char>>) -> usize {
    match name {
        Some(n) => match place_of(names, n) {
            Some(i) => i,
            None => 0,
        },
        None => 0,
    }
}

/// The first place of `name` among `names`, or 0 where it has none.
pub fn find_place(names: &Vec<String>, name: &Option<String>) -> (r: usize)
    ensures
        r == place_or_first(names.deep_view(), name.deep_view()),
{
    let n = match name {
        Some(n) => n,
        None => return 0,
    };
    let ghost all = names.deep_view();
    for i in 0..names.len()
        invariant
            all == names.deep_view(),
            name.deep_view() == Some(n@),
            place_of(all.take(i as int), n@) is None,
    {
        proof {
            assert(all.take(i + 1).drop_last() =~= all.take(i as int));
            assert(all.take(i + 1).last() == names@[i as int]@);
        }
        if *names[i].as_str() == *n.as_str() {
            proof {
                lemma_place_stays(all, n@, i + 1);
            }
            return i;
        }
    }
    assert(all.take(all.len() as int) =~= all);
    0
}

proof fn lemma_place_stays(names: Seq<Seq<char>>, name: Seq<char>, k: int)
    requires
        0 <= k <= names.len(),
        place_of(names.take(k), name) is Some,
    ensures
        place_of(names, name) == place_of(names.take(k), name),
    decreases names.len(),
{
    if k < names.len() {
        assert(names.drop_last().take(k) =~= names.take(k));
        lemma_place_stays(names.drop_last(), name, k);
    } else {
        assert(names.take(k) =~= names);
    }
}

// ---------------------------------------------------------------------------
// Scrolling and selecting

impl AppView {
    /// The first row shown of the selected file.
    pub open spec fn scroll(self) -> usize {
        match self.current_file() {
            Some(f) => if self.scroll_positions.dom().contains(f) {
                self.scroll_positions[f]
            } else {
                0
            },
            None => 0,
        }
    }

    /// The first column shown of the selected file.
    pub open spec fn h_scroll(self) -> usize {
        match self.current_file() {
            Some(f) => if self.h_scroll_positions.dom().contains(f) {
                self.h_scroll_positions[f]
            } else {
                0
            },
            None => 0,
        }
    }

    /// With another first row of the selected file.
    pub open spec fn scrolled_to(self, row: usize) -> AppView {
        match self.current_file() {
            Some(f) => AppView {
                scroll_positions: self.scroll_positions.insert(f, row),
                ..self
            },
            None => self,
        }
    }

    /// With another first column of the selected file.
    pub open spec fn h_scrolled_to(self, column: usize) -> AppView {
        match self.current_file() {
            Some(f) => AppView {
                h_scroll_positions: self.h_scroll_positions.insert(f, column),
                ..self
            },
            None => self,
        }
    }

    /// How many changes of the selected file there are to decide about.
    pub open spec fn change_count(self) -> nat {
        match self.current_file() {
            Some(f) => if self.rebase_changes.dom().contains(f) {
                self.rebase_changes[f].len()
            } else {
                0
            },
            None => 0,
        }
    }

    /// Further down in the diff. While lines are selected the cursor moves, and the
    /// selection with it. Otherwise the diff is scrolled.
    pub open spec fn diff_forward(self, by: usize) -> AppView {
        if self.selection_anchor is Some {
            self.cursor_at(index_after(self.diff_cursor, by, self.line_count()))
        } else {
            self.scrolled_to(more(self.scroll(), by))
        }
    }

    /// Further up in the diff, in the same way.
    pub open spec fn diff_back(self, by: usize) -> AppView {
        if self.selection_anchor is Some {
            self.cursor_at(less(self.diff_cursor, by))
        } else {
            self.scrolled_to(less(self.scroll(), by))
        }
    }

    /// One step down in the list that has the focus.
    pub open spec fn down(self) -> AppView {
        match self.app_mode {
            AppMode::Diff => match self.focused_pane {
                Pane::FileList => self.at_file(
                    next_index(self.current_file_idx, self.file_names.len()),
                ),
                Pane::DiffContent => self.diff_forward(1),
            },
            AppMode::Rebase => AppView {
                current_change_idx: next_index(self.current_change_idx, self.change_count()),
                ..self
            },
            AppMode::Log => AppView {
                current_commit_idx: next_index(self.current_commit_idx, self.commits.len()),
                ..self
            },
            AppMode::RemotePicker => self.picked(true),
        }
    }

    /// One step up in the list that has the focus.
    pub open spec fn up(self) -> AppView {
        match self.app_mode {
            AppMode::Diff => match self.focused_pane {
                Pane::FileList => self.at_file(less(self.current_file_idx, 1)),
                Pane::DiffContent => if self.selection_anchor is Some || self.scroll() > 0 {
                    self.diff_back(1)
                } else {
                    self
                },
            },
            AppMode::Rebase => AppView {
                current_change_idx: less(self.current_change_idx, 1),
                ..self
            },
            AppMode::Log => AppView {
                current_commit_idx: less(self.current_commit_idx, 1),
                ..self
            },
            AppMode::RemotePicker => self.picked(false),
        }
    }

    /// One page down in the list that has the focus.
    pub open spec fn page_down(self, height: u16) -> AppView {
        match self.app_mode {
            AppMode::Diff => match self.focused_pane {
                Pane::FileList => self.at_file(
                    index_after(self.current_file_idx, page(height), self.file_names.len()),
                ),
                Pane::DiffContent => self.diff_forward(page(height)),
            },
            AppMode::Rebase => self.change_after(page(height)),
            AppMode::Log => self.commit_after(page(height)),
            AppMode::RemotePicker => self,
        }
    }

    /// With the change selected that comes `by` later, or the last one.
    pub open spec fn change_after(self, by: usize) -> AppView {
        if self.change_count() == 0 {
            self
        } else {
            AppView {
                current_change_idx: index_after(self.current_change_idx, by, self.change_count()),
                ..self
            }
        }
    }

    /// With the commit selected that comes `by` later, or the last one.
    pub open spec fn commit_after(self, by: usize) -> AppView {
        if self.commits.len() == 0 {
            self
        } else {
            AppView {
                current_commit_idx: index_after(self.current_commit_idx, by, self.commits.len()),
                ..self
            }
        }
    }

    /// One page up in the list that has the focus.
    pub open spec fn page_up(self, height: u16) -> AppView {
        match self.app_mode {
            AppMode::Diff => match self.focused_pane {
                Pane::FileList => self.at_file(less(self.current_file_idx, page(height))),
                Pane::DiffContent => self.diff_back(page(height)),
            },
            AppMode::Rebase => AppView {
                current_change_idx: less(self.current_change_idx, page(height)),
                ..self
            },
            AppMode::Log => AppView {
                current_commit_idx: less(self.current_commit_idx, page(height)),
                ..self
            },
            AppMode::RemotePicker => self,
        }
    }

    /// The start of the list that has the focus.
    pub open spec fn to_start(self) -> AppView {
        match self.app_mode {
            AppMode::Diff => match self.focused_pane {
                Pane::FileList => self.at_file(0),
                Pane::DiffContent => if self.selection_anchor is Some {
                    self.cursor_at(0)
                } else {
                    self.scrolled_to(0)
                },
            },
            AppMode::Rebase => AppView { current_change_idx: 0, ..self },
            AppMode::Log => AppView { current_commit_idx: 0, ..self },
            AppMode::RemotePicker => self,
        }
    }

    /// The end of the list that has the focus.
    pub open spec fn to_end(self) -> AppView {
        match self.app_mode {
            AppMode::Diff => match self.focused_pane {
                Pane::FileList => self.at_file(less(self.file_names.len() as usize, 1)),
                Pane::DiffContent => if self.selection_anchor is Some {
                    self.cursor_at(less(self.line_count() as usize, 1))
                } else {
                    self.scrolled_to(usize::MAX)
                },
            },
            AppMode::Rebase => if self.change_count() == 0 {
                self
            } else {
                AppView { current_change_idx: (self.change_count() - 1) as usize, ..self }
            },
            AppMode::Log => AppView {
                current_commit_idx: less(self.commits.len() as usize, 1),
                ..self
            },
            AppMode::RemotePicker => self,
        }
    }

    /// With the next or the previous remote selected.
    pub open spec fn picked(self, forward: bool) -> AppView {
        if self.remotes.len() == 0 {
            self
        } else if forward {
            AppView {
                current_remote_idx: next_index(self.current_remote_idx, self.remotes.len()),
                ..self
            }
        } else {
            AppView { current_remote_idx: less(self.current_remote_idx, 1), ..self }
        }
    }
}

impl App {
    /// The first row shown of the selected file.
    pub fn scroll(&self) -> (r: usize)
        ensures
            r == self.deep_view().scroll(),
    {
        match self.current_file() {
            Some(f) => match self.scroll_positions.get(f.as_str()) {
                Some(n) => *n,
                None => 0,
            },
            None => 0,
        }
    }

    /// The first column shown of the selected file.
    pub fn h_scroll(&self) -> (r: usize)
        ensures
            r == self.deep_view().h_scroll(),
    {
        match self.current_file() {
            Some(f) => match self.h_scroll_positions.get(f.as_str()) {
                Some(n) => *n,
                None => 0,
            },
            None => 0,
        }
    }

    /// Shows the selected file from another row on.
    pub fn scroll_to(&mut self, row: usize)
        ensures
            final(self).deep_view() == old(self).deep_view().scrolled_to(row),
    {
        if let Some(f) = self.current_file() {
            let name = f.clone();
            self.scroll_positions.insert(name, row);
        }
        assert(self.deep_view() =~= old(self).deep_view().scrolled_to(row));
    }

    /// Shows the selected file from another column on.
    pub fn h_scroll_to(&mut self, column: usize)
        ensures
            final(self).deep_view() == old(self).deep_view().h_scrolled_to(column),
    {
        if let Some(f) = self.current_file() {
            let name = f.clone();
            self.h_scroll_positions.insert(name, column);
        }
        assert(self.deep_view() =~= old(self).deep_view().h_scrolled_to(column));
    }

    /// How many changes of the selected file there are to decide about.
    pub fn change_count(&self) -> (r: usize)
        ensures
            r == self.deep_view().change_count(),
    {
        match self.current_file() {
            Some(f) => match self.rebase_changes.get(f.as_str()) {
                Some(changes) => changes.len(),
                None => 0,
            },
            None => 0,
        }
    }

    /// Goes further down in the diff.
    fn move_forward(&mut self, by: usize)
        ensures
            final(self).deep_view() == old(self).deep_view().diff_forward(by),
    {
        if self.selection_anchor.is_some() {
            self.diff_cursor = index_after_of(self.diff_cursor, by, self.line_count());
        } else {
            let row: usize = self.scroll().saturating_add(by);
            self.scroll_to(row);
        }
    }

    /// Goes further up in the diff.
    fn move_back(&mut self, by: usize)
        ensures
            final(self).deep_view() == old(self).deep_view().diff_back(by),
    {
        if self.selection_anchor.is_some() {
            self.diff_cursor = self.diff_cursor.saturating_sub(by);
        } else {
            let row: usize = self.scroll().saturating_sub(by);
            self.scroll_to(row);
        }
    }

    /// One step down in the list that has the focus.
    pub fn move_down(&mut self)
        ensures
            final(self).deep_view() == old(self).deep_view().down(),
    {
        match self.app_mode {
            AppMode::Diff => match self.focused_pane {
                Pane::FileList => {
                    if self.file_names.len() > 1 && self.current_file_idx < self.file_names.len()
                        - 1 {
                        self.select_file(self.current_file_idx + 1);
                    }
                },
                Pane::DiffContent => {
                    self.move_forward(1);
                },
            },
            AppMode::Rebase => {
                let count: usize = self.change_count();
                if count > 1 && self.current_change_idx < count - 1 {
                    self.current_change_idx = self.current_change_idx + 1;
                }
            },
            AppMode::Log => {
                if self.commits.len() > 1 && self.current_commit_idx < self.commits.len() - 1 {
                    self.current_commit_idx = self.current_commit_idx + 1;
                }
            },
            AppMode::RemotePicker => {
                self.picker_navigate(true);
            },
        }
    }

    /// One step up in the list that has the focus.
    pub fn move_up(&mut self)
        ensures
            final(self).deep_view() == old(self).deep_view().up(),
    {
        match self.app_mode {
            AppMode::Diff => match self.focused_pane {
                Pane::FileList => {
                    self.select_file(self.current_file_idx.saturating_sub(1));
                },
                Pane::DiffContent => {
                    if self.selection_anchor.is_some() || self.scroll() > 0 {
                        self.move_back(1);
                    }
                },
            },
            AppMode::Rebase => {
                self.current_change_idx = self.current_change_idx.saturating_sub(1);
            },
            AppMode::Log => {
                self.current_commit_idx = self.current_commit_idx.saturating_sub(1);
            },
            AppMode::RemotePicker => {
                self.picker_navigate(false);
            },
        }
    }

    /// Selects the next or the previous remote.
    pub fn picker_navigate(&mut self, forward: bool)
        ensures
            final(self).deep_view() == old(self).deep_view().picked(forward),
    {
        if self.remotes.len() == 0 {
            return;
        }
        if forward {
            if self.current_remote_idx < self.remotes.len() - 1 {
                self.current_remote_idx = self.current_remote_idx + 1;
            }
        } else {
            self.current_remote_idx = self.current_remote_idx.saturating_sub(1);
        }
    }

    /// Selects a later change, or the last one.
    pub fn change_forward(&mut self, by: usize)
        ensures
            final(self).deep_view() == old(self).deep_view().change_after(by),
    {
        let count: usize = self.change_count();
        if count > 0 {
            self.current_change_idx = index_after_of(self.current_change_idx, by, count);
        }
    }

    /// Selects a later commit, or the last one.
    pub fn commit_forward(&mut self, by: usize)
        ensures
            final(self).deep_view() == old(self).deep_view().commit_after(by),
    {
        if self.commits.len() > 0 {
            self.current_commit_idx = index_after_of(
                self.current_commit_idx,
                by,
                self.commits.len(),
            );
        }
    }

    /// One page down in the list that has the focus.
    pub fn move_page_down(&mut self, height: u16)
        ensures
            final(self).deep_view() == old(self).deep_view().page_down(height),
    {
        let rows: usize = page_rows(height);
        match self.app_mode {
            AppMode::Diff => match self.focused_pane {
                Pane::FileList => {
                    let i: usize = index_after_of(
                        self.current_file_idx,
                        rows,
                        self.file_names.len(),
                    );
                    self.select_file(i);
                },
                Pane::DiffContent => {
                    self.move_forward(rows);
                },
            },
            AppMode::Rebase => {
                self.change_forward(rows);
            },
            AppMode::Log => {
                self.commit_forward(rows);
            },
            AppMode::RemotePicker => {},
        }
    }

    /// One page up in the list that has the focus.
    pub fn move_page_up(&mut self, height: u16)
        ensures
            final(self).deep_view() == old(self).deep_view().page_up(height),
    {
        let rows: usize = page_rows(height);
        match self.app_mode {
            AppMode::Diff => match self.focused_pane {
                Pane::FileList => {
                    self.select_file(self.current_file_idx.saturating_sub(rows));
                },
                Pane::DiffContent => {
                    self.move_back(rows);
                },
            },
            AppMode::Rebase => {
                self.current_change_idx = self.current_change_idx.saturating_sub(rows);
            },
            AppMode::Log => {
                self.current_commit_idx = self.current_commit_idx.saturating_sub(rows);
            },
            AppMode::RemotePicker => {},
        }
    }

    /// The start of the list that has the focus.
    pub fn move_to_start(&mut self)
        ensures
            final(self).deep_view() == old(self).deep_view().to_start(),
    {
        match self.app_mode {
            AppMode::Diff => match self.focused_pane {
                Pane::FileList => {
                    self.select_file(0);
                },
                Pane::DiffContent => {
                    if self.selection_anchor.is_some() {
                        self.diff_cursor = 0;
                    } else {
                        self.scroll_to(0);
                    }
                },
            },
            AppMode::Rebase => {
                self.current_change_idx = 0;
            },
            AppMode::Log => {
                self.current_commit_idx = 0;
            },
            AppMode::RemotePicker => {},
        }
    }

    /// The end of the list that has the focus.
    pub fn move_to_end(&mut self)
        ensures
            final(self).deep_view() == old(self).deep_view().to_end(),
    {
        match self.app_mode {
            AppMode::Diff => match self.focused_pane {
                Pane::FileList => {
                    self.select_file(self.file_names.len().saturating_sub(1));
                },
                Pane::DiffContent => {
                    if self.selection_anchor.is_some() {
                        self.diff_cursor = self.line_count().saturating_sub(1);
                    } else {
                        self.scroll_to(usize::MAX);
                    }
                },
            },
            AppMode::Rebase => {
                let count: usize = self.change_count();
                if count > 0 {
                    self.current_change_idx = count - 1;
                }
            },
            AppMode::Log => {
                self.current_commit_idx = self.commits.len().saturating_sub(1);
            },
            AppMode::RemotePicker => {},
        }
    }
}

/// The place of a name is the first where it stands, and a name that stands nowhere
/// has none.
pub proof fn law_place(names: Seq<Seq<char>>, name: Seq<char>)
    requires
        names.len() <= usize::MAX,
    ensures
        match place_of(names, name) {
            Some(i) => i < names.len() && names[i as int] == name && forall|j: int|
                0 <= j < i ==> names[j] != name,
            None => forall|j: int| 0 <= j < names.len() ==> names[j] != name,
        },
    decreases names.len(),
{
    if names.len() > 0 {
        let before = names.drop_last();
        law_place(before, name);
        assert forall|j: int| 0 <= j < before.len() implies before[j] == names[j] by {}
    }
}

} // verus!
