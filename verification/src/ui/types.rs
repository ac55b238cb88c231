//! The state of the screen.
use vstd::prelude::*;
use super::theme::{Theme, ThemeView};
use crate::diff::{
    BranchStatus, BranchView, CommitInfo, CommitView, DiffSource, FileChanges, FileMetaMap,
    FilesView, MetaView, SourceView,
};
use crate::names::NameMap;

verus! {

/// The whole text of files on both sides, by path.
pub type FullContent = NameMap<(Vec<String>, Vec<String>)>;

/// The whole text of files, as a mathematical value.
pub type FullView = Map<Seq<char>, (Seq<Seq<char>>, Seq<Seq<char>>)>;

/// What the screen is used for.
#[derive(Clone, Copy, Debug, PartialEq, Eq, Structural)]
pub enum AppMode {
    Diff,
    Rebase,
    Log,
    RemotePicker,
}

/// What was decided about a change.
#[derive(Clone, Copy, Debug, PartialEq, Eq, Structural)]
pub enum ChangeState {
    Unselected,
    Accepted,
    Rejected,
}

/// A pane of the screen.
#[derive(Clone, Copy, Debug, PartialEq, Eq, Structural)]
pub enum Pane {
    FileList,
    DiffContent,
}

/// How a diff is laid out.
#[derive(Clone, Copy, Debug, PartialEq, Eq, Structural)]
pub enum ViewMode {
    SideBySide,
    Unified,
}

/// A change that can be accepted or rejected.
#[derive(Debug, PartialEq)]
pub struct Change {
    /// The number of the line.
    pub line_num: usize,
    /// Its text.
    pub content: String,
    /// The text of the line on the other side that it is paired with.
    pub paired_content: Option<String>,
    /// What was decided.
    pub state: ChangeState,
    /// Whether the line is one of the left side.
    pub is_base: bool,
    /// The lines around it.
    pub context: Vec<String>,
    /// For an added line that has no pair: the line of the left side that it
    /// goes before.
    pub base_insert_pos: Option<usize>,
}

/// A change, as a mathematical value.
pub struct ChangeView {
    pub line_num: usize,
    pub content: Seq<char>,
    pub paired_content: Option<Seq<char>>,
    pub state: ChangeState,
    pub is_base: bool,
    pub context: Seq<Seq<char>>,
    pub base_insert_pos: Option<usize>,
}

impl DeepView for Change {
    type V = ChangeView;

    open spec fn deep_view(&self) -> ChangeView {
        ChangeView {
            line_num: self.line_num,
            content: self.content@,
            paired_content: self.paired_content.deep_view(),
            state: self.state,
            is_base: self.is_base,
            context: self.context.deep_view(),
            base_insert_pos: self.base_insert_pos,
        }
    }
}

/// The state of the screen.
pub struct App {
    /// The changed files.
    pub file_changes: FileChanges,
    /// The whole text of changed files on both sides, where it is known.
    pub full_content: FullContent,
    /// What else is known of the changed files.
    pub file_meta: FileMetaMap,
    /// The title of the left side.
    pub left_label: String,
    /// The title of the right side.
    pub right_label: String,
    /// The selected file, by its place in `file_names`.
    pub current_file_idx: usize,
    /// The files that are listed, in order.
    pub file_names: Vec<String>,
    /// The first row shown of each file.
    pub scroll_positions: NameMap<usize>,
    /// The first column shown of each file.
    pub h_scroll_positions: NameMap<usize>,
    /// The pane that the keys act on.
    pub focused_pane: Pane,
    /// How a diff is laid out.
    pub view_mode: ViewMode,
    /// What the screen is used for.
    pub app_mode: AppMode,
    /// The changes that can be accepted or rejected, by file.
    pub rebase_changes: NameMap<Vec<Change>>,
    /// The selected change of the selected file.
    pub current_change_idx: usize,
    /// What the rebase window says.
    pub rebase_notification: Option<String>,
    /// Whether the rebase window is shown.
    pub show_rebase_modal: bool,
    /// What the last action said. The next key clears it.
    pub status_message: Option<String>,
    /// Whether the help window is shown.
    pub show_help_modal: bool,
    /// The colours.
    pub theme: Theme,
    /// The themes that can be chosen.
    pub theme_cycle: Vec<Theme>,
    /// The chosen theme, by its place in `theme_cycle`.
    pub theme_cycle_idx: usize,
    /// Where the diff comes from.
    pub diff_source: DiffSource,
    /// The commits of the log.
    pub commits: Vec<CommitInfo>,
    /// The selected commit.
    pub current_commit_idx: usize,
    /// The source to go back to when the log is left.
    pub log_return_source: Option<DiffSource>,
    /// The remotes to choose from.
    pub remotes: Vec<String>,
    /// The selected remote.
    pub current_remote_idx: usize,
    /// How the branch stands to its upstream.
    pub branch_status: Option<BranchStatus>,
    /// The width of the file list, in percent.
    pub file_list_width_pct: u16,
    /// Whether the mouse holds the divider.
    pub resizing_divider: bool,
    /// Whether whole files are shown rather than hunks.
    pub full_file: bool,
    /// Whether long lines are wrapped.
    pub wrap_mode: bool,
    /// Whether renames without content changes are left out of the list.
    pub hide_pure_renames: bool,
    /// Whether the list is shown as a tree.
    pub file_tree_view: bool,
    /// A commit message that waits to be confirmed.
    pub pending_commit_message: Option<String>,
    /// Whether the commit window is shown.
    pub show_commit_modal: bool,
    /// The line of the diff that the cursor is on.
    pub diff_cursor: usize,
    /// The line at which a selection started.
    pub selection_anchor: Option<usize>,
    /// Whether the mouse extends the selection.
    pub mouse_selecting: bool,
}

/// The state of the screen, as a mathematical value.
#[verifier::ext_equal]
pub struct AppView {
    pub file_changes: FilesView,
    pub full_content: FullView,
    pub file_meta: MetaView,
    pub left_label: Seq<char>,
    pub right_label: Seq<char>,
    pub current_file_idx: usize,
    pub file_names: Seq<Seq<char>>,
    pub scroll_positions: Map<Seq<char>, usize>,
    pub h_scroll_positions: Map<Seq<char>, usize>,
    pub focused_pane: Pane,
    pub view_mode: ViewMode,
    pub app_mode: AppMode,
    pub rebase_changes: Map<Seq<char>, Seq<ChangeView>>,
    pub current_change_idx: usize,
    pub rebase_notification: Option<Seq<char>>,
    pub show_rebase_modal: bool,
    pub status_message: Option<Seq<char>>,
    pub show_help_modal: bool,
    pub theme: ThemeView,
    pub theme_cycle: Seq<ThemeView>,
    pub theme_cycle_idx: usize,
    pub diff_source: SourceView,
    pub commits: Seq<CommitView>,
    pub current_commit_idx: usize,
    pub log_return_source: Option<SourceView>,
    pub remotes: Seq<Seq<char>>,
    pub current_remote_idx: usize,
    pub branch_status: Option<BranchView>,
    pub file_list_width_pct: u16,
    pub resizing_divider: bool,
    pub full_file: bool,
    pub wrap_mode: bool,
    pub hide_pure_renames: bool,
    pub file_tree_view: bool,
    pub pending_commit_message: Option<Seq<char>>,
    pub show_commit_modal: bool,
    pub diff_cursor: usize,
    pub selection_anchor: Option<usize>,
    pub mouse_selecting: bool,
}

impl DeepView for App {
    type V = AppView;

    open spec fn deep_view(&self) -> AppView {
        AppView {
            file_changes: self.file_changes.deep_view(),
            full_content: self.full_content.deep_view(),
            file_meta: self.file_meta.deep_view(),
            left_label: self.left_label@,
            right_label: self.right_label@,
            current_file_idx: self.current_file_idx,
            file_names: self.file_names.deep_view(),
            scroll_positions: self.scroll_positions@,
            h_scroll_positions: self.h_scroll_positions@,
            focused_pane: self.focused_pane,
            view_mode: self.view_mode,
            app_mode: self.app_mode,
            rebase_changes: self.rebase_changes.deep_view(),
            current_change_idx: self.current_change_idx,
            rebase_notification: self.rebase_notification.deep_view(),
            show_rebase_modal: self.show_rebase_modal,
            status_message: self.status_message.deep_view(),
            show_help_modal: self.show_help_modal,
            theme: self.theme.deep_view(),
            theme_cycle: self.theme_cycle.deep_view(),
            theme_cycle_idx: self.theme_cycle_idx,
            diff_source: self.diff_source@,
            commits: self.commits.deep_view(),
            current_commit_idx: self.current_commit_idx,
            log_return_source: self.log_return_source.deep_view(),
            remotes: self.remotes.deep_view(),
            current_remote_idx: self.current_remote_idx,
            branch_status: self.branch_status.deep_view(),
            file_list_width_pct: self.file_list_width_pct,
            resizing_divider: self.resizing_divider,
            full_file: self.full_file,
            wrap_mode: self.wrap_mode,
            hide_pure_renames: self.hide_pure_renames,
            file_tree_view: self.file_tree_view,
            pending_commit_message: self.pending_commit_message.deep_view(),
            show_commit_modal: self.show_commit_modal,
            diff_cursor: self.diff_cursor,
            selection_anchor: self.selection_anchor,
            mouse_selecting: self.mouse_selecting,
        }
    }
}

impl AppView {
    /// The selected file.
    pub open spec fn current_file(self) -> Option<Seq<char>> {
        if self.current_file_idx < self.file_names.len() {
            Some(self.file_names[self.current_file_idx as int])
        } else {
            None
        }
    }

    /// The same state with the cursor at the start and nothing selected.
    pub open spec fn unselected(self) -> AppView {
        AppView { diff_cursor: 0, selection_anchor: None, mouse_selecting: false, ..self }
    }

    /// The same state with another file selected. What was selected in the diff
    /// is given up with the file.
    pub open spec fn at_file(self, i: usize) -> AppView {
        if i == self.current_file_idx {
            self
        } else {
            AppView { current_file_idx: i, ..self }.unselected()
        }
    }

    /// The first and the last line of the selection.
    pub open spec fn selection(self) -> Option<(usize, usize)> {
        match self.selection_anchor {
            Some(anchor) => if anchor <= self.diff_cursor {
                Some((anchor, self.diff_cursor))
            } else {
                Some((self.diff_cursor, anchor))
            },
            None => None,
        }
    }

    /// The same state with a message.
    pub open spec fn told(self, message: Seq<char>) -> AppView {
        AppView { status_message: Some(message), ..self }
    }
}

impl App {
    /// Puts the cursor at the start of the diff and selects nothing.
    pub fn reset_diff_selection(&mut self)
        ensures
            final(self).deep_view() == old(self).deep_view().unselected(),
    {
        self.diff_cursor = 0;
        self.selection_anchor = None;
        self.mouse_selecting = false;
    }

    /// The first and the last line of the selection.
    pub fn selection_range(&self) -> (r: Option<(usize, usize)>)
        ensures
            r == self.deep_view().selection(),
    {
        match self.selection_anchor {
            Some(anchor) => if anchor <= self.diff_cursor {
                Some((anchor, self.diff_cursor))
            } else {
                Some((self.diff_cursor, anchor))
            },
            None => None,
        }
    }

    /// Selects another file.
    pub fn select_file(&mut self, i: usize)
        ensures
            final(self).deep_view() == old(self).deep_view().at_file(i),
    {
        if i != self.current_file_idx {
            self.current_file_idx = i;
            self.reset_diff_selection();
        }
    }

    /// Sets the message.
    pub fn tell(&mut self, message: String)
        ensures
            final(self).deep_view() == old(self).deep_view().told(message@),
    {
        self.status_message = Some(message);
    }

    /// The selected file.
    pub fn current_file(&self) -> (r: Option<&String>)
        ensures
            match r {
                Some(name) => self.deep_view().current_file() == Some(name@),
                None => self.deep_view().current_file() is None,
            },
    {
        if self.current_file_idx < self.file_names.len() {
            assert(self.file_names.deep_view()[self.current_file_idx as int]
                == self.file_names@[self.current_file_idx as int]@);
            Some(&self.file_names[self.current_file_idx])
        } else {
            None
        }
    }
}

} // verus!
