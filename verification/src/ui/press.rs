//! Which key does what.
use vstd::prelude::*;
use super::actions;
use super::files;
use super::keys;
use super::keys::{Key, H_STEP};
use super::task::{FetchFor, FetchView, Task, TaskView};
use super::types::{App, AppMode, AppView, ChangeState, Pane};

verus! {

impl AppView {
    /// A key while a commit message waits to be confirmed.
    pub open spec fn commit_key(self, key: Key) -> (AppView, TaskView) {
        if key == Key::Enter || key == Key::Char('y') {
            self.confirmed()
        } else if key == Key::Esc || key == Key::Char('q') || key == Key::Char('n') {
            (self.commit_cancelled(), TaskView::Nothing)
        } else {
            (self, TaskView::Nothing)
        }
    }

    /// A key while the help window is shown.
    pub open spec fn help_key(self, key: Key) -> AppView {
        if key == Key::Esc || key == Key::Char('?') || key == Key::Char('q') {
            AppView { show_help_modal: false, ..self }
        } else {
            self
        }
    }

    /// A key while the rebase window is shown.
    pub open spec fn notice_key(self, key: Key) -> (AppView, TaskView) {
        if key == Key::Char('r') {
            (self, TaskView::UpstreamForRebase)
        } else if key == Key::Char('i') || key == Key::Esc {
            (AppView { show_rebase_modal: false, ..self }, TaskView::Nothing)
        } else {
            (self, TaskView::Nothing)
        }
    }

    /// One step back: out of a commit that was opened from the log, out of the
    /// log, a rebase or the remotes, and at last out of the program.
    pub open spec fn back(self) -> (AppView, TaskView) {
        match self.app_mode {
            AppMode::Diff => if self.log_return_source is Some {
                self.leaving_log()
            } else {
                (self, TaskView::Exit { rebased: false })
            },
            AppMode::Rebase => (AppView { app_mode: AppMode::Diff, ..self }, TaskView::Nothing),
            AppMode::Log => self.leaving_log(),
            AppMode::RemotePicker => (
                self.picker_closed().told("Sync cancelled"@),
                TaskView::Nothing,
            ),
        }
    }

    /// The accepted changes are written.
    pub open spec fn writing(self) -> (AppView, TaskView) {
        let edits = actions::all_edits(self.rebase_changes);
        if edits.len() > 0 {
            (self, TaskView::Apply(edits))
        } else {
            (
                AppView { app_mode: AppMode::Diff, ..self }.told(
                    "No accepted changes to apply."@,
                ),
                TaskView::Nothing,
            )
        }
    }

    /// Whole files are shown, or hunks again.
    pub open spec fn refitting(self) -> (AppView, TaskView) {
        (
            AppView { full_file: !self.full_file, ..self },
            TaskView::Fetch {
                source: self.diff_source,
                context: files::context_lines(!self.full_file),
                purpose: FetchView::FullFile,
            },
        )
    }

    /// A letter while a diff is shown.
    pub open spec fn diff_char(self, c: char) -> (AppView, TaskView) {
        if c == 'L' {
            (self, TaskView::CommitLog)
        } else if c == 'r' {
            (self.in_rebase(), TaskView::Nothing)
        } else if c == 's' {
            self.syncing()
        } else if c == 'c' {
            (self, TaskView::ChangesForCommit)
        } else if c == 'h' {
            (AppView { focused_pane: Pane::FileList, ..self }, TaskView::Nothing)
        } else if c == 'l' {
            (AppView { focused_pane: Pane::DiffContent, ..self }, TaskView::Nothing)
        } else if c == 'T' {
            (self.tree_switched(), TaskView::Nothing)
        } else if c == 'u' {
            (self.other_layout(), TaskView::Nothing)
        } else if c == 'w' {
            (self.wrap_switched(), TaskView::Nothing)
        } else if c == 'R' {
            (self.renames_switched(), TaskView::Nothing)
        } else if c == 'v' {
            (self.selection_switched(), TaskView::Nothing)
        } else if c == 'y' {
            self.copying()
        } else if c == 'f' {
            self.refitting()
        } else {
            (self, TaskView::Nothing)
        }
    }

    /// A letter while changes are decided about.
    pub open spec fn rebase_char(self, c: char) -> (AppView, TaskView) {
        if c == 'a' {
            (self.decided(ChangeState::Accepted), TaskView::Nothing)
        } else if c == 'x' {
            (self.decided(ChangeState::Rejected), TaskView::Nothing)
        } else if c == 'c' {
            self.writing()
        } else if c == 'n' {
            (self.at_other_file(true), TaskView::Nothing)
        } else if c == 'p' {
            (self.at_other_file(false), TaskView::Nothing)
        } else {
            (self, TaskView::Nothing)
        }
    }

    /// A letter.
    pub open spec fn char_key(self, c: char) -> (AppView, TaskView) {
        if c == 'q' {
            self.back()
        } else if c == 'j' {
            (self.down(), TaskView::Nothing)
        } else if c == 'k' {
            (self.up(), TaskView::Nothing)
        } else if c == 't' {
            (self.next_theme(), TaskView::Nothing)
        } else if c == '?' {
            (AppView { show_help_modal: true, ..self }, TaskView::Nothing)
        } else {
            match self.app_mode {
                AppMode::Diff => self.diff_char(c),
                AppMode::Rebase => self.rebase_char(c),
                AppMode::Log => if c == 'L' {
                    self.leaving_log()
                } else {
                    (self, TaskView::Nothing)
                },
                AppMode::RemotePicker => (self, TaskView::Nothing),
            }
        }
    }

    /// The enter key: opens a commit, or pushes to a remote.
    pub open spec fn enter_key(self) -> TaskView {
        match self.app_mode {
            AppMode::Log => self.open_task(),
            AppMode::RemotePicker => TaskView::BranchForPicker,
            _ => TaskView::Nothing,
        }
    }

    /// The tab key and the arrows to the left and right, which move the focus.
    pub open spec fn focus_key(self, key: Key) -> AppView {
        if self.app_mode != AppMode::Diff {
            self
        } else if key == Key::Tab {
            self.other_pane()
        } else if key == Key::Left {
            AppView { focused_pane: Pane::FileList, ..self }
        } else {
            AppView { focused_pane: Pane::DiffContent, ..self }
        }
    }

    /// A key while no window is shown.
    pub open spec fn plain_key(self, key: Key, height: u16) -> (AppView, TaskView) {
        match key {
            Key::Char(c) => self.char_key(c),
            Key::Esc => self.back(),
            Key::Enter => (self, self.enter_key()),
            Key::Down => (self.down(), TaskView::Nothing),
            Key::Up => (self.up(), TaskView::Nothing),
            Key::PageDown => (self.page_down(height), TaskView::Nothing),
            Key::PageUp => (self.page_up(height), TaskView::Nothing),
            Key::Home => (self.to_start(), TaskView::Nothing),
            Key::End => (self.to_end(), TaskView::Nothing),
            Key::Tab | Key::Left | Key::Right => (self.focus_key(key), TaskView::Nothing),
            Key::Other => (self, TaskView::Nothing),
        }
    }

    /// A key. It clears the message, and a window takes it before anything
    /// else does.
    pub open spec fn pressed(self, key: Key, shift: bool, height: u16) -> (AppView, TaskView) {
        let a = AppView { status_message: None, ..self };
        if a.show_commit_modal {
            a.commit_key(key)
        } else if a.show_help_modal {
            (a.help_key(key), TaskView::Nothing)
        } else if a.show_rebase_modal {
            a.notice_key(key)
        } else if a.app_mode == AppMode::Diff && shift && key == Key::Right {
            (a.h_scrolled_to(keys::more(a.h_scroll(), H_STEP)), TaskView::Nothing)
        } else if a.app_mode == AppMode::Diff && shift && key == Key::Left {
            (a.h_scrolled_to(keys::less(a.h_scroll(), H_STEP)), TaskView::Nothing)
        } else {
            a.plain_key(key, height)
        }
    }
}

impl App {
    /// A key while a commit message waits to be confirmed.
    fn on_commit_key(&mut self, key: Key) -> (r: Task)
        ensures
            (final(self).deep_view(), r@) == old(self).deep_view().commit_key(key),
    {
        if key == Key::Enter || key == Key::Char('y') {
            self.perform_commit_confirm()
        } else {
            if key == Key::Esc || key == Key::Char('q') || key == Key::Char('n') {
                self.cancel_commit();
            }
            Task::Nothing
        }
    }

    /// A key while the rebase window is shown.
    fn on_notice_key(&mut self, key: Key) -> (r: Task)
        ensures
            (final(self).deep_view(), r@) == old(self).deep_view().notice_key(key),
    {
        if key == Key::Char('r') {
            Task::UpstreamForRebase
        } else {
            if key == Key::Char('i') || key == Key::Esc {
                self.show_rebase_modal = false;
            }
            Task::Nothing
        }
    }

    /// One step back.
    fn go_back(&mut self) -> (r: Task)
        ensures
            (final(self).deep_view(), r@) == old(self).deep_view().back(),
    {
        match self.app_mode {
            AppMode::Diff => {
                if self.log_return_source.is_some() {
                    self.exit_log_mode()
                } else {
                    Task::Exit { rebased: false }
                }
            },
            AppMode::Rebase => {
                self.app_mode = AppMode::Diff;
                Task::Nothing
            },
            AppMode::Log => self.exit_log_mode(),
            AppMode::RemotePicker => {
                self.picker_cancel();
                Task::Nothing
            },
        }
    }

    /// Writes the accepted changes.
    pub fn commit_rebase_changes(&mut self) -> (r: Task)
        ensures
            (final(self).deep_view(), r@) == old(self).deep_view().writing(),
    {
        let edits = actions::collect_edits(&self.rebase_changes);
        if edits.len() > 0 {
            Task::Apply(edits)
        } else {
            self.app_mode = AppMode::Diff;
            self.tell("No accepted changes to apply.".to_owned());
            Task::Nothing
        }
    }

    /// Shows whole files, or hunks again.
    fn refit(&mut self) -> (r: Task)
        ensures
            (final(self).deep_view(), r@) == old(self).deep_view().refitting(),
    {
        self.full_file = !self.full_file;
        Task::Fetch {
            source: self.diff_source.clone(),
            context: files::full_file_context(self.full_file),
            purpose: FetchFor::FullFile,
        }
    }

    /// A letter while a diff is shown.
    fn on_diff_char(&mut self, c: char) -> (r: Task)
        ensures
            (final(self).deep_view(), r@) == old(self).deep_view().diff_char(c),
    {
        if c == 'L' {
            return Task::CommitLog;
        }
        if c == 's' {
            return self.perform_sync();
        }
        if c == 'c' {
            return Task::ChangesForCommit;
        }
        if c == 'f' {
            return self.refit();
        }
        if c == 'y' {
            return self.copy_selection();
        }
        if c == 'r' {
            self.enter_rebase();
        } else if c == 'h' {
            self.focused_pane = Pane::FileList;
        } else if c == 'l' {
            self.focused_pane = Pane::DiffContent;
        } else if c == 'T' {
            self.switch_tree();
        } else if c == 'u' {
            self.switch_layout();
        } else if c == 'w' {
            self.switch_wrap();
        } else if c == 'R' {
            self.switch_renames();
        } else if c == 'v' {
            self.switch_selection();
        }
        Task::Nothing
    }

    /// A letter while changes are decided about.
    fn on_rebase_char(&mut self, c: char) -> (r: Task)
        ensures
            (final(self).deep_view(), r@) == old(self).deep_view().rebase_char(c),
    {
        if c == 'c' {
            return self.commit_rebase_changes();
        }
        if c == 'a' {
            self.set_change_state(ChangeState::Accepted);
        } else if c == 'x' {
            self.set_change_state(ChangeState::Rejected);
        } else if c == 'n' {
            self.navigate_rebase_file(true);
        } else if c == 'p' {
            self.navigate_rebase_file(false);
        }
        Task::Nothing
    }

    /// A letter.
    fn on_char(&mut self, c: char) -> (r: Task)
        ensures
            (final(self).deep_view(), r@) == old(self).deep_view().char_key(c),
    {
        if c == 'q' {
            return self.go_back();
        }
        if c == 'j' {
            self.move_down();
        } else if c == 'k' {
            self.move_up();
        } else if c == 't' {
            self.switch_theme();
        } else if c == '?' {
            self.show_help_modal = true;
        } else {
            match self.app_mode {
                AppMode::Diff => {
                    return self.on_diff_char(c);
                },
                AppMode::Rebase => {
                    return self.on_rebase_char(c);
                },
                AppMode::Log => {
                    if c == 'L' {
                        return self.exit_log_mode();
                    }
                },
                AppMode::RemotePicker => {},
            }
        }
        Task::Nothing
    }

    /// The enter key.
    fn on_enter(&self) -> (r: Task)
        ensures
            r@ == self.deep_view().enter_key(),
    {
        match self.app_mode {
            AppMode::Log => self.open_selected_commit(),
            AppMode::RemotePicker => Task::BranchForPicker,
            _ => Task::Nothing,
        }
    }

    /// A key that moves the focus.
    fn on_focus_key(&mut self, key: Key)
        ensures
            final(self).deep_view() == old(self).deep_view().focus_key(key),
    {
        if self.app_mode == AppMode::Diff {
            if key == Key::Tab {
                self.switch_pane();
            } else if key == Key::Left {
                self.focused_pane = Pane::FileList;
            } else {
                self.focused_pane = Pane::DiffContent;
            }
        }
    }

    /// A key while no window is shown.
    fn on_plain_key(&mut self, key: Key, height: u16) -> (r: Task)
        ensures
            (final(self).deep_view(), r@) == old(self).deep_view().plain_key(key, height),
    {
        match key {
            Key::Char(c) => {
                return self.on_char(c);
            },
            Key::Esc => {
                return self.go_back();
            },
            Key::Enter => {
                return self.on_enter();
            },
            Key::Down => self.move_down(),
            Key::Up => self.move_up(),
            Key::PageDown => self.move_page_down(height),
            Key::PageUp => self.move_page_up(height),
            Key::Home => self.move_to_start(),
            Key::End => self.move_to_end(),
            Key::Tab => self.on_focus_key(key),
            Key::Left => self.on_focus_key(key),
            Key::Right => self.on_focus_key(key),
            Key::Other => {},
        }
        Task::Nothing
    }

    /// Takes in a key, on a screen of this height.
    pub fn press(&mut self, key: Key, shift: bool, height: u16) -> (r: Task)
        ensures
            (final(self).deep_view(), r@) == old(self).deep_view().pressed(key, shift, height),
    {
        self.status_message = None;
        if self.show_commit_modal {
            return self.on_commit_key(key);
        }
        if self.show_help_modal {
            if key == Key::Esc || key == Key::Char('?') || key == Key::Char('q') {
                self.show_help_modal = false;
            }
            return Task::Nothing;
        }
        if self.show_rebase_modal {
            return self.on_notice_key(key);
        }
        if self.app_mode == AppMode::Diff && shift {
            if key == Key::Right {
                let column: usize = self.h_scroll().saturating_add(H_STEP);
                self.h_scroll_to(column);
                return Task::Nothing;
            }
            if key == Key::Left {
                let column: usize = self.h_scroll().saturating_sub(H_STEP);
                self.h_scroll_to(column);
                return Task::Nothing;
            }
        }
        self.on_plain_key(key, height)
    }
}

} // verus!
