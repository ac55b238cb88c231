//! What happens when the program around the screen answers.
use vstd::prelude::*;
use super::actions;
use super::files;
use super::keys;
use super::task::{FetchFor, FetchView, Task, TaskView};
use super::types::{App, AppMode, AppView, Pane};
use crate::diff::same;
use crate::diff::{
    BranchStatus, BranchView, CommitInfo, CommitView, DiffPayload, DiffSource, PayloadView,
    SourceView,
};
use crate::names::NameMap;
use crate::text;

verus! {

/// A reply, as a mathematical value.
pub open spec fn reply<T: DeepView>(r: Result<T, String>) -> Result<T::V, Seq<char>> {
    match r {
        Ok(v) => Ok(v.deep_view()),
        Err(e) => Err(e@),
    }
}

/// A reply that says only whether something was done.
pub open spec fn done(r: Result<(), String>) -> Result<(), Seq<char>> {
    match r {
        Ok(_) => Ok(()),
        Err(e) => Err(e@),
    }
}

// ---------------------------------------------------------------------------
// Taking in a diff

/// The scroll positions that are kept where the files are `known`: those of
/// known files, and the start for other `names`.
pub open spec fn kept_positions(
    positions: Map<Seq<char>, usize>,
    known: Set<Seq<char>>,
    names: Seq<Seq<char>>,
) -> Map<Seq<char>, usize> {
    Map::new(
        |k: Seq<char>| (positions.dom().contains(k) && known.contains(k)) || names.contains(k),
        |k: Seq<char>|
            if positions.dom().contains(k) && known.contains(k) {
                positions[k]
            } else {
                0
            },
    )
}

/// The start for each of `names`.
pub open spec fn start_positions(names: Seq<Seq<char>>) -> Map<Seq<char>, usize> {
    Map::new(|k: Seq<char>| names.contains(k), |k: Seq<char>| 0usize)
}

impl AppView {
    /// Whether `p` is the diff that is shown.
    pub open spec fn shows(self, p: PayloadView) -> bool {
        &&& p.files == self.file_changes
        &&& p.meta == self.file_meta
        &&& p.left_label == self.left_label
        &&& p.right_label == self.right_label
    }

    /// With the diff `p` in place of the old one. The selected file and the
    /// scroll positions are kept where the files are still there. The whole text
    /// of the files is no longer known.
    pub open spec fn updated(self, p: PayloadView) -> AppView {
        let names = files::visible_names(p.files, p.meta, self.hide_pure_renames);
        AppView {
            scroll_positions: kept_positions(self.scroll_positions, p.files.dom(), names),
            h_scroll_positions: kept_positions(self.h_scroll_positions, p.files.dom(), names),
            current_file_idx: keys::place_or_first(names, self.current_file()),
            full_content: Map::empty(),
            file_changes: p.files,
            file_meta: p.meta,
            file_names: names,
            left_label: p.left_label,
            right_label: p.right_label,
            ..self
        }.unselected()
    }

    /// With the diff `p` of another source, from its first file on. The whole text
    /// of the files is not known.
    pub open spec fn replaced(self, p: PayloadView, source: SourceView) -> AppView {
        let names = files::visible_names(p.files, p.meta, self.hide_pure_renames);
        AppView {
            scroll_positions: start_positions(names),
            h_scroll_positions: start_positions(names),
            current_file_idx: 0,
            full_content: Map::empty(),
            file_changes: p.files,
            file_meta: p.meta,
            file_names: names,
            left_label: p.left_label,
            right_label: p.right_label,
            diff_source: source,
            ..self
        }.unselected()
    }

    /// Back from the log.
    pub open spec fn out_of_log(self) -> AppView {
        AppView {
            commits: seq![],
            current_commit_idx: 0,
            app_mode: AppMode::Diff,
            focused_pane: Pane::FileList,
            ..self
        }
    }

    /// What is done to reload the diff. It stays as it is while a rebase, the
    /// log or the remotes are shown.
    pub open spec fn reload_task(self) -> TaskView {
        if self.app_mode == AppMode::Diff {
            TaskView::Fetch {
                source: self.diff_source,
                context: files::context_lines(self.full_file),
                purpose: FetchView::Reload,
            }
        } else {
            TaskView::Nothing
        }
    }

    /// After the diff was fetched again.
    pub open spec fn reloaded(self, result: Result<PayloadView, Seq<char>>) -> (
        AppView,
        TaskView,
    ) {
        match result {
            Ok(p) => (
                if self.shows(p) {
                    self
                } else {
                    self.updated(p).told("Diff reloaded"@)
                },
                TaskView::BranchStatus { reload: false },
            ),
            Err(e) => (self.told("Reload failed: "@ + e), TaskView::Nothing),
        }
    }

    /// After the diff was fetched with whole files, or with hunks again.
    pub open spec fn refitted(self, result: Result<PayloadView, Seq<char>>) -> AppView {
        match result {
            Ok(p) => self.updated(p).told(
                if self.full_file {
                    "Full file: ON"@
                } else {
                    "Full file: OFF"@
                },
            ),
            Err(e) => AppView { full_file: !self.full_file, ..self }.told(
                "Full-file toggle failed: "@ + e,
            ),
        }
    }

    /// After the diff to go back to from the log was fetched.
    pub open spec fn returned(
        self,
        source: SourceView,
        result: Result<PayloadView, Seq<char>>,
    ) -> AppView {
        match result {
            Ok(p) => self.replaced(p, source),
            Err(e) => self.told("Reload failed: "@ + e),
        }.out_of_log()
    }

    /// After the diff of a commit was fetched.
    pub open spec fn opened(
        self,
        source: SourceView,
        hash: Seq<char>,
        subject: Seq<char>,
        result: Result<PayloadView, Seq<char>>,
    ) -> AppView {
        match result {
            Ok(p) => AppView {
                app_mode: AppMode::Diff,
                focused_pane: Pane::FileList,
                ..self.replaced(p, source)
            }.told(
                "Viewing "@ + hash + " \u{2014} "@ + subject + " \u{2502} L: log  Esc: back"@,
            ),
            Err(e) => self.told("Failed to load commit: "@ + e),
        }
    }

    /// After a diff was fetched.
    pub open spec fn fetched(
        self,
        source: SourceView,
        purpose: FetchView,
        result: Result<PayloadView, Seq<char>>,
    ) -> (AppView, TaskView) {
        match purpose {
            FetchView::Reload => self.reloaded(result),
            FetchView::FullFile => (self.refitted(result), TaskView::Nothing),
            FetchView::LeaveLog => (self.returned(source, result), TaskView::Nothing),
            FetchView::OpenCommit { hash, subject } => (
                self.opened(source, hash, subject, result),
                TaskView::Nothing,
            ),
        }
    }

    /// After the standing of the branch was found, or not.
    pub open spec fn status_found(self, reload: bool, status: Option<BranchView>) -> (
        AppView,
        TaskView,
    ) {
        (
            AppView { branch_status: status, ..self },
            if reload {
                self.reload_task()
            } else {
                TaskView::Nothing
            },
        )
    }
}

/// Keeps the positions of the files in `known`, and puts `names` at the start.
fn keep_positions<W>(positions: &mut NameMap<usize>, known: &NameMap<W>, names: &Vec<String>)
    ensures
        final(positions)@ == kept_positions(
            old(positions)@,
            known@.dom(),
            names.deep_view(),
        ),
{
    let ghost before = positions@;
    let ghost all = names.deep_view();
    positions.retain_names(known);
    for i in 0..names.len()
        invariant
            all == names.deep_view(),
            positions@ == kept_positions(before, known@.dom(), all.take(i as int)),
    {
        positions.insert_new(&names[i], 0);
        proof {
            assert(all[i as int] == names@[i as int]@);
            files::lemma_take_next(all, i as int);
            assert(positions@ =~= kept_positions(before, known@.dom(), all.take(i + 1)));
        }
    }
    assert(all.take(all.len() as int) =~= all);
    assert(positions@ =~= kept_positions(before, known@.dom(), all));
}

/// The start for each of `names`.
pub fn first_positions(names: &Vec<String>) -> (r: NameMap<usize>)
    ensures
        r@ == start_positions(names.deep_view()),
{
    let ghost all = names.deep_view();
    let mut r: NameMap<usize> = NameMap::new();
    assert(r@ =~= start_positions(all.take(0)));
    for i in 0..names.len()
        invariant
            all == names.deep_view(),
            r@ == start_positions(all.take(i as int)),
    {
        r.insert(names[i].clone(), 0);
        proof {
            assert(all[i as int] == names@[i as int]@);
            files::lemma_take_next(all, i as int);
            assert(r@ =~= start_positions(all.take(i + 1)));
        }
    }
    assert(all.take(all.len() as int) =~= all);
    r
}

impl App {
    /// Whether `p` is the diff that is shown.
    fn shows(&self, p: &DiffPayload) -> (r: bool)
        ensures
            r == self.deep_view().shows(p.deep_view()),
    {
        same::same_files(&p.files, &self.file_changes) && same::same_meta(&p.meta, &self.file_meta)
            && *p.left_label.as_str() == *self.left_label.as_str() && *p.right_label.as_str()
            == *self.right_label.as_str()
    }

    /// Puts the diff `p` in place of the old one, and keeps the selected file
    /// and the scroll positions where it can.
    fn update(&mut self, p: DiffPayload)
        ensures
            final(self).deep_view() == old(self).deep_view().updated(p.deep_view()),
    {
        let names = files::visible_file_names(&p.files, &p.meta, self.hide_pure_renames);
        let selected = actions::copy_name(self.current_file());
        keep_positions(&mut self.scroll_positions, &p.files, &names);
        keep_positions(&mut self.h_scroll_positions, &p.files, &names);
        self.current_file_idx = keys::find_place(&names, &selected);
        assert(p.files@.dom() =~= p.files.deep_view().dom());
        self.full_content = NameMap::new();
        assert(self.full_content.deep_view() =~= Map::empty());
        self.file_changes = p.files;
        self.file_meta = p.meta;
        self.file_names = names;
        self.left_label = p.left_label;
        self.right_label = p.right_label;
        self.reset_diff_selection();
    }

    /// Puts the diff `p` of another source in place of the old one.
    fn replace(&mut self, p: DiffPayload, source: DiffSource)
        ensures
            final(self).deep_view() == old(self).deep_view().replaced(p.deep_view(), source@),
    {
        let names = files::visible_file_names(&p.files, &p.meta, self.hide_pure_renames);
        self.scroll_positions = first_positions(&names);
        self.h_scroll_positions = first_positions(&names);
        self.current_file_idx = 0;
        self.full_content = NameMap::new();
        assert(self.full_content.deep_view() =~= Map::empty());
        self.file_changes = p.files;
        self.file_meta = p.meta;
        self.file_names = names;
        self.left_label = p.left_label;
        self.right_label = p.right_label;
        self.diff_source = source;
        self.reset_diff_selection();
    }

    /// Goes back from the log.
    pub fn leave_log(&mut self)
        ensures
            final(self).deep_view() == old(self).deep_view().out_of_log(),
    {
        self.commits = Vec::new();
        self.current_commit_idx = 0;
        self.app_mode = AppMode::Diff;
        self.focused_pane = Pane::FileList;
        assert(self.deep_view().commits =~= seq![]);
    }

    /// What is done to reload the diff.
    pub fn reload_diff(&self) -> (r: Task)
        ensures
            r@ == self.deep_view().reload_task(),
    {
        if self.app_mode == AppMode::Diff {
            Task::Fetch {
                source: self.diff_source.clone(),
                context: files::full_file_context(self.full_file),
                purpose: FetchFor::Reload,
            }
        } else {
            Task::Nothing
        }
    }

    /// Sets the message that something failed.
    fn tell_failure(&mut self, what: &str, error: &str)
        ensures
            final(self).deep_view() == old(self).deep_view().told(what@ + error@),
    {
        self.tell(text::cat2(what, error));
    }

    /// Takes in the diff that was fetched again.
    fn after_reload(&mut self, result: Result<DiffPayload, String>) -> (r: Task)
        ensures
            (final(self).deep_view(), r@) == old(self).deep_view().reloaded(reply(result)),
    {
        match result {
            Ok(p) => {
                if !self.shows(&p) {
                    self.update(p);
                    self.tell("Diff reloaded".to_owned());
                }
                Task::BranchStatus { reload: false }
            },
            Err(e) => {
                self.tell_failure("Reload failed: ", e.as_str());
                Task::Nothing
            },
        }
    }

    /// Takes in the diff with whole files, or with hunks again.
    fn after_refit(&mut self, result: Result<DiffPayload, String>)
        ensures
            final(self).deep_view() == old(self).deep_view().refitted(reply(result)),
    {
        match result {
            Ok(p) => {
                self.update(p);
                let message = if self.full_file {
                    "Full file: ON"
                } else {
                    "Full file: OFF"
                };
                self.tell(message.to_owned());
            },
            Err(e) => {
                self.full_file = !self.full_file;
                self.tell_failure("Full-file toggle failed: ", e.as_str());
            },
        }
    }

    /// Takes in the diff to go back to from the log.
    fn after_return(&mut self, source: DiffSource, result: Result<DiffPayload, String>)
        ensures
            final(self).deep_view() == old(self).deep_view().returned(source@, reply(result)),
    {
        match result {
            Ok(p) => self.replace(p, source),
            Err(e) => self.tell_failure("Reload failed: ", e.as_str()),
        }
        self.leave_log();
    }

    /// Takes in the diff of a commit.
    fn after_open(
        &mut self,
        source: DiffSource,
        hash: &str,
        subject: &str,
        result: Result<DiffPayload, String>,
    )
        ensures
            final(self).deep_view() == old(self).deep_view().opened(
                source@,
                hash@,
                subject@,
                reply(result),
            ),
    {
        match result {
            Ok(p) => {
                self.replace(p, source);
                self.app_mode = AppMode::Diff;
                self.focused_pane = Pane::FileList;
                self.tell(
                    text::cat5(
                        "Viewing ",
                        hash,
                        " \u{2014} ",
                        subject,
                        " \u{2502} L: log  Esc: back",
                    ),
                );
            },
            Err(e) => self.tell_failure("Failed to load commit: ", e.as_str()),
        }
    }

    /// Takes in a diff that was fetched.
    pub fn after_fetch(
        &mut self,
        source: DiffSource,
        purpose: FetchFor,
        result: Result<DiffPayload, String>,
    ) -> (r: Task)
        ensures
            (final(self).deep_view(), r@) == old(self).deep_view().fetched(
                source@,
                purpose@,
                reply(result),
            ),
    {
        match purpose {
            FetchFor::Reload => self.after_reload(result),
            FetchFor::FullFile => {
                self.after_refit(result);
                Task::Nothing
            },
            FetchFor::LeaveLog => {
                self.after_return(source, result);
                Task::Nothing
            },
            FetchFor::OpenCommit { hash, subject } => {
                self.after_open(source, hash.as_str(), subject.as_str(), result);
                Task::Nothing
            },
        }
    }

    /// Takes in how the branch stands.
    pub fn after_branch_status(&mut self, reload: bool, status: Option<BranchStatus>) -> (r: Task)
        ensures
            (final(self).deep_view(), r@) == old(self).deep_view().status_found(
                reload,
                status.deep_view(),
            ),
    {
        self.branch_status = status;
        if reload {
            self.reload_diff()
        } else {
            Task::Nothing
        }
    }
}

// ---------------------------------------------------------------------------
// The log

impl AppView {
    /// After the log was read. The source to go back to is set on the first
    /// way in, and a log that was read before is kept.
    pub open spec fn log_read(self, result: Result<Seq<CommitView>, Seq<char>>) -> AppView {
        match result {
            Err(e) => self.told("git log failed: "@ + e),
            Ok(commits) => if commits.len() == 0 {
                self.told("No commits found"@)
            } else {
                self.in_log(commits)
            },
        }
    }

    /// With the log shown.
    pub open spec fn in_log(self, commits: Seq<CommitView>) -> AppView {
        AppView {
            log_return_source: match self.log_return_source {
                Some(source) => Some(source),
                None => Some(self.diff_source),
            },
            commits: if self.commits.len() == 0 {
                commits
            } else {
                self.commits
            },
            current_commit_idx: if self.commits.len() == 0 {
                0
            } else {
                self.current_commit_idx
            },
            app_mode: AppMode::Log,
            ..self
        }
    }

    /// On the way back from the log: the diff of the source to go back to is
    /// fetched, where there is one.
    pub open spec fn leaving_log(self) -> (AppView, TaskView) {
        match self.log_return_source {
            Some(source) => (
                AppView { log_return_source: None, ..self },
                TaskView::Fetch {
                    source,
                    context: files::context_lines(self.full_file),
                    purpose: FetchView::LeaveLog,
                },
            ),
            None => (self.out_of_log(), TaskView::Nothing),
        }
    }

    /// What is done to open the selected commit.
    pub open spec fn open_task(self) -> TaskView {
        if self.current_commit_idx < self.commits.len() {
            let c = self.commits[self.current_commit_idx as int];
            TaskView::Fetch {
                source: SourceView::Commit(c.hash),
                context: files::context_lines(self.full_file),
                purpose: FetchView::OpenCommit { hash: c.hash, subject: c.subject },
            }
        } else {
            TaskView::Nothing
        }
    }
}

impl App {
    /// Takes in the log.
    pub fn after_commit_log(&mut self, result: Result<Vec<CommitInfo>, String>)
        ensures
            final(self).deep_view() == old(self).deep_view().log_read(reply(result)),
    {
        match result {
            Err(e) => {
                self.tell_failure("git log failed: ", e.as_str());
            },
            Ok(commits) => {
                if commits.len() == 0 {
                    self.tell("No commits found".to_owned());
                } else {
                    self.enter_log(commits);
                }
            },
        }
    }

    /// Shows the log.
    fn enter_log(&mut self, commits: Vec<CommitInfo>)
        ensures
            final(self).deep_view() == old(self).deep_view().in_log(commits.deep_view()),
    {
        if self.log_return_source.is_none() {
            self.log_return_source = Some(self.diff_source.clone());
        }
        if self.commits.len() == 0 {
            self.commits = commits;
            self.current_commit_idx = 0;
        }
        self.app_mode = AppMode::Log;
    }

    /// Starts on the way back from the log.
    pub fn exit_log_mode(&mut self) -> (r: Task)
        ensures
            (final(self).deep_view(), r@) == old(self).deep_view().leaving_log(),
    {
        match self.log_return_source.take() {
            Some(source) => Task::Fetch {
                source,
                context: files::full_file_context(self.full_file),
                purpose: FetchFor::LeaveLog,
            },
            None => {
                self.leave_log();
                Task::Nothing
            },
        }
    }

    /// What is done to open the selected commit.
    pub fn open_selected_commit(&self) -> (r: Task)
        ensures
            r@ == self.deep_view().open_task(),
    {
        if self.current_commit_idx < self.commits.len() {
            let c = &self.commits[self.current_commit_idx];
            assert(self.commits.deep_view()[self.current_commit_idx as int] == c.deep_view());
            Task::Fetch {
                source: DiffSource::Commit(c.hash.clone()),
                context: files::full_file_context(self.full_file),
                purpose: FetchFor::OpenCommit { hash: c.hash.clone(), subject: c.subject.clone() },
            }
        } else {
            Task::Nothing
        }
    }
}

// ---------------------------------------------------------------------------
// Rebasing

impl AppView {
    /// After the upstream to rebase onto was looked for.
    pub open spec fn rebase_upstream(self, result: Result<Option<Seq<char>>, Seq<char>>) -> (
        AppView,
        TaskView,
    ) {
        let closed = AppView { show_rebase_modal: false, ..self };
        match result {
            Ok(Some(upstream)) => (self, TaskView::Rebase(upstream)),
            Ok(None) => (closed.told("No upstream branch configured."@), TaskView::Nothing),
            Err(e) => (closed.told("Error: "@ + e), TaskView::Nothing),
        }
    }

    /// After a rebase. One that fails is rolled back, and the window stays.
    pub open spec fn rebased(self, result: Result<bool, Seq<char>>) -> (AppView, TaskView) {
        let closed = AppView { show_rebase_modal: false, ..self };
        match result {
            Ok(true) => (closed, TaskView::Exit { rebased: true }),
            Ok(false) => (
                AppView {
                    rebase_notification: Some(
                        "Rebase failed due to conflicts and was rolled back."@,
                    ),
                    ..self
                },
                TaskView::Nothing,
            ),
            Err(e) => (closed.told("Error: "@ + e), TaskView::Nothing),
        }
    }

    /// After the accepted changes were written, with these errors.
    pub open spec fn edits_applied(self, errors: Seq<Seq<char>>) -> AppView {
        AppView { app_mode: AppMode::Diff, ..self }.told(
            if errors.len() > 0 {
                "Error: "@ + text::join(errors, "; "@)
            } else {
                "Changes applied successfully!"@
            },
        )
    }
}

impl App {
    /// Takes in the upstream to rebase onto.
    pub fn after_rebase_upstream(&mut self, result: Result<Option<String>, String>) -> (r: Task)
        ensures
            (final(self).deep_view(), r@) == old(self).deep_view().rebase_upstream(reply(result)),
    {
        match result {
            Ok(Some(upstream)) => Task::Rebase(upstream),
            Ok(None) => {
                self.show_rebase_modal = false;
                self.tell("No upstream branch configured.".to_owned());
                Task::Nothing
            },
            Err(e) => {
                self.show_rebase_modal = false;
                self.tell_failure("Error: ", e.as_str());
                Task::Nothing
            },
        }
    }

    /// Takes in how a rebase went.
    pub fn after_rebase(&mut self, result: Result<bool, String>) -> (r: Task)
        ensures
            (final(self).deep_view(), r@) == old(self).deep_view().rebased(reply(result)),
    {
        match result {
            Ok(rebased) => {
                if rebased {
                    self.show_rebase_modal = false;
                    Task::Exit { rebased: true }
                } else {
                    self.rebase_notification = Some(
                        "Rebase failed due to conflicts and was rolled back.".to_owned(),
                    );
                    Task::Nothing
                }
            },
            Err(e) => {
                self.show_rebase_modal = false;
                self.tell_failure("Error: ", e.as_str());
                Task::Nothing
            },
        }
    }

    /// Takes in the errors with which the accepted changes were written.
    pub fn after_apply(&mut self, errors: Vec<String>)
        ensures
            final(self).deep_view() == old(self).deep_view().edits_applied(errors.deep_view()),
    {
        self.app_mode = AppMode::Diff;
        if errors.len() > 0 {
            let all = text::joined(&errors, "; ");
            self.tell_failure("Error: ", all.as_str());
        } else {
            self.tell("Changes applied successfully!".to_owned());
        }
    }
}

// ---------------------------------------------------------------------------
// Committing

/// The first line of `s`.
pub open spec fn first_line(s: Seq<char>) -> Seq<char> {
    let lines = text::text_lines(s);
    if lines.len() > 0 {
        lines[0]
    } else {
        ""@
    }
}

impl AppView {
    /// After it was found out whether there is anything to commit.
    pub open spec fn commit_checked(self, result: Result<bool, Seq<char>>) -> (AppView, TaskView) {
        match result {
            Ok(true) => (
                self.told("Generating commit message\u{2026}"@),
                TaskView::CommitContext,
            ),
            Ok(false) => (self.told("Nothing to commit"@), TaskView::Nothing),
            Err(e) => (self.told("Error: "@ + e), TaskView::Nothing),
        }
    }

    /// After what a message is written from was collected.
    pub open spec fn context_collected(self, result: Result<Seq<char>, Seq<char>>) -> (
        AppView,
        TaskView,
    ) {
        match result {
            Ok(context) => (self, TaskView::CommitMessage(context)),
            Err(e) => (self.told("Error: "@ + e), TaskView::Nothing),
        }
    }

    /// After a message was written: it waits to be confirmed.
    pub open spec fn message_written(self, result: Result<Seq<char>, Seq<char>>) -> AppView {
        match result {
            Ok(message) => AppView {
                pending_commit_message: Some(message),
                show_commit_modal: true,
                status_message: None,
                ..self
            },
            Err(e) => self.told("Error: "@ + e),
        }
    }

    /// After the message was confirmed.
    pub open spec fn confirmed(self) -> (AppView, TaskView) {
        let closed = AppView {
            pending_commit_message: None,
            show_commit_modal: false,
            ..self
        };
        match self.pending_commit_message {
            Some(message) => (closed.told("Committing\u{2026}"@), TaskView::StageAll(message)),
            None => (closed, TaskView::Nothing),
        }
    }

    /// After the message was turned down.
    pub open spec fn commit_cancelled(self) -> AppView {
        AppView { pending_commit_message: None, show_commit_modal: false, ..self }.told(
            "Commit cancelled"@,
        )
    }

    /// After everything was staged.
    pub open spec fn staged(self, message: Seq<char>, result: Result<(), Seq<char>>) -> (
        AppView,
        TaskView,
    ) {
        match result {
            Ok(_) => (self, TaskView::Commit(message)),
            Err(e) => (self.told("Stage failed: "@ + e), TaskView::Nothing),
        }
    }

    /// After the commit.
    pub open spec fn committed(self, message: Seq<char>, result: Result<(), Seq<char>>) -> (
        AppView,
        TaskView,
    ) {
        match result {
            Ok(_) => (
                self.told("Committed: "@ + first_line(message)),
                TaskView::BranchStatus { reload: true },
            ),
            Err(e) => (self.told("Commit failed: "@ + e), TaskView::Nothing),
        }
    }
}

impl App {
    /// Takes in whether there is anything to commit.
    pub fn after_commit_check(&mut self, result: Result<bool, String>) -> (r: Task)
        ensures
            (final(self).deep_view(), r@) == old(self).deep_view().commit_checked(reply(result)),
    {
        match result {
            Ok(changed) => {
                if changed {
                    self.tell("Generating commit message\u{2026}".to_owned());
                    Task::CommitContext
                } else {
                    self.tell("Nothing to commit".to_owned());
                    Task::Nothing
                }
            },
            Err(e) => {
                self.tell_failure("Error: ", e.as_str());
                Task::Nothing
            },
        }
    }

    /// Takes in what a message is written from.
    pub fn after_commit_context(&mut self, result: Result<String, String>) -> (r: Task)
        ensures
            (final(self).deep_view(), r@) == old(self).deep_view().context_collected(
                reply(result),
            ),
    {
        match result {
            Ok(context) => Task::CommitMessage(context),
            Err(e) => {
                self.tell_failure("Error: ", e.as_str());
                Task::Nothing
            },
        }
    }

    /// Takes in a message.
    pub fn after_commit_message(&mut self, result: Result<String, String>)
        ensures
            final(self).deep_view() == old(self).deep_view().message_written(reply(result)),
    {
        match result {
            Ok(message) => {
                self.pending_commit_message = Some(message);
                self.show_commit_modal = true;
                self.status_message = None;
            },
            Err(e) => self.tell_failure("Error: ", e.as_str()),
        }
    }

    /// Takes the message as confirmed.
    pub fn perform_commit_confirm(&mut self) -> (r: Task)
        ensures
            (final(self).deep_view(), r@) == old(self).deep_view().confirmed(),
    {
        self.show_commit_modal = false;
        match self.pending_commit_message.take() {
            Some(message) => {
                self.tell("Committing\u{2026}".to_owned());
                Task::StageAll(message)
            },
            None => Task::Nothing,
        }
    }

    /// Turns the message down.
    pub fn cancel_commit(&mut self)
        ensures
            final(self).deep_view() == old(self).deep_view().commit_cancelled(),
    {
        self.pending_commit_message = None;
        self.show_commit_modal = false;
        self.tell("Commit cancelled".to_owned());
    }

    /// Takes in whether everything was staged.
    pub fn after_stage(&mut self, message: String, result: Result<(), String>) -> (r: Task)
        ensures
            (final(self).deep_view(), r@) == old(self).deep_view().staged(message@, done(result)),
    {
        match result {
            Ok(_) => Task::Commit(message),
            Err(e) => {
                self.tell_failure("Stage failed: ", e.as_str());
                Task::Nothing
            },
        }
    }

    /// Takes in whether the commit was made.
    pub fn after_commit(&mut self, message: String, result: Result<(), String>) -> (r: Task)
        ensures
            (final(self).deep_view(), r@) == old(self).deep_view().committed(
                message@,
                done(result),
            ),
    {
        match result {
            Ok(_) => {
                let lines = text::lines(message.as_str());
                let subject = if lines.len() > 0 {
                    assert(lines.deep_view()[0] == lines@[0]@);
                    lines[0].as_str()
                } else {
                    ""
                };
                self.tell_failure("Committed: ", subject);
                Task::BranchStatus { reload: true }
            },
            Err(e) => {
                self.tell_failure("Commit failed: ", e.as_str());
                Task::Nothing
            },
        }
    }
}

// ---------------------------------------------------------------------------
// Syncing

/// Where a branch without an upstream is pushed to.
#[derive(Debug, PartialEq)]
pub enum PushDecision {
    /// There is no remote.
    NoRemotes,
    /// There is one.
    Single(String),
    /// There are several.
    NeedsPicker(Vec<String>),
}

/// Where a branch is pushed to that can be pushed to these remotes.
pub fn decide_push_target(mut remotes: Vec<String>) -> (r: PushDecision)
    ensures
        match r {
            PushDecision::NoRemotes => remotes@.len() == 0,
            PushDecision::Single(remote) => remotes@.len() == 1 && remote == remotes@[0],
            PushDecision::NeedsPicker(all) => remotes@.len() > 1 && all@ == remotes@,
        },
{
    if remotes.len() == 0 {
        PushDecision::NoRemotes
    } else if remotes.len() == 1 {
        PushDecision::Single(remotes.remove(0))
    } else {
        PushDecision::NeedsPicker(remotes)
    }
}

/// The message that a branch is pushed to a remote, or was.
pub open spec fn push_message(what: Seq<char>, remote: Seq<char>, branch: Seq<char>) -> Seq<char> {
    what + branch + " \u{2192} "@ + remote + "/"@ + branch
}

/// The message that a branch is pushed to a remote, or was.
fn push_text(what: &str, remote: &str, branch: &str) -> (r: String)
    ensures
        r@ == push_message(what@, remote@, branch@),
{
    let start = text::cat5(what, branch, " \u{2192} ", remote, "/");
    text::cat2(start.as_str(), branch)
}

impl AppView {
    /// On the way to sync.
    pub open spec fn syncing(self) -> (AppView, TaskView) {
        (self.told("Syncing\u{2026}"@), TaskView::ChangesForSync)
    }

    /// After it was found out whether anything keeps the branch from being
    /// synced.
    pub open spec fn sync_checked(self, result: Result<bool, Seq<char>>) -> (AppView, TaskView) {
        match result {
            Ok(true) => (self.told("Cannot sync: uncommitted changes"@), TaskView::Nothing),
            Ok(false) => (self, TaskView::UpstreamForSync),
            Err(e) => (self.told("Sync failed: "@ + e), TaskView::Nothing),
        }
    }

    /// After the upstream was looked for.
    pub open spec fn sync_upstream(self, result: Result<Option<Seq<char>>, Seq<char>>) -> (
        AppView,
        TaskView,
    ) {
        match result {
            Ok(Some(upstream)) => (
                self.told("Pulling from "@ + upstream + "\u{2026}"@),
                TaskView::Pull(upstream),
            ),
            Ok(None) => (self, TaskView::Remotes),
            Err(e) => (self.told("Sync failed: "@ + e), TaskView::Nothing),
        }
    }

    /// After the pull.
    pub open spec fn pulled(self, upstream: Seq<char>, result: Result<(), Seq<char>>) -> (
        AppView,
        TaskView,
    ) {
        match result {
            Ok(_) => (
                self.told("Pushing to "@ + upstream + "\u{2026}"@),
                TaskView::Push(upstream),
            ),
            Err(e) => (self.told("Pull failed: "@ + e), TaskView::Nothing),
        }
    }

    /// After the push.
    pub open spec fn pushed(self, upstream: Seq<char>, result: Result<(), Seq<char>>) -> (
        AppView,
        TaskView,
    ) {
        match result {
            Ok(_) => (self.told("Synced with "@ + upstream), self.reload_task()),
            Err(e) => (self.told("Push failed: "@ + e), TaskView::Nothing),
        }
    }

    /// After the remotes were listed.
    pub open spec fn remotes_listed(self, result: Result<Seq<Seq<char>>, Seq<char>>) -> (
        AppView,
        TaskView,
    ) {
        match result {
            Ok(remotes) => (self, TaskView::BranchForPush(remotes)),
            Err(e) => (self.told("Sync failed: "@ + e), TaskView::Nothing),
        }
    }

    /// On the way to push `branch` to `remote`.
    pub open spec fn pushing_to(self, remote: Seq<char>, branch: Seq<char>) -> (
        AppView,
        TaskView,
    ) {
        (
            self.told(push_message("Pushing "@, remote, branch) + "\u{2026}"@),
            TaskView::PushTo { remote, branch },
        )
    }

    /// After the branch to push was found: to the only remote, or to one that
    /// is chosen.
    pub open spec fn branch_found(
        self,
        remotes: Seq<Seq<char>>,
        result: Result<Seq<char>, Seq<char>>,
    ) -> (AppView, TaskView) {
        match result {
            Err(e) => (self.told("Sync failed: "@ + e), TaskView::Nothing),
            Ok(branch) => if remotes.len() == 0 {
                (self.told("No remotes configured"@), TaskView::Nothing)
            } else if remotes.len() == 1 {
                self.pushing_to(remotes[0], branch)
            } else {
                (
                    AppView {
                        remotes,
                        current_remote_idx: 0,
                        app_mode: AppMode::RemotePicker,
                        ..self
                    },
                    TaskView::Nothing,
                )
            },
        }
    }

    /// After a branch was pushed to a remote.
    pub open spec fn pushed_to(
        self,
        remote: Seq<char>,
        branch: Seq<char>,
        result: Result<(), Seq<char>>,
    ) -> (AppView, TaskView) {
        match result {
            Ok(_) => (
                self.told(push_message("Pushed "@, remote, branch)),
                self.reload_task(),
            ),
            Err(e) => (self.told("Push failed: "@ + e), TaskView::Nothing),
        }
    }

    /// Back from the remotes.
    pub open spec fn picker_closed(self) -> AppView {
        AppView { remotes: seq![], current_remote_idx: 0, app_mode: AppMode::Diff, ..self }
    }

    /// After the branch to push to the chosen remote was found.
    pub open spec fn picker_branch_found(self, result: Result<Seq<char>, Seq<char>>) -> (
        AppView,
        TaskView,
    ) {
        match result {
            Err(e) => (self.told("Sync failed: "@ + e).picker_closed(), TaskView::Nothing),
            Ok(branch) => if self.current_remote_idx < self.remotes.len() {
                self.picker_closed().pushing_to(
                    self.remotes[self.current_remote_idx as int],
                    branch,
                )
            } else {
                (self.picker_closed(), TaskView::Nothing)
            },
        }
    }
}

impl App {
    /// Starts to sync.
    pub fn perform_sync(&mut self) -> (r: Task)
        ensures
            (final(self).deep_view(), r@) == old(self).deep_view().syncing(),
    {
        self.tell("Syncing\u{2026}".to_owned());
        Task::ChangesForSync
    }

    /// Takes in whether there are uncommitted changes.
    pub fn after_sync_check(&mut self, result: Result<bool, String>) -> (r: Task)
        ensures
            (final(self).deep_view(), r@) == old(self).deep_view().sync_checked(reply(result)),
    {
        match result {
            Ok(changed) => {
                if changed {
                    self.tell("Cannot sync: uncommitted changes".to_owned());
                    Task::Nothing
                } else {
                    Task::UpstreamForSync
                }
            },
            Err(e) => {
                self.tell_failure("Sync failed: ", e.as_str());
                Task::Nothing
            },
        }
    }

    /// Takes in the upstream.
    pub fn after_sync_upstream(&mut self, result: Result<Option<String>, String>) -> (r: Task)
        ensures
            (final(self).deep_view(), r@) == old(self).deep_view().sync_upstream(reply(result)),
    {
        match result {
            Ok(Some(upstream)) => {
                self.tell(text::cat3("Pulling from ", upstream.as_str(), "\u{2026}"));
                Task::Pull(upstream)
            },
            Ok(None) => Task::Remotes,
            Err(e) => {
                self.tell_failure("Sync failed: ", e.as_str());
                Task::Nothing
            },
        }
    }

    /// Takes in how the pull went.
    pub fn after_pull(&mut self, upstream: String, result: Result<(), String>) -> (r: Task)
        ensures
            (final(self).deep_view(), r@) == old(self).deep_view().pulled(upstream@, done(result)),
    {
        match result {
            Ok(_) => {
                self.tell(text::cat3("Pushing to ", upstream.as_str(), "\u{2026}"));
                Task::Push(upstream)
            },
            Err(e) => {
                self.tell_failure("Pull failed: ", e.as_str());
                Task::Nothing
            },
        }
    }

    /// Takes in how the push went.
    pub fn after_push(&mut self, upstream: String, result: Result<(), String>) -> (r: Task)
        ensures
            (final(self).deep_view(), r@) == old(self).deep_view().pushed(upstream@, done(result)),
    {
        match result {
            Ok(_) => {
                self.tell_failure("Synced with ", upstream.as_str());
                self.reload_diff()
            },
            Err(e) => {
                self.tell_failure("Push failed: ", e.as_str());
                Task::Nothing
            },
        }
    }

    /// Takes in the remotes.
    pub fn after_remotes(&mut self, result: Result<Vec<String>, String>) -> (r: Task)
        ensures
            (final(self).deep_view(), r@) == old(self).deep_view().remotes_listed(reply(result)),
    {
        match result {
            Ok(remotes) => Task::BranchForPush(remotes),
            Err(e) => {
                self.tell_failure("Sync failed: ", e.as_str());
                Task::Nothing
            },
        }
    }

    /// Starts to push `branch` to `remote`.
    fn push_to_remote(&mut self, remote: String, branch: String) -> (r: Task)
        ensures
            (final(self).deep_view(), r@) == old(self).deep_view().pushing_to(remote@, branch@),
    {
        let message = push_text("Pushing ", remote.as_str(), branch.as_str());
        self.tell(text::cat2(message.as_str(), "\u{2026}"));
        Task::PushTo { remote, branch }
    }

    /// Takes in the branch to push to one of `remotes`.
    pub fn after_branch(&mut self, remotes: Vec<String>, result: Result<String, String>) -> (r:
        Task)
        ensures
            (final(self).deep_view(), r@) == old(self).deep_view().branch_found(
                remotes.deep_view(),
                reply(result),
            ),
    {
        let ghost all = remotes.deep_view();
        match result {
            Err(e) => {
                self.tell_failure("Sync failed: ", e.as_str());
                Task::Nothing
            },
            Ok(branch) => match decide_push_target(remotes) {
                PushDecision::NoRemotes => {
                    self.tell("No remotes configured".to_owned());
                    Task::Nothing
                },
                PushDecision::Single(remote) => {
                    assert(all[0] == remote@);
                    self.push_to_remote(remote, branch)
                },
                PushDecision::NeedsPicker(list) => {
                    assert(list.deep_view() =~= all);
                    self.remotes = list;
                    self.current_remote_idx = 0;
                    self.app_mode = AppMode::RemotePicker;
                    Task::Nothing
                },
            },
        }
    }

    /// Takes in how a push to a remote went.
    pub fn after_push_to(
        &mut self,
        remote: String,
        branch: String,
        result: Result<(), String>,
    ) -> (r: Task)
        ensures
            (final(self).deep_view(), r@) == old(self).deep_view().pushed_to(
                remote@,
                branch@,
                done(result),
            ),
    {
        match result {
            Ok(_) => {
                self.tell(push_text("Pushed ", remote.as_str(), branch.as_str()));
                self.reload_diff()
            },
            Err(e) => {
                self.tell_failure("Push failed: ", e.as_str());
                Task::Nothing
            },
        }
    }

    /// Goes back from the remotes.
    pub fn picker_close(&mut self)
        ensures
            final(self).deep_view() == old(self).deep_view().picker_closed(),
    {
        self.remotes = Vec::new();
        self.current_remote_idx = 0;
        self.app_mode = AppMode::Diff;
        assert(self.deep_view().remotes =~= seq![]);
    }

    /// Goes back from the remotes without a push.
    pub fn picker_cancel(&mut self)
        ensures
            final(self).deep_view() == old(self).deep_view().picker_closed().told(
                "Sync cancelled"@,
            ),
    {
        self.picker_close();
        self.tell("Sync cancelled".to_owned());
    }

    /// Takes in the branch to push to the chosen remote.
    pub fn picker_confirm(&mut self, result: Result<String, String>) -> (r: Task)
        ensures
            (final(self).deep_view(), r@) == old(self).deep_view().picker_branch_found(
                reply(result),
            ),
    {
        match result {
            Err(e) => {
                self.tell_failure("Sync failed: ", e.as_str());
                self.picker_close();
                Task::Nothing
            },
            Ok(branch) => {
                if self.current_remote_idx < self.remotes.len() {
                    let remote = self.remotes[self.current_remote_idx].clone();
                    assert(self.remotes.deep_view()[self.current_remote_idx as int] == remote@);
                    self.picker_close();
                    self.push_to_remote(remote, branch)
                } else {
                    self.picker_close();
                    Task::Nothing
                }
            },
        }
    }
}

} // verus!
