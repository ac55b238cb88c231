//! Where keys lead, step by step.
use vstd::prelude::*;
use super::actions;
use super::files;
use super::flows;
use super::keys;
use super::keys::Key;
use super::mouse;
use super::mouse::{Mouse, MouseKind};
use super::rebase;
use super::task::{FetchView, TaskView};
use super::types::{AppMode, AppView, ChangeState, ChangeView, Pane};
use crate::diff::ops::OpView;
use crate::diff::{BranchView, CommitView, PayloadView, SourceView};
use crate::text;

verus! {

impl AppView {
    /// Whether no window lies over the screen.
    pub open spec fn bare(self) -> bool {
        !self.show_commit_modal && !self.show_help_modal && !self.show_rebase_modal
    }
}

/// The number of lines around a change that are asked for: as many as git gives, or
/// all of them where whole files are shown.
pub open spec fn lines_around(full: bool) -> Option<usize> {
    if full {
        Some(1_000_000_000)
    } else {
        None
    }
}

// ---------------------------------------------------------------------------
// Committing

/// From the key to the message: where something is not committed, what a message is
/// written from is collected and handed on, and the message that comes back waits
/// in its window.
pub proof fn law_message_asked_for(
    a: AppView,
    shift: bool,
    height: u16,
    context: Seq<char>,
    message: Seq<char>,
    e: Seq<char>,
)
    requires
        a.bare(),
        a.app_mode == AppMode::Diff,
    ensures
        a.pressed(Key::Char('c'), shift, height).1 == TaskView::ChangesForCommit,
        a.commit_checked(Ok(true)).1 == TaskView::CommitContext,
        a.commit_checked(Ok(false)) == (a.told("Nothing to commit"@), TaskView::Nothing),
        a.commit_checked(Err(e)) == (a.told("Error: "@ + e), TaskView::Nothing),
        a.context_collected(Ok(context)).1 == TaskView::CommitMessage(context),
        a.context_collected(Err(e)) == (a.told("Error: "@ + e), TaskView::Nothing),
        a.message_written(Ok(message)).show_commit_modal,
        a.message_written(Ok(message)).pending_commit_message == Some(message),
        a.message_written(Err(e)) == a.told("Error: "@ + e),
{
}

/// From the window to the commit: the message that was confirmed is the one that
/// everything is staged for, and once it is staged, the one that is committed, to
/// the letter. After the commit its first line is told and the diff is fetched
/// again.
pub proof fn law_confirmed_is_committed(
    a: AppView,
    key: Key,
    shift: bool,
    height: u16,
    message: Seq<char>,
    e: Seq<char>,
)
    requires
        key == Key::Enter || key == Key::Char('y'),
    ensures
        ({
            let open = a.message_written(Ok(message));
            let confirmed = open.pressed(key, shift, height);
            let staged = confirmed.0.staged(message, Ok(()));
            let committed = staged.0.committed(message, Ok(()));
            &&& confirmed.1 == TaskView::StageAll(message)
            &&& !confirmed.0.show_commit_modal
            &&& confirmed.0.pending_commit_message is None
            &&& staged.1 == TaskView::Commit(message)
            &&& committed.1 == (TaskView::BranchStatus { reload: true })
            &&& committed.0.status_message == Some("Committed: "@ + flows::first_line(message))
        }),
        a.staged(message, Err(e)) == (a.told("Stage failed: "@ + e), TaskView::Nothing),
        a.committed(message, Err(e)) == (a.told("Commit failed: "@ + e), TaskView::Nothing),
{
}

/// The first line of a message is what comes before its first line feed.
pub proof fn law_subject(subject: Seq<char>, rest: Seq<char>)
    requires
        subject.len() > 0,
        forall|j: int| 0 <= j < subject.len() ==> #[trigger] subject[j] != '\n',
        subject.last() != '\r',
    ensures
        flows::first_line(subject) == subject,
        flows::first_line(subject + seq!['\n'] + rest) == subject,
{
    text::law_first_line(subject, rest);
}

/// A message that is turned down is gone, and nothing is done with it.
pub proof fn law_turned_down(a: AppView, key: Key, shift: bool, height: u16, message: Seq<char>)
    requires
        key == Key::Esc || key == Key::Char('q') || key == Key::Char('n'),
    ensures
        ({
            let open = a.message_written(Ok(message));
            let after = open.pressed(key, shift, height);
            &&& after.1 == TaskView::Nothing
            &&& after.0.pending_commit_message is None
            &&& !after.0.show_commit_modal
            &&& after.0.status_message == Some("Commit cancelled"@)
        }),
{
}

// ---------------------------------------------------------------------------
// Syncing

/// A branch with an upstream is pulled from it and then pushed to it, and then the
/// diff is fetched again.
pub proof fn law_synced(
    a: AppView,
    shift: bool,
    height: u16,
    upstream: Seq<char>,
    e: Seq<char>,
)
    requires
        a.bare(),
        a.app_mode == AppMode::Diff,
    ensures
        a.pressed(Key::Char('s'), shift, height).1 == TaskView::ChangesForSync,
        a.sync_checked(Ok(false)).1 == TaskView::UpstreamForSync,
        a.sync_checked(Ok(true)) == (
            a.told("Cannot sync: uncommitted changes"@),
            TaskView::Nothing,
        ),
        a.sync_upstream(Ok(Some(upstream))).1 == TaskView::Pull(upstream),
        a.sync_upstream(Ok(None)).1 == TaskView::Remotes,
        a.pulled(upstream, Ok(())).1 == TaskView::Push(upstream),
        a.pulled(upstream, Err(e)) == (a.told("Pull failed: "@ + e), TaskView::Nothing),
        a.pushed(upstream, Ok(())).0 == a.told("Synced with "@ + upstream),
        a.pushed(upstream, Ok(())).1 == (TaskView::Fetch {
            source: a.diff_source,
            context: lines_around(a.full_file),
            purpose: FetchView::Reload,
        }),
        a.pushed(upstream, Err(e)) == (a.told("Push failed: "@ + e), TaskView::Nothing),
        a.sync_checked(Err(e)) == (a.told("Sync failed: "@ + e), TaskView::Nothing),
        a.sync_upstream(Err(e)) == (a.told("Sync failed: "@ + e), TaskView::Nothing),
{
}

/// A branch without an upstream is pushed to its one remote, under its own name. Of
/// several remotes one is chosen.
pub proof fn law_first_push(
    a: AppView,
    remotes: Seq<Seq<char>>,
    branch: Seq<char>,
    e: Seq<char>,
)
    requires
        a.app_mode == AppMode::Diff,
    ensures
        a.remotes_listed(Ok(remotes)).1 == TaskView::BranchForPush(remotes),
        a.remotes_listed(Err(e)) == (a.told("Sync failed: "@ + e), TaskView::Nothing),
        remotes.len() == 0 ==> a.branch_found(remotes, Ok(branch)) == (
            a.told("No remotes configured"@),
            TaskView::Nothing,
        ),
        remotes.len() == 1 ==> a.branch_found(remotes, Ok(branch)).1 == (TaskView::PushTo {
            remote: remotes[0],
            branch,
        }),
        remotes.len() > 1 ==> ({
            let b = a.branch_found(remotes, Ok(branch));
            b.1 == TaskView::Nothing && b.0.app_mode == AppMode::RemotePicker && b.0.remotes
                == remotes && b.0.current_remote_idx == 0
        }),
        a.branch_found(remotes, Err(e)) == (a.told("Sync failed: "@ + e), TaskView::Nothing),
        remotes.len() > 0 ==> a.pushed_to(remotes[0], branch, Ok(())).1 == (TaskView::Fetch {
            source: a.diff_source,
            context: lines_around(a.full_file),
            purpose: FetchView::Reload,
        }),
        remotes.len() > 0 ==> a.pushed_to(remotes[0], branch, Err(e)) == (
            a.told("Push failed: "@ + e),
            TaskView::Nothing,
        ),
{
}

/// Of the remotes the one that is marked is pushed to, and going back pushes
/// nowhere.
pub proof fn law_remote_picked(
    a: AppView,
    shift: bool,
    height: u16,
    branch: Seq<char>,
    e: Seq<char>,
)
    requires
        a.bare(),
        a.app_mode == AppMode::RemotePicker,
        a.current_remote_idx < a.remotes.len() <= usize::MAX,
    ensures
        a.pressed(Key::Enter, shift, height).1 == TaskView::BranchForPicker,
        a.pressed(Key::Enter, shift, height).0.remotes == a.remotes,
        a.pressed(Key::Enter, shift, height).0.current_remote_idx == a.current_remote_idx,
        a.picker_branch_found(Ok(branch)).1 == (TaskView::PushTo {
            remote: a.remotes[a.current_remote_idx as int],
            branch,
        }),
        a.picker_branch_found(Ok(branch)).0.app_mode == AppMode::Diff,
        a.picker_branch_found(Err(e)).1 == TaskView::Nothing,
        a.picker_branch_found(Err(e)).0.app_mode == AppMode::Diff,
        a.picker_branch_found(Err(e)).0.status_message == Some("Sync failed: "@ + e),
        a.pressed(Key::Esc, shift, height).1 == TaskView::Nothing,
        a.pressed(Key::Esc, shift, height).0.app_mode == AppMode::Diff,
        a.pressed(Key::Esc, shift, height).0.status_message == Some("Sync cancelled"@),
        a.pressed(Key::Char('q'), shift, height) == a.pressed(Key::Esc, shift, height),
{
}

// ---------------------------------------------------------------------------
// Rebasing onto the upstream

/// From the window that advises it, the branch is rebased onto its upstream, and the
/// program is left once that went well. A rebase that was rolled back is told in
/// the window, and any other failure closes it.
pub proof fn law_rebase_taken(
    a: AppView,
    shift: bool,
    height: u16,
    upstream: Seq<char>,
    e: Seq<char>,
)
    requires
        a.show_rebase_modal,
        !a.show_commit_modal,
        !a.show_help_modal,
    ensures
        a.pressed(Key::Char('r'), shift, height).1 == TaskView::UpstreamForRebase,
        a.pressed(Key::Char('r'), shift, height).0.show_rebase_modal,
        a.rebase_upstream(Ok(Some(upstream))).1 == TaskView::Rebase(upstream),
        a.rebased(Ok(true)).1 == (TaskView::Exit { rebased: true }),
        a.rebased(Ok(false)).1 == TaskView::Nothing,
        a.rebased(Ok(false)).0.show_rebase_modal,
        a.rebased(Ok(false)).0.rebase_notification == Some(
            "Rebase failed due to conflicts and was rolled back."@,
        ),
        !a.rebased(Err(e)).0.show_rebase_modal,
        a.rebased(Err(e)).0.status_message == Some("Error: "@ + e),
        a.rebased(Err(e)).1 == TaskView::Nothing,
        !a.rebase_upstream(Ok(None)).0.show_rebase_modal,
        a.rebase_upstream(Ok(None)).1 == TaskView::Nothing,
        a.rebase_upstream(Ok(None)).0.status_message == Some("No upstream branch configured."@),
        a.rebase_upstream(Err(e)).0.status_message == Some("Error: "@ + e),
        a.rebase_upstream(Err(e)).1 == TaskView::Nothing,
{
}

/// The advice can be turned down.
pub proof fn law_rebase_turned_down(a: AppView, key: Key, shift: bool, height: u16)
    requires
        a.show_rebase_modal,
        !a.show_commit_modal,
        !a.show_help_modal,
        key == Key::Char('i') || key == Key::Esc,
    ensures
        a.pressed(key, shift, height) == (
            AppView { show_rebase_modal: false, status_message: None, ..a },
            TaskView::Nothing,
        ),
{
}

// ---------------------------------------------------------------------------
// The log

/// The log is asked for by its key, and where it has commits they are shown, in
/// their order and the first one marked. What keeps it from being shown is told.
pub proof fn law_log_opened(
    a: AppView,
    shift: bool,
    height: u16,
    commits: Seq<CommitView>,
    e: Seq<char>,
)
    requires
        a.bare(),
        a.app_mode == AppMode::Diff,
        a.commits.len() == 0,
        commits.len() > 0,
    ensures
        a.pressed(Key::Char('L'), shift, height).1 == TaskView::CommitLog,
        a.log_read(Ok(commits)).app_mode == AppMode::Log,
        a.log_read(Ok(commits)).commits == commits,
        a.log_read(Ok(commits)).current_commit_idx == 0,
        a.log_read(Ok(Seq::empty())) == a.told("No commits found"@),
        a.log_read(Err(e)) == a.told("git log failed: "@ + e),
{
}

/// The commit that is marked in the log is the one that is opened.
pub proof fn law_commit_opened(
    a: AppView,
    shift: bool,
    height: u16,
    p: PayloadView,
    e: Seq<char>,
)
    requires
        a.bare(),
        a.app_mode == AppMode::Log,
        a.current_commit_idx < a.commits.len(),
    ensures
        ({
            let c = a.commits[a.current_commit_idx as int];
            let opened = a.opened(SourceView::Commit(c.hash), c.hash, c.subject, Ok(p));
            &&& a.pressed(Key::Enter, shift, height).1 == (TaskView::Fetch {
                source: SourceView::Commit(c.hash),
                context: lines_around(a.full_file),
                purpose: FetchView::OpenCommit { hash: c.hash, subject: c.subject },
            })
            &&& opened.app_mode == AppMode::Diff
            &&& opened.file_changes == p.files
            &&& opened.file_meta == p.meta
            &&& opened.left_label == p.left_label
            &&& opened.right_label == p.right_label
            &&& opened.diff_source == SourceView::Commit(c.hash)
            &&& opened.commits == a.commits
            &&& a.opened(SourceView::Commit(c.hash), c.hash, c.subject, Err(e)) == a.told(
                "Failed to load commit: "@ + e,
            )
        }),
{
}

/// The log is left by its key, by the one that goes back or by the one that leaves
/// the program, to the diff that was shown before.
pub proof fn law_log_closed(a: AppView, key: Key, shift: bool, height: u16, source: SourceView)
    requires
        a.bare(),
        a.app_mode == AppMode::Log,
        a.log_return_source == Some(source),
        key == Key::Char('L') || key == Key::Esc || key == Key::Char('q'),
    ensures
        a.pressed(key, shift, height).1 == (TaskView::Fetch {
            source,
            context: lines_around(a.full_file),
            purpose: FetchView::LeaveLog,
        }),
        a.pressed(key, shift, height).0.log_return_source is None,
{
}

// ---------------------------------------------------------------------------
// Fetching again

/// What a fetched diff says is what is shown: its files, what else is known of
/// them, and its titles. The list holds its files, and nothing is known any more
/// of the text of the old ones.
pub proof fn law_fetched_is_shown(a: AppView, source: SourceView, p: PayloadView)
    ensures
        ({
            let b = a.updated(p);
            &&& b.file_changes == p.files
            &&& b.file_meta == p.meta
            &&& b.left_label == p.left_label
            &&& b.right_label == p.right_label
            &&& b.file_names == files::visible_names(p.files, p.meta, a.hide_pure_renames)
            &&& b.full_content == Map::<
                Seq<char>,
                (Seq<Seq<char>>, Seq<Seq<char>>),
            >::empty()
            &&& b.diff_source == a.diff_source
            &&& b.diff_cursor == 0 && b.selection_anchor is None && !b.mouse_selecting
        }),
        ({
            let b = a.replaced(p, source);
            &&& b.file_changes == p.files
            &&& b.file_meta == p.meta
            &&& b.left_label == p.left_label
            &&& b.right_label == p.right_label
            &&& b.file_names == files::visible_names(p.files, p.meta, a.hide_pure_renames)
            &&& b.current_file_idx == 0
            &&& b.diff_source == source
            &&& forall|f: Seq<char>| #[trigger]
                b.scroll_positions.dom().contains(f) ==> b.scroll_positions[f] == 0
        }),
{
}

/// A diff that says something else in any part takes the place of the one that is
/// shown, and that is told. After it the standing of the branch is found.
pub proof fn law_news_is_shown(a: AppView, p: PayloadView)
    requires
        p.files != a.file_changes || p.meta != a.file_meta || p.left_label != a.left_label
            || p.right_label != a.right_label,
    ensures
        a.reloaded(Ok(p)).0 == a.updated(p).told("Diff reloaded"@),
        a.reloaded(Ok(p)).1 == (TaskView::BranchStatus { reload: false }),
{
}

/// The diff is fetched again from where it came from, with as many lines as are
/// shown, but only while a diff is shown.
pub proof fn law_reload_asked(a: AppView)
    ensures
        a.app_mode == AppMode::Diff ==> a.reload_task() == (TaskView::Fetch {
            source: a.diff_source,
            context: lines_around(a.full_file),
            purpose: FetchView::Reload,
        }),
        a.app_mode != AppMode::Diff ==> a.reload_task() == TaskView::Nothing,
{
}

/// Whole files are asked for by a key, and hunks again by the same one, from where
/// the diff came from.
pub proof fn law_whole_files(a: AppView, shift: bool, height: u16, p: PayloadView)
    requires
        a.bare(),
        a.app_mode == AppMode::Diff,
    ensures
        ({
            let b = a.pressed(Key::Char('f'), shift, height);
            &&& b.0.full_file == !a.full_file
            &&& b.1 == (TaskView::Fetch {
                source: a.diff_source,
                context: lines_around(!a.full_file),
                purpose: FetchView::FullFile,
            })
            &&& b.0.refitted(Ok(p)).file_changes == p.files
            &&& b.0.refitted(Ok(p)).full_file == !a.full_file
            &&& b.0.refitted(Ok(p)).status_message == Some(
                if a.full_file {
                    "Full file: OFF"@
                } else {
                    "Full file: ON"@
                },
            )
        }),
{
}

// ---------------------------------------------------------------------------
// Moving

/// Whether `after` is the index that a step, or a page of `by`, leads to from
/// `before` among `len`.
pub open spec fn moved(before: usize, after: usize, by: int, len: nat) -> bool {
    after == if before + by < 0 {
        0
    } else if before + by < len {
        before + by
    } else {
        len - 1
    }
}

/// The number of rows that a page key moves by: the height without the header, the
/// help line and the borders.
pub open spec fn page_of(height: u16) -> int {
    if height >= 6 {
        height - 6
    } else {
        0
    }
}

/// In the file list the keys select the next or the previous file, those of a page
/// further ones, and the first or the last, but none that is not there.
pub proof fn law_files_moved(a: AppView, shift: bool, height: u16)
    requires
        a.bare(),
        a.app_mode == AppMode::Diff,
        a.focused_pane == Pane::FileList,
        a.current_file_idx < a.file_names.len() <= usize::MAX,
    ensures
        ({
            let i = a.current_file_idx;
            let n = a.file_names.len();
            let go = |key: Key| a.pressed(key, shift, height).0.current_file_idx;
            &&& moved(i, go(Key::Char('j')), 1, n)
            &&& moved(i, go(Key::Down), 1, n)
            &&& moved(i, go(Key::Char('k')), -1, n)
            &&& moved(i, go(Key::Up), -1, n)
            &&& moved(i, go(Key::PageDown), page_of(height), n)
            &&& moved(i, go(Key::PageUp), -page_of(height), n)
            &&& go(Key::Home) == 0
            &&& go(Key::End) == n - 1
        }),
{
}

/// `by` rows further up, but not above the first.
pub open spec fn back_by(row: usize, by: int) -> int {
    if row >= by {
        row - by
    } else {
        0
    }
}

proof fn lemma_scrolled_down(a: AppView, shift: bool, height: u16, f: Seq<char>)
    requires
        a.bare(),
        a.app_mode == AppMode::Diff,
        a.focused_pane == Pane::DiffContent,
        a.selection_anchor is None,
        a.current_file() == Some(f),
        a.scroll_positions.dom().contains(f),
        a.scroll_positions[f] + 65535 <= usize::MAX,
    ensures
        a.pressed(Key::Char('j'), shift, height).0.scroll_positions[f] == a.scroll_positions[f] + 1,
        a.pressed(Key::Down, shift, height).0.scroll_positions[f] == a.scroll_positions[f] + 1,
{
    let b = AppView { status_message: None, ..a };
    assert(b.current_file() == Some(f));
    assert(b.scroll() == a.scroll_positions[f]);
}

proof fn lemma_scrolled_up(a: AppView, shift: bool, height: u16, f: Seq<char>)
    requires
        a.bare(),
        a.app_mode == AppMode::Diff,
        a.focused_pane == Pane::DiffContent,
        a.selection_anchor is None,
        a.current_file() == Some(f),
        a.scroll_positions.dom().contains(f),
        a.scroll_positions[f] + 65535 <= usize::MAX,
    ensures
        a.pressed(Key::Char('k'), shift, height).0.scroll_positions[f] == back_by(
            a.scroll_positions[f],
            1,
        ),
        a.pressed(Key::Up, shift, height).0.scroll_positions[f] == back_by(
            a.scroll_positions[f],
            1,
        ),
{
    let b = AppView { status_message: None, ..a };
    assert(b.current_file() == Some(f));
    assert(b.scroll() == a.scroll_positions[f]);
}

#[verifier::spinoff_prover]
#[verifier::rlimit(40)]
proof fn lemma_scrolled_pages(a: AppView, shift: bool, height: u16, f: Seq<char>)
    requires
        a.bare(),
        a.app_mode == AppMode::Diff,
        a.focused_pane == Pane::DiffContent,
        a.selection_anchor is None,
        a.current_file() == Some(f),
        a.scroll_positions.dom().contains(f),
        a.scroll_positions[f] + 65535 <= usize::MAX,
    ensures
        a.pressed(Key::PageDown, shift, height).0.scroll_positions[f] == a.scroll_positions[f]
            + page_of(height),
        a.pressed(Key::PageUp, shift, height).0.scroll_positions[f] == back_by(
            a.scroll_positions[f],
            page_of(height),
        ),
{
    let b = AppView { status_message: None, ..a };
    assert(b.current_file() == Some(f));
    assert(b.scroll() == a.scroll_positions[f]);
}

proof fn lemma_scrolled_ends(a: AppView, shift: bool, height: u16, f: Seq<char>)
    requires
        a.bare(),
        a.app_mode == AppMode::Diff,
        a.focused_pane == Pane::DiffContent,
        a.selection_anchor is None,
        a.current_file() == Some(f),
        a.scroll_positions.dom().contains(f),
        a.scroll_positions[f] + 65535 <= usize::MAX,
    ensures
        a.pressed(Key::Home, shift, height).0.scroll_positions[f] == 0,
        a.pressed(Key::End, shift, height).0.scroll_positions[f] == usize::MAX,
{
    let b = AppView { status_message: None, ..a };
    assert(b.current_file() == Some(f));
    assert(b.scroll() == a.scroll_positions[f]);
}

/// In the diff the keys scroll the selected file, row by row, by pages, and to the
/// start or as far as it goes. Where it is scrolled to is kept for that file.
pub proof fn law_diff_scrolled(a: AppView, shift: bool, height: u16, f: Seq<char>)
    requires
        a.bare(),
        a.app_mode == AppMode::Diff,
        a.focused_pane == Pane::DiffContent,
        a.selection_anchor is None,
        a.current_file() == Some(f),
        a.scroll_positions.dom().contains(f),
        a.scroll_positions[f] + 65535 <= usize::MAX,
    ensures
        ({
            let row = a.scroll_positions[f];
            let go = |key: Key| a.pressed(key, shift, height).0.scroll_positions[f];
            &&& go(Key::Char('j')) == row + 1
            &&& go(Key::Down) == row + 1
            &&& go(Key::Char('k')) == back_by(row, 1)
            &&& go(Key::Up) == back_by(row, 1)
            &&& go(Key::PageDown) == row + page_of(height)
            &&& go(Key::PageUp) == back_by(row, page_of(height))
            &&& go(Key::Home) == 0
            &&& go(Key::End) == usize::MAX
        }),
{
    lemma_scrolled_down(a, shift, height, f);
    lemma_scrolled_up(a, shift, height, f);
    lemma_scrolled_pages(a, shift, height, f);
    lemma_scrolled_ends(a, shift, height, f);
}

/// With shift, the arrows scroll the selected file sideways, by five columns.
pub proof fn law_diff_scrolled_sideways(a: AppView, height: u16, f: Seq<char>)
    requires
        a.bare(),
        a.app_mode == AppMode::Diff,
        a.current_file() == Some(f),
        a.h_scroll_positions.dom().contains(f),
        a.h_scroll_positions[f] + 5 <= usize::MAX,
    ensures
        a.pressed(Key::Right, true, height).0.h_scroll_positions[f] == a.h_scroll_positions[f] + 5,
        a.pressed(Key::Left, true, height).0.h_scroll_positions[f] == (if a.h_scroll_positions[f]
            >= 5 {
            a.h_scroll_positions[f] - 5
        } else {
            0
        }),
        a.pressed(Key::Right, true, height).0.focused_pane == a.focused_pane,
        a.pressed(Key::Left, true, height).0.focused_pane == a.focused_pane,
{
}

/// In the log the keys mark other commits in the same way as they select files.
pub proof fn law_commits_moved(a: AppView, shift: bool, height: u16)
    requires
        a.bare(),
        a.app_mode == AppMode::Log,
        a.current_commit_idx < a.commits.len() <= usize::MAX,
    ensures
        ({
            let i = a.current_commit_idx;
            let n = a.commits.len();
            let go = |key: Key| a.pressed(key, shift, height).0.current_commit_idx;
            &&& moved(i, go(Key::Char('j')), 1, n)
            &&& moved(i, go(Key::Down), 1, n)
            &&& moved(i, go(Key::Char('k')), -1, n)
            &&& moved(i, go(Key::Up), -1, n)
            &&& moved(i, go(Key::PageDown), page_of(height), n)
            &&& moved(i, go(Key::PageUp), -page_of(height), n)
            &&& go(Key::Home) == 0
            &&& go(Key::End) == n - 1
        }),
{
}

/// Where changes are decided about the keys mark other changes of the file.
pub proof fn law_changes_moved(a: AppView, shift: bool, height: u16, f: Seq<char>)
    requires
        a.bare(),
        a.app_mode == AppMode::Rebase,
        a.current_file() == Some(f),
        a.rebase_changes.dom().contains(f),
        a.current_change_idx < a.rebase_changes[f].len() <= usize::MAX,
    ensures
        ({
            let i = a.current_change_idx;
            let n = a.rebase_changes[f].len();
            let go = |key: Key| a.pressed(key, shift, height).0.current_change_idx;
            &&& moved(i, go(Key::Char('j')), 1, n)
            &&& moved(i, go(Key::Down), 1, n)
            &&& moved(i, go(Key::Char('k')), -1, n)
            &&& moved(i, go(Key::Up), -1, n)
            &&& moved(i, go(Key::PageDown), page_of(height), n)
            &&& moved(i, go(Key::PageUp), -page_of(height), n)
            &&& go(Key::Home) == 0
            &&& go(Key::End) == n - 1
        }),
{
}

/// Of the remotes the keys mark the next or the previous.
pub proof fn law_remotes_moved(a: AppView, shift: bool, height: u16)
    requires
        a.bare(),
        a.app_mode == AppMode::RemotePicker,
        a.current_remote_idx < a.remotes.len() <= usize::MAX,
    ensures
        ({
            let i = a.current_remote_idx;
            let n = a.remotes.len();
            let go = |key: Key| a.pressed(key, shift, height).0.current_remote_idx;
            &&& moved(i, go(Key::Char('j')), 1, n)
            &&& moved(i, go(Key::Down), 1, n)
            &&& moved(i, go(Key::Char('k')), -1, n)
            &&& moved(i, go(Key::Up), -1, n)
        }),
{
}

/// The keys of the file list and of the diff give each the focus, and tab gives it
/// to the other one.
pub proof fn law_focus(a: AppView, height: u16)
    requires
        a.bare(),
        a.app_mode == AppMode::Diff,
    ensures
        ({
            let go = |key: Key| a.pressed(key, false, height).0.focused_pane;
            &&& go(Key::Char('h')) == Pane::FileList
            &&& go(Key::Left) == Pane::FileList
            &&& go(Key::Char('l')) == Pane::DiffContent
            &&& go(Key::Right) == Pane::DiffContent
            &&& go(Key::Tab) != a.focused_pane
        }),
{
}

/// The switches of the layout, of wrapping and of the tree change what they are
/// named for. Wrapped lines start at the left.
pub proof fn law_switches(a: AppView, shift: bool, height: u16, f: Seq<char>)
    requires
        a.bare(),
        a.app_mode == AppMode::Diff,
    ensures
        a.pressed(Key::Char('u'), shift, height).0.view_mode != a.view_mode,
        a.pressed(Key::Char('u'), shift, height).0.selection_anchor is None,
        a.pressed(Key::Char('u'), shift, height).0.diff_cursor == 0,
        a.pressed(Key::Char('w'), shift, height).0.wrap_mode == !a.wrap_mode,
        a.pressed(Key::Char('w'), shift, height).0.status_message == Some(
            if a.wrap_mode {
                "Wrap: OFF"@
            } else {
                "Wrap: ON"@
            },
        ),
        !a.wrap_mode && a.h_scroll_positions.dom().contains(f) ==> a.pressed(
            Key::Char('w'),
            shift,
            height,
        ).0.h_scroll_positions[f] == 0,
        a.pressed(Key::Char('T'), shift, height).0.file_tree_view == !a.file_tree_view,
        a.pressed(Key::Char('T'), shift, height).0.status_message == Some(
            if a.file_tree_view {
                "File panel: list"@
            } else {
                "File panel: tree"@
            },
        ),
        a.pressed(Key::Char('R'), shift, height).0.hide_pure_renames == !a.hide_pure_renames,
{
}

/// The theme after the last one is the first.
pub proof fn law_theme_switched(a: AppView, shift: bool, height: u16)
    requires
        a.bare(),
        a.theme_cycle_idx < a.theme_cycle.len() <= usize::MAX,
    ensures
        ({
            let b = a.pressed(Key::Char('t'), shift, height).0;
            let next = if a.theme_cycle_idx + 1 < a.theme_cycle.len() {
                a.theme_cycle_idx + 1
            } else {
                0
            };
            b.theme_cycle_idx == next && b.theme == a.theme_cycle[next]
        }),
{
    vstd::arithmetic::div_mod::lemma_small_mod(a.theme_cycle_idx as nat, a.theme_cycle.len());
}

// ---------------------------------------------------------------------------
// Deciding about changes

/// The changes of every file are there to be decided about, none of them decided.
pub proof fn law_changes_listed(a: AppView, shift: bool, height: u16, f: Seq<char>)
    requires
        a.bare(),
        a.app_mode == AppMode::Diff,
        a.file_changes.dom().contains(f),
    ensures
        ({
            let b = a.pressed(Key::Char('r'), shift, height);
            &&& b.1 == TaskView::Nothing
            &&& b.0.app_mode == AppMode::Rebase
            &&& b.0.current_change_idx == 0
            &&& b.0.rebase_changes.dom() == a.file_changes.dom()
            &&& b.0.rebase_changes[f] == rebase::file_changes(
                a.file_changes[f].0,
                a.file_changes[f].1,
            )
        }),
{
    assert(a.pressed(Key::Char('r'), shift, height).0.rebase_changes.dom()
        =~= a.file_changes.dom());
}

/// One key accepts the change that is marked and another rejects it. The next change
/// is marked then.
pub proof fn law_change_decided(a: AppView, shift: bool, height: u16, f: Seq<char>)
    requires
        a.bare(),
        a.app_mode == AppMode::Rebase,
        a.current_file() == Some(f),
        a.rebase_changes.dom().contains(f),
        a.current_change_idx < a.rebase_changes[f].len() <= usize::MAX,
    ensures
        ({
            let i = a.current_change_idx as int;
            let yes = a.pressed(Key::Char('a'), shift, height).0;
            let no = a.pressed(Key::Char('x'), shift, height).0;
            &&& yes.rebase_changes[f][i] == (ChangeView {
                state: ChangeState::Accepted,
                ..a.rebase_changes[f][i]
            })
            &&& no.rebase_changes[f][i] == (ChangeView {
                state: ChangeState::Rejected,
                ..a.rebase_changes[f][i]
            })
            &&& yes.rebase_changes[f].len() == a.rebase_changes[f].len()
            &&& no.rebase_changes[f].len() == a.rebase_changes[f].len()
            &&& moved(a.current_change_idx, yes.current_change_idx, 1, a.rebase_changes[f].len())
            &&& moved(a.current_change_idx, no.current_change_idx, 1, a.rebase_changes[f].len())
        }),
{
    let b = AppView { status_message: None, ..a };
    assert(b.current_file() == Some(f));
    assert(b.change_count() == a.rebase_changes[f].len());
}

/// The place `offset` files on from place `i` among `n`, round the list.
pub open spec fn round(i: int, n: int, forward: bool, offset: int) -> int {
    if forward {
        if i + offset < n {
            i + offset
        } else {
            i + offset - n
        }
    } else {
        if i >= offset {
            i - offset
        } else {
            i - offset + n
        }
    }
}

proof fn lemma_round(i: int, n: int, forward: bool, offset: int)
    requires
        0 <= i < n,
        0 <= offset < n,
    ensures
        actions::round_at(i, n, forward, offset) == round(i, n, forward, offset),
{
    reveal(actions::round_at);
    let k = if forward {
        i + offset
    } else {
        i + n - offset
    };
    if k < n {
        vstd::arithmetic::div_mod::lemma_small_mod(k as nat, n as nat);
    } else {
        vstd::arithmetic::div_mod::lemma_small_mod((k - n) as nat, n as nat);
        vstd::arithmetic::div_mod::lemma_mod_add_multiples_vanish(k - n, n);
    }
}

proof fn lemma_nearest(a: AppView, forward: bool, offset: int)
    requires
        a.current_file_idx < a.file_names.len(),
        1 <= offset,
    ensures
        match a.file_from(forward, offset) {
            Some(j) => exists|o: int|
                offset <= o < a.file_names.len() && j == #[trigger] round(
                    a.current_file_idx as int,
                    a.file_names.len() as int,
                    forward,
                    o,
                ) && a.has_changes(j) && forall|q: int|
                    offset <= q < o ==> !a.has_changes(
                        #[trigger] round(
                            a.current_file_idx as int,
                            a.file_names.len() as int,
                            forward,
                            q,
                        ),
                    ),
            None => forall|q: int|
                offset <= q < a.file_names.len() ==> !a.has_changes(
                    #[trigger] round(
                        a.current_file_idx as int,
                        a.file_names.len() as int,
                        forward,
                        q,
                    ),
                ),
        },
    decreases a.file_names.len() - offset,
{
    let i = a.current_file_idx as int;
    let n = a.file_names.len() as int;
    if offset < n {
        lemma_round(i, n, forward, offset);
        if !a.has_changes(a.file_at(forward, offset)) {
            lemma_nearest(a, forward, offset + 1);
        } else {
            assert(a.file_from(forward, offset) == Some(round(i, n, forward, offset)));
        }
    }
}

/// The keys for the next and the previous file select the nearest other file in that
/// direction, round the list, that has changes to decide about, and its first
/// change. Where there is none everything stays.
pub proof fn law_next_file_with_changes(
    a: AppView,
    shift: bool,
    height: u16,
    forward: bool,
)
    requires
        a.bare(),
        a.app_mode == AppMode::Rebase,
        a.current_file_idx < a.file_names.len() <= usize::MAX,
    ensures
        ({
            let key = if forward {
                Key::Char('n')
            } else {
                Key::Char('p')
            };
            let b = a.pressed(key, shift, height).0;
            let at = |o: int|
                round(a.current_file_idx as int, a.file_names.len() as int, forward, o);
            ||| exists|o: int|
                1 <= o < a.file_names.len() && b.current_file_idx == #[trigger] at(o)
                    && b.current_change_idx == 0 && a.has_changes(at(o)) && forall|q: int|
                    1 <= q < o ==> !a.has_changes(#[trigger] at(q))
            ||| b == (AppView { status_message: None, ..a }) && forall|q: int|
                1 <= q < a.file_names.len() ==> !a.has_changes(#[trigger] at(q))
        }),
{
    let c = AppView { status_message: None, ..a };
    let at = |o: int| round(a.current_file_idx as int, a.file_names.len() as int, forward, o);
    lemma_nearest(c, forward, 1);
    assert forall|j: int| c.has_changes(j) == a.has_changes(j) by {}
    match c.file_from(forward, 1) {
        Some(j) => {
            let o = choose|o: int|
                1 <= o < c.file_names.len() && j == #[trigger] round(
                    c.current_file_idx as int,
                    c.file_names.len() as int,
                    forward,
                    o,
                ) && c.has_changes(j) && forall|q: int|
                    1 <= q < o ==> !c.has_changes(
                        #[trigger] round(
                            c.current_file_idx as int,
                            c.file_names.len() as int,
                            forward,
                            q,
                        ),
                    );
            assert(at(o) == j);
            assert forall|q: int| 1 <= q < o implies !a.has_changes(#[trigger] at(q)) by {}
        },
        None => {
            assert forall|q: int| 1 <= q < a.file_names.len() implies !a.has_changes(
                #[trigger] at(q),
            ) by {}
        },
    }
}

/// What is written, once that is asked for, are the edits of the accepted changes:
/// those of every file that has any, each file once and in order, and no others.
pub proof fn law_accepted_written(a: AppView, shift: bool, height: u16, f: Seq<char>)
    requires
        a.bare(),
        a.app_mode == AppMode::Rebase,
        a.rebase_changes.dom().finite(),
        a.rebase_changes.dom().contains(f),
        actions::accepted_edits(a.rebase_changes[f]).len() > 0,
    ensures
        ({
            let t = a.pressed(Key::Char('c'), shift, height).1;
            let edits = t->Apply_0;
            &&& t is Apply
            &&& edits.contains((f, actions::accepted_edits(a.rebase_changes[f])))
            &&& forall|i: int|
                0 <= i < edits.len() ==> a.rebase_changes.dom().contains((#[trigger] edits[i]).0)
                    && edits[i].1 == actions::accepted_edits(a.rebase_changes[edits[i].0])
                    && edits[i].1.len() > 0
            &&& forall|i: int, j: int|
                0 <= i < j < edits.len() ==> text::before(
                    (#[trigger] edits[i]).0,
                    (#[trigger] edits[j]).0,
                )
        }),
{
    let changes = a.rebase_changes;
    let all = changes.dom().filter(|n: Seq<char>| actions::has_edits(changes, n));
    files::lemma_in_order(all);
    let some = choose|names: Seq<Seq<char>>| files::ascending(names) && (forall|n: Seq<char>|
        #[trigger]
        names.contains(n) <==> all.contains(n));
    assert forall|n: Seq<char>| #[trigger] some.contains(n) <==> actions::has_edits(
        changes,
        n,
    ) by {
        assert(some.contains(n) <==> all.contains(n));
    }
    assert(actions::are_edited(some, changes));
    let names = actions::edited_files(changes);
    assert(actions::are_edited(names, changes));
    let edits = actions::all_edits(changes);
    let b = AppView { status_message: None, ..a };
    assert(b.rebase_changes == changes);
    assert(a.pressed(Key::Char('c'), shift, height) == b.rebase_char('c'));
    assert(names.contains(f));
    let k = choose|k: int| 0 <= k < names.len() && names[k] == f;
    assert(edits[k] == (f, actions::accepted_edits(changes[f])));
    assert forall|i: int| 0 <= i < edits.len() implies changes.dom().contains(
        (#[trigger] edits[i]).0,
    ) && edits[i].1 == actions::accepted_edits(changes[edits[i].0]) && edits[i].1.len() > 0 by {
        assert(names.contains(names[i]));
        assert(edits[i].0 == names[i]);
    }
    assert forall|i: int, j: int| 0 <= i < j < edits.len() implies text::before(
        (#[trigger] edits[i]).0,
        (#[trigger] edits[j]).0,
    ) by {
        assert(edits[i].0 == names[i] && edits[j].0 == names[j]);
    }
    assert(edits.len() > 0);
    assert(a.pressed(Key::Char('c'), shift, height).1 == TaskView::Apply(edits));
}

/// Only the accepted changes are written, in the order in which they are listed.
pub proof fn law_only_accepted(changes: Seq<ChangeView>)
    ensures
        actions::accepted_edits(changes) == changes.filter(
            |c: ChangeView| c.state is Accepted,
        ).map_values(|c: ChangeView| actions::edit_of(c)),
    decreases changes.len(),
{
    reveal_with_fuel(Seq::filter, 2);
    let yes = |c: ChangeView| c.state is Accepted;
    let made = |c: ChangeView| actions::edit_of(c);
    if changes.len() > 0 {
        law_only_accepted(changes.drop_last());
        assert(actions::accepted_edits(changes) =~= changes.filter(yes).map_values(made));
    } else {
        assert(changes.filter(yes).map_values(made) =~= Seq::empty());
    }
}

/// An accepted change makes the edit that it shows: a removed line is replaced by the
/// added line next to it or deleted, and an added line is put in where it belongs.
pub proof fn law_edit_made(c: ChangeView, line: Seq<char>, n: usize)
    ensures
        c.is_base && c.paired_content == Some(seq!['+'] + line) ==> actions::edit_of(c)
            == OpView::Replace(c.line_num, line),
        c.is_base && c.paired_content is None ==> actions::edit_of(c) == OpView::Delete(
            c.line_num,
        ),
        !c.is_base && c.content == seq!['+'] + line && c.base_insert_pos == Some(n)
            ==> actions::edit_of(c) == (OpView::Insert {
            base_pos: n,
            order: c.line_num,
            content: line,
        }),
{
    reveal_strlit("+");
    let s = seq!['+'] + line;
    assert(s.subrange(0, 1) =~= "+"@);
    assert(s.skip(1) =~= line);
}

/// After writing, the diff is shown again and it is told how it went.
pub proof fn law_written_told(a: AppView, e: Seq<char>, other: Seq<char>)
    ensures
        a.edits_applied(Seq::empty()).app_mode == AppMode::Diff,
        a.edits_applied(Seq::empty()).status_message == Some("Changes applied successfully!"@),
        a.edits_applied(seq![e]).app_mode == AppMode::Diff,
        a.edits_applied(seq![e]).status_message == Some("Error: "@ + e),
        a.edits_applied(seq![e, other]).status_message == Some("Error: "@ + (e + "; "@ + other)),
{
    assert(seq![e, other].drop_last() =~= seq![e]);
    assert(text::join(seq![e], "; "@) == e);
}

// ---------------------------------------------------------------------------
// The mouse

/// A click into the file list selects the file in that row.
pub proof fn law_file_clicked(a: AppView, m: Mouse, width: u16, height: u16)
    requires
        a.bare(),
        a.app_mode == AppMode::Diff,
        m.kind == MouseKind::LeftDown,
        2 <= m.row && m.row + 2 < height,
        m.column + 1 < mouse::list_width(width, a.file_list_width_pct),
        a.current_file_idx < a.file_names.len() <= usize::MAX,
    ensures
        ({
            let first = files::list_offset(
                a.current_file_idx as int,
                a.file_names.len() as int,
                height - 4,
            );
            let b = a.moused(m, width, height);
            if first + (m.row - 2) < a.file_names.len() {
                b.current_file_idx == first + (m.row - 2) && b.focused_pane == Pane::FileList
            } else {
                b == a
            }
        }),
{
}

/// The wheel moves by three: files in the list, rows in the diff.
pub proof fn law_wheel(a: AppView, m: Mouse, width: u16, height: u16, f: Seq<char>)
    requires
        a.bare(),
        a.app_mode == AppMode::Diff,
        m.kind == MouseKind::ScrollDown || m.kind == MouseKind::ScrollUp,
        0 < m.row && m.row + 1 < height,
        a.current_file() == Some(f),
        a.file_names.len() <= usize::MAX,
        a.scroll_positions.dom().contains(f),
        a.scroll_positions[f] + 3 <= usize::MAX,
    ensures
        ({
            let b = a.moused(m, width, height);
            let by: int = if m.kind == MouseKind::ScrollDown {
                3
            } else {
                -3
            };
            if m.column < mouse::list_width(width, a.file_list_width_pct) {
                moved(a.current_file_idx, b.current_file_idx, by, a.file_names.len())
            } else {
                &&& b.current_file_idx == a.current_file_idx
                &&& b.scroll_positions[f] == if by > 0 {
                    a.scroll_positions[f] + 3
                } else {
                    back_by(a.scroll_positions[f], 3)
                }
            }
        }),
{
    assert(a.scroll() == a.scroll_positions[f]);
}

/// A swipe to the side scrolls the diff sideways, by three columns, and nothing
/// else.
pub proof fn law_swipe(a: AppView, m: Mouse, width: u16, height: u16, f: Seq<char>)
    requires
        a.bare(),
        a.app_mode == AppMode::Diff,
        m.kind == MouseKind::ScrollRight || m.kind == MouseKind::ScrollLeft,
        0 < m.row && m.row + 1 < height,
        a.current_file() == Some(f),
        a.h_scroll_positions.dom().contains(f),
        a.h_scroll_positions[f] + 3 <= usize::MAX,
    ensures
        ({
            let b = a.moused(m, width, height);
            if m.column < mouse::list_width(width, a.file_list_width_pct) {
                b == a
            } else {
                b.h_scroll_positions[f] == if m.kind == MouseKind::ScrollRight {
                    a.h_scroll_positions[f] + 3
                } else {
                    back_by(a.h_scroll_positions[f], 3)
                }
            }
        }),
{
    assert(a.h_scroll() == a.h_scroll_positions[f]);
}

/// The divider is taken by pressing the button on it, follows the mouse while the
/// button is held, and is let go with it. The list then takes the share of the
/// screen up to the mouse, but not less than a tenth and not more than six
/// tenths.
pub proof fn law_divider_dragged(a: AppView, down: Mouse, drag: Mouse, up: Mouse, width: u16, height: u16)
    requires
        a.bare(),
        a.app_mode == AppMode::Diff,
        down.kind == MouseKind::LeftDown,
        0 < down.row && down.row + 1 < height,
        down.column == mouse::list_width(width, a.file_list_width_pct),
        drag.kind == MouseKind::LeftDrag,
        drag.column < width,
        up.kind == MouseKind::LeftUp,
    ensures
        ({
            let taken = a.moused(down, width, height);
            let dragged = taken.moused(drag, width, height);
            let done = dragged.moused(up, width, height);
            let pct = done.file_list_width_pct as int;
            &&& taken.resizing_divider
            &&& !done.resizing_divider
            &&& 10 <= pct <= 60
            &&& pct > 10 ==> pct * width <= drag.column * 100
            &&& pct < 60 ==> drag.column * 100 < (pct + 1) * width
            &&& done.moused(drag, width, height).file_list_width_pct == done.file_list_width_pct
                || done.mouse_selecting
        }),
{
    let c = drag.column as int;
    let w = width as int;
    let raw = c * 100 / w;
    assert(0 <= raw < 100 && raw * w <= c * 100 < (raw + 1) * w) by (nonlinear_arith)
        requires
            0 <= c < w,
            raw == c * 100 / w,
    ;
    vstd::arithmetic::div_mod::lemma_small_mod(raw as nat, 65536);
    let pct = mouse::dragged_pct(drag.column, width) as int;
    assert(pct == if raw < 10 { 10 } else if raw > 60 { 60 } else { raw });
    assert(pct > 10 ==> pct * w <= c * 100) by (nonlinear_arith)
        requires
            raw * w <= c * 100,
            pct == raw || pct == 10 || (pct == 60 && raw > 60),
            w > 0,
    ;
    assert(pct < 60 ==> c * 100 < (pct + 1) * w) by (nonlinear_arith)
        requires
            c * 100 < (raw + 1) * w,
            pct == raw || pct == 60 || (pct == 10 && raw < 10),
            w > 0,
    ;
}

/// With the button held down lines are selected, from the one under the mouse where it
/// was pressed to the one under it where it is let go. A click alone selects
/// nothing.
pub proof fn law_lines_dragged(
    a: AppView,
    down: Mouse,
    drag: Mouse,
    up: Mouse,
    width: u16,
    height: u16,
    f: Seq<char>,
)
    requires
        a.bare(),
        a.app_mode == AppMode::Diff,
        !a.wrap_mode && !a.resizing_divider,
        a.current_file() == Some(f),
        a.scroll_positions.dom().contains(f),
        down.kind == MouseKind::LeftDown,
        drag.kind == MouseKind::LeftDrag,
        up.kind == MouseKind::LeftUp,
        2 <= down.row && down.row + 2 < height,
        2 <= drag.row,
        down.column > mouse::list_width(width, a.file_list_width_pct) + 1,
        a.scroll_positions[f] + (down.row - 2) < a.line_count() <= usize::MAX,
        a.scroll_positions[f] + (drag.row - 2) < a.line_count(),
    ensures
        ({
            let first = a.scroll_positions[f] + (down.row - 2);
            let last = a.scroll_positions[f] + (drag.row - 2);
            let held = a.moused(down, width, height).moused(drag, width, height);
            let done = held.moused(up, width, height);
            &&& held.selection() == if first <= last {
                Some((first as usize, last as usize))
            } else {
                Some((last as usize, first as usize))
            }
            &&& done.diff_cursor == last
            &&& done.focused_pane == Pane::DiffContent
            &&& first != last ==> done.selection() == held.selection()
            &&& first == last ==> done.selection() is None
            &&& !done.mouse_selecting
        }),
{
    assert(a.scroll() == a.scroll_positions[f]);
    let b = a.moused(down, width, height);
    let first = (a.scroll_positions[f] + (down.row - 2)) as usize;
    assert(b == a.pointed(first));
    assert(b.scroll() == a.scroll());
    assert(b.line_count() == a.line_count());
    let last = (a.scroll_positions[f] + (drag.row - 2)) as usize;
    let held = b.moused(drag, width, height);
    assert(held == b.cursor_at(last));
    let done = held.moused(up, width, height);
    assert(done == held.let_go());
}

/// Where changes are decided about, and in the log, the wheel moves by three.
pub proof fn law_wheel_in_lists(a: AppView, m: Mouse, width: u16, height: u16, f: Seq<char>)
    requires
        a.bare(),
        m.kind == MouseKind::ScrollDown || m.kind == MouseKind::ScrollUp,
        0 < m.row && m.row + 1 < height,
        a.current_file() == Some(f),
        a.rebase_changes.dom().contains(f),
        a.current_change_idx < a.rebase_changes[f].len() <= usize::MAX,
        a.current_commit_idx < a.commits.len() <= usize::MAX,
    ensures
        ({
            let b = a.moused(m, width, height);
            let by: int = if m.kind == MouseKind::ScrollDown {
                3
            } else {
                -3
            };
            &&& a.app_mode == AppMode::Rebase ==> moved(
                a.current_change_idx,
                b.current_change_idx,
                by,
                a.rebase_changes[f].len(),
            )
            &&& a.app_mode == AppMode::Log ==> moved(
                a.current_commit_idx,
                b.current_commit_idx,
                by,
                a.commits.len(),
            )
            &&& a.app_mode == AppMode::RemotePicker ==> b == a
        }),
{
    assert(a.change_count() == a.rebase_changes[f].len());
}

/// While a window is open the mouse does nothing.
pub proof fn law_windows_keep_mouse(a: AppView, m: Mouse, width: u16, height: u16)
    requires
        a.show_commit_modal || a.show_help_modal || a.show_rebase_modal,
    ensures
        a.moused(m, width, height) == a,
{
}

/// Where renames without content changes are hidden or shown again, the list holds the
/// files that are to be listed then. The selected file stays selected if it is one
/// of them, and if not the first is. How many are hidden is told.
pub proof fn law_renames_switched(a: AppView, shift: bool, height: u16, f: Seq<char>)
    requires
        a.bare(),
        a.app_mode == AppMode::Diff,
        a.current_file() == Some(f),
        files::visible_names(a.file_changes, a.file_meta, !a.hide_pure_renames).len()
            <= usize::MAX,
    ensures
        ({
            let b = a.pressed(Key::Char('R'), shift, height).0;
            let hidden = a.file_meta.dom().filter(
                |n: Seq<char>|
                    a.file_meta[n].rename matches Some(r) && r.similarity >= 100,
            ).len();
            &&& b.file_names == files::visible_names(
                a.file_changes,
                a.file_meta,
                !a.hide_pure_renames,
            )
            &&& b.file_names.contains(f) ==> b.current_file() == Some(f)
            &&& !b.file_names.contains(f) ==> b.current_file_idx == 0
            &&& a.hide_pure_renames ==> b.status_message == Some("Renames: shown"@)
            &&& !a.hide_pure_renames && hidden == 1 ==> b.status_message == Some(
                "Renames: hidden ("@ + text::decimal(1) + " file"@ + ""@ + ")"@,
            )
            &&& !a.hide_pure_renames && hidden != 1 ==> b.status_message == Some(
                "Renames: hidden ("@ + text::decimal(hidden) + " file"@ + "s"@ + ")"@,
            )
        }),
{
    let names = files::visible_names(a.file_changes, a.file_meta, !a.hide_pure_renames);
    keys::law_place(names, f);
    let b = AppView { status_message: None, ..a };
    assert(b.current_file() == Some(f));
    assert(actions::pure_renames(a.file_meta) =~= a.file_meta.dom().filter(
        |n: Seq<char>| a.file_meta[n].rename matches Some(r) && r.similarity >= 100,
    ));
}

// ---------------------------------------------------------------------------
// What is told on the way

/// While something takes its time the user is told what is done, with what, and
/// where to.
pub proof fn law_progress_told(
    a: AppView,
    upstream: Seq<char>,
    remote: Seq<char>,
    branch: Seq<char>,
    message: Seq<char>,
)
    ensures
        a.syncing().0 == a.told("Syncing\u{2026}"@),
        a.sync_upstream(Ok(Some(upstream))).0 == a.told("Pulling from "@ + upstream
            + "\u{2026}"@),
        a.pulled(upstream, Ok(())).0 == a.told("Pushing to "@ + upstream + "\u{2026}"@),
        a.branch_found(seq![remote], Ok(branch)).0 == a.told(
            "Pushing "@ + branch + " \u{2192} "@ + remote + "/"@ + branch + "\u{2026}"@,
        ),
        a.pushed_to(remote, branch, Ok(())).0 == a.told(
            "Pushed "@ + branch + " \u{2192} "@ + remote + "/"@ + branch,
        ),
        a.commit_checked(Ok(true)).0 == a.told("Generating commit message\u{2026}"@),
        a.commit_checked(Ok(false)).0 == a.told("Nothing to commit"@),
        a.pending_commit_message == Some(message) ==> a.confirmed().0.status_message == Some(
            "Committing\u{2026}"@,
        ),
        a.commit_cancelled().status_message == Some("Commit cancelled"@),
{
}

/// What fails on the way to a commit, to a rebase or to a diff is told, and nothing
/// more is done.
pub proof fn law_failures_told(
    a: AppView,
    e: Seq<char>,
    message: Seq<char>,
    source: SourceView,
    hash: Seq<char>,
)
    ensures
        a.commit_checked(Err(e)) == (a.told("Error: "@ + e), TaskView::Nothing),
        a.context_collected(Err(e)) == (a.told("Error: "@ + e), TaskView::Nothing),
        a.message_written(Err(e)) == a.told("Error: "@ + e),
        a.staged(message, Err(e)) == (a.told("Stage failed: "@ + e), TaskView::Nothing),
        a.committed(message, Err(e)) == (a.told("Commit failed: "@ + e), TaskView::Nothing),
        a.reloaded(Err(e)) == (a.told("Reload failed: "@ + e), TaskView::Nothing),
        a.opened(source, hash, message, Err(e)) == a.told("Failed to load commit: "@ + e),
        a.log_read(Err(e)) == a.told("git log failed: "@ + e),
        a.log_read(Ok(seq![])) == a.told("No commits found"@),
        a.rebase_upstream(Err(e)).1 == TaskView::Nothing,
        a.rebase_upstream(Err(e)).0.status_message == Some("Error: "@ + e),
        a.rebase_upstream(Ok(None)).1 == TaskView::Nothing,
        !a.rebase_upstream(Ok(None)).0.show_rebase_modal,
        a.rebase_upstream(Ok(None)).0.status_message == Some("No upstream branch configured."@),
        a.rebased(Err(e)).1 == TaskView::Nothing,
        a.rebased(Err(e)).0.status_message == Some("Error: "@ + e),
        a.rebased(Ok(false)).0.rebase_notification == Some(
            "Rebase failed due to conflicts and was rolled back."@,
        ),
        a.rebased(Ok(false)).1 == TaskView::Nothing,
{
}

/// What was found out of the branch is shown, and the diff is reloaded where that is
/// wanted.
pub proof fn law_branch_found_out(a: AppView, reload: bool, status: Option<BranchView>)
    ensures
        a.status_found(reload, status).0 == (AppView { branch_status: status, ..a }),
        !reload ==> a.status_found(reload, status).1 == TaskView::Nothing,
        reload && a.app_mode == AppMode::Diff ==> a.status_found(reload, status).1 == (
        TaskView::Fetch {
            source: a.diff_source,
            context: lines_around(a.full_file),
            purpose: FetchView::Reload,
        }),
{
}

} // verus!
