//! What holds of the screen as a whole.
use vstd::prelude::*;
use super::actions;
use super::draw::Rect;
use super::files;
use super::keys;
use super::keys::Key;
use super::mouse;
use super::mouse::Mouse;
use super::rebase;
use super::settle;
use super::start;
use super::start::UiDefaults;
use super::task::{FetchView, TaskView};
use super::theme::ThemeView;
use super::types::{AppMode, AppView, ChangeState, ChangeView, Pane};
use crate::diff::{BranchView, CommitView, PayloadView, SideView, SourceView};
use crate::text;

verus! {

// ---------------------------------------------------------------------------
// Valid states

/// Whether `i` is the index of one of `len` entries, or 0 where there are none.
pub open spec fn selects(i: usize, len: nat) -> bool {
    len <= usize::MAX && (i < len || (len == 0 && i == 0))
}

impl AppView {
    /// Whether what is selected is there to be selected, and what is shown is
    /// there to be shown.
    pub open spec fn valid(self) -> bool {
        &&& selects(self.current_file_idx, self.file_names.len())
        &&& selects(self.current_commit_idx, self.commits.len())
        &&& selects(self.current_remote_idx, self.remotes.len())
        &&& self.app_mode == AppMode::Rebase ==> selects(
            self.current_change_idx,
            self.change_count(),
        )
        &&& self.theme_cycle_idx < self.theme_cycle.len()
        &&& self.theme_cycle.len() <= usize::MAX
        &&& self.theme == self.theme_cycle[self.theme_cycle_idx as int]
        &&& self.file_names == files::visible_names(
            self.file_changes,
            self.file_meta,
            self.hide_pure_renames,
        )
        &&& 10 <= self.file_list_width_pct <= 60
        &&& self.app_mode == AppMode::Log ==> self.commits.len() > 0
        &&& self.app_mode == AppMode::RemotePicker ==> self.remotes.len() > 0
        &&& self.show_commit_modal ==> self.pending_commit_message is Some
    }
}

/// Whether the files of a diff can be listed on this machine.
pub open spec fn fits(p: PayloadView, hide: bool) -> bool {
    files::visible_names(p.files, p.meta, hide).len() <= usize::MAX
}

proof fn lemma_place(names: Seq<Seq<char>>, name: Seq<char>)
    requires
        names.len() <= usize::MAX,
    ensures
        match keys::place_of(names, name) {
            Some(i) => i < names.len() && names[i as int] == name,
            None => !names.contains(name),
        },
    decreases names.len(),
{
    if names.len() > 0 {
        lemma_place(names.drop_last(), name);
        if keys::place_of(names.drop_last(), name) is None && names.contains(name) {
            let i = choose|i: int| 0 <= i < names.len() && names[i] == name;
            if i < names.len() - 1 {
                assert(names.drop_last()[i] == name);
                assert(names.drop_last().contains(name));
            }
        }
    }
}

proof fn lemma_place_or_first(names: Seq<Seq<char>>, name: Option<Seq<char>>)
    requires
        names.len() <= usize::MAX,
    ensures
        selects(keys::place_or_first(names, name), names.len()),
        name matches Some(n) ==> names.contains(n) ==> names[keys::place_or_first(
            names,
            name,
        ) as int] == n,
{
    if let Some(n) = name {
        lemma_place(names, n);
    }
}

/// The screen starts in a valid state.
pub proof fn law_starts_valid(
    p: PayloadView,
    theme: ThemeView,
    notification: Option<Seq<char>>,
    source: SourceView,
    defaults: UiDefaults,
    branch: Option<BranchView>,
)
    requires
        fits(p, false),
    ensures
        start::first_screen(p, theme, notification, source, defaults, branch).valid(),
{
}

proof fn lemma_down_valid(a: AppView)
    requires
        a.valid(),
    ensures
        a.down().valid(),
{
}

proof fn lemma_up_valid(a: AppView)
    requires
        a.valid(),
    ensures
        a.up().valid(),
{
}

proof fn lemma_page_down_valid(a: AppView, height: u16)
    requires
        a.valid(),
    ensures
        a.page_down(height).valid(),
{
}

proof fn lemma_page_up_valid(a: AppView, height: u16)
    requires
        a.valid(),
    ensures
        a.page_up(height).valid(),
{
}

proof fn lemma_ends_valid(a: AppView)
    requires
        a.valid(),
    ensures
        a.to_start().valid(),
        a.to_end().valid(),
{
}

proof fn lemma_round(i: int, len: int, forward: bool, offset: int)
    requires
        0 <= i < len,
        0 <= offset < len,
    ensures
        0 <= actions::round_at(i, len, forward, offset) < len,
{
    reveal(actions::round_at);
    vstd::arithmetic::div_mod::lemma_mod_bound(i + offset, len);
    vstd::arithmetic::div_mod::lemma_mod_bound(i + len - offset, len);
}

proof fn lemma_file_from(a: AppView, forward: bool, offset: int)
    requires
        a.current_file_idx < a.file_names.len(),
        0 <= offset,
    ensures
        a.file_from(forward, offset) matches Some(i) ==> 0 <= i < a.file_names.len()
            && a.has_changes(i),
    decreases a.file_names.len() - offset,
{
    if offset < a.file_names.len() {
        lemma_round(a.current_file_idx as int, a.file_names.len() as int, forward, offset);
        if !a.has_changes(a.file_at(forward, offset)) {
            lemma_file_from(a, forward, offset + 1);
        }
    }
}

proof fn lemma_other_file_valid(a: AppView, forward: bool)
    requires
        a.valid(),
        a.app_mode == AppMode::Rebase,
        forall|f: Seq<char>| #[trigger] a.rebase_changes.dom().contains(f)
            ==> a.rebase_changes[f].len() <= usize::MAX,
    ensures
        a.at_other_file(forward).valid(),
{
    if a.file_names.len() > 0 {
        lemma_file_from(a, forward, 1);
        if let Some(i) = a.file_from(forward, 1) {
            let b = AppView { current_change_idx: 0, ..a };
            assert(b.at_file(i as usize).current_file() == Some(a.file_names[i]));
        }
    } else {
        assert(a.file_from(forward, 1) is None);
    }
}

proof fn lemma_decided_valid(a: AppView, state: ChangeState)
    requires
        a.valid(),
        a.app_mode == AppMode::Rebase,
    ensures
        a.decided(state).valid(),
{
}

proof fn lemma_theme_valid(a: AppView)
    requires
        a.valid(),
    ensures
        a.next_theme().valid(),
{
    vstd::arithmetic::div_mod::lemma_small_mod(
        a.theme_cycle_idx as nat,
        a.theme_cycle.len(),
    );
}

/// Whether the changes of every file can be counted on this machine.
pub open spec fn countable(changes: Map<Seq<char>, Seq<ChangeView>>) -> bool {
    forall|f: Seq<char>| #[trigger] changes.dom().contains(f) ==> changes[f].len() <= usize::MAX
}

proof fn lemma_back_valid(a: AppView)
    requires
        a.valid(),
    ensures
        a.back().0.valid(),
{
}

proof fn lemma_renames_valid(a: AppView)
    requires
        a.valid(),
        a.app_mode == AppMode::Diff,
        files::visible_names(a.file_changes, a.file_meta, !a.hide_pure_renames).len()
            <= usize::MAX,
    ensures
        a.renames_switched().valid(),
{
    lemma_place_or_first(
        files::visible_names(a.file_changes, a.file_meta, !a.hide_pure_renames),
        a.current_file(),
    );
}

proof fn lemma_diff_char_valid(a: AppView, c: char)
    requires
        a.valid(),
        a.app_mode == AppMode::Diff,
        countable(a.with_changes().rebase_changes),
        files::visible_names(a.file_changes, a.file_meta, !a.hide_pure_renames).len()
            <= usize::MAX,
    ensures
        a.diff_char(c).0.valid(),
{
    if c == 'R' {
        lemma_renames_valid(a);
    } else if c == 'r' {
        assert(a.in_rebase().rebase_changes == a.with_changes().rebase_changes);
        assert(a.in_rebase().valid());
    }
}

proof fn lemma_rebase_char_valid(a: AppView, c: char)
    requires
        a.valid(),
        a.app_mode == AppMode::Rebase,
        countable(a.rebase_changes),
    ensures
        a.rebase_char(c).0.valid(),
{
    if c == 'a' {
        lemma_decided_valid(a, ChangeState::Accepted);
    } else if c == 'x' {
        lemma_decided_valid(a, ChangeState::Rejected);
    } else if c == 'n' {
        lemma_other_file_valid(a, true);
    } else if c == 'p' {
        lemma_other_file_valid(a, false);
    }
}

proof fn lemma_char_valid(a: AppView, c: char)
    requires
        a.valid(),
        countable(a.rebase_changes),
        countable(a.with_changes().rebase_changes),
        files::visible_names(a.file_changes, a.file_meta, !a.hide_pure_renames).len()
            <= usize::MAX,
    ensures
        a.char_key(c).0.valid(),
{
    if c == 'q' {
        lemma_back_valid(a);
    } else if c == 'j' {
        lemma_down_valid(a);
    } else if c == 'k' {
        lemma_up_valid(a);
    } else if c == 't' {
        lemma_theme_valid(a);
    } else if c != '?' {
        match a.app_mode {
            AppMode::Diff => lemma_diff_char_valid(a, c),
            AppMode::Rebase => lemma_rebase_char_valid(a, c),
            _ => {},
        }
    }
}

proof fn lemma_plain_valid(a: AppView, key: Key, height: u16)
    requires
        a.valid(),
        countable(a.rebase_changes),
        countable(a.with_changes().rebase_changes),
        files::visible_names(a.file_changes, a.file_meta, !a.hide_pure_renames).len()
            <= usize::MAX,
    ensures
        a.plain_key(key, height).0.valid(),
{
    match key {
        Key::Char(c) => lemma_char_valid(a, c),
        Key::Esc => lemma_back_valid(a),
        Key::Down => lemma_down_valid(a),
        Key::Up => lemma_up_valid(a),
        Key::PageDown => lemma_page_down_valid(a, height),
        Key::PageUp => lemma_page_up_valid(a, height),
        Key::Home | Key::End => lemma_ends_valid(a),
        _ => {},
    }
}

proof fn lemma_window_keys_valid(a: AppView, key: Key)
    requires
        a.valid(),
    ensures
        a.show_commit_modal ==> a.commit_key(key).0.valid(),
        a.help_key(key).valid(),
        a.notice_key(key).0.valid(),
{
}

proof fn lemma_sideways_valid(a: AppView)
    requires
        a.valid(),
    ensures
        forall|column: usize| #[trigger] a.h_scrolled_to(column).valid(),
{
}

/// Every key keeps the state valid.
pub proof fn law_keys_keep_valid(a: AppView, key: Key, shift: bool, height: u16)
    requires
        a.valid(),
        countable(a.rebase_changes),
        countable(a.with_changes().rebase_changes),
        files::visible_names(a.file_changes, a.file_meta, !a.hide_pure_renames).len()
            <= usize::MAX,
    ensures
        a.pressed(key, shift, height).0.valid(),
{
    let b = AppView { status_message: None, ..a };
    assert(b.valid());
    assert(b.with_changes().rebase_changes == a.with_changes().rebase_changes);
    if b.show_commit_modal || b.show_help_modal || b.show_rebase_modal {
        lemma_window_keys_valid(b, key);
    } else {
        lemma_sideways_valid(b);
        lemma_plain_valid(b, key, height);
    }
}

/// The mouse keeps the state valid.
pub proof fn law_mouse_keeps_valid(a: AppView, mouse: Mouse, width: u16, height: u16)
    requires
        a.valid(),
    ensures
        a.moused(mouse, width, height).valid(),
{
    assert(forall|i: usize| i < a.file_names.len() && a.app_mode == AppMode::Diff ==> #[trigger]
        a.at_file(i).valid());
}

/// A diff that was fetched keeps the state valid. While changes are decided about
/// no diff takes the place of the one that they were found in.
pub proof fn law_fetch_keeps_valid(
    a: AppView,
    source: SourceView,
    purpose: FetchView,
    result: Result<PayloadView, Seq<char>>,
)
    requires
        a.valid(),
        a.app_mode == AppMode::Rebase ==> purpose is LeaveLog || purpose is OpenCommit,
        result matches Ok(p) ==> fits(p, a.hide_pure_renames),
    ensures
        a.fetched(source, purpose, result).0.valid(),
{
    if let Ok(p) = result {
        lemma_place_or_first(
            files::visible_names(p.files, p.meta, a.hide_pure_renames),
            a.current_file(),
        );
        if a.app_mode != AppMode::Rebase {
            assert(a.updated(p).valid());
        }
    }
}

/// What else comes back keeps the state valid.
pub proof fn law_answers_keep_valid(
    a: AppView,
    commits: Result<Seq<CommitView>, Seq<char>>,
    remotes: Seq<Seq<char>>,
    branch: Result<Seq<char>, Seq<char>>,
    message: Result<Seq<char>, Seq<char>>,
    errors: Seq<Seq<char>>,
)
    requires
        a.valid(),
        commits matches Ok(c) ==> c.len() <= usize::MAX,
        remotes.len() <= usize::MAX,
    ensures
        a.log_read(commits).valid(),
        a.branch_found(remotes, branch).0.valid(),
        a.picker_branch_found(branch).0.valid(),
        a.message_written(message).valid(),
        a.edits_applied(errors).valid(),
        a.confirmed().0.valid(),
        a.commit_cancelled().valid(),
{
}

/// Every step of a commit, a sync or a rebase keeps the state valid.
pub proof fn law_steps_keep_valid(
    a: AppView,
    found: Result<bool, Seq<char>>,
    upstream: Result<Option<Seq<char>>, Seq<char>>,
    remotes: Result<Seq<Seq<char>>, Seq<char>>,
    status: Option<BranchView>,
    reload: bool,
    text: Result<Seq<char>, Seq<char>>,
    done: Result<(), Seq<char>>,
    name: Seq<char>,
    branch: Seq<char>,
)
    requires
        a.valid(),
    ensures
        a.rebase_upstream(upstream).0.valid(),
        a.rebased(found).0.valid(),
        a.status_found(reload, status).0.valid(),
        a.commit_checked(found).0.valid(),
        a.context_collected(text).0.valid(),
        a.staged(name, done).0.valid(),
        a.committed(name, done).0.valid(),
        a.syncing().0.valid(),
        a.sync_checked(found).0.valid(),
        a.sync_upstream(upstream).0.valid(),
        a.pulled(name, done).0.valid(),
        a.pushed(name, done).0.valid(),
        a.remotes_listed(remotes).0.valid(),
        a.pushed_to(name, branch, done).0.valid(),
{
}

// ---------------------------------------------------------------------------
// Windows

/// While a window is open, keys and the mouse do not reach what lies behind it.
pub proof fn law_windows_hold(a: AppView, key: Key, shift: bool, mouse: Mouse, w: u16, h: u16)
    requires
        a.show_commit_modal || a.show_help_modal || a.show_rebase_modal,
    ensures
        ({
            let b = a.pressed(key, shift, h).0;
            &&& b.current_file_idx == a.current_file_idx
            &&& b.file_names == a.file_names
            &&& b.scroll_positions == a.scroll_positions
            &&& b.h_scroll_positions == a.h_scroll_positions
            &&& b.app_mode == a.app_mode
            &&& b.view_mode == a.view_mode
            &&& b.focused_pane == a.focused_pane
            &&& b.rebase_changes == a.rebase_changes
            &&& b.current_commit_idx == a.current_commit_idx
            &&& b.diff_source == a.diff_source
            &&& b.theme == a.theme
        }),
        a.moused(mouse, w, h) == a,
{
}

/// Whether a task neither changes the repository or its files nor leaves the
/// program.
spec fn harmless(t: TaskView) -> bool {
    &&& t !is StageAll
    &&& t !is Commit
    &&& t !is Apply
    &&& t !is Pull
    &&& t !is Push
    &&& t !is PushTo
    &&& t !is Exit
}

proof fn lemma_back_task(a: AppView)
    ensures
        harmless(a.back().1) || (a.back().1 is Exit && a.app_mode == AppMode::Diff
            && a.log_return_source is None),
{
}

proof fn lemma_diff_char_task(a: AppView, c: char)
    ensures
        harmless(a.diff_char(c).1),
{
}

proof fn lemma_rebase_char_task(a: AppView, c: char)
    ensures
        harmless(a.rebase_char(c).1) || (a.rebase_char(c).1 is Apply && c == 'c'),
{
}

proof fn lemma_char_task(a: AppView, c: char)
    ensures
        ({
            let t = a.char_key(c).1;
            ||| harmless(t)
            ||| t is Apply && a.app_mode == AppMode::Rebase && c == 'c'
            ||| t is Exit && a.app_mode == AppMode::Diff && a.log_return_source is None && c == 'q'
        }),
{
    if c == 'q' {
        lemma_back_task(a);
    } else if c != 'j' && c != 'k' && c != 't' && c != '?' {
        match a.app_mode {
            AppMode::Diff => lemma_diff_char_task(a, c),
            AppMode::Rebase => lemma_rebase_char_task(a, c),
            _ => {},
        }
    }
}

proof fn lemma_plain_task(a: AppView, key: Key, height: u16)
    ensures
        ({
            let t = a.plain_key(key, height).1;
            ||| harmless(t)
            ||| t is Apply && a.app_mode == AppMode::Rebase && key == Key::Char('c')
            ||| t is Exit && a.app_mode == AppMode::Diff && a.log_return_source is None && (key
                == Key::Esc || key == Key::Char('q'))
        }),
{
    match key {
        Key::Char(c) => lemma_char_task(a, c),
        Key::Esc => lemma_back_task(a),
        _ => {},
    }
}

proof fn lemma_commit_key_task(a: AppView, key: Key)
    ensures
        ({
            let t = a.commit_key(key).1;
            ||| t == TaskView::Nothing
            ||| (key == Key::Enter || key == Key::Char('y')) && a.pending_commit_message is Some
                && t == TaskView::StageAll(a.pending_commit_message->0)
        }),
{
}

proof fn lemma_task(a: AppView, key: Key, shift: bool, height: u16)
    ensures
        ({
            let t = a.pressed(key, shift, height).1;
            let open = a.show_commit_modal || a.show_help_modal || a.show_rebase_modal;
            ||| harmless(t)
            ||| a.show_commit_modal && (key == Key::Enter || key == Key::Char('y'))
                && a.pending_commit_message is Some && t == TaskView::StageAll(
                a.pending_commit_message->0,
            )
            ||| !open && t is Apply && a.app_mode == AppMode::Rebase && key == Key::Char('c')
            ||| !open && t is Exit && a.app_mode == AppMode::Diff && a.log_return_source is None
                && (key == Key::Esc || key == Key::Char('q'))
        }),
        a.show_commit_modal && a.pressed(key, shift, height).1 !is StageAll ==> a.pressed(
            key,
            shift,
            height,
        ).1 == TaskView::Nothing,
{
    let quiet = AppView { status_message: None, ..a };
    lemma_commit_key_task(quiet, key);
    lemma_plain_task(quiet, key, height);
}

proof fn lemma_cancelled(a: AppView, shift: bool, height: u16)
    requires
        a.show_commit_modal,
    ensures
        a.pressed(Key::Esc, shift, height).0.pending_commit_message is None,
        a.pressed(Key::Esc, shift, height).1 == TaskView::Nothing,
{
}

/// A commit is made only after it was confirmed: of all keys, only those that
/// confirm in the commit window lead to anything being staged, with the message
/// that is shown there. No other key of that window leads anywhere, and what
/// could not be staged is not committed.
pub proof fn law_commit_is_confirmed(a: AppView, key: Key, shift: bool, height: u16)
    ensures
        a.pressed(key, shift, height).1 matches TaskView::StageAll(m) ==> a.show_commit_modal && (
        key == Key::Enter || key == Key::Char('y')) && a.pending_commit_message == Some(m),
        a.pressed(key, shift, height).1 !is Commit,
        a.show_commit_modal && a.pressed(key, shift, height).1 !is StageAll ==> a.pressed(
            key,
            shift,
            height,
        ).1 == TaskView::Nothing,
        a.show_commit_modal && key == Key::Esc ==> a.pressed(
            key,
            shift,
            height,
        ).0.pending_commit_message is None && a.pressed(key, shift, height).1 == TaskView::Nothing,
        forall|m: Seq<char>, e: Seq<char>| #[trigger]
            a.staged(m, Err(e)).1 == TaskView::Nothing,
{
    lemma_task(a, key, shift, height);
    if a.show_commit_modal && key == Key::Esc {
        lemma_cancelled(a, shift, height);
    }
}

/// Files are written only where changes are decided about, and only when that
/// is asked for.
pub proof fn law_written_when_asked(a: AppView, key: Key, shift: bool, height: u16)
    ensures
        a.pressed(key, shift, height).1 is Apply ==> a.app_mode == AppMode::Rebase && key
            == Key::Char('c'),
{
    lemma_task(a, key, shift, height);
}

/// The program is left only from the diff that it was started with: a commit of
/// the log, the log itself and everything that lies over the diff is left
/// before.
pub proof fn law_left_last(a: AppView, key: Key, shift: bool, height: u16)
    ensures
        a.pressed(key, shift, height).1 is Exit ==> a.app_mode == AppMode::Diff
            && a.log_return_source is None && !a.show_commit_modal && !a.show_help_modal
            && !a.show_rebase_modal && (key == Key::Esc || key == Key::Char('q')),
{
    lemma_task(a, key, shift, height);
}

/// Where no window is shown, the help window can be opened, whatever is shown,
/// and closing it shows the same again.
pub proof fn law_help_anywhere(a: AppView, shift: bool, height: u16)
    requires
        !a.show_commit_modal,
        !a.show_help_modal,
        !a.show_rebase_modal,
    ensures
        ({
            let quiet = AppView { status_message: None, ..a };
            let opened = a.pressed(Key::Char('?'), shift, height);
            &&& opened == (AppView { show_help_modal: true, ..quiet }, TaskView::Nothing)
            &&& opened.0.pressed(Key::Char('?'), shift, height) == (quiet, TaskView::Nothing)
            &&& opened.0.pressed(Key::Esc, shift, height) == (quiet, TaskView::Nothing)
        }),
{
}

/// The message of the last action goes with the next key.
pub proof fn law_message_goes(a: AppView, key: Key, shift: bool, height: u16)
    ensures
        a.pressed(key, shift, height) == (AppView { status_message: None, ..a }).pressed(
            key,
            shift,
            height,
        ),
{
}

// ---------------------------------------------------------------------------
// Switches

/// Changing the pane twice changes nothing, changing the layout twice gives up
/// no more than the selection, and changing between tree and list twice no more
/// than the message.
pub proof fn law_switched_twice(a: AppView)
    ensures
        a.other_pane().other_pane() == a,
        a.other_layout().other_layout() == a.unselected(),
        a.tree_switched().tree_switched() == (AppView {
            status_message: a.tree_switched().tree_switched().status_message,
            ..a
        }),
{
}

/// The state after the theme was changed `n` times.
pub open spec fn themes_on(a: AppView, n: nat) -> AppView
    decreases n,
{
    if n == 0 {
        a
    } else {
        themes_on(a, (n - 1) as nat).next_theme()
    }
}

proof fn lemma_themes_on(a: AppView, n: nat)
    requires
        a.valid(),
    ensures
        themes_on(a, n).valid(),
        themes_on(a, n).theme_cycle == a.theme_cycle,
        themes_on(a, n).theme_cycle_idx == (a.theme_cycle_idx + n) % (a.theme_cycle.len() as int),
        themes_on(a, n) == (AppView {
            theme: themes_on(a, n).theme,
            theme_cycle_idx: themes_on(a, n).theme_cycle_idx,
            ..a
        }),
    decreases n,
{
    let len = a.theme_cycle.len() as int;
    if n == 0 {
        vstd::arithmetic::div_mod::lemma_small_mod(a.theme_cycle_idx as nat, len as nat);
    } else {
        let b = themes_on(a, (n - 1) as nat);
        lemma_themes_on(a, (n - 1) as nat);
        lemma_theme_valid(b);
        let k = a.theme_cycle_idx + n - 1;
        let i = k % len;
        vstd::arithmetic::div_mod::lemma_small_mod(i as nat, len as nat);
        assert((k + 1) % len == if i + 1 < len {
            i + 1
        } else {
            0
        }) by {
            vstd::arithmetic::div_mod::lemma_fundamental_div_mod(k, len);
            let q = k / len;
            if i + 1 < len {
                vstd::arithmetic::div_mod::lemma_fundamental_div_mod_converse(
                    k + 1,
                    len,
                    q,
                    i + 1,
                );
            } else {
                assert(len * (q + 1) == len * q + len) by (nonlinear_arith);
                vstd::arithmetic::div_mod::lemma_fundamental_div_mod_converse(k + 1, len, q + 1, 0);
            }
        }
    }
}

/// Changing the theme as often as there are themes comes back to the first.
pub proof fn law_themes_go_round(a: AppView)
    requires
        a.valid(),
    ensures
        themes_on(a, a.theme_cycle.len()) == a,
{
    let len = a.theme_cycle.len() as int;
    lemma_themes_on(a, len as nat);
    vstd::arithmetic::div_mod::lemma_mod_add_multiples_vanish(a.theme_cycle_idx as int, len);
    vstd::arithmetic::div_mod::lemma_small_mod(a.theme_cycle_idx as nat, len as nat);
}

/// Hiding renames without content changes and showing them again lists the
/// same files. The selected file stays selected where it is not hidden, and so
/// does what is selected in it.
pub proof fn law_renames_hidden_and_shown(a: AppView)
    requires
        a.valid(),
        !a.hide_pure_renames,
        files::visible_names(a.file_changes, a.file_meta, true).len() <= usize::MAX,
    ensures
        a.renames_switched().renames_switched().file_names == a.file_names,
        a.renames_switched().renames_switched().hide_pure_renames == a.hide_pure_renames,
        a.current_file() matches Some(f) ==> a.renames_switched().file_names.contains(f) ==> (
        a.renames_switched().current_file() == Some(f)
            && a.renames_switched().renames_switched().current_file() == Some(f)
            && a.renames_switched().diff_cursor == a.diff_cursor
            && a.renames_switched().selection_anchor == a.selection_anchor
            && a.renames_switched().renames_switched().diff_cursor == a.diff_cursor
            && a.renames_switched().renames_switched().selection_anchor == a.selection_anchor),
{
    let b = a.renames_switched();
    lemma_place_or_first(b.file_names, a.current_file());
    lemma_place_or_first(a.file_names, b.current_file());
    if let Some(f) = a.current_file() {
        assert(a.file_names.contains(f));
    }
}

// ---------------------------------------------------------------------------
// Selecting lines

impl AppView {
    /// Whether the cursor and the start of the selection are on lines that are
    /// there. A cursor on the first line may have none under it.
    pub open spec fn selection_within(self) -> bool {
        &&& self.diff_cursor == 0 || self.diff_cursor < self.line_count()
        &&& self.selection_anchor matches Some(line) ==> line < self.line_count()
    }
}

proof fn lemma_moves_within(a: AppView)
    requires
        a.selection_within(),
    ensures
        a.down().selection_within(),
        a.up().selection_within(),
        a.to_start().selection_within(),
{
    assert(forall|row: usize| #[trigger] a.scrolled_to(row).selection_within());
}

proof fn lemma_pages_within(a: AppView, height: u16)
    requires
        a.selection_within(),
        a.line_count() <= usize::MAX,
    ensures
        a.page_down(height).selection_within(),
        a.page_up(height).selection_within(),
        a.to_end().selection_within(),
{
    assert(forall|row: usize| #[trigger] a.scrolled_to(row).selection_within());
}

proof fn lemma_switches_within(a: AppView)
    requires
        a.selection_within(),
    ensures
        a.selection_switched().selection_within(),
        a.copying().0.selection_within(),
        a.other_layout().selection_within(),
        a.renames_switched().selection_within(),
        a.wrap_switched().selection_within(),
        a.tree_switched().selection_within(),
{
}

proof fn lemma_modes_within(a: AppView)
    requires
        a.selection_within(),
    ensures
        a.in_rebase().selection_within(),
        a.syncing().0.selection_within(),
        a.refitting().0.selection_within(),
        a.back().0.selection_within(),
        a.leaving_log().0.selection_within(),
        a.next_theme().selection_within(),
{
}

proof fn lemma_changes_within(a: AppView, c: char)
    requires
        a.selection_within(),
    ensures
        a.rebase_char(c).0.selection_within(),
{
    assert(a.at_other_file(true).selection_within());
    assert(a.at_other_file(false).selection_within());
}

proof fn lemma_diff_char_within(a: AppView, c: char)
    requires
        a.selection_within(),
        a.app_mode == AppMode::Diff,
    ensures
        a.diff_char(c).0.selection_within(),
{
    if c == 'r' || c == 's' || c == 'f' {
        lemma_modes_within(a);
    } else if c == 'T' || c == 'u' || c == 'w' || c == 'R' || c == 'v' || c == 'y' {
        lemma_switches_within(a);
    }
}

proof fn lemma_char_within(a: AppView, c: char)
    requires
        a.selection_within(),
    ensures
        a.char_key(c).0.selection_within(),
{
    if c == 'q' || c == 't' {
        lemma_modes_within(a);
    } else if c == 'j' || c == 'k' {
        lemma_moves_within(a);
    } else if c != '?' {
        match a.app_mode {
            AppMode::Diff => lemma_diff_char_within(a, c),
            AppMode::Rebase => lemma_changes_within(a, c),
            AppMode::Log => lemma_modes_within(a),
            AppMode::RemotePicker => {},
        }
    }
}

/// Every key keeps the selection on lines that are there.
pub proof fn law_keys_select_within(a: AppView, key: Key, shift: bool, height: u16)
    requires
        a.selection_within(),
        a.line_count() <= usize::MAX,
    ensures
        a.pressed(key, shift, height).0.selection_within(),
{
    let b = AppView { status_message: None, ..a };
    assert(b.selection_within());
    assert(b.line_count() == a.line_count());
    match key {
        Key::Char(c) => lemma_char_within(b, c),
        Key::Esc => lemma_modes_within(b),
        _ => {
            lemma_moves_within(b);
            lemma_pages_within(b, height);
        },
    }
    assert(forall|column: usize| #[trigger] b.h_scrolled_to(column).selection_within());
}

/// The mouse keeps the selection on lines that are there, and so does a diff that
/// was fetched.
pub proof fn law_others_select_within(
    a: AppView,
    mouse: Mouse,
    width: u16,
    height: u16,
    source: SourceView,
    purpose: FetchView,
    result: Result<PayloadView, Seq<char>>,
)
    requires
        a.selection_within(),
        a.line_count() <= usize::MAX,
    ensures
        a.moused(mouse, width, height).selection_within(),
        a.fetched(source, purpose, result).0.selection_within(),
{
    assert(forall|row: usize| #[trigger] a.scrolled_to(row).selection_within());
    assert(forall|column: usize| #[trigger] a.h_scrolled_to(column).selection_within());
    assert(forall|i: usize| #[trigger] a.at_file(i).selection_within());
}

proof fn lemma_rows_within(a: AppView, width: u16, height: u16)
    requires
        a.selection_within(),
        a.current_file() matches Some(f) ==> a.file_changes.dom().contains(f),
        !a.wrap_mode,
        settle::pane_rows(height) > 0,
    ensures
        ({
            let b = a.within_rows(width, height);
            &&& b.selection_within()
            &&& b.line_count() == a.line_count()
            &&& b.scroll() == 0 || b.scroll() < b.line_count()
        }),
{
    if a.current_file() is Some {
        settle::law_scroll_within(a, width, height);
        let (base, head) = a.file_changes[a.current_file()->0];
        let columns = settle::pane_columns(width, a.file_list_width_pct, a.view_mode);
        let rows = settle::content_rows(base, head, a.wrap_mode, a.view_mode, columns);
        assert(rows <= a.line_count());
    }
    assert(a.within_rows(width, height).current_file() == a.current_file());
}

proof fn lemma_along_within(a: AppView, height: u16)
    requires
        a.selection_within(),
        a.scroll() == 0 || a.scroll() < a.line_count(),
    ensures
        a.with_cursor(height).selection_within(),
        a.with_cursor_along(height).selection_within(),
{
    assert(forall|row: usize| #[trigger] a.scrolled_to(row).selection_within());
}

/// Drawing keeps the selection on lines that are there.
pub proof fn law_settled_selects_within(a: AppView, content: Rect)
    requires
        a.selection_within(),
        a.current_file() matches Some(f) ==> a.file_changes.dom().contains(f),
    ensures
        a.settled(content).selection_within(),
{
    if a.app_mode == AppMode::Diff {
        let b = a.within_rows(content.width, content.height);
        assert(forall|row: usize| #[trigger] a.scrolled_to(row).selection_within());
        assert(b.selection_within());
        if !a.wrap_mode && settle::pane_rows(content.height) > 0 {
            lemma_rows_within(a, content.width, content.height);
            let c = b.within_columns(content.width);
            assert(forall|column: usize| #[trigger]
                b.h_scrolled_to(column).selection_within() && b.h_scrolled_to(column).scroll()
                    == b.scroll() && b.h_scrolled_to(column).line_count() == b.line_count());
            lemma_along_within(c, content.height);
        } else {
            let c = b.within_columns(content.width);
            assert(forall|column: usize| #[trigger] b.h_scrolled_to(column).selection_within());
            assert(c.selection_within());
        }
    }
}

/// The state after the cursor was moved down `n` times.
pub open spec fn moved_down(a: AppView, n: nat) -> AppView
    decreases n,
{
    if n == 0 {
        a
    } else {
        moved_down(a, (n - 1) as nat).down()
    }
}

proof fn lemma_moved_down(a: AppView, n: nat)
    requires
        a.app_mode == AppMode::Diff,
        a.focused_pane == Pane::DiffContent,
        a.selection_anchor is Some,
        a.diff_cursor + n < a.line_count() <= usize::MAX,
    ensures
        moved_down(a, n) == a.cursor_at((a.diff_cursor + n) as usize),
    decreases n,
{
    if n > 0 {
        lemma_moved_down(a, (n - 1) as nat);
        let b = moved_down(a, (n - 1) as nat);
        assert(b.line_count() == a.line_count());
    }
}

/// What was selected is what is copied: a selection that was started at the cursor
/// and drawn over `n` more lines puts those lines into the clipboard, each as it is
/// shown but without its mark. Then nothing is selected any more.
pub proof fn law_selection_copied(a: AppView, n: nat)
    requires
        a.app_mode == AppMode::Diff,
        a.selection_anchor is None,
        a.diff_cursor + n < a.line_count() <= usize::MAX,
    ensures
        ({
            let b = moved_down(a.selection_switched(), n).copying();
            &&& b.1 == TaskView::Copy(
                text::join(
                    a.shown_texts().subrange(
                        a.diff_cursor as int,
                        a.diff_cursor + n + 1,
                    ),
                    "\n"@,
                ),
            )
            &&& b.0.selection_anchor is None
        }),
{
    let b = a.selection_switched();
    lemma_moved_down(b, n);
    let c = moved_down(b, n);
    assert(c.shown_texts() == a.shown_texts());
    assert(c.selection() == Some((a.diff_cursor, (a.diff_cursor + n) as usize)));
    assert(c.copied_texts() =~= a.shown_texts().subrange(
        a.diff_cursor as int,
        a.diff_cursor + n + 1,
    ));
}

/// Without a selection the line under the cursor is copied, and nothing but the
/// message changes.
pub proof fn law_line_copied(a: AppView)
    requires
        a.selection_anchor is None,
        !a.mouse_selecting,
        a.diff_cursor < a.line_count(),
    ensures
        a.copying().1 == TaskView::Copy(a.shown_texts()[a.diff_cursor as int]),
        a.copying().0 == a.told("Copied 1 line"@),
{
    assert(a.copied_texts() =~= seq![a.shown_texts()[a.diff_cursor as int]]);
}

/// Starting a selection and stopping it selects nothing.
pub proof fn law_selection_stopped(a: AppView)
    requires
        a.selection_anchor is None,
        !a.mouse_selecting,
    ensures
        a.selection_switched().selection_switched() == (AppView {
            focused_pane: a.selection_switched().focused_pane,
            ..a
        }),
{
}

/// A selection drawn with the mouse reaches from the line under it when the button
/// was pressed to the line under it when the button was let go. A click selects
/// nothing and leaves the cursor on the line.
pub proof fn law_selection_drawn(a: AppView, from: usize, to: usize, row: u16)
    requires
        from < a.line_count(),
        to < a.line_count(),
        to == a.scroll() + (row - mouse::LIST_TOP),
    ensures
        ({
            let b = a.pointed(from).extended(row).let_go();
            &&& b.diff_cursor == to
            &&& b.selection() == (if from < to {
                Some((from, to))
            } else if to < from {
                Some((to, from))
            } else {
                None
            })
            &&& !b.mouse_selecting
        }),
        a.pointed(from).let_go().selection() is None,
        a.pointed(from).let_go().diff_cursor == from,
{
    assert(a.pointed(from).line_count() == a.line_count());
    assert(a.pointed(from).scroll() == a.scroll());
}

// ---------------------------------------------------------------------------
// The log

/// The log is left to the source that was shown before it was opened, whatever
/// commits were looked at in between.
pub proof fn law_log_returns(
    a: AppView,
    commits: Seq<CommitView>,
    source: SourceView,
    hash: Seq<char>,
    subject: Seq<char>,
    result: Result<PayloadView, Seq<char>>,
    again: Seq<CommitView>,
)
    requires
        a.log_return_source is None,
    ensures
        ({
            let log = a.in_log(commits);
            let commit = log.opened(source, hash, subject, result);
            let back = commit.in_log(again);
            &&& log.log_return_source == Some(a.diff_source)
            &&& commit.log_return_source == Some(a.diff_source)
            &&& back.log_return_source == Some(a.diff_source)
            &&& log.leaving_log().1 matches TaskView::Fetch {
                source: s,
                purpose: FetchView::LeaveLog,
                ..
            } && s == a.diff_source
            &&& commit.leaving_log().1 matches TaskView::Fetch {
                source: s,
                purpose: FetchView::LeaveLog,
                ..
            } && s == a.diff_source
            &&& back.leaving_log().1 matches TaskView::Fetch {
                source: s,
                purpose: FetchView::LeaveLog,
                ..
            } && s == a.diff_source
        }),
{
}

/// Once the log has been left, the diff that was shown before is shown again,
/// and nothing of the log is left.
pub proof fn law_log_left(a: AppView, source: SourceView, p: PayloadView)
    requires
        a.log_return_source == Some(source),
    ensures
        ({
            let b = a.leaving_log().0.returned(source, Ok(p));
            &&& b.diff_source == source
            &&& b.shows(p)
            &&& b.app_mode == AppMode::Diff
            &&& b.commits.len() == 0
            &&& b.log_return_source is None
        }),
{
}

// ---------------------------------------------------------------------------
// Reloading

/// After a reload the new diff is shown, and reloading the same diff again
/// changes nothing.
pub proof fn law_reload_settles(a: AppView, p: PayloadView)
    ensures
        a.reloaded(Ok(p)).0.shows(p),
        a.reloaded(Ok(p)).0.reloaded(Ok(p)).0 == a.reloaded(Ok(p)).0,
{
}

/// A reload that brings nothing new leaves everything as it is: the selected
/// file, how far it is scrolled and the message.
pub proof fn law_reload_of_same(a: AppView, p: PayloadView)
    requires
        a.shows(p),
    ensures
        a.reloaded(Ok(p)).0 == a,
{
}

/// A reload keeps the selected file, where it is still listed, and how far it
/// is scrolled.
pub proof fn law_reload_keeps_place(a: AppView, p: PayloadView, f: Seq<char>)
    requires
        fits(p, a.hide_pure_renames),
        a.current_file() == Some(f),
        p.files.dom().contains(f),
        files::visible_names(p.files, p.meta, a.hide_pure_renames).contains(f),
    ensures
        a.reloaded(Ok(p)).0.current_file() == Some(f),
        a.reloaded(Ok(p)).0.scroll() == a.scroll(),
        a.reloaded(Ok(p)).0.h_scroll() == a.h_scroll(),
{
    let names = files::visible_names(p.files, p.meta, a.hide_pure_renames);
    lemma_place_or_first(names, a.current_file());
    assert(a.updated(p).current_file() == Some(f));
}

/// A failed reload changes nothing but the message.
pub proof fn law_failed_reload(a: AppView, e: Seq<char>)
    ensures
        a.reloaded(Err(e)).0 == a.told("Reload failed: "@ + e),
        a.reloaded(Err(e)).1 == TaskView::Nothing,
{
}

/// Where whole files cannot be had, hunks are shown as before.
pub proof fn law_full_file_undone(a: AppView, e: Seq<char>)
    ensures
        a.refitting().0.refitted(Err(e)) == a.told("Full-file toggle failed: "@ + e),
{
}

// ---------------------------------------------------------------------------
// Rebase

proof fn lemma_undecided(changes: Seq<ChangeView>)
    requires
        forall|i: int| 0 <= i < changes.len() ==> (#[trigger] changes[i]).state
            != ChangeState::Accepted,
    ensures
        actions::accepted_edits(changes).len() == 0,
    decreases changes.len(),
{
    if changes.len() > 0 {
        lemma_undecided(changes.drop_last());
    }
}

/// Where nothing has been accepted, nothing is written.
pub proof fn law_nothing_accepted(a: AppView)
    requires
        a.rebase_changes.dom().finite(),
        forall|f: Seq<char>, i: int| #![trigger a.rebase_changes[f][i]]
            a.rebase_changes.dom().contains(f) && 0 <= i < a.rebase_changes[f].len()
                ==> a.rebase_changes[f][i].state != ChangeState::Accepted,
    ensures
        a.writing().1 == TaskView::Nothing,
        a.writing().0.app_mode == AppMode::Diff,
{
    let changes = a.rebase_changes;
    assert forall|f: Seq<char>| !actions::has_edits(changes, f) by {
        if changes.dom().contains(f) {
            lemma_undecided(changes[f]);
        }
    }
    let none = Seq::<Seq<char>>::empty();
    assert(actions::are_edited(none, changes));
    let names = actions::edited_files(changes);
    assert(actions::are_edited(names, changes));
    if names.len() > 0 {
        assert(names.contains(names[0]));
    }
}

proof fn lemma_new_changes(base: SideView, head: SideView, n: int)
    ensures
        forall|i: int| 0 <= i < rebase::changes_upto(base, head, n).len() ==> (
        #[trigger] rebase::changes_upto(base, head, n)[i]).state == ChangeState::Unselected,
    decreases n,
{
    if n > 0 {
        lemma_new_changes(base, head, n - 1);
    }
}

/// When the changes are listed, none has been decided about.
pub proof fn law_changes_start_undecided(a: AppView, f: Seq<char>, i: int)
    requires
        a.in_rebase().rebase_changes.dom().contains(f),
        0 <= i < a.in_rebase().rebase_changes[f].len(),
    ensures
        a.in_rebase().rebase_changes[f][i].state == ChangeState::Unselected,
{
    let (base, head) = a.file_changes[f];
    let (b, h) = super::align::aligned(base, head);
    lemma_new_changes(b, h, b.len() as int);
}

/// Going back from the changes writes nothing and keeps what was decided.
pub proof fn law_rebase_left(a: AppView)
    requires
        a.app_mode == AppMode::Rebase,
    ensures
        a.back().1 == TaskView::Nothing,
        a.back().0 == (AppView { app_mode: AppMode::Diff, ..a }),
{
}

/// Deciding about a change touches that change alone.
pub proof fn law_decided_alone(a: AppView, state: ChangeState, f: Seq<char>, i: int)
    requires
        a.rebase_changes.dom().contains(f),
        0 <= i < a.rebase_changes[f].len(),
    ensures
        a.decided(state).rebase_changes.dom().contains(f),
        a.decided(state).rebase_changes[f].len() == a.rebase_changes[f].len(),
        a.decided(state).rebase_changes[f][i] == (if a.current_file() == Some(f) && i
            == a.current_change_idx {
            ChangeView { state, ..a.rebase_changes[f][i] }
        } else {
            a.rebase_changes[f][i]
        }),
{
}

// ---------------------------------------------------------------------------
// Sync

/// Nothing is pulled or pushed while there are changes that are not committed.
pub proof fn law_sync_wants_commits(a: AppView)
    ensures
        a.sync_checked(Ok(true)).1 == TaskView::Nothing,
{
}

/// A sync pulls before it pushes: no key leads to a push at once, an upstream is
/// pulled from first, and it is pushed to only after that went well.
pub proof fn law_pulled_before_pushed(
    a: AppView,
    key: Key,
    shift: bool,
    height: u16,
    upstream: Seq<char>,
    e: Seq<char>,
)
    ensures
        a.pressed(key, shift, height).1 !is Push,
        a.sync_upstream(Ok(Some(upstream))).1 == TaskView::Pull(upstream),
        a.pulled(upstream, Ok(())).1 == TaskView::Push(upstream),
        a.pulled(upstream, Err(e)).1 == TaskView::Nothing,
{
    lemma_task(a, key, shift, height);
}

/// Without an upstream, the one remote is pushed to, and where there are more
/// the user is asked.
pub proof fn law_push_target(a: AppView, remotes: Seq<Seq<char>>, branch: Seq<char>)
    ensures
        remotes.len() == 0 ==> a.branch_found(remotes, Ok(branch)).1 == TaskView::Nothing,
        remotes.len() == 1 ==> a.branch_found(remotes, Ok(branch)).1 == (TaskView::PushTo {
            remote: remotes[0],
            branch,
        }),
        remotes.len() > 1 ==> a.branch_found(remotes, Ok(branch)).1 == TaskView::Nothing
            && a.branch_found(remotes, Ok(branch)).0.app_mode == AppMode::RemotePicker
            && a.branch_found(remotes, Ok(branch)).0.remotes == remotes,
{
}

} // verus!
