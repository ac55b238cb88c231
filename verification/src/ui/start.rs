//! The screen at first.
use vstd::prelude::*;
use super::files;
use super::flows;
use super::theme::{Theme, ThemeView};
use super::types::{App, AppMode, AppView, Pane, ViewMode};
use crate::diff::{
    BranchStatus, BranchView, DiffPayload, DiffSource, PayloadView, SourceView,
};
use crate::names::NameMap;

verus! {

/// What the configuration says of the screen at first.
#[derive(Clone, Copy, Debug, PartialEq, Eq, Structural)]
pub struct UiDefaults {
    pub view_mode: ViewMode,
    pub wrap_mode: bool,
}

/// The themes that can be chosen: the first one, and the built-in ones where
/// they are others.
pub open spec fn cycle_of(theme: ThemeView) -> Seq<ThemeView> {
    let dark = if theme != ThemeView::dark() {
        seq![ThemeView::dark()]
    } else {
        seq![]
    };
    let light = if theme != ThemeView::light() {
        seq![ThemeView::light()]
    } else {
        seq![]
    };
    seq![theme] + dark + light
}

/// The themes that can be chosen.
pub fn theme_cycle(theme: &Theme) -> (r: Vec<Theme>)
    ensures
        r.deep_view() == cycle_of(theme.deep_view()),
{
    let dark = Theme::dark();
    let light = Theme::light();
    let mut cycle: Vec<Theme> = Vec::new();
    cycle.push(theme.clone());
    if !theme.same_as(&dark) {
        cycle.push(dark);
    }
    if !theme.same_as(&light) {
        cycle.push(light);
    }
    assert(cycle.deep_view() =~= cycle_of(theme.deep_view()));
    cycle
}

/// The screen at first: all files are listed, the first one is selected, and
/// the advice to rebase is shown where there is any.
pub open spec fn first_screen(
    p: PayloadView,
    theme: ThemeView,
    notification: Option<Seq<char>>,
    source: SourceView,
    defaults: UiDefaults,
    branch: Option<BranchView>,
) -> AppView {
    let names = files::visible_names(p.files, p.meta, false);
    AppView {
        file_changes: p.files,
        full_content: Map::empty(),
        file_meta: p.meta,
        left_label: p.left_label,
        right_label: p.right_label,
        current_file_idx: 0,
        file_names: names,
        scroll_positions: flows::start_positions(names),
        h_scroll_positions: flows::start_positions(names),
        focused_pane: Pane::FileList,
        view_mode: defaults.view_mode,
        app_mode: AppMode::Diff,
        rebase_changes: Map::empty(),
        current_change_idx: 0,
        rebase_notification: notification,
        show_rebase_modal: notification is Some,
        status_message: None,
        show_help_modal: false,
        theme,
        theme_cycle: cycle_of(theme),
        theme_cycle_idx: 0,
        diff_source: source,
        commits: seq![],
        current_commit_idx: 0,
        log_return_source: None,
        remotes: seq![],
        current_remote_idx: 0,
        branch_status: branch,
        file_list_width_pct: 20,
        resizing_divider: false,
        full_file: false,
        wrap_mode: defaults.wrap_mode,
        hide_pure_renames: false,
        file_tree_view: false,
        pending_commit_message: None,
        show_commit_modal: false,
        diff_cursor: 0,
        selection_anchor: None,
        mouse_selecting: false,
    }
}

impl App {
    /// The screen at first.
    pub fn start(
        payload: DiffPayload,
        theme: Theme,
        rebase_notification: Option<String>,
        diff_source: DiffSource,
        defaults: UiDefaults,
        branch_status: Option<BranchStatus>,
    ) -> (r: App)
        ensures
            r.deep_view() == first_screen(
                payload.deep_view(),
                theme.deep_view(),
                rebase_notification.deep_view(),
                diff_source@,
                defaults,
                branch_status.deep_view(),
            ),
    {
        let file_names = files::visible_file_names(&payload.files, &payload.meta, false);
        let scroll_positions = flows::first_positions(&file_names);
        let h_scroll_positions = flows::first_positions(&file_names);
        let theme_cycle = theme_cycle(&theme);
        let r = App {
            file_changes: payload.files,
            full_content: NameMap::new(),
            file_meta: payload.meta,
            left_label: payload.left_label,
            right_label: payload.right_label,
            current_file_idx: 0,
            file_names,
            scroll_positions,
            h_scroll_positions,
            focused_pane: Pane::FileList,
            view_mode: defaults.view_mode,
            app_mode: AppMode::Diff,
            rebase_changes: NameMap::new(),
            current_change_idx: 0,
            show_rebase_modal: rebase_notification.is_some(),
            rebase_notification,
            status_message: None,
            show_help_modal: false,
            theme,
            theme_cycle,
            theme_cycle_idx: 0,
            diff_source,
            commits: Vec::new(),
            current_commit_idx: 0,
            log_return_source: None,
            remotes: Vec::new(),
            current_remote_idx: 0,
            branch_status,
            file_list_width_pct: 20,
            resizing_divider: false,
            full_file: false,
            wrap_mode: defaults.wrap_mode,
            hide_pure_renames: false,
            file_tree_view: false,
            pending_commit_message: None,
            show_commit_modal: false,
            diff_cursor: 0,
            selection_anchor: None,
            mouse_selecting: false,
        };
        proof {
            assert(r.deep_view().full_content =~= Map::empty());
            assert(r.deep_view().rebase_changes =~= Map::empty());
            assert(r.deep_view().commits =~= seq![]);
            assert(r.deep_view().remotes =~= seq![]);
        }
        r
    }
}

/// The screen starts with the diff that was fetched, its first file, and what the
/// configuration says. The advice to rebase is shown where there is any.
pub proof fn law_first_screen(
    p: PayloadView,
    theme: ThemeView,
    notification: Option<Seq<char>>,
    source: SourceView,
    defaults: UiDefaults,
    branch: Option<BranchView>,
)
    ensures
        ({
            let a = first_screen(p, theme, notification, source, defaults, branch);
            &&& a.file_changes == p.files && a.file_meta == p.meta
            &&& a.left_label == p.left_label && a.right_label == p.right_label
            &&& a.file_names == files::visible_names(p.files, p.meta, false)
            &&& a.current_file_idx == 0
            &&& a.diff_source == source
            &&& a.app_mode == AppMode::Diff && a.focused_pane == Pane::FileList
            &&& a.view_mode == defaults.view_mode && a.wrap_mode == defaults.wrap_mode
            &&& a.theme == theme && a.theme_cycle[a.theme_cycle_idx as int] == theme
            &&& a.theme_cycle.contains(ThemeView::dark())
            &&& a.theme_cycle.contains(ThemeView::light())
            &&& a.rebase_notification == notification
            &&& a.show_rebase_modal == (notification is Some)
            &&& !a.show_commit_modal && !a.show_help_modal && a.pending_commit_message is None
            &&& a.branch_status == branch
            &&& a.selection_anchor is None && a.diff_cursor == 0
            &&& !a.full_file && !a.hide_pure_renames && !a.file_tree_view
            &&& a.log_return_source is None && a.status_message is None
            &&& a.file_list_width_pct == 20
        }),
{
    let c = cycle_of(theme);
    assert(c[0] == theme);
    if theme != ThemeView::dark() {
        assert(c[1] == ThemeView::dark());
    }
    if theme != ThemeView::light() {
        assert(c[c.len() - 1] == ThemeView::light());
    }
}

} // verus!
