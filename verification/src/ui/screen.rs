//! What can be read on the screen around the diff.
use vstd::prelude::*;
use super::draw;
use super::draw::{DrawView, LineView, Rect, SpanView};
use super::fit;
use super::frame::Areas;
use super::modals;
use super::panels;
use super::theme::ThemeView;
use super::tree::RowView;
use super::types::{AppMode, AppView};
use super::width;
use crate::diff::{BranchView, FileMetaView, SideView};
use crate::text;

verus! {

/// The texts of a line, part by part.
pub open spec fn texts(line: LineView) -> Seq<Seq<char>> {
    line.map_values(|s: SpanView| s.text)
}

// ---------------------------------------------------------------------------
// The header

/// The header says which two sides are compared, what the screen is used for, how the
/// diff is laid out, which file is selected, and its place among all files,
/// counted from 1.
pub proof fn law_header(a: AppView, f: Seq<char>)
    requires
        a.current_file() == Some(f),
        f.len() > 0,
        a.branch_status is None,
        a.current_file_idx < a.file_names.len() <= usize::MAX,
    ensures
        ({
            let bar = " \u{2502} "@;
            let mode = if a.app_mode is Rebase {
                "REBASE"@
            } else if a.app_mode is Log {
                "LOG"@
            } else if a.app_mode is RemotePicker {
                "SYNC"@
            } else if a.log_return_source is Some {
                "DIFF (commit)"@
            } else {
                "DIFF"@
            };
            let layout = (if a.view_mode is Unified {
                "Unified"@
            } else {
                "Side-by-Side"@
            }) + if a.wrap_mode {
                " + Wrap"@
            } else {
                Seq::empty()
            };
            texts(a.header()) == seq![
                " "@,
                a.left_label + " \u{2192} "@ + a.right_label,
                bar,
                mode,
                bar,
                layout,
                bar,
                f,
                bar,
                text::decimal((a.current_file_idx + 1) as nat) + "/"@ + text::decimal(
                    a.file_names.len(),
                ),
            ]
        }),
{
    let base = if a.view_mode is Unified {
        "Unified"@
    } else {
        "Side-by-Side"@
    };
    assert(base + Seq::<char>::empty() =~= base);
}

/// Where the branch is known it stands first in the header, with the commits it is
/// ahead and behind where it has an upstream.
pub proof fn law_header_branch(a: AppView, b: BranchView)
    requires
        a.branch_status == Some(b),
        b.name.len() > 0,
    ensures
        a.header().len() > 4,
        a.header()[2].text == b.name,
        b.upstream is Some ==> a.header()[3].text == " \u{2191}"@ + text::decimal(b.ahead as nat)
            && a.header()[4].text == " \u{2193}"@ + text::decimal(b.behind as nat),
        b.upstream is None ==> a.header()[4].text == a.left_label + " \u{2192} "@
            + a.right_label,
{
}

// ---------------------------------------------------------------------------
// The file list

/// Whether a line is marked as added or removed by its first character.
pub open spec fn carries(line: (usize, Seq<char>), mark: char) -> bool {
    line.1.len() > 0 && line.1[0] == mark
}

proof fn lemma_counted(side: SideView, mark: char)
    ensures
        panels::count_marked(side, mark) == side.filter(
            |l: (usize, Seq<char>)| carries(l, mark),
        ).len(),
    decreases side.len(),
{
    reveal_with_fuel(Seq::filter, 2);
    if side.len() > 0 {
        lemma_counted(side.drop_last(), mark);
    }
}

/// A file is listed with the number of lines that the right side adds and the number
/// that the left side loses, and with neither where it is 0.
pub proof fn law_counts_shown(a: AppView, f: Seq<char>)
    requires
        a.file_changes.dom().contains(f),
    ensures
        ({
            let t = a.theme;
            let adds = a.file_changes[f].1.filter(
                |l: (usize, Seq<char>)| carries(l, '+'),
            ).len();
            let dels = a.file_changes[f].0.filter(
                |l: (usize, Seq<char>)| carries(l, '-'),
            ).len();
            let plus = draw::styled("+"@ + text::decimal(adds), draw::ink(t.fg_added));
            let minus = draw::styled("-"@ + text::decimal(dels), draw::ink(t.fg_removed));
            let row = a.row_end(f);
            &&& row.contains(plus) <==> adds > 0
            &&& adds > 0 && dels > 0 ==> row.len() >= 3 && row.last() == minus && row[row.len()
                - 3] == plus
            &&& adds > 0 && dels == 0 ==> row.len() > 0 && row.last() == plus
            &&& adds == 0 && dels > 0 ==> row.len() > 0 && row.last() == minus
        }),
{
    let t = a.theme;
    lemma_counted(a.file_changes[f].0, '-');
    lemma_counted(a.file_changes[f].1, '+');
    let (adds, dels) = a.change_counts(f);
    let plus = draw::styled("+"@ + text::decimal(adds), draw::ink(t.fg_added));
    let minus = draw::styled("-"@ + text::decimal(dels), draw::ink(t.fg_removed));
    let row = a.row_end(f);
    reveal_strlit("+");
    reveal_strlit("-");
    reveal_strlit(" ");
    reveal_strlit(" D");
    reveal_strlit(" A");
    reveal_strlit(" R");
    reveal_strlit(" r");
    assert(plus.text[0] == '+' && minus.text[0] == '-');
    if adds > 0 && dels > 0 {
        assert(row[row.len() - 3] == plus);
    } else if adds > 0 {
        assert(row[row.len() - 1] == plus);
    } else {
        assert forall|i: int| 0 <= i < row.len() implies #[trigger] row[i].text[0] != '+' by {}
    }
}

/// A file that was deleted, added or renamed is marked so, and no other.
pub proof fn law_badges(meta: FileMetaView, t: ThemeView)
    ensures
        panels::badge_of(None, t) is None,
        meta.status is Deleted ==> panels::badge_of(Some(meta), t) == Some(
            draw::styled(" D"@, draw::ink(t.fg_removed)),
        ),
        meta.status is Added ==> panels::badge_of(Some(meta), t) == Some(
            draw::styled(" A"@, draw::ink(t.fg_added)),
        ),
        meta.status is Modified && meta.rename is None ==> panels::badge_of(Some(meta), t) is None,
        meta.status is Modified && (meta.rename matches Some(r) && r.similarity >= 100)
            ==> panels::badge_of(Some(meta), t) == Some(
            draw::styled(" R"@, draw::ink(t.fg_dim)),
        ),
        meta.status is Modified && (meta.rename matches Some(r) && r.similarity < 100)
            ==> panels::badge_of(Some(meta), t) == Some(
            draw::styled(" r"@, draw::ink(t.fg_dim)),
        ),
{
}

/// The list shows one row for each file, and the selected file is the one that is
/// highlighted. A name that fits is shown whole.
pub proof fn law_list_shown(a: AppView, area: Rect, i: int)
    requires
        !a.file_tree_view,
        0 <= i < a.file_names.len(),
    ensures
        a.file_list(area).last() matches DrawView::List { rows, selected, highlight, .. } && {
            let name = fit::name_and_dir(a.file_names[i]).0;
            &&& rows.len() == a.file_names.len()
            &&& selected == Some(a.current_file_idx)
            &&& highlight.bg == Some(a.theme.bg_selection)
            &&& rows[i].len() > 0
            &&& rows[i][0].style.bold == (i == a.current_file_idx)
            &&& width::str_columns(name) <= a.name_columns(
                a.file_names[i],
                panels::minus(area.width as usize, 4),
            ) ==> rows[i][0].text == name
        },
{
}

/// In the tree the row of the selected file is highlighted.
pub proof fn law_tree_selected(a: AppView, rows: Seq<RowView>)
    requires
        rows.len() <= usize::MAX,
    ensures
        match a.tree_selection(rows) {
            Some(i) => i < rows.len() && (
            rows[i as int] matches RowView::File { file_idx, .. } && file_idx
                == a.current_file_idx),
            None => forall|i: int|
                0 <= i < rows.len() ==> !(
                #[trigger] rows[i] matches RowView::File { file_idx, .. } && file_idx
                    == a.current_file_idx),
        },
    decreases rows.len(),
{
    if rows.len() > 0 {
        let before = rows.drop_last();
        law_tree_selected(a, before);
        assert forall|i: int| 0 <= i < before.len() implies before[i] == #[trigger] rows[i] by {}
    }
}

// ---------------------------------------------------------------------------
// The log and the changes

/// The log shows one row for each commit, with its hash and its subject, whole where
/// that fits.
pub proof fn law_commits_shown(a: AppView, area: Rect, i: int)
    requires
        0 <= i < a.commits.len(),
    ensures
        a.log_list(area).last() matches DrawView::List { rows, selected, .. } && {
            &&& rows.len() == a.commits.len()
            &&& selected == Some(a.current_commit_idx)
            &&& rows[i].len() == 3
            &&& rows[i][0].text == a.commits[i].hash
            &&& width::str_columns(a.commits[i].hash) + 1 + width::str_columns(
                a.commits[i].subject,
            ) + 4 <= area.width ==> rows[i][2].text == a.commits[i].subject
            &&& rows[i][2].style.bold == (i == a.current_commit_idx)
        },
{
}

/// The changes of the selected file are shown one by one, each with what was decided
/// about it, its line, and the line that takes its place.
pub proof fn law_changes_shown(a: AppView, area: Rect, f: Seq<char>, i: int)
    requires
        a.current_file() == Some(f),
        a.rebase_changes.dom().contains(f),
        0 <= i < a.rebase_changes[f].len(),
    ensures
        a.change_list(area).last() matches DrawView::List { rows, selected, .. } && {
            let c = a.rebase_changes[f][i];
            let mark = if c.state is Accepted {
                " \u{2713} "@
            } else if c.state is Rejected {
                " \u{2717} "@
            } else {
                "   "@
            };
            &&& rows.len() == a.rebase_changes[f].len()
            &&& selected == Some(a.current_change_idx)
            &&& rows[i].len() >= 2
            &&& rows[i][0].text == mark
            &&& rows[i][1].text == c.content
            &&& rows[i][1].style.fg == Some(
                if c.is_base {
                    a.theme.fg_removed
                } else {
                    a.theme.fg_added
                },
            )
            &&& c.paired_content matches Some(other) ==> rows[i].len() == 4 && rows[i][3].text
                == other
            &&& c.paired_content is None ==> rows[i].len() == 2
        },
{
}

// ---------------------------------------------------------------------------
// The help line

/// A message is shown at the right end of the help line, in the colour of what was
/// removed if it tells of an error and of what was added if not.
pub proof fn law_message_shown(a: AppView, area: Rect, m: Seq<char>)
    requires
        a.status_message == Some(m),
        0 < width::str_columns(m + " "@) < 65536,
        area.width > 0,
        area.x + area.width <= 65535,
    ensures
        a.help_line(area).last() matches DrawView::Text { area: at, lines, align, .. } && {
            &&& lines.len() == 1 && lines[0].len() == 1
            &&& lines[0][0].text == m + " "@
            &&& "Error"@.is_prefix_of(m) ==> lines[0][0].style.fg == Some(a.theme.fg_removed)
            &&& !"Error"@.is_prefix_of(m) ==> lines[0][0].style.fg == Some(a.theme.fg_added)
            &&& align is Right
            &&& at.x + at.width == area.x + area.width
            &&& at.y == area.y
            &&& width::str_columns(m + " "@) <= area.width ==> at.width == width::str_columns(
                m + " "@,
            )
        },
{
}

proof fn lemma_hints(pairs: Seq<(Seq<char>, Seq<char>)>, t: ThemeView, n: int, k: int)
    requires
        0 <= k < n <= pairs.len(),
    ensures
        panels::hint_spans(pairs, t, n).len() == 3 * n - 1,
        panels::hint_spans(pairs, t, n)[3 * k].text == pairs[k].0,
        panels::hint_spans(pairs, t, n)[3 * k + 1].text == " "@ + pairs[k].1,
    decreases n,
{
    if n > 1 {
        let before = panels::hint_spans(pairs, t, n - 1);
        lemma_hints(pairs, t, n - 1, if k < n - 1 {
            k
        } else {
            0
        });
        let all = panels::hint_spans(pairs, t, n);
        assert(all.len() == before.len() + 3);
        if k < n - 1 {
            assert(all[3 * k] == before[3 * k]);
            assert(all[3 * k + 1] == before[3 * k + 1]);
        }
    } else {
        assert(panels::hint_spans(pairs, t, 0) =~= seq![]);
    }
}

/// The help line shows the keys of what the screen is used for, one after the other,
/// each before what it does.
pub proof fn law_hints_shown(a: AppView, area: Rect, k: int)
    requires
        0 <= k < panels::hints(a.app_mode).len(),
    ensures
        a.help_line(area).len() > 0,
        a.help_line(area)[0] matches DrawView::Text { area: at, lines, .. } && {
            let pairs = panels::hints(a.app_mode);
            &&& at == area
            &&& lines.len() == 1
            &&& lines[0].len() == 3 * pairs.len()
            &&& lines[0][3 * k + 1].text == pairs[k].0
            &&& lines[0][3 * k + 2].text == " "@ + pairs[k].1
        },
{
    let pairs = panels::hints(a.app_mode);
    lemma_hints(pairs, a.theme, pairs.len() as int, k);
}

// ---------------------------------------------------------------------------
// The windows

/// A window is drawn while it is open, over everything else, and not otherwise.
pub proof fn law_windows_shown(a: AppView, areas: Areas)
    ensures
        !a.show_rebase_modal && !a.show_help_modal && !a.show_commit_modal && a.app_mode
            != AppMode::RemotePicker ==> a.windows(areas) == Seq::<DrawView>::empty(),
        a.show_rebase_modal && !a.show_help_modal && !a.show_commit_modal && a.app_mode
            != AppMode::RemotePicker ==> a.windows(areas) == a.rebase_window(
            areas.screen,
            areas.notice,
            areas.notice_parts,
        ),
        a.show_help_modal && !a.show_rebase_modal && !a.show_commit_modal && a.app_mode
            != AppMode::RemotePicker ==> a.windows(areas) == a.help_window(
            areas.screen,
            areas.help_window,
        ),
        a.app_mode == AppMode::RemotePicker && !a.show_rebase_modal && !a.show_help_modal
            && !a.show_commit_modal ==> a.windows(areas) == a.picker_window(
            areas.screen,
            areas.picker,
        ),
        a.show_commit_modal && !a.show_rebase_modal && !a.show_help_modal && a.app_mode
            != AppMode::RemotePicker ==> a.windows(areas) == a.commit_window(
            areas.screen,
            areas.commit,
        ),
{
    let none = Seq::<DrawView>::empty();
    let w = a.rebase_window(areas.screen, areas.notice, areas.notice_parts);
    assert(w + none + none + none =~= w);
    let w = a.help_window(areas.screen, areas.help_window);
    assert(none + w + none + none =~= w);
    let w = a.picker_window(areas.screen, areas.picker);
    assert(none + none + w + none =~= w);
    let w = a.commit_window(areas.screen, areas.commit);
    assert(none + none + none + w =~= w);
}

/// The message to be committed is shown line by line, and the first line stands out.
pub proof fn law_commit_shown(a: AppView, screen: Rect, area: Rect, m: Seq<char>)
    requires
        a.pending_commit_message == Some(m),
    ensures
        a.commit_window(screen, area).last() matches DrawView::Text { lines, .. } && {
            &&& lines.len() == text::text_lines(m).len()
            &&& forall|i: int|
                0 <= i < lines.len() ==> texts(#[trigger] lines[i]) == seq![
                    text::text_lines(m)[i],
                ] && lines[i][0].style.bold == (i == 0)
        },
{
    let lines = modals::commit_lines(a.theme, m);
    assert forall|i: int| 0 <= i < lines.len() implies texts(#[trigger] lines[i]) == seq![
        text::text_lines(m)[i],
    ] by {
        assert(texts(lines[i]) =~= seq![text::text_lines(m)[i]]);
    }
}

/// The remotes are shown one by one, and the selected one is pointed at.
pub proof fn law_remotes_shown(a: AppView, screen: Rect, area: Rect, i: int)
    requires
        0 <= i < a.remotes.len(),
    ensures
        a.picker_window(screen, area).last() matches DrawView::Text { lines, .. } && {
            &&& lines.len() == a.remotes.len()
            &&& texts(lines[i]) == seq![
                if i == a.current_remote_idx {
                    " \u{25b6} "@
                } else {
                    "   "@
                },
                a.remotes[i],
            ]
        },
{
    assert(texts(a.remote_line(i)) =~= seq![
        if i == a.current_remote_idx {
            " \u{25b6} "@
        } else {
            "   "@
        },
        a.remotes[i],
    ]);
}

/// The advice to rebase is shown as it was given, with the keys that follow it and
/// that turn it down.
pub proof fn law_advice_shown(
    a: AppView,
    screen: Rect,
    area: Rect,
    parts: (Rect, Rect),
    m: Seq<char>,
)
    requires
        a.rebase_notification == Some(m),
    ensures
        ({
            let w = a.rebase_window(screen, area, parts);
            &&& w.len() >= 2
            &&& w[w.len() - 2] matches DrawView::Text { lines, .. } && lines.len()
                == text::text_lines(m).len() && forall|i: int|
                0 <= i < lines.len() ==> texts(#[trigger] lines[i]) == seq![text::text_lines(m)[i]]
            &&& w.last() matches DrawView::Text { lines, .. } && texts(lines[0]) == seq![
                " r "@,
                " Rebase now  "@,
                " i "@,
                " Ignore"@,
            ]
        }),
{
    let w = a.rebase_window(screen, area, parts);
    let lines = modals::message_lines(m);
    assert forall|i: int| 0 <= i < lines.len() implies texts(#[trigger] lines[i]) == seq![
        text::text_lines(m)[i],
    ] by {
        assert(texts(lines[i]) =~= seq![text::text_lines(m)[i]]);
    }
    assert(w[w.len() - 2]->Text_lines == lines);
    assert(texts(w.last()->Text_lines[0]) =~= seq![
        " r "@,
        " Rebase now  "@,
        " i "@,
        " Ignore"@,
    ]);
}

/// What the screen is used for decides what is shown between the header and the help
/// line: the files and the panes of the diff, the changes, the log, or
/// nothing.
pub proof fn law_content_shown(a: AppView, areas: Areas, panes: Seq<DrawView>)
    ensures
        ({
            let shown = a.frame(areas, panes);
            let header = draw::one_line(
                areas.header,
                a.header(),
                draw::paper(a.theme.bg_header),
            );
            let top = seq![
                DrawView::Fill { area: areas.screen, style: draw::paper(a.theme.bg_default) },
                header,
            ];
            let rest = a.help_line(areas.help) + a.windows(areas);
            &&& a.app_mode is Diff ==> shown == top + a.file_list(areas.columns@[0]) + panes + rest
            &&& a.app_mode is Rebase ==> shown == top + a.change_list(areas.content) + rest
            &&& a.app_mode is Log ==> shown == top + a.log_list(areas.content) + rest
            &&& a.app_mode is RemotePicker ==> shown == top + rest
        }),
{
}

} // verus!
