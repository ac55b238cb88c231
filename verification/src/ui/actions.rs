//! What the screen can be told to do.
use vstd::prelude::*;
use super::files;
use super::keys;
use super::types::{App, AppView, Change, ChangeState, ChangeView, Pane, ViewMode};
use crate::diff::ops::{ChangeOp, OpView};
use crate::diff::{FileMetaMap, MetaView};
use crate::names::NameMap;
use crate::text;

verus! {

// ---------------------------------------------------------------------------
// Deciding about changes

/// `s` without the mark of an added line.
pub open spec fn without_mark(s: Seq<char>) -> Seq<char> {
    match text::strip_prefix(s, "+"@) {
        Some(rest) => rest,
        None => s,
    }
}

/// The edit that an accepted change makes. A removed line with a pair is
/// replaced by it, one without is deleted, and an added line without a pair is
/// inserted.
pub open spec fn edit_of(c: ChangeView) -> OpView {
    if c.is_base {
        match c.paired_content {
            Some(s) => OpView::Replace(c.line_num, without_mark(s)),
            None => OpView::Delete(c.line_num),
        }
    } else {
        OpView::Insert {
            base_pos: match c.base_insert_pos {
                Some(n) => n,
                None => c.line_num,
            },
            order: c.line_num,
            content: without_mark(c.content),
        }
    }
}

/// The edits that the accepted ones of `changes` make.
pub open spec fn accepted_edits(changes: Seq<ChangeView>) -> Seq<OpView>
    decreases changes.len(),
{
    if changes.len() == 0 {
        seq![]
    } else if changes.last().state == ChangeState::Accepted {
        accepted_edits(changes.drop_last()).push(edit_of(changes.last()))
    } else {
        accepted_edits(changes.drop_last())
    }
}

/// Whether a change of `file` was accepted.
pub open spec fn has_edits(changes: Map<Seq<char>, Seq<ChangeView>>, file: Seq<char>) -> bool {
    changes.dom().contains(file) && accepted_edits(changes[file]).len() > 0
}

/// Whether `names` are the files with accepted changes in ascending order.
pub open spec fn are_edited(
    names: Seq<Seq<char>>,
    changes: Map<Seq<char>, Seq<ChangeView>>,
) -> bool {
    &&& files::ascending(names)
    &&& forall|n: Seq<char>| #[trigger] names.contains(n) <==> has_edits(changes, n)
}

/// The files with accepted changes in ascending order.
pub open spec fn edited_files(changes: Map<Seq<char>, Seq<ChangeView>>) -> Seq<Seq<char>> {
    choose|names: Seq<Seq<char>>| are_edited(names, changes)
}

/// The edits that the accepted changes make, file by file.
pub open spec fn all_edits(changes: Map<Seq<char>, Seq<ChangeView>>) -> Seq<
    (Seq<char>, Seq<OpView>),
> {
    edited_files(changes).map_values(|n: Seq<char>| (n, accepted_edits(changes[n])))
}

/// `s` without the mark of an added line.
fn strip_mark(s: &String) -> (r: String)
    ensures
        r@ == without_mark(s@),
{
    match text::without_prefix(s.as_str(), "+") {
        Some(rest) => rest,
        None => s.clone(),
    }
}

/// The edit that an accepted change makes.
pub fn change_op(change: &Change) -> (r: ChangeOp)
    ensures
        r.deep_view() == edit_of(change.deep_view()),
{
    if change.is_base {
        match &change.paired_content {
            Some(s) => ChangeOp::Replace(change.line_num, strip_mark(s)),
            None => ChangeOp::Delete(change.line_num),
        }
    } else {
        ChangeOp::Insert {
            base_pos: match change.base_insert_pos {
                Some(n) => n,
                None => change.line_num,
            },
            order: change.line_num,
            content: strip_mark(&change.content),
        }
    }
}

/// The edits that the accepted ones of `changes` make.
pub fn accepted_ops(changes: &Vec<Change>) -> (r: Vec<ChangeOp>)
    ensures
        r.deep_view() == accepted_edits(changes.deep_view()),
{
    let ghost all = changes.deep_view();
    let mut r: Vec<ChangeOp> = Vec::new();
    assert(r.deep_view() =~= seq![]);
    for i in 0..changes.len()
        invariant
            all == changes.deep_view(),
            r.deep_view() == accepted_edits(all.take(i as int)),
    {
        proof {
            assert(all.take(i + 1).drop_last() =~= all.take(i as int));
            assert(all.take(i + 1).last() == changes@[i as int].deep_view());
        }
        if changes[i].state == ChangeState::Accepted {
            let ghost before = r.deep_view();
            let op = change_op(&changes[i]);
            r.push(op);
            assert(r.deep_view() =~= before.push(op.deep_view()));
        }
    }
    assert(all.take(all.len() as int) =~= all);
    r
}

/// The edits that the accepted changes make, file by file.
pub fn collect_edits(changes: &NameMap<Vec<Change>>) -> (r: Vec<(String, Vec<ChangeOp>)>)
    ensures
        r.deep_view() == all_edits(changes.deep_view()),
        are_edited(edited_files(changes.deep_view()), changes.deep_view()),
{
    let ghost m = changes.deep_view();
    let keys = changes.keys();
    let names = files::sort_names(keys);
    let ghost all = names.deep_view();
    let mut kept: Vec<String> = Vec::new();
    let mut r: Vec<(String, Vec<ChangeOp>)> = Vec::new();
    for i in 0..names.len()
        invariant
            all == names.deep_view(),
            m == changes.deep_view(),
            files::ascending(all),
            forall|k: Seq<char>| #[trigger] m.dom().contains(k) <==> all.contains(k),
            files::ascending(kept.deep_view()),
            forall|n: Seq<char>| #[trigger]
                kept.deep_view().contains(n) <==> all.take(i as int).contains(n) && has_edits(m, n),
            r.deep_view() == kept.deep_view().map_values(
                |n: Seq<char>| (n, accepted_edits(m[n])),
            ),
    {
        let name = &names[i];
        let ghost done = all.take(i as int);
        proof {
            assert(name@ == all[i as int]);
            assert(all.contains(name@));
            assert(m.dom().contains(name@));
            files::lemma_take_next(all, i as int);
        }
        if let Some(list) = changes.get(name.as_str()) {
            let ops = accepted_ops(list);
            assert(m[name@] == list.deep_view());
            if ops.len() > 0 {
                let ghost old_kept = kept.deep_view();
                let ghost old_r = r.deep_view();
                proof {
                    assert forall|k: int| 0 <= k < old_kept.len() implies text::before(
                        #[trigger] old_kept[k],
                        name@,
                    ) by {
                        assert(old_kept.contains(old_kept[k]));
                        assert(done.contains(old_kept[k]));
                        let j = choose|j: int| 0 <= j < done.len() && done[j] == old_kept[k];
                        assert(all[j] == old_kept[k]);
                    }
                }
                kept.push(name.clone());
                r.push((name.clone(), ops));
                proof {
                    let now = kept.deep_view();
                    assert(now =~= old_kept.push(name@));
                    assert(r.deep_view() =~= old_r.push((name@, accepted_edits(m[name@]))));
                    assert(r.deep_view() =~= now.map_values(
                        |n: Seq<char>| (n, accepted_edits(m[n])),
                    ));
                    assert forall|n: Seq<char>| #[trigger]
                        now.contains(n) <==> old_kept.contains(n) || n == name@ by {
                        assert(now[old_kept.len() as int] == name@);
                        if old_kept.contains(n) {
                            let k = choose|k: int| 0 <= k < old_kept.len() && old_kept[k] == n;
                            assert(now[k] == n);
                        }
                    }
                }
            }
        }
    }
    proof {
        assert(all.take(all.len() as int) =~= all);
        assert(are_edited(kept.deep_view(), m));
        files::lemma_ascending_unique(kept.deep_view(), edited_files(m));
    }
    r
}

/// The place `offset` after or before place `cur` in a round list of `len`.
#[verifier::opaque]
pub open spec fn round_at(cur: int, len: int, forward: bool, offset: int) -> int {
    if forward {
        (cur + offset) % len
    } else {
        (cur + len - offset) % len
    }
}

impl AppView {
    /// With the selected change decided, and the next one selected.
    pub open spec fn decided(self, state: ChangeState) -> AppView {
        match self.current_file() {
            Some(f) => if self.current_change_idx < self.change_count() {
                let changes = self.rebase_changes[f];
                let i = self.current_change_idx as int;
                AppView {
                    rebase_changes: self.rebase_changes.insert(
                        f,
                        changes.update(i, ChangeView { state, ..changes[i] }),
                    ),
                    current_change_idx: keys::next_index(
                        self.current_change_idx,
                        self.change_count(),
                    ),
                    ..self
                }
            } else {
                self
            },
            None => self,
        }
    }

    /// Whether file `i` of the list has changes to decide about.
    pub open spec fn has_changes(self, i: int) -> bool {
        let f = self.file_names[i];
        self.rebase_changes.dom().contains(f) && self.rebase_changes[f].len() > 0
    }

    /// The place `offset` after or before the selected file, round the list.
    pub open spec fn file_at(self, forward: bool, offset: int) -> int {
        round_at(self.current_file_idx as int, self.file_names.len() as int, forward, offset)
    }

    /// The nearest other file, from `offset` on, that has changes to decide
    /// about.
    pub open spec fn file_from(self, forward: bool, offset: int) -> Option<int>
        decreases self.file_names.len() - offset,
    {
        if offset >= self.file_names.len() {
            None
        } else if self.has_changes(self.file_at(forward, offset)) {
            Some(self.file_at(forward, offset))
        } else {
            self.file_from(forward, offset + 1)
        }
    }

    /// With the next or previous file selected that has changes to decide
    /// about.
    pub open spec fn at_other_file(self, forward: bool) -> AppView {
        match self.file_from(forward, 1) {
            Some(i) => AppView { current_change_idx: 0, ..self }.at_file(i as usize),
            None => self,
        }
    }
}

impl Change {
    /// The same change with another decision.
    fn with_state(&self, state: ChangeState) -> (r: Change)
        ensures
            r.deep_view() == (ChangeView { state, ..self.deep_view() }),
    {
        Change {
            line_num: self.line_num,
            content: self.content.clone(),
            paired_content: match &self.paired_content {
                Some(s) => Some(s.clone()),
                None => None,
            },
            state,
            is_base: self.is_base,
            context: text::copy_strings(&self.context),
            base_insert_pos: self.base_insert_pos,
        }
    }
}

/// `changes` with change `at` decided.
fn decide(changes: &Vec<Change>, at: usize, state: ChangeState) -> (r: Vec<Change>)
    requires
        at < changes@.len(),
    ensures
        r.deep_view() == changes.deep_view().update(
            at as int,
            (ChangeView { state, ..changes.deep_view()[at as int] }),
        ),
{
    let ghost before = changes.deep_view();
    let ghost want = before.update(at as int, ChangeView { state, ..before[at as int] });
    let mut r: Vec<Change> = Vec::new();
    for i in 0..changes.len()
        invariant
            at < changes@.len(),
            before == changes.deep_view(),
            want == before.update(at as int, ChangeView { state, ..before[at as int] }),
            r.deep_view() == want.take(i as int),
    {
        let ghost so_far = r.deep_view();
        let next = if i == at {
            changes[i].with_state(state)
        } else {
            changes[i].clone()
        };
        r.push(next);
        assert(before[i as int] == changes@[i as int].deep_view());
        assert(r.deep_view() =~= so_far.push(next.deep_view()));
        assert(want.take(i + 1) =~= so_far.push(want[i as int]));
    }
    assert(want.take(want.len() as int) =~= want);
    r
}

/// The place `offset` after or before place `cur` in a round list.
fn round_place(cur: usize, len: usize, forward: bool, offset: usize) -> (r: usize)
    requires
        0 < len,
        offset <= len,
    ensures
        r < len,
        r == round_at(cur as int, len as int, forward, offset as int),
{
    reveal(round_at);
    let sum: u128 = if forward {
        cur as u128 + offset as u128
    } else {
        cur as u128 + len as u128 - offset as u128
    };
    (sum % (len as u128)) as usize
}

impl Clone for Change {
    fn clone(&self) -> (r: Self)
        ensures
            r.deep_view() == self.deep_view(),
    {
        self.with_state(self.state)
    }
}

impl App {
    /// Decides about the selected change and selects the next one.
    pub fn set_change_state(&mut self, state: ChangeState)
        ensures
            final(self).deep_view() == old(self).deep_view().decided(state),
    {
        let count: usize = self.change_count();
        if self.current_change_idx >= count {
            return;
        }
        if let Some(f) = self.current_file() {
            let name = f.clone();
            if let Some(changes) = self.rebase_changes.look_up(name.as_str()) {
                let updated = decide(changes, self.current_change_idx, state);
                self.rebase_changes.put(name, updated);
                if self.current_change_idx < count - 1 {
                    self.current_change_idx = self.current_change_idx + 1;
                }
            }
        }
    }

    /// The next or the previous file that has changes to decide about.
    fn other_file(&self, forward: bool) -> (r: Option<usize>)
        ensures
            match r {
                Some(i) => self.deep_view().file_from(forward, 1) == Some(i as int),
                None => self.deep_view().file_from(forward, 1) is None,
            },
    {
        let len: usize = self.file_names.len();
        if len == 0 {
            return None;
        }
        let ghost v = self.deep_view();
        let mut offset: usize = 1;
        while offset < len
            invariant
                1 <= offset <= len,
                len == self.file_names@.len(),
                self.deep_view() == v,
                v.file_from(forward, 1) == v.file_from(forward, offset as int),
            decreases len - offset,
        {
            let at: usize = round_place(self.current_file_idx, len, forward, offset);
            assert(at == v.file_at(forward, offset as int));
            assert(v.file_names[at as int] == self.file_names@[at as int]@);
            if let Some(changes) = self.rebase_changes.look_up(self.file_names[at].as_str()) {
                if changes.len() > 0 {
                    return Some(at);
                }
            }
            offset = offset + 1;
        }
        None
    }

    /// Selects the next or the previous file that has changes to decide about.
    pub fn navigate_rebase_file(&mut self, forward: bool)
        ensures
            final(self).deep_view() == old(self).deep_view().at_other_file(forward),
    {
        if let Some(i) = self.other_file(forward) {
            self.current_change_idx = 0;
            self.select_file(i);
        }
    }
}

// ---------------------------------------------------------------------------
// Switching views

/// The place after `i` in a round list of `len`.
pub open spec fn round_next(i: usize, len: nat) -> usize {
    if i as nat % len + 1 < len {
        (i as nat % len + 1) as usize
    } else {
        0
    }
}

/// The files that git reported as renames without content changes.
pub open spec fn pure_renames(meta: MetaView) -> Set<Seq<char>> {
    meta.dom().filter(|n: Seq<char>| meta[n].purely_renamed())
}

/// The message that so many renames are hidden.
pub open spec fn hidden_message(count: nat) -> Seq<char> {
    "Renames: hidden ("@ + text::decimal(count) + " file"@ + if count == 1 {
        ""@
    } else {
        "s"@
    } + ")"@
}

impl AppView {
    /// With the focus on the other pane.
    pub open spec fn other_pane(self) -> AppView {
        AppView {
            focused_pane: match self.focused_pane {
                Pane::FileList => Pane::DiffContent,
                Pane::DiffContent => Pane::FileList,
            },
            ..self
        }
    }

    /// With the other layout, and nothing selected in it.
    pub open spec fn other_layout(self) -> AppView {
        AppView {
            view_mode: match self.view_mode {
                ViewMode::SideBySide => ViewMode::Unified,
                ViewMode::Unified => ViewMode::SideBySide,
            },
            ..self
        }.unselected()
    }

    /// With the next theme.
    pub open spec fn next_theme(self) -> AppView {
        if self.theme_cycle.len() == 0 {
            self
        } else {
            let i = round_next(self.theme_cycle_idx, self.theme_cycle.len());
            AppView { theme_cycle_idx: i, theme: self.theme_cycle[i as int], ..self }
        }
    }

    /// With the file list as a tree, or as a list again.
    pub open spec fn tree_switched(self) -> AppView {
        AppView { file_tree_view: !self.file_tree_view, ..self }.told(
            if self.file_tree_view {
                "File panel: list"@
            } else {
                "File panel: tree"@
            },
        )
    }

    /// With long lines wrapped, or cut off again. Wrapped lines are not
    /// scrolled sideways.
    pub open spec fn wrap_switched(self) -> AppView {
        if self.wrap_mode {
            AppView { wrap_mode: false, ..self }.told("Wrap: OFF"@)
        } else {
            AppView {
                wrap_mode: true,
                h_scroll_positions: self.h_scroll_positions.map_values(|v: usize| 0usize),
                ..self
            }.told("Wrap: ON"@)
        }
    }

    /// With renames without content changes hidden, or shown again. The
    /// selected file stays selected while it is listed, with what is selected in
    /// it. Another file has nothing selected in it.
    pub open spec fn renames_relisted(self) -> AppView {
        let hide = !self.hide_pure_renames;
        let names = files::visible_names(self.file_changes, self.file_meta, hide);
        let listed = AppView {
            hide_pure_renames: hide,
            file_names: names,
            current_file_idx: keys::place_or_first(names, self.current_file()),
            ..self
        };
        if listed.current_file() == self.current_file() {
            listed
        } else {
            listed.unselected()
        }
    }

    /// With renames without content changes hidden, or shown again, and told so.
    pub open spec fn renames_switched(self) -> AppView {
        self.renames_relisted().told(
            if !self.hide_pure_renames {
                hidden_message(pure_renames(self.file_meta).len())
            } else {
                "Renames: shown"@
            },
        )
    }
}

/// How many files git reported as renames without content changes.
fn count_pure_renames(meta: &FileMetaMap) -> (r: usize)
    ensures
        r == pure_renames(meta.deep_view()).len(),
{
    let names = meta.keys();
    let ghost all = names.deep_view();
    let ghost m = meta.deep_view();
    let ghost mut found: Set<Seq<char>> = Set::empty();
    let mut count: usize = 0;
    for i in 0..names.len()
        invariant
            all == names.deep_view(),
            all.no_duplicates(),
            m == meta.deep_view(),
            forall|k: Seq<char>| #[trigger] meta@.dom().contains(k) <==> all.contains(k),
            found.finite(),
            count == found.len(),
            count <= i,
            forall|n: Seq<char>| #[trigger]
                found.contains(n) <==> all.take(i as int).contains(n) && m[n].purely_renamed(),
    {
        let ghost name = all[i as int];
        proof {
            assert(name == names@[i as int]@);
            assert(all.contains(name));
            assert(meta@.dom().contains(name));
            files::lemma_take_next(all, i as int);
            if all.take(i as int).contains(name) {
                let k = choose|k: int|
                    0 <= k < all.take(i as int).len() && all.take(i as int)[k] == name;
                assert(all[k] == name);
            }
        }
        if let Some(known) = meta.get(names[i].as_str()) {
            if known.is_pure_rename() {
                count = count + 1;
                proof {
                    found = found.insert(name);
                }
            }
        }
    }
    proof {
        assert(all.take(all.len() as int) =~= all);
        assert(found =~= pure_renames(m));
    }
    count
}

/// The names that a selection is kept by.
pub fn copy_name(name: Option<&String>) -> (r: Option<String>)
    ensures
        match name {
            Some(n) => r.deep_view() == Some(n@),
            None => r is None,
        },
{
    match name {
        Some(n) => Some(n.clone()),
        None => None,
    }
}

/// Whether a name is the one that a selection was kept by.
fn is_same_name(kept: &Option<String>, name: Option<&String>) -> (r: bool)
    ensures
        r == match name {
            Some(n) => kept.deep_view() == Some(n@),
            None => kept is None,
        },
{
    match (kept, name) {
        (Some(a), Some(b)) => *a.as_str() == *b.as_str(),
        (None, None) => true,
        _ => false,
    }
}

impl App {
    /// Gives the focus to the other pane.
    pub fn switch_pane(&mut self)
        ensures
            final(self).deep_view() == old(self).deep_view().other_pane(),
    {
        self.focused_pane = match self.focused_pane {
            Pane::FileList => Pane::DiffContent,
            Pane::DiffContent => Pane::FileList,
        };
    }

    /// Switches to the other layout.
    pub fn switch_layout(&mut self)
        ensures
            final(self).deep_view() == old(self).deep_view().other_layout(),
    {
        self.view_mode = match self.view_mode {
            ViewMode::SideBySide => ViewMode::Unified,
            ViewMode::Unified => ViewMode::SideBySide,
        };
        self.reset_diff_selection();
    }

    /// Switches to the next theme.
    pub fn switch_theme(&mut self)
        ensures
            final(self).deep_view() == old(self).deep_view().next_theme(),
    {
        let len: usize = self.theme_cycle.len();
        if len > 0 {
            let i: usize = self.theme_cycle_idx % len;
            let next: usize = if i < len - 1 {
                i + 1
            } else {
                0
            };
            self.theme_cycle_idx = next;
            self.theme = self.theme_cycle[next].clone();
            assert(self.theme_cycle.deep_view()[next as int]
                == self.theme_cycle@[next as int].deep_view());
        }
    }

    /// Shows the file list as a tree, or as a list again.
    pub fn switch_tree(&mut self)
        ensures
            final(self).deep_view() == old(self).deep_view().tree_switched(),
    {
        self.file_tree_view = !self.file_tree_view;
        let message = if self.file_tree_view {
            "File panel: tree"
        } else {
            "File panel: list"
        };
        self.tell(message.to_owned());
    }

    /// Wraps long lines, or cuts them off again.
    pub fn switch_wrap(&mut self)
        ensures
            final(self).deep_view() == old(self).deep_view().wrap_switched(),
    {
        self.wrap_mode = !self.wrap_mode;
        if self.wrap_mode {
            self.h_scroll_positions.fill(0);
        }
        let message = if self.wrap_mode {
            "Wrap: ON"
        } else {
            "Wrap: OFF"
        };
        self.tell(message.to_owned());
    }

    /// Lists the files without renames that change no content, or all again.
    fn relist_renames(&mut self)
        ensures
            final(self).deep_view() == old(self).deep_view().renames_relisted(),
    {
        let selected = copy_name(self.current_file());
        self.hide_pure_renames = !self.hide_pure_renames;
        let names = files::visible_file_names(
            &self.file_changes,
            &self.file_meta,
            self.hide_pure_renames,
        );
        self.current_file_idx = keys::find_place(&names, &selected);
        self.file_names = names;
        if !is_same_name(&selected, self.current_file()) {
            self.reset_diff_selection();
        }
    }

    /// Hides renames without content changes, or shows them again.
    pub fn switch_renames(&mut self)
        ensures
            final(self).deep_view() == old(self).deep_view().renames_switched(),
    {
        self.relist_renames();
        let message = if self.hide_pure_renames {
            let hidden: usize = count_pure_renames(&self.file_meta);
            let digits = text::decimal_of(hidden);
            text::cat5(
                "Renames: hidden (",
                digits.as_str(),
                " file",
                if hidden == 1 {
                    ""
                } else {
                    "s"
                },
                ")",
            )
        } else {
            "Renames: shown".to_owned()
        };
        self.tell(message);
    }
}

} // verus!
