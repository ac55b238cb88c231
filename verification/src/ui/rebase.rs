//! The changes that can be accepted or rejected.
use vstd::prelude::*;
use super::align;
use super::files;
use super::keys;
use super::types::{App, AppMode, AppView, Change, ChangeState, ChangeView};
use crate::diff::{LineChange, SideView};
use crate::names::NameMap;

verus! {

/// How many lines are shown above and below a change.
pub const CONTEXT_LINES: usize = 3;

/// The number of the last line of the left side above row `n`, or 0.
pub open spec fn last_number(base: SideView, n: int) -> usize
    decreases n,
{
    if n <= 0 {
        0
    } else if base[n - 1].0 != 0 {
        base[n - 1].0
    } else {
        last_number(base, n - 1)
    }
}

/// The text of row `i` of two aligned sides: that of the right side or, where
/// it has none, of the left side.
pub open spec fn row_text(base: SideView, head: SideView, i: int) -> Seq<char> {
    if head[i].0 != 0 {
        head[i].1
    } else {
        base[i].1
    }
}

/// The rows `from` to `to` without row `but`.
pub open spec fn row_texts(
    base: SideView,
    head: SideView,
    from: int,
    to: int,
    but: int,
) -> Seq<Seq<char>>
    decreases to - from,
{
    if from >= to {
        seq![]
    } else {
        let before = row_texts(base, head, from, to - 1, but);
        if to - 1 == but {
            before
        } else {
            before.push(row_text(base, head, to - 1))
        }
    }
}

/// The lines around row `i`.
pub open spec fn context(base: SideView, head: SideView, i: int) -> Seq<Seq<char>> {
    row_texts(
        base,
        head,
        if i >= CONTEXT_LINES {
            i - CONTEXT_LINES
        } else {
            0
        },
        if i + CONTEXT_LINES < base.len() {
            i + CONTEXT_LINES + 1
        } else {
            base.len() as int
        },
        i,
    )
}

/// The change of row `i` of two aligned sides, where there is one. A removed
/// line is replaced by the added line next to it, or deleted. An added line
/// that has no removed line next to it goes below the last line of the left
/// side above it.
pub open spec fn row_change(base: SideView, head: SideView, i: int) -> Option<ChangeView> {
    let added = head[i].0 != 0 && align::starts(head[i].1, '+');
    if base[i].0 != 0 && align::starts(base[i].1, '-') {
        Some(
            ChangeView {
                line_num: base[i].0,
                content: base[i].1,
                paired_content: if added {
                    Some(head[i].1)
                } else {
                    None
                },
                state: ChangeState::Unselected,
                is_base: true,
                context: context(base, head, i),
                base_insert_pos: None,
            },
        )
    } else if added {
        Some(
            ChangeView {
                line_num: head[i].0,
                content: head[i].1,
                paired_content: None,
                state: ChangeState::Unselected,
                is_base: false,
                context: context(base, head, i),
                base_insert_pos: Some(keys::more(last_number(base, i), 1)),
            },
        )
    } else {
        None
    }
}

/// The changes of the first `n` rows of two aligned sides.
pub open spec fn changes_upto(base: SideView, head: SideView, n: int) -> Seq<ChangeView>
    decreases n,
{
    if n <= 0 {
        seq![]
    } else {
        let before = changes_upto(base, head, n - 1);
        match row_change(base, head, n - 1) {
            Some(c) => before.push(c),
            None => before,
        }
    }
}

/// The changes of a file.
pub open spec fn file_changes(base: SideView, head: SideView) -> Seq<ChangeView> {
    let (b, h) = align::aligned(base, head);
    changes_upto(b, h, b.len() as int)
}

impl AppView {
    /// With the changes of every file, none of which has been decided about.
    pub open spec fn with_changes(self) -> AppView {
        AppView {
            rebase_changes: self.file_changes.map_values(
                |sides: (SideView, SideView)| file_changes(sides.0, sides.1),
            ),
            current_change_idx: 0,
            ..self
        }
    }

    /// With the changes of every file shown to be decided about.
    pub open spec fn in_rebase(self) -> AppView {
        AppView { app_mode: AppMode::Rebase, ..self }.with_changes()
    }
}

/// The lines around row `i`.
fn context_of(base: &Vec<LineChange>, head: &Vec<LineChange>, i: usize) -> (r: Vec<String>)
    requires
        base@.len() == head@.len(),
        i < base@.len(),
    ensures
        r.deep_view() == context(base.deep_view(), head.deep_view(), i as int),
{
    let ghost b = base.deep_view();
    let ghost h = head.deep_view();
    let len: usize = base.len();
    let from: usize = i.saturating_sub(CONTEXT_LINES);
    let to: usize = if len - i > CONTEXT_LINES {
        i + CONTEXT_LINES + 1
    } else {
        len
    };
    let mut r: Vec<String> = Vec::new();
    assert(r.deep_view() =~= row_texts(b, h, from as int, from as int, i as int));
    for k in from..to
        invariant
            from <= to <= base@.len(),
            base@.len() == head@.len(),
            b == base.deep_view(),
            h == head.deep_view(),
            r.deep_view() == row_texts(b, h, from as int, k as int, i as int),
    {
        proof {
            assert(b[k as int] == (base@[k as int].0, base@[k as int].1@));
            assert(h[k as int] == (head@[k as int].0, head@[k as int].1@));
        }
        if k != i {
            let ghost before = r.deep_view();
            let line = if head[k].0 != 0 {
                head[k].1.clone()
            } else {
                base[k].1.clone()
            };
            r.push(line);
            assert(r.deep_view() =~= before.push(row_text(b, h, k as int)));
        }
    }
    r
}

/// Whether a line carries a mark.
fn has_mark(line: &LineChange, mark: char) -> (r: bool)
    ensures
        r == (line.0 != 0 && align::starts(line.1@, mark)),
{
    line.0 != 0 && line.1.as_str().unicode_len() > 0 && line.1.as_str().get_char(0) == mark
}

/// The change of row `i`.
fn change_of(
    base: &Vec<LineChange>,
    head: &Vec<LineChange>,
    i: usize,
    last: usize,
) -> (r: Option<Change>)
    requires
        base@.len() == head@.len(),
        i < base@.len(),
        last == last_number(base.deep_view(), i as int),
    ensures
        r.deep_view() == row_change(base.deep_view(), head.deep_view(), i as int),
{
    let b = &base[i];
    let h = &head[i];
    proof {
        assert(base.deep_view()[i as int] == (b.0, b.1@));
        assert(head.deep_view()[i as int] == (h.0, h.1@));
    }
    let added = has_mark(h, '+');
    if has_mark(b, '-') {
        Some(
            Change {
                line_num: b.0,
                content: b.1.clone(),
                paired_content: if added {
                    Some(h.1.clone())
                } else {
                    None
                },
                state: ChangeState::Unselected,
                is_base: true,
                context: context_of(base, head, i),
                base_insert_pos: None,
            },
        )
    } else if added {
        Some(
            Change {
                line_num: h.0,
                content: h.1.clone(),
                paired_content: None,
                state: ChangeState::Unselected,
                is_base: false,
                context: context_of(base, head, i),
                base_insert_pos: Some(last.saturating_add(1)),
            },
        )
    } else {
        None
    }
}

/// The changes of a file.
pub fn changes_of_file(base: &Vec<LineChange>, head: &Vec<LineChange>) -> (r: Vec<Change>)
    ensures
        r.deep_view() == file_changes(base.deep_view(), head.deep_view()),
{
    let (b, h) = align::align_lines(base.as_slice(), head.as_slice());
    let ghost bv = b.deep_view();
    let ghost hv = h.deep_view();
    proof {
        align::law_aligned_lengths(base.deep_view(), head.deep_view());
        assert(bv.len() == b@.len());
        assert(hv.len() == h@.len());
    }
    let mut r: Vec<Change> = Vec::new();
    assert(r.deep_view() =~= changes_upto(bv, hv, 0));
    let mut last: usize = 0;
    for i in 0..b.len()
        invariant
            bv == b.deep_view(),
            hv == h.deep_view(),
            b@.len() == h@.len(),
            last == last_number(bv, i as int),
            r.deep_view() == changes_upto(bv, hv, i as int),
    {
        assert(bv[i as int] == (b@[i as int].0, b@[i as int].1@));
        if let Some(c) = change_of(&b, &h, i, last) {
            let ghost before = r.deep_view();
            r.push(c);
            assert(r.deep_view() =~= before.push(c.deep_view()));
        }
        if b[i].0 != 0 {
            last = b[i].0;
        }
    }
    r
}

impl App {
    /// Lists the changes of every file. None has been decided about.
    pub fn prepare_rebase_changes(&mut self)
        ensures
            final(self).deep_view() == old(self).deep_view().with_changes(),
    {
        let ghost v = self.deep_view();
        let ghost all = v.file_changes;
        let names = self.file_changes.keys();
        let ghost listed = names.deep_view();
        let mut changes: NameMap<Vec<Change>> = NameMap::new();
        for i in 0..names.len()
            invariant
                all == self.file_changes.deep_view(),
                listed == names.deep_view(),
                forall|k: Seq<char>| #[trigger]
                    changes.deep_view().dom().contains(k) <==> all.dom().contains(k)
                        && listed.take(i as int).contains(k),
                forall|k: Seq<char>| #[trigger]
                    changes.deep_view().dom().contains(k) ==> changes.deep_view()[k]
                        == file_changes(all[k].0, all[k].1),
        {
            let name = names[i].clone();
            proof {
                assert(listed[i as int] == name@);
                files::lemma_take_next(listed, i as int);
            }
            if let Some(sides) = self.file_changes.look_up(name.as_str()) {
                let found = changes_of_file(&sides.0, &sides.1);
                changes.put(name, found);
            }
        }
        proof {
            assert(listed.take(listed.len() as int) =~= listed);
            assert forall|k: Seq<char>| #[trigger] all.dom().contains(k) implies listed.contains(
                k,
            ) by {
                assert(self.file_changes@.dom().contains(k));
            }
            assert(changes.deep_view() =~= v.with_changes().rebase_changes);
        }
        self.rebase_changes = changes;
        self.current_change_idx = 0;
    }

    /// Shows the changes of every file to be decided about.
    pub fn enter_rebase(&mut self)
        ensures
            final(self).deep_view() == old(self).deep_view().in_rebase(),
    {
        self.app_mode = AppMode::Rebase;
        self.prepare_rebase_changes();
    }
}

/// A removed line that faces an added one is to be replaced by it, and one that
/// faces nothing to be deleted. An added line that faces nothing is to be put in. An
/// unchanged row is no change.
pub proof fn law_row_change(base: SideView, head: SideView, i: int)
    requires
        0 <= i < base.len() == head.len(),
    ensures
        ({
            let left = base[i];
            let right = head[i];
            let gone = left.0 != 0 && left.1.len() > 0 && left.1[0] == '-';
            let new = right.0 != 0 && right.1.len() > 0 && right.1[0] == '+';
            match row_change(base, head, i) {
                Some(c) => {
                    &&& gone || new
                    &&& c.state is Unselected
                    &&& c.is_base == gone
                    &&& gone ==> c.line_num == left.0 && c.content == left.1
                    &&& gone && new ==> c.paired_content == Some(right.1)
                    &&& !gone ==> c.line_num == right.0 && c.content == right.1
                    &&& !(gone && new) ==> c.paired_content is None
                },
                None => !gone && !new,
            }
        }),
{
}

proof fn lemma_last_number(base: SideView, k: int, n: int)
    requires
        0 <= k < n <= base.len(),
        base[k].0 != 0,
        forall|r: int| k < r < n ==> (#[trigger] base[r]).0 == 0,
    ensures
        last_number(base, n) == base[k].0,
    decreases n,
{
    if n - 1 > k {
        assert(base[n - 1].0 == 0);
        lemma_last_number(base, k, n - 1);
    }
}

/// An added line goes right below the last line of the left side above it.
pub proof fn law_put_below(base: SideView, head: SideView, k: int, i: int)
    requires
        0 <= k < i < base.len() == head.len(),
        base[k].0 != 0,
        base[k].0 < usize::MAX,
        forall|r: int| k < r <= i ==> (#[trigger] base[r]).0 == 0,
        head[i].0 != 0,
        head[i].1.len() > 0,
        head[i].1[0] == '+',
    ensures
        row_change(base, head, i) matches Some(c) && c.base_insert_pos == Some(
            (base[k].0 + 1) as usize,
        ),
{
    assert(base[i].0 == 0);
    lemma_last_number(base, k, i);
}

/// An added line with no line of the left side above it becomes the first.
pub proof fn law_put_first(base: SideView, head: SideView, i: int)
    requires
        0 <= i < base.len() == head.len(),
        forall|r: int| 0 <= r <= i ==> (#[trigger] base[r]).0 == 0,
        head[i].0 != 0,
        head[i].1.len() > 0,
        head[i].1[0] == '+',
    ensures
        row_change(base, head, i) matches Some(c) && c.base_insert_pos == Some(1usize),
{
    assert(base[i].0 == 0);
    lemma_no_number(base, i);
}

proof fn lemma_no_number(base: SideView, n: int)
    requires
        0 <= n <= base.len(),
        forall|r: int| 0 <= r < n ==> (#[trigger] base[r]).0 == 0,
    ensures
        last_number(base, n) == 0,
    decreases n,
{
    if n > 0 {
        assert(base[n - 1].0 == 0);
        lemma_no_number(base, n - 1);
    }
}

/// With a change come the three lines above and the three lines below it, each as
/// the right side has it, or the left side where the right one has nothing.
pub proof fn law_context(base: SideView, head: SideView, i: int)
    requires
        3 <= i,
        i + 3 < base.len(),
        base.len() == head.len(),
    ensures
        ({
            let t = |r: int|
                if head[r].0 == 0 {
                    base[r].1
                } else {
                    head[r].1
                };
            context(base, head, i) == seq![t(i - 3), t(i - 2), t(i - 1), t(i + 1), t(i + 2), t(i + 3)]
        }),
{
    reveal_with_fuel(row_texts, 8);
}

/// The changes of the rows are listed from the first row to the last, one for each
/// row that is a change.
pub proof fn law_changes_in_order(base: SideView, head: SideView, n: int)
    requires
        0 <= n,
    ensures
        changes_upto(base, head, n) == Seq::new(
            n as nat,
            |i: int| row_change(base, head, i),
        ).filter(|c: Option<ChangeView>| c is Some).map_values(|c: Option<ChangeView>| c->0),
    decreases n,
{
    reveal_with_fuel(Seq::filter, 2);
    let some = |c: Option<ChangeView>| c is Some;
    let inside = |c: Option<ChangeView>| c->0;
    let rows = Seq::new(n as nat, |i: int| row_change(base, head, i));
    if n > 0 {
        let before = Seq::new((n - 1) as nat, |i: int| row_change(base, head, i));
        law_changes_in_order(base, head, n - 1);
        assert(rows.drop_last() =~= before);
        assert(rows.last() == row_change(base, head, n - 1));
        assert(changes_upto(base, head, n) =~= rows.filter(some).map_values(inside));
    } else {
        assert(rows.filter(some).map_values(inside) =~= Seq::empty());
    }
}

} // verus!
