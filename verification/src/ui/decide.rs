//! What the decisions about changes make of a file.
use vstd::prelude::*;
use super::actions;
use super::align;
use super::rebase;
use super::types::{ChangeState, ChangeView};
use crate::diff::ops;
use crate::diff::ops::OpView;
use crate::diff::weave;
use crate::diff::SideView;

verus! {

/// Whether the lines of a side are numbered from 1 on: it is a whole file.
pub open spec fn numbered(side: SideView) -> bool {
    forall|i: int| 0 <= i < side.len() ==> (#[trigger] side[i]).0 == i + 1
}

/// Whether the lines of a side are numbered in rising order: it is a whole file
/// or hunks of one.
pub open spec fn ascending(side: SideView) -> bool {
    &&& forall|i: int| 0 <= i < side.len() ==> (#[trigger] side[i]).0 > 0
    &&& forall|i: int, j: int| #![trigger side[i], side[j]]
        0 <= i < j < side.len() ==> side[i].0 < side[j].0
}

/// Whether `changes` are the changes `listed`, decided about in some way.
pub open spec fn decides(changes: Seq<ChangeView>, listed: Seq<ChangeView>) -> bool {
    &&& changes.len() == listed.len()
    &&& forall|i: int| #![trigger changes[i]]
        0 <= i < changes.len() ==> changes[i] == (ChangeView {
            state: changes[i].state,
            ..listed[i]
        })
}

/// Whether the change of row `r` of two aligned sides was accepted.
pub open spec fn is_accepted(
    b: SideView,
    h: SideView,
    changes: Seq<ChangeView>,
    r: int,
) -> bool {
    changes[rebase::changes_upto(b, h, r).len() as int].state == ChangeState::Accepted
}

/// What becomes of row `r` of two aligned sides. An accepted change makes it
/// what it is on the right side. Otherwise it stays as it is in the file.
pub open spec fn row_outcome(
    lines: Seq<Seq<char>>,
    b: SideView,
    h: SideView,
    changes: Seq<ChangeView>,
    r: int,
) -> Seq<Seq<char>> {
    if rebase::row_change(b, h, r) is Some && is_accepted(b, h, changes, r) {
        if h[r].0 != 0 && align::starts(h[r].1, '+') {
            seq![actions::without_mark(h[r].1)]
        } else {
            seq![]
        }
    } else if b[r].0 != 0 {
        seq![lines[b[r].0 - 1]]
    } else {
        seq![]
    }
}

/// What becomes of the rows from `r` on.
pub open spec fn outcome(
    lines: Seq<Seq<char>>,
    b: SideView,
    h: SideView,
    changes: Seq<ChangeView>,
    r: int,
) -> Seq<Seq<char>>
    decreases b.len() - r,
{
    if r >= b.len() {
        seq![]
    } else {
        row_outcome(lines, b, h, changes, r) + outcome(lines, b, h, changes, r + 1)
    }
}

/// What becomes of the file from line `p` on, where the rows from `r` on are still
/// to come. The lines that no row shows stay as they are.
pub open spec fn spread(
    lines: Seq<Seq<char>>,
    b: SideView,
    h: SideView,
    changes: Seq<ChangeView>,
    p: int,
    r: int,
) -> Seq<Seq<char>>
    decreases b.len() - r,
{
    if r >= b.len() {
        lines.subrange(p - 1, lines.len() as int)
    } else if b[r].0 != 0 {
        lines.subrange(p - 1, b[r].0 - 1) + row_outcome(lines, b, h, changes, r) + spread(
            lines,
            b,
            h,
            changes,
            b[r].0 + 1,
            r + 1,
        )
    } else {
        row_outcome(lines, b, h, changes, r) + spread(lines, b, h, changes, p, r + 1)
    }
}

// ---------------------------------------------------------------------------
// Rows

spec fn counted(s: SideView) -> bool {
    forall|r: int| #![trigger s[r]]
        0 <= r < s.len() && s[r].0 != 0 ==> s[r].0 > rebase::last_number(s, r)
}

/// No number is left out.
spec fn unbroken(s: SideView) -> bool {
    forall|r: int| #![trigger s[r]]
        0 <= r < s.len() && s[r].0 != 0 ==> s[r].0 == rebase::last_number(s, r) + 1
}

proof fn lemma_last_prefix(s: SideView, r: int)
    requires
        0 <= r < s.len(),
    ensures
        rebase::last_number(s.drop_last(), r) == rebase::last_number(s, r),
    decreases r,
{
    if r > 0 {
        assert(s.drop_last()[r - 1] == s[r - 1]);
        lemma_last_prefix(s, r - 1);
    }
}

proof fn lemma_counted(s: SideView, t: SideView)
    requires
        align::without_gaps(s) == t,
        ascending(t),
    ensures
        counted(s),
        rebase::last_number(s, s.len() as int) == (if t.len() > 0 {
            t.last().0 as int
        } else {
            0
        }),
    decreases s.len(),
{
    if s.len() > 0 {
        let rest = s.drop_last();
        let n = s.len() - 1;
        if s.last() == align::gap() {
            lemma_counted(rest, t);
        } else {
            let before = align::without_gaps(rest);
            assert(t[t.len() - 1] == s.last());
            assert forall|i: int| 0 <= i < before.len() implies #[trigger] before[i] == t[i] by {}
            assert(ascending(before));
            lemma_counted(rest, before);
        }
        lemma_last_prefix(s, n);
        assert forall|r: int| #![trigger s[r]] 0 <= r < s.len() && s[r].0 != 0 implies s[r].0
            > rebase::last_number(s, r) by {
            if r < n {
                assert(rest[r] == s[r]);
                lemma_last_prefix(s, r);
            }
        }
    }
}

proof fn lemma_unbroken(s: SideView, t: SideView)
    requires
        align::without_gaps(s) == t,
        numbered(t),
    ensures
        unbroken(s),
        rebase::last_number(s, s.len() as int) == t.len(),
    decreases s.len(),
{
    if s.len() > 0 {
        let rest = s.drop_last();
        let n = s.len() - 1;
        if s.last() == align::gap() {
            lemma_unbroken(rest, t);
        } else {
            let before = align::without_gaps(rest);
            assert(t[t.len() - 1] == s.last());
            assert forall|i: int| 0 <= i < before.len() implies (#[trigger] before[i]).0 == i
                + 1 by {
                assert(t[i] == before[i]);
            }
            lemma_unbroken(rest, before);
        }
        lemma_last_prefix(s, n);
        assert forall|r: int| #![trigger s[r]] 0 <= r < s.len() && s[r].0 != 0 implies s[r].0
            == rebase::last_number(s, r) + 1 by {
            if r < n {
                assert(rest[r] == s[r]);
                lemma_last_prefix(s, r);
            }
        }
    }
}

proof fn lemma_last_grows(s: SideView, r: int, q: int)
    requires
        counted(s),
        0 <= r <= q <= s.len(),
    ensures
        rebase::last_number(s, r) <= rebase::last_number(s, q),
    decreases q,
{
    if r < q {
        lemma_last_grows(s, r, q - 1);
        assert(s[q - 1].0 != 0 ==> s[q - 1].0 > rebase::last_number(s, q - 1));
    }
}

proof fn lemma_number_grows(s: SideView, r: int, q: int)
    requires
        counted(s),
        0 <= r < q < s.len(),
        s[r].0 != 0,
        s[q].0 != 0,
    ensures
        s[r].0 < s[q].0,
{
    lemma_last_grows(s, r + 1, q);
    assert(rebase::last_number(s, r + 1) == s[r].0);
    assert(s[q].0 > rebase::last_number(s, q));
}

/// Added lines stand next to removed lines or gaps.
spec fn unmixed(b: SideView, h: SideView) -> bool {
    forall|r: int| #![trigger b[r], h[r]]
        0 <= r < b.len() && h[r].0 != 0 && align::starts(h[r].1, '+') ==> b[r].0 == 0
            || align::starts(b[r].1, '-')
}

proof fn lemma_unmixed(base: SideView, head: SideView)
    ensures
        unmixed(align::aligned(base, head).0, align::aligned(base, head).1),
    decreases base.len() + head.len(),
{
    let (b, h) = align::aligned(base, head);
    if base.len() > 0 || head.len() > 0 {
        let (i, j) = align::block(base, head);
        align::lemma_marked(base, '-');
        align::lemma_marked(head, '+');
        let n = align::larger(i, j);
        let b0 = align::padded(base.take(i as int), n);
        let h0 = align::padded(head.take(j as int), n);
        let (b1, h1) = align::aligned(base.skip(i as int), head.skip(j as int));
        lemma_unmixed(base.skip(i as int), head.skip(j as int));
        align::law_aligned_lengths(base.skip(i as int), head.skip(j as int));
        assert(b == b0 + b1);
        assert(h == h0 + h1);
        assert forall|r: int| #![trigger b[r], h[r]]
            0 <= r < b.len() && h[r].0 != 0 && align::starts(h[r].1, '+') implies b[r].0 == 0
            || align::starts(b[r].1, '-') by {
            if r < n {
                assert(b[r] == b0[r]);
                assert(h[r] == h0[r]);
                if r < i {
                    assert(b[r] == base[r]);
                }
                if r < j {
                    assert(h[r] == head[r]);
                }
            } else {
                assert(b[r] == b1[r - n]);
                assert(h[r] == h1[r - n]);
            }
        }
    }
}

proof fn lemma_changes_prefix(b: SideView, h: SideView, r: int, n: int)
    requires
        0 <= r <= n,
    ensures
        rebase::changes_upto(b, h, r).len() <= rebase::changes_upto(b, h, n).len(),
        rebase::changes_upto(b, h, r) == rebase::changes_upto(b, h, n).take(
            rebase::changes_upto(b, h, r).len() as int,
        ),
    decreases n,
{
    let all = rebase::changes_upto(b, h, n);
    let some = rebase::changes_upto(b, h, r);
    if r < n {
        lemma_changes_prefix(b, h, r, n - 1);
        let before = rebase::changes_upto(b, h, n - 1);
        assert(before.take(some.len() as int) =~= all.take(some.len() as int));
    } else {
        assert(all.take(all.len() as int) =~= all);
    }
}

// ---------------------------------------------------------------------------
// The edits

/// What holds of two aligned sides of a file with `n` lines and of the decisions
/// about their changes.
spec fn ready(b: SideView, h: SideView, changes: Seq<ChangeView>, n: nat) -> bool {
    &&& b.len() == h.len()
    &&& n < usize::MAX
    &&& counted(b)
    &&& counted(h)
    &&& rebase::last_number(b, b.len() as int) <= n
    &&& unmixed(b, h)
    &&& decides(changes, rebase::changes_upto(b, h, b.len() as int))
}

/// The edits of the accepted changes above row `r`.
spec fn taken(b: SideView, h: SideView, changes: Seq<ChangeView>, r: int) -> Seq<OpView> {
    actions::accepted_edits(changes.take(rebase::changes_upto(b, h, r).len() as int))
}

/// The edit of row `r`, where its change was accepted.
spec fn row_edit(b: SideView, h: SideView, changes: Seq<ChangeView>, r: int) -> Option<OpView> {
    match rebase::row_change(b, h, r) {
        Some(c) => if is_accepted(b, h, changes, r) {
            Some(actions::edit_of(c))
        } else {
            None
        },
        None => None,
    }
}

proof fn lemma_taken_next(b: SideView, h: SideView, changes: Seq<ChangeView>, n: nat, r: int)
    requires
        ready(b, h, changes, n),
        0 <= r < b.len(),
    ensures
        taken(b, h, changes, r + 1) == match row_edit(b, h, changes, r) {
            Some(op) => taken(b, h, changes, r).push(op),
            None => taken(b, h, changes, r),
        },
{
    let k = rebase::changes_upto(b, h, r).len() as int;
    let listed = rebase::changes_upto(b, h, b.len() as int);
    lemma_changes_prefix(b, h, r + 1, b.len() as int);
    if let Some(c) = rebase::row_change(b, h, r) {
        let next = rebase::changes_upto(b, h, r + 1);
        assert(next[k] == c);
        assert(listed[k] == listed.take(k + 1)[k]);
        assert(changes[k] == (ChangeView { state: changes[k].state, ..c }));
        assert(changes.take(k + 1).drop_last() =~= changes.take(k));
        assert(changes.take(k + 1).last() == changes[k]);
        assert(actions::edit_of(changes[k]) == actions::edit_of(c));
    }
}

/// What is known of the edits above row `r`.
spec fn bounded(e: Seq<OpView>, last: int) -> bool {
    &&& forall|i: int| #![trigger e[i]]
        0 <= i < e.len() ==> 1 <= e[i].line() && e[i].line() <= last + (if e[i] is Insert {
            1int
        } else {
            0
        })
    &&& forall|i: int, j: int| #![trigger e[i], e[j]]
        0 <= i < j < e.len() && e[i] !is Insert && e[j] !is Insert ==> e[i].line() != e[j].line()
}

proof fn lemma_taken_bounded(b: SideView, h: SideView, changes: Seq<ChangeView>, n: nat, r: int)
    requires
        ready(b, h, changes, n),
        0 <= r <= b.len(),
    ensures
        bounded(taken(b, h, changes, r), rebase::last_number(b, r) as int),
    decreases r,
{
    let e = taken(b, h, changes, r);
    if r == 0 {
        assert(changes.take(0) =~= seq![]);
        assert(e =~= seq![]);
    } else {
        let before = taken(b, h, changes, r - 1);
        let last = rebase::last_number(b, r - 1);
        lemma_taken_bounded(b, h, changes, n, r - 1);
        lemma_taken_next(b, h, changes, n, r - 1);
        lemma_last_grows(b, r - 1, r);
        lemma_last_grows(b, r - 1, b.len() as int);
        assert(b[r - 1].0 != 0 ==> b[r - 1].0 > last);
        assert forall|i: int| #![trigger e[i]] 0 <= i < e.len() implies 1 <= e[i].line()
            && e[i].line() <= rebase::last_number(b, r) + (if e[i] is Insert {
            1int
        } else {
            0
        }) by {
            if i < before.len() {
                assert(e[i] == before[i]);
            }
        }
        assert forall|i: int, j: int| #![trigger e[i], e[j]]
            0 <= i < j < e.len() && e[i] !is Insert && e[j] !is Insert implies e[i].line()
            != e[j].line() by {
            assert(e[i] == before[i]);
            if j < before.len() {
                assert(e[j] == before[j]);
            }
        }
    }
}

proof fn lemma_edit_taken(
    b: SideView,
    h: SideView,
    changes: Seq<ChangeView>,
    n: nat,
    r: int,
    s: int,
)
    requires
        ready(b, h, changes, n),
        0 <= r <= b.len(),
        0 <= s < b.len(),
        b[s].0 != 0,
    ensures
        weave::edit_at(taken(b, h, changes, r), b[s].0 as int) == (if s < r {
            row_edit(b, h, changes, s)
        } else {
            None
        }),
    decreases r,
{
    assert(h[s].0 != 0 && align::starts(h[s].1, '+') ==> b[s].0 == 0 || align::starts(
        b[s].1,
        '-',
    ));
    if r == 0 {
        assert(changes.take(0) =~= seq![]);
        assert(taken(b, h, changes, 0) =~= seq![]);
    } else {
        lemma_edit_taken(b, h, changes, n, r - 1, s);
        lemma_taken_next(b, h, changes, n, r - 1);
        if let Some(op) = row_edit(b, h, changes, r - 1) {
            let e = taken(b, h, changes, r);
            assert(e.drop_last() =~= taken(b, h, changes, r - 1));
            assert(e.last() == op);
            if op !is Insert {
                assert(op.line() == b[r - 1].0);
                if s < r - 1 {
                    lemma_number_grows(b, s, r - 1);
                } else if s > r - 1 {
                    lemma_number_grows(b, r - 1, s);
                }
            } else if s == r - 1 {
                assert(b[r - 1].0 == 0 || align::starts(b[r - 1].1, '-'));
            }
        }
    }
}

/// A line that no row shows has no edit.
proof fn lemma_unedited(
    b: SideView,
    h: SideView,
    changes: Seq<ChangeView>,
    n: nat,
    r: int,
    q: int,
)
    requires
        ready(b, h, changes, n),
        0 <= r <= b.len(),
        forall|s: int| #![trigger b[s]] 0 <= s < b.len() ==> b[s].0 == 0 || b[s].0 != q,
    ensures
        weave::edit_at(taken(b, h, changes, r), q) is None,
    decreases r,
{
    if r == 0 {
        assert(changes.take(0) =~= seq![]);
        assert(taken(b, h, changes, 0) =~= seq![]);
    } else {
        lemma_unedited(b, h, changes, n, r - 1, q);
        lemma_taken_next(b, h, changes, n, r - 1);
        if let Some(op) = row_edit(b, h, changes, r - 1) {
            let e = taken(b, h, changes, r);
            assert(e.drop_last() =~= taken(b, h, changes, r - 1));
            assert(e.last() == op);
            assert(op !is Insert ==> op.line() == b[r - 1].0 && b[r - 1].0 != 0);
        }
    }
}

// ---------------------------------------------------------------------------
// Insertions

/// The lines that the insertions `s` put before line `q`, in their order.
spec fn texts(s: Seq<OpView>, q: int) -> Seq<Seq<char>>
    decreases s.len(),
{
    if s.len() == 0 {
        seq![]
    } else {
        (match s[0] {
            OpView::Insert { base_pos, content, .. } => if base_pos == q {
                seq![content]
            } else {
                seq![]
            },
            _ => seq![],
        }) + texts(s.skip(1), q)
    }
}

proof fn lemma_texts_push(s: Seq<OpView>, op: OpView, q: int)
    ensures
        texts(s.push(op), q) == texts(s, q) + (match op {
            OpView::Insert { base_pos, content, .. } => if base_pos == q {
                seq![content]
            } else {
                seq![]
            },
            _ => seq![],
        }),
    decreases s.len(),
{
    let t = s.push(op);
    if s.len() == 0 {
        assert(t.skip(1) =~= seq![]);
        assert(texts(t.skip(1), q) =~= seq![]);
        assert(texts(s, q) =~= seq![]);
    } else {
        lemma_texts_push(s.skip(1), op, q);
        assert(t.skip(1) =~= s.skip(1).push(op));
        assert(t[0] == s[0]);
    }
    assert(texts(t, q) =~= texts(s, q) + (match op {
        OpView::Insert { base_pos, content, .. } => if base_pos == q {
            seq![content]
        } else {
            seq![]
        },
        _ => seq![],
    }));
}

proof fn lemma_texts_reversed(s: Seq<OpView>, q: int)
    ensures
        weave::put_before(s.reverse(), q) == texts(s, q),
    decreases s.len(),
{
    let t = s.reverse();
    if s.len() > 0 {
        assert(t.last() == s[0]);
        assert(t.drop_last() =~= s.skip(1).reverse());
        lemma_texts_reversed(s.skip(1), q);
        assert(weave::put_before(t, q) =~= texts(s, q));
    }
}

spec fn rising(s: Seq<OpView>) -> bool {
    forall|i: int, j: int| #![trigger s[i], s[j]] 0 <= i < j < s.len() ==> s[i].below(s[j])
}

proof fn lemma_placed_first(s: Seq<OpView>, op: OpView)
    requires
        forall|i: int| #![trigger s[i]] 0 <= i < s.len() ==> s[i].below(op),
    ensures
        ops::placed(s, op) == seq![op] + s,
    decreases s.len(),
{
    if s.len() > 0 {
        let rest = s.drop_last();
        assert(s[s.len() - 1].below(op));
        assert forall|i: int| #![trigger rest[i]] 0 <= i < rest.len() implies rest[i].below(
            op,
        ) by {
            assert(rest[i] == s[i]);
        }
        lemma_placed_first(rest, op);
        assert(ops::placed(s, op) =~= seq![op] + s);
    } else {
        assert(ops::placed(s, op) =~= seq![op] + s);
    }
}

proof fn lemma_rising_reversed(s: Seq<OpView>)
    requires
        rising(s),
    ensures
        ops::descending(s) == s.reverse(),
    decreases s.len(),
{
    if s.len() > 0 {
        let rest = s.drop_last();
        let op = s[s.len() - 1];
        assert forall|i: int, j: int| #![trigger rest[i], rest[j]]
            0 <= i < j < rest.len() implies rest[i].below(rest[j]) by {
            assert(rest[i] == s[i] && rest[j] == s[j]);
        }
        lemma_rising_reversed(rest);
        let back = rest.reverse();
        assert forall|i: int| #![trigger back[i]] 0 <= i < back.len() implies back[i].below(
            op,
        ) by {
            assert(back[i] == s[rest.len() - 1 - i]);
        }
        lemma_placed_first(back, op);
        assert(s.reverse() =~= seq![op] + back);
    } else {
        assert(s.reverse() =~= seq![]);
    }
}

/// The new line of row `r`, where it goes before line `q`.
spec fn new_line(b: SideView, h: SideView, changes: Seq<ChangeView>, r: int, q: int) -> Seq<
    Seq<char>,
> {
    match row_edit(b, h, changes, r) {
        Some(OpView::Insert { base_pos, content, .. }) => if base_pos == q {
            seq![content]
        } else {
            seq![]
        },
        _ => seq![],
    }
}

/// The new lines of rows `a` to `z` that go before line `q`.
spec fn new_between(
    b: SideView,
    h: SideView,
    changes: Seq<ChangeView>,
    a: int,
    z: int,
    q: int,
) -> Seq<Seq<char>>
    decreases z - a,
{
    if a >= z {
        seq![]
    } else {
        new_between(b, h, changes, a, z - 1, q) + new_line(b, h, changes, z - 1, q)
    }
}

proof fn lemma_new_first(
    b: SideView,
    h: SideView,
    changes: Seq<ChangeView>,
    a: int,
    z: int,
    q: int,
)
    requires
        a < z,
    ensures
        new_between(b, h, changes, a, z, q) == new_line(b, h, changes, a, q) + new_between(
            b,
            h,
            changes,
            a + 1,
            z,
            q,
        ),
    decreases z - a,
{
    if a + 1 < z {
        lemma_new_first(b, h, changes, a, z - 1, q);
    } else {
        assert(new_between(b, h, changes, a, a, q) =~= seq![]);
        assert(new_between(b, h, changes, a + 1, a + 1, q) =~= seq![]);
    }
    assert(new_between(b, h, changes, a, z, q) =~= new_line(b, h, changes, a, q) + new_between(
        b,
        h,
        changes,
        a + 1,
        z,
        q,
    ));
}

/// What is known of the insertions above row `r`.
spec fn behind(s: Seq<OpView>, b: SideView, h: SideView, r: int) -> bool {
    forall|i: int| #![trigger s[i]]
        0 <= i < s.len() ==> s[i] is Insert && s[i].line() <= rebase::last_number(b, r) + 1 && s[i].rank()
            <= rebase::last_number(h, r)
}

proof fn lemma_inserts_taken(
    b: SideView,
    h: SideView,
    changes: Seq<ChangeView>,
    n: nat,
    r: int,
)
    requires
        ready(b, h, changes, n),
        0 <= r <= b.len(),
    ensures
        rising(ops::only(taken(b, h, changes, r), true)),
        behind(ops::only(taken(b, h, changes, r), true), b, h, r),
        forall|q: int| #[trigger]
            texts(ops::only(taken(b, h, changes, r), true), q) == new_between(
                b,
                h,
                changes,
                0,
                r,
                q,
            ),
    decreases r,
{
    let e = taken(b, h, changes, r);
    let s = ops::only(e, true);
    if r == 0 {
        assert(changes.take(0) =~= seq![]);
        assert(e =~= seq![]);
        assert(s =~= seq![]);
        assert forall|q: int| #[trigger] texts(s, q) == new_between(b, h, changes, 0, 0, q) by {
            assert(texts(s, q) =~= seq![]);
        }
    } else {
        let before = ops::only(taken(b, h, changes, r - 1), true);
        lemma_inserts_taken(b, h, changes, n, r - 1);
        lemma_taken_next(b, h, changes, n, r - 1);
        lemma_last_grows(b, r - 1, r);
        lemma_last_grows(h, r - 1, r);
        lemma_last_grows(b, r - 1, b.len() as int);
        match row_edit(b, h, changes, r - 1) {
            Some(op) => {
                assert(e.drop_last() =~= taken(b, h, changes, r - 1));
                assert(e.last() == op);
                if op is Insert {
                    assert(s == before.push(op));
                    assert(h[r - 1].0 > rebase::last_number(h, r - 1));
                    assert(rebase::last_number(h, r) == h[r - 1].0);
                    assert(op.rank() == h[r - 1].0);
                    assert(op.line() == rebase::last_number(b, r - 1) + 1);
                    assert forall|i: int, j: int| #![trigger s[i], s[j]]
                        0 <= i < j < s.len() implies s[i].below(s[j]) by {
                        assert(s[i] == before[i]);
                        if j < before.len() {
                            assert(s[j] == before[j]);
                        }
                    }
                    assert forall|i: int| #![trigger s[i]] 0 <= i < s.len() implies s[i] is Insert
                        && s[i].line() <= rebase::last_number(b, r) + 1 && s[i].rank()
                        <= rebase::last_number(h, r) by {
                        if i < before.len() {
                            assert(s[i] == before[i]);
                        }
                    }
                    assert forall|q: int| #[trigger] texts(s, q) == new_between(
                        b,
                        h,
                        changes,
                        0,
                        r,
                        q,
                    ) by {
                        lemma_texts_push(before, op, q);
                        assert(texts(before, q) == new_between(b, h, changes, 0, r - 1, q));
                    }
                } else {
                    assert(s == before);
                    assert forall|i: int| #![trigger s[i]] 0 <= i < s.len() implies s[i] is Insert
                        && s[i].line() <= rebase::last_number(b, r) + 1 && s[i].rank()
                        <= rebase::last_number(h, r) by {
                        assert(s[i] == before[i]);
                    }
                    assert forall|q: int| #[trigger] texts(s, q) == new_between(
                        b,
                        h,
                        changes,
                        0,
                        r,
                        q,
                    ) by {
                        assert(texts(before, q) == new_between(b, h, changes, 0, r - 1, q));
                        assert(new_between(b, h, changes, 0, r, q) =~= new_between(
                            b,
                            h,
                            changes,
                            0,
                            r - 1,
                            q,
                        ));
                    }
                }
            },
            None => {
                assert(s == before);
                assert forall|i: int| #![trigger s[i]] 0 <= i < s.len() implies s[i] is Insert
                    && s[i].line() <= rebase::last_number(b, r) + 1 && s[i].rank()
                    <= rebase::last_number(h, r) by {
                    assert(s[i] == before[i]);
                }
                assert forall|q: int| #[trigger] texts(s, q) == new_between(
                    b,
                    h,
                    changes,
                    0,
                    r,
                    q,
                ) by {
                    assert(texts(before, q) == new_between(b, h, changes, 0, r - 1, q));
                    assert(new_between(b, h, changes, 0, r, q) =~= new_between(
                        b,
                        h,
                        changes,
                        0,
                        r - 1,
                        q,
                    ));
                }
            },
        }
    }
}

proof fn lemma_new_lines(
    b: SideView,
    h: SideView,
    changes: Seq<ChangeView>,
    n: nat,
    q: int,
)
    requires
        ready(b, h, changes, n),
    ensures
        weave::new_lines(taken(b, h, changes, b.len() as int), q) == new_between(
            b,
            h,
            changes,
            0,
            b.len() as int,
            q,
        ),
{
    let s = ops::only(taken(b, h, changes, b.len() as int), true);
    lemma_inserts_taken(b, h, changes, n, b.len() as int);
    lemma_rising_reversed(s);
    lemma_texts_reversed(s, q);
    assert(texts(s, q) == new_between(b, h, changes, 0, b.len() as int, q));
}

/// Rows above `r` put nothing before a line that comes after all of them.
proof fn lemma_new_none(
    b: SideView,
    h: SideView,
    changes: Seq<ChangeView>,
    n: nat,
    a: int,
    z: int,
    q: int,
)
    requires
        ready(b, h, changes, n),
        0 <= a <= z <= b.len(),
        forall|s: int| #![trigger rebase::last_number(b, s)]
            a <= s < z ==> rebase::last_number(b, s) + 1 != q,
    ensures
        new_between(b, h, changes, a, z, q) == Seq::<Seq<char>>::empty(),
    decreases z - a,
{
    if a < z {
        lemma_new_none(b, h, changes, n, a, z - 1, q);
        lemma_last_grows(b, z - 1, b.len() as int);
        assert(rebase::last_number(b, z - 1) + 1 != q);
        assert(new_line(b, h, changes, z - 1, q) =~= seq![]);
    }
}

// ---------------------------------------------------------------------------
// The file

/// The file from line `q` on, without the new lines before it.
spec fn rest_from(lines: Seq<Seq<char>>, e: Seq<OpView>, q: int) -> Seq<Seq<char>> {
    if q > lines.len() {
        seq![]
    } else {
        weave::kept(lines, e, q) + weave::woven_from(lines, e, q + 1)
    }
}

/// Lines without edits, and with nothing new between them, stay as they are.
proof fn lemma_untouched(lines: Seq<Seq<char>>, e: Seq<OpView>, q: int, m: int)
    requires
        1 <= q <= m <= lines.len() + 1,
        forall|p: int| #![trigger weave::edit_at(e, p)]
            q <= p < m ==> weave::edit_at(e, p) is None,
        forall|p: int| #![trigger weave::new_lines(e, p)]
            q < p <= m ==> weave::new_lines(e, p) == Seq::<Seq<char>>::empty(),
    ensures
        rest_from(lines, e, q) == lines.subrange(q - 1, m - 1) + rest_from(lines, e, m),
    decreases m - q,
{
    if q < m {
        lemma_untouched(lines, e, q + 1, m);
        lemma_woven(lines, e, q + 1);
        assert(weave::edit_at(e, q) is None);
        assert(weave::new_lines(e, q + 1) == Seq::<Seq<char>>::empty());
        assert(weave::kept(lines, e, q) =~= seq![lines[q - 1]]);
        assert(lines.subrange(q - 1, m - 1) =~= seq![lines[q - 1]] + lines.subrange(q, m - 1));
    }
    assert(rest_from(lines, e, q) =~= lines.subrange(q - 1, m - 1) + rest_from(lines, e, m));
}

/// The lines between the rows above `r` and line `m` stay as they are, where the
/// rows from `r` on show no line above `m`.
proof fn lemma_between(
    lines: Seq<Seq<char>>,
    b: SideView,
    h: SideView,
    changes: Seq<ChangeView>,
    r: int,
    m: int,
)
    requires
        ready(b, h, changes, lines.len()),
        0 <= r <= b.len(),
        rebase::last_number(b, r) < m <= lines.len() + 1,
        r < b.len() ==> b[r].0 == m,
    ensures
        ({
            let e = taken(b, h, changes, b.len() as int);
            let q = rebase::last_number(b, r) + 1;
            rest_from(lines, e, q) == lines.subrange(q - 1, m - 1) + rest_from(lines, e, m)
        }),
{
    let len = b.len() as int;
    let n = lines.len();
    let e = taken(b, h, changes, len);
    let q = rebase::last_number(b, r) + 1;
    assert forall|p: int| #![trigger weave::edit_at(e, p)] q <= p < m implies weave::edit_at(
        e,
        p,
    ) is None by {
        assert forall|s: int| #![trigger b[s]] 0 <= s < b.len() implies b[s].0 == 0 || b[s].0
            != p by {
            if s < r {
                lemma_last_grows(b, s + 1, r);
                assert(b[s].0 != 0 ==> rebase::last_number(b, s + 1) == b[s].0);
            } else if s > r && b[s].0 != 0 {
                lemma_number_grows(b, r, s);
            }
        }
        lemma_unedited(b, h, changes, n, len, p);
    }
    assert forall|p: int| #![trigger weave::new_lines(e, p)] q < p <= m implies weave::new_lines(
        e,
        p,
    ) == Seq::<Seq<char>>::empty() by {
        assert forall|s: int| #![trigger rebase::last_number(b, s)]
            0 <= s < len implies rebase::last_number(b, s) + 1 != p by {
            if s <= r {
                lemma_last_grows(b, s, r);
            } else {
                lemma_last_grows(b, r + 1, s);
                assert(rebase::last_number(b, r + 1) == b[r].0);
            }
        }
        lemma_new_lines(b, h, changes, n, p);
        lemma_new_none(b, h, changes, n, 0, len, p);
    }
    lemma_untouched(lines, e, q, m);
}

/// A row with a line of the file.
proof fn lemma_line_row(
    lines: Seq<Seq<char>>,
    b: SideView,
    h: SideView,
    changes: Seq<ChangeView>,
    r: int,
)
    requires
        ready(b, h, changes, lines.len()),
        0 <= r < b.len(),
        b[r].0 != 0,
    ensures
        ({
            let len = b.len() as int;
            let e = taken(b, h, changes, len);
            let q = rebase::last_number(b, r) + 1;
            let m = b[r].0 as int;
            &&& q <= m
            &&& m == rebase::last_number(b, r + 1)
            &&& m <= lines.len()
            &&& new_between(b, h, changes, r, len, q) == Seq::<Seq<char>>::empty()
            &&& weave::kept(lines, e, m) == row_outcome(lines, b, h, changes, r)
            &&& weave::new_lines(e, m + 1) == new_between(b, h, changes, r + 1, len, m + 1)
        }),
{
    let len = b.len() as int;
    let n = lines.len();
    let q = rebase::last_number(b, r) + 1;
    let m = b[r].0 as int;
    lemma_last_grows(b, r, len);
    lemma_last_grows(b, r + 1, len);
    assert(h[r].0 != 0 && align::starts(h[r].1, '+') ==> b[r].0 == 0 || align::starts(
        b[r].1,
        '-',
    ));
    lemma_new_first(b, h, changes, r, len, q);
    assert(new_line(b, h, changes, r, q) =~= seq![]);
    assert forall|s: int| #![trigger rebase::last_number(b, s)]
        r + 1 <= s < len implies rebase::last_number(b, s) + 1 != q by {
        lemma_last_grows(b, r + 1, s);
    }
    lemma_new_none(b, h, changes, n, r + 1, len, q);
    lemma_edit_taken(b, h, changes, n, len, r);
    lemma_new_lines(b, h, changes, n, m + 1);
    assert forall|s: int| #![trigger rebase::last_number(b, s)]
        0 <= s < r + 1 implies rebase::last_number(b, s) + 1 != m + 1 by {
        lemma_last_grows(b, s, r);
    }
    lemma_new_tail(b, h, changes, n, r + 1, m + 1);
}

/// A row without a line of the file.
proof fn lemma_gap_row(
    lines: Seq<Seq<char>>,
    b: SideView,
    h: SideView,
    changes: Seq<ChangeView>,
    r: int,
)
    requires
        ready(b, h, changes, lines.len()),
        0 <= r < b.len(),
        b[r].0 == 0,
    ensures
        rebase::last_number(b, r + 1) == rebase::last_number(b, r),
        new_line(b, h, changes, r, rebase::last_number(b, r) + 1) == row_outcome(
            lines,
            b,
            h,
            changes,
            r,
        ),
{
    lemma_last_grows(b, r, b.len() as int);
}

proof fn lemma_rows(
    lines: Seq<Seq<char>>,
    b: SideView,
    h: SideView,
    changes: Seq<ChangeView>,
    r: int,
)
    requires
        ready(b, h, changes, lines.len()),
        0 <= r <= b.len(),
    ensures
        ({
            let e = taken(b, h, changes, b.len() as int);
            let q = rebase::last_number(b, r) + 1;
            new_between(b, h, changes, r, b.len() as int, q) + rest_from(lines, e, q) == spread(
                lines,
                b,
                h,
                changes,
                q,
                r,
            )
        }),
    decreases b.len() - r,
{
    let len = b.len() as int;
    let e = taken(b, h, changes, len);
    let q = rebase::last_number(b, r) + 1;
    if r < len {
        lemma_rows(lines, b, h, changes, r + 1);
        let row = row_outcome(lines, b, h, changes, r);
        if b[r].0 != 0 {
            let m = b[r].0 as int;
            lemma_line_row(lines, b, h, changes, r);
            lemma_between(lines, b, h, changes, r, m);
            lemma_woven(lines, e, m + 1);
            assert(rest_from(lines, e, m) =~= row + (new_between(b, h, changes, r + 1, len, m + 1)
                + rest_from(lines, e, m + 1)));
            assert(new_between(b, h, changes, r, len, q) + rest_from(lines, e, q) =~= lines.subrange(
                q - 1,
                m - 1,
            ) + row + (new_between(b, h, changes, r + 1, len, m + 1) + rest_from(
                lines,
                e,
                m + 1,
            )));
        } else {
            lemma_gap_row(lines, b, h, changes, r);
            lemma_new_first(b, h, changes, r, len, q);
            assert(new_between(b, h, changes, r, len, q) + rest_from(lines, e, q) =~= row + (
            new_between(b, h, changes, r + 1, len, q) + rest_from(lines, e, q)));
        }
    } else {
        lemma_between(lines, b, h, changes, r, (lines.len() + 1) as int);
        assert(new_between(b, h, changes, r, len, q) + rest_from(lines, e, q) =~= lines.subrange(
            q - 1,
            lines.len() as int,
        ));
    }
}

/// The rows of a whole file leave nothing out.
proof fn lemma_whole(
    lines: Seq<Seq<char>>,
    b: SideView,
    h: SideView,
    changes: Seq<ChangeView>,
    r: int,
)
    requires
        unbroken(b),
        rebase::last_number(b, b.len() as int) == lines.len(),
        0 <= r <= b.len(),
    ensures
        spread(lines, b, h, changes, rebase::last_number(b, r) + 1, r) == outcome(
            lines,
            b,
            h,
            changes,
            r,
        ),
    decreases b.len() - r,
{
    let q = rebase::last_number(b, r) + 1;
    if r < b.len() {
        lemma_whole(lines, b, h, changes, r + 1);
        assert(counted(b));
        lemma_last_grows(b, r, b.len() as int);
        assert(b[r].0 != 0 ==> b[r].0 == q);
        assert(lines.subrange(q - 1, q - 1) =~= seq![]);
    }
    assert(spread(lines, b, h, changes, q, r) =~= outcome(lines, b, h, changes, r));
}

proof fn lemma_woven(lines: Seq<Seq<char>>, e: Seq<OpView>, q: int)
    requires
        q <= lines.len() + 1,
    ensures
        weave::woven_from(lines, e, q) == weave::new_lines(e, q) + rest_from(lines, e, q),
{
    assert(weave::woven_from(lines, e, q) =~= weave::new_lines(e, q) + rest_from(lines, e, q));
}

/// The new lines before the line after row `r - 1` all stand below it.
proof fn lemma_new_tail(
    b: SideView,
    h: SideView,
    changes: Seq<ChangeView>,
    n: nat,
    r: int,
    q: int,
)
    requires
        ready(b, h, changes, n),
        0 <= r <= b.len(),
        forall|s: int| #![trigger rebase::last_number(b, s)]
            0 <= s < r ==> rebase::last_number(b, s) + 1 != q,
    ensures
        new_between(b, h, changes, 0, b.len() as int, q) == new_between(
            b,
            h,
            changes,
            r,
            b.len() as int,
            q,
        ),
    decreases r,
{
    let len = b.len() as int;
    if r > 0 {
        lemma_new_tail(b, h, changes, n, r - 1, q);
        lemma_new_first(b, h, changes, r - 1, len, q);
        lemma_last_grows(b, r - 1, len);
        assert(rebase::last_number(b, r - 1) + 1 != q);
        assert(new_line(b, h, changes, r - 1, q) =~= seq![]);
        assert(new_between(b, h, changes, r - 1, len, q) =~= new_between(
            b,
            h,
            changes,
            r,
            len,
            q,
        ));
    }
}

/// Sides with rising numbers hold no gaps of their own.
proof fn lemma_gapless(side: SideView)
    requires
        ascending(side),
    ensures
        align::gapless(side),
{
    assert forall|i: int| 0 <= i < side.len() implies #[trigger] side[i] != align::gap() by {
        assert(side[i].0 > 0);
    }
}

/// Writing the accepted changes of a file makes each row of its diff what was
/// decided: where a change was accepted it is as on the right side. Everywhere
/// else the file stays as it is, the lines that the diff leaves out among them.
pub proof fn law_hunks_written(
    lines: Seq<Seq<char>>,
    base: SideView,
    head: SideView,
    changes: Seq<ChangeView>,
)
    requires
        ascending(base),
        ascending(head),
        base.len() > 0 ==> base.last().0 <= lines.len(),
        lines.len() < usize::MAX,
        decides(changes, rebase::file_changes(base, head)),
    ensures
        ({
            let (b, h) = align::aligned(base, head);
            ops::applied(lines, actions::accepted_edits(changes)) == spread(
                lines,
                b,
                h,
                changes,
                1,
                0,
            )
        }),
{
    let (b, h) = align::aligned(base, head);
    let len = b.len() as int;
    let n = lines.len();
    lemma_gapless(base);
    lemma_gapless(head);
    align::law_aligned_keeps(base, head);
    align::law_aligned_lengths(base, head);
    lemma_counted(b, base);
    lemma_counted(h, head);
    lemma_unmixed(base, head);
    assert(ready(b, h, changes, n));
    let e = taken(b, h, changes, len);
    assert(changes.take(changes.len() as int) =~= changes);
    assert(e == actions::accepted_edits(changes));
    lemma_taken_bounded(b, h, changes, n, len);
    assert(weave::workable(lines, e));
    weave::law_edits_woven(lines, e);
    lemma_rows(lines, b, h, changes, 0);
    lemma_new_lines(b, h, changes, n, 1);
    lemma_woven(lines, e, 1);
}

/// Where the diff shows a whole file, writing the accepted changes leaves what
/// becomes of its rows, and nothing else.
pub proof fn law_decisions_written(
    lines: Seq<Seq<char>>,
    base: SideView,
    head: SideView,
    changes: Seq<ChangeView>,
)
    requires
        numbered(base),
        numbered(head),
        lines.len() == base.len(),
        base.len() < usize::MAX,
        decides(changes, rebase::file_changes(base, head)),
    ensures
        ({
            let (b, h) = align::aligned(base, head);
            ops::applied(lines, actions::accepted_edits(changes)) == outcome(
                lines,
                b,
                h,
                changes,
                0,
            )
        }),
{
    let (b, h) = align::aligned(base, head);
    law_hunks_written(lines, base, head, changes);
    lemma_gapless(base);
    lemma_gapless(head);
    align::law_aligned_keeps(base, head);
    lemma_unbroken(b, base);
    lemma_whole(lines, b, h, changes, 0);
}

/// Where no change was accepted, the file stays as it is.
pub proof fn law_nothing_written(lines: Seq<Seq<char>>, changes: Seq<ChangeView>)
    requires
        forall|i: int| 0 <= i < changes.len() ==> (#[trigger] changes[i]).state
            != ChangeState::Accepted,
    ensures
        ops::applied(lines, actions::accepted_edits(changes)) == lines,
    decreases changes.len(),
{
    if changes.len() > 0 {
        let rest = changes.drop_last();
        assert(changes[changes.len() - 1].state != ChangeState::Accepted);
        assert forall|i: int| 0 <= i < rest.len() implies (#[trigger] rest[i]).state
            != ChangeState::Accepted by {
            assert(rest[i] == changes[i]);
        }
        law_nothing_written(lines, rest);
    } else {
        weave::law_no_edits(lines);
    }
}

/// The line of row `r` of a side, without its mark.
pub open spec fn shown_line(s: SideView, r: int) -> Seq<Seq<char>> {
    if s[r].0 != 0 {
        seq![align::unmarked(s[r].1)]
    } else {
        seq![]
    }
}

/// The file from line `p` on with the rows from `r` on as the right side has them.
/// The lines that no row shows stay as they are.
pub open spec fn renewed(
    lines: Seq<Seq<char>>,
    b: SideView,
    h: SideView,
    p: int,
    r: int,
) -> Seq<Seq<char>>
    decreases b.len() - r,
{
    if r >= b.len() {
        lines.subrange(p - 1, lines.len() as int)
    } else if b[r].0 != 0 {
        lines.subrange(p - 1, b[r].0 - 1) + shown_line(h, r) + renewed(
            lines,
            b,
            h,
            b[r].0 + 1,
            r + 1,
        )
    } else {
        shown_line(h, r) + renewed(lines, b, h, p, r + 1)
    }
}

/// The texts of the lines of a side from row `r` on.
spec fn side_texts(s: SideView, r: int) -> Seq<Seq<char>>
    decreases s.len() - r,
{
    if r >= s.len() {
        seq![]
    } else {
        shown_line(s, r) + side_texts(s, r + 1)
    }
}

proof fn lemma_side_texts_push(s: SideView, x: (usize, Seq<char>), r: int)
    requires
        0 <= r <= s.len(),
    ensures
        side_texts(s.push(x), r) == side_texts(s, r) + (if x.0 != 0 {
            seq![align::unmarked(x.1)]
        } else {
            seq![]
        }),
    decreases s.len() - r,
{
    let t = s.push(x);
    if r < s.len() {
        lemma_side_texts_push(s, x, r + 1);
        assert(t[r] == s[r]);
    } else {
        assert(side_texts(t, r + 1) =~= seq![]);
        assert(side_texts(s, r) =~= seq![]);
    }
    assert(side_texts(t, r) =~= side_texts(s, r) + (if x.0 != 0 {
        seq![align::unmarked(x.1)]
    } else {
        seq![]
    }));
}

proof fn lemma_side_texts(s: SideView, t: SideView)
    requires
        align::without_gaps(s) == t,
        numbered(t),
    ensures
        side_texts(s, 0) == t.map_values(|l: (usize, Seq<char>)| align::unmarked(l.1)),
    decreases s.len(),
{
    let f = |l: (usize, Seq<char>)| align::unmarked(l.1);
    if s.len() > 0 {
        let rest = s.drop_last();
        let x = s.last();
        assert(s =~= rest.push(x));
        lemma_side_texts_push(rest, x, 0);
        if x == align::gap() {
            lemma_side_texts(rest, t);
            assert(side_texts(s, 0) =~= t.map_values(f));
        } else {
            let before = align::without_gaps(rest);
            assert(t[t.len() - 1] == x);
            assert forall|i: int| 0 <= i < before.len() implies (#[trigger] before[i]).0 == i
                + 1 by {
                assert(t[i] == before[i]);
            }
            lemma_side_texts(rest, before);
            assert(side_texts(s, 0) =~= t.map_values(f));
        }
    } else {
        assert(side_texts(s, 0) =~= t.map_values(f));
    }
}

/// Whether the lines that are no changes are the same in the file and on the
/// right side.
pub open spec fn agrees(lines: Seq<Seq<char>>, b: SideView, h: SideView) -> bool {
    forall|r: int| #![trigger b[r], h[r]]
        0 <= r < b.len() && rebase::row_change(b, h, r) is None ==> if b[r].0 != 0 {
            h[r].0 != 0 && lines[b[r].0 - 1] == align::unmarked(h[r].1)
        } else {
            h[r].0 == 0
        }
}

/// Whether removed lines stand next to added lines or gaps.
spec fn paired(b: SideView, h: SideView) -> bool {
    forall|i: int| #![trigger h[i]]
        0 <= i < h.len() && h[i].0 != 0 && b[i].0 != 0 && align::starts(b[i].1, '-')
            ==> align::starts(h[i].1, '+')
}

proof fn lemma_row_accepted(
    lines: Seq<Seq<char>>,
    b: SideView,
    h: SideView,
    changes: Seq<ChangeView>,
    r: int,
)
    requires
        b.len() == h.len(),
        0 <= r < b.len(),
        agrees(lines, b, h),
        decides(changes, rebase::changes_upto(b, h, b.len() as int)),
        forall|i: int| 0 <= i < changes.len() ==> (#[trigger] changes[i]).state
            == ChangeState::Accepted,
        paired(b, h),
    ensures
        row_outcome(lines, b, h, changes, r) == shown_line(h, r),
{
    lemma_changes_prefix(b, h, r + 1, b.len() as int);
    if rebase::row_change(b, h, r) is Some {
        let k = rebase::changes_upto(b, h, r).len() as int;
        assert(changes[k].state == ChangeState::Accepted);
        assert(h[r].0 != 0 && align::starts(h[r].1, '+') ==> actions::without_mark(h[r].1)
            == align::unmarked(h[r].1)) by {
            reveal_strlit("+");
            if h[r].0 != 0 && align::starts(h[r].1, '+') {
                assert("+"@.is_prefix_of(h[r].1)) by {
                    assert(h[r].1.subrange(0, 1) =~= "+"@);
                }
            }
        }
    } else {
        assert(b[r].0 != 0 ==> lines[b[r].0 - 1] == align::unmarked(h[r].1));
    }
    assert(row_outcome(lines, b, h, changes, r) =~= shown_line(h, r));
}

proof fn lemma_all_rows(
    lines: Seq<Seq<char>>,
    b: SideView,
    h: SideView,
    changes: Seq<ChangeView>,
    p: int,
    r: int,
)
    requires
        b.len() == h.len(),
        0 <= r <= b.len(),
        agrees(lines, b, h),
        decides(changes, rebase::changes_upto(b, h, b.len() as int)),
        forall|i: int| 0 <= i < changes.len() ==> (#[trigger] changes[i]).state
            == ChangeState::Accepted,
        paired(b, h),
    ensures
        spread(lines, b, h, changes, p, r) == renewed(lines, b, h, p, r),
    decreases b.len() - r,
{
    if r < b.len() {
        lemma_row_accepted(lines, b, h, changes, r);
        if b[r].0 != 0 {
            lemma_all_rows(lines, b, h, changes, b[r].0 + 1, r + 1);
        } else {
            lemma_all_rows(lines, b, h, changes, p, r + 1);
        }
    }
}

/// The rows of a whole file, all as on the right side, are the right side.
proof fn lemma_whole_renewed(lines: Seq<Seq<char>>, b: SideView, h: SideView, r: int)
    requires
        unbroken(b),
        b.len() == h.len(),
        rebase::last_number(b, b.len() as int) == lines.len(),
        0 <= r <= b.len(),
    ensures
        renewed(lines, b, h, rebase::last_number(b, r) + 1, r) == side_texts(h, r),
    decreases b.len() - r,
{
    let q = rebase::last_number(b, r) + 1;
    if r < b.len() {
        lemma_whole_renewed(lines, b, h, r + 1);
        assert(counted(b));
        lemma_last_grows(b, r, b.len() as int);
        assert(b[r].0 != 0 ==> b[r].0 == q);
        assert(lines.subrange(q - 1, q - 1) =~= seq![]);
    }
    assert(renewed(lines, b, h, q, r) =~= side_texts(h, r));
}

proof fn lemma_paired(base: SideView, head: SideView)
    requires
        forall|j: int| 0 <= j < head.len() ==> align::starts((#[trigger] head[j]).1, '+')
            || align::starts(head[j].1, ' '),
    ensures
        ({
            let (b, h) = align::aligned(base, head);
            paired(b, h)
        }),
    decreases base.len() + head.len(),
{
    let (b, h) = align::aligned(base, head);
    if base.len() > 0 || head.len() > 0 {
        let (i, j) = align::block(base, head);
        align::lemma_marked(base, '-');
        align::lemma_marked(head, '+');
        let n = align::larger(i, j);
        let b0 = align::padded(base.take(i as int), n);
        let h0 = align::padded(head.take(j as int), n);
        let rest = head.skip(j as int);
        assert forall|k: int| 0 <= k < rest.len() implies align::starts(
            (#[trigger] rest[k]).1,
            '+',
        ) || align::starts(rest[k].1, ' ') by {
            assert(rest[k] == head[k + j]);
        }
        let (b1, h1) = align::aligned(base.skip(i as int), rest);
        lemma_paired(base.skip(i as int), rest);
        align::law_aligned_lengths(base.skip(i as int), rest);
        assert(b == b0 + b1);
        assert(h == h0 + h1);
        assert forall|r: int| #![trigger h[r]]
            0 <= r < h.len() && h[r].0 != 0 && b[r].0 != 0 && align::starts(
                b[r].1,
                '-',
            ) implies align::starts(h[r].1, '+') by {
            if r < n {
                assert(b[r] == b0[r]);
                assert(h[r] == h0[r]);
                if r < i {
                    assert(b[r] == base[r]);
                }
                if r < j {
                    assert(h[r] == head[r]);
                }
            } else {
                assert(b[r] == b1[r - n]);
                assert(h[r] == h1[r - n]);
            }
        }
    }
}

/// Where all changes were accepted, all that the diff shows becomes the right side.
/// The lines that the diff leaves out stay as they are.
pub proof fn law_all_hunks_written(
    lines: Seq<Seq<char>>,
    base: SideView,
    head: SideView,
    changes: Seq<ChangeView>,
)
    requires
        ascending(base),
        ascending(head),
        forall|j: int| 0 <= j < head.len() ==> align::starts((#[trigger] head[j]).1, '+')
            || align::starts(head[j].1, ' '),
        base.len() > 0 ==> base.last().0 <= lines.len(),
        lines.len() < usize::MAX,
        agrees(lines, align::aligned(base, head).0, align::aligned(base, head).1),
        decides(changes, rebase::file_changes(base, head)),
        forall|i: int| 0 <= i < changes.len() ==> (#[trigger] changes[i]).state
            == ChangeState::Accepted,
    ensures
        ({
            let (b, h) = align::aligned(base, head);
            ops::applied(lines, actions::accepted_edits(changes)) == renewed(lines, b, h, 1, 0)
        }),
{
    let (b, h) = align::aligned(base, head);
    law_hunks_written(lines, base, head, changes);
    align::law_aligned_lengths(base, head);
    lemma_paired(base, head);
    lemma_all_rows(lines, b, h, changes, 1, 0);
}

/// Where all changes of a whole file were accepted, the file becomes the right side.
pub proof fn law_all_written(
    lines: Seq<Seq<char>>,
    base: SideView,
    head: SideView,
    changes: Seq<ChangeView>,
)
    requires
        numbered(base),
        numbered(head),
        forall|j: int| 0 <= j < head.len() ==> align::starts((#[trigger] head[j]).1, '+')
            || align::starts(head[j].1, ' '),
        lines.len() == base.len(),
        base.len() < usize::MAX,
        agrees(lines, align::aligned(base, head).0, align::aligned(base, head).1),
        decides(changes, rebase::file_changes(base, head)),
        forall|i: int| 0 <= i < changes.len() ==> (#[trigger] changes[i]).state
            == ChangeState::Accepted,
    ensures
        ops::applied(lines, actions::accepted_edits(changes)) == head.map_values(
            |l: (usize, Seq<char>)| align::unmarked(l.1),
        ),
{
    let (b, h) = align::aligned(base, head);
    law_all_hunks_written(lines, base, head, changes);
    lemma_gapless(base);
    lemma_gapless(head);
    align::law_aligned_keeps(base, head);
    align::law_aligned_lengths(base, head);
    lemma_unbroken(b, base);
    lemma_whole_renewed(lines, b, h, 0);
    lemma_side_texts(h, head);
}

} // verus!
