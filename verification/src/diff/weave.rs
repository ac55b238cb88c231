//! What edits make of a file.
use vstd::prelude::*;
use super::ops;
use super::ops::{Edited, OpView};

verus! {

/// The edit that replaces or deletes line `n`, where there is one.
pub open spec fn edit_at(edits: Seq<OpView>, n: int) -> Option<OpView>
    decreases edits.len(),
{
    if edits.len() == 0 {
        None
    } else if edits.last() !is Insert && edits.last().line() == n {
        Some(edits.last())
    } else {
        edit_at(edits.drop_last(), n)
    }
}

/// What becomes of line `n`: it stays, or has another text, or is gone.
pub open spec fn kept(lines: Seq<Seq<char>>, edits: Seq<OpView>, n: int) -> Seq<Seq<char>> {
    match edit_at(edits, n) {
        Some(OpView::Replace(_, s)) => seq![s],
        Some(_) => seq![],
        None => seq![lines[n - 1]],
    }
}

/// The lines that the insertions `sorted`, which go from the end of the file to
/// its start, put before line `n`.
pub open spec fn put_before(sorted: Seq<OpView>, n: int) -> Seq<Seq<char>>
    decreases sorted.len(),
{
    if sorted.len() == 0 {
        seq![]
    } else {
        match sorted.last() {
            OpView::Insert { base_pos, content, .. } => if base_pos == n {
                seq![content] + put_before(sorted.drop_last(), n)
            } else {
                put_before(sorted.drop_last(), n)
            },
            _ => put_before(sorted.drop_last(), n),
        }
    }
}

/// The lines that are put before line `n`, in ascending order.
pub open spec fn new_lines(edits: Seq<OpView>, n: int) -> Seq<Seq<char>> {
    put_before(ops::descending(ops::only(edits, true)), n)
}

/// The file from line `n` on: before each line those that are put there, then
/// what becomes of the line, and at last those that are put at the end.
pub open spec fn woven_from(lines: Seq<Seq<char>>, edits: Seq<OpView>, n: int) -> Seq<Seq<char>>
    decreases lines.len() + 1 - n,
{
    if n > lines.len() {
        new_lines(edits, n)
    } else {
        new_lines(edits, n) + kept(lines, edits, n) + woven_from(lines, edits, n + 1)
    }
}

/// Whether each edit is about a line of the file, or puts one behind the last,
/// and no line is replaced or deleted twice.
pub open spec fn workable(lines: Seq<Seq<char>>, edits: Seq<OpView>) -> bool {
    &&& forall|i: int| #![trigger edits[i]]
        0 <= i < edits.len() ==> 1 <= edits[i].line() && edits[i].line() <= lines.len() + (
        if edits[i] is Insert {
            1int
        } else {
            0
        })
    &&& forall|i: int, j: int| #![trigger edits[i], edits[j]]
        0 <= i < j < edits.len() && edits[i] !is Insert && edits[j] !is Insert ==> edits[i].line()
            != edits[j].line()
}

// ---------------------------------------------------------------------------
// Replacements and deletions

/// Whether `s` are edits about lines of a file of `len` lines, from its end to
/// its start.
spec fn strict(s: Seq<OpView>, len: nat) -> bool {
    &&& forall|i: int| #![trigger s[i]]
        0 <= i < s.len() ==> s[i] !is Insert && 1 <= s[i].line() <= len
    &&& forall|i: int, j: int| #![trigger s[i], s[j]]
        0 <= i < j < s.len() ==> s[i].line() > s[j].line()
}

spec fn distinct(s: Seq<OpView>) -> bool {
    forall|i: int, j: int| #![trigger s[i], s[j]]
        0 <= i < j < s.len() ==> s[i].line() != s[j].line()
}

spec fn absent(s: Seq<OpView>, line: int) -> bool {
    forall|i: int| #![trigger s[i]] 0 <= i < s.len() ==> s[i].line() != line
}

proof fn lemma_edit_at_absent(s: Seq<OpView>, n: int)
    requires
        absent(s, n),
    ensures
        edit_at(s, n) is None,
    decreases s.len(),
{
    if s.len() > 0 {
        assert(s[s.len() - 1].line() != n);
        lemma_edit_at_absent(s.drop_last(), n);
    }
}

proof fn lemma_placed(sorted: Seq<OpView>, op: OpView, n: int)
    requires
        ops::is_descending(sorted),
        distinct(sorted),
        absent(sorted, op.line() as int),
        op !is Insert,
        forall|i: int| #![trigger sorted[i]] 0 <= i < sorted.len() ==> sorted[i] !is Insert,
    ensures
        distinct(ops::placed(sorted, op)),
        edit_at(ops::placed(sorted, op), n) == (if op.line() == n {
            Some(op)
        } else {
            edit_at(sorted, n)
        }),
    decreases sorted.len(),
{
    let r = ops::placed(sorted, op);
    if sorted.len() > 0 && sorted.last().below(op) {
        let rest = sorted.drop_last();
        let inner = ops::placed(rest, op);
        let last = sorted[sorted.len() - 1];
        assert forall|i: int, j: int| 0 <= i < j < rest.len() implies !(#[trigger] rest[i]).below(
            #[trigger] rest[j],
        ) by {
            assert(rest[i] == sorted[i] && rest[j] == sorted[j]);
        }
        assert(distinct(rest)) by {
            assert forall|i: int, j: int| #![trigger rest[i], rest[j]]
                0 <= i < j < rest.len() implies rest[i].line() != rest[j].line() by {
                assert(rest[i] == sorted[i] && rest[j] == sorted[j]);
            }
        }
        assert(absent(rest, op.line() as int)) by {
            assert forall|i: int| #![trigger rest[i]] 0 <= i < rest.len() implies rest[i].line()
                != op.line() by {
                assert(rest[i] == sorted[i]);
            }
        }
        assert forall|i: int| #![trigger rest[i]] 0 <= i < rest.len() implies rest[i] !is Insert by {
            assert(rest[i] == sorted[i]);
        }
        lemma_placed(rest, op, n);
        ops::lemma_placed_descending(rest, op);
        assert(r.drop_last() =~= inner);
        assert(r.last() == last);
        assert forall|i: int, j: int| #![trigger r[i], r[j]] 0 <= i < j < r.len() implies r[i].line()
            != r[j].line() by {
            assert(r[i] == inner[i]);
            if j < inner.len() {
                assert(r[j] == inner[j]);
            } else if inner[i] != op {
                let k = choose|k: int| 0 <= k < rest.len() && rest[k] == inner[i];
                assert(sorted[k] == inner[i]);
            }
        }
        assert(edit_at(sorted, n) == if last.line() == n {
            Some(last)
        } else {
            edit_at(rest, n)
        });
    } else {
        assert(r.drop_last() =~= sorted);
        assert(r.last() == op);
        assert forall|i: int, j: int| #![trigger r[i], r[j]] 0 <= i < j < r.len() implies r[i].line()
            != r[j].line() by {
            assert(r[i] == sorted[i]);
            if j < sorted.len() {
                assert(r[j] == sorted[j]);
            }
        }
        if op.line() == n {
            lemma_edit_at_absent(sorted, n);
        }
    }
}

proof fn lemma_sorted_from(s: Seq<OpView>)
    ensures
        forall|i: int| #![trigger ops::descending(s)[i]]
            0 <= i < ops::descending(s).len() ==> s.contains(ops::descending(s)[i]),
    decreases s.len(),
{
    let d = ops::descending(s);
    if s.len() > 0 {
        let rest = s.drop_last();
        lemma_sorted_from(rest);
        ops::lemma_descending(rest);
        ops::lemma_placed_descending(ops::descending(rest), s.last());
        assert forall|i: int| #![trigger d[i]] 0 <= i < d.len() implies s.contains(d[i]) by {
            if d[i] == s.last() {
                assert(s[s.len() - 1] == d[i]);
            } else {
                let before = ops::descending(rest);
                let k = choose|k: int| 0 <= k < before.len() && before[k] == d[i];
                assert(rest.contains(before[k]));
                let m = choose|m: int| 0 <= m < rest.len() && rest[m] == before[k];
                assert(s[m] == d[i]);
            }
        }
    }
}

proof fn lemma_sorted_edits(s: Seq<OpView>, n: int)
    requires
        distinct(s),
        forall|i: int| #![trigger s[i]] 0 <= i < s.len() ==> s[i] !is Insert,
    ensures
        distinct(ops::descending(s)),
        edit_at(ops::descending(s), n) == edit_at(s, n),
    decreases s.len(),
{
    if s.len() > 0 {
        let rest = s.drop_last();
        let sorted = ops::descending(rest);
        assert(distinct(rest)) by {
            assert forall|i: int, j: int| #![trigger rest[i], rest[j]]
                0 <= i < j < rest.len() implies rest[i].line() != rest[j].line() by {
                assert(rest[i] == s[i] && rest[j] == s[j]);
            }
        }
        assert forall|i: int| #![trigger rest[i]] 0 <= i < rest.len() implies rest[i] !is Insert by {
            assert(rest[i] == s[i]);
        }
        lemma_sorted_edits(rest, n);
        lemma_sorted_from(rest);
        ops::lemma_descending(rest);
        assert forall|i: int| #![trigger sorted[i]] 0 <= i < sorted.len() implies sorted[i]
            !is Insert && sorted[i].line() != s.last().line() by {
            assert(rest.contains(sorted[i]));
            let k = choose|k: int| 0 <= k < rest.len() && rest[k] == sorted[i];
            assert(s[k] == sorted[i]);
            assert(s[k].line() != s[s.len() - 1].line());
        }
        assert(s[s.len() - 1] !is Insert);
        lemma_placed(sorted, s.last(), n);
    }
}

proof fn lemma_only(edits: Seq<OpView>, inserts: bool, n: int)
    ensures
        !inserts ==> edit_at(ops::only(edits, false), n) == edit_at(edits, n),
        forall|i: int| #![trigger ops::only(edits, inserts)[i]]
            0 <= i < ops::only(edits, inserts).len() ==> edits.contains(
                ops::only(edits, inserts)[i],
            ) && (ops::only(edits, inserts)[i] is Insert) == inserts,
    decreases edits.len(),
{
    if edits.len() > 0 {
        let rest = edits.drop_last();
        let before = ops::only(rest, inserts);
        let s = ops::only(edits, inserts);
        lemma_only(rest, inserts, n);
        assert forall|i: int| #![trigger s[i]] 0 <= i < s.len() implies edits.contains(s[i]) && (
        s[i] is Insert) == inserts by {
            if i < before.len() {
                assert(s[i] == before[i]);
                let k = choose|k: int| 0 <= k < rest.len() && rest[k] == before[i];
                assert(edits[k] == s[i]);
            } else {
                assert(s[i] == edits[edits.len() - 1]);
            }
        }
        if (edits.last() is Insert) == inserts {
            assert(s.drop_last() =~= before);
        }
    }
}

proof fn lemma_only_distinct(lines: Seq<Seq<char>>, edits: Seq<OpView>)
    requires
        workable(lines, edits),
    ensures
        distinct(ops::only(edits, false)),
    decreases edits.len(),
{
    if edits.len() > 0 {
        let rest = edits.drop_last();
        assert(workable(lines, rest)) by {
            assert forall|i: int| #![trigger rest[i]] 0 <= i < rest.len() implies 1
                <= rest[i].line() && rest[i].line() <= lines.len() + (if rest[i] is Insert {
                1int
            } else {
                0
            }) by {
                assert(rest[i] == edits[i]);
            }
            assert forall|i: int, j: int| #![trigger rest[i], rest[j]]
                0 <= i < j < rest.len() && rest[i] !is Insert && rest[j]
                    !is Insert implies rest[i].line() != rest[j].line() by {
                assert(rest[i] == edits[i] && rest[j] == edits[j]);
            }
        }
        lemma_only_distinct(lines, rest);
        let before = ops::only(rest, false);
        let s = ops::only(edits, false);
        if edits.last() !is Insert {
            lemma_only(rest, false, 0);
            assert forall|i: int, j: int| #![trigger s[i], s[j]]
                0 <= i < j < s.len() implies s[i].line() != s[j].line() by {
                assert(s[i] == before[i]);
                if j < before.len() {
                    assert(s[j] == before[j]);
                } else {
                    let k = choose|k: int| 0 <= k < rest.len() && rest[k] == before[i];
                    assert(edits[k] == s[i]);
                    assert(edits[edits.len() - 1] == s[j]);
                }
            }
        }
    }
}

proof fn lemma_strict(lines: Seq<Seq<char>>, edits: Seq<OpView>)
    requires
        workable(lines, edits),
    ensures
        strict(ops::descending(ops::only(edits, false)), lines.len()),
        forall|n: int| #[trigger]
            edit_at(ops::descending(ops::only(edits, false)), n) == edit_at(edits, n),
{
    let s = ops::only(edits, false);
    let d = ops::descending(s);
    lemma_only_distinct(lines, edits);
    lemma_only(edits, false, 0);
    lemma_sorted_edits(s, 0);
    lemma_sorted_from(s);
    ops::lemma_descending(s);
    assert forall|i: int| #![trigger d[i]] 0 <= i < d.len() implies d[i] !is Insert && 1
        <= d[i].line() <= lines.len() by {
        assert(s.contains(d[i]));
        let k = choose|k: int| 0 <= k < s.len() && s[k] == d[i];
        assert(edits.contains(s[k]));
        let m = choose|m: int| 0 <= m < edits.len() && edits[m] == s[k];
        assert(edits[m] == d[i]);
    }
    assert forall|n: int| #[trigger] edit_at(d, n) == edit_at(edits, n) by {
        lemma_only(edits, false, n);
        lemma_sorted_edits(s, n);
    }
}

/// What becomes of lines `a + 1` to `b`.
spec fn kept_between(lines: Seq<Seq<char>>, edits: Seq<OpView>, a: int, b: int) -> Seq<Seq<char>>
    decreases b - a,
{
    if a >= b {
        seq![]
    } else {
        kept_between(lines, edits, a, b - 1) + kept(lines, edits, b)
    }
}

proof fn lemma_kept_split(lines: Seq<Seq<char>>, edits: Seq<OpView>, a: int, m: int, b: int)
    requires
        a <= m <= b,
    ensures
        kept_between(lines, edits, a, b) == kept_between(lines, edits, a, m) + kept_between(
            lines,
            edits,
            m,
            b,
        ),
    decreases b - m,
{
    if m < b {
        lemma_kept_split(lines, edits, a, m, b - 1);
    }
    assert(kept_between(lines, edits, a, b) =~= kept_between(lines, edits, a, m) + kept_between(
        lines,
        edits,
        m,
        b,
    ));
}

proof fn lemma_kept_same(
    lines: Seq<Seq<char>>,
    x: Seq<OpView>,
    y: Seq<OpView>,
    a: int,
    b: int,
)
    requires
        forall|n: int| a < n <= b ==> #[trigger] edit_at(x, n) == edit_at(y, n),
    ensures
        kept_between(lines, x, a, b) == kept_between(lines, y, a, b),
    decreases b - a,
{
    if a < b {
        lemma_kept_same(lines, x, y, a, b - 1);
        assert(edit_at(x, b) == edit_at(y, b));
    }
}

proof fn lemma_kept_untouched(lines: Seq<Seq<char>>, edits: Seq<OpView>, a: int, b: int)
    requires
        0 <= a <= b <= lines.len(),
        forall|n: int| a < n <= b ==> #[trigger] edit_at(edits, n) is None,
    ensures
        kept_between(lines, edits, a, b) == lines.subrange(a, b),
    decreases b - a,
{
    if a < b {
        lemma_kept_untouched(lines, edits, a, b - 1);
        assert(edit_at(edits, b) is None);
        assert(lines.subrange(a, b) =~= lines.subrange(a, b - 1) + seq![lines[b - 1]]);
    } else {
        assert(lines.subrange(a, b) =~= seq![]);
    }
}

/// The lines above the last edit of `d`, which has been made last.
spec fn untouched(d: Seq<OpView>, len: nat) -> int {
    if d.len() == 0 {
        len as int
    } else {
        d.last().line() - 1
    }
}

proof fn lemma_edits(lines: Seq<Seq<char>>, d: Seq<OpView>)
    requires
        strict(d, lines.len()),
    ensures
        (Edited { lines, deleted: seq![] }).edits(d).lines == lines.take(untouched(d, lines.len()))
            + kept_between(lines, d, untouched(d, lines.len()), lines.len() as int),
    decreases d.len(),
{
    let start = Edited { lines, deleted: seq![] };
    let len = lines.len() as int;
    if d.len() == 0 {
        assert(lines.take(len) =~= lines);
        assert(lines =~= lines.take(len) + kept_between(lines, d, len, len));
    } else {
        let rest = d.drop_last();
        let op = d[d.len() - 1];
        let q = op.line() as int;
        let m = untouched(rest, lines.len());
        assert(strict(rest, lines.len())) by {
            assert forall|i: int| #![trigger rest[i]] 0 <= i < rest.len() implies rest[i]
                !is Insert && 1 <= rest[i].line() <= lines.len() by {
                assert(rest[i] == d[i]);
            }
            assert forall|i: int, j: int| #![trigger rest[i], rest[j]]
                0 <= i < j < rest.len() implies rest[i].line() > rest[j].line() by {
                assert(rest[i] == d[i] && rest[j] == d[j]);
            }
        }
        lemma_edits(lines, rest);
        if rest.len() > 0 {
            assert(rest.last() == d[rest.len() - 1]);
        }
        assert(q <= m <= len);
        let before = start.edits(rest);
        let tail = kept_between(lines, rest, m, len);
        assert(before.lines == lines.take(m) + tail);
        assert forall|n: int| q < n <= m implies #[trigger] edit_at(d, n) is None by {
            assert forall|i: int| #![trigger d[i]] 0 <= i < d.len() implies d[i].line() != n by {
                if i < rest.len() - 1 {
                    assert(d[i].line() > d[rest.len() - 1].line());
                }
            }
            lemma_edit_at_absent(d, n);
        }
        assert forall|n: int| m < n <= len implies #[trigger] edit_at(d, n) == edit_at(rest, n) by {
        }
        lemma_kept_same(lines, d, rest, m, len);
        lemma_kept_untouched(lines, d, q, m);
        lemma_kept_split(lines, d, q - 1, q, len);
        lemma_kept_split(lines, d, q, m, len);
        assert(edit_at(d, q) == Some(op));
        assert(kept_between(lines, d, q - 1, q) =~= kept(lines, d, q)) by {
            assert(kept_between(lines, d, q - 1, q - 1) =~= seq![]);
        }
        match op {
            OpView::Replace(_, s) => {
                assert(before.lines.update(q - 1, s) =~= lines.take(q - 1) + (seq![s] + (
                lines.subrange(q, m) + tail)));
            },
            OpView::Delete(_) => {
                assert(before.lines.remove(q - 1) =~= lines.take(q - 1) + (Seq::<
                    Seq<char>,
                >::empty() + (lines.subrange(q, m) + tail)));
            },
            OpView::Insert { .. } => {},
        }
    }
}

// ---------------------------------------------------------------------------
// Counting what is gone

/// How many of the lines up to `n` are gone.
spec fn gone(edits: Seq<OpView>, n: int) -> nat
    decreases n,
{
    if n <= 0 {
        0
    } else {
        gone(edits, n - 1) + if edit_at(edits, n) matches Some(OpView::Delete(_)) {
            1nat
        } else {
            0
        }
    }
}

proof fn lemma_gone_push(d: Seq<OpView>, op: OpView, n: int)
    requires
        op !is Insert,
        op.line() >= 1,
        edit_at(d, op.line() as int) is None,
    ensures
        gone(d.push(op), n) == gone(d, n) + (if op is Delete && op.line() <= n {
            1nat
        } else {
            0
        }),
    decreases n,
{
    if n > 0 {
        lemma_gone_push(d, op, n - 1);
        assert(d.push(op).drop_last() =~= d);
        assert(edit_at(d.push(op), n) == if op.line() == n {
            Some(op)
        } else {
            edit_at(d, n)
        });
    }
}

proof fn lemma_deleted(lines: Seq<Seq<char>>, d: Seq<OpView>, p: usize)
    requires
        strict(d, lines.len()),
        p >= 1,
    ensures
        ops::count_before((Edited { lines, deleted: seq![] }).edits(d).deleted, p) == gone(
            d,
            p - 1,
        ),
    decreases d.len(),
{
    let start = Edited { lines, deleted: seq![] };
    if d.len() > 0 {
        let rest = d.drop_last();
        let op = d[d.len() - 1];
        assert(strict(rest, lines.len())) by {
            assert forall|i: int| #![trigger rest[i]] 0 <= i < rest.len() implies rest[i]
                !is Insert && 1 <= rest[i].line() <= lines.len() by {
                assert(rest[i] == d[i]);
            }
            assert forall|i: int, j: int| #![trigger rest[i], rest[j]]
                0 <= i < j < rest.len() implies rest[i].line() > rest[j].line() by {
                assert(rest[i] == d[i] && rest[j] == d[j]);
            }
        }
        lemma_deleted(lines, rest, p);
        assert(absent(rest, op.line() as int)) by {
            assert forall|i: int| #![trigger rest[i]] 0 <= i < rest.len() implies rest[i].line()
                != op.line() by {
                assert(rest[i] == d[i]);
            }
        }
        lemma_edit_at_absent(rest, op.line() as int);
        lemma_gone_push(rest, op, p - 1);
        assert(d =~= rest.push(op));
        lemma_edits(lines, rest);
        if rest.len() > 0 {
            assert(rest.last() == d[rest.len() - 1]);
        }
        let before = start.edits(rest);
        assert(before.lines.len() >= op.line());
        if op is Delete {
            assert(before.deleted.push(op.line()).drop_last() =~= before.deleted);
        }
    } else {
        lemma_gone_none(d, p - 1);
    }
}

proof fn lemma_gone_none(d: Seq<OpView>, n: int)
    requires
        d.len() == 0,
    ensures
        gone(d, n) == 0,
    decreases n,
{
    if n > 0 {
        lemma_gone_none(d, n - 1);
    }
}

proof fn lemma_kept_len(lines: Seq<Seq<char>>, edits: Seq<OpView>, n: int)
    requires
        0 <= n,
    ensures
        kept_between(lines, edits, 0, n).len() + gone(edits, n) == n,
    decreases n,
{
    if n > 0 {
        lemma_kept_len(lines, edits, n - 1);
        lemma_edit_kind(edits, n);
    }
}

proof fn lemma_edit_kind(edits: Seq<OpView>, n: int)
    ensures
        edit_at(edits, n) matches Some(op) ==> op !is Insert,
    decreases edits.len(),
{
    if edits.len() > 0 {
        lemma_edit_kind(edits.drop_last(), n);
    }
}

proof fn lemma_gone_same(x: Seq<OpView>, y: Seq<OpView>, n: int)
    requires
        forall|k: int| #[trigger] edit_at(x, k) == edit_at(y, k),
    ensures
        gone(x, n) == gone(y, n),
    decreases n,
{
    if n > 0 {
        lemma_gone_same(x, y, n - 1);
        assert(edit_at(x, n) == edit_at(y, n));
    }
}

// ---------------------------------------------------------------------------
// Insertions

/// The file from line `n` on, with the insertions `sorted`.
spec fn woven_with(
    lines: Seq<Seq<char>>,
    edits: Seq<OpView>,
    sorted: Seq<OpView>,
    n: int,
) -> Seq<Seq<char>>
    decreases lines.len() + 1 - n,
{
    if n > lines.len() {
        put_before(sorted, n)
    } else {
        put_before(sorted, n) + kept(lines, edits, n) + woven_with(lines, edits, sorted, n + 1)
    }
}

proof fn lemma_put_absent(sorted: Seq<OpView>, n: int)
    requires
        absent(sorted, n),
    ensures
        put_before(sorted, n) == Seq::<Seq<char>>::empty(),
    decreases sorted.len(),
{
    if sorted.len() > 0 {
        assert(sorted[sorted.len() - 1].line() != n);
        lemma_put_absent(sorted.drop_last(), n);
    }
}

proof fn lemma_woven_down(
    lines: Seq<Seq<char>>,
    edits: Seq<OpView>,
    sorted: Seq<OpView>,
    p: int,
    q: int,
)
    requires
        1 <= p <= q <= lines.len() + 1,
        forall|i: int| #![trigger sorted[i]] 0 <= i < sorted.len() ==> sorted[i].line() >= q,
    ensures
        kept_between(lines, edits, 0, p - 1) + woven_with(lines, edits, sorted, p) == kept_between(
            lines,
            edits,
            0,
            q - 1,
        ) + woven_with(lines, edits, sorted, q),
    decreases q - p,
{
    if p < q {
        lemma_woven_down(lines, edits, sorted, p + 1, q);
        lemma_put_absent(sorted, p);
        assert(kept_between(lines, edits, 0, p - 1) + woven_with(lines, edits, sorted, p)
            =~= kept_between(lines, edits, 0, p) + woven_with(lines, edits, sorted, p + 1));
    }
}

proof fn lemma_woven_same(
    lines: Seq<Seq<char>>,
    edits: Seq<OpView>,
    x: Seq<OpView>,
    y: Seq<OpView>,
    n: int,
)
    requires
        forall|k: int| n <= k ==> #[trigger] put_before(x, k) == put_before(y, k),
    ensures
        woven_with(lines, edits, x, n) == woven_with(lines, edits, y, n),
    decreases lines.len() + 1 - n,
{
    assert(put_before(x, n) == put_before(y, n));
    if n <= lines.len() {
        lemma_woven_same(lines, edits, x, y, n + 1);
    }
}

proof fn lemma_inserts(
    lines: Seq<Seq<char>>,
    edits: Seq<OpView>,
    start: Edited,
    sorted: Seq<OpView>,
    p: int,
)
    requires
        start.lines == kept_between(lines, edits, 0, lines.len() as int),
        forall|n: usize| n >= 1 ==> #[trigger] ops::count_before(start.deleted, n) == gone(
            edits,
            n - 1,
        ),
        ops::is_descending(sorted),
        forall|i: int| #![trigger sorted[i]]
            0 <= i < sorted.len() ==> sorted[i] is Insert && 1 <= sorted[i].line() <= lines.len()
                + 1,
        1 <= p <= lines.len() + 1,
        sorted.len() > 0 ==> p <= sorted.last().line(),
    ensures
        start.inserts(sorted).lines == kept_between(lines, edits, 0, p - 1) + woven_with(
            lines,
            edits,
            sorted,
            p,
        ),
        start.inserts(sorted).deleted == start.deleted,
    decreases sorted.len(),
{
    let len = lines.len() as int;
    if sorted.len() == 0 {
        lemma_woven_down(lines, edits, sorted, p, len + 1);
        assert(woven_with(lines, edits, sorted, len + 1) =~= seq![]);
        assert(start.lines =~= kept_between(lines, edits, 0, len) + woven_with(
            lines,
            edits,
            sorted,
            len + 1,
        ));
    } else {
        let rest = sorted.drop_last();
        let op = sorted[sorted.len() - 1];
        let q = op.line() as int;
        assert forall|i: int, j: int| 0 <= i < j < rest.len() implies !(#[trigger] rest[i]).below(
            #[trigger] rest[j],
        ) by {
            assert(rest[i] == sorted[i] && rest[j] == sorted[j]);
        }
        assert forall|i: int| #![trigger rest[i]] 0 <= i < rest.len() implies rest[i] is Insert && 1
            <= rest[i].line() <= lines.len() + 1 && rest[i].line() >= q by {
            assert(rest[i] == sorted[i]);
            assert(!sorted[i].below(op));
        }
        if rest.len() > 0 {
            assert(rest.last() == rest[rest.len() - 1]);
        }
        lemma_inserts(lines, edits, start, rest, q);
        let before = start.inserts(rest);
        let front = kept_between(lines, edits, 0, q - 1);
        lemma_kept_len(lines, edits, q - 1);
        assert(ops::count_before(start.deleted, op.line()) == gone(edits, q - 1));
        assert(ops::insert_index(before.deleted, op.line(), before.lines.len()) == front.len());
        let content = op->content;
        assert(before.lines.insert(front.len() as int, content) =~= front + (seq![content]
            + woven_with(lines, edits, rest, q)));
        assert(sorted.drop_last() =~= rest);
        assert(put_before(sorted, q) == seq![content] + put_before(rest, q));
        assert forall|k: int| q + 1 <= k implies #[trigger] put_before(sorted, k) == put_before(
            rest,
            k,
        ) by {
        }
        lemma_woven_same(lines, edits, sorted, rest, q + 1);
        assert(woven_with(lines, edits, sorted, q) =~= seq![content] + woven_with(
            lines,
            edits,
            rest,
            q,
        ));
        assert forall|i: int| #![trigger sorted[i]] 0 <= i < sorted.len() implies sorted[i].line()
            >= q by {
            if i < rest.len() {
                assert(sorted[i] == rest[i]);
            }
        }
        lemma_woven_down(lines, edits, sorted, p, q);
    }
}

proof fn lemma_woven_is(lines: Seq<Seq<char>>, edits: Seq<OpView>, n: int)
    ensures
        woven_with(lines, edits, ops::descending(ops::only(edits, true)), n) == woven_from(
            lines,
            edits,
            n,
        ),
    decreases lines.len() + 1 - n,
{
    if n <= lines.len() {
        lemma_woven_is(lines, edits, n + 1);
    }
}

/// Edits do what they say, all at once: every line that is not edited stays in
/// its place, a replaced line has its new text, a deleted line is gone, and new
/// lines stand before the lines that they were put before, in their order.
pub proof fn law_edits_woven(lines: Seq<Seq<char>>, edits: Seq<OpView>)
    requires
        workable(lines, edits),
    ensures
        ops::applied(lines, edits) == woven_from(lines, edits, 1),
{
    let len = lines.len() as int;
    let d = ops::descending(ops::only(edits, false));
    let s = ops::descending(ops::only(edits, true));
    let start = Edited { lines, deleted: seq![] };
    let after = start.edits(d);
    lemma_strict(lines, edits);
    lemma_edits(lines, d);
    let m = untouched(d, lines.len());
    if d.len() > 0 {
        assert(d.last() == d[d.len() - 1]);
    }
    assert forall|n: int| 0 < n <= m implies #[trigger] edit_at(d, n) is None by {
        assert forall|i: int| #![trigger d[i]] 0 <= i < d.len() implies d[i].line() != n by {
            if i < d.len() - 1 {
                assert(d[i].line() > d[d.len() - 1].line());
            }
        }
        lemma_edit_at_absent(d, n);
    }
    lemma_kept_untouched(lines, d, 0, m);
    lemma_kept_split(lines, d, 0, m, len);
    assert(lines.take(m) =~= lines.subrange(0, m));
    lemma_kept_same(lines, d, edits, 0, len);
    assert(after.lines == kept_between(lines, edits, 0, len));
    assert forall|n: usize| n >= 1 implies #[trigger] ops::count_before(after.deleted, n) == gone(
        edits,
        n - 1,
    ) by {
        lemma_deleted(lines, d, n);
        lemma_gone_same(d, edits, n - 1);
    }
    let only = ops::only(edits, true);
    ops::lemma_descending(only);
    lemma_sorted_from(only);
    lemma_only(edits, true, 0);
    assert forall|i: int| #![trigger s[i]] 0 <= i < s.len() implies s[i] is Insert && 1
        <= s[i].line() <= lines.len() + 1 by {
        assert(only.contains(s[i]));
        let k = choose|k: int| 0 <= k < only.len() && only[k] == s[i];
        assert(edits.contains(only[k]));
        let j = choose|j: int| 0 <= j < edits.len() && edits[j] == only[k];
        assert(edits[j] == s[i]);
    }
    if s.len() > 0 {
        assert(s.last() == s[s.len() - 1]);
    }
    lemma_inserts(lines, edits, after, s, 1);
    lemma_woven_is(lines, edits, 1);
    assert(kept_between(lines, edits, 0, 0) =~= seq![]);
    assert(after.inserts(s).lines =~= woven_from(lines, edits, 1));
}

proof fn lemma_single(op: OpView)
    ensures
        ops::descending(ops::only(seq![op], op is Insert)) == seq![op],
        ops::descending(ops::only(seq![op], op !is Insert)) == Seq::<OpView>::empty(),
{
    let none = Seq::<OpView>::empty();
    assert(seq![op].drop_last() =~= none);
    assert(ops::only(none, true) =~= none);
    assert(ops::only(none, false) =~= none);
    assert(none.push(op) =~= seq![op]);
    assert(ops::only(seq![op], op is Insert) =~= seq![op]);
    assert(ops::only(seq![op], op !is Insert) =~= none);
    assert(ops::descending(none) =~= none);
    assert(ops::placed(none, op) =~= seq![op]);
}

/// A line that is taken out and put back before the line that took its place
/// gives the file back, whatever order it is given.
pub proof fn law_deleted_put_back(lines: Seq<Seq<char>>, n: usize, order: usize)
    requires
        1 <= n <= lines.len(),
    ensures
        ({
            let mid = ops::applied(lines, seq![OpView::Delete(n)]);
            &&& mid.len() == lines.len() - 1
            &&& ops::applied(
                mid,
                seq![OpView::Insert { base_pos: n, order, content: lines[n - 1] }],
            ) == lines
        }),
{
    let none = Seq::<OpView>::empty();
    let out = OpView::Delete(n);
    let back = OpView::Insert { base_pos: n, order, content: lines[n - 1] };
    lemma_single(out);
    lemma_single(back);
    assert(seq![out].drop_last() =~= none);
    assert(seq![back].drop_last() =~= none);
    let start = Edited { lines, deleted: seq![] };
    assert(start.edits(none) == start);
    let mid = lines.remove(n - 1);
    assert(start.edits(seq![out]).lines == mid);
    assert(start.edits(seq![out]).inserts(none) == start.edits(seq![out]));
    assert(ops::applied(lines, seq![out]) == mid);
    let again = Edited { lines: mid, deleted: seq![] };
    assert(again.edits(none) == again);
    assert(again.inserts(none) == again);
    assert(ops::count_before(again.deleted, n) == 0);
    assert(mid.insert(n - 1, lines[n - 1]) =~= lines);
}

/// Without edits nothing changes.
pub proof fn law_no_edits(lines: Seq<Seq<char>>)
    ensures
        ops::applied(lines, seq![]) == lines,
{
    assert(ops::only(seq![], false) =~= seq![]);
    assert(ops::only(seq![], true) =~= seq![]);
    assert(ops::descending(seq![]) =~= seq![]);
}

} // verus!
