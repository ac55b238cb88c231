//! Which edits of a file matter, and that their order does not.
use vstd::prelude::*;
use super::ops;
use super::ops::{Edited, OpView};
use super::weave;

verus! {

// ---------------------------------------------------------------------------
// Edits that do not apply

/// Whether an edit of a file of `len` lines is about a line: lines are counted
/// from 1, and only a new line can go past the end.
pub open spec fn applies(op: OpView, len: nat) -> bool {
    op.line() > 0 && (op is Insert || op.line() <= len)
}

/// The edits that are about a line.
pub open spec fn applying(edits: Seq<OpView>, len: nat) -> Seq<OpView>
    decreases edits.len(),
{
    if edits.len() == 0 {
        seq![]
    } else if applies(edits.last(), len) {
        applying(edits.drop_last(), len).push(edits.last())
    } else {
        applying(edits.drop_last(), len)
    }
}

proof fn lemma_applying_push(edits: Seq<OpView>, op: OpView, len: nat)
    ensures
        applying(edits.push(op), len) == if applies(op, len) {
            applying(edits, len).push(op)
        } else {
            applying(edits, len)
        },
{
    assert(edits.push(op).drop_last() =~= edits);
}

proof fn lemma_applying_from(edits: Seq<OpView>, len: nat)
    ensures
        forall|i: int| #![trigger applying(edits, len)[i]]
            0 <= i < applying(edits, len).len() ==> edits.contains(applying(edits, len)[i]),
    decreases edits.len(),
{
    if edits.len() > 0 {
        let rest = edits.drop_last();
        lemma_applying_from(rest, len);
        let s = applying(edits, len);
        let before = applying(rest, len);
        assert forall|i: int| #![trigger s[i]] 0 <= i < s.len() implies edits.contains(s[i]) by {
            if i < before.len() {
                assert(s[i] == before[i]);
                let k = choose|k: int| 0 <= k < rest.len() && rest[k] == before[i];
                assert(edits[k] == s[i]);
            } else {
                assert(s[i] == edits[edits.len() - 1]);
            }
        }
    }
}

proof fn lemma_only_applying(edits: Seq<OpView>, inserts: bool, len: nat)
    ensures
        ops::only(applying(edits, len), inserts) == applying(ops::only(edits, inserts), len),
    decreases edits.len(),
{
    if edits.len() > 0 {
        let rest = edits.drop_last();
        let op = edits.last();
        lemma_only_applying(rest, inserts, len);
        lemma_applying_push(ops::only(rest, inserts), op, len);
        assert(applying(rest, len).push(op).drop_last() =~= applying(rest, len));
    }
}

proof fn lemma_placed_applying(sorted: Seq<OpView>, op: OpView, len: nat)
    requires
        ops::is_descending(sorted),
    ensures
        applying(ops::placed(sorted, op), len) == if applies(op, len) {
            ops::placed(applying(sorted, len), op)
        } else {
            applying(sorted, len)
        },
    decreases sorted.len(),
{
    let kept = applying(sorted, len);
    if sorted.len() > 0 && sorted.last().below(op) {
        let rest = sorted.drop_last();
        let last = sorted.last();
        assert(ops::is_descending(rest)) by {
            assert forall|i: int, j: int| 0 <= i < j < rest.len() implies !(
            #[trigger] rest[i]).below(#[trigger] rest[j]) by {
                assert(rest[i] == sorted[i] && rest[j] == sorted[j]);
            }
        }
        lemma_placed_applying(rest, op, len);
        lemma_applying_push(ops::placed(rest, op), last, len);
        if applies(last, len) {
            assert(kept.drop_last() =~= applying(rest, len));
            assert(kept.last() == last);
        }
    } else {
        lemma_applying_push(sorted, op, len);
        lemma_applying_from(sorted, len);
        if kept.len() > 0 {
            let m = kept[kept.len() - 1];
            assert(sorted.contains(m));
            let i = choose|i: int| 0 <= i < sorted.len() && sorted[i] == m;
            let last = sorted[sorted.len() - 1];
            assert(!last.below(op));
            assert(i < sorted.len() - 1 ==> !sorted[i].below(last));
            assert(!kept.last().below(op));
        }
    }
}

proof fn lemma_sorted_applying(edits: Seq<OpView>, len: nat)
    ensures
        ops::descending(applying(edits, len)) == applying(ops::descending(edits), len),
    decreases edits.len(),
{
    if edits.len() > 0 {
        let rest = edits.drop_last();
        let op = edits.last();
        lemma_sorted_applying(rest, len);
        ops::lemma_descending(rest);
        lemma_placed_applying(ops::descending(rest), op, len);
        assert(applying(rest, len).push(op).drop_last() =~= applying(rest, len));
    }
}

proof fn lemma_edits_applying(start: Edited, s: Seq<OpView>, len: nat)
    requires
        start.lines.len() <= len,
    ensures
        start.edits(applying(s, len)) == start.edits(s),
        start.edits(s).lines.len() <= len,
    decreases s.len(),
{
    if s.len() > 0 {
        let rest = s.drop_last();
        lemma_edits_applying(start, rest, len);
        assert(applying(rest, len).push(s.last()).drop_last() =~= applying(rest, len));
    }
}

proof fn lemma_inserts_applying(start: Edited, s: Seq<OpView>, len: nat)
    ensures
        start.inserts(applying(s, len)) == start.inserts(s),
    decreases s.len(),
{
    if s.len() > 0 {
        let rest = s.drop_last();
        lemma_inserts_applying(start, rest, len);
        assert(applying(rest, len).push(s.last()).drop_last() =~= applying(rest, len));
    }
}

/// Edits at line 0, and replacements and deletions past the end of the file,
/// change nothing, whatever other edits there are. Where no edit applies the
/// file stays as it is.
pub proof fn law_only_applying_matter(lines: Seq<Seq<char>>, edits: Seq<OpView>)
    ensures
        ops::applied(lines, edits) == ops::applied(lines, applying(edits, lines.len())),
        applying(edits, lines.len()).len() == 0 ==> ops::applied(lines, edits) == lines,
{
    let len = lines.len();
    let start = Edited { lines, deleted: seq![] };
    let base = ops::only(edits, false);
    let new = ops::only(edits, true);
    lemma_only_applying(edits, false, len);
    lemma_only_applying(edits, true, len);
    lemma_sorted_applying(base, len);
    lemma_sorted_applying(new, len);
    lemma_edits_applying(start, ops::descending(base), len);
    lemma_inserts_applying(start.edits(ops::descending(base)), ops::descending(new), len);
    if applying(edits, len).len() == 0 {
        assert(applying(edits, len) =~= seq![]);
        weave::law_no_edits(lines);
    }
}

// ---------------------------------------------------------------------------
// The order of edits

/// Whether two edits are about the same place.
pub open spec fn same_place(a: OpView, b: OpView) -> bool {
    a.line() == b.line() && a.rank() == b.rank()
}

/// Whether no line is replaced or deleted twice, and no two new lines go before
/// the same line with the same order.
pub open spec fn apart(edits: Seq<OpView>) -> bool {
    forall|i: int, j: int| #![trigger edits[i], edits[j]]
        0 <= i < j < edits.len() && (edits[i] is Insert) == (edits[j] is Insert) ==> !same_place(
            edits[i],
            edits[j],
        )
}

/// Whether no two of `s` are about the same place.
spec fn all_apart(s: Seq<OpView>) -> bool {
    forall|i: int, j: int| #![trigger s[i], s[j]]
        0 <= i < j < s.len() ==> !same_place(s[i], s[j])
}

/// Whether every edit of `s` is above those after it.
spec fn falling(s: Seq<OpView>) -> bool {
    forall|i: int, j: int| #![trigger s[i], s[j]] 0 <= i < j < s.len() ==> s[j].below(s[i])
}

proof fn lemma_only_members(edits: Seq<OpView>, inserts: bool)
    ensures
        forall|op: OpView| #[trigger]
            ops::only(edits, inserts).contains(op) <==> edits.contains(op) && (op is Insert)
                == inserts,
        apart(edits) ==> all_apart(ops::only(edits, inserts)),
    decreases edits.len(),
{
    let s = ops::only(edits, inserts);
    if edits.len() > 0 {
        let rest = edits.drop_last();
        let last = edits[edits.len() - 1];
        let before = ops::only(rest, inserts);
        lemma_only_members(rest, inserts);
        assert forall|op: OpView| #[trigger] s.contains(op) <==> edits.contains(op) && (op is Insert)
            == inserts by {
            if s.contains(op) {
                let i = choose|i: int| 0 <= i < s.len() && s[i] == op;
                if i < before.len() {
                    assert(before[i] == op);
                    assert(before.contains(op));
                    let k = choose|k: int| 0 <= k < rest.len() && rest[k] == op;
                    assert(edits[k] == op);
                } else {
                    assert(last == op);
                }
            }
            if edits.contains(op) && (op is Insert) == inserts {
                let k = choose|k: int| 0 <= k < edits.len() && edits[k] == op;
                if k < rest.len() {
                    assert(rest[k] == op);
                    assert(before.contains(op));
                    let i = choose|i: int| 0 <= i < before.len() && before[i] == op;
                    assert(s[i] == op);
                } else {
                    assert(s[s.len() - 1] == op);
                }
            }
        }
        if apart(edits) {
            assert(apart(rest)) by {
                assert forall|i: int, j: int| #![trigger rest[i], rest[j]]
                    0 <= i < j < rest.len() && (rest[i] is Insert) == (
                    rest[j] is Insert) implies !same_place(rest[i], rest[j]) by {
                    assert(rest[i] == edits[i] && rest[j] == edits[j]);
                }
            }
            assert forall|i: int, j: int| #![trigger s[i], s[j]] 0 <= i < j < s.len() implies
                !same_place(s[i], s[j]) by {
                assert(s[i] == before[i]);
                if j < before.len() {
                    assert(s[j] == before[j]);
                } else {
                    assert(before.contains(s[i]));
                    let k = choose|k: int| 0 <= k < rest.len() && rest[k] == s[i];
                    assert(edits[k] == s[i]);
                    assert(s[j] == last);
                }
            }
        }
    }
}

proof fn lemma_placed_bag(sorted: Seq<OpView>, op: OpView)
    ensures
        ops::placed(sorted, op).to_multiset() == sorted.to_multiset().insert(op),
    decreases sorted.len(),
{
    broadcast use vstd::multiset::group_multiset_axioms;

    if sorted.len() > 0 && sorted.last().below(op) {
        let rest = sorted.drop_last();
        let last = sorted.last();
        lemma_placed_bag(rest, op);
        ops::placed(rest, op).to_multiset_ensures();
        rest.to_multiset_ensures();
        assert(rest.push(last) =~= sorted);
        assert(rest.to_multiset().insert(op).insert(last) =~= rest.to_multiset().insert(
            last,
        ).insert(op));
    } else {
        sorted.to_multiset_ensures();
    }
}

proof fn lemma_sorted_bag(s: Seq<OpView>)
    ensures
        ops::descending(s).to_multiset() == s.to_multiset(),
    decreases s.len(),
{
    if s.len() > 0 {
        let rest = s.drop_last();
        lemma_sorted_bag(rest);
        lemma_placed_bag(ops::descending(rest), s.last());
        rest.to_multiset_ensures();
        assert(rest.push(s.last()) =~= s);
    } else {
        assert(s =~= seq![]);
    }
}

/// Two lists of the same edits have the same members, and where one has none
/// twice, so has the other.
proof fn lemma_same_bag(a: Seq<OpView>, b: Seq<OpView>)
    requires
        a.to_multiset() == b.to_multiset(),
    ensures
        forall|op: OpView| #[trigger] a.contains(op) <==> b.contains(op),
        a.no_duplicates() ==> b.no_duplicates(),
{
    a.to_multiset_ensures();
    b.to_multiset_ensures();
    assert forall|op: OpView| #[trigger] a.contains(op) <==> b.contains(op) by {
        assert(a.contains(op) <==> a.to_multiset().count(op) > 0);
        assert(b.contains(op) <==> b.to_multiset().count(op) > 0);
    }
    if a.no_duplicates() {
        a.lemma_multiset_has_no_duplicates();
        b.lemma_multiset_has_no_duplicates_conv();
    }
}

proof fn lemma_sorted_falls(s: Seq<OpView>)
    requires
        all_apart(s),
    ensures
        falling(ops::descending(s)),
        forall|op: OpView| #[trigger] ops::descending(s).contains(op) <==> s.contains(op),
{
    let d = ops::descending(s);
    lemma_sorted_bag(s);
    assert(s.no_duplicates()) by {
        assert forall|i: int, j: int| 0 <= i < s.len() && 0 <= j < s.len() && i != j implies s[i]
            != s[j] by {
            if i < j {
                assert(!same_place(s[i], s[j]));
            } else {
                assert(!same_place(s[j], s[i]));
            }
        }
    }
    lemma_same_bag(s, d);
    ops::lemma_descending(s);
    assert forall|i: int, j: int| #![trigger d[i], d[j]] 0 <= i < j < d.len() implies d[j].below(
        d[i],
    ) by {
        assert(!d[i].below(d[j]));
        assert(d[i] != d[j]);
        assert(d.contains(d[i]) && d.contains(d[j]));
        assert(s.contains(d[i]) && s.contains(d[j]));
        let x = choose|x: int| 0 <= x < s.len() && s[x] == d[i];
        let y = choose|y: int| 0 <= y < s.len() && s[y] == d[j];
        if x < y {
            assert(!same_place(s[x], s[y]));
        } else {
            assert(!same_place(s[y], s[x]));
        }
    }
}

/// There is one way to put edits into falling order.
proof fn lemma_falling_once(x: Seq<OpView>, y: Seq<OpView>)
    requires
        falling(x),
        falling(y),
        forall|op: OpView| #[trigger] x.contains(op) <==> y.contains(op),
    ensures
        x == y,
    decreases x.len(),
{
    if x.len() == 0 {
        if y.len() > 0 {
            assert(y.contains(y[0]));
            assert(x.contains(y[0]));
        }
        assert(x =~= y);
    } else {
        assert(x.contains(x[0]));
        assert(y.contains(x[0]));
        let (a, b) = (x[x.len() - 1], y[y.len() - 1]);
        assert(x.contains(a) && y.contains(b));
        assert(y.contains(a) && x.contains(b));
        let i = choose|i: int| 0 <= i < y.len() && y[i] == a;
        let j = choose|j: int| 0 <= j < x.len() && x[j] == b;
        if a != b {
            assert(y[y.len() - 1].below(y[i]));
            assert(x[x.len() - 1].below(x[j]));
        }
        let (p, q) = (x.drop_last(), y.drop_last());
        assert(falling(p)) by {
            assert forall|i: int, j: int| #![trigger p[i], p[j]] 0 <= i < j < p.len() implies
                p[j].below(p[i]) by {
                assert(p[i] == x[i] && p[j] == x[j]);
            }
        }
        assert(falling(q)) by {
            assert forall|i: int, j: int| #![trigger q[i], q[j]] 0 <= i < j < q.len() implies
                q[j].below(q[i]) by {
                assert(q[i] == y[i] && q[j] == y[j]);
            }
        }
        assert forall|op: OpView| #[trigger] p.contains(op) <==> q.contains(op) by {
            lemma_without_last(x, op);
            lemma_without_last(y, op);
            assert(x.contains(op) <==> y.contains(op));
        }
        lemma_falling_once(p, q);
        assert(x =~= p.push(a));
        assert(y =~= q.push(b));
    }
}

proof fn lemma_without_last(s: Seq<OpView>, op: OpView)
    requires
        falling(s),
        s.len() > 0,
    ensures
        s.drop_last().contains(op) <==> s.contains(op) && op != s.last(),
{
    let rest = s.drop_last();
    if rest.contains(op) {
        let i = choose|i: int| 0 <= i < rest.len() && rest[i] == op;
        assert(s[i] == op);
        assert(s[s.len() - 1].below(s[i]));
    }
    if s.contains(op) && op != s.last() {
        let i = choose|i: int| 0 <= i < s.len() && s[i] == op;
        assert(rest[i] == op);
    }
}

/// In which order edits are given makes no difference, as long as no two of
/// them are about the same place. Edits that do not apply are no exception.
pub proof fn law_order_is_free(lines: Seq<Seq<char>>, a: Seq<OpView>, b: Seq<OpView>)
    requires
        a.to_multiset() == b.to_multiset(),
        apart(a),
    ensures
        ops::applied(lines, a) == ops::applied(lines, b),
{
    assert(a.no_duplicates()) by {
        assert forall|i: int, j: int| 0 <= i < a.len() && 0 <= j < a.len() && i != j implies a[i]
            != a[j] by {
            if a[i] == a[j] {
                if i < j {
                    assert(!same_place(a[i], a[j]));
                } else {
                    assert(!same_place(a[j], a[i]));
                }
            }
        }
    }
    lemma_same_bag(a, b);
    assert(apart(b)) by {
        assert forall|i: int, j: int| #![trigger b[i], b[j]]
            0 <= i < j < b.len() && (b[i] is Insert) == (b[j] is Insert) implies !same_place(
            b[i],
            b[j],
        ) by {
            assert(b.contains(b[i]) && b.contains(b[j]));
            assert(a.contains(b[i]) && a.contains(b[j]));
            let x = choose|x: int| 0 <= x < a.len() && a[x] == b[i];
            let y = choose|y: int| 0 <= y < a.len() && a[y] == b[j];
            if x < y {
                assert(!same_place(a[x], a[y]));
            } else {
                assert(x != y);
                assert(!same_place(a[y], a[x]));
            }
        }
    }
    lemma_one_order(a, b, false);
    lemma_one_order(a, b, true);
}

proof fn lemma_one_order(a: Seq<OpView>, b: Seq<OpView>, inserts: bool)
    requires
        apart(a),
        apart(b),
        forall|op: OpView| #[trigger] a.contains(op) <==> b.contains(op),
    ensures
        ops::descending(ops::only(a, inserts)) == ops::descending(ops::only(b, inserts)),
{
    let (x, y) = (ops::only(a, inserts), ops::only(b, inserts));
    lemma_only_members(a, inserts);
    lemma_only_members(b, inserts);
    lemma_sorted_falls(x);
    lemma_sorted_falls(y);
    assert forall|op: OpView| #[trigger] ops::descending(x).contains(op) <==> ops::descending(
        y,
    ).contains(op) by {
        assert(x.contains(op) <==> a.contains(op) && (op is Insert) == inserts);
        assert(y.contains(op) <==> b.contains(op) && (op is Insert) == inserts);
    }
    lemma_falling_once(ops::descending(x), ops::descending(y));
}

} // verus!
