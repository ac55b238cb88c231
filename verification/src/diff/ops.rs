//! Edits of a file, line by line.
use vstd::prelude::*;
use crate::text;

verus! {

/// An edit. Lines are counted from 1, in the file as it was.
pub enum ChangeOp {
    /// Gives a line another text.
    Replace(usize, String),
    /// Takes a line out.
    Delete(usize),
    /// Puts a new line before line `base_pos`. Of the lines that are put
    /// before the same line, those with a lower `order` come first.
    Insert { base_pos: usize, order: usize, content: String },
}

/// An edit, as a mathematical value.
pub enum OpView {
    Replace(usize, Seq<char>),
    Delete(usize),
    Insert { base_pos: usize, order: usize, content: Seq<char> },
}

impl DeepView for ChangeOp {
    type V = OpView;

    open spec fn deep_view(&self) -> OpView {
        match self {
            ChangeOp::Replace(n, s) => OpView::Replace(*n, s@),
            ChangeOp::Delete(n) => OpView::Delete(*n),
            ChangeOp::Insert { base_pos, order, content } => OpView::Insert {
                base_pos: *base_pos,
                order: *order,
                content: content@,
            },
        }
    }
}

impl Clone for ChangeOp {
    fn clone(&self) -> (r: Self)
        ensures
            r.deep_view() == self.deep_view(),
    {
        match self {
            ChangeOp::Replace(n, s) => ChangeOp::Replace(*n, s.clone()),
            ChangeOp::Delete(n) => ChangeOp::Delete(*n),
            ChangeOp::Insert { base_pos, order, content } => ChangeOp::Insert {
                base_pos: *base_pos,
                order: *order,
                content: content.clone(),
            },
        }
    }
}

impl OpView {
    /// The line that the edit is about.
    pub open spec fn line(self) -> usize {
        match self {
            OpView::Replace(n, _) => n,
            OpView::Delete(n) => n,
            OpView::Insert { base_pos, .. } => base_pos,
        }
    }

    /// The order among the edits about one line.
    pub open spec fn rank(self) -> usize {
        match self {
            OpView::Insert { order, .. } => order,
            _ => 0,
        }
    }

    /// Whether this edit comes nearer to the start of the file than `other`.
    pub open spec fn below(self, other: OpView) -> bool {
        self.line() < other.line() || (self.line() == other.line() && self.rank() < other.rank())
    }
}

/// `op` put into the descending list `sorted`, behind the edits that it is not
/// above.
pub open spec fn placed(sorted: Seq<OpView>, op: OpView) -> Seq<OpView>
    decreases sorted.len(),
{
    if sorted.len() > 0 && sorted.last().below(op) {
        placed(sorted.drop_last(), op).push(sorted.last())
    } else {
        sorted.push(op)
    }
}

/// `ops` from the end of the file to its start. Edits that compare equal keep
/// their order.
pub open spec fn descending(ops: Seq<OpView>) -> Seq<OpView>
    decreases ops.len(),
{
    if ops.len() == 0 {
        seq![]
    } else {
        placed(descending(ops.drop_last()), ops.last())
    }
}

/// The edits that put lines in, or the others.
pub open spec fn only(ops: Seq<OpView>, inserts: bool) -> Seq<OpView>
    decreases ops.len(),
{
    if ops.len() == 0 {
        seq![]
    } else if (ops.last() is Insert) == inserts {
        only(ops.drop_last(), inserts).push(ops.last())
    } else {
        only(ops.drop_last(), inserts)
    }
}

/// A file's lines, and the numbers of those that were taken out.
#[verifier::ext_equal]
pub struct Edited {
    pub lines: Seq<Seq<char>>,
    pub deleted: Seq<usize>,
}

impl Edited {
    /// After one replacement or deletion. One that is about no line changes
    /// nothing.
    pub open spec fn edit(self, op: OpView) -> Edited {
        match op {
            OpView::Replace(n, s) => if 1 <= n <= self.lines.len() {
                Edited { lines: self.lines.update(n - 1, s), ..self }
            } else {
                self
            },
            OpView::Delete(n) => if 1 <= n <= self.lines.len() {
                Edited { lines: self.lines.remove(n - 1), deleted: self.deleted.push(n) }
            } else {
                self
            },
            OpView::Insert { .. } => self,
        }
    }

    /// After several replacements and deletions.
    pub open spec fn edits(self, ops: Seq<OpView>) -> Edited
        decreases ops.len(),
    {
        if ops.len() == 0 {
            self
        } else {
            self.edits(ops.drop_last()).edit(ops.last())
        }
    }

    /// After one insertion. The line that it is about has moved up by the
    /// number of lines taken out before it, and a line past the end means the
    /// end.
    pub open spec fn insert(self, op: OpView) -> Edited {
        match op {
            OpView::Insert { base_pos, content, .. } => if base_pos == 0 {
                self
            } else {
                Edited {
                    lines: self.lines.insert(
                        insert_index(self.deleted, base_pos, self.lines.len()),
                        content,
                    ),
                    ..self
                }
            },
            _ => self,
        }
    }

    /// After several insertions.
    pub open spec fn inserts(self, ops: Seq<OpView>) -> Edited
        decreases ops.len(),
    {
        if ops.len() == 0 {
            self
        } else {
            self.inserts(ops.drop_last()).insert(ops.last())
        }
    }
}

/// How many of `deleted` lie before line `n`.
pub open spec fn count_before(deleted: Seq<usize>, n: usize) -> nat
    decreases deleted.len(),
{
    if deleted.len() == 0 {
        0
    } else {
        count_before(deleted.drop_last(), n) + if deleted.last() < n {
            1nat
        } else {
            0
        }
    }
}

/// Where a line goes that is put before line `base_pos`.
pub open spec fn insert_index(deleted: Seq<usize>, base_pos: usize, len: nat) -> int {
    let before = base_pos - count_before(deleted, base_pos) - 1;
    if before < 0 {
        0
    } else if before > len {
        len as int
    } else {
        before
    }
}

/// `lines` after the edits `ops`: replacements and deletions from the end of
/// the file to its start, and insertions after them.
pub open spec fn applied(lines: Seq<Seq<char>>, ops: Seq<OpView>) -> Seq<Seq<char>> {
    Edited { lines, deleted: seq![] }.edits(descending(only(ops, false))).inserts(
        descending(only(ops, true)),
    ).lines
}

impl ChangeOp {
    /// The line that the edit is about.
    pub fn line_num(&self) -> (r: usize)
        ensures
            r == self.deep_view().line(),
    {
        match self {
            ChangeOp::Replace(n, _) => *n,
            ChangeOp::Delete(n) => *n,
            ChangeOp::Insert { base_pos, .. } => *base_pos,
        }
    }

    /// The order among the edits about one line.
    fn rank(&self) -> (r: usize)
        ensures
            r == self.deep_view().rank(),
    {
        match self {
            ChangeOp::Insert { order, .. } => *order,
            _ => 0,
        }
    }

    /// Whether this edit comes nearer to the start of the file than `other`.
    fn is_below(&self, other: &ChangeOp) -> (r: bool)
        ensures
            r == self.deep_view().below(other.deep_view()),
    {
        self.line_num() < other.line_num() || (self.line_num() == other.line_num() && self.rank()
            < other.rank())
    }

    /// Whether the edit puts a line in.
    fn is_insert(&self) -> (r: bool)
        ensures
            r == (self.deep_view() is Insert),
    {
        match self {
            ChangeOp::Insert { .. } => true,
            _ => false,
        }
    }
}

/// The edits that a list of references stands for, last one first.
spec fn reversed(refs: Seq<&ChangeOp>) -> Seq<OpView> {
    Seq::new(refs.len(), |i: int| refs[refs.len() - 1 - i].deep_view())
}

/// Where `placed` puts an edit.
proof fn lemma_placed(sorted: Seq<OpView>, op: OpView, p: int)
    requires
        0 <= p <= sorted.len(),
        p == 0 || !sorted[p - 1].below(op),
        forall|i: int| p <= i < sorted.len() ==> (#[trigger] sorted[i]).below(op),
    ensures
        placed(sorted, op) == sorted.insert(p, op),
    decreases sorted.len(),
{
    if p < sorted.len() {
        let rest = sorted.drop_last();
        assert(sorted[sorted.len() - 1].below(op));
        assert forall|i: int| p <= i < rest.len() implies (#[trigger] rest[i]).below(op) by {
            assert(rest[i] == sorted[i]);
        }
        lemma_placed(rest, op, p);
        assert(sorted.insert(p, op) =~= rest.insert(p, op).push(sorted.last()));
    } else {
        assert(sorted.insert(p, op) =~= sorted.push(op));
    }
}

/// The insertions, or the other edits, from the start of the file to its end.
/// Read backwards, they are in descending order.
fn ascending<'a>(ops: &'a [ChangeOp], inserts: bool) -> (r: Vec<&'a ChangeOp>)
    ensures
        reversed(r@) == descending(only(ops.deep_view(), inserts)),
{
    let ghost all = ops.deep_view();
    let mut r: Vec<&'a ChangeOp> = Vec::new();
    assert(reversed(r@) =~= seq![]);
    for i in 0..ops.len()
        invariant
            all == ops.deep_view(),
            reversed(r@) == descending(only(all.take(i as int), inserts)),
    {
        let op = &ops[i];
        let ghost next = all.take(i + 1);
        assert(next.drop_last() =~= all.take(i as int));
        assert(next.last() == op.deep_view());
        if op.is_insert() == inserts {
            let ghost sorted = reversed(r@);
            let mut p: usize = r.len();
            while p > 0 && op.is_below(r[p - 1])
                invariant
                    p <= r@.len(),
                    forall|j: int| p <= j < r@.len() ==> op.deep_view().below(
                        (#[trigger] r@[j]).deep_view(),
                    ),
                decreases p,
            {
                p = p - 1;
            }
            while p > 0 && !r[p - 1].is_below(op)
                invariant
                    p <= r@.len(),
                    forall|j: int| p <= j < r@.len() ==> !(#[trigger] r@[j]).deep_view().below(
                        op.deep_view(),
                    ),
                decreases p,
            {
                p = p - 1;
            }
            proof {
                lemma_ascending(all.take(i as int), inserts);
                let q = r@.len() - p;
                assert forall|j: int| q <= j < sorted.len() implies (#[trigger] sorted[j]).below(
                    op.deep_view(),
                ) by {
                    let k = r@.len() - 1 - j;
                    assert(sorted[j] == r@[k].deep_view());
                    if p > 0 {
                        assert(sorted[q] == r@[p - 1].deep_view());
                        assert(!sorted[q].below(sorted[j]) || j == q);
                    }
                }
                if q > 0 {
                    assert(sorted[q - 1] == r@[p as int].deep_view());
                }
                lemma_placed(sorted, op.deep_view(), q);
                let filtered = only(next, inserts);
                assert(filtered.drop_last() =~= only(all.take(i as int), inserts));
                assert(reversed(r@.insert(p as int, op)) =~= sorted.insert(q, op.deep_view()));
            }
            r.insert(p, op);
        }
    }
    assert(all.take(all.len() as int) =~= all);
    r
}

/// Whether no edit of `s` is below a later one.
pub open spec fn is_descending(s: Seq<OpView>) -> bool {
    forall|i: int, j: int|
        0 <= i < j < s.len() ==> !(#[trigger] s[i]).below(#[trigger] s[j])
}

/// `descending` is in descending order.
pub proof fn lemma_descending(ops: Seq<OpView>)
    ensures
        is_descending(descending(ops)),
    decreases ops.len(),
{
    if ops.len() > 0 {
        lemma_descending(ops.drop_last());
        lemma_placed_descending(descending(ops.drop_last()), ops.last());
    }
}

proof fn lemma_ascending(ops: Seq<OpView>, inserts: bool)
    ensures
        is_descending(descending(only(ops, inserts))),
{
    lemma_descending(only(ops, inserts));
}

pub proof fn lemma_placed_descending(sorted: Seq<OpView>, op: OpView)
    requires
        is_descending(sorted),
    ensures
        is_descending(placed(sorted, op)),
        placed(sorted, op).len() == sorted.len() + 1,
        forall|i: int|
            0 <= i < placed(sorted, op).len() ==> (#[trigger] placed(sorted, op)[i]) == op
                || sorted.contains(placed(sorted, op)[i]),
    decreases sorted.len(),
{
    let r = placed(sorted, op);
    if sorted.len() > 0 && sorted.last().below(op) {
        let rest = sorted.drop_last();
        assert forall|i: int, j: int| 0 <= i < j < rest.len() implies !(#[trigger] rest[i]).below(
            #[trigger] rest[j],
        ) by {
            assert(rest[i] == sorted[i] && rest[j] == sorted[j]);
        }
        lemma_placed_descending(rest, op);
        let inner = placed(rest, op);
        assert forall|i: int, j: int| 0 <= i < j < r.len() implies !(#[trigger] r[i]).below(
            #[trigger] r[j],
        ) by {
            assert(r[i] == inner[i]);
            if j < inner.len() {
                assert(r[j] == inner[j]);
            } else {
                assert(r[j] == sorted.last());
                if inner[i] != op {
                    let k = choose|k: int| 0 <= k < rest.len() && rest[k] == inner[i];
                    assert(sorted[k] == inner[i]);
                    assert(!sorted[k].below(sorted[sorted.len() - 1]));
                }
            }
        }
        assert forall|i: int| 0 <= i < r.len() implies (#[trigger] r[i]) == op || sorted.contains(
            r[i],
        ) by {
            if i < inner.len() {
                assert(r[i] == inner[i]);
                if inner[i] != op {
                    let k = choose|k: int| 0 <= k < rest.len() && rest[k] == inner[i];
                    assert(sorted[k] == inner[i]);
                }
            } else {
                assert(r[i] == sorted[sorted.len() - 1]);
            }
        }
    } else {
        assert forall|i: int, j: int| 0 <= i < j < r.len() implies !(#[trigger] r[i]).below(
            #[trigger] r[j],
        ) by {
            assert(r[i] == sorted[i]);
            if j < sorted.len() {
                assert(r[j] == sorted[j]);
            } else {
                let last = sorted[sorted.len() - 1];
                assert(!last.below(op));
                assert(i < sorted.len() - 1 ==> !sorted[i].below(last));
            }
        }
        assert forall|i: int| 0 <= i < r.len() implies (#[trigger] r[i]) == op || sorted.contains(
            r[i],
        ) by {
            if i < sorted.len() {
                assert(r[i] == sorted[i]);
            }
        }
    }
}

/// In a list that does not ascend, the entries before line `n` are the last
/// ones.
proof fn lemma_count_before(deleted: Seq<usize>, n: usize, p: int)
    requires
        0 <= p <= deleted.len(),
        forall|i: int| 0 <= i < p ==> #[trigger] deleted[i] >= n,
        forall|i: int| p <= i < deleted.len() ==> #[trigger] deleted[i] < n,
    ensures
        count_before(deleted, n) == deleted.len() - p,
    decreases deleted.len(),
{
    if deleted.len() > 0 {
        let rest = deleted.drop_last();
        let q = if p < deleted.len() {
            p
        } else {
            p - 1
        };
        assert forall|i: int| 0 <= i < q implies #[trigger] rest[i] >= n by {
            assert(rest[i] == deleted[i]);
        }
        assert forall|i: int| q <= i < rest.len() implies #[trigger] rest[i] < n by {
            assert(rest[i] == deleted[i]);
        }
        lemma_count_before(rest, n, q);
        assert(deleted[deleted.len() - 1] == deleted.last());
    }
}

/// How many of `deleted` lie before line `n`, found by halving.
fn counted_before(deleted: &Vec<usize>, n: usize) -> (r: usize)
    requires
        forall|i: int, j: int|
            0 <= i < j < deleted@.len() ==> #[trigger] deleted@[i] >= #[trigger] deleted@[j],
    ensures
        r == count_before(deleted@, n),
{
    let mut lo: usize = 0;
    let mut hi: usize = deleted.len();
    while lo < hi
        invariant
            lo <= hi <= deleted@.len(),
            forall|i: int, j: int|
                0 <= i < j < deleted@.len() ==> #[trigger] deleted@[i] >= #[trigger] deleted@[j],
            forall|i: int| 0 <= i < lo ==> #[trigger] deleted@[i] >= n,
            forall|i: int| hi <= i < deleted@.len() ==> #[trigger] deleted@[i] < n,
        decreases hi - lo,
    {
        let mid: usize = lo + (hi - lo) / 2;
        if deleted[mid] >= n {
            lo = mid + 1;
        } else {
            hi = mid;
        }
    }
    proof {
        lemma_count_before(deleted@, n, lo as int);
    }
    deleted.len() - lo
}

/// The lines after the edits `operations`.
pub fn apply_operations(lines: &[String], operations: &[ChangeOp]) -> (r: Vec<String>)
    ensures
        r.deep_view() == applied(lines.deep_view(), operations.deep_view()),
{
    let mut r = text::copy_strings(lines);
    let mut deleted: Vec<usize> = Vec::new();
    let ghost start = Edited { lines: lines.deep_view(), deleted: seq![] };

    let base_ops = ascending(operations, false);
    let ghost sorted = reversed(base_ops@);
    proof {
        lemma_ascending(operations.deep_view(), false);
        assert(deleted@ =~= seq![]);
        assert(sorted.take(0) =~= seq![]);
        assert(r.deep_view().len() == lines.deep_view().len());
    }
    let mut i: usize = base_ops.len();
    while i > 0
        invariant
            i <= base_ops@.len(),
            sorted == reversed(base_ops@),
            is_descending(sorted),
            (Edited { lines: r.deep_view(), deleted: deleted@ }) == start.edits(
                sorted.take(sorted.len() - i),
            ),
            r@.len() <= lines@.len(),
            forall|a: int, b: int|
                0 <= a < b < deleted@.len() ==> #[trigger] deleted@[a] >= #[trigger] deleted@[b],
            forall|a: int, k: int|
                0 <= a < deleted@.len() && sorted.len() - i <= k < sorted.len()
                    ==> #[trigger] deleted@[a] >= (#[trigger] sorted[k]).line(),
        decreases i,
    {
        let ghost done = sorted.len() - i;
        let ghost before = Edited { lines: r.deep_view(), deleted: deleted@ };
        i = i - 1;
        let op = base_ops[i];
        proof {
            assert(sorted[done] == op.deep_view());
            assert(sorted.take(done + 1).drop_last() =~= sorted.take(done));
            assert forall|k: int| done < k < sorted.len() implies sorted[done].line() >= (
            #[trigger] sorted[k]).line() by {
                assert(!sorted[done].below(sorted[k]));
            }
        }
        match op {
            ChangeOp::Replace(n, s) => {
                if *n > 0 && *n <= r.len() {
                    r[*n - 1] = s.clone();
                    assert(r.deep_view() =~= before.lines.update(*n - 1, s@));
                }
            },
            ChangeOp::Delete(n) => {
                if *n > 0 && *n <= r.len() {
                    let _gone = r.remove(*n - 1);
                    deleted.push(*n);
                    assert(r.deep_view() =~= before.lines.remove(*n - 1));
                }
            },
            ChangeOp::Insert { .. } => {},
        }
        assert((Edited { lines: r.deep_view(), deleted: deleted@ }) =~= before.edit(
            op.deep_view(),
        ));
    }
    assert(sorted.take(sorted.len() as int) =~= sorted);

    let insert_ops = ascending(operations, true);
    let ghost mid = Edited { lines: r.deep_view(), deleted: deleted@ };
    let ghost ins = reversed(insert_ops@);
    proof {
        assert(ins.take(0) =~= seq![]);
    }
    let mut i: usize = insert_ops.len();
    while i > 0
        invariant
            i <= insert_ops@.len(),
            ins == reversed(insert_ops@),
            mid.deleted == deleted@,
            (Edited { lines: r.deep_view(), deleted: deleted@ }) == mid.inserts(
                ins.take(ins.len() - i),
            ),
            forall|a: int, b: int|
                0 <= a < b < deleted@.len() ==> #[trigger] deleted@[a] >= #[trigger] deleted@[b],
        decreases i,
    {
        let ghost done = ins.len() - i;
        let ghost before = Edited { lines: r.deep_view(), deleted: deleted@ };
        i = i - 1;
        let op = insert_ops[i];
        proof {
            assert(ins[done] == op.deep_view());
            assert(ins.take(done + 1).drop_last() =~= ins.take(done));
        }
        if let ChangeOp::Insert { base_pos, content, .. } = op {
            if *base_pos > 0 {
                let gone = counted_before(&deleted, *base_pos);
                let adjusted: usize = base_pos.saturating_sub(gone).saturating_sub(1);
                let at: usize = if adjusted < r.len() {
                    adjusted
                } else {
                    r.len()
                };
                r.insert(at, content.clone());
                assert(r.deep_view() =~= before.lines.insert(at as int, content@));
            }
        }
        assert((Edited { lines: r.deep_view(), deleted: deleted@ }) =~= before.insert(
            op.deep_view(),
        ));
    }
    assert(ins.take(ins.len() as int) =~= ins);
    r
}

} // verus!
