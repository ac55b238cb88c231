//! The two sides of a diff, next to each other or one below the other.
use vstd::prelude::*;
use super::width;
use crate::diff::{LineChange, SideView};
use crate::text;

verus! {

/// A line of a side, as a mathematical value.
pub type LineView = (usize, Seq<char>);

/// The columns of the line number and the mark.
pub const GUTTER_WIDTH: usize = 7;

/// The line that stands where a side has none.
pub open spec fn gap() -> LineView {
    (0, seq![])
}

/// Whether `s` starts with `c`.
pub open spec fn starts(s: Seq<char>, c: char) -> bool {
    s.len() > 0 && s[0] == c
}

/// How many lines at the start of `side` carry the mark `mark`.
pub open spec fn marked(side: SideView, mark: char) -> nat
    decreases side.len(),
{
    if side.len() > 0 && starts(side[0].1, mark) {
        1 + marked(side.skip(1), mark)
    } else {
        0
    }
}

/// How many lines of the two sides belong together: the removed and the added
/// lines of one change, or one line of each side.
pub open spec fn block(base: SideView, head: SideView) -> (nat, nat) {
    let i = marked(base, '-');
    let j = marked(head, '+');
    if i > 0 || j > 0 {
        (i, j)
    } else {
        (
            if base.len() > 0 {
                1
            } else {
                0
            },
            if head.len() > 0 {
                1
            } else {
                0
            },
        )
    }
}

/// The greater one.
pub open spec fn larger(a: nat, b: nat) -> nat {
    if a >= b {
        a
    } else {
        b
    }
}

/// `side` with gaps at its end that make up `n` lines.
pub open spec fn padded(side: SideView, n: nat) -> SideView {
    Seq::new(
        n,
        |i: int|
            if i < side.len() {
                side[i]
            } else {
                gap()
            },
    )
}

pub proof fn lemma_marked(side: SideView, mark: char)
    ensures
        marked(side, mark) <= side.len(),
        forall|k: int| 0 <= k < marked(side, mark) ==> starts((#[trigger] side[k]).1, mark),
        marked(side, mark) < side.len() ==> !starts(side[marked(side, mark) as int].1, mark),
    decreases side.len(),
{
    if side.len() > 0 && starts(side[0].1, mark) {
        lemma_marked(side.skip(1), mark);
        assert forall|k: int| 0 <= k < marked(side, mark) implies starts(
            (#[trigger] side[k]).1,
            mark,
        ) by {
            if k > 0 {
                assert(side.skip(1)[k - 1] == side[k]);
            }
        }
    }
}

/// The two sides next to each other. What belongs together stands in the same
/// rows, and the shorter part is made up with gaps.
pub open spec fn aligned(base: SideView, head: SideView) -> (SideView, SideView)
    decreases base.len() + head.len(),
{
    if base.len() == 0 && head.len() == 0 {
        (seq![], seq![])
    } else {
        let (i, j) = block(base, head);
        proof {
            lemma_marked(base, '-');
            lemma_marked(head, '+');
        }
        let rest = aligned(base.skip(i as int), head.skip(j as int));
        (
            padded(base.take(i as int), larger(i, j)) + rest.0,
            padded(head.take(j as int), larger(i, j)) + rest.1,
        )
    }
}

/// The two sides one below the other: the removed lines of a change before the
/// added ones, and a line of both sides once, as the right side numbers it.
pub open spec fn unified(base: SideView, head: SideView) -> SideView
    decreases base.len() + head.len(),
{
    if base.len() == 0 && head.len() == 0 {
        seq![]
    } else {
        let (i, j) = block(base, head);
        proof {
            lemma_marked(base, '-');
            lemma_marked(head, '+');
        }
        let rest = unified(base.skip(i as int), head.skip(j as int));
        if marked(base, '-') > 0 || marked(head, '+') > 0 {
            base.take(i as int) + head.take(j as int) + rest
        } else if head.len() > 0 {
            seq![head[0]] + rest
        } else {
            seq![base[0]] + rest
        }
    }
}

// ---------------------------------------------------------------------------
// Rows

/// `n`, but at most the largest number.
pub open spec fn capped(n: nat) -> usize {
    if n <= usize::MAX {
        n as usize
    } else {
        usize::MAX
    }
}

/// The rows that `line_width` columns take in rows of `available` columns. An
/// empty line takes one.
pub open spec fn rows_for(line_width: nat, available: nat) -> nat {
    if available == 0 || line_width == 0 {
        1
    } else {
        line_width / available + if line_width % available == 0 {
            0nat
        } else {
            1
        }
    }
}

/// A line without its mark.
pub open spec fn unmarked(s: Seq<char>) -> Seq<char> {
    if starts(s, '+') || starts(s, '-') || starts(s, ' ') {
        s.skip(1)
    } else {
        s
    }
}

/// The rows that a line takes, with its number and its mark, when it is
/// wrapped. A gap takes one.
pub open spec fn line_rows(line: LineView, pane_width: usize) -> nat {
    if line.0 == 0 {
        1
    } else {
        rows_for(
            capped(GUTTER_WIDTH as nat + width::str_columns(unmarked(line.1)) as nat) as nat,
            pane_width as nat,
        )
    }
}

/// The rows that the lines of a side take.
pub open spec fn side_rows(side: SideView, pane_width: usize) -> nat
    decreases side.len(),
{
    if side.len() == 0 {
        0
    } else {
        side_rows(side.drop_last(), pane_width) + line_rows(side.last(), pane_width)
    }
}

/// The rows that two sides take next to each other: each pair of lines as many
/// as the longer one.
pub open spec fn paired_rows(base: SideView, head: SideView, pane_width: usize) -> nat
    decreases base.len(),
{
    if base.len() == 0 || head.len() == 0 {
        0
    } else {
        paired_rows(base.drop_last(), head.drop_last(), pane_width) + larger(
            line_rows(base.last(), pane_width),
            line_rows(head.last(), pane_width),
        )
    }
}

/// `n` gaps.
pub open spec fn gaps(n: nat) -> SideView {
    Seq::new(n, |i: int| gap())
}

/// One of two aligned sides, with a gap below each line for each row that the
/// line next to it takes more.
pub open spec fn wrap_padded(side: SideView, other: SideView, pane_width: usize) -> SideView
    decreases side.len(),
{
    if side.len() == 0 || other.len() == 0 {
        seq![]
    } else {
        let own = line_rows(side.last(), pane_width);
        let rows = larger(own, line_rows(other.last(), pane_width));
        wrap_padded(side.drop_last(), other.drop_last(), pane_width).push(side.last()) + gaps(
            (rows - own) as nat,
        )
    }
}

// ---------------------------------------------------------------------------
// Computing them

/// Whether `line` carries the mark `mark`.
fn carries(line: &LineChange, mark: char) -> (r: bool)
    ensures
        r == starts(line.deep_view().1, mark),
{
    let s = line.1.as_str();
    s.unicode_len() > 0 && s.get_char(0) == mark
}

/// A copy of a line.
pub fn copy_line(line: &LineChange) -> (r: LineChange)
    ensures
        r.deep_view() == line.deep_view(),
{
    (line.0, line.1.clone())
}

/// The end of the lines from `from` on that carry the mark `mark`.
fn marked_end(side: &[LineChange], from: usize, mark: char) -> (r: usize)
    requires
        from <= side@.len(),
    ensures
        from <= r <= side@.len(),
        r - from == marked(side.deep_view().skip(from as int), mark),
{
    let ghost v = side.deep_view();
    let mut i: usize = from;
    while i < side.len() && carries(&side[i], mark)
        invariant
            from <= i <= side@.len(),
            v == side.deep_view(),
            marked(v.skip(from as int), mark) == i - from + marked(v.skip(i as int), mark),
        decreases side@.len() - i,
    {
        proof {
            assert(v.skip(i as int)[0] == side@[i as int].deep_view());
            assert(v.skip(i as int).skip(1) =~= v.skip(i + 1));
        }
        i = i + 1;
    }
    proof {
        if i < side@.len() {
            assert(v.skip(i as int)[0] == side@[i as int].deep_view());
        }
    }
    i
}

/// The ends of the lines from `bi` and `hi` on that belong together, and
/// whether they are a change.
fn block_ends(base: &[LineChange], head: &[LineChange], bi: usize, hi: usize) -> (r: (
    usize,
    usize,
    bool,
))
    requires
        bi <= base@.len(),
        hi <= head@.len(),
        bi < base@.len() || hi < head@.len(),
    ensures
        ({
            let b = base.deep_view().skip(bi as int);
            let h = head.deep_view().skip(hi as int);
            &&& r.0 - bi == block(b, h).0
            &&& r.1 - hi == block(b, h).1
            &&& bi <= r.0 <= base@.len()
            &&& hi <= r.1 <= head@.len()
            &&& r.0 + r.1 > bi + hi
            &&& r.2 == (marked(b, '-') > 0 || marked(h, '+') > 0)
        }),
{
    let b_end = marked_end(base, bi, '-');
    let h_end = marked_end(head, hi, '+');
    assert(base.deep_view().skip(bi as int).len() == base@.len() - bi);
    assert(head.deep_view().skip(hi as int).len() == head@.len() - hi);
    if b_end > bi || h_end > hi {
        (b_end, h_end, true)
    } else {
        (
            if bi < base.len() {
                bi + 1
            } else {
                bi
            },
            if hi < head.len() {
                hi + 1
            } else {
                hi
            },
            false,
        )
    }
}

/// One step of the alignment.
proof fn lemma_align_step(b: SideView, h: SideView, bi: int, hi: int)
    requires
        0 <= bi <= b.len(),
        0 <= hi <= h.len(),
        bi < b.len() || hi < h.len(),
    ensures
        ({
            let (i, j) = block(b.skip(bi), h.skip(hi));
            let n = larger(i, j);
            let rest = aligned(b.skip(bi + i), h.skip(hi + j));
            aligned(b.skip(bi), h.skip(hi)) == (
                padded(b.subrange(bi, bi + i), n) + rest.0,
                padded(h.subrange(hi, hi + j), n) + rest.1,
            )
        }),
{
    let bs = b.skip(bi);
    let hs = h.skip(hi);
    let (i, j) = block(bs, hs);
    lemma_marked(bs, '-');
    lemma_marked(hs, '+');
    assert(bs.take(i as int) =~= b.subrange(bi, bi + i));
    assert(hs.take(j as int) =~= h.subrange(hi, hi + j));
    assert(bs.skip(i as int) =~= b.skip(bi + i));
    assert(hs.skip(j as int) =~= h.skip(hi + j));
}

/// Adds the lines from `from` to `to`, and gaps that make up `n` lines.
fn push_padded(out: &mut Vec<LineChange>, side: &[LineChange], from: usize, to: usize, n: usize)
    requires
        from <= to <= side@.len(),
        to - from <= n,
    ensures
        final(out).deep_view() == old(out).deep_view() + padded(
            side.deep_view().subrange(from as int, to as int),
            n as nat,
        ),
{
    let ghost start = out.deep_view();
    let ghost part = side.deep_view().subrange(from as int, to as int);
    let ghost whole = padded(part, n as nat);
    assert(start + whole.take(0) =~= start);
    for k in 0..n
        invariant
            from <= to <= side@.len(),
            part == side.deep_view().subrange(from as int, to as int),
            whole == padded(part, n as nat),
            out.deep_view() == start + whole.take(k as int),
    {
        let ghost before = out.deep_view();
        let line = if k < to - from {
            copy_line(&side[from + k])
        } else {
            (0, String::new())
        };
        out.push(line);
        proof {
            assert(k < to - from ==> part[k as int] == side@[from + k].deep_view());
            assert(line.deep_view() == whole[k as int]);
            assert(out.deep_view() =~= before.push(line.deep_view()));
            assert(whole.take(k + 1) =~= whole.take(k as int).push(whole[k as int]));
            assert(start + whole.take(k + 1) =~= (start + whole.take(k as int)).push(
                whole[k as int],
            ));
        }
    }
    assert(whole.take(n as int) =~= whole);
}

/// The two sides next to each other.
pub fn align_lines(base_lines: &[LineChange], head_lines: &[LineChange]) -> (r: (
    Vec<LineChange>,
    Vec<LineChange>,
))
    ensures
        (r.0.deep_view(), r.1.deep_view()) == aligned(
            base_lines.deep_view(),
            head_lines.deep_view(),
        ),
{
    let ghost b = base_lines.deep_view();
    let ghost h = head_lines.deep_view();
    let mut out_base: Vec<LineChange> = Vec::new();
    let mut out_head: Vec<LineChange> = Vec::new();
    let mut bi: usize = 0;
    let mut hi: usize = 0;
    proof {
        assert(b.skip(0) =~= b);
        assert(h.skip(0) =~= h);
        assert(out_base.deep_view() + aligned(b, h).0 =~= aligned(b, h).0);
        assert(out_head.deep_view() + aligned(b, h).1 =~= aligned(b, h).1);
    }
    while bi < base_lines.len() || hi < head_lines.len()
        invariant
            bi <= base_lines@.len(),
            hi <= head_lines@.len(),
            b == base_lines.deep_view(),
            h == head_lines.deep_view(),
            aligned(b, h).0 == out_base.deep_view() + aligned(b.skip(bi as int), h.skip(hi as int)).0,
            aligned(b, h).1 == out_head.deep_view() + aligned(b.skip(bi as int), h.skip(hi as int)).1,
        decreases base_lines@.len() - bi + head_lines@.len() - hi,
    {
        let ghost old_base = out_base.deep_view();
        let ghost old_head = out_head.deep_view();
        let (b_end, h_end, _change) = block_ends(base_lines, head_lines, bi, hi);
        let n: usize = if b_end - bi >= h_end - hi {
            b_end - bi
        } else {
            h_end - hi
        };
        push_padded(&mut out_base, base_lines, bi, b_end, n);
        push_padded(&mut out_head, head_lines, hi, h_end, n);
        proof {
            lemma_align_step(b, h, bi as int, hi as int);
            let rest = aligned(b.skip(b_end as int), h.skip(h_end as int));
            let pb = padded(b.subrange(bi as int, b_end as int), n as nat);
            let ph = padded(h.subrange(hi as int, h_end as int), n as nat);
            assert(old_base + (pb + rest.0) =~= (old_base + pb) + rest.0);
            assert(old_head + (ph + rest.1) =~= (old_head + ph) + rest.1);
        }
        bi = b_end;
        hi = h_end;
    }
    proof {
        let rest = aligned(b.skip(bi as int), h.skip(hi as int));
        assert(out_base.deep_view() + rest.0 =~= out_base.deep_view());
        assert(out_head.deep_view() + rest.1 =~= out_head.deep_view());
    }
    (out_base, out_head)
}

/// Adds the lines from `from` to `to`.
fn push_lines(out: &mut Vec<LineChange>, side: &[LineChange], from: usize, to: usize)
    requires
        from <= to <= side@.len(),
    ensures
        final(out).deep_view() == old(out).deep_view() + side.deep_view().subrange(
            from as int,
            to as int,
        ),
{
    push_padded(out, side, from, to, to - from);
    assert(padded(side.deep_view().subrange(from as int, to as int), (to - from) as nat)
        =~= side.deep_view().subrange(from as int, to as int));
}

/// The two sides one below the other.
pub fn build_unified_lines(base_lines: &[LineChange], head_lines: &[LineChange]) -> (r: Vec<
    LineChange,
>)
    ensures
        r.deep_view() == unified(base_lines.deep_view(), head_lines.deep_view()),
{
    let ghost b = base_lines.deep_view();
    let ghost h = head_lines.deep_view();
    let mut out: Vec<LineChange> = Vec::new();
    let mut bi: usize = 0;
    let mut hi: usize = 0;
    proof {
        assert(b.skip(0) =~= b);
        assert(h.skip(0) =~= h);
        assert(out.deep_view() + unified(b, h) =~= unified(b, h));
    }
    while bi < base_lines.len() || hi < head_lines.len()
        invariant
            bi <= base_lines@.len(),
            hi <= head_lines@.len(),
            b == base_lines.deep_view(),
            h == head_lines.deep_view(),
            unified(b, h) == out.deep_view() + unified(b.skip(bi as int), h.skip(hi as int)),
        decreases base_lines@.len() - bi + head_lines@.len() - hi,
    {
        let ghost before = out.deep_view();
        let ghost bs = b.skip(bi as int);
        let ghost hs = h.skip(hi as int);
        let (b_end, h_end, change) = block_ends(base_lines, head_lines, bi, hi);
        if change {
            push_lines(&mut out, base_lines, bi, b_end);
            push_lines(&mut out, head_lines, hi, h_end);
        } else if hi < head_lines.len() {
            push_lines(&mut out, head_lines, hi, hi + 1);
        } else {
            push_lines(&mut out, base_lines, bi, bi + 1);
        }
        proof {
            let (i, j) = block(bs, hs);
            assert(bs.take(i as int) =~= b.subrange(bi as int, b_end as int));
            assert(hs.take(j as int) =~= h.subrange(hi as int, h_end as int));
            assert(bs.skip(i as int) =~= b.skip(b_end as int));
            assert(hs.skip(j as int) =~= h.skip(h_end as int));
            let rest = unified(b.skip(b_end as int), h.skip(h_end as int));
            if change {
                let x = bs.take(i as int);
                let y = hs.take(j as int);
                assert(before + (x + y + rest) =~= before + x + y + rest);
            } else if hi < head_lines@.len() {
                assert(h.subrange(hi as int, hi + 1) =~= seq![hs[0]]);
                assert(before + (seq![hs[0]] + rest) =~= before + seq![hs[0]] + rest);
            } else {
                assert(b.subrange(bi as int, bi + 1) =~= seq![bs[0]]);
                assert(before + (seq![bs[0]] + rest) =~= before + seq![bs[0]] + rest);
            }
        }
        bi = b_end;
        hi = h_end;
    }
    assert(out.deep_view() + unified(b.skip(bi as int), h.skip(hi as int)) =~= out.deep_view());
    out
}

/// How many rows the two sides take next to each other.
pub fn aligned_line_count(base_lines: &[LineChange], head_lines: &[LineChange]) -> (r: usize)
    ensures
        r == capped(aligned(base_lines.deep_view(), head_lines.deep_view()).0.len()),
        r == capped(aligned(base_lines.deep_view(), head_lines.deep_view()).1.len()),
{
    let ghost b = base_lines.deep_view();
    let ghost h = head_lines.deep_view();
    let mut count: usize = 0;
    let ghost mut done: nat = 0;
    let mut bi: usize = 0;
    let mut hi: usize = 0;
    proof {
        assert(b.skip(0) =~= b);
        assert(h.skip(0) =~= h);
    }
    while bi < base_lines.len() || hi < head_lines.len()
        invariant
            bi <= base_lines@.len(),
            hi <= head_lines@.len(),
            b == base_lines.deep_view(),
            h == head_lines.deep_view(),
            count == capped(done),
            aligned(b, h).0.len() == done + aligned(b.skip(bi as int), h.skip(hi as int)).0.len(),
            aligned(b, h).1.len() == done + aligned(b.skip(bi as int), h.skip(hi as int)).1.len(),
        decreases base_lines@.len() - bi + head_lines@.len() - hi,
    {
        let ghost bs = b.skip(bi as int);
        let ghost hs = h.skip(hi as int);
        let (b_end, h_end, _change) = block_ends(base_lines, head_lines, bi, hi);
        proof {
            let (i, j) = block(bs, hs);
            assert(bs.skip(i as int) =~= b.skip(b_end as int));
            assert(hs.skip(j as int) =~= h.skip(h_end as int));
        }
        let rows: usize = if b_end - bi >= h_end - hi {
            b_end - bi
        } else {
            h_end - hi
        };
        count = count.saturating_add(rows);
        proof {
            done = done + rows as nat;
        }
        bi = b_end;
        hi = h_end;
    }
    count
}

/// How many rows the two sides take one below the other.
pub fn unified_line_count(base_lines: &[LineChange], head_lines: &[LineChange]) -> (r: usize)
    ensures
        r == capped(unified(base_lines.deep_view(), head_lines.deep_view()).len()),
{
    let ghost b = base_lines.deep_view();
    let ghost h = head_lines.deep_view();
    let mut count: usize = 0;
    let ghost mut done: nat = 0;
    let mut bi: usize = 0;
    let mut hi: usize = 0;
    proof {
        assert(b.skip(0) =~= b);
        assert(h.skip(0) =~= h);
    }
    while bi < base_lines.len() || hi < head_lines.len()
        invariant
            bi <= base_lines@.len(),
            hi <= head_lines@.len(),
            b == base_lines.deep_view(),
            h == head_lines.deep_view(),
            count == capped(done),
            unified(b, h).len() == done + unified(b.skip(bi as int), h.skip(hi as int)).len(),
        decreases base_lines@.len() - bi + head_lines@.len() - hi,
    {
        let ghost bs = b.skip(bi as int);
        let ghost hs = h.skip(hi as int);
        let (b_end, h_end, change) = block_ends(base_lines, head_lines, bi, hi);
        proof {
            let (i, j) = block(bs, hs);
            assert(bs.skip(i as int) =~= b.skip(b_end as int));
            assert(hs.skip(j as int) =~= h.skip(h_end as int));
        }
        count = if change {
            count.saturating_add(b_end - bi).saturating_add(h_end - hi)
        } else {
            count.saturating_add(1)
        };
        proof {
            done = done + if change {
                (b_end - bi) as nat + (h_end - hi) as nat
            } else {
                1nat
            };
        }
        bi = b_end;
        hi = h_end;
    }
    count
}

/// The rows that `line_width` columns take in rows of `available_width`.
pub fn wrap_rows(line_width: usize, available_width: usize) -> (r: usize)
    ensures
        r == rows_for(line_width as nat, available_width as nat),
        r >= 1,
{
    if available_width == 0 || line_width == 0 {
        return 1;
    }
    let whole: usize = line_width / available_width;
    proof {
        let a = line_width as int;
        let b = available_width as int;
        vstd::arithmetic::div_mod::lemma_fundamental_div_mod(a, b);
        assert(a / b <= a) by (nonlinear_arith)
            requires
                a > 0,
                b > 0,
        ;
        if a / b == a {
            assert(a % b == 0) by (nonlinear_arith)
                requires
                    a > 0,
                    b > 0,
                    a / b == a,
                    a == b * (a / b) + a % b,
                    0 <= a % b < b,
            ;
        }
        if a / b == 0 {
            assert(a % b == a) by (nonlinear_arith)
                requires
                    a / b == 0,
                    a == b * (a / b) + a % b,
            ;
        }
    }
    if line_width % available_width == 0 {
        whole
    } else {
        whole + 1
    }
}

/// A line without its mark.
pub fn without_mark(s: &str) -> (r: String)
    ensures
        r@ == unmarked(s@),
{
    let cs = text::chars_of(s);
    if cs.len() > 0 && (cs[0] == '+' || cs[0] == '-' || cs[0] == ' ') {
        assert(cs@.subrange(1, cs@.len() as int) =~= s@.skip(1));
        text::string_between(&cs, 1, cs.len())
    } else {
        s.to_owned()
    }
}

/// The columns that a line takes without its mark.
pub fn content_width(s: &str) -> (r: usize)
    ensures
        r == width::str_columns(unmarked(s@)),
{
    let content = without_mark(s);
    width::str_width(content.as_str())
}

/// The rows that a line takes when it is wrapped.
pub fn merged_line_rows(line: &LineChange, pane_inner_width: usize) -> (r: usize)
    ensures
        r == line_rows(line.deep_view(), pane_inner_width),
        r >= 1,
{
    if line.0 == 0 {
        return 1;
    }
    let w: usize = GUTTER_WIDTH.saturating_add(content_width(line.1.as_str()));
    wrap_rows(w, pane_inner_width)
}

/// The rows that the lines of a side take, up to the largest number.
pub fn total_wrapped_rows(lines: &[LineChange], pane_inner_width: usize) -> (r: usize)
    ensures
        r == capped(side_rows(lines.deep_view(), pane_inner_width)),
{
    let ghost v = lines.deep_view();
    let mut total: usize = 0;
    for i in 0..lines.len()
        invariant
            v == lines.deep_view(),
            total == capped(side_rows(v.take(i as int), pane_inner_width)),
    {
        proof {
            assert(v.take(i + 1).drop_last() =~= v.take(i as int));
            assert(v.take(i + 1).last() == lines@[i as int].deep_view());
        }
        total = total.saturating_add(merged_line_rows(&lines[i], pane_inner_width));
    }
    assert(v.take(v.len() as int) =~= v);
    total
}

/// The rows that two sides take that are put together.
proof fn lemma_paired_two(a: SideView, b: SideView, c: SideView, d: SideView, w: usize)
    requires
        a.len() == b.len(),
        c.len() == d.len(),
    ensures
        paired_rows(a + c, b + d, w) == paired_rows(a, b, w) + paired_rows(c, d, w),
    decreases c.len(),
{
    if c.len() == 0 {
        assert(a + c =~= a);
        assert(b + d =~= b);
    } else {
        lemma_paired_two(a, b, c.drop_last(), d.drop_last(), w);
        assert((a + c).drop_last() =~= a + c.drop_last());
        assert((b + d).drop_last() =~= b + d.drop_last());
    }
}

/// The rows that the lines of two sides take that are put together.
proof fn lemma_side_two(a: SideView, b: SideView, w: usize)
    ensures
        side_rows(a + b, w) == side_rows(a, w) + side_rows(b, w),
    decreases b.len(),
{
    if b.len() == 0 {
        assert(a + b =~= a);
    } else {
        lemma_side_two(a, b.drop_last(), w);
        assert((a + b).drop_last() =~= a + b.drop_last());
    }
}

/// The rows of a line, or of a gap where there is none.
fn rows_at(side: &[LineChange], i: usize, end: usize, w: usize) -> (r: usize)
    requires
        end <= side@.len(),
    ensures
        r == line_rows(
            if i < end {
                side.deep_view()[i as int]
            } else {
                gap()
            },
            w,
        ),
        r >= 1,
{
    if i < end {
        assert(side.deep_view()[i as int] == side@[i as int].deep_view());
        merged_line_rows(&side[i], w)
    } else {
        1
    }
}

/// The rows that lines take that belong together, added to `total`.
fn add_block_rows(
    total: usize,
    base: &[LineChange],
    head: &[LineChange],
    bi: usize,
    hi: usize,
    b_end: usize,
    h_end: usize,
    w: usize,
) -> (r: usize)
    requires
        bi <= b_end <= base@.len(),
        hi <= h_end <= head@.len(),
    ensures
        ({
            let n = larger((b_end - bi) as nat, (h_end - hi) as nat);
            let b = padded(base.deep_view().subrange(bi as int, b_end as int), n);
            let h = padded(head.deep_view().subrange(hi as int, h_end as int), n);
            r == capped(total as nat + paired_rows(b, h, w))
        }),
{
    let n: usize = if b_end - bi >= h_end - hi {
        b_end - bi
    } else {
        h_end - hi
    };
    let ghost b = padded(base.deep_view().subrange(bi as int, b_end as int), n as nat);
    let ghost h = padded(head.deep_view().subrange(hi as int, h_end as int), n as nat);
    let mut sum: usize = total;
    for k in 0..n
        invariant
            bi <= b_end <= base@.len(),
            hi <= h_end <= head@.len(),
            b == padded(base.deep_view().subrange(bi as int, b_end as int), n as nat),
            h == padded(head.deep_view().subrange(hi as int, h_end as int), n as nat),
            n == larger((b_end - bi) as nat, (h_end - hi) as nat),
            sum == capped(total as nat + paired_rows(b.take(k as int), h.take(k as int), w)),
    {
        let b_rows = if k < b_end - bi {
            rows_at(base, bi + k, b_end, w)
        } else {
            1
        };
        let h_rows = if k < h_end - hi {
            rows_at(head, hi + k, h_end, w)
        } else {
            1
        };
        proof {
            assert(b.take(k + 1).drop_last() =~= b.take(k as int));
            assert(h.take(k + 1).drop_last() =~= h.take(k as int));
            assert(b.take(k + 1).last() == b[k as int]);
            assert(h.take(k + 1).last() == h[k as int]);
            assert(b_rows == line_rows(b[k as int], w));
            assert(h_rows == line_rows(h[k as int], w));
        }
        sum = sum.saturating_add(
            if b_rows >= h_rows {
                b_rows
            } else {
                h_rows
            },
        );
    }
    proof {
        assert(b.take(n as int) =~= b);
        assert(h.take(n as int) =~= h);
    }
    sum
}

/// The rows that the two sides take next to each other when their lines are
/// wrapped, up to the largest number.
pub fn aligned_wrapped_row_count(
    base_lines: &[LineChange],
    head_lines: &[LineChange],
    pane_inner_width: usize,
) -> (r: usize)
    ensures
        ({
            let (b, h) = aligned(base_lines.deep_view(), head_lines.deep_view());
            r == capped(paired_rows(b, h, pane_inner_width))
        }),
{
    let ghost b = base_lines.deep_view();
    let ghost h = head_lines.deep_view();
    let ghost mut done_b: SideView = seq![];
    let ghost mut done_h: SideView = seq![];
    let mut total: usize = 0;
    let mut bi: usize = 0;
    let mut hi: usize = 0;
    proof {
        assert(b.skip(0) =~= b);
        assert(h.skip(0) =~= h);
        assert(done_b + aligned(b, h).0 =~= aligned(b, h).0);
        assert(done_h + aligned(b, h).1 =~= aligned(b, h).1);
    }
    while bi < base_lines.len() || hi < head_lines.len()
        invariant
            bi <= base_lines@.len(),
            hi <= head_lines@.len(),
            b == base_lines.deep_view(),
            h == head_lines.deep_view(),
            done_b.len() == done_h.len(),
            aligned(b, h).0 == done_b + aligned(b.skip(bi as int), h.skip(hi as int)).0,
            aligned(b, h).1 == done_h + aligned(b.skip(bi as int), h.skip(hi as int)).1,
            total == capped(paired_rows(done_b, done_h, pane_inner_width)),
        decreases base_lines@.len() - bi + head_lines@.len() - hi,
    {
        let (b_end, h_end, _change) = block_ends(base_lines, head_lines, bi, hi);
        total = add_block_rows(
            total,
            base_lines,
            head_lines,
            bi,
            hi,
            b_end,
            h_end,
            pane_inner_width,
        );
        proof {
            lemma_align_step(b, h, bi as int, hi as int);
            let n = larger((b_end - bi) as nat, (h_end - hi) as nat);
            let rest = aligned(b.skip(b_end as int), h.skip(h_end as int));
            let pb = padded(b.subrange(bi as int, b_end as int), n);
            let ph = padded(h.subrange(hi as int, h_end as int), n);
            assert(done_b + (pb + rest.0) =~= (done_b + pb) + rest.0);
            assert(done_h + (ph + rest.1) =~= (done_h + ph) + rest.1);
            lemma_paired_two(done_b, done_h, pb, ph, pane_inner_width);
            done_b = done_b + pb;
            done_h = done_h + ph;
        }
        bi = b_end;
        hi = h_end;
    }
    proof {
        let rest = aligned(b.skip(bi as int), h.skip(hi as int));
        assert(done_b + rest.0 =~= done_b);
        assert(done_h + rest.1 =~= done_h);
    }
    total
}

/// The rows that the lines from `from` to `to` take, added to `total`.
fn add_lines_rows(total: usize, side: &[LineChange], from: usize, to: usize, w: usize) -> (r:
    usize)
    requires
        from <= to <= side@.len(),
    ensures
        r == capped(
            total as nat + side_rows(side.deep_view().subrange(from as int, to as int), w),
        ),
{
    let ghost part = side.deep_view().subrange(from as int, to as int);
    let mut sum: usize = total;
    for i in from..to
        invariant
            from <= to <= side@.len(),
            part == side.deep_view().subrange(from as int, to as int),
            sum == capped(total as nat + side_rows(part.take(i - from), w)),
    {
        proof {
            assert(part.take(i - from + 1).drop_last() =~= part.take(i - from));
            assert(part.take(i - from + 1).last() == side@[i as int].deep_view());
        }
        sum = sum.saturating_add(merged_line_rows(&side[i], w));
    }
    assert(part.take(to - from) =~= part);
    sum
}

/// The rows that the two sides take one below the other when their lines are
/// wrapped, up to the largest number.
pub fn unified_wrapped_row_count(
    base_lines: &[LineChange],
    head_lines: &[LineChange],
    pane_inner_width: usize,
) -> (r: usize)
    ensures
        r == capped(
            side_rows(
                unified(base_lines.deep_view(), head_lines.deep_view()),
                pane_inner_width,
            ),
        ),
{
    let ghost b = base_lines.deep_view();
    let ghost h = head_lines.deep_view();
    let ghost mut done: SideView = seq![];
    let mut total: usize = 0;
    let mut bi: usize = 0;
    let mut hi: usize = 0;
    proof {
        assert(b.skip(0) =~= b);
        assert(h.skip(0) =~= h);
        assert(done + unified(b, h) =~= unified(b, h));
    }
    while bi < base_lines.len() || hi < head_lines.len()
        invariant
            bi <= base_lines@.len(),
            hi <= head_lines@.len(),
            b == base_lines.deep_view(),
            h == head_lines.deep_view(),
            unified(b, h) == done + unified(b.skip(bi as int), h.skip(hi as int)),
            total == capped(side_rows(done, pane_inner_width)),
        decreases base_lines@.len() - bi + head_lines@.len() - hi,
    {
        let ghost bs = b.skip(bi as int);
        let ghost hs = h.skip(hi as int);
        let (b_end, h_end, change) = block_ends(base_lines, head_lines, bi, hi);
        if change {
            let removed: usize = add_lines_rows(total, base_lines, bi, b_end, pane_inner_width);
            total = add_lines_rows(removed, head_lines, hi, h_end, pane_inner_width);
        } else if hi < head_lines.len() {
            total = add_lines_rows(total, head_lines, hi, hi + 1, pane_inner_width);
        } else {
            total = add_lines_rows(total, base_lines, bi, bi + 1, pane_inner_width);
        }
        proof {
            let (i, j) = block(bs, hs);
            assert(bs.take(i as int) =~= b.subrange(bi as int, b_end as int));
            assert(hs.take(j as int) =~= h.subrange(hi as int, h_end as int));
            assert(bs.skip(i as int) =~= b.skip(b_end as int));
            assert(hs.skip(j as int) =~= h.skip(h_end as int));
            let rest = unified(b.skip(b_end as int), h.skip(h_end as int));
            let x = bs.take(i as int);
            let y = hs.take(j as int);
            let part = if change {
                x + y
            } else if hi < head_lines@.len() {
                seq![hs[0]]
            } else {
                seq![bs[0]]
            };
            if change {
                lemma_side_two(x, y, pane_inner_width);
            } else if hi < head_lines@.len() {
                assert(h.subrange(hi as int, hi + 1) =~= part);
            } else {
                assert(b.subrange(bi as int, bi + 1) =~= part);
            }
            lemma_side_two(done, part, pane_inner_width);
            assert(done + (part + rest) =~= (done + part) + rest);
            done = done + part;
        }
        bi = b_end;
        hi = h_end;
    }
    assert(done + unified(b.skip(bi as int), h.skip(hi as int)) =~= done);
    total
}

/// Adds `n` gaps.
fn push_gaps(out: &mut Vec<LineChange>, n: usize)
    ensures
        final(out).deep_view() == old(out).deep_view() + gaps(n as nat),
{
    let ghost start = out.deep_view();
    assert(start + gaps(0) =~= start);
    for k in 0..n
        invariant
            out.deep_view() == start + gaps(k as nat),
    {
        let ghost before = out.deep_view();
        let line: LineChange = (0, String::new());
        out.push(line);
        proof {
            assert(line.deep_view().1 =~= gap().1);
            assert(out.deep_view() =~= before.push(gap()));
            assert(start + gaps((k + 1) as nat) =~= (start + gaps(k as nat)).push(gap()));
        }
    }
}

/// Two aligned sides with gaps below their lines, so that the lines next to
/// each other take the same rows.
pub fn pad_aligned_for_wrap(
    aligned_base: Vec<LineChange>,
    aligned_head: Vec<LineChange>,
    pane_inner_width: usize,
) -> (r: (Vec<LineChange>, Vec<LineChange>))
    requires
        aligned_base@.len() == aligned_head@.len(),
    ensures
        r.0.deep_view() == wrap_padded(
            aligned_base.deep_view(),
            aligned_head.deep_view(),
            pane_inner_width,
        ),
        r.1.deep_view() == wrap_padded(
            aligned_head.deep_view(),
            aligned_base.deep_view(),
            pane_inner_width,
        ),
{
    let ghost b = aligned_base.deep_view();
    let ghost h = aligned_head.deep_view();
    let mut out_base: Vec<LineChange> = Vec::new();
    let mut out_head: Vec<LineChange> = Vec::new();
    for i in 0..aligned_base.len()
        invariant
            aligned_base@.len() == aligned_head@.len(),
            b == aligned_base.deep_view(),
            h == aligned_head.deep_view(),
            out_base.deep_view() == wrap_padded(
                b.take(i as int),
                h.take(i as int),
                pane_inner_width,
            ),
            out_head.deep_view() == wrap_padded(
                h.take(i as int),
                b.take(i as int),
                pane_inner_width,
            ),
    {
        let ghost old_base = out_base.deep_view();
        let ghost old_head = out_head.deep_view();
        let b_rows = merged_line_rows(&aligned_base[i], pane_inner_width);
        let h_rows = merged_line_rows(&aligned_head[i], pane_inner_width);
        let b_line = copy_line(&aligned_base[i]);
        let h_line = copy_line(&aligned_head[i]);
        out_base.push(b_line);
        out_head.push(h_line);
        proof {
            assert(out_base.deep_view() =~= old_base.push(b_line.deep_view()));
            assert(out_head.deep_view() =~= old_head.push(h_line.deep_view()));
            assert(b.take(i + 1).drop_last() =~= b.take(i as int));
            assert(h.take(i + 1).drop_last() =~= h.take(i as int));
            assert(b.take(i + 1).last() == b_line.deep_view());
            assert(h.take(i + 1).last() == h_line.deep_view());
        }
        push_gaps(&mut out_base, h_rows.saturating_sub(b_rows));
        push_gaps(&mut out_head, b_rows.saturating_sub(h_rows));
    }
    proof {
        assert(b.take(b.len() as int) =~= b);
        assert(h.take(h.len() as int) =~= h);
    }
    (out_base, out_head)
}

// ---------------------------------------------------------------------------
// What holds of every diff

/// Next to each other, the two sides have the same number of lines.
pub proof fn law_aligned_lengths(base: SideView, head: SideView)
    ensures
        aligned(base, head).0.len() == aligned(base, head).1.len(),
    decreases base.len() + head.len(),
{
    if base.len() > 0 || head.len() > 0 {
        let (i, j) = block(base, head);
        lemma_marked(base, '-');
        lemma_marked(head, '+');
        law_aligned_lengths(base.skip(i as int), head.skip(j as int));
    }
}

/// Whether `side` holds no gap.
pub open spec fn gapless(side: SideView) -> bool {
    forall|i: int| 0 <= i < side.len() ==> #[trigger] side[i] != gap()
}

/// `side` without its gaps.
pub open spec fn without_gaps(side: SideView) -> SideView
    decreases side.len(),
{
    if side.len() == 0 {
        seq![]
    } else if side.last() == gap() {
        without_gaps(side.drop_last())
    } else {
        without_gaps(side.drop_last()).push(side.last())
    }
}

proof fn lemma_without_gaps_two(a: SideView, b: SideView)
    ensures
        without_gaps(a + b) == without_gaps(a) + without_gaps(b),
    decreases b.len(),
{
    if b.len() == 0 {
        assert(a + b =~= a);
        assert(without_gaps(a) + without_gaps(b) =~= without_gaps(a));
    } else {
        lemma_without_gaps_two(a, b.drop_last());
        assert((a + b).drop_last() =~= a + b.drop_last());
        assert(without_gaps(a + b) =~= without_gaps(a) + without_gaps(b));
    }
}

proof fn lemma_without_gaps_padded(side: SideView, n: nat)
    requires
        gapless(side),
        side.len() <= n,
    ensures
        without_gaps(padded(side, n)) == side,
    decreases n,
{
    let p = padded(side, n);
    if n == 0 {
        assert(side =~= seq![]);
    } else if side.len() == n {
        let rest = side.drop_last();
        assert forall|i: int| 0 <= i < rest.len() implies #[trigger] rest[i] != gap() by {
            assert(rest[i] == side[i]);
        }
        lemma_without_gaps_padded(rest, (n - 1) as nat);
        assert(p.drop_last() =~= padded(rest, (n - 1) as nat));
        assert(side[n - 1] != gap());
        assert(rest.push(side.last()) =~= side);
    } else {
        lemma_without_gaps_padded(side, (n - 1) as nat);
        assert(p.drop_last() =~= padded(side, (n - 1) as nat));
    }
}

/// Aligning loses no line, adds nothing but gaps, and keeps the order of each
/// side.
pub proof fn law_aligned_keeps(base: SideView, head: SideView)
    requires
        gapless(base),
        gapless(head),
    ensures
        without_gaps(aligned(base, head).0) == base,
        without_gaps(aligned(base, head).1) == head,
    decreases base.len() + head.len(),
{
    if base.len() == 0 && head.len() == 0 {
        assert(base =~= seq![]);
        assert(head =~= seq![]);
    } else {
        let (i, j) = block(base, head);
        lemma_marked(base, '-');
        lemma_marked(head, '+');
        let n = larger(i, j);
        let b0 = base.take(i as int);
        let h0 = head.take(j as int);
        let b1 = base.skip(i as int);
        let h1 = head.skip(j as int);
        assert forall|k: int| 0 <= k < b0.len() implies #[trigger] b0[k] != gap() by {
            assert(b0[k] == base[k]);
        }
        assert forall|k: int| 0 <= k < h0.len() implies #[trigger] h0[k] != gap() by {
            assert(h0[k] == head[k]);
        }
        assert forall|k: int| 0 <= k < b1.len() implies #[trigger] b1[k] != gap() by {
            assert(b1[k] == base[k + i]);
        }
        assert forall|k: int| 0 <= k < h1.len() implies #[trigger] h1[k] != gap() by {
            assert(h1[k] == head[k + j]);
        }
        law_aligned_keeps(b1, h1);
        let rest = aligned(b1, h1);
        lemma_without_gaps_padded(b0, n);
        lemma_without_gaps_padded(h0, n);
        lemma_without_gaps_two(padded(b0, n), rest.0);
        lemma_without_gaps_two(padded(h0, n), rest.1);
        assert(b0 + b1 =~= base);
        assert(h0 + h1 =~= head);
    }
}

proof fn lemma_gaps_rows(n: nat, w: usize)
    ensures
        side_rows(gaps(n), w) == n,
    decreases n,
{
    if n > 0 {
        lemma_gaps_rows((n - 1) as nat, w);
        assert(gaps(n).drop_last() =~= gaps((n - 1) as nat));
    }
}

/// With the gaps that wrapping adds, each side takes as many rows as the pairs
/// of lines take together, so that both sides stay aligned.
pub proof fn law_wrap_padded_rows(side: SideView, other: SideView, pane_width: usize)
    requires
        side.len() == other.len(),
    ensures
        side_rows(wrap_padded(side, other, pane_width), pane_width) == paired_rows(
            side,
            other,
            pane_width,
        ),
        paired_rows(side, other, pane_width) == paired_rows(other, side, pane_width),
    decreases side.len(),
{
    if side.len() > 0 {
        law_wrap_padded_rows(side.drop_last(), other.drop_last(), pane_width);
        let before = wrap_padded(side.drop_last(), other.drop_last(), pane_width);
        let own = line_rows(side.last(), pane_width);
        let rows = larger(own, line_rows(other.last(), pane_width));
        let extra = gaps((rows - own) as nat);
        lemma_side_two(before.push(side.last()), extra, pane_width);
        lemma_gaps_rows((rows - own) as nat, pane_width);
        assert(before.push(side.last()).drop_last() =~= before);
    }
}

/// Wrapped and next to each other, the two sides of a diff take the same number
/// of rows, which is that of the pairs of their lines. It is no less than the
/// number of rows that they take where they are not wrapped.
pub proof fn law_aligned_wrapped(base: SideView, head: SideView, pane_width: usize)
    ensures
        ({
            let (b, h) = aligned(base, head);
            let rows = paired_rows(b, h, pane_width);
            &&& side_rows(wrap_padded(b, h, pane_width), pane_width) == rows
            &&& side_rows(wrap_padded(h, b, pane_width), pane_width) == rows
            &&& b.len() == h.len()
            &&& rows >= b.len()
            &&& capped(rows) >= capped(b.len())
        }),
{
    let (b, h) = aligned(base, head);
    law_aligned_lengths(base, head);
    law_wrap_padded_rows(b, h, pane_width);
    law_wrap_padded_rows(h, b, pane_width);
    lemma_paired_least(b, h, pane_width);
}

proof fn lemma_line_rows(line: LineView, pane_width: usize)
    ensures
        line_rows(line, pane_width) >= 1,
{
    if line.0 != 0 && pane_width > 0 {
        let a = capped(
            GUTTER_WIDTH as nat + width::str_columns(unmarked(line.1)) as nat,
        ) as int;
        let b = pane_width as int;
        if a > 0 && a % b == 0 {
            vstd::arithmetic::div_mod::lemma_fundamental_div_mod(a, b);
            assert(a / b >= 1) by (nonlinear_arith)
                requires
                    a == b * (a / b) + a % b,
                    a % b == 0,
                    a > 0,
                    b > 0,
            ;
        } else if a > 0 {
            assert(a / b >= 0) by (nonlinear_arith)
                requires
                    a > 0,
                    b > 0,
            ;
        }
    }
}

proof fn lemma_paired_least(side: SideView, other: SideView, pane_width: usize)
    requires
        side.len() == other.len(),
    ensures
        paired_rows(side, other, pane_width) >= side.len(),
    decreases side.len(),
{
    if side.len() > 0 {
        lemma_paired_least(side.drop_last(), other.drop_last(), pane_width);
        lemma_line_rows(side.last(), pane_width);
    }
}

/// How many lines of `side` carry another mark than `mark`, or none.
pub open spec fn others(side: SideView, mark: char) -> nat
    decreases side.len(),
{
    if side.len() == 0 {
        0
    } else {
        others(side.skip(1), mark) + if starts(side[0].1, mark) {
            0nat
        } else {
            1
        }
    }
}

/// `side` without its removed lines.
pub open spec fn without_removed(side: SideView) -> SideView
    decreases side.len(),
{
    if side.len() == 0 {
        seq![]
    } else if starts(side[0].1, '-') {
        without_removed(side.skip(1))
    } else {
        seq![side[0]] + without_removed(side.skip(1))
    }
}

proof fn lemma_without_removed_two(a: SideView, b: SideView)
    ensures
        without_removed(a + b) == without_removed(a) + without_removed(b),
    decreases a.len(),
{
    if a.len() == 0 {
        assert(a + b =~= b);
        assert(without_removed(a) + without_removed(b) =~= without_removed(b));
    } else {
        lemma_without_removed_two(a.skip(1), b);
        assert((a + b).skip(1) =~= a.skip(1) + b);
        assert(without_removed(a + b) =~= without_removed(a) + without_removed(b));
    }
}

proof fn lemma_all_removed(side: SideView)
    requires
        forall|k: int| 0 <= k < side.len() ==> starts((#[trigger] side[k]).1, '-'),
    ensures
        without_removed(side) == Seq::<LineView>::empty(),
    decreases side.len(),
{
    if side.len() > 0 {
        assert(starts(side[0].1, '-'));
        assert forall|k: int| 0 <= k < side.skip(1).len() implies starts(
            (#[trigger] side.skip(1)[k]).1,
            '-',
        ) by {
            assert(side.skip(1)[k] == side[k + 1]);
        }
        lemma_all_removed(side.skip(1));
    }
}

proof fn lemma_none_removed(side: SideView)
    requires
        forall|k: int| 0 <= k < side.len() ==> !starts((#[trigger] side[k]).1, '-'),
    ensures
        without_removed(side) == side,
    decreases side.len(),
{
    if side.len() > 0 {
        assert(!starts(side[0].1, '-'));
        assert forall|k: int| 0 <= k < side.skip(1).len() implies !starts(
            (#[trigger] side.skip(1)[k]).1,
            '-',
        ) by {
            assert(side.skip(1)[k] == side[k + 1]);
        }
        lemma_none_removed(side.skip(1));
        assert(seq![side[0]] + side.skip(1) =~= side);
    } else {
        assert(side =~= seq![]);
    }
}

proof fn lemma_others_skip(side: SideView, mark: char, n: int)
    requires
        0 <= n <= side.len(),
        forall|k: int| 0 <= k < n ==> starts((#[trigger] side[k]).1, mark),
    ensures
        others(side.skip(n), mark) == others(side, mark),
    decreases n,
{
    if n > 0 {
        assert(starts(side[0].1, mark));
        assert forall|k: int| 0 <= k < n - 1 implies starts(
            (#[trigger] side.skip(1)[k]).1,
            mark,
        ) by {
            assert(side.skip(1)[k] == side[k + 1]);
        }
        lemma_others_skip(side.skip(1), mark, n - 1);
        assert(side.skip(1).skip(n - 1) =~= side.skip(n));
    } else {
        assert(side.skip(0) =~= side);
    }
}

/// One below the other, the lines that are not removed are those of the right
/// side, in its order and with its numbers, wherever the left side has no more
/// unchanged lines than the right one.
pub proof fn law_unified_head(base: SideView, head: SideView)
    requires
        forall|k: int| 0 <= k < head.len() ==> !starts((#[trigger] head[k]).1, '-'),
        others(base, '-') <= others(head, '+'),
    ensures
        without_removed(unified(base, head)) == head,
    decreases base.len() + head.len(),
{
    if base.len() == 0 && head.len() == 0 {
        assert(head =~= seq![]);
    } else {
        let (i, j) = block(base, head);
        lemma_marked(base, '-');
        lemma_marked(head, '+');
        let b1 = base.skip(i as int);
        let h1 = head.skip(j as int);
        let rest = unified(b1, h1);
        assert forall|k: int| 0 <= k < h1.len() implies !starts((#[trigger] h1[k]).1, '-') by {
            assert(h1[k] == head[k + j]);
        }
        if marked(base, '-') > 0 || marked(head, '+') > 0 {
            lemma_others_skip(base, '-', i as int);
            lemma_others_skip(head, '+', j as int);
            law_unified_head(b1, h1);
            let x = base.take(i as int);
            let y = head.take(j as int);
            assert forall|k: int| 0 <= k < x.len() implies starts((#[trigger] x[k]).1, '-') by {
                assert(x[k] == base[k]);
            }
            assert forall|k: int| 0 <= k < y.len() implies !starts((#[trigger] y[k]).1, '-') by {
                assert(y[k] == head[k]);
            }
            lemma_all_removed(x);
            lemma_none_removed(y);
            lemma_without_removed_two(x, y);
            lemma_without_removed_two(x + y, rest);
            assert(Seq::<LineView>::empty() + y =~= y);
            assert(y + h1 =~= head);
        } else {
            assert(head.len() > 0) by {
                if head.len() == 0 {
                    assert(others(head, '+') == 0);
                    assert(others(base, '-') >= 1);
                }
            }
            law_unified_head(b1, h1);
            assert(!starts(head[0].1, '-'));
            let y = seq![head[0]];
            assert forall|k: int| 0 <= k < y.len() implies !starts((#[trigger] y[k]).1, '-') by {
                assert(y[k] == head[0]);
            }
            lemma_none_removed(y);
            lemma_without_removed_two(y, rest);
            assert(y + h1 =~= head);
        }
    }
}

/// An unchanged line never faces a changed one: next to a removed line stands an
/// added one or nothing, and next to an added line a removed one or nothing.
pub proof fn law_faced(base: SideView, head: SideView, r: int)
    requires
        0 <= r < aligned(base, head).0.len(),
    ensures
        ({
            let left = aligned(base, head).0[r];
            let right = aligned(base, head).1[r];
            &&& left.1.len() > 0 && left.1[0] == '-' ==> right == (0usize, Seq::<char>::empty())
                || (right.1.len() > 0 && right.1[0] == '+')
            &&& right.1.len() > 0 && right.1[0] == '+' ==> left == (0usize, Seq::<char>::empty())
                || (left.1.len() > 0 && left.1[0] == '-')
        }),
    decreases base.len() + head.len(),
{
    if base.len() > 0 || head.len() > 0 {
        let (i, j) = block(base, head);
        lemma_marked(base, '-');
        lemma_marked(head, '+');
        let n = larger(i, j);
        let b1 = base.skip(i as int);
        let h1 = head.skip(j as int);
        law_aligned_lengths(base, head);
        law_aligned_lengths(b1, h1);
        let left = padded(base.take(i as int), n);
        let right = padded(head.take(j as int), n);
        assert(left.len() == n && right.len() == n);
        if r < n {
            assert(aligned(base, head).0[r] == left[r]);
            assert(aligned(base, head).1[r] == right[r]);
            if marked(base, '-') > 0 || marked(head, '+') > 0 {
                if r < i {
                    assert(left[r] == base[r]);
                    assert(starts(base[r].1, '-'));
                }
                if r < j {
                    assert(right[r] == head[r]);
                    assert(starts(head[r].1, '+'));
                }
            }
        } else {
            law_faced(b1, h1, r - n);
            assert(aligned(base, head).0[r] == aligned(b1, h1).0[r - n]);
            assert(aligned(base, head).1[r] == aligned(b1, h1).1[r - n]);
        }
    }
}

/// The removed lines of `side`.
pub open spec fn removed(side: SideView) -> SideView
    decreases side.len(),
{
    if side.len() == 0 {
        seq![]
    } else if side[0].1.len() > 0 && side[0].1[0] == '-' {
        seq![side[0]] + removed(side.skip(1))
    } else {
        removed(side.skip(1))
    }
}

proof fn lemma_removed_two(a: SideView, b: SideView)
    ensures
        removed(a + b) == removed(a) + removed(b),
    decreases a.len(),
{
    if a.len() == 0 {
        assert(a + b =~= b);
        assert(removed(a) + removed(b) =~= removed(b));
    } else {
        lemma_removed_two(a.skip(1), b);
        assert((a + b).skip(1) =~= a.skip(1) + b);
        assert(removed(a + b) =~= removed(a) + removed(b));
    }
}

proof fn lemma_removed_none(side: SideView)
    requires
        forall|k: int| 0 <= k < side.len() ==> !starts((#[trigger] side[k]).1, '-'),
    ensures
        removed(side) == Seq::<LineView>::empty(),
    decreases side.len(),
{
    if side.len() > 0 {
        assert(!starts(side[0].1, '-'));
        assert forall|k: int| 0 <= k < side.skip(1).len() implies !starts(
            (#[trigger] side.skip(1)[k]).1,
            '-',
        ) by {
            assert(side.skip(1)[k] == side[k + 1]);
        }
        lemma_removed_none(side.skip(1));
    }
}

/// One below the other, the removed lines are those of the left side, in its order and
/// with its numbers.
pub proof fn law_unified_removed(base: SideView, head: SideView)
    requires
        forall|k: int| 0 <= k < head.len() ==> !starts((#[trigger] head[k]).1, '-'),
    ensures
        removed(unified(base, head)) == removed(base),
    decreases base.len() + head.len(),
{
    if base.len() > 0 || head.len() > 0 {
        let (i, j) = block(base, head);
        lemma_marked(base, '-');
        lemma_marked(head, '+');
        let x = base.take(i as int);
        let y = head.take(j as int);
        let b1 = base.skip(i as int);
        let h1 = head.skip(j as int);
        let rest = unified(b1, h1);
        assert forall|k: int| 0 <= k < h1.len() implies !starts((#[trigger] h1[k]).1, '-') by {
            assert(h1[k] == head[k + j]);
        }
        assert forall|k: int| 0 <= k < y.len() implies !starts((#[trigger] y[k]).1, '-') by {
            assert(y[k] == head[k]);
        }
        law_unified_removed(b1, h1);
        lemma_removed_none(y);
        lemma_removed_two(x, b1);
        assert(x + b1 =~= base);
        if marked(base, '-') > 0 || marked(head, '+') > 0 {
            lemma_removed_two(x, y);
            lemma_removed_two(x + y, rest);
            assert(removed(x) + Seq::<LineView>::empty() =~= removed(x));
        } else {
            assert forall|k: int| 0 <= k < x.len() implies !starts((#[trigger] x[k]).1, '-') by {
                assert(x[k] == base[0]);
            }
            lemma_removed_none(x);
            if head.len() > 0 {
                assert(seq![head[0]] =~= y);
                lemma_removed_two(y, rest);
            } else {
                assert(seq![base[0]] =~= x);
                lemma_removed_two(x, rest);
            }
            assert(Seq::<LineView>::empty() + removed(b1) =~= removed(b1));
        }
    }
}

proof fn lemma_first_below(base: SideView, head: SideView)
    requires
        marked(base, '-') == 0,
        forall|k: int| 0 <= k < head.len() ==> !starts((#[trigger] head[k]).1, '-'),
    ensures
        unified(base, head).len() > 0 ==> !starts(unified(base, head)[0].1, '-'),
{
    if base.len() > 0 || head.len() > 0 {
        let (i, j) = block(base, head);
        lemma_marked(base, '-');
        lemma_marked(head, '+');
        let rest = unified(base.skip(i as int), head.skip(j as int));
        if marked(head, '+') > 0 {
            assert(unified(base, head) == base.take(i as int) + head.take(j as int) + rest);
            assert(unified(base, head)[0] == head[0]);
        } else if head.len() > 0 {
            assert(unified(base, head)[0] == head[0]);
        } else {
            assert(unified(base, head)[0] == base[0]);
        }
    }
}

/// One below the other, the removed lines of a change come before its added lines: no
/// removed line follows an added one.
pub proof fn law_removed_first(base: SideView, head: SideView, r: int)
    requires
        forall|k: int| 0 <= k < base.len() ==> !starts((#[trigger] base[k]).1, '+'),
        forall|k: int| 0 <= k < head.len() ==> !starts((#[trigger] head[k]).1, '-'),
        0 < r < unified(base, head).len(),
    ensures
        ({
            let above = unified(base, head)[r - 1].1;
            let below = unified(base, head)[r].1;
            !(above.len() > 0 && above[0] == '+' && below.len() > 0 && below[0] == '-')
        }),
    decreases base.len() + head.len(),
{
    let (i, j) = block(base, head);
    lemma_marked(base, '-');
    lemma_marked(head, '+');
    let b1 = base.skip(i as int);
    let h1 = head.skip(j as int);
    let rest = unified(b1, h1);
    let all = unified(base, head);
    assert forall|k: int| 0 <= k < h1.len() implies !starts((#[trigger] h1[k]).1, '-') by {
        assert(h1[k] == head[k + j]);
    }
    assert forall|k: int| 0 <= k < b1.len() implies !starts((#[trigger] b1[k]).1, '+') by {
        assert(b1[k] == base[k + i]);
    }
    if marked(base, '-') > 0 || marked(head, '+') > 0 {
        let n = i + j;
        assert(all == base.take(i as int) + head.take(j as int) + rest);
        if r < n {
            if r - 1 < i {
                assert(all[r - 1] == base[r - 1]);
                assert(!starts(base[r - 1].1, '+'));
            } else {
                assert(all[r] == head[r - i]);
                assert(!starts(head[r - i].1, '-'));
            }
        } else if r == n {
            assert(marked(b1, '-') == 0) by {
                if b1.len() > 0 {
                    assert(b1[0] == base[i as int]);
                }
            }
            lemma_first_below(b1, h1);
            assert(all[r] == rest[0]);
        } else {
            law_removed_first(b1, h1, r - n);
            assert(all[r] == rest[r - n]);
            assert(all[r - 1] == rest[r - n - 1]);
        }
    } else {
        assert(all.len() == rest.len() + 1);
        if r == 1 {
            if head.len() > 0 {
                assert(all[0] == head[0]);
                assert(!starts(head[0].1, '+'));
            } else {
                assert(all[0] == base[0]);
                assert(!starts(base[0].1, '+'));
            }
        } else {
            law_removed_first(b1, h1, r - 1);
            assert(all[r] == rest[r - 1]);
            assert(all[r - 1] == rest[r - 2]);
        }
    }
}

/// Rows of `available` columns hold a line, and one row less would not, where the
/// line has any width.
pub proof fn law_rows_hold(line_width: nat, available: nat)
    requires
        available > 0,
    ensures
        line_width <= rows_for(line_width, available) * available,
        line_width > 0 ==> (rows_for(line_width, available) - 1) * available < line_width,
        rows_for(0, available) == 1,
{
    let w = line_width as int;
    let a = available as int;
    vstd::arithmetic::div_mod::lemma_fundamental_div_mod(w, a);
    let q = w / a;
    let m = w % a;
    assert(0 <= m < a) by (nonlinear_arith)
        requires
            a > 0,
            m == w % a,
    ;
    assert(w == a * q + m);
    assert((q + 1) * a == a * q + a) by (nonlinear_arith);
    assert((q - 1) * a == a * q - a) by (nonlinear_arith);
    assert(q * a == a * q) by (nonlinear_arith);
}

/// Only the mark of a line is taken off, and only once.
pub proof fn law_unmarked(s: Seq<char>, mark: char)
    requires
        mark == '+' || mark == '-' || mark == ' ',
    ensures
        unmarked(seq![mark] + s) == s,
        s.len() == 0 || (s[0] != '+' && s[0] != '-' && s[0] != ' ') ==> unmarked(s) == s,
{
    assert((seq![mark] + s).skip(1) =~= s);
}

} // verus!
