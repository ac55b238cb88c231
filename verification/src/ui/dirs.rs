//! The directories of the tree.
use vstd::prelude::*;
use super::files;
use super::tree;
use super::tree::RowView;
use crate::text;

verus! {

/// The directories of the paths from `lo` to `hi`, which agree in their parts
/// before `at`, in the order of their rows. Each is given by its parts.
pub open spec fn dirs_of(paths: Seq<Seq<Seq<char>>>, lo: int, hi: int, at: int) -> Seq<
    Seq<Seq<char>>,
>
    decreases hi - lo, paths[lo].len() - at,
{
    if lo >= hi {
        seq![]
    } else if at + 1 >= paths[lo].len() {
        dirs_of(paths, lo + 1, hi, at)
    } else {
        let end = tree::run_end(paths, lo, hi, at, paths[lo][at]);
        let fork = tree::fork_at(paths, lo, end, at + 1);
        proof {
            tree::lemma_run(paths, lo, hi, at, paths[lo][at]);
            tree::lemma_fork(paths, lo, end, at + 1);
        }
        seq![paths[lo].take(fork)] + dirs_of(paths, lo, end, fork) + dirs_of(paths, end, hi, at)
    }
}

/// The labels of the rows that are directories.
pub open spec fn labels_in(rows: Seq<RowView>) -> Seq<Seq<char>>
    decreases rows.len(),
{
    if rows.len() == 0 {
        seq![]
    } else {
        match rows.last() {
            RowView::Dir { label, .. } => labels_in(rows.drop_last()).push(label),
            RowView::File { .. } => labels_in(rows.drop_last()),
        }
    }
}

/// Whether `label` is made of the last parts of `dir`.
pub open spec fn is_label(label: Seq<char>, dir: Seq<Seq<char>>) -> bool {
    exists|from: int| 0 <= from < dir.len() && label == text::join(#[trigger] dir.skip(from), "/"@)
}

// ---------------------------------------------------------------------------
// Rows and directories

proof fn lemma_labels_two(a: Seq<RowView>, b: Seq<RowView>)
    ensures
        labels_in(a + b) == labels_in(a) + labels_in(b),
    decreases b.len(),
{
    if b.len() == 0 {
        assert(a + b =~= a);
        assert(labels_in(a) + labels_in(b) =~= labels_in(a));
    } else {
        lemma_labels_two(a, b.drop_last());
        assert((a + b).drop_last() =~= a + b.drop_last());
        assert((a + b).last() == b.last());
        assert(labels_in(a + b) =~= labels_in(a) + labels_in(b));
    }
}

proof fn lemma_labels_one(row: RowView)
    ensures
        labels_in(seq![row]) == match row {
            RowView::Dir { label, .. } => seq![label],
            RowView::File { .. } => seq![],
        },
{
    assert(seq![row].drop_last() =~= seq![]);
    assert(labels_in(seq![]) =~= seq![]);
}

spec fn labelled(labels: Seq<Seq<char>>, dirs: Seq<Seq<Seq<char>>>) -> bool {
    &&& labels.len() == dirs.len()
    &&& forall|k: int| #![trigger dirs[k]] 0 <= k < dirs.len() ==> is_label(labels[k], dirs[k])
}

proof fn lemma_labelled_two(
    la: Seq<Seq<char>>,
    da: Seq<Seq<Seq<char>>>,
    lb: Seq<Seq<char>>,
    db: Seq<Seq<Seq<char>>>,
)
    requires
        labelled(la, da),
        labelled(lb, db),
    ensures
        labelled(la + lb, da + db),
{
    let l = la + lb;
    let d = da + db;
    assert forall|k: int| #![trigger d[k]] 0 <= k < d.len() implies is_label(l[k], d[k]) by {
        if k < da.len() {
            assert(d[k] == da[k]);
        } else {
            assert(d[k] == db[k - da.len()]);
        }
    }
}

proof fn lemma_labelled(
    paths: Seq<Seq<Seq<char>>>,
    lo: int,
    hi: int,
    at: int,
    depth: int,
)
    requires
        0 <= at,
        lo <= hi,
    ensures
        labelled(
            labels_in(tree::rows_of(paths, lo, hi, at, depth)),
            dirs_of(paths, lo, hi, at),
        ),
    decreases hi - lo, paths[lo].len() - at,
{
    if lo < hi {
        if at + 1 >= paths[lo].len() {
            lemma_labelled(paths, lo + 1, hi, at, depth);
            let row = RowView::File { file_idx: lo, depth };
            lemma_labels_one(row);
            lemma_labels_two(seq![row], tree::rows_of(paths, lo + 1, hi, at, depth));
            assert(labels_in(tree::rows_of(paths, lo, hi, at, depth)) =~= labels_in(
                tree::rows_of(paths, lo + 1, hi, at, depth),
            ));
        } else {
            let key = paths[lo][at];
            let end = tree::run_end(paths, lo, hi, at, key);
            let fork = tree::fork_at(paths, lo, end, at + 1);
            tree::lemma_run(paths, lo, hi, at, key);
            assert(tree::is_below(paths, lo, at, key));
            assert(end > lo) by {
                tree::lemma_run(paths, lo + 1, hi, at, key);
            }
            tree::lemma_fork(paths, lo, end, at + 1);
            lemma_labelled(paths, lo, end, fork, depth + 1);
            lemma_labelled(paths, end, hi, at, depth);
            let label = text::join(paths[lo].subrange(at, fork), "/"@);
            let row = RowView::Dir { label, depth };
            let inner = tree::rows_of(paths, lo, end, fork, depth + 1);
            let after = tree::rows_of(paths, end, hi, at, depth);
            lemma_labels_one(row);
            lemma_labels_two(seq![row], inner);
            lemma_labels_two(seq![row] + inner, after);
            let dir = paths[lo].take(fork);
            assert(dir.skip(at) =~= paths[lo].subrange(at, fork));
            assert(is_label(label, dir));
            assert(labelled(seq![label], seq![dir]));
            lemma_labelled_two(
                seq![label],
                seq![dir],
                labels_in(inner),
                dirs_of(paths, lo, end, fork),
            );
            lemma_labelled_two(
                seq![label] + labels_in(inner),
                seq![dir] + dirs_of(paths, lo, end, fork),
                labels_in(after),
                dirs_of(paths, end, hi, at),
            );
        }
    } else {
        assert(labels_in(tree::rows_of(paths, lo, hi, at, depth)) =~= seq![]);
    }
}

// ---------------------------------------------------------------------------
// The order of paths

spec fn not_after(a: Seq<char>, b: Seq<char>) -> bool {
    a == b || text::before(a, b)
}

proof fn lemma_between(a: Seq<char>, b: Seq<char>, c: Seq<char>, k: int)
    requires
        0 <= k <= a.len(),
        k <= c.len(),
        a.take(k) == c.take(k),
        not_after(a, b),
        not_after(b, c),
    ensures
        k <= b.len(),
        b.take(k) == a.take(k),
        not_after(a.skip(k), b.skip(k)),
        not_after(b.skip(k), c.skip(k)),
    decreases k,
{
    if k == 0 {
        assert(a.skip(0) =~= a);
        assert(b.skip(0) =~= b);
        assert(c.skip(0) =~= c);
        assert(b.take(0) =~= a.take(0));
    } else {
        assert(a[0] == a.take(k)[0]);
        assert(c[0] == c.take(k)[0]);
        assert(b.len() > 0);
        assert(b[0] == a[0]);
        assert(a.skip(1).take(k - 1) =~= a.take(k).skip(1));
        assert(c.skip(1).take(k - 1) =~= c.take(k).skip(1));
        lemma_between(a.skip(1), b.skip(1), c.skip(1), k - 1);
        assert(a.skip(1).skip(k - 1) =~= a.skip(k));
        assert(b.skip(1).skip(k - 1) =~= b.skip(k));
        assert(c.skip(1).skip(k - 1) =~= c.skip(k));
        assert forall|i: int| 0 <= i < k implies #[trigger] b[i] == a[i] by {
            if i > 0 {
                assert(b.skip(1).take(k - 1)[i - 1] == a.skip(1).take(k - 1)[i - 1]);
            }
        }
        assert(b.take(k) =~= a.take(k));
    }
}

proof fn lemma_parts_between(a: Seq<char>, b: Seq<char>, c: Seq<char>, m: int)
    requires
        not_after(a, b),
        not_after(b, c),
        0 <= m < text::split_char(a, '/').len(),
        m < text::split_char(c, '/').len(),
        text::split_char(a, '/').take(m) == text::split_char(c, '/').take(m),
    ensures
        m < text::split_char(b, '/').len(),
        text::split_char(b, '/').take(m) == text::split_char(a, '/').take(m),
    decreases m,
{
    let pa = text::split_char(a, '/');
    let pb = text::split_char(b, '/');
    let pc = text::split_char(c, '/');
    text::lemma_split_char_nonempty(b, '/');
    if m == 0 {
        assert(pb.take(0) =~= pa.take(0));
    } else {
        let n = text::find_char(a, '/') as int;
        let nc = text::find_char(c, '/') as int;
        text::lemma_find_char_bound(a, '/');
        text::lemma_find_char_bound(c, '/');
        assert(n < a.len());
        assert(nc < c.len());
        assert(pa[0] == pa.take(m)[0]);
        assert(pc[0] == pc.take(m)[0]);
        assert(a.take(n) == c.take(nc));
        assert(n == nc);
        assert(a.take(n + 1) =~= c.take(n + 1)) by {
            assert forall|i: int| 0 <= i < n + 1 implies #[trigger] a[i] == c[i] by {
                if i < n {
                    assert(a.take(n)[i] == c.take(n)[i]);
                }
            }
        }
        lemma_between(a, b, c, n + 1);
        assert forall|j: int| 0 <= j < n implies #[trigger] b[j] != '/' by {
            assert(b.take(n + 1)[j] == a.take(n + 1)[j]);
        }
        assert(b[n] == b.take(n + 1)[n]);
        assert(a.take(n + 1)[n] == '/');
        text::lemma_find_char(b, '/', n);
        let ra = text::split_char(a.skip(n + 1), '/');
        let rb = text::split_char(b.skip(n + 1), '/');
        let rc = text::split_char(c.skip(n + 1), '/');
        assert(pa == seq![a.take(n)] + ra);
        assert(pc == seq![c.take(n)] + rc);
        assert(pb == seq![b.take(n)] + rb);
        assert(ra.take(m - 1) =~= pa.take(m).skip(1));
        assert(rc.take(m - 1) =~= pc.take(m).skip(1));
        lemma_parts_between(a.skip(n + 1), b.skip(n + 1), c.skip(n + 1), m - 1);
        assert(b.take(n) =~= a.take(n)) by {
            assert forall|i: int| 0 <= i < n implies #[trigger] b[i] == a[i] by {
                assert(b.take(n + 1)[i] == a.take(n + 1)[i]);
            }
        }
        assert(pb.take(m) =~= seq![b.take(n)] + rb.take(m - 1));
        assert(pa.take(m) =~= seq![a.take(n)] + ra.take(m - 1));
    }
}

/// Whether the paths below a directory follow one another.
spec fn grouped(paths: Seq<Seq<Seq<char>>>) -> bool {
    forall|i: int, j: int, k: int, m: int| #![trigger paths[i].take(m), paths[j], paths[k].take(m)]
        0 <= i <= j <= k < paths.len() && 0 <= m < paths[i].len() && m < paths[k].len()
            && paths[i].take(m) == paths[k].take(m) ==> m < paths[j].len() && paths[j].take(m)
            == paths[i].take(m)
}

proof fn lemma_grouped(names: Seq<Seq<char>>)
    requires
        files::ascending(names),
    ensures
        grouped(tree::parts_of(names)),
{
    let paths = tree::parts_of(names);
    assert forall|i: int, j: int, k: int, m: int|
        #![trigger paths[i].take(m), paths[j], paths[k].take(m)]
        0 <= i <= j <= k < paths.len() && 0 <= m < paths[i].len() && m < paths[k].len()
            && paths[i].take(m) == paths[k].take(m) implies m < paths[j].len() && paths[j].take(m)
        == paths[i].take(m) by {
        assert(i < j ==> text::before(names[i], names[j]));
        assert(j < k ==> text::before(names[j], names[k]));
        lemma_parts_between(names[i], names[j], names[k], m);
    }
}

// ---------------------------------------------------------------------------
// Each directory once

/// Whether the paths from `lo` to `hi` agree in their first `at` parts and have
/// more.
spec fn alike(paths: Seq<Seq<Seq<char>>>, lo: int, hi: int, at: int) -> bool {
    forall|i: int| #![trigger paths[i]]
        lo <= i < hi ==> at < paths[i].len() && paths[i].take(at) == paths[lo].take(at)
}

proof fn lemma_fork_alike(paths: Seq<Seq<Seq<char>>>, lo: int, hi: int, at: int)
    requires
        lo < hi,
        0 <= at,
        alike(paths, lo, hi, at),
    ensures
        alike(paths, lo, hi, tree::fork_at(paths, lo, hi, at)),
    decreases paths[lo].len() - at,
{
    if tree::one_dir(paths, lo, hi, at) {
        let key = paths[lo][at];
        tree::lemma_run(paths, lo, hi, at, key);
        assert forall|i: int| #![trigger paths[i]] lo <= i < hi implies at + 1 < paths[i].len()
            && paths[i].take(at + 1) == paths[lo].take(at + 1) by {
            assert(tree::is_below(paths, i, at, key));
            assert(paths[i].take(at + 1) =~= paths[i].take(at).push(key));
            assert(paths[lo].take(at + 1) =~= paths[lo].take(at).push(key));
        }
        lemma_fork_alike(paths, lo, hi, at + 1);
    }
}

/// Whether each of `dirs` holds one of the paths from `lo` to `hi` and has more
/// than `at` parts.
spec fn hold(
    dirs: Seq<Seq<Seq<char>>>,
    paths: Seq<Seq<Seq<char>>>,
    lo: int,
    hi: int,
    at: int,
) -> bool {
    forall|k: int| #![trigger dirs[k]]
        0 <= k < dirs.len() ==> at < dirs[k].len() && exists|i: int|
            lo <= i < hi && dirs[k].len() < (#[trigger] paths[i]).len() && paths[i].take(
                dirs[k].len() as int,
            ) == dirs[k]
}

proof fn lemma_hold_two(
    a: Seq<Seq<Seq<char>>>,
    b: Seq<Seq<Seq<char>>>,
    paths: Seq<Seq<Seq<char>>>,
    lo: int,
    hi: int,
    at: int,
)
    requires
        hold(a, paths, lo, hi, at),
        hold(b, paths, lo, hi, at),
    ensures
        hold(a + b, paths, lo, hi, at),
{
    let d = a + b;
    assert forall|k: int| #![trigger d[k]] 0 <= k < d.len() implies at < d[k].len() && exists|i: int|
        lo <= i < hi && d[k].len() < (#[trigger] paths[i]).len() && paths[i].take(
            d[k].len() as int,
        ) == d[k] by {
        if k < a.len() {
            assert(d[k] == a[k]);
        } else {
            assert(d[k] == b[k - a.len()]);
        }
    }
}

proof fn lemma_hold_wider(
    dirs: Seq<Seq<Seq<char>>>,
    paths: Seq<Seq<Seq<char>>>,
    lo: int,
    hi: int,
    at: int,
    lo2: int,
    hi2: int,
    at2: int,
)
    requires
        hold(dirs, paths, lo, hi, at),
        lo2 <= lo,
        hi <= hi2,
        at2 <= at,
    ensures
        hold(dirs, paths, lo2, hi2, at2),
{
    assert forall|k: int| #![trigger dirs[k]] 0 <= k < dirs.len() implies at2 < dirs[k].len()
        && exists|i: int|
        lo2 <= i < hi2 && dirs[k].len() < (#[trigger] paths[i]).len() && paths[i].take(
            dirs[k].len() as int,
        ) == dirs[k] by {
        let i = choose|i: int|
            lo <= i < hi && dirs[k].len() < (#[trigger] paths[i]).len() && paths[i].take(
                dirs[k].len() as int,
            ) == dirs[k];
        assert(lo2 <= i < hi2);
    }
}

/// A directory below part `at` of the paths before `end` is none of the paths
/// from `end` on.
proof fn lemma_apart(
    paths: Seq<Seq<Seq<char>>>,
    lo: int,
    end: int,
    hi: int,
    at: int,
    key: Seq<char>,
    d: Seq<Seq<char>>,
    i: int,
    j: int,
)
    requires
        grouped(paths),
        0 <= lo < end <= j < hi <= paths.len(),
        lo <= i < end,
        0 <= at < d.len(),
        d.len() < paths[i].len(),
        paths[i].take(d.len() as int) == d,
        d.len() < paths[j].len(),
        tree::is_below(paths, i, at, key),
        !tree::is_below(paths, end, at, key),
    ensures
        paths[j].take(d.len() as int) != d,
{
    if paths[j].take(d.len() as int) == d {
        let m = at + 1;
        assert(paths[i].take(m) =~= d.take(m));
        assert(paths[j].take(m) =~= d.take(m));
        assert(m < paths[end].len() && paths[end].take(m) == paths[i].take(m));
        assert(paths[end][at] == paths[end].take(m)[at]);
        assert(paths[i][at] == paths[i].take(m)[at]);
    }
}

proof fn lemma_once(paths: Seq<Seq<Seq<char>>>, lo: int, hi: int, at: int)
    requires
        grouped(paths),
        0 <= at,
        0 <= lo <= hi <= paths.len(),
        alike(paths, lo, hi, at),
    ensures
        hold(dirs_of(paths, lo, hi, at), paths, lo, hi, at),
        dirs_of(paths, lo, hi, at).no_duplicates(),
    decreases hi - lo, paths[lo].len() - at,
{
    if lo < hi {
        if at + 1 >= paths[lo].len() {
            assert(alike(paths, lo + 1, hi, at)) by {
                assert forall|i: int| #![trigger paths[i]] lo + 1 <= i < hi implies at
                    < paths[i].len() && paths[i].take(at) == paths[lo + 1].take(at) by {
                    assert(paths[lo + 1].take(at) == paths[lo].take(at));
                }
            }
            lemma_once(paths, lo + 1, hi, at);
            lemma_hold_wider(dirs_of(paths, lo + 1, hi, at), paths, lo + 1, hi, at, lo, hi, at);
        } else {
            let key = paths[lo][at];
            let end = tree::run_end(paths, lo, hi, at, key);
            let fork = tree::fork_at(paths, lo, end, at + 1);
            tree::lemma_run(paths, lo, hi, at, key);
            assert(tree::is_below(paths, lo, at, key));
            assert(end > lo) by {
                tree::lemma_run(paths, lo + 1, hi, at, key);
            }
            assert(alike(paths, lo, end, at + 1)) by {
                assert forall|i: int| #![trigger paths[i]] lo <= i < end implies at + 1
                    < paths[i].len() && paths[i].take(at + 1) == paths[lo].take(at + 1) by {
                    assert(tree::is_below(paths, i, at, key));
                    assert(paths[i].take(at + 1) =~= paths[i].take(at).push(key));
                    assert(paths[lo].take(at + 1) =~= paths[lo].take(at).push(key));
                }
            }
            tree::lemma_fork(paths, lo, end, at + 1);
            lemma_fork_alike(paths, lo, end, at + 1);
            lemma_once(paths, lo, end, fork);
            assert(alike(paths, end, hi, at)) by {
                assert forall|i: int| #![trigger paths[i]] end <= i < hi implies at
                    < paths[i].len() && paths[i].take(at) == paths[end].take(at) by {
                    assert(paths[end].take(at) == paths[lo].take(at));
                }
            }
            lemma_once(paths, end, hi, at);
            let dir = paths[lo].take(fork);
            let inner = dirs_of(paths, lo, end, fork);
            let after = dirs_of(paths, end, hi, at);
            lemma_first_hold(paths, lo, end, fork, dir);
            lemma_hold_wider(inner, paths, lo, end, fork, lo, end, fork - 1);
            lemma_hold_two(seq![dir], inner, paths, lo, end, fork - 1);
            let first = seq![dir] + inner;
            lemma_hold_wider(first, paths, lo, end, fork - 1, lo, hi, at);
            lemma_hold_wider(after, paths, end, hi, at, lo, hi, at);
            lemma_hold_two(first, after, paths, lo, hi, at);
            assert(first.no_duplicates()) by {
                assert forall|k: int| 0 <= k < inner.len() implies #[trigger] inner[k] != dir by {
                    assert(fork < inner[k].len());
                }
            }
            let all = first + after;
            assert forall|x: int, y: int| 0 <= x < first.len() && 0 <= y < after.len() implies
                #[trigger] first[x] != #[trigger] after[y] by {
                if first[x] == after[y] {
                    let d = first[x];
                    let i = choose|i: int|
                        lo <= i < end && d.len() < (#[trigger] paths[i]).len() && paths[i].take(
                            d.len() as int,
                        ) == d;
                    let j = choose|j: int|
                        end <= j < hi && d.len() < (#[trigger] paths[j]).len() && paths[j].take(
                            d.len() as int,
                        ) == d;
                    assert(at < after[y].len());
                    assert(end < hi);
                    assert(tree::is_below(paths, i, at, key));
                    lemma_apart(paths, lo, end, hi, at, key, d, i, j);
                }
            }
            assert forall|x: int, y: int| 0 <= x < y < all.len() implies all[x] != all[y] by {
                if y < first.len() {
                    assert(all[x] == first[x] && all[y] == first[y]);
                } else if x >= first.len() {
                    assert(all[x] == after[x - first.len()] && all[y] == after[y
                        - first.len()]);
                } else {
                    assert(all[x] == first[x] && all[y] == after[y - first.len()]);
                }
            }
        }
    }
}

proof fn lemma_first_hold(
    paths: Seq<Seq<Seq<char>>>,
    lo: int,
    end: int,
    fork: int,
    dir: Seq<Seq<char>>,
)
    requires
        lo < end,
        1 <= fork < paths[lo].len(),
        dir == paths[lo].take(fork),
    ensures
        hold(seq![dir], paths, lo, end, fork - 1),
{
    let dirs = seq![dir];
    assert forall|k: int| #![trigger dirs[k]] 0 <= k < dirs.len() implies fork - 1 < dirs[k].len()
        && exists|i: int|
        lo <= i < end && dirs[k].len() < (#[trigger] paths[i]).len() && paths[i].take(
            dirs[k].len() as int,
        ) == dirs[k] by {
        assert(dirs[k] == dir);
        assert(dir.len() < paths[lo].len());
    }
}

/// The tree of files in ascending order shows each directory once: the rows of
/// directories are labelled with the last parts of directories of which no two
/// are the same.
pub proof fn law_dirs_once(names: Seq<Seq<char>>)
    requires
        files::ascending(names),
    ensures
        ({
            let labels = labels_in(tree::tree_of(names));
            let dirs = dirs_of(tree::parts_of(names), 0, names.len() as int, 0);
            &&& labels.len() == dirs.len()
            &&& forall|k: int| #![trigger dirs[k]]
                0 <= k < dirs.len() ==> is_label(labels[k], dirs[k])
            &&& dirs.no_duplicates()
        }),
{
    let paths = tree::parts_of(names);
    lemma_grouped(names);
    lemma_labelled(paths, 0, names.len() as int, 0, 0);
    assert(alike(paths, 0, names.len() as int, 0)) by {
        assert forall|i: int| #![trigger paths[i]] 0 <= i < names.len() implies 0 < paths[i].len()
            && paths[i].take(0) == paths[0].take(0) by {
            text::lemma_split_char_nonempty(names[i], '/');
            assert(paths[i].take(0) =~= paths[0].take(0));
        }
    }
    lemma_once(paths, 0, names.len() as int, 0);
}

// ---------------------------------------------------------------------------
// The way to a file

/// How far a row is indented.
pub open spec fn depth_of(row: RowView) -> int {
    match row {
        RowView::Dir { depth, .. } => depth,
        RowView::File { depth, .. } => depth,
    }
}

/// The labels of the directories that a row of this depth, which comes after the
/// first `k` rows, lies in: of the nearest directory above it that is less
/// indented, and of those that this one lies in.
pub open spec fn labels_above(rows: Seq<RowView>, k: int, depth: int) -> Seq<Seq<char>>
    decreases k,
{
    if k <= 0 {
        seq![]
    } else {
        match rows[k - 1] {
            RowView::Dir { label, depth: d } => if d < depth {
                labels_above(rows, k - 1, d).push(label)
            } else {
                labels_above(rows, k - 1, depth)
            },
            RowView::File { .. } => labels_above(rows, k - 1, depth),
        }
    }
}

proof fn lemma_above_prefix(rows: Seq<RowView>, more: Seq<RowView>, k: int, depth: int)
    requires
        k <= rows.len(),
    ensures
        labels_above(rows + more, k, depth) == labels_above(rows, k, depth),
    decreases k,
{
    if k > 0 {
        assert((rows + more)[k - 1] == rows[k - 1]);
        lemma_above_prefix(rows, more, k - 1, depth);
        lemma_above_prefix(rows, more, k - 1, depth_of(rows[k - 1]));
    }
}

/// Rows that are no less indented do not stand between a row and its
/// directories.
proof fn lemma_above_skip(before: Seq<RowView>, rows: Seq<RowView>, k: int, depth: int)
    requires
        0 <= k <= rows.len(),
        forall|j: int| 0 <= j < k ==> depth_of(#[trigger] rows[j]) >= depth,
    ensures
        labels_above(before + rows, before.len() + k, depth) == labels_above(
            before,
            before.len() as int,
            depth,
        ),
    decreases k,
{
    if k > 0 {
        assert((before + rows)[before.len() + k - 1] == rows[k - 1]);
        assert(depth_of(rows[k - 1]) >= depth);
        lemma_above_skip(before, rows, k - 1, depth);
    } else {
        lemma_above_prefix(before, rows, before.len() as int, depth);
    }
}

proof fn lemma_depths(paths: Seq<Seq<Seq<char>>>, lo: int, hi: int, at: int, depth: int)
    requires
        lo <= hi,
    ensures
        forall|k: int| #![trigger tree::rows_of(paths, lo, hi, at, depth)[k]]
            0 <= k < tree::rows_of(paths, lo, hi, at, depth).len() ==> depth_of(
                tree::rows_of(paths, lo, hi, at, depth)[k],
            ) >= depth,
        lo < hi ==> tree::rows_of(paths, lo, hi, at, depth).len() > 0 && depth_of(
            tree::rows_of(paths, lo, hi, at, depth)[0],
        ) == depth,
    decreases hi - lo, paths[lo].len() - at,
{
    if lo < hi {
        if at + 1 >= paths[lo].len() {
            lemma_depths(paths, lo + 1, hi, at, depth);
        } else {
            let key = paths[lo][at];
            let end = tree::run_end(paths, lo, hi, at, key);
            let fork = tree::fork_at(paths, lo, end, at + 1);
            lemma_run_first(paths, lo, hi, at);
            tree::lemma_fork(paths, lo, end, at + 1);
            lemma_depths(paths, lo, end, fork, depth + 1);
            lemma_depths(paths, end, hi, at, depth);
        }
    }
}

/// A path that goes on below a directory starts a run of such paths.
proof fn lemma_run_first(paths: Seq<Seq<Seq<char>>>, lo: int, hi: int, at: int)
    requires
        lo < hi,
        at + 1 < paths[lo].len(),
    ensures
        lo < tree::run_end(paths, lo, hi, at, paths[lo][at]) <= hi,
        forall|k: int|
            lo <= k < tree::run_end(paths, lo, hi, at, paths[lo][at]) ==> tree::is_below(
                paths,
                k,
                at,
                paths[lo][at],
            ),
{
    let key = paths[lo][at];
    tree::lemma_run(paths, lo, hi, at, key);
    assert(tree::is_below(paths, lo, at, key));
    tree::lemma_run(paths, lo + 1, hi, at, key);
}

/// Whether `labels`, joined, spell what `parts` do.
spec fn leads(labels: Seq<Seq<char>>, parts: Seq<Seq<char>>) -> bool {
    &&& labels.len() == 0 <==> parts.len() == 0
    &&& text::join(labels, "/"@) == text::join(parts, "/"@)
}

proof fn lemma_leads_on(
    labels: Seq<Seq<char>>,
    parts: Seq<Seq<char>>,
    label: Seq<char>,
    more: Seq<Seq<char>>,
)
    requires
        leads(labels, parts),
        more.len() > 0,
        label == text::join(more, "/"@),
    ensures
        leads(labels.push(label), parts + more),
{
    assert(seq![label][0] == label);
    assert(labels.push(label) =~= labels + seq![label]);
    if labels.len() == 0 {
        assert(labels + seq![label] =~= seq![label]);
        assert(parts + more =~= more);
    } else {
        text::lemma_join_two(labels, seq![label], "/"@);
        text::lemma_join_two(parts, more, "/"@);
    }
}

/// Whether the labels above each file of `rows`, which come after `before`, lead
/// to it.
spec fn led_to(before: Seq<RowView>, rows: Seq<RowView>, paths: Seq<Seq<Seq<char>>>) -> bool {
    forall|k: int| #![trigger rows[k]]
        0 <= k < rows.len() ==> (rows[k] matches RowView::File { file_idx, depth } ==> {
            let above = labels_above(before + rows, before.len() + k, depth);
            above.len() == depth && leads(above.push(paths[file_idx].last()), paths[file_idx])
        })
}

proof fn lemma_led_two(
    before: Seq<RowView>,
    a: Seq<RowView>,
    b: Seq<RowView>,
    paths: Seq<Seq<Seq<char>>>,
)
    requires
        led_to(before, a, paths),
        led_to(before + a, b, paths),
    ensures
        led_to(before, a + b, paths),
{
    let rows = a + b;
    assert(before + a + b =~= before + rows);
    assert forall|k: int| #![trigger rows[k]] 0 <= k < rows.len() implies (
    rows[k] matches RowView::File { file_idx, depth } ==> {
        let above = labels_above(before + rows, before.len() + k, depth);
        above.len() == depth && leads(above.push(paths[file_idx].last()), paths[file_idx])
    }) by {
        if k < a.len() {
            assert(rows[k] == a[k]);
            lemma_above_prefix(before + a, b, before.len() + k, depth_of(a[k]));
        } else {
            assert(rows[k] == b[k - a.len()]);
            assert((before + a).len() + (k - a.len()) == before.len() + k);
        }
    }
}

proof fn lemma_led(
    before: Seq<RowView>,
    paths: Seq<Seq<Seq<char>>>,
    lo: int,
    hi: int,
    at: int,
    depth: int,
)
    requires
        0 <= at,
        lo <= hi,
        alike(paths, lo, hi, at),
        labels_above(before, before.len() as int, depth).len() == depth,
        lo < hi ==> leads(
            labels_above(before, before.len() as int, depth),
            paths[lo].take(at),
        ),
    ensures
        led_to(before, tree::rows_of(paths, lo, hi, at, depth), paths),
    decreases hi - lo, paths[lo].len() - at,
{
    let labels = labels_above(before, before.len() as int, depth);
    if lo < hi {
        if at + 1 >= paths[lo].len() {
            let row = RowView::File { file_idx: lo, depth };
            let rest = tree::rows_of(paths, lo + 1, hi, at, depth);
            let last = paths[lo].last();
            assert(paths[lo] =~= paths[lo].take(at) + seq![last]);
            assert(seq![last][0] == last);
            lemma_leads_on(labels, paths[lo].take(at), last, seq![last]);
            assert(led_to(before, seq![row], paths)) by {
                lemma_above_prefix(before, seq![row], before.len() as int, depth);
            }
            lemma_above_skip(before, seq![row], 1, depth);
            if lo + 1 < hi {
                assert(paths[lo + 1].take(at) == paths[lo].take(at));
            }
            assert(alike(paths, lo + 1, hi, at)) by {
                assert forall|i: int| #![trigger paths[i]] lo + 1 <= i < hi implies at
                    < paths[i].len() && paths[i].take(at) == paths[lo + 1].take(at) by {
                    assert(paths[lo + 1].take(at) == paths[lo].take(at));
                }
            }
            lemma_led(before + seq![row], paths, lo + 1, hi, at, depth);
            lemma_led_two(before, seq![row], rest, paths);
        } else {
            let key = paths[lo][at];
            let end = tree::run_end(paths, lo, hi, at, key);
            let fork = tree::fork_at(paths, lo, end, at + 1);
            lemma_run_first(paths, lo, hi, at);
            tree::lemma_fork(paths, lo, end, at + 1);
            assert(alike(paths, lo, end, at + 1)) by {
                assert forall|i: int| #![trigger paths[i]] lo <= i < end implies at + 1
                    < paths[i].len() && paths[i].take(at + 1) == paths[lo].take(at + 1) by {
                    assert(tree::is_below(paths, i, at, key));
                    assert(paths[i].take(at + 1) =~= paths[i].take(at).push(key));
                    assert(paths[lo].take(at + 1) =~= paths[lo].take(at).push(key));
                }
            }
            lemma_fork_alike(paths, lo, end, at + 1);
            let more = paths[lo].subrange(at, fork);
            let label = text::join(more, "/"@);
            let row = RowView::Dir { label, depth };
            let inner = tree::rows_of(paths, lo, end, fork, depth + 1);
            let after = tree::rows_of(paths, end, hi, at, depth);
            let below = before + seq![row];
            assert(below[below.len() - 1] == row);
            lemma_above_prefix(before, seq![row], before.len() as int, depth);
            assert(labels_above(below, below.len() as int, depth + 1) == labels.push(label));
            assert(paths[lo].take(fork) =~= paths[lo].take(at) + more);
            lemma_leads_on(labels, paths[lo].take(at), label, more);
            lemma_led(below, paths, lo, end, fork, depth + 1);
            assert(led_to(before, seq![row], paths));
            lemma_led_two(before, seq![row], inner, paths);
            let first = seq![row] + inner;
            assert(alike(paths, end, hi, at)) by {
                assert forall|i: int| #![trigger paths[i]] end <= i < hi implies at
                    < paths[i].len() && paths[i].take(at) == paths[end].take(at) by {
                    assert(paths[end].take(at) == paths[lo].take(at));
                }
            }
            lemma_depths(paths, lo, end, fork, depth + 1);
            assert forall|j: int| 0 <= j < first.len() implies depth_of(#[trigger] first[j])
                >= depth by {
                if j > 0 {
                    assert(first[j] == inner[j - 1]);
                }
            }
            lemma_above_skip(before, first, first.len() as int, depth);
            if end < hi {
                assert(paths[end].take(at) == paths[lo].take(at));
            }
            lemma_led(before + first, paths, end, hi, at, depth);
            lemma_led_two(before, first, after, paths);
        }
    }
}

/// The labels of the directories that a file lies in, with its own last part,
/// spell its name, and there are as many of them as the file is indented.
pub proof fn law_labels_spell(names: Seq<Seq<char>>, k: int)
    requires
        0 <= k < tree::tree_of(names).len(),
        tree::tree_of(names)[k] is File,
    ensures
        ({
            let rows = tree::tree_of(names);
            let name = names[rows[k]->file_idx];
            let above = labels_above(rows, k, depth_of(rows[k]));
            &&& 0 <= rows[k]->file_idx < names.len()
            &&& above.len() == depth_of(rows[k])
            &&& text::join(above.push(text::split_char(name, '/').last()), "/"@) == name
        }),
{
    let paths = tree::parts_of(names);
    let rows = tree::tree_of(names);
    let none = Seq::<RowView>::empty();
    tree::lemma_tree_indices(names);
    assert(alike(paths, 0, names.len() as int, 0)) by {
        assert forall|i: int| #![trigger paths[i]] 0 <= i < names.len() implies 0 < paths[i].len()
            && paths[i].take(0) == paths[0].take(0) by {
            text::lemma_split_char_nonempty(names[i], '/');
            assert(paths[i].take(0) =~= paths[0].take(0));
        }
    }
    assert(paths[0].take(0).len() == 0);
    lemma_led(none, paths, 0, names.len() as int, 0, 0);
    assert(none + rows =~= rows);
    let name = names[rows[k]->file_idx];
    assert(paths[rows[k]->file_idx] == text::split_char(name, '/'));
    text::lemma_join_split(name, '/');
    reveal_strlit("/");
    assert("/"@ =~= seq!['/']);
}

// ---------------------------------------------------------------------------
// Directories that share a row

/// Whether row `j` lies directly in the directory of row `k`.
pub open spec fn is_child(rows: Seq<RowView>, k: int, j: int) -> bool {
    &&& 0 <= k < j < rows.len()
    &&& depth_of(rows[j]) == depth_of(rows[k]) + 1
    &&& forall|m: int| k < m <= j ==> depth_of(#[trigger] rows[m]) > depth_of(rows[k])
}

/// Whether a row other than `j` lies directly in the directory of row `k`.
pub open spec fn has_other_child(rows: Seq<RowView>, k: int, j: int) -> bool {
    exists|i: int| i != j && #[trigger] is_child(rows, k, i)
}

/// Whether a file lies directly in the directory of row `k`, or two rows do.
spec fn branches(rows: Seq<RowView>, k: int) -> bool {
    ||| exists|j: int| #[trigger] is_child(rows, k, j) && rows[j] is File
    ||| exists|i: int, j: int|
        i != j && #[trigger] is_child(rows, k, i) && #[trigger] is_child(rows, k, j)
}

proof fn lemma_child_shift(
    before: Seq<RowView>,
    rows: Seq<RowView>,
    after: Seq<RowView>,
    k: int,
    j: int,
)
    requires
        is_child(rows, k, j),
    ensures
        is_child(before + rows + after, before.len() + k, before.len() + j),
{
    let all = before + rows + after;
    let n = before.len() as int;
    assert(all[n + k] == rows[k] && all[n + j] == rows[j]);
    assert forall|m: int| n + k < m <= n + j implies depth_of(#[trigger] all[m]) > depth_of(
        all[n + k],
    ) by {
        assert(all[m] == rows[m - n]);
    }
}

proof fn lemma_branches_shift(
    before: Seq<RowView>,
    rows: Seq<RowView>,
    after: Seq<RowView>,
    k: int,
)
    requires
        branches(rows, k),
    ensures
        branches(before + rows + after, before.len() + k),
{
    let all = before + rows + after;
    let n = before.len() as int;
    if exists|j: int| #[trigger] is_child(rows, k, j) && rows[j] is File {
        let j = choose|j: int| #[trigger] is_child(rows, k, j) && rows[j] is File;
        lemma_child_shift(before, rows, after, k, j);
        assert(all[n + j] == rows[j]);
        assert(is_child(all, n + k, n + j));
    } else {
        let (i, j) = choose|i: int, j: int|
            i != j && #[trigger] is_child(rows, k, i) && #[trigger] is_child(rows, k, j);
        lemma_child_shift(before, rows, after, k, i);
        lemma_child_shift(before, rows, after, k, j);
        assert(is_child(all, n + k, n + i) && is_child(all, n + k, n + j));
    }
}

/// Whether every directory of `rows` branches.
spec fn all_branch(rows: Seq<RowView>) -> bool {
    forall|k: int| #![trigger rows[k]] 0 <= k < rows.len() && rows[k] is Dir ==> branches(rows, k)
}

proof fn lemma_all_branch_two(a: Seq<RowView>, b: Seq<RowView>)
    requires
        all_branch(a),
        all_branch(b),
    ensures
        all_branch(a + b),
{
    let rows = a + b;
    let none = Seq::<RowView>::empty();
    assert forall|k: int| #![trigger rows[k]] 0 <= k < rows.len() && rows[k] is Dir implies branches(
        rows,
        k,
    ) by {
        if k < a.len() {
            assert(rows[k] == a[k]);
            lemma_branches_shift(none, a, b, k);
            assert(none + a + b =~= rows);
        } else {
            assert(rows[k] == b[k - a.len()]);
            lemma_branches_shift(a, b, none, k - a.len());
            assert(a + b + none =~= rows);
        }
    }
}

/// The paths below a directory, up to where they fork, do not all go on below
/// one directory.
proof fn lemma_forked(paths: Seq<Seq<Seq<char>>>, lo: int, hi: int, at: int)
    requires
        lo < hi,
        at < paths[lo].len(),
    ensures
        !tree::one_dir(paths, lo, hi, tree::fork_at(paths, lo, hi, at)),
    decreases paths[lo].len() - at,
{
    if tree::one_dir(paths, lo, hi, at) {
        tree::lemma_run(paths, lo, hi, at, paths[lo][at]);
        assert(tree::is_below(paths, lo, at, paths[lo][at]));
        lemma_forked(paths, lo, hi, at + 1);
    }
}

/// The rows below a directory hold a file that lies directly in it, or two rows
/// that do.
proof fn lemma_inner_branches(
    paths: Seq<Seq<Seq<char>>>,
    lo: int,
    hi: int,
    fork: int,
    depth: int,
    label: Seq<char>,
)
    requires
        0 <= fork < paths[lo].len(),
        lo < hi,
        !tree::one_dir(paths, lo, hi, fork),
    ensures
        branches(
            seq![RowView::Dir { label, depth }] + tree::rows_of(paths, lo, hi, fork, depth + 1),
            0,
        ),
{
    let row = RowView::Dir { label, depth };
    let inner = tree::rows_of(paths, lo, hi, fork, depth + 1);
    let rows = seq![row] + inner;
    assert(rows[0] == row);
    lemma_depths(paths, lo, hi, fork, depth + 1);
    assert forall|m: int| 0 < m < rows.len() implies depth_of(#[trigger] rows[m]) > depth by {
        assert(rows[m] == inner[m - 1]);
    }
    assert(rows[1] == inner[0]);
    assert(is_child(rows, 0, 1));
    if fork + 1 >= paths[lo].len() {
        assert(inner[0] is File);
    } else {
        let end = tree::run_end(paths, lo, hi, fork, paths[lo][fork]);
        let next = tree::fork_at(paths, lo, end, fork + 1);
        lemma_run_first(paths, lo, hi, fork);
        tree::lemma_fork(paths, lo, end, fork + 1);
        let head = RowView::Dir {
            label: text::join(paths[lo].subrange(fork, next), "/"@),
            depth: depth + 1,
        };
        let below = tree::rows_of(paths, lo, end, next, depth + 2);
        let after = tree::rows_of(paths, end, hi, fork, depth + 1);
        assert(inner == seq![head] + below + after);
        lemma_depths(paths, end, hi, fork, depth + 1);
        let j = 2 + below.len() as int;
        assert(rows[j] == after[0]);
        assert(is_child(rows, 0, j));
    }
}

proof fn lemma_all_branch(paths: Seq<Seq<Seq<char>>>, lo: int, hi: int, at: int, depth: int)
    requires
        0 <= at,
        lo <= hi,
    ensures
        all_branch(tree::rows_of(paths, lo, hi, at, depth)),
    decreases hi - lo, paths[lo].len() - at,
{
    if lo < hi {
        if at + 1 >= paths[lo].len() {
            lemma_all_branch(paths, lo + 1, hi, at, depth);
            lemma_all_branch_two(
                seq![RowView::File { file_idx: lo, depth }],
                tree::rows_of(paths, lo + 1, hi, at, depth),
            );
        } else {
            let end = tree::run_end(paths, lo, hi, at, paths[lo][at]);
            let fork = tree::fork_at(paths, lo, end, at + 1);
            lemma_run_first(paths, lo, hi, at);
            tree::lemma_fork(paths, lo, end, at + 1);
            lemma_forked(paths, lo, end, at + 1);
            lemma_all_branch(paths, lo, end, fork, depth + 1);
            lemma_all_branch(paths, end, hi, at, depth);
            let label = text::join(paths[lo].subrange(at, fork), "/"@);
            let row = RowView::Dir { label, depth };
            let inner = tree::rows_of(paths, lo, end, fork, depth + 1);
            let after = tree::rows_of(paths, end, hi, at, depth);
            let first = seq![row] + inner;
            let none = Seq::<RowView>::empty();
            lemma_inner_branches(paths, lo, end, fork, depth, label);
            assert(all_branch(first)) by {
                assert forall|k: int| #![trigger first[k]]
                    0 <= k < first.len() && first[k] is Dir implies branches(first, k) by {
                    if k > 0 {
                        assert(first[k] == inner[k - 1]);
                        lemma_branches_shift(seq![row], inner, none, k - 1);
                        assert(seq![row] + inner + none =~= first);
                    }
                }
            }
            lemma_all_branch_two(first, after);
        }
    }
}

/// Directories that lead only to one another share a row: a directory holds
/// something, and a directory that lies directly in it is not all that it
/// holds.
pub proof fn law_no_lone_directory(names: Seq<Seq<char>>, k: int)
    requires
        0 <= k < tree::tree_of(names).len(),
        tree::tree_of(names)[k] is Dir,
    ensures
        exists|j: int| #[trigger] is_child(tree::tree_of(names), k, j),
        forall|j: int| #[trigger]
            is_child(tree::tree_of(names), k, j) && tree::tree_of(names)[j] is Dir
                ==> has_other_child(tree::tree_of(names), k, j),
{
    let rows = tree::tree_of(names);
    lemma_all_branch(tree::parts_of(names), 0, names.len() as int, 0, 0);
    assert(branches(rows, k));
}

} // verus!
