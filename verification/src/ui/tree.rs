//! The list of changed files as a tree.
use vstd::prelude::*;
use crate::text;

verus! {

/// A row of the tree: a directory, or a file by its place in the list.
#[derive(Debug, PartialEq, Eq)]
pub enum TreeRow {
    Dir { label: String, depth: usize },
    File { file_idx: usize, depth: usize },
}

/// A row of the tree, as a mathematical value.
pub enum RowView {
    Dir { label: Seq<char>, depth: int },
    File { file_idx: int, depth: int },
}

impl DeepView for TreeRow {
    type V = RowView;

    open spec fn deep_view(&self) -> RowView {
        match self {
            TreeRow::Dir { label, depth } => RowView::Dir { label: label@, depth: *depth as int },
            TreeRow::File { file_idx, depth } => RowView::File {
                file_idx: *file_idx as int,
                depth: *depth as int,
            },
        }
    }
}

/// The parts of each path between its slashes.
pub open spec fn parts_of(names: Seq<Seq<char>>) -> Seq<Seq<Seq<char>>> {
    names.map_values(|n: Seq<char>| text::split_char(n, '/'))
}

/// Whether path `i` goes on below a directory that is its part `at`, and that
/// is called `key`.
pub open spec fn is_below(paths: Seq<Seq<Seq<char>>>, i: int, at: int, key: Seq<char>) -> bool {
    at + 1 < paths[i].len() && paths[i][at] == key
}

/// The end of the run of paths from `i` on, up to `hi`, that go on below the
/// directory `key`.
pub open spec fn run_end(
    paths: Seq<Seq<Seq<char>>>,
    i: int,
    hi: int,
    at: int,
    key: Seq<char>,
) -> int
    decreases hi - i,
{
    if i < hi && is_below(paths, i, at, key) {
        run_end(paths, i + 1, hi, at, key)
    } else {
        i
    }
}

/// Whether all paths from `lo` to `hi` go on below one directory that is their
/// part `at`.
pub open spec fn one_dir(paths: Seq<Seq<Seq<char>>>, lo: int, hi: int, at: int) -> bool {
    at < paths[lo].len() && run_end(paths, lo, hi, at, paths[lo][at]) == hi
}

/// The first part, from `at` on, in which the paths from `lo` to `hi` do not
/// all go on below one directory.
pub open spec fn fork_at(paths: Seq<Seq<Seq<char>>>, lo: int, hi: int, at: int) -> int
    decreases paths[lo].len() - at,
{
    if lo < hi && one_dir(paths, lo, hi, at) {
        fork_at(paths, lo, hi, at + 1)
    } else {
        at
    }
}

pub proof fn lemma_fork(paths: Seq<Seq<Seq<char>>>, lo: int, hi: int, at: int)
    requires
        lo < hi,
        at < paths[lo].len(),
    ensures
        at <= fork_at(paths, lo, hi, at) < paths[lo].len(),
    decreases paths[lo].len() - at,
{
    if one_dir(paths, lo, hi, at) {
        lemma_run(paths, lo, hi, at, paths[lo][at]);
        lemma_fork(paths, lo, hi, at + 1);
    }
}

pub proof fn lemma_run(paths: Seq<Seq<Seq<char>>>, i: int, hi: int, at: int, key: Seq<char>)
    requires
        i <= hi,
    ensures
        i <= run_end(paths, i, hi, at, key) <= hi,
        forall|k: int|
            i <= k < run_end(paths, i, hi, at, key) ==> is_below(paths, k, at, key),
        run_end(paths, i, hi, at, key) < hi ==> !is_below(
            paths,
            run_end(paths, i, hi, at, key),
            at,
            key,
        ),
    decreases hi - i,
{
    if i < hi && is_below(paths, i, at, key) {
        lemma_run(paths, i + 1, hi, at, key);
    }
}

/// The rows of the paths from `lo` to `hi`, which agree in their parts before
/// `at`. A path whose last part this is is a file. The others go on below
/// directories, one after the other, and directories that lead only to one
/// another share a row.
pub open spec fn rows_of(
    paths: Seq<Seq<Seq<char>>>,
    lo: int,
    hi: int,
    at: int,
    depth: int,
) -> Seq<RowView>
    decreases hi - lo, paths[lo].len() - at,
{
    if lo >= hi {
        seq![]
    } else if at + 1 >= paths[lo].len() {
        seq![RowView::File { file_idx: lo, depth }] + rows_of(paths, lo + 1, hi, at, depth)
    } else {
        let end = run_end(paths, lo, hi, at, paths[lo][at]);
        let fork = fork_at(paths, lo, end, at + 1);
        proof {
            lemma_run(paths, lo, hi, at, paths[lo][at]);
            lemma_fork(paths, lo, end, at + 1);
        }
        seq![
            RowView::Dir { label: text::join(paths[lo].subrange(at, fork), "/"@), depth },
        ] + rows_of(paths, lo, end, fork, depth + 1) + rows_of(paths, end, hi, at, depth)
    }
}

/// The tree of the files `names`.
pub open spec fn tree_of(names: Seq<Seq<char>>) -> Seq<RowView> {
    rows_of(parts_of(names), 0, names.len() as int, 0, 0)
}

/// The end of a run of paths below one directory.
fn find_run_end(paths: &Vec<Vec<String>>, lo: usize, hi: usize, at: usize) -> (r: usize)
    requires
        lo < hi <= paths@.len(),
        at < paths@[lo as int]@.len(),
    ensures
        r == run_end(
            paths.deep_view(),
            lo as int,
            hi as int,
            at as int,
            paths.deep_view()[lo as int][at as int],
        ),
        lo <= r <= hi,
{
    let key = paths[lo][at].as_str();
    let ghost v = paths.deep_view();
    assert(v[lo as int][at as int] == key@);
    let mut i: usize = lo;
    while i < hi
        invariant
            lo <= i <= hi <= paths@.len(),
            v == paths.deep_view(),
            run_end(v, lo as int, hi as int, at as int, key@) == run_end(
                v,
                i as int,
                hi as int,
                at as int,
                key@,
            ),
            v[lo as int][at as int] == key@,
        decreases hi - i,
    {
        assert(v[i as int].len() == paths@[i as int]@.len());
        let below = paths[i].len() > 0 && at < paths[i].len() - 1 && *paths[i][at].as_str()
            == *key;
        assert(below == is_below(v, i as int, at as int, key@));
        if !below {
            return i;
        }
        i = i + 1;
    }
    i
}

/// The part in which the paths from `lo` to `hi` first differ, and the label
/// of the directories before it.
fn find_fork(paths: &Vec<Vec<String>>, lo: usize, hi: usize, start: usize) -> (r: (usize, String))
    requires
        lo < hi <= paths@.len(),
        start + 1 < paths@[lo as int]@.len(),
    ensures
        r.0 == fork_at(paths.deep_view(), lo as int, hi as int, start + 1),
        start < r.0 < paths@[lo as int]@.len(),
        r.1@ == text::join(paths.deep_view()[lo as int].subrange(start as int, r.0 as int), "/"@),
{
    let ghost v = paths.deep_view();
    let ghost parts = v[lo as int];
    let mut label = paths[lo][start].clone();
    let len: usize = paths[lo].len();
    let mut at: usize = start + 1;
    proof {
        assert(parts[start as int] == label@);
        assert(parts.subrange(start as int, at as int) =~= seq![parts[start as int]]);
        lemma_fork(v, lo as int, hi as int, start + 1);
    }
    while find_run_end(paths, lo, hi, at) == hi
        invariant
            lo < hi <= paths@.len(),
            v == paths.deep_view(),
            parts == v[lo as int],
            start < at < parts.len(),
            parts.len() == paths@[lo as int]@.len() == len,
            fork_at(v, lo as int, hi as int, start + 1) == fork_at(
                v,
                lo as int,
                hi as int,
                at as int,
            ),
            label@ == text::join(parts.subrange(start as int, at as int), "/"@),
        decreases parts.len() - at,
    {
        label.append("/");
        label.append(paths[lo][at].as_str());
        proof {
            lemma_run(v, lo as int, hi as int, at as int, parts[at as int]);
            assert(is_below(v, lo as int, at as int, parts[at as int]));
            let more = parts.subrange(start as int, at + 1);
            assert(more.drop_last() =~= parts.subrange(start as int, at as int));
            assert(more.last() == parts[at as int]);
            assert(parts[at as int] == paths@[lo as int]@[at as int]@);
        }
        at = at + 1;
    }
    (at, label)
}

/// Adds the rows of the paths from `lo` to `hi`.
fn add_rows(
    rows: &mut Vec<TreeRow>,
    paths: &Vec<Vec<String>>,
    lo: usize,
    hi: usize,
    at: usize,
    depth: usize,
)
    requires
        lo <= hi <= paths@.len(),
        depth <= at,
        forall|i: int| lo <= i < hi ==> at < (#[trigger] paths@[i])@.len(),
    ensures
        final(rows).deep_view() == old(rows).deep_view() + rows_of(
            paths.deep_view(),
            lo as int,
            hi as int,
            at as int,
            depth as int,
        ),
    decreases
            hi - lo,
            if lo < hi {
                paths@[lo as int]@.len() - at
            } else {
                0
            },
{
    let ghost v = paths.deep_view();
    if lo >= hi {
        assert(rows.deep_view() =~= old(rows).deep_view() + seq![]);
        return;
    }
    let ghost start = rows.deep_view();
    assert(v[lo as int].len() == paths@[lo as int]@.len());
    if at >= paths[lo].len() - 1 {
        let row = TreeRow::File { file_idx: lo, depth };
        rows.push(row);
        assert(rows.deep_view() =~= start.push(row.deep_view()));
        add_rows(rows, paths, lo + 1, hi, at, depth);
        proof {
            let rest = rows_of(v, lo + 1, hi as int, at as int, depth as int);
            assert(start.push(row.deep_view()) + rest =~= start + (seq![row.deep_view()] + rest));
        }
    } else {
        let end = find_run_end(paths, lo, hi, at);
        proof {
            lemma_run(v, lo as int, hi as int, at as int, v[lo as int][at as int]);
        }
        let (fork, label) = find_fork(paths, lo, end, at);
        let row = TreeRow::Dir { label, depth };
        rows.push(row);
        assert(rows.deep_view() =~= start.push(row.deep_view()));
        proof {
            lemma_fork_parts(v, lo as int, end as int, at as int, v[lo as int][at as int]);
            assert forall|i: int| lo <= i < end implies fork < (#[trigger] paths@[i])@.len() by {
                assert(v[i].len() == paths@[i]@.len());
            }
        }
        add_rows(rows, paths, lo, end, fork, depth + 1);
        add_rows(rows, paths, end, hi, at, depth);
        proof {
            let inner = rows_of(v, lo as int, end as int, fork as int, depth + 1);
            let rest = rows_of(v, end as int, hi as int, at as int, depth as int);
            assert(start.push(row.deep_view()) + inner + rest =~= start + (seq![row.deep_view()]
                + inner + rest));
        }
    }
}

/// Paths that go on below a directory have the part in which they fork.
proof fn lemma_fork_parts(
    paths: Seq<Seq<Seq<char>>>,
    lo: int,
    hi: int,
    at: int,
    key: Seq<char>,
)
    requires
        lo < hi,
        forall|k: int| lo <= k < hi ==> is_below(paths, k, at, key),
    ensures
        forall|k: int|
            lo <= k < hi ==> fork_at(paths, lo, hi, at + 1) < (#[trigger] paths[k]).len(),
{
    assert(is_below(paths, lo, at, key));
    assert forall|k: int| lo <= k < hi implies at + 1 < (#[trigger] paths[k]).len() by {
        assert(is_below(paths, k, at, key));
    }
    lemma_fork_len(paths, lo, hi, at + 1);
}

proof fn lemma_fork_len(paths: Seq<Seq<Seq<char>>>, lo: int, hi: int, at: int)
    requires
        lo < hi,
        forall|k: int| lo <= k < hi ==> at < (#[trigger] paths[k]).len(),
    ensures
        forall|k: int|
            lo <= k < hi ==> fork_at(paths, lo, hi, at) < (#[trigger] paths[k]).len(),
    decreases paths[lo].len() - at,
{
    if one_dir(paths, lo, hi, at) {
        let key = paths[lo][at];
        lemma_run(paths, lo, hi, at, key);
        assert forall|k: int| lo <= k < hi implies at + 1 < (#[trigger] paths[k]).len() by {
            assert(is_below(paths, k, at, key));
        }
        assert(at < paths[lo].len());
        lemma_fork_len(paths, lo, hi, at + 1);
    }
}

/// The tree of the files `file_names`, which are in ascending order.
pub fn build_file_tree(file_names: &[String]) -> (r: Vec<TreeRow>)
    ensures
        r.deep_view() == tree_of(file_names.deep_view()),
{
    let ghost names = file_names.deep_view();
    let mut paths: Vec<Vec<String>> = Vec::new();
    for i in 0..file_names.len()
        invariant
            names == file_names.deep_view(),
            paths.deep_view() == parts_of(names.take(i as int)),
            forall|k: int| 0 <= k < paths@.len() ==> 0 < (#[trigger] paths@[k])@.len(),
    {
        let ghost before = paths.deep_view();
        let parts = text::split_on(file_names[i].as_str(), '/');
        paths.push(parts);
        proof {
            assert(names[i as int] == file_names@[i as int]@);
            assert(paths.deep_view() =~= before.push(parts.deep_view()));
            assert(parts_of(names.take(i + 1)) =~= parts_of(names.take(i as int)).push(
                text::split_char(names[i as int], '/'),
            ));
        }
    }
    assert(names.take(names.len() as int) =~= names);
    let mut rows: Vec<TreeRow> = Vec::new();
    add_rows(&mut rows, &paths, 0, file_names.len(), 0, 0);
    proof {
        let all = rows_of(paths.deep_view(), 0, names.len() as int, 0, 0);
        assert(Seq::<RowView>::empty() + all =~= all);
    }
    rows
}

// ---------------------------------------------------------------------------
// What holds of every tree

/// The files of some rows, in order.
pub open spec fn files_in(rows: Seq<RowView>) -> Seq<int>
    decreases rows.len(),
{
    if rows.len() == 0 {
        seq![]
    } else {
        match rows.last() {
            RowView::File { file_idx, .. } => files_in(rows.drop_last()).push(file_idx),
            RowView::Dir { .. } => files_in(rows.drop_last()),
        }
    }
}

proof fn lemma_files_in_two(a: Seq<RowView>, b: Seq<RowView>)
    ensures
        files_in(a + b) == files_in(a) + files_in(b),
    decreases b.len(),
{
    if b.len() == 0 {
        assert(a + b =~= a);
        assert(files_in(a) + files_in(b) =~= files_in(a));
    } else {
        lemma_files_in_two(a, b.drop_last());
        assert((a + b).drop_last() =~= a + b.drop_last());
        assert((a + b).last() == b.last());
        assert(files_in(a + b) =~= files_in(a) + files_in(b));
    }
}

/// The numbers from `lo` to `hi`.
pub open spec fn range(lo: int, hi: int) -> Seq<int> {
    Seq::new((hi - lo) as nat, |i: int| lo + i)
}

proof fn lemma_files_in_rows(
    paths: Seq<Seq<Seq<char>>>,
    lo: int,
    hi: int,
    at: int,
    depth: int,
)
    requires
        lo <= hi,
    ensures
        files_in(rows_of(paths, lo, hi, at, depth)) == range(lo, hi),
    decreases hi - lo, paths[lo].len() - at,
{
    if lo >= hi {
        assert(range(lo, hi) =~= seq![]);
    } else if at + 1 >= paths[lo].len() {
        lemma_files_in_rows(paths, lo + 1, hi, at, depth);
        let row = RowView::File { file_idx: lo, depth };
        let rest = rows_of(paths, lo + 1, hi, at, depth);
        lemma_files_in_two(seq![row], rest);
        lemma_files_in_one(row);
        assert(seq![lo] + range(lo + 1, hi) =~= range(lo, hi));
    } else {
        let end = run_end(paths, lo, hi, at, paths[lo][at]);
        let fork = fork_at(paths, lo, end, at + 1);
        lemma_run(paths, lo, hi, at, paths[lo][at]);
        assert(is_below(paths, lo, at, paths[lo][at]));
        assert(end > lo) by {
            lemma_run(paths, lo + 1, hi, at, paths[lo][at]);
        }
        lemma_fork(paths, lo, end, at + 1);
        let row = RowView::Dir { label: text::join(paths[lo].subrange(at, fork), "/"@), depth };
        let inner = rows_of(paths, lo, end, fork, depth + 1);
        let rest = rows_of(paths, end, hi, at, depth);
        lemma_files_in_rows(paths, lo, end, fork, depth + 1);
        lemma_files_in_rows(paths, end, hi, at, depth);
        lemma_files_in_two(seq![row], inner);
        lemma_files_in_two(seq![row] + inner, rest);
        lemma_files_in_one(row);
        assert(Seq::<int>::empty() + range(lo, end) =~= range(lo, end));
        assert(range(lo, end) + range(end, hi) =~= range(lo, hi));
    }
}

proof fn lemma_files_in_one(row: RowView)
    ensures
        files_in(seq![row]) == match row {
            RowView::File { file_idx, .. } => seq![file_idx],
            RowView::Dir { .. } => seq![],
        },
{
    assert(seq![row].drop_last() =~= seq![]);
    assert(files_in(seq![]) =~= seq![]);
}

/// Each file of the list has one row in the tree, and the rows of files are in
/// the order of the list.
pub proof fn law_tree_files(names: Seq<Seq<char>>)
    ensures
        files_in(tree_of(names)) == range(0, names.len() as int),
{
    lemma_files_in_rows(parts_of(names), 0, names.len() as int, 0, 0);
}

proof fn lemma_row_indices(paths: Seq<Seq<Seq<char>>>, lo: int, hi: int, at: int, depth: int)
    requires
        lo <= hi,
    ensures
        forall|k: int| #![trigger rows_of(paths, lo, hi, at, depth)[k]]
            0 <= k < rows_of(paths, lo, hi, at, depth).len() ==> (rows_of(
                paths,
                lo,
                hi,
                at,
                depth,
            )[k] matches RowView::File { file_idx, .. } ==> lo <= file_idx < hi),
    decreases hi - lo, paths[lo].len() - at,
{
    if lo < hi {
        if at + 1 >= paths[lo].len() {
            lemma_row_indices(paths, lo + 1, hi, at, depth);
        } else {
            let end = run_end(paths, lo, hi, at, paths[lo][at]);
            let fork = fork_at(paths, lo, end, at + 1);
            lemma_run(paths, lo, hi, at, paths[lo][at]);
            assert(is_below(paths, lo, at, paths[lo][at]));
            assert(end > lo) by {
                lemma_run(paths, lo + 1, hi, at, paths[lo][at]);
            }
            lemma_fork(paths, lo, end, at + 1);
            lemma_row_indices(paths, lo, end, fork, depth + 1);
            lemma_row_indices(paths, end, hi, at, depth);
        }
    }
}

/// The rows of files name files of the list.
pub proof fn lemma_tree_indices(names: Seq<Seq<char>>)
    ensures
        forall|k: int| #![trigger tree_of(names)[k]]
            0 <= k < tree_of(names).len() ==> (tree_of(names)[k] matches RowView::File {
                file_idx,
                ..
            } ==> 0 <= file_idx < names.len()),
{
    lemma_row_indices(parts_of(names), 0, names.len() as int, 0, 0);
}

} // verus!
