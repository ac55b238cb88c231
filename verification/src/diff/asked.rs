//! What git is asked for a diff, from the first call to the diff that is shown.
use vstd::prelude::*;
use super::collect;
use super::fetch;
use super::fetch::FetchStepView;
use super::git;
use super::git::{AnswerView, OutputView};
use super::parse;
use super::SourceView;
use crate::text;

verus! {

/// Whether git is called with these words, where the program runs.
pub open spec fn asks(step: FetchStepView, args: Seq<Seq<char>>) -> bool {
    step matches FetchStepView::Run(c, _) && c.dir is None && c.args == args
}

/// What is done after git answered.
pub open spec fn answered(step: FetchStepView, a: AnswerView) -> FetchStepView {
    match step {
        FetchStepView::Run(_, state) => state.resumed(a),
        FetchStepView::Done(r) => FetchStepView::Done(r),
    }
}

/// Whether the diff is there: the files of the text `diff`, under these titles.
pub open spec fn shows(
    step: FetchStepView,
    diff: Seq<char>,
    left: Seq<char>,
    right: Seq<char>,
) -> bool {
    &&& step matches FetchStepView::Done(Ok(p))
    &&& p.files == parse::files_of(parse::classified(diff))
    &&& p.meta == parse::meta_of(parse::classified(diff))
    &&& p.left_label == left
    &&& p.right_label == right
}

/// Whether fetching failed for this reason.
pub open spec fn fails(step: FetchStepView, why: Seq<char>) -> bool {
    step matches FetchStepView::Done(Err(e)) && e == why
}

/// The words of a call with the number of lines around a change put third.
pub open spec fn with_context(args: Seq<Seq<char>>, n: usize) -> Seq<Seq<char>> {
    args.take(2) + seq!["--unified="@ + text::decimal(n as nat)] + args.skip(2)
}

proof fn lemma_args(sub: Seq<char>, extra: Seq<Seq<char>>, n: usize)
    ensures
        super::git_args(sub, extra, None) == seq![sub, "--no-color"@] + extra,
        super::git_args(sub, extra, Some(n)) == with_context(
            seq![sub, "--no-color"@] + extra,
            n,
        ),
{
    let plain = seq![sub, "--no-color"@] + extra;
    assert(super::git_args(sub, extra, None) =~= plain);
    assert(plain.take(2) =~= seq![sub, "--no-color"@]);
    assert(plain.skip(2) =~= extra);
    assert(super::git_args(sub, extra, Some(n)) =~= with_context(plain, n));
}

/// A diff between two refs is asked for as the range from the first to the second,
/// so that what the second has more is added. The first gives the left side its
/// title and the second the right side.
pub proof fn law_between(from: Seq<char>, to: Seq<char>, n: usize, out: OutputView)
    requires
        parse::patterns_compile(),
    ensures
        ({
            let source = SourceView::Between { from, to };
            let args = seq!["diff"@, "--no-color"@, from + ".."@ + to];
            let step = fetch::start(source, None);
            &&& asks(step, args)
            &&& asks(fetch::start(source, Some(n)), with_context(args, n))
            &&& out.success ==> shows(answered(step, Ok(out)), git::lossy(out.stdout), from, to)
            &&& !out.success ==> fails(
                answered(step, Ok(out)),
                "Failed to execute git diff command: "@ + git::lossy(out.stderr),
            )
            &&& answered(fetch::start(source, Some(n)), Ok(out)) == answered(step, Ok(out))
        }),
{
    lemma_args("diff"@, seq![from + ".."@ + to], n);
    assert(seq!["diff"@, "--no-color"@] + seq![from + ".."@ + to] =~= seq![
        "diff"@,
        "--no-color"@,
        from + ".."@ + to,
    ]);
}

/// A diff to a ref is that of the working tree against it.
pub proof fn law_to_ref(r: Seq<char>, n: usize, out: OutputView)
    requires
        parse::patterns_compile(),
    ensures
        ({
            let source = SourceView::ToRef(r);
            let args = seq!["diff"@, "--no-color"@, r];
            let step = fetch::start(source, None);
            &&& asks(step, args)
            &&& asks(fetch::start(source, Some(n)), with_context(args, n))
            &&& out.success ==> shows(
                answered(step, Ok(out)),
                git::lossy(out.stdout),
                r,
                "Working Tree"@,
            )
            &&& !out.success ==> fails(
                answered(step, Ok(out)),
                "Failed to execute git diff command: "@ + git::lossy(out.stderr),
            )
            &&& answered(fetch::start(source, Some(n)), Ok(out)) == answered(step, Ok(out))
        }),
{
    lemma_args("diff"@, seq![r], n);
    assert(seq!["diff"@, "--no-color"@] + seq![r] =~= seq!["diff"@, "--no-color"@, r]);
}

/// The diff of a commit is that against its first parent.
pub proof fn law_commit(hash: Seq<char>, n: usize, out: OutputView)
    requires
        parse::patterns_compile(),
    ensures
        ({
            let source = SourceView::Commit(hash);
            let args = seq!["show"@, "--no-color"@, "--format="@, "-m"@, "--first-parent"@, hash];
            let step = fetch::start(source, None);
            &&& asks(step, args)
            &&& asks(fetch::start(source, Some(n)), with_context(args, n))
            &&& out.success ==> shows(
                answered(step, Ok(out)),
                git::lossy(out.stdout),
                hash + "^"@,
                hash,
            )
            &&& !out.success ==> fails(
                answered(step, Ok(out)),
                "Failed to execute git show: "@ + git::lossy(out.stderr),
            )
            &&& answered(fetch::start(source, Some(n)), Ok(out)) == answered(step, Ok(out))
        }),
{
    let extra = seq!["--format="@, "-m"@, "--first-parent"@, hash];
    lemma_args("show"@, extra, n);
    assert(seq!["show"@, "--no-color"@] + extra =~= seq![
        "show"@,
        "--no-color"@,
        "--format="@,
        "-m"@,
        "--first-parent"@,
        hash,
    ]);
}

/// Custom arguments go to git word by word. Where they are a range, its ends give
/// the two sides their titles.
pub proof fn law_custom(args: Seq<char>, n: usize, out: OutputView)
    requires
        parse::patterns_compile(),
    ensures
        ({
            let source = SourceView::CustomArgs(args);
            let words = seq!["diff"@, "--no-color"@] + text::words(args);
            let step = fetch::start(source, None);
            &&& asks(step, words)
            &&& asks(fetch::start(source, Some(n)), with_context(words, n))
            &&& out.success ==> shows(
                answered(step, Ok(out)),
                git::lossy(out.stdout),
                super::left_label(args),
                super::right_label(args),
            )
            &&& !out.success ==> fails(
                answered(step, Ok(out)),
                "Failed to execute git diff command: "@ + git::lossy(out.stderr),
            )
        }),
{
    lemma_args("diff"@, text::words(args), n);
}

/// The titles of a range are its two ends.
pub proof fn law_range_titles(from: Seq<char>, to: Seq<char>)
    requires
        forall|i: int| #![trigger from[i]] 0 <= i < from.len() ==> from[i] != '.',
        forall|i: int| #![trigger to[i]] 0 <= i < to.len() ==> to[i] != '.',
        text::trim(from) == from,
        text::trim(to) == to,
    ensures
        super::left_label(from + ".."@ + to) == if from.len() > 0 {
            from
        } else {
            "Base"@
        },
        super::right_label(from + ".."@ + to) == if to.len() > 0 {
            to
        } else {
            "Target"@
        },
        super::left_label(from) == if from.len() > 0 {
            from
        } else {
            "Base"@
        },
        super::right_label(from) == "Target"@,
{
    reveal_strlit("..");
    let s = from + ".."@ + to;
    let k = from.len() as int;
    text::lemma_find(s, ".."@, 0);
    assert(s.subrange(k, k + 2) =~= ".."@);
    assert(text::occurs_at(s, ".."@, k));
    assert forall|j: int| 0 <= j < k implies !text::occurs_at(s, ".."@, j) by {
        if text::occurs_at(s, ".."@, j) {
            assert(s.subrange(j, j + 2)[0] == '.');
            assert(s[j] == from[j]);
        }
    }
    assert(text::find(s, ".."@, 0) == Some(k));
    assert(s.take(k) =~= from);
    text::lemma_find(s, ".."@, k + 2);
    assert forall|j: int| k + 2 <= j implies !text::occurs_at(s, ".."@, j) by {
        if text::occurs_at(s, ".."@, j) {
            assert(s.subrange(j, j + 2)[0] == '.');
            assert(s[j] == to[j - k - 2]);
        }
    }
    assert(text::find(s, ".."@, k + 2) is None);
    assert(s.skip(k + 2) =~= to);
    text::lemma_find(from, ".."@, 0);
    assert forall|j: int| 0 <= j implies !text::occurs_at(from, ".."@, j) by {
        if text::occurs_at(from, ".."@, j) {
            assert(from.subrange(j, j + 2)[0] == '.');
            assert(from[j] == '.');
        }
    }
    assert(text::find(from, ".."@, 0) is None);
}

/// What the command line asks for: arguments of one's own before all else, then the
/// branch since its fork, then two refs, then one.
pub proof fn law_source_asked_for(args: Seq<char>, branch: bool, from: Seq<char>, to: Seq<char>)
    requires
        from.len() > 0,
        to.len() > 0,
    ensures
        super::selected_source(Some(args), branch, from, to) == SourceView::CustomArgs(args),
        super::selected_source(None, true, from, to) == (SourceView::SinceFork {
            base: Some(from),
        }),
        super::selected_source(None, true, ""@, to) == (SourceView::SinceFork { base: None }),
        super::selected_source(None, false, from, to) == (SourceView::Between { from, to }),
        super::selected_source(None, false, from, ""@) == SourceView::ToRef(from),
        super::selected_source(None, false, ""@, ""@) == SourceView::Uncommitted,
{
    reveal_strlit("");
}

// ---------------------------------------------------------------------------
// The branch since its fork

proof fn lemma_short_hash(fork: Seq<char>, k: int)
    requires
        0 <= k <= 8,
        fork.len() >= 8,
        forall|i: int| #![trigger fork[i]] 0 <= i < fork.len() ==> (fork[i] as u32) <= 0x7f,
    ensures
        fetch::chars_in(fork.skip(8 - k), k) == Some(k as nat),
    decreases k,
{
    if k > 0 {
        lemma_short_hash(fork, k - 1);
        let s = fork.skip(8 - k);
        assert(s[0] == fork[8 - k]);
        assert(s.skip(1) =~= fork.skip(8 - (k - 1)));
    }
}

/// The branch since its fork is shown against the point at which it left its base:
/// git is asked for that point, then for the diff of the working tree against it.
/// The title names the base and the first eight characters of the point.
pub proof fn law_since_fork(
    base: Seq<char>,
    n: usize,
    point: OutputView,
    out: OutputView,
)
    requires
        parse::patterns_compile(),
        point.success,
        git::trimmed_text(point.stdout).len() >= 8,
        forall|i: int| #![trigger git::trimmed_text(point.stdout)[i]]
            0 <= i < git::trimmed_text(point.stdout).len() ==> (git::trimmed_text(
                point.stdout,
            )[i] as u32) <= 0x7f,
        out.success,
    ensures
        ({
            let fork = git::trimmed_text(point.stdout);
            let first = fetch::start(SourceView::SinceFork { base: Some(base) }, None);
            let second = answered(first, Ok(point));
            let args = seq!["diff"@, "--no-color"@, fork];
            let large = answered(
                fetch::start(SourceView::SinceFork { base: Some(base) }, Some(n)),
                Ok(point),
            );
            &&& asks(first, seq!["merge-base"@, base, "HEAD"@])
            &&& asks(second, args)
            &&& asks(large, with_context(args, n))
            &&& shows(
                answered(second, Ok(out)),
                git::lossy(out.stdout),
                base + " (fork: "@ + fork.take(8) + ")"@,
                "Working Tree"@,
            )
        }),
{
    let fork = git::trimmed_text(point.stdout);
    lemma_args("diff"@, seq![fork], n);
    assert(seq!["diff"@, "--no-color"@] + seq![fork] =~= seq!["diff"@, "--no-color"@, fork]);
    lemma_short_hash(fork, 8);
    assert(fork.skip(0) =~= fork);
}

/// Where the point at which a branch forked cannot be found, the reason is told.
pub proof fn law_no_fork_point(base: Seq<char>, point: OutputView)
    ensures
        ({
            let first = fetch::start(SourceView::SinceFork { base: Some(base) }, None);
            &&& !point.success ==> fails(
                answered(first, Ok(point)),
                "git merge-base "@ + base + " HEAD failed: "@ + git::trimmed_text(point.stderr),
            )
            &&& point.success && git::trimmed_text(point.stdout).len() == 0 ==> fails(
                answered(first, Ok(point)),
                "git merge-base "@ + base + " HEAD produced no output"@,
            )
        }),
{
}

/// Without a base the branch is shown since it left its upstream. A branch without
/// one is shown since it left `main`, or else `master`, and where there is none of
/// these a base is asked for.
pub proof fn law_default_base(found: OutputView, missing: OutputView)
    requires
        found.success,
        !missing.success,
    ensures
        ({
            let first = fetch::start(SourceView::SinceFork { base: None }, None);
            let upstream = git::trimmed_text(found.stdout);
            let main = answered(first, Ok(missing));
            let master = answered(main, Ok(missing));
            &&& asks(first, seq!["rev-parse"@, "--abbrev-ref"@, "HEAD@{u}"@])
            &&& answered(first, Ok(found)) == fetch::start(
                SourceView::SinceFork { base: Some(upstream) },
                None,
            )
            &&& asks(main, seq!["rev-parse"@, "--verify"@, "--quiet"@, "main"@])
            &&& answered(main, Ok(found)) == fetch::start(
                SourceView::SinceFork { base: Some("main"@) },
                None,
            )
            &&& asks(master, seq!["rev-parse"@, "--verify"@, "--quiet"@, "master"@])
            &&& answered(master, Ok(found)) == fetch::start(
                SourceView::SinceFork { base: Some("master"@) },
                None,
            )
            &&& fails(
                answered(master, Ok(missing)),
                "no upstream and no main/master found; specify a base: giff -b <ref>"@,
            )
        }),
{
}

/// What is asked for whole files is asked for on every way to the fork point.
pub proof fn law_context_kept(n: usize, found: OutputView, missing: OutputView)
    requires
        found.success,
        !missing.success,
    ensures
        ({
            let first = fetch::start(SourceView::SinceFork { base: None }, Some(n));
            let upstream = git::trimmed_text(found.stdout);
            let main = answered(first, Ok(missing));
            let master = answered(main, Ok(missing));
            &&& answered(first, Ok(found)) == fetch::start(
                SourceView::SinceFork { base: Some(upstream) },
                Some(n),
            )
            &&& answered(main, Ok(found)) == fetch::start(
                SourceView::SinceFork { base: Some("main"@) },
                Some(n),
            )
            &&& answered(master, Ok(found)) == fetch::start(
                SourceView::SinceFork { base: Some("master"@) },
                Some(n),
            )
        }),
{
}

// ---------------------------------------------------------------------------
// What is not committed

/// Whether git is called with these words in a directory.
pub open spec fn asks_in(step: FetchStepView, dir: Seq<char>, args: Seq<Seq<char>>) -> bool {
    step matches FetchStepView::Run(c, _) && c.dir == Some(dir) && c.args == args
}

/// The step after git answered for each of several files.
pub open spec fn after_each(step: FetchStepView, answers: Seq<AnswerView>) -> FetchStepView
    decreases answers.len(),
{
    if answers.len() == 0 {
        step
    } else {
        answered(after_each(step, answers.drop_last()), answers.last())
    }
}

/// The texts in `answers`, one after the other. What git prints of a file counts
/// even where it says that the files differ, and what is not UTF-8 is left out.
pub open spec fn texts_in(answers: Seq<AnswerView>) -> Seq<char>
    decreases answers.len(),
{
    if answers.len() == 0 {
        seq![]
    } else {
        texts_in(answers.drop_last()) + match answers.last() {
            Ok(out) => if vstd::utf8::valid_utf8(out.stdout) {
                vstd::utf8::decode_utf8(out.stdout)
            } else {
                seq![]
            },
            Err(_) => seq![],
        }
    }
}

proof fn lemma_each(
    text: Seq<char>,
    root: Seq<char>,
    files: Seq<Seq<char>>,
    answers: Seq<AnswerView>,
)
    requires
        answers.len() <= files.len(),
    ensures
        after_each(fetch::working(collect::collect_file(text, root, files, 0)), answers)
            == fetch::working(
            collect::collect_file(
                text + texts_in(answers),
                root,
                files,
                answers.len() as int,
            ),
        ),
    decreases answers.len(),
{
    reveal_strlit("");
    if answers.len() > 0 {
        let rest = answers.drop_last();
        lemma_each(text, root, files, rest);
        let more = collect::untracked_diff_in(answers.last());
        assert(text + texts_in(rest) + more =~= text + texts_in(answers));
    } else {
        assert(text + texts_in(answers) =~= text);
    }
}

/// What is not committed is shown against the last commit, with the untracked
/// files. Git is asked for the diff against `HEAD`, then at the top of the
/// repository for the files that it does not track and does not ignore, and for
/// the diff of each of them against nothing. All of it is read as one diff.
pub proof fn law_uncommitted(
    diff: OutputView,
    top: OutputView,
    list: OutputView,
    files: Seq<Seq<char>>,
    answers: Seq<AnswerView>,
)
    requires
        parse::patterns_compile(),
        diff.success,
        top.success,
        list.success,
        files == git::full_lines(text::text_lines(git::lossy(list.stdout))),
        answers.len() == files.len(),
    ensures
        ({
            let root = git::trimmed_text(top.stdout);
            let first = fetch::start(SourceView::Uncommitted, None);
            let second = answered(first, Ok(diff));
            let third = answered(second, Ok(top));
            let each = answered(third, Ok(list));
            &&& asks(first, seq!["diff"@, "--no-color"@, "HEAD"@])
            &&& asks(second, seq!["rev-parse"@, "--show-toplevel"@])
            &&& asks_in(third, root, seq!["ls-files"@, "--others"@, "--exclude-standard"@])
            &&& forall|i: int| #![trigger answers.take(i)]
                0 <= i < files.len() ==> asks_in(
                    after_each(each, answers.take(i)),
                    root,
                    seq!["diff"@, "--no-color"@, "--no-index"@, "--"@, "/dev/null"@, files[i]],
                )
            &&& shows(
                after_each(each, answers),
                git::lossy(diff.stdout) + texts_in(answers),
                "HEAD"@,
                "Working Tree"@,
            )
        }),
{
    lemma_args("diff"@, seq!["HEAD"@], 0);
    assert(seq!["diff"@, "--no-color"@] + seq!["HEAD"@] =~= seq!["diff"@, "--no-color"@, "HEAD"@]);
    let root = git::trimmed_text(top.stdout);
    let body = git::lossy(diff.stdout);
    let each = answered(answered(answered(fetch::start(SourceView::Uncommitted, None), Ok(diff)), Ok(top)), Ok(list));
    assert(each == fetch::working(collect::collect_file(body, root, files, 0)));
    lemma_each(body, root, files, answers);
    assert forall|i: int| #![trigger answers.take(i)] 0 <= i < files.len() implies asks_in(
        after_each(each, answers.take(i)),
        root,
        seq!["diff"@, "--no-color"@, "--no-index"@, "--"@, "/dev/null"@, files[i]],
    ) by {
        lemma_each(body, root, files, answers.take(i));
    }
}

/// Where there is no commit yet, the working tree is shown against the index. Any
/// other failure is told.
pub proof fn law_before_first_commit(failed: OutputView, head: OutputView, diff: OutputView)
    requires
        !failed.success,
        diff.success,
    ensures
        ({
            let first = fetch::start(SourceView::Uncommitted, None);
            let second = answered(first, Ok(failed));
            let third = answered(second, Ok(head));
            &&& asks(second, seq!["rev-parse"@, "--verify"@, "--quiet"@, "HEAD"@])
            &&& head.success ==> fails(
                third,
                "Failed to execute git diff command: "@ + git::lossy(failed.stderr),
            )
            &&& !head.success ==> asks(third, seq!["diff"@, "--no-color"@]) && answered(
                third,
                Ok(diff),
            ) == answered(first, Ok(diff))
        }),
{
    lemma_args("diff"@, seq![], 0);
    assert(seq!["diff"@, "--no-color"@] + Seq::<Seq<char>>::empty() =~= seq![
        "diff"@,
        "--no-color"@,
    ]);
}

/// What keeps git from being called keeps a diff from being fetched.
pub proof fn law_call_failed(source: SourceView, context: Option<usize>, e: Seq<char>)
    ensures
        fails(answered(fetch::start(source, context), Err(e)), e),
{
}

} // verus!
