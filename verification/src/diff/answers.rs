//! What git's answers are read as.
use vstd::prelude::*;
use super::git;
use super::git::{AnswerView, OutputView};
use super::rebase;
use super::rebase::{
    CheckingView, CheckStepView, GatheringView, GatherStepView, PullingView, PullStepView,
    RebaseStepView, RebasingView,
};
use super::collect;
use super::CommitView;
use crate::commit;
use crate::text;

verus! {

/// Whether a name has no white space at its ends.
pub open spec fn tight(name: Seq<char>) -> bool {
    name.len() > 0 && !text::white(name[0]) && !text::white(name.last())
}

/// Whether git printed `name` and a line feed, and exited with success.
pub open spec fn printed(out: OutputView, name: Seq<char>) -> bool {
    out.success && git::lossy(out.stdout) == name + seq!['\n']
}

/// The name that git prints is the one of the upstream, of the branch or of the top
/// directory, without the line feed, whatever it writes as errors.
pub proof fn law_names_read(out: OutputView, name: Seq<char>)
    requires
        tight(name),
        printed(out, name),
    ensures
        git::upstream_in(Ok(out)) == Ok::<Option<Seq<char>>, Seq<char>>(Some(name)),
        git::branch_in(Ok(out)) == Ok::<Seq<char>, Seq<char>>(name),
        git::root_in(Ok(out)) == Ok::<Seq<char>, Seq<char>>(name),
{
    text::law_trimmed_line(name);
}

/// A branch need not have an upstream, but what else fails is an error, with what
/// git wrote as errors.
pub proof fn law_names_missing(out: OutputView, e: Seq<char>)
    requires
        !out.success,
    ensures
        git::upstream_in(Ok(out)) == Ok::<Option<Seq<char>>, Seq<char>>(None),
        git::branch_in(Ok(out)) == Err::<Seq<char>, Seq<char>>(
            "Failed to resolve current branch: "@ + git::lossy(out.stderr),
        ),
        git::root_in(Ok(out)) == Err::<Seq<char>, Seq<char>>("Not in a git repository"@),
        git::remotes_in(Ok(out)) == Err::<Seq<Seq<char>>, Seq<char>>(
            "Failed to list remotes: "@ + git::trimmed_text(out.stderr),
        ),
        git::log_in(Ok(out)) == Err::<Seq<CommitView>, Seq<char>>(
            "Failed to execute git log: "@ + git::lossy(out.stderr),
        ),
        git::finished_view(Ok(out)) == Err::<(), Seq<char>>(git::trimmed_text(out.stderr)),
        git::counts_in(Ok(out)) == (0usize, 0usize),
        git::upstream_in(Err(e)) == Err::<Option<Seq<char>>, Seq<char>>(e),
        git::branch_in(Err(e)) == Err::<Seq<char>, Seq<char>>(e),
        git::root_in(Err(e)) == Err::<Seq<char>, Seq<char>>(e),
        git::changes_in(Err(e)) == Err::<bool, Seq<char>>(e),
        git::finished_view(Err(e)) == Err::<(), Seq<char>>(e),
        git::finished_view(Ok(OutputView { success: true, ..out })) == Ok::<(), Seq<char>>(()),
{
}

/// Something is not committed exactly where git prints something that is not white.
pub proof fn law_changes_read(out: OutputView)
    ensures
        git::changes_in(Ok(out)) == Ok::<bool, Seq<char>>(
            exists|i: int|
                0 <= i < git::lossy(out.stdout).len() && !text::white(
                    #[trigger] git::lossy(out.stdout)[i],
                ),
        ),
{
    let s = git::lossy(out.stdout);
    let t = text::trim(s);
    text::law_trimmed(s);
    let at = choose|i: int|
        0 <= i && i + t.len() <= s.len() && t == #[trigger] s.subrange(i, i + t.len()) && (forall|
            j: int,
        |
            #![trigger s[j]]
            0 <= j < s.len() && !(i <= j < i + t.len()) ==> text::white(s[j]));
    if t.len() > 0 {
        assert(t[0] == s[at]);
        assert(!text::white(s[at]));
    }
}

/// Git writes how many commits the branch is behind its upstream before how many it
/// is ahead.
pub proof fn law_counts_read(out: OutputView, ahead: nat, behind: nat, sep: char)
    requires
        out.success,
        ahead <= usize::MAX,
        behind <= usize::MAX,
        text::white(sep),
        git::lossy(out.stdout) == text::decimal(behind) + seq![sep] + (text::decimal(ahead)
            + seq!['\n']),
    ensures
        git::counts_in(Ok(out)) == (ahead as usize, behind as usize),
{
    text::law_decimal(ahead);
    text::law_decimal(behind);
    let a = text::decimal(ahead);
    let b = text::decimal(behind);
    let none = Seq::<char>::empty();
    assert(text::number(a, usize::MAX as nat) == Some(ahead));
    assert(text::number(b, usize::MAX as nat) == Some(behind));
    assert forall|j: int| 0 <= j < a.len() implies !text::white(#[trigger] a[j]) by {
        assert(text::digit(a[j]));
    }
    assert forall|j: int| 0 <= j < b.len() implies !text::white(#[trigger] b[j]) by {
        assert(text::digit(b[j]));
    }
    text::law_first_word(a, '\n', none);
    assert(a + seq!['\n'] + none =~= a + seq!['\n']);
    text::law_first_word(b, sep, a + seq!['\n']);
    assert(text::words(none) =~= seq![]);
    let ws = text::words(git::lossy(out.stdout));
    assert(ws =~= seq![b, a]);
}

/// How the branch stands is told by its name, its upstream and the counts. Without
/// an upstream there is nothing to count, and a name that cannot be found is left
/// empty.
pub proof fn law_branch_standing(
    branch: OutputView,
    upstream: OutputView,
    counts: AnswerView,
    missing: OutputView,
    b: Seq<char>,
    u: Seq<char>,
)
    requires
        tight(b),
        tight(u),
        printed(branch, b),
        printed(upstream, u),
        !missing.success,
    ensures
        ({
            let s = git::status_in(Ok(branch), Ok(upstream), counts);
            &&& s.name == b
            &&& s.upstream == Some(u)
            &&& (s.ahead, s.behind) == git::counts_in(counts)
        }),
        ({
            let s = git::status_in(Ok(branch), Ok(missing), counts);
            s.name == b && s.upstream is None && s.ahead == 0 && s.behind == 0
        }),
        git::status_in(Ok(missing), Ok(upstream), counts).name == Seq::<char>::empty(),
{
    reveal_strlit("");
    law_names_read(branch, b);
    law_names_read(upstream, u);
    assert(""@ =~= Seq::<char>::empty());
}

/// The lines of what git prints, without empty ones, are the remotes.
pub proof fn law_remotes_read(out: OutputView)
    requires
        out.success,
    ensures
        git::remotes_in(Ok(out)) == Ok::<Seq<Seq<char>>, Seq<char>>(
            text::text_lines(git::lossy(out.stdout)).filter(|line: Seq<char>| line.len() > 0),
        ),
        collect::untracked_in(Ok(out)) == text::text_lines(git::lossy(out.stdout)).filter(
            |line: Seq<char>| line.len() > 0,
        ),
{
    lemma_full_lines(text::text_lines(git::lossy(out.stdout)));
}

proof fn lemma_full_lines(lines: Seq<Seq<char>>)
    ensures
        git::full_lines(lines) == lines.filter(|line: Seq<char>| line.len() > 0),
    decreases lines.len(),
{
    reveal_with_fuel(Seq::filter, 2);
    if lines.len() > 0 {
        lemma_full_lines(lines.drop_last());
    }
}

/// The lines of the log are its commits, in order: the hash up to the first space,
/// and the subject after it.
pub proof fn law_log_read(out: OutputView, commits: Seq<CommitView>)
    requires
        out.success,
        text::text_lines(git::lossy(out.stdout)) == commits.map_values(
            |c: CommitView| c.hash + seq![' '] + c.subject,
        ),
        forall|i: int| #![trigger commits[i]]
            0 <= i < commits.len() ==> commits[i].hash.len() > 0 && forall|j: int|
                0 <= j < commits[i].hash.len() ==> #[trigger] commits[i].hash[j] != ' ',
    ensures
        git::log_in(Ok(out)) == Ok::<Seq<CommitView>, Seq<char>>(commits),
{
    lemma_commits(commits);
}

proof fn lemma_commits(commits: Seq<CommitView>)
    requires
        forall|i: int| #![trigger commits[i]]
            0 <= i < commits.len() ==> commits[i].hash.len() > 0 && forall|j: int|
                0 <= j < commits[i].hash.len() ==> #[trigger] commits[i].hash[j] != ' ',
    ensures
        git::commits_of(
            commits.map_values(|c: CommitView| c.hash + seq![' '] + c.subject),
        ) == commits,
    decreases commits.len(),
{
    let lines = commits.map_values(|c: CommitView| c.hash + seq![' '] + c.subject);
    if commits.len() > 0 {
        let rest = commits.drop_last();
        assert forall|i: int| #![trigger rest[i]] 0 <= i < rest.len() implies rest[i].hash.len()
            > 0 && forall|j: int|
            0 <= j < rest[i].hash.len() ==> #[trigger] rest[i].hash[j] != ' ' by {
            assert(rest[i] == commits[i]);
        }
        lemma_commits(rest);
        let c = commits[commits.len() - 1];
        let line = c.hash + seq![' '] + c.subject;
        assert(lines.last() == line);
        assert(lines.drop_last() =~= rest.map_values(
            |c: CommitView| c.hash + seq![' '] + c.subject,
        ));
        let n = c.hash.len() as int;
        assert forall|j: int| 0 <= j < n implies #[trigger] line[j] != ' ' by {
            assert(line[j] == c.hash[j]);
        }
        assert(line[n] == ' ');
        text::lemma_find_char(line, ' ', n);
        assert(line.take(n) =~= c.hash);
        assert(line.skip(n + 1) =~= c.subject);
        assert(rest.push(c) =~= commits);
    } else {
        assert(git::commits_of(lines) =~= commits);
    }
}

// ---------------------------------------------------------------------------
// Whether a rebase is needed

/// Whether git is called with these words, where the program runs, to find out
/// whether a rebase is needed.
pub open spec fn checks(step: CheckStepView, args: Seq<Seq<char>>) -> bool {
    step matches CheckStepView::Run(c, _) && c.dir is None && c.args == args
}

/// What is done after git answered.
pub open spec fn checked(step: CheckStepView, a: AnswerView) -> CheckStepView {
    match step {
        CheckStepView::Run(_, state) => state.resumed(a),
        CheckStepView::Done(r) => CheckStepView::Done(r),
    }
}

/// From the first question to the advice: git is asked whether there is a working
/// tree, for the branch, for its upstream and for how the one stands to the
/// other. By what it prints, a branch that is behind is advised to be rebased, one
/// that is ahead as well is said to have diverged, and any other gets no advice.
/// What git writes as errors makes no difference.
pub proof fn law_rebase_advised(
    inside: OutputView,
    branch: OutputView,
    upstream: OutputView,
    status: OutputView,
    b: Seq<char>,
    u: Seq<char>,
    ahead: nat,
    behind: nat,
    rest: Seq<char>,
)
    requires
        inside.success,
        tight(b),
        tight(u),
        rebase::ref_like(b),
        rebase::ref_like(u),
        printed(branch, b),
        printed(upstream, u),
        git::lossy(status.stdout) == rebase::branch_line(b, u, ahead, behind) + rest,
        rest.len() == 0 || rest[0] == '\n',
    ensures
        ({
            let first = rebase::check_start();
            let second = checked(first, Ok(inside));
            let third = checked(second, Ok(branch));
            let fourth = checked(third, Ok(upstream));
            &&& checks(first, seq!["rev-parse"@, "--is-inside-work-tree"@])
            &&& checks(second, seq!["symbolic-ref"@, "--short"@, "HEAD"@])
            &&& checks(third, seq!["rev-parse"@, "--abbrev-ref"@, b + "@{u}"@])
            &&& checks(fourth, seq!["status"@, "-sb"@])
            &&& checked(fourth, Ok(status)) == CheckStepView::Done(
                Ok(
                    if behind == 0 {
                        None
                    } else if ahead == 0 {
                        Some(
                            "Your branch '"@ + b + "' is behind '"@ + u
                                + "'. A rebase is recommended."@,
                        )
                    } else {
                        Some(
                            "Your branch '"@ + b + "' has diverged from '"@ + u
                                + "'.\nConsider rebasing to integrate changes cleanly."@,
                        )
                    },
                ),
            )
        }),
{
    law_names_read(branch, b);
    law_names_read(upstream, u);
    rebase::law_advised_when_behind(b, u, ahead, behind, rest);
}

/// Without a working tree, a branch or an upstream there is no advice, and no
/// error.
pub proof fn law_no_advice(missing: OutputView, b: Seq<char>, u: Seq<char>, e: Seq<char>)
    requires
        !missing.success,
    ensures
        CheckingView::Inside.resumed(Ok(missing)) == CheckStepView::Done(Ok(None)),
        CheckingView::Branch.resumed(Ok(missing)) == CheckStepView::Done(Ok(None)),
        CheckingView::Branch.resumed(Err(e)) == CheckStepView::Done(Ok(None)),
        (CheckingView::Upstream { branch: b }).resumed(Ok(missing)) == CheckStepView::Done(
            Ok(None),
        ),
        (CheckingView::Upstream { branch: b }).resumed(Err(e)) == CheckStepView::Done(Ok(None)),
        CheckingView::Inside.resumed(Err(e)) == CheckStepView::Done(Err(e)),
        (CheckingView::Status { branch: b, upstream: u }).resumed(Err(e)) == CheckStepView::Done(
            Err(e),
        ),
{
}

// ---------------------------------------------------------------------------
// Rebasing and pulling

/// A branch with nothing uncommitted is rebased onto its upstream, and that it was
/// is known by git's success. A rebase that fails is rolled back and counts as not
/// done. With something uncommitted nothing is rebased.
pub proof fn law_rebased(
    upstream: Seq<char>,
    clean: OutputView,
    dirty: OutputView,
    good: OutputView,
    bad: OutputView,
    last: AnswerView,
)
    requires
        git::trimmed_text(clean.stdout).len() == 0,
        git::trimmed_text(dirty.stdout).len() > 0,
        good.success,
        !bad.success,
    ensures
        (RebasingView::Status { upstream }).resumed(Ok(clean)) == RebaseStepView::Run(
            git::CommandView { dir: None, args: seq!["rebase"@, upstream] },
            RebasingView::Rebase,
        ),
        (RebasingView::Status { upstream }).resumed(Ok(dirty)) matches RebaseStepView::Done(
            Err(_),
        ),
        RebasingView::Rebase.resumed(Ok(good)) == RebaseStepView::Done(Ok(true)),
        RebasingView::Rebase.resumed(Ok(bad)) == RebaseStepView::Run(
            git::CommandView { dir: None, args: seq!["rebase"@, "--abort"@] },
            RebasingView::Abort,
        ),
        RebasingView::Abort.resumed(last) == RebaseStepView::Done(Ok(false)),
{
}

/// A pull that git carries out is done. One that it does not carry out is rolled
/// back, and what git wrote as errors of the pull is the reason, whatever comes of
/// rolling it back.
pub proof fn law_pulled(good: OutputView, bad: OutputView, last: AnswerView)
    requires
        good.success,
        !bad.success,
    ensures
        PullingView::Pull.resumed(Ok(good)) == PullStepView::Done(Ok(())),
        PullingView::Pull.resumed(Ok(bad)) matches PullStepView::Run(c, state) && c.dir is None
            && c.args == seq!["rebase"@, "--abort"@] && state.resumed(last) == PullStepView::Done(
            Err(git::trimmed_text(bad.stderr)),
        ),
{
}

// ---------------------------------------------------------------------------
// What a commit message is written from

/// What is done after git answered.
pub open spec fn gathered_then(step: GatherStepView, a: AnswerView) -> GatherStepView {
    match step {
        GatherStepView::Run(_, state) => state.resumed(a),
        GatherStepView::Done(r) => GatherStepView::Done(r),
    }
}

/// The step after git answered for each of several files.
pub open spec fn gathered_each(step: GatherStepView, answers: Seq<AnswerView>) -> GatherStepView
    decreases answers.len(),
{
    if answers.len() == 0 {
        step
    } else {
        gathered_then(gathered_each(step, answers.drop_last()), answers.last())
    }
}

proof fn lemma_gathered(
    text: Seq<char>,
    root: Seq<char>,
    files: Seq<Seq<char>>,
    answers: Seq<AnswerView>,
)
    requires
        answers.len() <= files.len(),
    ensures
        gathered_each(
            rebase::gathered(collect::collect_file(text, root, files, 0)),
            answers,
        ) == rebase::gathered(
            collect::collect_file(
                text + super::asked::texts_in(answers),
                root,
                files,
                answers.len() as int,
            ),
        ),
    decreases answers.len(),
{
    reveal_strlit("");
    if answers.len() > 0 {
        let rest = answers.drop_last();
        lemma_gathered(text, root, files, rest);
        let more = collect::untracked_diff_in(answers.last());
        assert(text + super::asked::texts_in(rest) + more =~= text + super::asked::texts_in(
            answers,
        ));
    } else {
        assert(text + super::asked::texts_in(answers) =~= text);
    }
}

/// A commit message is written from the subjects of the last commits, where there
/// are any, and from the diff of all that is not committed, untracked files too.
pub proof fn law_context_gathered(
    log: OutputView,
    diff: OutputView,
    top: OutputView,
    list: OutputView,
    files: Seq<Seq<char>>,
    answers: Seq<AnswerView>,
)
    requires
        log.success,
        diff.success,
        top.success,
        list.success,
        files == git::full_lines(text::text_lines(git::lossy(list.stdout))),
        answers.len() == files.len(),
    ensures
        ({
            let subjects = git::lossy(log.stdout);
            let second = rebase::GatheringView::Log.resumed(Ok(log));
            let third = gathered_then(second, Ok(diff));
            let fourth = gathered_then(third, Ok(top));
            let each = gathered_then(fourth, Ok(list));
            let title = "=== Diff to be committed ===\n"@;
            let body = git::lossy(diff.stdout) + super::asked::texts_in(answers);
            &&& second matches GatherStepView::Run(c, _) && c.dir is None && c.args == seq![
                "diff"@,
                "HEAD"@,
                "--no-color"@,
            ]
            &&& third matches GatherStepView::Run(c, _) && c.dir is None && c.args == seq![
                "rev-parse"@,
                "--show-toplevel"@,
            ]
            &&& text::trim(subjects).len() > 0 ==> gathered_each(each, answers)
                == GatherStepView::Done(
                Ok(
                    "=== Recent commits (for style reference) ===\n"@ + text::trim_end(subjects)
                        + "\n\n"@ + title + body,
                ),
            )
            &&& text::trim(subjects).len() == 0 ==> gathered_each(each, answers)
                == GatherStepView::Done(Ok(title + body))
        }),
{
    reveal_strlit("");
    let start = rebase::preamble(log) + git::lossy(diff.stdout);
    let root = git::trimmed_text(top.stdout);
    lemma_gathered(start, root, files, answers);
    let title = "=== Diff to be committed ===\n"@;
    let body = git::lossy(diff.stdout) + super::asked::texts_in(answers);
    if text::trim(git::lossy(log.stdout)).len() > 0 {
        assert(start + super::asked::texts_in(answers) =~=
            "=== Recent commits (for style reference) ===\n"@ + text::trim_end(
            git::lossy(log.stdout),
        ) + "\n\n"@ + title + body);
    } else {
        assert(start + super::asked::texts_in(answers) =~= title + body);
    }
}

// ---------------------------------------------------------------------------
// The message that a program writes

/// A fence around a message is taken off, whatever language it names, and so is the
/// white space around it. The message itself is kept to the letter.
pub proof fn law_fence_taken_off(language: Seq<char>, message: Seq<char>)
    requires
        tight(message),
        !text::contains(message, "```"@),
        forall|i: int| #![trigger language[i]] 0 <= i < language.len() ==> language[i] != '\n',
        forall|i: int| #![trigger message[i]] 0 <= i < message.len() ==> message[i] != '`',
    ensures
        commit::cleaned("```"@ + language + seq!['\n'] + message + seq!['\n'] + "```"@) == message,
        commit::cleaned(message) == message,
        commit::cleaned(message + seq!['\n']) == message,
{
    reveal_strlit("```");
    text::law_trimmed_line(message);
    let fence = "```"@;
    let s = fence + language + seq!['\n'] + message + seq!['\n'] + fence;
    assert(s[0] == '`');
    assert(s.last() == '`');
    text::law_trimmed_line(s);
    assert(s.subrange(0, 3) =~= fence);
    let n = 3 + language.len() as int;
    assert forall|j: int| 0 <= j < n implies #[trigger] s[j] != '\n' by {
        if j >= 3 {
            assert(s[j] == language[j - 3]);
        }
    }
    assert(s[n] == '\n');
    text::lemma_find_char(s, '\n', n);
    let t = s.skip(n + 1);
    assert(t =~= message + seq!['\n'] + fence);
    assert(commit::after_first_line(s) == t);
    let k = message.len() as int + 1;
    assert(t.subrange(k, k + 3) =~= fence);
    assert(text::occurs_at(t, fence, k));
    lemma_rfind_last(t, fence, k);
    assert(t.take(k) =~= message + seq!['\n']);
    assert(commit::before_last_fence(t) == message + seq!['\n']);
    if fence.is_prefix_of(message) {
        assert(message.subrange(0, 3)[0] == '`');
        assert(message[0] == '`');
    }
}

proof fn lemma_rfind_last(s: Seq<char>, p: Seq<char>, k: int)
    requires
        text::occurs_at(s, p, k),
        k + p.len() == s.len(),
        p.len() > 0,
        0 <= k,
    ensures
        text::rfind(s, p, s.len() as int) == Some(k),
{
    lemma_rfind_upto(s, p, k, s.len() as int);
}

proof fn lemma_rfind_upto(s: Seq<char>, p: Seq<char>, k: int, upto: int)
    requires
        text::occurs_at(s, p, k),
        k + p.len() == s.len(),
        p.len() > 0,
        0 <= k <= upto <= s.len(),
    ensures
        text::rfind(s, p, upto) == Some(k),
    decreases upto,
{
    if upto > k {
        assert(!text::occurs_at(s, p, upto));
        lemma_rfind_upto(s, p, k, upto - 1);
    }
}

/// What the program prints is the message, where it succeeds and prints one. Where
/// it fails, its errors are the reason, or what it printed where it wrote none.
pub proof fn law_message_read(program: Seq<char>, out: OutputView, message: Seq<char>)
    requires
        tight(message),
        !text::contains(message, "```"@),
        forall|i: int| #![trigger message[i]] 0 <= i < message.len() ==> message[i] != '`',
    ensures
        out.success && git::lossy(out.stdout) == message + seq!['\n'] ==> commit::message_in(
            program,
            Ok(out),
        ) == Ok::<Seq<char>, Seq<char>>(message),
        !out.success && git::lossy(out.stderr) == message + seq!['\n'] ==> commit::message_in(
            program,
            Ok(out),
        ) == Err::<Seq<char>, Seq<char>>(program + " exited with error: "@ + message),
        !out.success && git::trimmed_text(out.stderr).len() == 0 && git::lossy(out.stdout)
            == message + seq!['\n'] ==> commit::message_in(program, Ok(out)) == Err::<
            Seq<char>,
            Seq<char>,
        >(program + " exited with error: "@ + message),
        out.success && git::lossy(out.stdout).len() == 0 ==> commit::message_in(
            program,
            Ok(out),
        ) == Err::<Seq<char>, Seq<char>>(program + " returned an empty commit message"@),
{
    law_fence_taken_off(Seq::empty(), message);
    text::law_trimmed_line(message);
    reveal_strlit("```");
    if git::lossy(out.stdout).len() == 0 {
        let none = git::lossy(out.stdout);
        assert(text::trim(none) =~= Seq::<char>::empty());
    }
}

/// Where the log cannot be read, and where it is empty, what a message is written from
/// starts with the title of the diff. Where there is no diff of tracked files it goes
/// on with the untracked ones. What git could not even be asked ends it.
pub proof fn law_context_without_log(
    log: OutputView,
    diff: OutputView,
    text: Seq<char>,
    e: Seq<char>,
)
    ensures
        ({
            let title = "=== Diff to be committed ===\n"@;
            let next = rebase::GatheringView::Log.resumed(Ok(log));
            &&& !log.success || text::trim(git::lossy(log.stdout)).len() == 0 ==> next
                == GatherStepView::Run(
                git::call(seq!["diff"@, "HEAD"@, "--no-color"@]),
                GatheringView::Diff { text: title },
            )
            &&& !diff.success ==> GatheringView::Diff { text }.resumed(Ok(diff))
                == rebase::gathered(collect::collect(text))
            &&& diff.success ==> GatheringView::Diff { text }.resumed(Ok(diff))
                == rebase::gathered(collect::collect(text + git::lossy(diff.stdout)))
            &&& GatheringView::Log.resumed(Err(e)) == GatherStepView::Done(Err(e))
            &&& GatheringView::Diff { text }.resumed(Err(e)) == GatherStepView::Done(Err(e))
        }),
{
    let title = "=== Diff to be committed ===\n"@;
    assert(""@ + title =~= title) by {
        reveal_strlit("");
    }
}

} // verus!
