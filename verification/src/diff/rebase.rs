//! Rebasing, pulling, and what a commit message is written from.
use vstd::prelude::*;
use super::collect;
use super::collect::{CollectStep, CollectStepView, Collecting, CollectingView};
use super::git;
use super::git::{Answer, AnswerView, CommandView, GitCommand};
use crate::text;

verus! {

// ---------------------------------------------------------------------------
// Whether a rebase is needed

/// How far it has been found out whether a rebase is needed.
pub enum Checking {
    /// It was asked whether there is a working tree.
    Inside,
    /// The branch was asked for.
    Branch,
    /// The upstream of the branch was asked for.
    Upstream { branch: String },
    /// The standing of the branch was asked for.
    Status { branch: String, upstream: String },
}

/// How far it has been found out, as a mathematical value.
pub enum CheckingView {
    Inside,
    Branch,
    Upstream { branch: Seq<char> },
    Status { branch: Seq<char>, upstream: Seq<char> },
}

impl View for Checking {
    type V = CheckingView;

    open spec fn view(&self) -> CheckingView {
        match self {
            Checking::Inside => CheckingView::Inside,
            Checking::Branch => CheckingView::Branch,
            Checking::Upstream { branch } => CheckingView::Upstream { branch: branch@ },
            Checking::Status { branch, upstream } => CheckingView::Status {
                branch: branch@,
                upstream: upstream@,
            },
        }
    }
}

/// What is done next: git is called, or the advice is there.
pub enum CheckStep {
    Run(GitCommand, Checking),
    Done(Result<Option<String>, String>),
}

/// What is done next, as a mathematical value.
pub enum CheckStepView {
    Run(CommandView, CheckingView),
    Done(Result<Option<Seq<char>>, Seq<char>>),
}

impl View for CheckStep {
    type V = CheckStepView;

    open spec fn view(&self) -> CheckStepView {
        match self {
            CheckStep::Run(c, state) => CheckStepView::Run(c.deep_view(), state@),
            CheckStep::Done(r) => CheckStepView::Done(git::found(*r)),
        }
    }
}

/// What `git status -sb` says of how the branch stands to its upstream: the text
/// in brackets at the end of its first line, which is that of the branch.
pub open spec fn standing(status: Seq<char>) -> Option<Seq<char>> {
    let line = status.take(text::find_char(status, '\n') as int);
    if !"## "@.is_prefix_of(line) {
        None
    } else {
        match text::find(line, " ["@, 0) {
            Some(i) => match text::find(line, "]"@, i + 2) {
                Some(j) => Some(line.subrange(i + 2, j)),
                None => None,
            },
            None => None,
        }
    }
}

/// The advice where a branch is both ahead and behind.
pub open spec fn diverged(branch: Seq<char>, upstream: Seq<char>) -> Seq<char> {
    "Your branch '"@ + branch + "' has diverged from '"@ + upstream
        + "'.\nConsider rebasing to integrate changes cleanly."@
}

/// The advice where a branch is behind only.
pub open spec fn fell_behind(branch: Seq<char>, upstream: Seq<char>) -> Seq<char> {
    "Your branch '"@ + branch + "' is behind '"@ + upstream + "'. A rebase is recommended."@
}

/// The advice to rebase that `git status -sb` gives reason for. It is given
/// where the branch is behind, and a branch that is ahead as well has diverged.
pub open spec fn advice(status: Seq<char>, branch: Seq<char>, upstream: Seq<char>) -> Option<
    Seq<char>,
> {
    match standing(status) {
        Some(note) => if !text::contains(note, "behind"@) {
            None
        } else if text::contains(note, "ahead"@) {
            Some(diverged(branch, upstream))
        } else {
            Some(fell_behind(branch, upstream))
        },
        None => None,
    }
}

/// It is asked whether there is a working tree.
pub open spec fn check_start() -> CheckStepView {
    CheckStepView::Run(
        git::call(seq!["rev-parse"@, "--is-inside-work-tree"@]),
        CheckingView::Inside,
    )
}

impl CheckingView {
    /// After git answered. Without a working tree, a branch or an upstream
    /// there is no advice.
    pub open spec fn resumed(self, a: AnswerView) -> CheckStepView {
        match self {
            CheckingView::Inside => match a {
                Ok(out) => if out.success {
                    CheckStepView::Run(
                        git::call(seq!["symbolic-ref"@, "--short"@, "HEAD"@]),
                        CheckingView::Branch,
                    )
                } else {
                    CheckStepView::Done(Ok(None))
                },
                Err(e) => CheckStepView::Done(Err(e)),
            },
            CheckingView::Branch => match git::branch_in(a) {
                Ok(branch) => CheckStepView::Run(
                    git::call(seq!["rev-parse"@, "--abbrev-ref"@, branch + "@{u}"@]),
                    CheckingView::Upstream { branch },
                ),
                Err(_) => CheckStepView::Done(Ok(None)),
            },
            CheckingView::Upstream { branch } => match git::upstream_in(a) {
                Ok(Some(upstream)) => CheckStepView::Run(
                    git::call(seq!["status"@, "-sb"@]),
                    CheckingView::Status { branch, upstream },
                ),
                _ => CheckStepView::Done(Ok(None)),
            },
            CheckingView::Status { branch, upstream } => match a {
                Ok(out) => CheckStepView::Done(
                    Ok(advice(git::lossy(out.stdout), branch, upstream)),
                ),
                Err(e) => CheckStepView::Done(Err(e)),
            },
        }
    }
}

/// Starts to find out whether a rebase is needed.
pub fn check_rebase_needed() -> (r: CheckStep)
    ensures
        r@ == check_start(),
{
    let call = git::command(&["rev-parse", "--is-inside-work-tree"]);
    assert(call.deep_view().args =~= seq!["rev-parse"@, "--is-inside-work-tree"@]);
    CheckStep::Run(call, Checking::Inside)
}

/// What `git status -sb` says of how the branch stands to its upstream.
fn read_standing(status: &str) -> (r: Option<String>)
    ensures
        r.deep_view() == standing(status@),
{
    let all = text::chars_of(status);
    let mut n: usize = 0;
    while n < all.len() && all[n] != '\n'
        invariant
            n <= all@.len(),
            forall|j: int| 0 <= j < n ==> #[trigger] all@[j] != '\n',
        decreases all@.len() - n,
    {
        n = n + 1;
    }
    let first = text::string_between(&all, 0, n);
    let line = text::chars_of(first.as_str());
    proof {
        text::lemma_find_char(all@, '\n', n as int);
        assert(line@ =~= status@.take(n as int));
        reveal_strlit(" [");
        text::lemma_find(line@, " ["@, 0);
    }
    if !text::has_prefix(&line, "## ") {
        return None;
    }
    let i = text::find_in(&line, " [", 0)?;
    proof {
        text::lemma_find(line@, "]"@, i + 2);
    }
    let j = text::find_in(&line, "]", i + 2)?;
    Some(text::string_between(&line, i + 2, j))
}

/// The advice to rebase that `git status -sb` gives reason for.
pub fn rebase_advice(status: &str, branch: &str, upstream: &str) -> (r: Option<String>)
    ensures
        r.deep_view() == advice(status@, branch@, upstream@),
{
    let note = match read_standing(status) {
        Some(note) => note,
        None => return None,
    };
    if !text::holds(note.as_str(), "behind") {
        None
    } else if text::holds(note.as_str(), "ahead") {
        Some(
            text::cat5(
                "Your branch '",
                branch,
                "' has diverged from '",
                upstream,
                "'.\nConsider rebasing to integrate changes cleanly.",
            ),
        )
    } else {
        Some(
            text::cat5(
                "Your branch '",
                branch,
                "' is behind '",
                upstream,
                "'. A rebase is recommended.",
            ),
        )
    }
}

// ---------------------------------------------------------------------------
// What the counts give reason for

/// Whether `name` holds no space, opening bracket or line feed. Git keeps them out
/// of the names of refs.
pub open spec fn ref_like(name: Seq<char>) -> bool {
    forall|i: int| #![trigger name[i]]
        0 <= i < name.len() ==> name[i] != ' ' && name[i] != '[' && name[i] != '\n'
}

/// What git writes in brackets of a branch that is so many commits ahead of its
/// upstream and so many behind, where it is either.
pub open spec fn counts_note(ahead: nat, behind: nat) -> Seq<char> {
    if behind == 0 {
        "ahead "@ + text::decimal(ahead)
    } else if ahead == 0 {
        "behind "@ + text::decimal(behind)
    } else {
        "ahead "@ + text::decimal(ahead) + ", behind "@ + text::decimal(behind)
    }
}

/// The line of the branch that `git status -sb` starts with.
pub open spec fn branch_line(
    branch: Seq<char>,
    upstream: Seq<char>,
    ahead: nat,
    behind: nat,
) -> Seq<char> {
    let names = "## "@ + branch + "..."@ + upstream;
    if ahead == 0 && behind == 0 {
        names
    } else {
        names + " ["@ + counts_note(ahead, behind) + "]"@
    }
}

spec fn without(s: Seq<char>, c: char) -> bool {
    forall|i: int| #![trigger s[i]] 0 <= i < s.len() ==> s[i] != c
}

proof fn lemma_not_contained(s: Seq<char>, p: Seq<char>, k: int)
    requires
        0 <= k < p.len(),
        without(s, p[k]),
    ensures
        !text::contains(s, p),
{
    if text::contains(s, p) {
        let i = choose|i: int| text::occurs_at(s, p, i);
        assert(s.subrange(i, i + p.len())[k] == p[k]);
        assert(s[i + k] == p[k]);
    }
}

proof fn lemma_decimal_without(n: nat, c: char)
    requires
        !text::digit(c),
    ensures
        without(text::decimal(n), c),
    decreases n,
{
    if n >= 10 {
        lemma_decimal_without(n / 10, c);
    }
}

proof fn lemma_counts_note(ahead: nat, behind: nat)
    requires
        ahead > 0 || behind > 0,
    ensures
        without(counts_note(ahead, behind), ']'),
        without(counts_note(ahead, behind), '\n'),
        text::contains(counts_note(ahead, behind), "behind"@) == (behind > 0),
        behind > 0 ==> text::contains(counts_note(ahead, behind), "ahead"@) == (ahead > 0),
{
    reveal_strlit("ahead ");
    reveal_strlit("behind ");
    reveal_strlit(", behind ");
    reveal_strlit("ahead");
    reveal_strlit("behind");
    let a = text::decimal(ahead);
    let note = counts_note(ahead, behind);
    lemma_decimal_without(ahead, ']');
    lemma_decimal_without(behind, ']');
    lemma_decimal_without(ahead, '\n');
    lemma_decimal_without(behind, '\n');
    if behind == 0 {
        lemma_decimal_without(ahead, 'b');
        lemma_not_contained(note, "behind"@, 0);
    } else if ahead == 0 {
        assert(note.subrange(0, 6) =~= "behind"@);
        assert(text::occurs_at(note, "behind"@, 0));
        lemma_decimal_without(behind, 'a');
        lemma_not_contained(note, "ahead"@, 0);
    } else {
        assert(note.subrange(0, 5) =~= "ahead"@);
        assert(text::occurs_at(note, "ahead"@, 0));
        let k: int = 6 + a.len() as int + 2;
        assert(note.subrange(k, k + 6) =~= "behind"@);
        assert(text::occurs_at(note, "behind"@, k));
    }
}

/// What the line of the branch says of its standing, whatever comes after it.
proof fn lemma_standing(
    branch: Seq<char>,
    upstream: Seq<char>,
    ahead: nat,
    behind: nat,
    rest: Seq<char>,
)
    requires
        ref_like(branch),
        ref_like(upstream),
        rest.len() == 0 || rest[0] == '\n',
    ensures
        standing(branch_line(branch, upstream, ahead, behind) + rest) == if ahead == 0 && behind
            == 0 {
            None
        } else {
            Some(counts_note(ahead, behind))
        },
{
    reveal_strlit("## ");
    reveal_strlit("...");
    reveal_strlit(" [");
    reveal_strlit("]");
    let names = "## "@ + branch + "..."@ + upstream;
    let line = branch_line(branch, upstream, ahead, behind);
    let status = line + rest;
    let note = counts_note(ahead, behind);
    let k = names.len() as int;
    assert(without(names, '[')) by {
        assert(without("## "@, '[') && without(branch, '[') && without("..."@, '[') && without(
            upstream,
            '[',
        ));
    }
    assert(without(names, '\n')) by {
        assert(without("## "@, '\n') && without(branch, '\n') && without("..."@, '\n') && without(
            upstream,
            '\n',
        ));
    }
    if ahead > 0 || behind > 0 {
        lemma_counts_note(ahead, behind);
    }
    assert(without(line, '\n'));
    assert forall|j: int| 0 <= j < line.len() implies #[trigger] status[j] != '\n' by {
        assert(status[j] == line[j]);
    }
    text::lemma_find_char(status, '\n', line.len() as int);
    assert(status.take(line.len() as int) =~= line);
    assert("## "@.is_prefix_of(line)) by {
        assert(line.subrange(0, 3) =~= "## "@);
    }
    text::lemma_find(line, " ["@, 0);
    assert forall|j: int| 0 <= j < k implies !text::occurs_at(line, " ["@, j) by {
        if text::occurs_at(line, " ["@, j) {
            assert(line.subrange(j, j + 2)[1] == '[');
            assert(line[j + 1] == '[');
            if j + 1 < k {
                assert(names[j + 1] == line[j + 1]);
            }
        }
    }
    if ahead == 0 && behind == 0 {
        assert(text::find(line, " ["@, 0) is None);
    } else {
        assert(line.subrange(k, k + 2) =~= " ["@);
        assert(text::occurs_at(line, " ["@, k));
        let end = k + 2 + note.len();
        text::lemma_find(line, "]"@, k + 2);
        assert(line.subrange(end, end + 1) =~= "]"@);
        assert(text::occurs_at(line, "]"@, end));
        assert forall|j: int| k + 2 <= j < end implies !text::occurs_at(line, "]"@, j) by {
            if text::occurs_at(line, "]"@, j) {
                assert(line.subrange(j, j + 1)[0] == ']');
                assert(line[j] == note[j - k - 2]);
            }
        }
        assert(line.subrange(k + 2, end) =~= note);
    }
}

/// A rebase is advised exactly where the branch is behind its upstream, and the
/// branch is said to have diverged exactly where it is ahead as well. What the
/// branch and the files are named makes no difference.
pub proof fn law_advised_when_behind(
    branch: Seq<char>,
    upstream: Seq<char>,
    ahead: nat,
    behind: nat,
    rest: Seq<char>,
)
    requires
        ref_like(branch),
        ref_like(upstream),
        rest.len() == 0 || rest[0] == '\n',
    ensures
        advice(branch_line(branch, upstream, ahead, behind) + rest, branch, upstream) == if behind
            == 0 {
            None
        } else if ahead > 0 {
            Some(diverged(branch, upstream))
        } else {
            Some(fell_behind(branch, upstream))
        },
{
    lemma_standing(branch, upstream, ahead, behind, rest);
    if ahead > 0 || behind > 0 {
        lemma_counts_note(ahead, behind);
    }
}

impl Checking {
    /// Takes in git's answer.
    pub fn resume(self, reply: Answer) -> (r: CheckStep)
        ensures
            r@ == self@.resumed(git::answer(reply)),
    {
        match self {
            Checking::Inside => match reply {
                Ok(out) => if out.success {
                    CheckStep::Run(git::branch_command(), Checking::Branch)
                } else {
                    CheckStep::Done(Ok(None))
                },
                Err(e) => CheckStep::Done(Err(e)),
            },
            Checking::Branch => match git::current_branch(reply) {
                Ok(branch) => {
                    let name = text::cat2(branch.as_str(), "@{u}");
                    let call = git::command(&["rev-parse", "--abbrev-ref", name.as_str()]);
                    assert(call.deep_view().args =~= seq![
                        "rev-parse"@,
                        "--abbrev-ref"@,
                        branch@ + "@{u}"@,
                    ]);
                    CheckStep::Run(call, Checking::Upstream { branch })
                },
                Err(_) => CheckStep::Done(Ok(None)),
            },
            Checking::Upstream { branch } => match git::get_upstream_branch(reply) {
                Ok(Some(upstream)) => {
                    let call = git::command(&["status", "-sb"]);
                    assert(call.deep_view().args =~= seq!["status"@, "-sb"@]);
                    CheckStep::Run(call, Checking::Status { branch, upstream })
                },
                _ => CheckStep::Done(Ok(None)),
            },
            Checking::Status { branch, upstream } => match reply {
                Ok(out) => {
                    let status = git::from_utf8_lossy(&out.stdout);
                    CheckStep::Done(
                        Ok(rebase_advice(status.as_str(), branch.as_str(), upstream.as_str())),
                    )
                },
                Err(e) => CheckStep::Done(Err(e)),
            },
        }
    }
}

// ---------------------------------------------------------------------------
// Rebasing

/// How far a rebase has come.
pub enum Rebasing {
    /// It was asked what is not committed.
    Status { upstream: String },
    /// The rebase was called for.
    Rebase,
    /// A rebase that failed is rolled back.
    Abort,
}

/// How far a rebase has come, as a mathematical value.
pub enum RebasingView {
    Status { upstream: Seq<char> },
    Rebase,
    Abort,
}

impl View for Rebasing {
    type V = RebasingView;

    open spec fn view(&self) -> RebasingView {
        match self {
            Rebasing::Status { upstream } => RebasingView::Status { upstream: upstream@ },
            Rebasing::Rebase => RebasingView::Rebase,
            Rebasing::Abort => RebasingView::Abort,
        }
    }
}

/// What is done next: git is called, or it is known whether the branch was
/// rebased.
pub enum RebaseStep {
    Run(GitCommand, Rebasing),
    Done(Result<bool, String>),
}

/// What is done next, as a mathematical value.
pub enum RebaseStepView {
    Run(CommandView, RebasingView),
    Done(Result<bool, Seq<char>>),
}

impl View for RebaseStep {
    type V = RebaseStepView;

    open spec fn view(&self) -> RebaseStepView {
        match self {
            RebaseStep::Run(c, state) => RebaseStepView::Run(c.deep_view(), state@),
            RebaseStep::Done(r) => RebaseStepView::Done(
                match r {
                    Ok(b) => Ok(*b),
                    Err(e) => Err(e@),
                },
            ),
        }
    }
}

/// A rebase that failed is rolled back.
pub open spec fn abort_call() -> CommandView {
    git::call(seq!["rebase"@, "--abort"@])
}

impl RebasingView {
    /// After git answered. Nothing is rebased while something is not
    /// committed, and a rebase that fails is rolled back.
    pub open spec fn resumed(self, a: AnswerView) -> RebaseStepView {
        match self {
            RebasingView::Status { upstream } => match git::changes_in(a) {
                Ok(true) => RebaseStepView::Done(
                    Err(
                        "Cannot rebase: you have uncommitted changes. Please commit or stash them first."@,
                    ),
                ),
                Ok(false) => RebaseStepView::Run(
                    git::call(seq!["rebase"@, upstream]),
                    RebasingView::Rebase,
                ),
                Err(e) => RebaseStepView::Done(Err(e)),
            },
            RebasingView::Rebase => match a {
                Ok(out) => if out.success {
                    RebaseStepView::Done(Ok(true))
                } else {
                    RebaseStepView::Run(abort_call(), RebasingView::Abort)
                },
                Err(e) => RebaseStepView::Done(Err(e)),
            },
            RebasingView::Abort => RebaseStepView::Done(Ok(false)),
        }
    }
}

/// Asks git to roll a rebase back.
fn abort_command() -> (r: GitCommand)
    ensures
        r.deep_view() == abort_call(),
{
    let r = git::command(&["rebase", "--abort"]);
    assert(r.deep_view().args =~= seq!["rebase"@, "--abort"@]);
    r
}

/// Starts to rebase the branch onto `upstream`.
pub fn perform_rebase(upstream: &str) -> (r: RebaseStep)
    ensures
        r@ == RebaseStepView::Run(
            git::call(seq!["status"@, "--porcelain"@]),
            RebasingView::Status { upstream: upstream@ },
        ),
{
    RebaseStep::Run(
        git::changes_command(),
        Rebasing::Status { upstream: upstream.to_owned() },
    )
}

impl Rebasing {
    /// Takes in git's answer.
    pub fn resume(self, reply: Answer) -> (r: RebaseStep)
        ensures
            r@ == self@.resumed(git::answer(reply)),
    {
        match self {
            Rebasing::Status { upstream } => match git::has_uncommitted_changes(reply) {
                Ok(changed) => {
                    if changed {
                        RebaseStep::Done(
                            Err(
                                "Cannot rebase: you have uncommitted changes. Please commit or stash them first.".to_owned(),
                            ),
                        )
                    } else {
                        let call = git::command(&["rebase", upstream.as_str()]);
                        assert(call.deep_view().args =~= seq!["rebase"@, upstream@]);
                        RebaseStep::Run(call, Rebasing::Rebase)
                    }
                },
                Err(e) => RebaseStep::Done(Err(e)),
            },
            Rebasing::Rebase => match reply {
                Ok(out) => if out.success {
                    RebaseStep::Done(Ok(true))
                } else {
                    RebaseStep::Run(abort_command(), Rebasing::Abort)
                },
                Err(e) => RebaseStep::Done(Err(e)),
            },
            Rebasing::Abort => RebaseStep::Done(Ok(false)),
        }
    }
}

// ---------------------------------------------------------------------------
// Pulling

/// How far a pull has come.
pub enum Pulling {
    /// The pull was called for.
    Pull,
    /// A pull that failed, for this reason, is rolled back.
    Abort { why: String },
}

/// How far a pull has come, as a mathematical value.
pub enum PullingView {
    Pull,
    Abort { why: Seq<char> },
}

impl View for Pulling {
    type V = PullingView;

    open spec fn view(&self) -> PullingView {
        match self {
            Pulling::Pull => PullingView::Pull,
            Pulling::Abort { why } => PullingView::Abort { why: why@ },
        }
    }
}

/// What is done next: git is called, or the pull is over.
pub enum PullStep {
    Run(GitCommand, Pulling),
    Done(Result<(), String>),
}

/// What is done next, as a mathematical value.
pub enum PullStepView {
    Run(CommandView, PullingView),
    Done(Result<(), Seq<char>>),
}

impl View for PullStep {
    type V = PullStepView;

    open spec fn view(&self) -> PullStepView {
        match self {
            PullStep::Run(c, state) => PullStepView::Run(c.deep_view(), state@),
            PullStep::Done(r) => PullStepView::Done(
                match r {
                    Ok(_) => Ok(()),
                    Err(e) => Err(e@),
                },
            ),
        }
    }
}

impl PullingView {
    /// After git answered. A pull that fails is rolled back, and what git
    /// wrote as errors is the reason.
    pub open spec fn resumed(self, a: AnswerView) -> PullStepView {
        match self {
            PullingView::Pull => match a {
                Ok(out) => if out.success {
                    PullStepView::Done(Ok(()))
                } else {
                    PullStepView::Run(
                        abort_call(),
                        PullingView::Abort { why: git::trimmed_text(out.stderr) },
                    )
                },
                Err(e) => PullStepView::Done(Err(e)),
            },
            PullingView::Abort { why } => PullStepView::Done(Err(why)),
        }
    }
}

/// Starts to pull, with a rebase.
pub fn pull_rebase() -> (r: PullStep)
    ensures
        r@ == PullStepView::Run(git::call(seq!["pull"@, "--rebase"@]), PullingView::Pull),
{
    let call = git::command(&["pull", "--rebase"]);
    assert(call.deep_view().args =~= seq!["pull"@, "--rebase"@]);
    PullStep::Run(call, Pulling::Pull)
}

impl Pulling {
    /// Takes in git's answer.
    pub fn resume(self, reply: Answer) -> (r: PullStep)
        ensures
            r@ == self@.resumed(git::answer(reply)),
    {
        match self {
            Pulling::Pull => match reply {
                Ok(out) => if out.success {
                    PullStep::Done(Ok(()))
                } else {
                    let why = git::trim_text(&out.stderr);
                    PullStep::Run(abort_command(), Pulling::Abort { why })
                },
                Err(e) => PullStep::Done(Err(e)),
            },
            Pulling::Abort { why } => PullStep::Done(Err(why)),
        }
    }
}

/// A rebase or a pull that git does not carry out is always rolled back before
/// it is given up.
pub proof fn law_rolled_back(out: git::OutputView)
    requires
        !out.success,
    ensures
        RebasingView::Rebase.resumed(Ok(out)) == RebaseStepView::Run(
            abort_call(),
            RebasingView::Abort,
        ),
        PullingView::Pull.resumed(Ok(out)) == PullStepView::Run(
            abort_call(),
            PullingView::Abort { why: git::trimmed_text(out.stderr) },
        ),
{
}

// ---------------------------------------------------------------------------
// What a commit message is written from

/// How far it has been collected.
pub enum Gathering {
    /// The last commits were asked for.
    Log,
    /// The diff was asked for.
    Diff { text: String },
    /// The diffs of untracked files are collected.
    Collect(Collecting),
}

/// How far it has been collected, as a mathematical value.
pub enum GatheringView {
    Log,
    Diff { text: Seq<char> },
    Collect(CollectingView),
}

impl View for Gathering {
    type V = GatheringView;

    open spec fn view(&self) -> GatheringView {
        match self {
            Gathering::Log => GatheringView::Log,
            Gathering::Diff { text } => GatheringView::Diff { text: text@ },
            Gathering::Collect(c) => GatheringView::Collect(c@),
        }
    }
}

/// What is done next: git is called, or everything is there.
pub enum GatherStep {
    Run(GitCommand, Gathering),
    Done(Result<String, String>),
}

/// What is done next, as a mathematical value.
pub enum GatherStepView {
    Run(CommandView, GatheringView),
    Done(Result<Seq<char>, Seq<char>>),
}

impl View for GatherStep {
    type V = GatherStepView;

    open spec fn view(&self) -> GatherStepView {
        match self {
            GatherStep::Run(c, state) => GatherStepView::Run(c.deep_view(), state@),
            GatherStep::Done(r) => GatherStepView::Done(git::returned(*r)),
        }
    }
}

/// The subjects of the last commits, for their style, where there are any, and
/// the title of the diff.
pub open spec fn preamble(log: git::OutputView) -> Seq<char> {
    let subjects = git::lossy(log.stdout);
    let recent = if log.success && text::trim(subjects).len() > 0 {
        "=== Recent commits (for style reference) ===\n"@ + text::trim_end(subjects) + "\n\n"@
    } else {
        ""@
    };
    recent + "=== Diff to be committed ===\n"@
}

/// The next step, with what was collected of untracked files.
pub open spec fn gathered(step: CollectStepView) -> GatherStepView {
    match step {
        CollectStepView::Run(c, state) => GatherStepView::Run(c, GatheringView::Collect(state)),
        CollectStepView::Done(text) => GatherStepView::Done(Ok(text)),
    }
}

impl GatheringView {
    /// After git answered.
    pub open spec fn resumed(self, a: AnswerView) -> GatherStepView {
        match self {
            GatheringView::Log => match a {
                Ok(out) => GatherStepView::Run(
                    git::call(seq!["diff"@, "HEAD"@, "--no-color"@]),
                    GatheringView::Diff { text: preamble(out) },
                ),
                Err(e) => GatherStepView::Done(Err(e)),
            },
            GatheringView::Diff { text } => match a {
                Ok(out) => gathered(
                    collect::collect(
                        if out.success {
                            text + git::lossy(out.stdout)
                        } else {
                            text
                        },
                    ),
                ),
                Err(e) => GatherStepView::Done(Err(e)),
            },
            GatheringView::Collect(state) => gathered(state.resumed(a)),
        }
    }
}

/// Starts to collect what a commit message is written from.
pub fn get_commit_context() -> (r: GatherStep)
    ensures
        r@ == GatherStepView::Run(
            git::call(seq!["log"@, "-10"@, "--pretty=format:%s"@, "--no-color"@]),
            GatheringView::Log,
        ),
{
    let call = git::command(&["log", "-10", "--pretty=format:%s", "--no-color"]);
    assert(call.deep_view().args =~= seq!["log"@, "-10"@, "--pretty=format:%s"@, "--no-color"@]);
    GatherStep::Run(call, Gathering::Log)
}

/// The next step, with what was collected of untracked files.
fn gather(step: CollectStep) -> (r: GatherStep)
    ensures
        r@ == gathered(step@),
{
    match step {
        CollectStep::Run(c, state) => GatherStep::Run(c, Gathering::Collect(state)),
        CollectStep::Done(text) => GatherStep::Done(Ok(text)),
    }
}

/// The subjects of the last commits and the title of the diff.
fn write_preamble(log: &git::GitOutput) -> (r: String)
    ensures
        r@ == preamble(log.deep_view()),
{
    let subjects = git::from_utf8_lossy(&log.stdout);
    let trimmed = text::trimmed(subjects.as_str());
    let recent = if log.success && trimmed.as_str().unicode_len() > 0 {
        let kept = text::trimmed_end(subjects.as_str());
        text::cat3("=== Recent commits (for style reference) ===\n", kept.as_str(), "\n\n")
    } else {
        "".to_owned()
    };
    text::cat2(recent.as_str(), "=== Diff to be committed ===\n")
}

impl Gathering {
    /// Takes in git's answer.
    pub fn resume(self, reply: Answer) -> (r: GatherStep)
        ensures
            r@ == self@.resumed(git::answer(reply)),
    {
        match self {
            Gathering::Log => match reply {
                Ok(out) => {
                    let call = git::command(&["diff", "HEAD", "--no-color"]);
                    assert(call.deep_view().args =~= seq!["diff"@, "HEAD"@, "--no-color"@]);
                    GatherStep::Run(call, Gathering::Diff { text: write_preamble(&out) })
                },
                Err(e) => GatherStep::Done(Err(e)),
            },
            Gathering::Diff { text } => match reply {
                Ok(out) => {
                    let all = if out.success {
                        let diff = git::from_utf8_lossy(&out.stdout);
                        text::cat2(text.as_str(), diff.as_str())
                    } else {
                        text
                    };
                    gather(collect::start_collecting(all))
                },
                Err(e) => GatherStep::Done(Err(e)),
            },
            Gathering::Collect(state) => gather(state.resume(reply)),
        }
    }
}

} // verus!
