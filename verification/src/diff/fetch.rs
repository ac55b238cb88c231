//! How a diff is fetched.
use vstd::prelude::*;
use super::collect;
use super::collect::{CollectStep, CollectStepView, Collecting, CollectingView};
use super::git;
use super::git::{Answer, AnswerView, CommandView, GitCommand, OutputView};
use super::parse;
use super::{
    build_git_args, extract_left_label, extract_right_label, parse_diff_output, DiffPayload,
    DiffSource, PayloadView, SourceView,
};
use crate::text;

verus! {

/// How far a diff has been fetched.
pub enum Fetching {
    /// `git diff` was called with a ref.
    ToRef { reference: String },
    /// `git diff` was called with two refs.
    Between { from: String, to: String },
    /// `git diff` was called with custom arguments.
    Custom { args: String },
    /// `git show` was called.
    Show { hash: String },
    /// `git diff` was called against the last commit, and untracked files come
    /// next.
    Working { context: Option<usize> },
    /// That failed, and it was asked whether there is a commit at all.
    Head { context: Option<usize>, why: String },
    /// There is no commit: `git diff` was called against the index, and
    /// untracked files come next.
    Index,
    /// The diffs of untracked files are collected.
    Collect(Collecting),
    /// The upstream was asked for.
    Upstream { context: Option<usize> },
    /// It was asked whether a branch is there to fork from: `main`, or `master`
    /// after it.
    Candidate { context: Option<usize>, master: bool },
    /// The fork point was asked for.
    MergeBase { base: String, context: Option<usize> },
    /// `git diff` was called on the fork point.
    Fork { base: String, fork: String },
}

/// How far a diff has been fetched, as a mathematical value.
pub enum FetchingView {
    ToRef { reference: Seq<char> },
    Between { from: Seq<char>, to: Seq<char> },
    Custom { args: Seq<char> },
    Show { hash: Seq<char> },
    Working { context: Option<usize> },
    Head { context: Option<usize>, why: Seq<char> },
    Index,
    Collect(CollectingView),
    Upstream { context: Option<usize> },
    Candidate { context: Option<usize>, master: bool },
    MergeBase { base: Seq<char>, context: Option<usize> },
    Fork { base: Seq<char>, fork: Seq<char> },
}

impl View for Fetching {
    type V = FetchingView;

    open spec fn view(&self) -> FetchingView {
        match self {
            Fetching::ToRef { reference } => FetchingView::ToRef { reference: reference@ },
            Fetching::Between { from, to } => FetchingView::Between { from: from@, to: to@ },
            Fetching::Custom { args } => FetchingView::Custom { args: args@ },
            Fetching::Show { hash } => FetchingView::Show { hash: hash@ },
            Fetching::Working { context } => FetchingView::Working { context: *context },
            Fetching::Head { context, why } => FetchingView::Head { context: *context, why: why@ },
            Fetching::Index => FetchingView::Index,
            Fetching::Collect(c) => FetchingView::Collect(c@),
            Fetching::Upstream { context } => FetchingView::Upstream { context: *context },
            Fetching::Candidate { context, master } => FetchingView::Candidate {
                context: *context,
                master: *master,
            },
            Fetching::MergeBase { base, context } => FetchingView::MergeBase {
                base: base@,
                context: *context,
            },
            Fetching::Fork { base, fork } => FetchingView::Fork { base: base@, fork: fork@ },
        }
    }
}

/// What is done next: git is called, or the diff is there.
pub enum FetchStep {
    Run(GitCommand, Fetching),
    Done(Result<DiffPayload, String>),
}

/// What is done next, as a mathematical value.
pub enum FetchStepView {
    Run(CommandView, FetchingView),
    Done(Result<PayloadView, Seq<char>>),
}

/// A diff, or why there is none, as a mathematical value.
pub open spec fn payload(r: Result<DiffPayload, String>) -> Result<PayloadView, Seq<char>> {
    match r {
        Ok(p) => Ok(p.deep_view()),
        Err(e) => Err(e@),
    }
}

impl View for FetchStep {
    type V = FetchStepView;

    open spec fn view(&self) -> FetchStepView {
        match self {
            FetchStep::Run(c, state) => FetchStepView::Run(c.deep_view(), state@),
            FetchStep::Done(r) => FetchStepView::Done(payload(*r)),
        }
    }
}

// ---------------------------------------------------------------------------
// The last step

/// The diff that `git diff` printed, with these titles.
pub open spec fn payload_of(diff: Seq<char>, left: Seq<char>, right: Seq<char>) -> Result<
    PayloadView,
    Seq<char>,
> {
    if parse::patterns_compile() {
        Ok(
            PayloadView {
                files: parse::files_of(parse::classified(diff)),
                meta: parse::meta_of(parse::classified(diff)),
                left_label: left,
                right_label: right,
            },
        )
    } else {
        Err("Invalid pattern"@)
    }
}

/// What `git diff` printed.
pub open spec fn diff_in(a: AnswerView) -> Result<Seq<char>, Seq<char>> {
    match a {
        Ok(out) => if out.success {
            Ok(git::lossy(out.stdout))
        } else {
            Err("Failed to execute git diff command: "@ + git::lossy(out.stderr))
        },
        Err(e) => Err(e),
    }
}

/// The diff in git's answer, with these titles.
pub open spec fn payload_in(a: AnswerView, left: Seq<char>, right: Seq<char>) -> Result<
    PayloadView,
    Seq<char>,
> {
    match diff_in(a) {
        Ok(diff) => payload_of(diff, left, right),
        Err(e) => Err(e),
    }
}

/// The diff of a commit in the answer of `git show`.
pub open spec fn commit_in(a: AnswerView, hash: Seq<char>) -> Result<PayloadView, Seq<char>> {
    match a {
        Ok(out) => if out.success {
            payload_of(git::lossy(out.stdout), hash + "^"@, hash)
        } else {
            Err("Failed to execute git show: "@ + git::lossy(out.stderr))
        },
        Err(e) => Err(e),
    }
}

/// The number of bytes of `c` in UTF-8.
pub open spec fn utf8_len(c: char) -> nat {
    if (c as u32) <= 0x7f {
        1
    } else if (c as u32) <= 0x7ff {
        2
    } else if (c as u32) <= 0xffff {
        3
    } else {
        4
    }
}

/// How many characters at the start of `s` take `n` bytes in UTF-8, where that
/// ends with a character.
pub open spec fn chars_in(s: Seq<char>, n: int) -> Option<nat>
    decreases s.len(),
{
    if n == 0 {
        Some(0)
    } else if s.len() == 0 || utf8_len(s[0]) > n {
        None
    } else {
        match chars_in(s.skip(1), n - utf8_len(s[0])) {
            Some(k) => Some(k + 1),
            None => None,
        }
    }
}

/// The first 8 bytes of a hash, or the whole of a shorter one.
pub open spec fn short_hash(fork: Seq<char>) -> Seq<char> {
    match chars_in(fork, 8) {
        Some(k) => fork.take(k as int),
        None => fork,
    }
}

/// The title of the left side of a diff against a fork point.
pub open spec fn fork_label(base: Seq<char>, fork: Seq<char>) -> Seq<char> {
    base + " (fork: "@ + short_hash(fork) + ")"@
}

/// The diff that `git diff` printed, with these titles.
fn make_payload(diff: &str, left: String, right: String) -> (r: Result<DiffPayload, String>)
    ensures
        payload(r) == payload_of(diff@, left@, right@),
{
    match parse_diff_output(diff) {
        Ok((files, meta)) => Ok(
            DiffPayload { files, meta, left_label: left, right_label: right },
        ),
        Err(_) => Err("Invalid pattern".to_owned()),
    }
}

/// What `git diff` printed.
pub fn get_diff_output(reply: Answer) -> (r: Result<String, String>)
    ensures
        git::returned(r) == diff_in(git::answer(reply)),
{
    match reply {
        Ok(out) => if out.success {
            Ok(git::from_utf8_lossy(&out.stdout))
        } else {
            let why = git::from_utf8_lossy(&out.stderr);
            Err(text::cat2("Failed to execute git diff command: ", why.as_str()))
        },
        Err(e) => Err(e),
    }
}

/// The diff in git's answer, with these titles.
fn make_payload_in(reply: Answer, left: String, right: String) -> (r: Result<DiffPayload, String>)
    ensures
        payload(r) == payload_in(git::answer(reply), left@, right@),
{
    match get_diff_output(reply) {
        Ok(diff) => make_payload(diff.as_str(), left, right),
        Err(e) => Err(e),
    }
}

/// The diff that custom arguments ask for, by git's answer.
pub fn get_changes_with_args(args: &str, reply: Answer) -> (r: Result<DiffPayload, String>)
    ensures
        payload(r) == payload_in(git::answer(reply), super::left_label(args@), super::right_label(args@)),
{
    make_payload_in(reply, extract_left_label(args), extract_right_label(args))
}

/// The diff of uncommitted changes, by what git printed of tracked and
/// untracked files.
pub fn get_uncommitted_changes(diff: &str) -> (r: Result<DiffPayload, String>)
    ensures
        payload(r) == payload_of(diff@, "HEAD"@, "Working Tree"@),
{
    make_payload(diff, "HEAD".to_owned(), "Working Tree".to_owned())
}

/// The diff of the working tree against a ref, by git's answer.
pub fn get_changes_to_ref(reference: &str, reply: Answer) -> (r: Result<DiffPayload, String>)
    ensures
        payload(r) == payload_in(git::answer(reply), reference@, "Working Tree"@),
{
    make_payload_in(reply, reference.to_owned(), "Working Tree".to_owned())
}

/// The diff of one ref against another, by git's answer.
pub fn get_changes_between(from: &str, to: &str, reply: Answer) -> (r: Result<DiffPayload, String>)
    ensures
        payload(r) == payload_in(git::answer(reply), from@, to@),
{
    make_payload_in(reply, from.to_owned(), to.to_owned())
}

/// The diff of a commit, by git's answer.
pub fn get_changes_for_commit(hash: &str, reply: Answer) -> (r: Result<DiffPayload, String>)
    ensures
        payload(r) == commit_in(git::answer(reply), hash@),
{
    match reply {
        Ok(out) => if out.success {
            let diff = git::from_utf8_lossy(&out.stdout);
            make_payload(diff.as_str(), text::cat2(hash, "^"), hash.to_owned())
        } else {
            let why = git::from_utf8_lossy(&out.stderr);
            Err(text::cat2("Failed to execute git show: ", why.as_str()))
        },
        Err(e) => Err(e),
    }
}

/// The first 8 bytes of a hash, or the whole of a shorter one.
fn shorten(fork: &str) -> (r: String)
    ensures
        r@ == short_hash(fork@),
{
    let cs = text::chars_of(fork);
    let mut left: usize = 8;
    let mut k: usize = 0;
    assert(cs@.skip(0) =~= cs@);
    while left > 0
        invariant
            k <= cs@.len(),
            left <= 8,
            cs@ == fork@,
            match chars_in(cs@.skip(k as int), left as int) {
                Some(n) => chars_in(cs@, 8) == Some(n + k as nat),
                None => chars_in(cs@, 8) is None,
            },
        decreases left,
    {
        if k >= cs.len() {
            return fork.to_owned();
        }
        let c = cs[k];
        let n: usize = if (c as u32) <= 0x7f {
            1
        } else if (c as u32) <= 0x7ff {
            2
        } else if (c as u32) <= 0xffff {
            3
        } else {
            4
        };
        proof {
            assert(cs@.skip(k as int)[0] == c);
            assert(cs@.skip(k as int).skip(1) =~= cs@.skip(k + 1));
        }
        if n > left {
            return fork.to_owned();
        }
        left = left - n;
        k = k + 1;
    }
    let r = text::string_between(&cs, 0, k);
    assert(r@ =~= fork@.take(k as int));
    r
}

/// The diff of the working tree against the fork point, by git's answer.
pub fn get_changes_since_fork(base: &str, fork: &str, reply: Answer) -> (r: Result<
    DiffPayload,
    String,
>)
    ensures
        payload(r) == payload_in(git::answer(reply), fork_label(base@, fork@), "Working Tree"@),
{
    let short = shorten(fork);
    let label = text::cat4(base, " (fork: ", short.as_str(), ")");
    make_payload_in(reply, label, "Working Tree".to_owned())
}

// ---------------------------------------------------------------------------
// The steps before it

/// Asks for a diff with these arguments.
pub open spec fn diff_call(extra: Seq<Seq<char>>, context: Option<usize>) -> CommandView {
    git::call(super::git_args("diff"@, extra, context))
}

/// Asks for the fork point of `base`.
pub open spec fn merge_base_call(base: Seq<char>) -> CommandView {
    git::call(seq!["merge-base"@, base, "HEAD"@])
}

/// Asks whether a branch is there.
pub open spec fn verify_call(name: Seq<char>) -> CommandView {
    git::call(seq!["rev-parse"@, "--verify"@, "--quiet"@, name])
}

/// The fork point in git's answer.
pub open spec fn fork_in(a: AnswerView, base: Seq<char>) -> Result<Seq<char>, Seq<char>> {
    match a {
        Ok(out) => if !out.success {
            Err("git merge-base "@ + base + " HEAD failed: "@ + git::trimmed_text(out.stderr))
        } else if git::trimmed_text(out.stdout).len() == 0 {
            Err("git merge-base "@ + base + " HEAD produced no output"@)
        } else {
            Ok(git::trimmed_text(out.stdout))
        },
        Err(e) => Err(e),
    }
}

/// The diff of a source is fetched.
pub open spec fn start(source: SourceView, context: Option<usize>) -> FetchStepView {
    match source {
        SourceView::Uncommitted => FetchStepView::Run(
            diff_call(seq!["HEAD"@], context),
            FetchingView::Working { context },
        ),
        SourceView::ToRef(r) => FetchStepView::Run(
            diff_call(seq![r], context),
            FetchingView::ToRef { reference: r },
        ),
        SourceView::Between { from, to } => FetchStepView::Run(
            diff_call(seq![from + ".."@ + to], context),
            FetchingView::Between { from, to },
        ),
        SourceView::CustomArgs(args) => FetchStepView::Run(
            diff_call(text::words(args), context),
            FetchingView::Custom { args },
        ),
        SourceView::Commit(hash) => FetchStepView::Run(
            git::call(
                super::git_args("show"@, seq!["--format="@, "-m"@, "--first-parent"@, hash], context),
            ),
            FetchingView::Show { hash },
        ),
        SourceView::SinceFork { base } => match base {
            Some(b) => FetchStepView::Run(
                merge_base_call(b),
                FetchingView::MergeBase { base: b, context },
            ),
            None => FetchStepView::Run(
                git::call(seq!["rev-parse"@, "--abbrev-ref"@, "HEAD@{u}"@]),
                FetchingView::Upstream { context },
            ),
        },
    }
}

/// The next step, with what was collected of untracked files.
pub open spec fn working(step: CollectStepView) -> FetchStepView {
    match step {
        CollectStepView::Run(c, state) => FetchStepView::Run(c, FetchingView::Collect(state)),
        CollectStepView::Done(diff) => FetchStepView::Done(
            payload_of(diff, "HEAD"@, "Working Tree"@),
        ),
    }
}

impl FetchingView {
    /// After git answered. Where there is no commit yet, the index takes the
    /// place of the last commit. Without a base, the upstream is taken, and
    /// without that `main` or `master`.
    pub open spec fn resumed(self, a: AnswerView) -> FetchStepView {
        match self {
            FetchingView::ToRef { reference } => FetchStepView::Done(
                payload_in(a, reference, "Working Tree"@),
            ),
            FetchingView::Between { from, to } => FetchStepView::Done(payload_in(a, from, to)),
            FetchingView::Custom { args } => FetchStepView::Done(
                payload_in(a, super::left_label(args), super::right_label(args)),
            ),
            FetchingView::Show { hash } => FetchStepView::Done(commit_in(a, hash)),
            FetchingView::Working { context } => match diff_in(a) {
                Ok(diff) => working(collect::collect(diff)),
                Err(e) => if a is Ok {
                    FetchStepView::Run(verify_call("HEAD"@), FetchingView::Head { context, why: e })
                } else {
                    FetchStepView::Done(Err(e))
                },
            },
            FetchingView::Head { context, why } => match a {
                Ok(out) => if out.success {
                    FetchStepView::Done(Err(why))
                } else {
                    FetchStepView::Run(diff_call(seq![], context), FetchingView::Index)
                },
                Err(e) => FetchStepView::Done(Err(e)),
            },
            FetchingView::Index => match diff_in(a) {
                Ok(diff) => working(collect::collect(diff)),
                Err(e) => FetchStepView::Done(Err(e)),
            },
            FetchingView::Collect(state) => working(state.resumed(a)),
            FetchingView::Upstream { context } => match git::upstream_in(a) {
                Ok(Some(base)) => FetchStepView::Run(
                    merge_base_call(base),
                    FetchingView::MergeBase { base, context },
                ),
                Ok(None) => FetchStepView::Run(
                    verify_call("main"@),
                    FetchingView::Candidate { context, master: false },
                ),
                Err(e) => FetchStepView::Done(Err(e)),
            },
            FetchingView::Candidate { context, master } => {
                let name = if master {
                    "master"@
                } else {
                    "main"@
                };
                match a {
                    Ok(out) => if out.success {
                        FetchStepView::Run(
                            merge_base_call(name),
                            FetchingView::MergeBase { base: name, context },
                        )
                    } else if master {
                        FetchStepView::Done(
                            Err(
                                "no upstream and no main/master found; specify a base: giff -b <ref>"@,
                            ),
                        )
                    } else {
                        FetchStepView::Run(
                            verify_call("master"@),
                            FetchingView::Candidate { context, master: true },
                        )
                    },
                    Err(e) => FetchStepView::Done(Err(e)),
                }
            },
            FetchingView::MergeBase { base, context } => match fork_in(a, base) {
                Ok(fork) => FetchStepView::Run(
                    diff_call(seq![fork], context),
                    FetchingView::Fork { base, fork },
                ),
                Err(e) => FetchStepView::Done(Err(e)),
            },
            FetchingView::Fork { base, fork } => FetchStepView::Done(
                payload_in(a, fork_label(base, fork), "Working Tree"@),
            ),
        }
    }
}

/// Asks for a diff with these arguments.
fn diff_command(extra: &[&str], context: Option<usize>) -> (r: GitCommand)
    ensures
        r.deep_view() == diff_call(extra@.map_values(|s: &str| s@), context),
{
    GitCommand { dir: None, args: build_git_args("diff", extra, context) }
}

/// Asks for a diff with one argument.
fn diff_command_of(arg: &str, context: Option<usize>) -> (r: GitCommand)
    ensures
        r.deep_view() == diff_call(seq![arg@], context),
{
    let extra = [arg];
    assert(extra@.map_values(|s: &str| s@) =~= seq![arg@]);
    diff_command(&extra, context)
}

/// Asks for the diff of the working tree against the index.
fn index_command(context: Option<usize>) -> (r: GitCommand)
    ensures
        r.deep_view() == diff_call(seq![], context),
{
    let none: [&str; 0] = [];
    assert(none@.map_values(|s: &str| s@) =~= seq![]);
    diff_command(&none, context)
}

/// Asks for the diff that custom arguments ask for.
fn custom_command(args: &str, context: Option<usize>) -> (r: GitCommand)
    ensures
        r.deep_view() == diff_call(text::words(args@), context),
{
    let none: [&str; 0] = [];
    let mut all = build_git_args("diff", &none, context);
    assert(none@.map_values(|s: &str| s@) =~= seq![]);
    let ghost head = all.deep_view();
    let mut extra = text::split_words(args);
    let ghost tail = extra.deep_view();
    all.append(&mut extra);
    proof {
        assert(all.deep_view() =~= head + tail);
        assert(super::git_args("diff"@, text::words(args@), context) =~= head + tail);
    }
    GitCommand { dir: None, args: all }
}

/// Asks for the diff of a commit.
fn show_command(hash: &str, context: Option<usize>) -> (r: GitCommand)
    ensures
        r.deep_view() == git::call(
            super::git_args("show"@, seq!["--format="@, "-m"@, "--first-parent"@, hash@], context),
        ),
{
    let extra = ["--format=", "-m", "--first-parent", hash];
    assert(extra@.map_values(|s: &str| s@) =~= seq![
        "--format="@,
        "-m"@,
        "--first-parent"@,
        hash@,
    ]);
    GitCommand { dir: None, args: build_git_args("show", &extra, context) }
}

/// Asks for the fork point of `base`.
fn merge_base_command(base: &str) -> (r: GitCommand)
    ensures
        r.deep_view() == merge_base_call(base@),
{
    let r = git::command(&["merge-base", base, "HEAD"]);
    assert(r.deep_view().args =~= merge_base_call(base@).args);
    r
}

/// Asks whether a branch is there.
fn verify_command(name: &str) -> (r: GitCommand)
    ensures
        r.deep_view() == verify_call(name@),
{
    let r = git::command(&["rev-parse", "--verify", "--quiet", name]);
    assert(r.deep_view().args =~= verify_call(name@).args);
    r
}

/// The fork point in git's answer.
pub fn merge_base(base: &str, reply: Answer) -> (r: Result<String, String>)
    ensures
        git::returned(r) == fork_in(git::answer(reply), base@),
{
    match reply {
        Ok(out) => {
            if !out.success {
                let why = git::trim_text(&out.stderr);
                return Err(text::cat4("git merge-base ", base, " HEAD failed: ", why.as_str()));
            }
            let fork = git::trim_text(&out.stdout);
            if fork.as_str().unicode_len() == 0 {
                return Err(text::cat3("git merge-base ", base, " HEAD produced no output"));
            }
            Ok(fork)
        },
        Err(e) => Err(e),
    }
}

impl DiffSource {
    /// Starts to fetch the diff, with as many lines around a change as git
    /// shows by default.
    pub fn fetch(&self) -> (r: FetchStep)
        ensures
            r@ == start(self@, None),
    {
        self.fetch_with_context(None)
    }

    /// Starts to fetch the diff, with `context` lines around a change.
    pub fn fetch_with_context(&self, context: Option<usize>) -> (r: FetchStep)
        ensures
            r@ == start(self@, context),
    {
        match self {
            DiffSource::Uncommitted => FetchStep::Run(
                diff_command_of("HEAD", context),
                Fetching::Working { context },
            ),
            DiffSource::ToRef(reference) => FetchStep::Run(
                diff_command_of(reference.as_str(), context),
                Fetching::ToRef { reference: reference.clone() },
            ),
            DiffSource::Between { from, to } => {
                let range = text::cat3(from.as_str(), "..", to.as_str());
                FetchStep::Run(
                    diff_command_of(range.as_str(), context),
                    Fetching::Between { from: from.clone(), to: to.clone() },
                )
            },
            DiffSource::CustomArgs(args) => FetchStep::Run(
                custom_command(args.as_str(), context),
                Fetching::Custom { args: args.clone() },
            ),
            DiffSource::Commit(hash) => FetchStep::Run(
                show_command(hash.as_str(), context),
                Fetching::Show { hash: hash.clone() },
            ),
            DiffSource::SinceFork { base } => match base {
                Some(b) => FetchStep::Run(
                    merge_base_command(b.as_str()),
                    Fetching::MergeBase { base: b.clone(), context },
                ),
                None => FetchStep::Run(git::upstream_command(), Fetching::Upstream { context }),
            },
        }
    }
}

/// The next step, with what was collected of untracked files.
fn work(step: CollectStep) -> (r: FetchStep)
    ensures
        r@ == working(step@),
{
    match step {
        CollectStep::Run(c, state) => FetchStep::Run(c, Fetching::Collect(state)),
        CollectStep::Done(diff) => FetchStep::Done(get_uncommitted_changes(diff.as_str())),
    }
}

/// Whether `main` or `master` is there to fork from.
fn try_candidate(context: Option<usize>, master: bool, reply: Answer) -> (r: FetchStep)
    ensures
        r@ == (FetchingView::Candidate { context, master }).resumed(git::answer(reply)),
{
    match reply {
        Ok(out) => {
            if out.success {
                let name = if master {
                    "master"
                } else {
                    "main"
                };
                FetchStep::Run(
                    merge_base_command(name),
                    Fetching::MergeBase { base: name.to_owned(), context },
                )
            } else if master {
                FetchStep::Done(
                    Err(
                        "no upstream and no main/master found; specify a base: giff -b <ref>".to_owned(),
                    ),
                )
            } else {
                FetchStep::Run(
                    verify_command("master"),
                    Fetching::Candidate { context, master: true },
                )
            }
        },
        Err(e) => FetchStep::Done(Err(e)),
    }
}

/// The base to fork from where none is given, by git's answer on the upstream.
pub fn default_fork_base(context: Option<usize>, reply: Answer) -> (r: FetchStep)
    ensures
        r@ == (FetchingView::Upstream { context }).resumed(git::answer(reply)),
{
    match git::get_upstream_branch(reply) {
        Ok(Some(base)) => FetchStep::Run(
            merge_base_command(base.as_str()),
            Fetching::MergeBase { base, context },
        ),
        Ok(None) => FetchStep::Run(
            verify_command("main"),
            Fetching::Candidate { context, master: false },
        ),
        Err(e) => FetchStep::Done(Err(e)),
    }
}

/// What is not committed is shown against the last commit: git is asked for the
/// diff that it gives against `HEAD`, staged or not, and what it prints is shown
/// under that name, with untracked files.
pub proof fn law_uncommitted_against_head(context: Option<usize>, diff: OutputView)
    requires
        diff.success,
    ensures
        start(SourceView::Uncommitted, context)->Run_0 == start(
            SourceView::ToRef("HEAD"@),
            context,
        )->Run_0,
        start(SourceView::Uncommitted, context)->Run_1.resumed(Ok(diff)) == working(
            collect::collect(git::lossy(diff.stdout)),
        ),
{
}

impl Fetching {
    /// Takes in git's answer.
    pub fn resume(self, reply: Answer) -> (r: FetchStep)
        ensures
            r@ == self@.resumed(git::answer(reply)),
    {
        match self {
            Fetching::ToRef { reference } => FetchStep::Done(
                get_changes_to_ref(reference.as_str(), reply),
            ),
            Fetching::Between { from, to } => FetchStep::Done(
                get_changes_between(from.as_str(), to.as_str(), reply),
            ),
            Fetching::Custom { args } => FetchStep::Done(
                get_changes_with_args(args.as_str(), reply),
            ),
            Fetching::Show { hash } => FetchStep::Done(
                get_changes_for_commit(hash.as_str(), reply),
            ),
            Fetching::Working { context } => {
                let answered = reply.is_ok();
                match get_diff_output(reply) {
                    Ok(diff) => work(collect::start_collecting(diff)),
                    Err(why) => if answered {
                        FetchStep::Run(verify_command("HEAD"), Fetching::Head { context, why })
                    } else {
                        FetchStep::Done(Err(why))
                    },
                }
            },
            Fetching::Head { context, why } => match reply {
                Ok(out) => if out.success {
                    FetchStep::Done(Err(why))
                } else {
                    FetchStep::Run(index_command(context), Fetching::Index)
                },
                Err(e) => FetchStep::Done(Err(e)),
            },
            Fetching::Index => match get_diff_output(reply) {
                Ok(diff) => work(collect::start_collecting(diff)),
                Err(e) => FetchStep::Done(Err(e)),
            },
            Fetching::Collect(state) => work(state.resume(reply)),
            Fetching::Upstream { context } => default_fork_base(context, reply),
            Fetching::Candidate { context, master } => try_candidate(context, master, reply),
            Fetching::MergeBase { base, context } => match merge_base(base.as_str(), reply) {
                Ok(fork) => FetchStep::Run(
                    diff_command_of(fork.as_str(), context),
                    Fetching::Fork { base, fork },
                ),
                Err(e) => FetchStep::Done(Err(e)),
            },
            Fetching::Fork { base, fork } => FetchStep::Done(
                get_changes_since_fork(base.as_str(), fork.as_str(), reply),
            ),
        }
    }
}

} // verus!
