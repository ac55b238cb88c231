//! The diffs of untracked files, which `git diff` leaves out.
use vstd::prelude::*;
use super::git;
use super::git::{Answer, AnswerView, CommandView, GitCommand};
use crate::text;

verus! {

/// How far the diffs of untracked files have been collected.
pub enum Collecting {
    /// The top directory of the repository was asked for.
    Root { text: String },
    /// The untracked files were asked for.
    List { text: String, root: String },
    /// The diff of file `at` was asked for.
    Each { text: String, root: String, files: Vec<String>, at: usize },
}

/// How far the diffs have been collected, as a mathematical value.
pub enum CollectingView {
    Root { text: Seq<char> },
    List { text: Seq<char>, root: Seq<char> },
    Each { text: Seq<char>, root: Seq<char>, files: Seq<Seq<char>>, at: int },
}

impl View for Collecting {
    type V = CollectingView;

    open spec fn view(&self) -> CollectingView {
        match self {
            Collecting::Root { text } => CollectingView::Root { text: text@ },
            Collecting::List { text, root } => CollectingView::List { text: text@, root: root@ },
            Collecting::Each { text, root, files, at } => CollectingView::Each {
                text: text@,
                root: root@,
                files: files.deep_view(),
                at: *at as int,
            },
        }
    }
}

/// What is done next: git is called, or everything is there.
pub enum CollectStep {
    Run(GitCommand, Collecting),
    Done(String),
}

/// What is done next, as a mathematical value.
pub enum CollectStepView {
    Run(CommandView, CollectingView),
    Done(Seq<char>),
}

impl View for CollectStep {
    type V = CollectStepView;

    open spec fn view(&self) -> CollectStepView {
        match self {
            CollectStep::Run(c, state) => CollectStepView::Run(c.deep_view(), state@),
            CollectStep::Done(text) => CollectStepView::Done(text@),
        }
    }
}

/// Asks for the untracked files.
pub open spec fn list_call(root: Seq<char>) -> CommandView {
    CommandView {
        dir: Some(root),
        args: seq!["ls-files"@, "--others"@, "--exclude-standard"@],
    }
}

/// Asks for the diff of an untracked file against nothing.
pub open spec fn untracked_call(root: Seq<char>, file: Seq<char>) -> CommandView {
    CommandView {
        dir: Some(root),
        args: seq!["diff"@, "--no-color"@, "--no-index"@, "--"@, "/dev/null"@, file],
    }
}

/// The untracked files, or none where git did not list them.
pub open spec fn untracked_in(a: AnswerView) -> Seq<Seq<char>> {
    match a {
        Ok(out) => if out.success {
            git::full_lines(text::text_lines(git::lossy(out.stdout)))
        } else {
            seq![]
        },
        Err(_) => seq![],
    }
}

/// The diff of an untracked file. Git exits without success where the files
/// differ, which does not count.
pub open spec fn untracked_diff_in(a: AnswerView) -> Seq<char> {
    match a {
        Ok(out) => git::decoded_or_empty(out.stdout),
        Err(_) => ""@,
    }
}

/// The diffs of the untracked files are appended to `text`.
pub open spec fn collect(text: Seq<char>) -> CollectStepView {
    CollectStepView::Run(
        git::call(seq!["rev-parse"@, "--show-toplevel"@]),
        CollectingView::Root { text },
    )
}

/// The diff of file `at` comes next, or none is left.
pub open spec fn collect_file(
    text: Seq<char>,
    root: Seq<char>,
    files: Seq<Seq<char>>,
    at: int,
) -> CollectStepView {
    if at < files.len() {
        CollectStepView::Run(
            untracked_call(root, files[at]),
            CollectingView::Each { text, root, files, at },
        )
    } else {
        CollectStepView::Done(text)
    }
}

impl CollectingView {
    /// After git answered.
    pub open spec fn resumed(self, a: AnswerView) -> CollectStepView {
        match self {
            CollectingView::Root { text } => match git::root_in(a) {
                Ok(root) => CollectStepView::Run(
                    list_call(root),
                    CollectingView::List { text, root },
                ),
                Err(_) => CollectStepView::Done(text),
            },
            CollectingView::List { text, root } => collect_file(text, root, untracked_in(a), 0),
            CollectingView::Each { text, root, files, at } => collect_file(
                text + untracked_diff_in(a),
                root,
                files,
                at + 1,
            ),
        }
    }
}

/// Starts to append the diffs of the untracked files to `text`.
pub fn start_collecting(text: String) -> (r: CollectStep)
    ensures
        r@ == collect(text@),
{
    CollectStep::Run(git::root_command(), Collecting::Root { text })
}

/// The untracked files.
pub fn list_untracked_files(reply: Answer) -> (r: Vec<String>)
    ensures
        r.deep_view() == untracked_in(git::answer(reply)),
{
    match reply {
        Ok(out) => if out.success {
            let s = git::from_utf8_lossy(&out.stdout);
            git::nonempty_lines(s.as_str())
        } else {
            let none: Vec<String> = Vec::new();
            assert(none.deep_view() =~= seq![]);
            none
        },
        Err(_) => {
            let none: Vec<String> = Vec::new();
            assert(none.deep_view() =~= seq![]);
            none
        },
    }
}

/// The diff of an untracked file.
pub fn diff_untracked_file(reply: Answer) -> (r: String)
    ensures
        r@ == untracked_diff_in(git::answer(reply)),
{
    match reply {
        Ok(out) => git::decode_or_empty(&out.stdout),
        Err(_) => "".to_owned(),
    }
}

/// The diff of file `at` comes next, or none is left.
fn next_file(text: String, root: String, files: Vec<String>, at: usize) -> (r: CollectStep)
    ensures
        r@ == collect_file(text@, root@, files.deep_view(), at as int),
{
    if at < files.len() {
        assert(files.deep_view()[at as int] == files@[at as int]@);
        let call = git::command_in(
            root.as_str(),
            &["diff", "--no-color", "--no-index", "--", "/dev/null", files[at].as_str()],
        );
        assert(call.deep_view().args =~= untracked_call(root@, files@[at as int]@).args);
        CollectStep::Run(call, Collecting::Each { text, root, files, at })
    } else {
        CollectStep::Done(text)
    }
}

impl Collecting {
    /// Takes in git's answer.
    pub fn resume(self, reply: Answer) -> (r: CollectStep)
        ensures
            r@ == self@.resumed(git::answer(reply)),
    {
        match self {
            Collecting::Root { text } => match git::git_repo_root(reply) {
                Ok(root) => {
                    let call = git::command_in(
                        root.as_str(),
                        &["ls-files", "--others", "--exclude-standard"],
                    );
                    assert(call.deep_view().args =~= list_call(root@).args);
                    CollectStep::Run(call, Collecting::List { text, root })
                },
                Err(_) => CollectStep::Done(text),
            },
            Collecting::List { text, root } => {
                let files = list_untracked_files(reply);
                next_file(text, root, files, 0)
            },
            Collecting::Each { text, root, files, at } => {
                let more = diff_untracked_file(reply);
                let all = text::cat2(text.as_str(), more.as_str());
                if at < files.len() {
                    next_file(all, root, files, at + 1)
                } else {
                    CollectStep::Done(all)
                }
            },
        }
    }
}

/// The state after git answered for the files from `at` on.
pub open spec fn after_answers(
    text: Seq<char>,
    root: Seq<char>,
    files: Seq<Seq<char>>,
    at: int,
    answers: Seq<AnswerView>,
) -> CollectStepView
    decreases answers.len(),
{
    if answers.len() == 0 {
        collect_file(text, root, files, at)
    } else {
        after_answers(
            text + untracked_diff_in(answers[0]),
            root,
            files,
            at + 1,
            answers.skip(1),
        )
    }
}

/// The diffs in `answers`, one after the other.
pub open spec fn all_diffs(answers: Seq<AnswerView>) -> Seq<char>
    decreases answers.len(),
{
    if answers.len() == 0 {
        seq![]
    } else {
        untracked_diff_in(answers[0]) + all_diffs(answers.skip(1))
    }
}

/// Once git has answered for each file, the text is complete, and holds the
/// diffs of all files in the order in which git listed them.
pub proof fn law_all_collected(
    text: Seq<char>,
    root: Seq<char>,
    files: Seq<Seq<char>>,
    at: int,
    answers: Seq<AnswerView>,
)
    requires
        0 <= at,
        answers.len() == files.len() - at,
    ensures
        after_answers(text, root, files, at, answers) == CollectStepView::Done(
            text + all_diffs(answers),
        ),
    decreases answers.len(),
{
    if answers.len() == 0 {
        assert(text + all_diffs(answers) =~= text);
    } else {
        let more = untracked_diff_in(answers[0]);
        law_all_collected(text + more, root, files, at + 1, answers.skip(1));
        assert(text + more + all_diffs(answers.skip(1)) =~= text + (more + all_diffs(
            answers.skip(1),
        )));
    }
}

} // verus!
