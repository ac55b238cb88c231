//! What git is asked, and what its answers say.
use vstd::prelude::*;
use vstd::utf8::*;
use super::{BranchStatus, BranchView, CommitInfo, CommitView};
use crate::text;

verus! {

/// A call of git, in a directory or where the program runs.
#[derive(Debug)]
pub struct GitCommand {
    pub dir: Option<String>,
    pub args: Vec<String>,
}

/// A call of git, as a mathematical value.
pub struct CommandView {
    pub dir: Option<Seq<char>>,
    pub args: Seq<Seq<char>>,
}

impl DeepView for GitCommand {
    type V = CommandView;

    open spec fn deep_view(&self) -> CommandView {
        CommandView { dir: self.dir.deep_view(), args: self.args.deep_view() }
    }
}

/// The words `parts`.
pub fn words(parts: &[&str]) -> (r: Vec<String>)
    ensures
        r.deep_view() == parts@.map_values(|s: &str| s@),
{
    let ghost all = parts@.map_values(|s: &str| s@);
    let mut out: Vec<String> = Vec::new();
    for i in 0..parts.len()
        invariant
            all == parts@.map_values(|s: &str| s@),
            out.deep_view() == all.take(i as int),
    {
        let ghost before = out.deep_view();
        out.push(parts[i].to_owned());
        assert(out.deep_view() =~= before.push(all[i as int]));
        assert(all.take(i + 1) =~= all.take(i as int).push(all[i as int]));
    }
    assert(all.take(all.len() as int) =~= all);
    out
}

/// The call of git with these words, where the program runs.
pub open spec fn call(args: Seq<Seq<char>>) -> CommandView {
    CommandView { dir: None, args }
}

/// The call of git with these words.
pub fn command(parts: &[&str]) -> (r: GitCommand)
    ensures
        r.deep_view() == call(parts@.map_values(|s: &str| s@)),
{
    GitCommand { dir: None, args: words(parts) }
}

/// The call of git with these words, in a directory.
pub fn command_in(dir: &str, parts: &[&str]) -> (r: GitCommand)
    ensures
        r.deep_view() == (CommandView {
            dir: Some(dir@),
            args: parts@.map_values(|s: &str| s@),
        }),
{
    GitCommand { dir: Some(dir.to_owned()), args: words(parts) }
}

// ---------------------------------------------------------------------------
// Answers

/// What a call of git left behind.
#[derive(Clone, Debug)]
pub struct GitOutput {
    /// Whether it exited with success.
    pub success: bool,
    pub stdout: Vec<u8>,
    pub stderr: Vec<u8>,
}

/// What a call of git left behind, as a mathematical value.
pub struct OutputView {
    pub success: bool,
    pub stdout: Seq<u8>,
    pub stderr: Seq<u8>,
}

impl DeepView for GitOutput {
    type V = OutputView;

    open spec fn deep_view(&self) -> OutputView {
        OutputView { success: self.success, stdout: self.stdout@, stderr: self.stderr@ }
    }
}

/// The answer to a call of git, or why it could not be made.
pub type Answer = Result<GitOutput, String>;

/// The answer to a call of git, as a mathematical value.
pub type AnswerView = Result<OutputView, Seq<char>>;

/// The answer to a call of git, as a mathematical value.
pub open spec fn answer(a: Answer) -> AnswerView {
    match a {
        Ok(out) => Ok(out.deep_view()),
        Err(e) => Err(e@),
    }
}

/// The text that `String::from_utf8_lossy` makes of `bytes`.
pub uninterp spec fn lossy(bytes: Seq<u8>) -> Seq<char>;

/// Calls `String::from_utf8_lossy`, which decodes UTF-8 and puts a replacement
/// character where the bytes are not UTF-8.
#[verifier::external_body]
pub(crate) fn from_utf8_lossy(bytes: &[u8]) -> (r: String)
    ensures
        r@ == lossy(bytes@),
        valid_utf8(bytes@) ==> r@ == decode_utf8(bytes@),
{
    String::from_utf8_lossy(bytes).into_owned()
}

/// Calls `core::str::from_utf8`, which decodes UTF-8 or says that the bytes are
/// not UTF-8.
#[verifier::external_body]
pub(crate) fn from_utf8(bytes: &[u8]) -> (r: Option<String>)
    ensures
        match r {
            Some(s) => valid_utf8(bytes@) && s@ == decode_utf8(bytes@),
            None => !valid_utf8(bytes@),
        },
{
    match core::str::from_utf8(bytes) {
        Ok(s) => Some(s.to_owned()),
        Err(_) => None,
    }
}

/// The text that `bytes` are in UTF-8, or none.
pub open spec fn decoded_or_empty(bytes: Seq<u8>) -> Seq<char> {
    if valid_utf8(bytes) {
        decode_utf8(bytes)
    } else {
        ""@
    }
}

/// The text that `bytes` are in UTF-8, or none.
pub fn decode_or_empty(bytes: &[u8]) -> (r: String)
    ensures
        r@ == decoded_or_empty(bytes@),
{
    match from_utf8(bytes) {
        Some(s) => s,
        None => "".to_owned(),
    }
}

/// What git wrote, without the white space around it.
pub open spec fn trimmed_text(bytes: Seq<u8>) -> Seq<char> {
    text::trim(lossy(bytes))
}

/// What git wrote, without the white space around it.
pub fn trim_text(bytes: &[u8]) -> (r: String)
    ensures
        r@ == trimmed_text(bytes@),
{
    let s = from_utf8_lossy(bytes);
    text::trimmed(s.as_str())
}

/// The lines that git wrote, without empty ones.
pub open spec fn full_lines(lines: Seq<Seq<char>>) -> Seq<Seq<char>>
    decreases lines.len(),
{
    if lines.len() == 0 {
        seq![]
    } else if lines.last().len() == 0 {
        full_lines(lines.drop_last())
    } else {
        full_lines(lines.drop_last()).push(lines.last())
    }
}

/// The lines of `s`, without empty ones.
pub fn nonempty_lines(s: &str) -> (r: Vec<String>)
    ensures
        r.deep_view() == full_lines(text::text_lines(s@)),
{
    let lines = text::lines(s);
    let ghost all = lines.deep_view();
    let mut r: Vec<String> = Vec::new();
    assert(r.deep_view() =~= seq![]);
    for i in 0..lines.len()
        invariant
            all == lines.deep_view(),
            r.deep_view() == full_lines(all.take(i as int)),
    {
        proof {
            assert(all.take(i + 1).drop_last() =~= all.take(i as int));
            assert(all.take(i + 1).last() == lines@[i as int]@);
        }
        if lines[i].as_str().unicode_len() > 0 {
            let ghost before = r.deep_view();
            r.push(lines[i].clone());
            assert(r.deep_view() =~= before.push(lines@[i as int]@));
        }
    }
    assert(all.take(all.len() as int) =~= all);
    r
}

/// A call that only has to succeed: what git wrote as errors, if it did not.
pub open spec fn finished_view(a: AnswerView) -> Result<(), Seq<char>> {
    match a {
        Ok(out) => if out.success {
            Ok(())
        } else {
            Err(trimmed_text(out.stderr))
        },
        Err(e) => Err(e),
    }
}

/// Whether a call succeeded that only has to succeed.
pub fn finished(reply: Answer) -> (r: Result<(), String>)
    ensures
        match r {
            Ok(_) => finished_view(answer(reply)) == Ok::<(), Seq<char>>(()),
            Err(e) => finished_view(answer(reply)) == Err::<(), Seq<char>>(e@),
        },
{
    match reply {
        Ok(out) => if out.success {
            Ok(())
        } else {
            Err(trim_text(&out.stderr))
        },
        Err(e) => Err(e),
    }
}

/// A text that a call either finds or not, as a mathematical value.
pub open spec fn found(r: Result<Option<String>, String>) -> Result<Option<Seq<char>>, Seq<char>> {
    match r {
        Ok(v) => Ok(v.deep_view()),
        Err(e) => Err(e@),
    }
}

/// A text that a call returns, as a mathematical value.
pub open spec fn returned(r: Result<String, String>) -> Result<Seq<char>, Seq<char>> {
    match r {
        Ok(v) => Ok(v@),
        Err(e) => Err(e@),
    }
}

// ---------------------------------------------------------------------------
// Branches and remotes

/// The upstream of the branch, where it has one.
pub open spec fn upstream_in(a: AnswerView) -> Result<Option<Seq<char>>, Seq<char>> {
    match a {
        Ok(out) => Ok(
            if out.success {
                Some(trimmed_text(out.stdout))
            } else {
                None
            },
        ),
        Err(e) => Err(e),
    }
}

/// Asks for the upstream of the branch.
pub fn upstream_command() -> (r: GitCommand)
    ensures
        r.deep_view() == call(seq!["rev-parse"@, "--abbrev-ref"@, "HEAD@{u}"@]),
{
    let r = command(&["rev-parse", "--abbrev-ref", "HEAD@{u}"]);
    assert(r.deep_view().args =~= seq!["rev-parse"@, "--abbrev-ref"@, "HEAD@{u}"@]);
    r
}

/// The upstream of the branch, where it has one.
pub fn get_upstream_branch(reply: Answer) -> (r: Result<Option<String>, String>)
    ensures
        found(r) == upstream_in(answer(reply)),
{
    match reply {
        Ok(out) => if out.success {
            Ok(Some(trim_text(&out.stdout)))
        } else {
            Ok(None)
        },
        Err(e) => Err(e),
    }
}

/// The branch that is checked out.
pub open spec fn branch_in(a: AnswerView) -> Result<Seq<char>, Seq<char>> {
    match a {
        Ok(out) => if out.success {
            Ok(trimmed_text(out.stdout))
        } else {
            Err("Failed to resolve current branch: "@ + lossy(out.stderr))
        },
        Err(e) => Err(e),
    }
}

/// Asks for the branch that is checked out.
pub fn branch_command() -> (r: GitCommand)
    ensures
        r.deep_view() == call(seq!["symbolic-ref"@, "--short"@, "HEAD"@]),
{
    let r = command(&["symbolic-ref", "--short", "HEAD"]);
    assert(r.deep_view().args =~= seq!["symbolic-ref"@, "--short"@, "HEAD"@]);
    r
}

/// The branch that is checked out.
pub fn current_branch(reply: Answer) -> (r: Result<String, String>)
    ensures
        returned(r) == branch_in(answer(reply)),
{
    match reply {
        Ok(out) => if out.success {
            Ok(trim_text(&out.stdout))
        } else {
            let why = from_utf8_lossy(&out.stderr);
            Err(text::cat2("Failed to resolve current branch: ", why.as_str()))
        },
        Err(e) => Err(e),
    }
}

/// The top directory of the repository.
pub open spec fn root_in(a: AnswerView) -> Result<Seq<char>, Seq<char>> {
    match a {
        Ok(out) => if out.success {
            Ok(trimmed_text(out.stdout))
        } else {
            Err("Not in a git repository"@)
        },
        Err(e) => Err(e),
    }
}

/// Asks for the top directory of the repository.
pub fn root_command() -> (r: GitCommand)
    ensures
        r.deep_view() == call(seq!["rev-parse"@, "--show-toplevel"@]),
{
    let r = command(&["rev-parse", "--show-toplevel"]);
    assert(r.deep_view().args =~= seq!["rev-parse"@, "--show-toplevel"@]);
    r
}

/// The top directory of the repository.
pub fn git_repo_root(reply: Answer) -> (r: Result<String, String>)
    ensures
        returned(r) == root_in(answer(reply)),
{
    match reply {
        Ok(out) => if out.success {
            Ok(trim_text(&out.stdout))
        } else {
            Err("Not in a git repository".to_owned())
        },
        Err(e) => Err(e),
    }
}

/// The remotes, in git's order.
pub open spec fn remotes_in(a: AnswerView) -> Result<Seq<Seq<char>>, Seq<char>> {
    match a {
        Ok(out) => if out.success {
            Ok(full_lines(text::text_lines(lossy(out.stdout))))
        } else {
            Err("Failed to list remotes: "@ + trimmed_text(out.stderr))
        },
        Err(e) => Err(e),
    }
}

/// Asks for the remotes.
pub fn remotes_command() -> (r: GitCommand)
    ensures
        r.deep_view() == call(seq!["remote"@]),
{
    let r = command(&["remote"]);
    assert(r.deep_view().args =~= seq!["remote"@]);
    r
}

/// The remotes, in git's order.
pub fn list_remotes(reply: Answer) -> (r: Result<Vec<String>, String>)
    ensures
        match r {
            Ok(v) => remotes_in(answer(reply)) == Ok::<Seq<Seq<char>>, Seq<char>>(v.deep_view()),
            Err(e) => remotes_in(answer(reply)) == Err::<Seq<Seq<char>>, Seq<char>>(e@),
        },
{
    match reply {
        Ok(out) => if out.success {
            let s = from_utf8_lossy(&out.stdout);
            Ok(nonempty_lines(s.as_str()))
        } else {
            let why = trim_text(&out.stderr);
            Err(text::cat2("Failed to list remotes: ", why.as_str()))
        },
        Err(e) => Err(e),
    }
}

/// Whether anything is not committed. Only what git wrote counts.
pub open spec fn changes_in(a: AnswerView) -> Result<bool, Seq<char>> {
    match a {
        Ok(out) => Ok(trimmed_text(out.stdout).len() > 0),
        Err(e) => Err(e),
    }
}

/// Asks what is not committed.
pub fn changes_command() -> (r: GitCommand)
    ensures
        r.deep_view() == call(seq!["status"@, "--porcelain"@]),
{
    let r = command(&["status", "--porcelain"]);
    assert(r.deep_view().args =~= seq!["status"@, "--porcelain"@]);
    r
}

/// Whether anything is not committed.
pub fn has_uncommitted_changes(reply: Answer) -> (r: Result<bool, String>)
    ensures
        match r {
            Ok(v) => changes_in(answer(reply)) == Ok::<bool, Seq<char>>(v),
            Err(e) => changes_in(answer(reply)) == Err::<bool, Seq<char>>(e@),
        },
{
    match reply {
        Ok(out) => {
            let s = trim_text(&out.stdout);
            Ok(s.as_str().unicode_len() > 0)
        },
        Err(e) => Err(e),
    }
}

/// The number that word `i` of `s` writes, or 0.
pub open spec fn count_at(s: Seq<char>, i: int) -> usize {
    let ws = text::words(s);
    if i < ws.len() {
        match text::number(ws[i], usize::MAX as nat) {
            Some(n) => n as usize,
            None => 0,
        }
    } else {
        0
    }
}

/// How many commits the branch is ahead of its upstream, and how many behind.
/// Git writes the latter first.
pub open spec fn counts_in(a: AnswerView) -> (usize, usize) {
    match a {
        Ok(out) => if out.success {
            (count_at(lossy(out.stdout), 1), count_at(lossy(out.stdout), 0))
        } else {
            (0, 0)
        },
        Err(_) => (0, 0),
    }
}

/// Asks how the branch stands to `upstream`.
pub fn counts_command(upstream: &str) -> (r: GitCommand)
    ensures
        r.deep_view() == call(
            seq!["rev-list"@, "--left-right"@, "--count"@, upstream@ + "...HEAD"@],
        ),
{
    let range = text::cat2(upstream, "...HEAD");
    let r = command(&["rev-list", "--left-right", "--count", range.as_str()]);
    assert(r.deep_view().args =~= seq![
        "rev-list"@,
        "--left-right"@,
        "--count"@,
        upstream@ + "...HEAD"@,
    ]);
    r
}

/// The number that a word writes, or 0.
fn word_count(words: &Vec<String>, i: usize) -> (r: usize)
    ensures
        r == if i < words.deep_view().len() {
            match text::number(words.deep_view()[i as int], usize::MAX as nat) {
                Some(n) => n as usize,
                None => 0,
            }
        } else {
            0
        },
{
    if i < words.len() {
        assert(words.deep_view()[i as int] == words@[i as int]@);
        match text::parse_number(words[i].as_str(), usize::MAX) {
            Some(n) => n,
            None => 0,
        }
    } else {
        0
    }
}

/// How many commits the branch is ahead of its upstream, and how many behind.
pub fn count_ahead_behind(reply: Answer) -> (r: (usize, usize))
    ensures
        r == counts_in(answer(reply)),
{
    match reply {
        Ok(out) => if out.success {
            let s = from_utf8_lossy(&out.stdout);
            let ws = text::split_words(s.as_str());
            (word_count(&ws, 1), word_count(&ws, 0))
        } else {
            (0, 0)
        },
        Err(_) => (0, 0),
    }
}

/// How the branch stands. What cannot be found is left empty.
pub open spec fn status_in(
    branch: AnswerView,
    upstream: AnswerView,
    counts: AnswerView,
) -> BranchView {
    let up = match upstream_in(upstream) {
        Ok(found) => found,
        Err(_) => None,
    };
    let (ahead, behind) = if up is Some {
        counts_in(counts)
    } else {
        (0, 0)
    };
    BranchView {
        name: match branch_in(branch) {
            Ok(name) => name,
            Err(_) => ""@,
        },
        upstream: up,
        ahead,
        behind,
    }
}

/// How the branch stands, by git's answers to the three questions. The last
/// one counts only where there is an upstream.
pub fn branch_status(branch: Answer, upstream: Answer, counts: Answer) -> (r: BranchStatus)
    ensures
        r.deep_view() == status_in(answer(branch), answer(upstream), answer(counts)),
{
    let name = match current_branch(branch) {
        Ok(name) => name,
        Err(_) => "".to_owned(),
    };
    let up = match get_upstream_branch(upstream) {
        Ok(found) => found,
        Err(_) => None,
    };
    let (ahead, behind) = if up.is_some() {
        count_ahead_behind(counts)
    } else {
        (0, 0)
    };
    BranchStatus { name, upstream: up, ahead, behind }
}

// ---------------------------------------------------------------------------
// The log

/// The hash and the subject of a line of the log, where it has a hash.
pub open spec fn commit_in(line: Seq<char>) -> Option<CommitView> {
    let n = text::find_char(line, ' ') as int;
    if n == 0 {
        None
    } else if n < line.len() {
        Some(CommitView { hash: line.take(n), subject: line.skip(n + 1) })
    } else {
        Some(CommitView { hash: line, subject: ""@ })
    }
}

/// The commits of the lines of a log.
pub open spec fn commits_of(lines: Seq<Seq<char>>) -> Seq<CommitView>
    decreases lines.len(),
{
    if lines.len() == 0 {
        seq![]
    } else {
        let rest = commits_of(lines.drop_last());
        match commit_in(lines.last()) {
            Some(c) => rest.push(c),
            None => rest,
        }
    }
}

/// The commits of the log.
pub open spec fn log_in(a: AnswerView) -> Result<Seq<CommitView>, Seq<char>> {
    match a {
        Ok(out) => if out.success {
            Ok(commits_of(text::text_lines(lossy(out.stdout))))
        } else {
            Err("Failed to execute git log: "@ + lossy(out.stderr))
        },
        Err(e) => Err(e),
    }
}

/// Asks for the log.
pub fn log_command() -> (r: GitCommand)
    ensures
        r.deep_view() == call(seq!["log"@, "--pretty=format:%h %s"@, "--no-color"@]),
{
    let r = command(&["log", "--pretty=format:%h %s", "--no-color"]);
    assert(r.deep_view().args =~= seq!["log"@, "--pretty=format:%h %s"@, "--no-color"@]);
    r
}

/// The hash and the subject of a line of the log.
fn parse_commit(line: &str) -> (r: Option<CommitInfo>)
    ensures
        r.deep_view() == commit_in(line@),
{
    let cs = text::chars_of(line);
    let mut n: usize = 0;
    while n < cs.len() && cs[n] != ' '
        invariant
            n <= cs@.len(),
            forall|j: int| 0 <= j < n ==> #[trigger] cs@[j] != ' ',
        decreases cs@.len() - n,
    {
        n = n + 1;
    }
    proof {
        text::lemma_find_char(cs@, ' ', n as int);
    }
    if n == 0 {
        return None;
    }
    let hash = text::string_between(&cs, 0, n);
    let subject = if n < cs.len() {
        text::string_between(&cs, n + 1, cs.len())
    } else {
        "".to_owned()
    };
    proof {
        assert(hash@ =~= line@.take(n as int));
        if n < cs@.len() {
            assert(subject@ =~= line@.skip(n + 1));
        } else {
            assert(hash@ =~= line@);
        }
    }
    Some(CommitInfo { hash, subject })
}

/// The commits of the log.
pub fn get_commit_log(reply: Answer) -> (r: Result<Vec<CommitInfo>, String>)
    ensures
        match r {
            Ok(v) => log_in(answer(reply)) == Ok::<Seq<CommitView>, Seq<char>>(v.deep_view()),
            Err(e) => log_in(answer(reply)) == Err::<Seq<CommitView>, Seq<char>>(e@),
        },
{
    let out = match reply {
        Ok(out) => out,
        Err(e) => return Err(e),
    };
    if !out.success {
        let why = from_utf8_lossy(&out.stderr);
        return Err(text::cat2("Failed to execute git log: ", why.as_str()));
    }
    let s = from_utf8_lossy(&out.stdout);
    let lines = text::lines(s.as_str());
    let ghost all = lines.deep_view();
    let mut r: Vec<CommitInfo> = Vec::new();
    assert(r.deep_view() =~= seq![]);
    for i in 0..lines.len()
        invariant
            all == lines.deep_view(),
            r.deep_view() == commits_of(all.take(i as int)),
    {
        proof {
            assert(all.take(i + 1).drop_last() =~= all.take(i as int));
            assert(all.take(i + 1).last() == lines@[i as int]@);
        }
        if let Some(c) = parse_commit(lines[i].as_str()) {
            let ghost before = r.deep_view();
            r.push(c);
            assert(r.deep_view() =~= before.push(c.deep_view()));
        }
    }
    assert(all.take(all.len() as int) =~= all);
    Ok(r)
}

// ---------------------------------------------------------------------------
// Calls that only have to succeed

/// Asks git to push.
pub fn push_command() -> (r: GitCommand)
    ensures
        r.deep_view() == call(seq!["push"@]),
{
    let r = command(&["push"]);
    assert(r.deep_view().args =~= seq!["push"@]);
    r
}

/// Asks git to push a branch to a remote and to make that its upstream.
pub fn push_upstream_command(remote: &str, branch: &str) -> (r: GitCommand)
    ensures
        r.deep_view() == call(seq!["push"@, "-u"@, remote@, branch@]),
{
    let r = command(&["push", "-u", remote, branch]);
    assert(r.deep_view().args =~= seq!["push"@, "-u"@, remote@, branch@]);
    r
}

/// Asks git to stage everything.
pub fn stage_command() -> (r: GitCommand)
    ensures
        r.deep_view() == call(seq!["add"@, "-A"@]),
{
    let r = command(&["add", "-A"]);
    assert(r.deep_view().args =~= seq!["add"@, "-A"@]);
    r
}

/// Asks git to commit with a message.
pub fn commit_command(message: &str) -> (r: GitCommand)
    ensures
        r.deep_view() == call(seq!["commit"@, "-m"@, message@]),
{
    let r = command(&["commit", "-m", message]);
    assert(r.deep_view().args =~= seq!["commit"@, "-m"@, message@]);
    r
}

/// Whether a push went through.
pub fn push(reply: Answer) -> (r: Result<(), String>)
    ensures
        match r {
            Ok(_) => finished_view(answer(reply)) == Ok::<(), Seq<char>>(()),
            Err(e) => finished_view(answer(reply)) == Err::<(), Seq<char>>(e@),
        },
{
    finished(reply)
}

/// Whether a push to a remote went through.
pub fn push_set_upstream(reply: Answer) -> (r: Result<(), String>)
    ensures
        match r {
            Ok(_) => finished_view(answer(reply)) == Ok::<(), Seq<char>>(()),
            Err(e) => finished_view(answer(reply)) == Err::<(), Seq<char>>(e@),
        },
{
    finished(reply)
}

/// Whether everything was staged.
pub fn stage_all(reply: Answer) -> (r: Result<(), String>)
    ensures
        match r {
            Ok(_) => finished_view(answer(reply)) == Ok::<(), Seq<char>>(()),
            Err(e) => finished_view(answer(reply)) == Err::<(), Seq<char>>(e@),
        },
{
    finished(reply)
}

/// Whether the commit was made.
pub fn commit_with_message(reply: Answer) -> (r: Result<(), String>)
    ensures
        match r {
            Ok(_) => finished_view(answer(reply)) == Ok::<(), Seq<char>>(()),
            Err(e) => finished_view(answer(reply)) == Err::<(), Seq<char>>(e@),
        },
{
    finished(reply)
}

} // verus!
