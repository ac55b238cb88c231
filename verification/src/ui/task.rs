//! What the screen asks of the program around it.
use vstd::prelude::*;
use crate::diff::ops::{ChangeOp, OpView};
use crate::diff::{DiffSource, SourceView};

verus! {

/// What a fetched diff is for.
pub enum FetchFor {
    /// To show what changed in the working tree.
    Reload,
    /// To show whole files, or hunks again.
    FullFile,
    /// To go back from the log.
    LeaveLog,
    /// To show a commit of the log.
    OpenCommit { hash: String, subject: String },
}

/// What a fetched diff is for, as a mathematical value.
pub enum FetchView {
    Reload,
    FullFile,
    LeaveLog,
    OpenCommit { hash: Seq<char>, subject: Seq<char> },
}

impl View for FetchFor {
    type V = FetchView;

    open spec fn view(&self) -> FetchView {
        match self {
            FetchFor::Reload => FetchView::Reload,
            FetchFor::FullFile => FetchView::FullFile,
            FetchFor::LeaveLog => FetchView::LeaveLog,
            FetchFor::OpenCommit { hash, subject } => FetchView::OpenCommit {
                hash: hash@,
                subject: subject@,
            },
        }
    }
}

/// What is to be done next, outside of the screen.
pub enum Task {
    /// Nothing.
    Nothing,
    /// Leave the program, after a rebase or not.
    Exit { rebased: bool },
    /// Fetch a diff.
    Fetch { source: DiffSource, context: Option<usize>, purpose: FetchFor },
    /// Find out how the branch stands, and reload the diff or not.
    BranchStatus { reload: bool },
    /// Read the log.
    CommitLog,
    /// Find the upstream to rebase onto.
    UpstreamForRebase,
    /// Rebase onto this upstream.
    Rebase(String),
    /// Find out whether there is anything to commit.
    ChangesForCommit,
    /// Collect what a commit message is written from.
    CommitContext,
    /// Have a commit message written from this.
    CommitMessage(String),
    /// Stage everything, for a commit with this message.
    StageAll(String),
    /// Commit with this message.
    Commit(String),
    /// Find out whether anything keeps the branch from being synced.
    ChangesForSync,
    /// Find the upstream to sync with.
    UpstreamForSync,
    /// Pull from this upstream.
    Pull(String),
    /// Push to this upstream.
    Push(String),
    /// List the remotes.
    Remotes,
    /// Find the branch to push to one of these remotes.
    BranchForPush(Vec<String>),
    /// Find the branch to push to the chosen remote.
    BranchForPicker,
    /// Push a branch to a remote and make that its upstream.
    PushTo { remote: String, branch: String },
    /// Put this into the clipboard.
    Copy(String),
    /// Write these edits to these files.
    Apply(Vec<(String, Vec<ChangeOp>)>),
}

/// What is to be done next, as a mathematical value.
pub enum TaskView {
    Nothing,
    Exit { rebased: bool },
    Fetch { source: SourceView, context: Option<usize>, purpose: FetchView },
    BranchStatus { reload: bool },
    CommitLog,
    UpstreamForRebase,
    Rebase(Seq<char>),
    ChangesForCommit,
    CommitContext,
    CommitMessage(Seq<char>),
    StageAll(Seq<char>),
    Commit(Seq<char>),
    ChangesForSync,
    UpstreamForSync,
    Pull(Seq<char>),
    Push(Seq<char>),
    Remotes,
    BranchForPush(Seq<Seq<char>>),
    BranchForPicker,
    PushTo { remote: Seq<char>, branch: Seq<char> },
    Copy(Seq<char>),
    Apply(Seq<(Seq<char>, Seq<OpView>)>),
}

impl View for Task {
    type V = TaskView;

    open spec fn view(&self) -> TaskView {
        match self {
            Task::Nothing => TaskView::Nothing,
            Task::Exit { rebased } => TaskView::Exit { rebased: *rebased },
            Task::Fetch { source, context, purpose } => TaskView::Fetch {
                source: source@,
                context: *context,
                purpose: purpose@,
            },
            Task::BranchStatus { reload } => TaskView::BranchStatus { reload: *reload },
            Task::CommitLog => TaskView::CommitLog,
            Task::UpstreamForRebase => TaskView::UpstreamForRebase,
            Task::Rebase(s) => TaskView::Rebase(s@),
            Task::ChangesForCommit => TaskView::ChangesForCommit,
            Task::CommitContext => TaskView::CommitContext,
            Task::CommitMessage(s) => TaskView::CommitMessage(s@),
            Task::StageAll(s) => TaskView::StageAll(s@),
            Task::Commit(s) => TaskView::Commit(s@),
            Task::ChangesForSync => TaskView::ChangesForSync,
            Task::UpstreamForSync => TaskView::UpstreamForSync,
            Task::Pull(s) => TaskView::Pull(s@),
            Task::Push(s) => TaskView::Push(s@),
            Task::Remotes => TaskView::Remotes,
            Task::BranchForPush(r) => TaskView::BranchForPush(r.deep_view()),
            Task::BranchForPicker => TaskView::BranchForPicker,
            Task::PushTo { remote, branch } => TaskView::PushTo {
                remote: remote@,
                branch: branch@,
            },
            Task::Copy(s) => TaskView::Copy(s@),
            Task::Apply(edits) => TaskView::Apply(edits.deep_view()),
        }
    }
}

impl TaskView {
    /// Whether the screen is drawn before the task is begun, because it says
    /// what is going on.
    pub open spec fn announced(self) -> bool {
        ||| self is CommitContext
        ||| self is StageAll
        ||| self is ChangesForSync
        ||| self is Pull
        ||| self is Push
        ||| self is PushTo
    }
}

impl Task {
    /// Whether the screen is drawn before the task is begun.
    pub fn is_announced(&self) -> (r: bool)
        ensures
            r == self@.announced(),
    {
        match self {
            Task::CommitContext
            | Task::StageAll(_)
            | Task::ChangesForSync
            | Task::Pull(_)
            | Task::Push(_)
            | Task::PushTo { .. } => true,
            _ => false,
        }
    }
}

} // verus!
