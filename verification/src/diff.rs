//! Diffs: where they come from, what they hold and how git is asked for them.
use vstd::prelude::*;
use crate::names::NameMap;
use crate::text;

pub mod answers;
pub mod asked;
pub mod collect;
pub mod fetch;
pub mod git;
pub mod hunks;
pub mod ops;
pub mod order;
pub mod parse;
pub mod paths;
pub mod pattern;
pub mod rebase;
pub mod same;
pub mod sections;
pub mod weave;

pub use ops::{apply_operations, ChangeOp};
pub use parse::parse_diff_output;

verus! {

/// A line of one side of a diff: its number and its text.
pub type LineChange = (usize, String);

/// The two sides of a file's diff.
pub type FileLines = (Vec<LineChange>, Vec<LineChange>);

/// The changed files, by path.
pub type FileChanges = NameMap<FileLines>;

/// What is known of changed files besides their lines, by path.
pub type FileMetaMap = NameMap<FileMeta>;

/// One side of a diff, as a mathematical value.
pub type SideView = Seq<(usize, Seq<char>)>;

/// The changed files, as a mathematical value.
pub type FilesView = Map<Seq<char>, (SideView, SideView)>;

/// The file metadata, as a mathematical value.
pub type MetaView = Map<Seq<char>, FileMetaView>;

/// A rename that git reported.
#[derive(Debug, PartialEq, Eq)]
pub struct RenameInfo {
    /// The path before the rename.
    pub from: String,
    /// How alike the two files are, in percent. A rename without content
    /// changes has 100.
    pub similarity: u8,
}

/// A rename, as a mathematical value.
pub struct RenameView {
    pub from: Seq<char>,
    pub similarity: u8,
}

/// Whether a file was changed, added or deleted.
#[derive(Clone, Copy, Debug, PartialEq, Eq, Structural)]
pub enum FileStatus {
    Modified,
    Added,
    Deleted,
}

impl Default for FileStatus {
    fn default() -> (r: Self)
        ensures
            r == FileStatus::Modified,
    {
        FileStatus::Modified
    }
}

/// What is known of a changed file besides its lines.
#[derive(Debug, PartialEq, Eq)]
pub struct FileMeta {
    pub status: FileStatus,
    pub rename: Option<RenameInfo>,
}

/// File metadata, as a mathematical value.
pub struct FileMetaView {
    pub status: FileStatus,
    pub rename: Option<RenameView>,
}

impl DeepView for RenameInfo {
    type V = RenameView;

    open spec fn deep_view(&self) -> RenameView {
        RenameView { from: self.from@, similarity: self.similarity }
    }
}

impl DeepView for FileMeta {
    type V = FileMetaView;

    open spec fn deep_view(&self) -> FileMetaView {
        FileMetaView { status: self.status, rename: self.rename.deep_view() }
    }
}

impl Clone for RenameInfo {
    fn clone(&self) -> (r: Self)
        ensures
            r.deep_view() == self.deep_view(),
    {
        RenameInfo { from: self.from.clone(), similarity: self.similarity }
    }
}

impl Clone for FileMeta {
    fn clone(&self) -> (r: Self)
        ensures
            r.deep_view() == self.deep_view(),
    {
        FileMeta {
            status: self.status,
            rename: match &self.rename {
                Some(rename) => Some(rename.clone()),
                None => None,
            },
        }
    }
}

impl Default for FileMeta {
    fn default() -> (r: Self)
        ensures
            r.status == FileStatus::Modified,
            r.rename is None,
    {
        FileMeta { status: FileStatus::Modified, rename: None }
    }
}

impl FileMetaView {
    /// Whether this is a rename.
    pub open spec fn renamed(self) -> bool {
        self.rename is Some
    }

    /// Whether this is a rename without content changes.
    pub open spec fn purely_renamed(self) -> bool {
        self.rename matches Some(r) && r.similarity >= 100
    }
}

impl FileMeta {
    /// Whether git reported a rename without content changes.
    pub fn is_pure_rename(&self) -> (r: bool)
        ensures
            r == self.deep_view().purely_renamed(),
    {
        match &self.rename {
            Some(rename) => rename.similarity >= 100,
            None => false,
        }
    }

    /// Whether git reported a rename.
    pub fn is_rename(&self) -> (r: bool)
        ensures
            r == self.deep_view().renamed(),
    {
        self.rename.is_some()
    }
}

/// A diff: the changed files, what else is known of them, and the titles of
/// the two sides.
pub struct DiffPayload {
    pub files: FileChanges,
    pub meta: FileMetaMap,
    pub left_label: String,
    pub right_label: String,
}

/// A diff, as a mathematical value.
pub struct PayloadView {
    pub files: FilesView,
    pub meta: MetaView,
    pub left_label: Seq<char>,
    pub right_label: Seq<char>,
}

impl DeepView for DiffPayload {
    type V = PayloadView;

    open spec fn deep_view(&self) -> PayloadView {
        PayloadView {
            files: self.files.deep_view(),
            meta: self.meta.deep_view(),
            left_label: self.left_label@,
            right_label: self.right_label@,
        }
    }
}

/// Where a diff comes from.
#[derive(Debug, PartialEq)]
pub enum DiffSource {
    /// The working tree against the last commit, with untracked files.
    Uncommitted,
    /// The working tree against a ref.
    ToRef(String),
    /// One ref against another.
    Between { from: String, to: String },
    /// Whatever `git diff` makes of these arguments.
    CustomArgs(String),
    /// A commit against its first parent.
    Commit(String),
    /// The working tree against the point at which the current branch forked
    /// from a base. Without a base, the upstream is taken, and without that
    /// `main` or `master`.
    SinceFork { base: Option<String> },
}

/// Where a diff comes from, as a mathematical value.
pub enum SourceView {
    Uncommitted,
    ToRef(Seq<char>),
    Between { from: Seq<char>, to: Seq<char> },
    CustomArgs(Seq<char>),
    Commit(Seq<char>),
    SinceFork { base: Option<Seq<char>> },
}

impl View for DiffSource {
    type V = SourceView;

    open spec fn view(&self) -> SourceView {
        match self {
            DiffSource::Uncommitted => SourceView::Uncommitted,
            DiffSource::ToRef(r) => SourceView::ToRef(r@),
            DiffSource::Between { from, to } => SourceView::Between { from: from@, to: to@ },
            DiffSource::CustomArgs(a) => SourceView::CustomArgs(a@),
            DiffSource::Commit(h) => SourceView::Commit(h@),
            DiffSource::SinceFork { base } => SourceView::SinceFork { base: base.deep_view() },
        }
    }
}

impl DeepView for DiffSource {
    type V = SourceView;

    open spec fn deep_view(&self) -> SourceView {
        self@
    }
}

impl Clone for DiffSource {
    fn clone(&self) -> (r: Self)
        ensures
            r@ == self@,
    {
        match self {
            DiffSource::Uncommitted => DiffSource::Uncommitted,
            DiffSource::ToRef(r) => DiffSource::ToRef(r.clone()),
            DiffSource::Between { from, to } => DiffSource::Between {
                from: from.clone(),
                to: to.clone(),
            },
            DiffSource::CustomArgs(a) => DiffSource::CustomArgs(a.clone()),
            DiffSource::Commit(h) => DiffSource::Commit(h.clone()),
            DiffSource::SinceFork { base } => DiffSource::SinceFork {
                base: match base {
                    Some(b) => Some(b.clone()),
                    None => None,
                },
            },
        }
    }
}

/// A commit of the log.
#[derive(Debug)]
pub struct CommitInfo {
    pub hash: String,
    pub subject: String,
}

/// A commit of the log, as a mathematical value.
pub struct CommitView {
    pub hash: Seq<char>,
    pub subject: Seq<char>,
}

impl DeepView for CommitInfo {
    type V = CommitView;

    open spec fn deep_view(&self) -> CommitView {
        CommitView { hash: self.hash@, subject: self.subject@ }
    }
}

impl Clone for CommitInfo {
    fn clone(&self) -> (r: Self)
        ensures
            r.deep_view() == self.deep_view(),
    {
        CommitInfo { hash: self.hash.clone(), subject: self.subject.clone() }
    }
}

/// How the current branch stands to its upstream. Both counts are zero where
/// there is no upstream or they cannot be found.
#[derive(Debug)]
pub struct BranchStatus {
    pub name: String,
    pub upstream: Option<String>,
    pub ahead: usize,
    pub behind: usize,
}

/// How the current branch stands to its upstream, as a mathematical value.
pub struct BranchView {
    pub name: Seq<char>,
    pub upstream: Option<Seq<char>>,
    pub ahead: usize,
    pub behind: usize,
}

impl DeepView for BranchStatus {
    type V = BranchView;

    open spec fn deep_view(&self) -> BranchView {
        BranchView {
            name: self.name@,
            upstream: self.upstream.deep_view(),
            ahead: self.ahead,
            behind: self.behind,
        }
    }
}

impl Clone for BranchStatus {
    fn clone(&self) -> (r: Self)
        ensures
            r.deep_view() == self.deep_view(),
    {
        BranchStatus {
            name: self.name.clone(),
            upstream: match &self.upstream {
                Some(name) => Some(name.clone()),
                None => None,
            },
            ahead: self.ahead,
            behind: self.behind,
        }
    }
}

impl Default for BranchStatus {
    fn default() -> (r: Self)
        ensures
            r.name@.len() == 0,
            r.upstream is None,
            r.ahead == 0,
            r.behind == 0,
    {
        BranchStatus { name: String::new(), upstream: None, ahead: 0, behind: 0 }
    }
}

/// The source that the command line asks for. Custom arguments come first,
/// the fork point of the branch next, and two refs before one ref.
pub open spec fn selected_source(
    diff_args: Option<Seq<char>>,
    branch: bool,
    from: Seq<char>,
    to: Seq<char>,
) -> SourceView {
    match diff_args {
        Some(args) => SourceView::CustomArgs(args),
        None => if branch {
            SourceView::SinceFork {
                base: if from.len() > 0 {
                    Some(from)
                } else {
                    None
                },
            }
        } else if from.len() == 0 {
            SourceView::Uncommitted
        } else if to.len() == 0 {
            SourceView::ToRef(from)
        } else {
            SourceView::Between { from, to }
        },
    }
}

/// The source that the command line asks for.
pub fn select_diff_source(diff_args: Option<&str>, branch: bool, from: &str, to: &str) -> (r:
    DiffSource)
    ensures
        r@ == selected_source(
            match diff_args {
                Some(a) => Some(a@),
                None => None,
            },
            branch,
            from@,
            to@,
        ),
{
    let has_from = from.unicode_len() > 0;
    let has_to = to.unicode_len() > 0;
    if let Some(args) = diff_args {
        DiffSource::CustomArgs(args.to_owned())
    } else if branch {
        DiffSource::SinceFork {
            base: if has_from {
                Some(from.to_owned())
            } else {
                None
            },
        }
    } else if has_from && has_to {
        DiffSource::Between { from: from.to_owned(), to: to.to_owned() }
    } else if has_from {
        DiffSource::ToRef(from.to_owned())
    } else {
        DiffSource::Uncommitted
    }
}

/// The arguments of `git <subcmd> --no-color [--unified=<context>] <extra>`.
pub open spec fn git_args(
    subcmd: Seq<char>,
    extra: Seq<Seq<char>>,
    context: Option<usize>,
) -> Seq<Seq<char>> {
    let unified = match context {
        Some(n) => seq!["--unified="@ + text::decimal(n as nat)],
        None => seq![],
    };
    seq![subcmd, "--no-color"@] + unified + extra
}

/// The arguments of a git command that prints a diff.
pub fn build_git_args(subcmd: &str, extra: &[&str], context: Option<usize>) -> (r: Vec<String>)
    ensures
        r.deep_view() == git_args(subcmd@, extra@.map_values(|s: &str| s@), context),
{
    let mut out: Vec<String> = Vec::new();
    out.push(subcmd.to_owned());
    out.push("--no-color".to_owned());
    if let Some(n) = context {
        let digits = text::decimal_of(n);
        out.push(text::cat2("--unified=", digits.as_str()));
    }
    let ghost head = out.deep_view();
    let ghost all = extra@.map_values(|s: &str| s@);
    assert(head =~= git_args(subcmd@, seq![], context));
    for i in 0..extra.len()
        invariant
            all == extra@.map_values(|s: &str| s@),
            out.deep_view() == head + all.take(i as int),
    {
        let ghost before = out.deep_view();
        out.push(extra[i].to_owned());
        assert(out.deep_view() =~= before.push(all[i as int]));
        assert(head + all.take(i + 1) =~= (head + all.take(i as int)).push(all[i as int]));
    }
    assert(all.take(all.len() as int) =~= all);
    assert(git_args(subcmd@, all, context) =~= head + all);
    out
}

/// `s` trimmed, or `default` where nothing is left.
pub open spec fn label_or(s: Seq<char>, default: Seq<char>) -> Seq<char> {
    let t = text::trim(s);
    if t.len() > 0 {
        t
    } else {
        default
    }
}

/// The title of the left side: what stands before the first `..` of `args`.
pub open spec fn left_label(args: Seq<char>) -> Seq<char> {
    match text::find(args, ".."@, 0) {
        Some(i) => label_or(args.take(i), "Base"@),
        None => label_or(args, "Base"@),
    }
}

/// The title of the right side: what stands between the first `..` of `args`
/// and the next.
pub open spec fn right_label(args: Seq<char>) -> Seq<char> {
    match text::find(args, ".."@, 0) {
        Some(i) => match text::find(args, ".."@, i + 2) {
            Some(j) => label_or(args.subrange(i + 2, j), "Target"@),
            None => label_or(args.skip(i + 2), "Target"@),
        },
        None => "Target"@,
    }
}

/// `s` trimmed, or `default` where nothing is left.
fn label_or_default(s: &str, default: &str) -> (r: String)
    ensures
        r@ == label_or(s@, default@),
{
    let t = text::trimmed(s);
    if t.as_str().unicode_len() > 0 {
        t
    } else {
        default.to_owned()
    }
}

/// The title of the left side of the diff that `args` ask for.
pub fn extract_left_label(args: &str) -> (r: String)
    ensures
        r@ == left_label(args@),
{
    let cs = text::chars_of(args);
    match text::find_in(&cs, "..", 0) {
        Some(i) => {
            let left = text::string_between(&cs, 0, i);
            assert(left@ =~= args@.take(i as int));
            label_or_default(left.as_str(), "Base")
        },
        None => label_or_default(args, "Base"),
    }
}

/// The title of the right side of the diff that `args` ask for.
pub fn extract_right_label(args: &str) -> (r: String)
    ensures
        r@ == right_label(args@),
{
    let cs = text::chars_of(args);
    let len: usize = cs.len();
    proof {
        reveal_strlit("..");
        text::lemma_find(args@, ".."@, 0);
    }
    match text::find_in(&cs, "..", 0) {
        Some(i) => {
            proof {
                text::lemma_find(args@, ".."@, i + 2);
            }
            let end: usize = match text::find_in(&cs, "..", i + 2) {
                Some(j) => j,
                None => len,
            };
            let right = text::string_between(&cs, i + 2, end);
            assert(args@.skip(i + 2) =~= args@.subrange(i + 2, args@.len() as int));
            label_or_default(right.as_str(), "Target")
        },
        None => "Target".to_owned(),
    }
}

} // verus!
