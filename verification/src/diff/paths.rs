//! Where the files of a diff are, and how they are edited.
use vstd::prelude::*;
use super::git;
use super::git::{Answer, AnswerView};
use super::ops;
use super::ops::{apply_operations, ChangeOp, OpView};
use crate::text;

verus! {

/// Why a path of a diff is not taken.
#[derive(Debug, PartialEq, Eq)]
pub enum PathError {
    /// It is empty.
    Empty,
    /// It leads out of a directory.
    Traversal(String),
    /// It does not start at the repository.
    Absolute(String),
    /// The top directory of the repository was not found.
    NoRoot(String),
}

/// Why a path of a diff is not taken, as a mathematical value.
pub enum PathErrorView {
    Empty,
    Traversal(Seq<char>),
    Absolute(Seq<char>),
    NoRoot(Seq<char>),
}

impl View for PathError {
    type V = PathErrorView;

    open spec fn view(&self) -> PathErrorView {
        match self {
            PathError::Empty => PathErrorView::Empty,
            PathError::Traversal(p) => PathErrorView::Traversal(p@),
            PathError::Absolute(p) => PathErrorView::Absolute(p@),
            PathError::NoRoot(e) => PathErrorView::NoRoot(e@),
        }
    }
}

impl PathErrorView {
    /// What is said of it.
    pub open spec fn message(self) -> Seq<char> {
        match self {
            PathErrorView::Empty => "empty file path in diff"@,
            PathErrorView::Traversal(p) => "path traversal rejected: "@ + p,
            PathErrorView::Absolute(p) => "absolute path not allowed in diff: "@ + p,
            PathErrorView::NoRoot(e) => e,
        }
    }
}

impl PathError {
    /// What is said of it.
    pub fn message(&self) -> (r: String)
        ensures
            r@ == self@.message(),
    {
        match self {
            PathError::Empty => "empty file path in diff".to_owned(),
            PathError::Traversal(p) => text::cat2("path traversal rejected: ", p.as_str()),
            PathError::Absolute(p) => text::cat2("absolute path not allowed in diff: ", p.as_str()),
            PathError::NoRoot(e) => e.clone(),
        }
    }
}

/// How a system writes paths.
#[derive(Clone, Copy, Debug, PartialEq, Eq, Structural)]
pub enum PathStyle {
    /// Slashes stand between the parts.
    Unix,
    /// Slashes and backslashes stand between the parts, and a letter with a colon
    /// names a drive.
    Windows,
}

impl PathStyle {
    /// Whether `c` stands between two parts of a path.
    pub open spec fn separates(self, c: char) -> bool {
        c == '/' || (self == PathStyle::Windows && c == '\\')
    }

    /// The separator that is put between two paths.
    pub open spec fn separator(self) -> Seq<char> {
        match self {
            PathStyle::Unix => "/"@,
            PathStyle::Windows => "\\"@,
        }
    }
}

/// Whether `c` is a letter that can name a drive.
pub open spec fn drive_letter(c: char) -> bool {
    ('a' <= c && c <= 'z') || ('A' <= c && c <= 'Z')
}

/// Whether a path does not start at the directory it is given for: it starts with a
/// separator or names a drive.
pub open spec fn is_absolute(path: Seq<char>, style: PathStyle) -> bool {
    ||| path.len() > 0 && style.separates(path[0])
    ||| style == PathStyle::Windows && path.len() > 1 && drive_letter(path[0]) && path[1] == ':'
}

/// The path with slashes between its parts.
pub open spec fn with_slashes(path: Seq<char>, style: PathStyle) -> Seq<char> {
    path.map_values(
        |c: char|
            if style.separates(c) {
                '/'
            } else {
                c
            },
    )
}

/// Whether a part of the path leads out of a directory.
pub open spec fn leads_out(path: Seq<char>, style: PathStyle) -> bool {
    text::split_char(with_slashes(path, style), '/').contains(".."@)
}

/// Where `path` lies under `root`.
pub open spec fn joined_path(root: Seq<char>, path: Seq<char>, style: PathStyle) -> Seq<char> {
    if root.len() == 0 || style.separates(root.last()) {
        root + path
    } else {
        root + style.separator() + path
    }
}

/// Where a path of a diff lies in the repository at `root`. A path that is
/// empty, absolute or leads out of a directory is not taken.
pub open spec fn within_root(root: Seq<char>, path: Seq<char>, style: PathStyle) -> Result<
    Seq<char>,
    PathErrorView,
> {
    if path.len() == 0 {
        Err(PathErrorView::Empty)
    } else if is_absolute(path, style) {
        Err(PathErrorView::Absolute(path))
    } else if leads_out(path, style) {
        Err(PathErrorView::Traversal(path))
    } else {
        Ok(joined_path(root, path, style))
    }
}

/// A path, or why there is none, as a mathematical value.
pub open spec fn path_view(r: Result<String, PathError>) -> Result<Seq<char>, PathErrorView> {
    match r {
        Ok(p) => Ok(p@),
        Err(e) => Err(e@),
    }
}

/// Whether `c` stands between two parts of a path.
fn is_separator(c: char, style: PathStyle) -> (r: bool)
    ensures
        r == style.separates(c),
{
    c == '/' || (style == PathStyle::Windows && c == '\\')
}

/// Whether a path does not start at the directory it is given for.
fn starts_elsewhere(path: &str, style: PathStyle) -> (r: bool)
    ensures
        r == is_absolute(path@, style),
{
    let n: usize = path.unicode_len();
    if n == 0 {
        return false;
    }
    let first = path.get_char(0);
    if is_separator(first, style) {
        return true;
    }
    style == PathStyle::Windows && n > 1 && (('a' <= first && first <= 'z') || ('A' <= first
        && first <= 'Z')) && path.get_char(1) == ':'
}

/// The path with slashes between its parts.
fn slashed(path: &str, style: PathStyle) -> (r: String)
    ensures
        r@ == with_slashes(path@, style),
{
    let cs = text::chars_of(path);
    let ghost want = with_slashes(path@, style);
    let mut out: Vec<char> = Vec::new();
    for i in 0..cs.len()
        invariant
            cs@ == path@,
            want == with_slashes(path@, style),
            out@ == want.take(i as int),
    {
        if is_separator(cs[i], style) {
            out.push('/');
        } else {
            out.push(cs[i]);
        }
        assert(out@ =~= want.take(i + 1));
    }
    assert(want.take(want.len() as int) =~= want);
    text::string_of(&out)
}

/// Whether a part of the path leads out of a directory.
fn has_way_out(path: &str, style: PathStyle) -> (r: bool)
    ensures
        r == leads_out(path@, style),
{
    let even = slashed(path, style);
    let parts = text::split_on(even.as_str(), '/');
    let ghost all = parts.deep_view();
    for i in 0..parts.len()
        invariant
            all == parts.deep_view(),
            all == text::split_char(with_slashes(path@, style), '/'),
            forall|k: int| 0 <= k < i ==> #[trigger] all[k] != ".."@,
    {
        assert(all[i as int] == parts@[i as int]@);
        if *parts[i].as_str() == *".." {
            assert(all.contains(".."@));
            return true;
        }
    }
    false
}

/// Where a path of a diff lies in the repository at `repo_root`.
pub fn resolve_within_root(repo_root: &str, file_path: &str, style: PathStyle) -> (r: Result<
    String,
    PathError,
>)
    ensures
        path_view(r) == within_root(repo_root@, file_path@, style),
{
    if file_path.unicode_len() == 0 {
        return Err(PathError::Empty);
    }
    if starts_elsewhere(file_path, style) {
        return Err(PathError::Absolute(file_path.to_owned()));
    }
    if has_way_out(file_path, style) {
        return Err(PathError::Traversal(file_path.to_owned()));
    }
    let n: usize = repo_root.unicode_len();
    if n == 0 || is_separator(repo_root.get_char(n - 1), style) {
        Ok(text::cat2(repo_root, file_path))
    } else {
        match style {
            PathStyle::Unix => Ok(text::cat3(repo_root, "/", file_path)),
            PathStyle::Windows => Ok(text::cat3(repo_root, "\\", file_path)),
        }
    }
}

/// Where a path of a diff lies, by git's answer on the top directory.
pub open spec fn diff_path(a: AnswerView, path: Seq<char>, style: PathStyle) -> Result<
    Seq<char>,
    PathErrorView,
> {
    match git::root_in(a) {
        Ok(root) => within_root(root, path, style),
        Err(e) => Err(PathErrorView::NoRoot(e)),
    }
}

/// Where a path of a diff lies, by git's answer on the top directory.
pub fn resolve_diff_path(file_path: &str, root: Answer, style: PathStyle) -> (r: Result<
    String,
    PathError,
>)
    ensures
        path_view(r) == diff_path(git::answer(root), file_path@, style),
{
    match git::git_repo_root(root) {
        Ok(root) => resolve_within_root(root.as_str(), file_path, style),
        Err(e) => Err(PathError::NoRoot(e)),
    }
}

/// What is taken of a path stays below the repository: after `root` and a
/// separator come parts none of which leads back.
pub proof fn law_stays_within(root: Seq<char>, path: Seq<char>, style: PathStyle)
    requires
        within_root(root, path, style) is Ok,
    ensures
        ({
            let full = within_root(root, path, style)->Ok_0;
            &&& root.is_prefix_of(full)
            &&& path.is_suffix_of(full)
            &&& !leads_out(path, style)
            &&& !is_absolute(path, style)
            &&& root.len() > 0 && !style.separates(root.last()) ==> full == root
                + style.separator() + path
        }),
{
    let full = within_root(root, path, style)->Ok_0;
    assert(full.subrange(0, root.len() as int) =~= root);
    assert(full.subrange(full.len() - path.len(), full.len() as int) =~= path);
}

/// A path without backslashes and colons is taken on every system or on none.
pub proof fn law_styles_agree(root: Seq<char>, path: Seq<char>)
    requires
        !path.contains('\\'),
        !path.contains(':'),
    ensures
        is_absolute(path, PathStyle::Windows) == is_absolute(path, PathStyle::Unix),
        leads_out(path, PathStyle::Windows) == leads_out(path, PathStyle::Unix),
        within_root(root, path, PathStyle::Windows) is Ok <==> within_root(
            root,
            path,
            PathStyle::Unix,
        ) is Ok,
{
    assert forall|i: int| 0 <= i < path.len() implies #[trigger] path[i] != '\\' && path[i]
        != ':' by {
        assert(path.contains(path[i]));
    }
    assert(with_slashes(path, PathStyle::Windows) =~= with_slashes(path, PathStyle::Unix));
}

// ---------------------------------------------------------------------------
// Editing

/// The text of a file after the edits `ops`. It ends with a line feed if it did
/// before.
pub open spec fn edited(content: Seq<char>, ops: Seq<OpView>) -> Seq<char> {
    let body = text::join(ops::applied(text::text_lines(content), ops), "\n"@);
    if content.len() > 0 && content.last() == '\n' {
        body + "\n"@
    } else {
        body
    }
}

/// The text of a file after the edits `operations`.
pub fn apply_changes(content: &str, operations: &[ChangeOp]) -> (r: String)
    ensures
        r@ == edited(content@, operations.deep_view()),
{
    let lines = text::lines(content);
    let result = apply_operations(&lines, operations);
    let body = text::joined(&result, "\n");
    let n: usize = content.unicode_len();
    if n > 0 && content.get_char(n - 1) == '\n' {
        text::cat2(body.as_str(), "\n")
    } else {
        body
    }
}

/// A path that leads out of a directory is not taken, wherever in it that happens.
pub proof fn law_not_led_out(root: Seq<char>, before: Seq<char>, after: Seq<char>)
    ensures
        within_root(root, before + "/../"@ + after, PathStyle::Unix) is Err,
        within_root(root, "../"@ + after, PathStyle::Unix) is Err,
        within_root(root, before + "/.."@, PathStyle::Unix) is Err,
        within_root(root, ".."@, PathStyle::Unix) is Err,
        within_root(root, "/"@ + after, PathStyle::Unix) is Err,
        within_root(root, seq![], PathStyle::Unix) is Err,
{
    reveal_strlit("/../");
    reveal_strlit("../");
    reveal_strlit("/..");
    reveal_strlit("..");
    reveal_strlit("/");
    let up = ".."@;
    let below = up + seq!['/'] + after;
    assert("../"@ + after =~= below);
    assert(before + "/../"@ + after =~= before + seq!['/'] + below);
    assert(before + "/.."@ =~= before + seq!['/'] + up);
    lemma_up(after);
    lemma_led_out(before, below);
    lemma_led_out(before, up);
    assert(("/"@ + after)[0] == '/');
}

/// The parts of a path below the directory above.
proof fn lemma_up(after: Seq<char>)
    ensures
        leads_out(".."@, PathStyle::Unix),
        leads_out(".."@ + seq!['/'] + after, PathStyle::Unix),
{
    reveal_strlit("..");
    let up = ".."@;
    let below = up + seq!['/'] + after;
    assert(with_slashes(up, PathStyle::Unix) =~= up);
    assert(with_slashes(below, PathStyle::Unix) =~= below);
    assert(!up.contains('/'));
    text::law_split_around(up, after, '/');
    assert(text::split_char(up, '/')[0] == up);
    assert(text::split_char(below, '/')[0] == up);
}

/// What leads out does so below every directory.
proof fn lemma_led_out(before: Seq<char>, path: Seq<char>)
    requires
        leads_out(path, PathStyle::Unix),
    ensures
        leads_out(before + seq!['/'] + path, PathStyle::Unix),
{
    let all = before + seq!['/'] + path;
    assert(with_slashes(path, PathStyle::Unix) =~= path);
    assert(with_slashes(all, PathStyle::Unix) =~= all);
    text::law_split_around(before, path, '/');
    let parts = text::split_char(path, '/');
    let k = choose|k: int| 0 <= k < parts.len() && parts[k] == ".."@;
    assert(text::split_char(all, '/')[text::split_char(before, '/').len() + k] == ".."@);
}

/// Every other path is taken, and lies below the repository where the diff says.
pub proof fn law_path_taken(root: Seq<char>, path: Seq<char>)
    requires
        path.len() > 0,
        path[0] != '/',
        !text::split_char(path, '/').contains(".."@),
    ensures
        root.len() > 0 && root.last() != '/' ==> within_root(root, path, PathStyle::Unix) == Ok::<
            Seq<char>,
            PathErrorView,
        >(root + seq!['/'] + path),
        root.len() == 0 || root.last() == '/' ==> within_root(root, path, PathStyle::Unix) == Ok::<
            Seq<char>,
            PathErrorView,
        >(root + path),
{
    reveal_strlit("/");
    assert(with_slashes(path, PathStyle::Unix) =~= path);
    assert("/"@ =~= seq!['/']);
}

/// The text of a file that ends with a line feed still does after edits, and one
/// that does not has none put there.
pub proof fn law_last_line_feed(content: Seq<char>, ops: Seq<OpView>)
    ensures
        ({
            let body = text::join(
                ops::applied(text::text_lines(content), ops),
                seq!['\n'],
            );
            &&& content.len() > 0 && content.last() == '\n' ==> edited(content, ops) == body
                + seq!['\n']
            &&& content.len() == 0 || content.last() != '\n' ==> edited(content, ops) == body
        }),
{
    reveal_strlit("\n");
    assert("\n"@ =~= seq!['\n']);
}

} // verus!
