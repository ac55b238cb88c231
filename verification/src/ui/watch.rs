//! When the diff is reloaded because files have changed.
use vstd::prelude::*;
use crate::text;

verus! {

/// What happened to some files.
#[derive(Clone, Copy, Debug, PartialEq, Eq, Structural)]
pub enum WatchKind {
    Create,
    Modify,
    Remove,
    Other,
}

/// A file that something happened to: its name, and its path below the
/// repository where it lies there.
#[derive(Debug)]
pub struct WatchedPath {
    pub name: Option<String>,
    pub relative: Option<String>,
}

/// Whether what happens to a file says nothing of the diff: lock files, and
/// files of git's own that every command touches.
pub open spec fn is_ignored(name: Option<Seq<char>>, relative: Option<Seq<char>>) -> bool {
    ||| name matches Some(n) && ".lock"@.is_suffix_of(n)
    ||| relative matches Some(p) && {
        ||| ".git/objects/"@.is_prefix_of(p)
        ||| ".git/logs/"@.is_prefix_of(p)
        ||| ".git/info/"@.is_prefix_of(p)
        ||| p == ".git/FETCH_HEAD"@
        ||| p == ".git/ORIG_HEAD"@
    }
}

/// Whether what happens to a file says nothing of the diff.
pub fn is_ignored_path(path: &WatchedPath) -> (r: bool)
    ensures
        r == is_ignored(path.name.deep_view(), path.relative.deep_view()),
{
    if let Some(name) = &path.name {
        if text::ends_with(name.as_str(), ".lock") {
            return true;
        }
    }
    match &path.relative {
        Some(p) => text::starts_with(p.as_str(), ".git/objects/") || text::starts_with(
            p.as_str(),
            ".git/logs/",
        ) || text::starts_with(p.as_str(), ".git/info/") || *p.as_str() == *".git/FETCH_HEAD"
            || *p.as_str() == *".git/ORIG_HEAD",
        None => false,
    }
}

/// Whether a file is not ignored.
pub open spec fn matters(path: WatchedPath) -> bool {
    !is_ignored(path.name.deep_view(), path.relative.deep_view())
}

/// Whether the diff is reloaded: files were made, changed or removed, and not
/// all of them are ignored.
pub fn triggers_reload(kind: WatchKind, paths: &Vec<WatchedPath>) -> (r: bool)
    ensures
        r == (kind != WatchKind::Other && exists|i: int|
            0 <= i < paths@.len() && matters(#[trigger] paths@[i])),
{
    if kind == WatchKind::Other {
        return false;
    }
    for i in 0..paths.len()
        invariant
            kind != WatchKind::Other,
            forall|j: int| 0 <= j < i ==> !matters(#[trigger] paths@[j]),
    {
        if !is_ignored_path(&paths[i]) {
            assert(matters(paths@[i as int]));
            return true;
        }
    }
    false
}

/// How long files must have been at rest before the diff is reloaded, in
/// milliseconds.
pub const RELOAD_DEBOUNCE: u64 = 150;

/// How long a key is waited for while nothing is to be done, in milliseconds.
pub const IDLE_POLL: u64 = 250;

/// Whether the diff is reloaded now, so many milliseconds after the last
/// change.
pub fn reload_due(since: Option<u64>) -> (r: bool)
    ensures
        r == (since matches Some(ms) && ms >= RELOAD_DEBOUNCE),
{
    match since {
        Some(ms) => ms >= RELOAD_DEBOUNCE,
        None => false,
    }
}

/// How long a key is waited for: until the diff is reloaded, where that is to
/// be done.
pub fn poll_timeout(since: Option<u64>) -> (r: u64)
    ensures
        r == match since {
            Some(ms) => if ms < RELOAD_DEBOUNCE {
                (RELOAD_DEBOUNCE - ms) as u64
            } else {
                0
            },
            None => IDLE_POLL,
        },
{
    match since {
        Some(ms) => RELOAD_DEBOUNCE.saturating_sub(ms),
        None => IDLE_POLL,
    }
}

proof fn lemma_not_own(path: Seq<char>)
    requires
        path == ".git/HEAD"@ || path == ".git/index"@,
    ensures
        !is_ignored(None, Some(path)),
{
    reveal_strlit(".git/objects/");
    reveal_strlit(".git/logs/");
    reveal_strlit(".git/info/");
    reveal_strlit(".git/FETCH_HEAD");
    reveal_strlit(".git/ORIG_HEAD");
    reveal_strlit(".git/HEAD");
    reveal_strlit(".git/index");
    assert(path.len() < 13);
    if ".git/logs/"@.is_prefix_of(path) {
        assert(path.subrange(0, 10)[5] == 'l');
    }
    if ".git/info/"@.is_prefix_of(path) {
        assert(path.subrange(0, 10)[6] == 'n' && path.subrange(0, 10)[7] == 'f');
    }
    assert(path.len() != ".git/FETCH_HEAD"@.len());
    assert(path.len() != ".git/ORIG_HEAD"@.len());
}

/// Whatever happens outside git's own directory matters, but for lock files, and so
/// do git's references.
pub proof fn law_watched(name: Option<Seq<char>>, path: Seq<char>, rest: Seq<char>)
    requires
        name matches Some(n) ==> !".lock"@.is_suffix_of(n),
    ensures
        !".git/"@.is_prefix_of(path) ==> !is_ignored(name, Some(path)),
        !is_ignored(name, Some(".git/refs/"@ + rest)),
        !is_ignored(name, Some(".git/HEAD"@)),
        !is_ignored(name, Some(".git/index"@)),
        !is_ignored(name, None),
{
    reveal_strlit(".git/");
    reveal_strlit(".git/objects/");
    reveal_strlit(".git/logs/");
    reveal_strlit(".git/info/");
    reveal_strlit(".git/FETCH_HEAD");
    reveal_strlit(".git/ORIG_HEAD");
    reveal_strlit(".git/refs/");
    reveal_strlit(".git/HEAD");
    reveal_strlit(".git/index");
    let git = ".git/"@;
    if is_ignored(name, Some(path)) {
        if ".git/objects/"@.is_prefix_of(path) {
            assert(path.take(5) =~= git) by {
                assert forall|i: int| 0 <= i < 5 implies path[i] == git[i] by {
                    assert(".git/objects/"@[i] == path.subrange(0, 13)[i]);
                }
            }
        } else if ".git/logs/"@.is_prefix_of(path) {
            assert(path.take(5) =~= git) by {
                assert forall|i: int| 0 <= i < 5 implies path[i] == git[i] by {
                    assert(".git/logs/"@[i] == path.subrange(0, 10)[i]);
                }
            }
        } else if ".git/info/"@.is_prefix_of(path) {
            assert(path.take(5) =~= git) by {
                assert forall|i: int| 0 <= i < 5 implies path[i] == git[i] by {
                    assert(".git/info/"@[i] == path.subrange(0, 10)[i]);
                }
            }
        } else {
            assert(path.take(5) =~= git);
        }
        assert(git.is_prefix_of(path));
    }
    let refs = ".git/refs/"@ + rest;
    assert(refs[5] == 'r');
    assert(refs.len() > 5);
    if is_ignored(name, Some(refs)) {
        if ".git/objects/"@.is_prefix_of(refs) {
            assert(refs.subrange(0, 13)[5] == 'o');
        } else if ".git/logs/"@.is_prefix_of(refs) {
            assert(refs.subrange(0, 10)[5] == 'l');
        } else if ".git/info/"@.is_prefix_of(refs) {
            assert(refs.subrange(0, 10)[5] == 'i');
        } else if refs == ".git/FETCH_HEAD"@ {
            assert(refs[5] == 'F');
        } else {
            assert(refs[5] == 'O');
        }
    }
    lemma_not_own(".git/HEAD"@);
    lemma_not_own(".git/index"@);
}

/// Lock files, and what git keeps of objects, of logs and of itself, say nothing of
/// the diff.
pub proof fn law_not_watched(
    name: Option<Seq<char>>,
    relative: Option<Seq<char>>,
    rest: Seq<char>,
)
    ensures
        is_ignored(Some(rest + ".lock"@), relative),
        is_ignored(name, Some(".git/objects/"@ + rest)),
        is_ignored(name, Some(".git/logs/"@ + rest)),
        is_ignored(name, Some(".git/info/"@ + rest)),
        is_ignored(name, Some(".git/FETCH_HEAD"@)),
        is_ignored(name, Some(".git/ORIG_HEAD"@)),
{
    let lock = rest + ".lock"@;
    assert(lock.subrange(rest.len() as int, lock.len() as int) =~= ".lock"@);
    let objects = ".git/objects/"@ + rest;
    assert(objects.subrange(0, ".git/objects/"@.len() as int) =~= ".git/objects/"@);
    let logs = ".git/logs/"@ + rest;
    assert(logs.subrange(0, ".git/logs/"@.len() as int) =~= ".git/logs/"@);
    let info = ".git/info/"@ + rest;
    assert(info.subrange(0, ".git/info/"@.len() as int) =~= ".git/info/"@);
}

} // verus!
