//! Text cut down to the columns that there are.
use vstd::prelude::*;
use super::width;
use crate::text;

verus! {

/// The columns of the characters of `s`, one by one.
pub open spec fn columns_sum(s: Seq<char>) -> nat
    decreases s.len(),
{
    if s.len() == 0 {
        0
    } else {
        columns_sum(s.drop_last()) + width::columns(s.last()) as nat
    }
}

/// How many characters at the start of `s` fit in `target` columns.
pub open spec fn start_fit(s: Seq<char>, target: nat) -> nat
    decreases s.len(),
{
    if s.len() == 0 || width::columns(s[0]) > target {
        0
    } else {
        1 + start_fit(s.skip(1), (target - width::columns(s[0])) as nat)
    }
}

/// How many characters at the end of `s` fit in `target` columns.
pub open spec fn end_fit(s: Seq<char>, target: nat) -> nat
    decreases s.len(),
{
    if s.len() == 0 || width::columns(s.last()) > target {
        0
    } else {
        1 + end_fit(s.drop_last(), (target - width::columns(s.last())) as nat)
    }
}

/// The start of `s` that fits in `max_width` columns, with an ellipsis where
/// something is cut off.
pub open spec fn start_of(s: Seq<char>, max_width: usize) -> Seq<char> {
    if width::str_columns(s) <= max_width {
        s
    } else if max_width <= 1 {
        "\u{2026}"@
    } else {
        s.take(start_fit(s, (max_width - 1) as nat) as int) + "\u{2026}"@
    }
}

/// The end of `s` that fits in `max_width` columns, with an ellipsis where
/// something is cut off.
pub open spec fn end_of(s: Seq<char>, max_width: usize) -> Seq<char> {
    if width::str_columns(s) <= max_width {
        s
    } else if max_width <= 1 {
        "\u{2026}"@
    } else {
        "\u{2026}"@ + s.skip(s.len() - end_fit(s, (max_width - 1) as nat))
    }
}

/// How many characters at the start of `s` fit.
fn count_start_fit(cs: &Vec<char>, target: usize) -> (r: usize)
    ensures
        r == start_fit(cs@, target as nat),
        r <= cs@.len(),
{
    let mut left: usize = target;
    let mut i: usize = 0;
    assert(cs@.skip(0) =~= cs@);
    while i < cs.len()
        invariant
            i <= cs@.len(),
            start_fit(cs@, target as nat) == i + start_fit(cs@.skip(i as int), left as nat),
        decreases cs@.len() - i,
    {
        let w: usize = width::char_width(cs[i]);
        proof {
            assert(cs@.skip(i as int)[0] == cs@[i as int]);
            assert(cs@.skip(i as int).skip(1) =~= cs@.skip(i + 1));
        }
        if w > left {
            return i;
        }
        left = left - w;
        i = i + 1;
    }
    i
}

/// How many characters at the end of `s` fit.
fn count_end_fit(cs: &Vec<char>, target: usize) -> (r: usize)
    ensures
        r == end_fit(cs@, target as nat),
        r <= cs@.len(),
{
    let mut left: usize = target;
    let mut i: usize = cs.len();
    assert(cs@.take(i as int) =~= cs@);
    while i > 0
        invariant
            i <= cs@.len(),
            end_fit(cs@, target as nat) == cs@.len() - i + end_fit(
                cs@.take(i as int),
                left as nat,
            ),
        decreases i,
    {
        let w: usize = width::char_width(cs[i - 1]);
        proof {
            assert(cs@.take(i as int).last() == cs@[i - 1]);
            assert(cs@.take(i as int).drop_last() =~= cs@.take(i - 1));
        }
        if w > left {
            return cs.len() - i;
        }
        left = left - w;
        i = i - 1;
    }
    cs.len()
}

/// `s`, cut off at its end so that it fits in `max_width` columns.
pub fn truncate_tail(s: &str, max_width: usize) -> (r: String)
    ensures
        r@ == start_of(s@, max_width),
{
    if width::str_width(s) <= max_width {
        return s.to_owned();
    }
    if max_width <= 1 {
        return "\u{2026}".to_owned();
    }
    let cs = text::chars_of(s);
    let n: usize = count_start_fit(&cs, max_width - 1);
    let kept = text::string_between(&cs, 0, n);
    assert(kept@ =~= s@.take(n as int));
    text::cat2(kept.as_str(), "\u{2026}")
}

/// `path`, cut off at its start so that it fits in `max_width` columns.
pub fn truncate_path(path: &str, max_width: usize) -> (r: String)
    ensures
        r@ == end_of(path@, max_width),
{
    if width::str_width(path) <= max_width {
        return path.to_owned();
    }
    if max_width <= 1 {
        return "\u{2026}".to_owned();
    }
    let cs = text::chars_of(path);
    let n: usize = count_end_fit(&cs, max_width - 1);
    let kept = text::string_between(&cs, cs.len() - n, cs.len());
    assert(kept@ =~= path@.skip(path@.len() - n));
    text::cat2("\u{2026}", kept.as_str())
}

/// The file name of a path, and its directory. A path without a slash has an
/// empty one.
pub open spec fn name_and_dir(path: Seq<char>) -> (Seq<char>, Seq<char>) {
    match text::rfind(path, "/"@, path.len() as int) {
        Some(i) => (path.skip(i + 1), path.take(i)),
        None => (path, ""@),
    }
}

/// The file name of a path, and its directory.
pub fn split_path_for_display(path: &str) -> (r: (String, String))
    ensures
        (r.0@, r.1@) == name_and_dir(path@),
{
    let cs = text::chars_of(path);
    let len: usize = cs.len();
    proof {
        reveal_strlit("/");
        reveal_strlit("");
    }
    match text::rfind_in(&cs, "/") {
        Some(i) => {
            let name = text::string_between(&cs, i + 1, len);
            let dir = text::string_between(&cs, 0, i);
            assert(name@ =~= path@.skip(i + 1));
            assert(dir@ =~= path@.take(i as int));
            (name, dir)
        },
        None => (path.to_owned(), "".to_owned()),
    }
}

/// A file name and its directory in `max_width` columns. The name comes first
/// and is cut off only where it alone does not fit. The directory gets what is
/// left after two blanks, and is cut off at its start.
pub open spec fn fitted(file: Seq<char>, dir: Seq<char>, max_width: usize) -> (
    Seq<char>,
    Seq<char>,
) {
    let used = width::str_columns(file);
    if used >= max_width {
        (start_of(file, max_width), ""@)
    } else if dir.len() == 0 || max_width - used <= 2 {
        (file, ""@)
    } else {
        (file, end_of(dir, (max_width - used - 2) as usize))
    }
}

/// A file name and its directory in `max_width` columns.
pub fn fit_file_and_dir(file: &str, dir: &str, max_width: usize) -> (r: (String, String))
    ensures
        (r.0@, r.1@) == fitted(file@, dir@, max_width),
{
    let used: usize = width::str_width(file);
    if used >= max_width {
        return (truncate_tail(file, max_width), "".to_owned());
    }
    if dir.unicode_len() == 0 || max_width - used <= 2 {
        return (file.to_owned(), "".to_owned());
    }
    (file.to_owned(), truncate_path(dir, max_width - used - 2))
}

// ---------------------------------------------------------------------------
// What holds of every text

proof fn lemma_start_fits(s: Seq<char>, target: nat)
    ensures
        start_fit(s, target) <= s.len(),
        columns_sum(s.take(start_fit(s, target) as int)) <= target,
    decreases s.len(),
{
    if s.len() > 0 && width::columns(s[0]) <= target {
        let rest = (target - width::columns(s[0])) as nat;
        lemma_start_fits(s.skip(1), rest);
        let n = start_fit(s, target) as int;
        assert(s.take(n) =~= seq![s[0]] + s.skip(1).take(n - 1));
        lemma_columns_two(seq![s[0]], s.skip(1).take(n - 1));
        assert(seq![s[0]].drop_last() =~= seq![]);
        assert(columns_sum(seq![]) == 0);
        assert(columns_sum(seq![s[0]]) == width::columns(s[0]));
    } else {
        assert(columns_sum(s.take(0)) == 0);
    }
}

proof fn lemma_end_fits(s: Seq<char>, target: nat)
    ensures
        end_fit(s, target) <= s.len(),
        columns_sum(s.skip(s.len() - end_fit(s, target))) <= target,
    decreases s.len(),
{
    if s.len() > 0 && width::columns(s.last()) <= target {
        let rest = (target - width::columns(s.last())) as nat;
        lemma_end_fits(s.drop_last(), rest);
        let n = end_fit(s, target) as int;
        let kept = s.skip(s.len() - n);
        assert(kept.drop_last() =~= s.drop_last().skip(s.drop_last().len() - (n - 1)));
        assert(kept.last() == s.last());
    } else {
        assert(columns_sum(s.skip(s.len() as int)) == 0);
    }
}

proof fn lemma_columns_two(a: Seq<char>, b: Seq<char>)
    ensures
        columns_sum(a + b) == columns_sum(a) + columns_sum(b),
    decreases b.len(),
{
    if b.len() == 0 {
        assert(a + b =~= a);
    } else {
        lemma_columns_two(a, b.drop_last());
        assert((a + b).drop_last() =~= a + b.drop_last());
    }
}

/// Where something is cut off, what is left is the start of the text and leaves
/// a column for the ellipsis.
pub proof fn law_start_fits(s: Seq<char>, max_width: usize)
    requires
        width::str_columns(s) > max_width,
        max_width > 1,
    ensures
        ({
            let n = start_fit(s, (max_width - 1) as nat) as int;
            &&& 0 <= n <= s.len()
            &&& start_of(s, max_width) == s.take(n) + "\u{2026}"@
            &&& columns_sum(s.take(n)) < max_width
        }),
{
    lemma_start_fits(s, (max_width - 1) as nat);
}

/// Where something is cut off, what is left is the end of the text and leaves
/// a column for the ellipsis.
pub proof fn law_end_fits(s: Seq<char>, max_width: usize)
    requires
        width::str_columns(s) > max_width,
        max_width > 1,
    ensures
        ({
            let n = s.len() - end_fit(s, (max_width - 1) as nat);
            &&& 0 <= n <= s.len()
            &&& end_of(s, max_width) == "\u{2026}"@ + s.skip(n)
            &&& columns_sum(s.skip(n)) < max_width
        }),
{
    lemma_end_fits(s, (max_width - 1) as nat);
}

proof fn lemma_last_slash(path: Seq<char>, k: int, upto: int)
    requires
        -1 <= k <= upto <= path.len(),
        k >= 0 ==> k < path.len() && path[k] == '/',
        forall|j: int| k < j < path.len() ==> path[j] != '/',
    ensures
        k >= 0 ==> text::rfind(path, "/"@, upto) == Some(k),
        k < 0 ==> text::rfind(path, "/"@, upto) is None,
    decreases upto - k,
{
    reveal_strlit("/");
    if upto > k {
        if upto < path.len() {
            assert(path.subrange(upto, upto + 1)[0] == path[upto]);
            assert("/"@[0] == '/');
        }
        assert(!text::occurs_at(path, "/"@, upto));
        lemma_last_slash(path, k, upto - 1);
    } else if k >= 0 {
        assert(path.subrange(k, k + 1) =~= "/"@);
    }
}

/// The name of a file is what follows the last slash of its path, and its directory
/// what is before it.
pub proof fn law_name_and_dir(dir: Seq<char>, name: Seq<char>)
    requires
        !name.contains('/'),
    ensures
        name_and_dir(dir + seq!['/'] + name) == (name, dir),
        name_and_dir(name) == (name, Seq::<char>::empty()),
{
    reveal_strlit("");
    let path = dir + seq!['/'] + name;
    let k = dir.len() as int;
    assert forall|j: int| k < j < path.len() implies path[j] != '/' by {
        assert(path[j] == name[j - k - 1]);
        assert(name.contains(name[j - k - 1]));
    }
    lemma_last_slash(path, k, path.len() as int);
    assert(path.skip(k + 1) =~= name);
    assert(path.take(k) =~= dir);
    assert forall|j: int| -1 < j < name.len() implies name[j] != '/' by {
        assert(name.contains(name[j]));
    }
    lemma_last_slash(name, -1, name.len() as int);
    assert(""@ =~= Seq::<char>::empty());
}

/// A name and its directory are shown whole where they fit with two blanks between
/// them, and the name is shown whole wherever it alone fits.
pub proof fn law_fitted(file: Seq<char>, dir: Seq<char>, max_width: usize)
    requires
        width::str_columns(dir) > 0,
    ensures
        dir.len() > 0 && width::str_columns(file) + 2 + width::str_columns(dir) <= max_width
            ==> fitted(file, dir, max_width) == (file, dir),
        width::str_columns(file) <= max_width ==> fitted(file, dir, max_width).0 == file,
        width::str_columns(file) + 2 >= max_width ==> fitted(file, dir, max_width).1
            == Seq::<char>::empty(),
{
    reveal_strlit("");
    assert(""@ =~= Seq::<char>::empty());
}

} // verus!
