//! What the lines of a text that `git diff` prints stand for.
use vstd::prelude::*;
use super::parse;
use super::parse::{DiffLine, Reading};
use super::pattern;
use super::sections;
use super::{FileStatus, SideView};
use crate::text;

verus! {

/// Whether a line carries no colours and is none of the headers that a pattern
/// finds: that of a file, of a hunk, or of a similarity.
pub open spec fn ordinary(line: Seq<char>) -> bool {
    let t = text::trim_end(line);
    &&& pattern::replaced("\\x1b\\[.*?m"@, t, ""@) == t
    &&& pattern::first_match("^diff --git a/(.+) b/(.+)$"@, t) is None
    &&& pattern::first_match("^@@ -(\\d+),?\\d* \\+(\\d+),?\\d* @@"@, t) is None
    &&& pattern::first_match("^similarity index (\\d+)%$"@, t) is None
}

/// Whether a line of a hunk is one of the left side: it starts with a space or a
/// minus sign, or it is empty.
pub open spec fn is_left(line: Seq<char>) -> bool {
    line.len() == 0 || line[0] == ' ' || line[0] == '-'
}

/// Whether a line of a hunk is one of the right side: it starts with a space or a
/// plus sign, or it is empty.
pub open spec fn is_right(line: Seq<char>) -> bool {
    line.len() == 0 || line[0] == ' ' || line[0] == '+'
}

/// Whether a line is one of a hunk's body. Lines that start like the names of the
/// two files cannot be told from them.
pub open spec fn in_hunk(line: Seq<char>) -> bool {
    &&& ordinary(line)
    &&& is_left(line) || is_right(line)
    &&& !("---"@.is_prefix_of(line))
    &&& !("+++"@.is_prefix_of(line))
}

/// The lines of the left side, each without the white space at its end.
pub open spec fn left_of(lines: Seq<Seq<char>>) -> Seq<Seq<char>> {
    lines.filter(|line: Seq<char>| is_left(line)).map_values(
        |line: Seq<char>| text::trim_end(line),
    )
}

/// The lines of the right side, each without the white space at its end.
pub open spec fn right_of(lines: Seq<Seq<char>>) -> Seq<Seq<char>> {
    lines.filter(|line: Seq<char>| is_right(line)).map_values(
        |line: Seq<char>| text::trim_end(line),
    )
}

/// Lines with numbers from `first` on.
pub open spec fn numbered_from(first: int, lines: Seq<Seq<char>>) -> SideView {
    Seq::new(lines.len(), |i: int| ((first + i) as usize, lines[i]))
}

/// What trimming the end leaves of a line that starts with `c`.
proof fn lemma_trimmed_start(line: Seq<char>)
    requires
        line.len() > 0,
    ensures
        ({
            let t = text::trim_end(line);
            &&& t.len() > 0 ==> t[0] == line[0]
            &&& !text::white(line[0]) ==> t.len() > 0
            &&& t.is_prefix_of(line)
        }),
{
    text::law_trimmed_end(line);
    let t = text::trim_end(line);
    if t.len() > 0 {
        assert(line.subrange(0, t.len() as int)[0] == line[0]);
    }
}

proof fn lemma_prefix_kept(p: Seq<char>, t: Seq<char>, line: Seq<char>)
    requires
        t.is_prefix_of(line),
        p.is_prefix_of(t),
    ensures
        p.is_prefix_of(line),
{
    assert(line.subrange(0, p.len() as int) =~= t.subrange(0, p.len() as int));
}

proof fn lemma_no_prefix(p: Seq<char>, s: Seq<char>)
    requires
        p.len() > 0,
        s.len() == 0 || s[0] != p[0],
    ensures
        !p.is_prefix_of(s),
        text::strip_prefix(s, p) is None,
{
    if p.is_prefix_of(s) {
        assert(s.subrange(0, p.len() as int)[0] == p[0]);
    }
}

/// The headers that are told by how they start, on a line that starts otherwise.
proof fn lemma_no_header(s: Seq<char>)
    requires
        s.len() == 0 || s[0] == ' ' || s[0] == '-' || s[0] == '+',
        !("---"@.is_prefix_of(s)),
        !("+++"@.is_prefix_of(s)),
    ensures
        !parse::is_metadata(s),
        !("\\ "@.is_prefix_of(s)),
        text::strip_prefix(s, "rename from "@) is None,
        !("rename to "@.is_prefix_of(s)),
        !("new file mode"@.is_prefix_of(s)),
        !("deleted file mode"@.is_prefix_of(s)),
{
    reveal_strlit("\\ ");
    reveal_strlit("rename from ");
    reveal_strlit("rename to ");
    reveal_strlit("index");
    reveal_strlit("@@");
    reveal_strlit("new file mode");
    reveal_strlit("new mode");
    reveal_strlit("old mode");
    reveal_strlit("deleted file mode");
    reveal_strlit("copy from");
    reveal_strlit("copy to");
    reveal_strlit("dissimilarity index");
    reveal_strlit("Binary files");
    lemma_no_prefix("\\ "@, s);
    lemma_no_prefix("rename from "@, s);
    lemma_no_prefix("rename to "@, s);
    lemma_no_prefix("index"@, s);
    lemma_no_prefix("@@"@, s);
    lemma_no_prefix("new file mode"@, s);
    lemma_no_prefix("new mode"@, s);
    lemma_no_prefix("old mode"@, s);
    lemma_no_prefix("deleted file mode"@, s);
    lemma_no_prefix("copy from"@, s);
    lemma_no_prefix("copy to"@, s);
    lemma_no_prefix("dissimilarity index"@, s);
    lemma_no_prefix("Binary files"@, s);
}

/// Every line of a hunk is a line of the left side, of the right side or of both,
/// by how it starts. What it shows is the line without the white space at its
/// end. A line of which nothing is left is a line of both sides like any other.
pub proof fn law_hunk_line(line: Seq<char>)
    requires
        in_hunk(line),
    ensures
        parse::classify(line) == if is_left(line) && is_right(line) {
            DiffLine::Context(text::trim_end(line))
        } else if is_left(line) {
            DiffLine::Removed(text::trim_end(line))
        } else {
            DiffLine::Added(text::trim_end(line))
        },
{
    let t = text::trim_end(line);
    if line.len() > 0 {
        lemma_trimmed_start(line);
        if "---"@.is_prefix_of(t) {
            lemma_prefix_kept("---"@, t, line);
        }
        if "+++"@.is_prefix_of(t) {
            lemma_prefix_kept("+++"@, t, line);
        }
    } else {
        reveal_strlit("---");
        reveal_strlit("+++");
        lemma_no_prefix("---"@, t);
        lemma_no_prefix("+++"@, t);
    }
    lemma_no_header(t);
}

/// A blank line between others is a line of both sides, and an empty one.
pub proof fn law_blank_line(line: Seq<char>)
    requires
        ordinary(line),
        forall|i: int| 0 <= i < line.len() ==> text::white(#[trigger] line[i]),
    ensures
        parse::classify(line) == DiffLine::Context(Seq::<char>::empty()),
{
    text::law_trimmed_end(line);
    let t = text::trim_end(line);
    if t.len() > 0 {
        assert(t.last() == line[t.len() - 1]);
    }
    assert(t =~= seq![]);
    reveal_strlit("---");
    reveal_strlit("+++");
    lemma_no_prefix("---"@, t);
    lemma_no_prefix("+++"@, t);
    lemma_no_header(t);
}

/// What lines stand for.
pub open spec fn read_lines(lines: Seq<Seq<char>>) -> Seq<DiffLine<Seq<char>>> {
    lines.map_values(|line: Seq<char>| parse::classify(line))
}

proof fn lemma_hunk_lines(lines: Seq<Seq<char>>)
    requires
        forall|k: int| 0 <= k < lines.len() ==> in_hunk(#[trigger] lines[k]),
    ensures
        sections::content_only(read_lines(lines)),
        sections::base_texts(read_lines(lines)) == left_of(lines),
        sections::head_texts(read_lines(lines)) == right_of(lines),
    decreases lines.len(),
{
    let all = read_lines(lines);
    reveal_with_fuel(Seq::filter, 2);
    if lines.len() > 0 {
        let rest = lines.drop_last();
        assert forall|k: int| 0 <= k < rest.len() implies in_hunk(#[trigger] rest[k]) by {
            assert(rest[k] == lines[k]);
        }
        lemma_hunk_lines(rest);
        let last = lines.last();
        assert(in_hunk(lines[lines.len() - 1]));
        law_hunk_line(last);
        assert(all.drop_last() =~= read_lines(rest));
        assert(all.last() == parse::classify(last));
        assert(left_of(lines) =~= if is_left(last) {
            left_of(rest).push(text::trim_end(last))
        } else {
            left_of(rest)
        });
        assert(right_of(lines) =~= if is_right(last) {
            right_of(rest).push(text::trim_end(last))
        } else {
            right_of(rest)
        });
        assert forall|k: int| 0 <= k < all.len() implies sections::on_base(#[trigger] all[k])
            || sections::on_head(all[k]) by {
            if k < rest.len() {
                assert(all[k] == read_lines(rest)[k]);
            }
        }
    } else {
        assert(left_of(lines) =~= seq![]);
        assert(right_of(lines) =~= seq![]);
    }
}

/// Whether `line` is the header of a hunk that starts at these lines of the two
/// sides.
pub open spec fn opens_hunk(line: Seq<char>, left: nat, right: nat) -> bool {
    let t = text::trim_end(line);
    &&& !("\\ "@.is_prefix_of(t))
    &&& pattern::replaced("\\x1b\\[.*?m"@, t, ""@) == t
    &&& pattern::first_match("^diff --git a/(.+) b/(.+)$"@, t) is None
    &&& pattern::first_match("^@@ -(\\d+),?\\d* \\+(\\d+),?\\d* @@"@, t) matches Some(groups)
        && groups.len() == 3 && groups[1] == Some(text::decimal(left)) && groups[2] == Some(
        text::decimal(right),
    )
}

/// Whether `line` is the header of the section of `file`.
pub open spec fn opens_file(line: Seq<char>, file: Seq<char>) -> bool {
    let t = text::trim_end(line);
    &&& !("\\ "@.is_prefix_of(t))
    &&& pattern::replaced("\\x1b\\[.*?m"@, t, ""@) == t
    &&& pattern::first_match("^diff --git a/(.+) b/(.+)$"@, t) matches Some(groups)
        && groups.len() == 3 && groups[2] == Some(file)
}

/// A hunk header says where the lines after it start, and a file header that the
/// section of the second path starts.
pub proof fn law_openings(line: Seq<char>, left: nat, right: nat, file: Seq<char>)
    requires
        left <= usize::MAX,
        right <= usize::MAX,
    ensures
        opens_hunk(line, left, right) ==> parse::classify(line) == DiffLine::<Seq<char>>::Hunk(
            left as usize,
            right as usize,
        ),
        opens_file(line, file) ==> parse::classify(line) == DiffLine::FileHeader(Some(file)),
{
    text::law_decimal(left);
    text::law_decimal(right);
    assert(text::number(text::decimal(left), usize::MAX as nat) == Some(left));
    assert(text::number(text::decimal(right), usize::MAX as nat) == Some(right));
}

/// The lines of a hunk are numbered on each side one by one from where the header
/// says that they start, blank ones too, and no line of the hunk is left out:
/// what the hunk adds to each side is what the text has of that side.
pub proof fn law_hunk_read(
    before: Reading,
    header: Seq<char>,
    lines: Seq<Seq<char>>,
    left: nat,
    right: nat,
)
    requires
        opens_hunk(header, left, right),
        forall|k: int| 0 <= k < lines.len() ==> in_hunk(#[trigger] lines[k]),
        left + lines.len() <= usize::MAX,
        right + lines.len() <= usize::MAX,
    ensures
        ({
            let after = before.after_lines(read_lines(seq![header] + lines));
            &&& after.base == before.base + numbered_from(left as int, left_of(lines))
            &&& after.head == before.head + numbered_from(right as int, right_of(lines))
            &&& after.file == before.file
            &&& after.files == before.files
            &&& after.meta == before.meta
        }),
{
    law_openings(header, left, right, seq![]);
    lemma_hunk_lines(lines);
    let hunk = read_lines(lines);
    let first = DiffLine::<Seq<char>>::Hunk(left as usize, right as usize);
    let mid = before.next(first);
    let after = mid.after_lines(hunk);
    assert(read_lines(seq![header] + lines) =~= seq![first] + hunk);
    sections::lemma_after_two(before, seq![first], hunk);
    assert(seq![first].drop_last() =~= Seq::<DiffLine<Seq<char>>>::empty());
    assert(before.after_lines(Seq::<DiffLine<Seq<char>>>::empty()) == before);
    assert(before.after_lines(seq![first]) == mid);
    sections::law_hunk_numbers(before, left as usize, right as usize, hunk, 0);
    lemma_lines_added(mid, hunk);
    let l = numbered_from(left as int, left_of(lines));
    let r = numbered_from(right as int, right_of(lines));
    assert forall|i: int| 0 <= i < after.base.len() implies after.base[i] == (before.base + l)[i] by {
        if i >= before.base.len() {
            sections::law_hunk_numbers(
                before,
                left as usize,
                right as usize,
                hunk,
                i - before.base.len(),
            );
        }
    }
    assert forall|i: int| 0 <= i < after.head.len() implies after.head[i] == (before.head + r)[i] by {
        if i >= before.head.len() {
            sections::law_hunk_numbers(
                before,
                left as usize,
                right as usize,
                hunk,
                i - before.head.len(),
            );
        }
    }
    assert(after.base =~= before.base + l);
    assert(after.head =~= before.head + r);
}

/// Lines are added at the end, and nothing else changes.
proof fn lemma_lines_added(st: Reading, lines: Seq<DiffLine<Seq<char>>>)
    requires
        sections::content_only(lines),
    ensures
        ({
            let end = st.after_lines(lines);
            &&& end.file == st.file
            &&& end.files == st.files
            &&& end.meta == st.meta
            &&& st.base.len() <= end.base.len()
            &&& st.head.len() <= end.head.len()
            &&& forall|i: int| 0 <= i < st.base.len() ==> #[trigger] end.base[i] == st.base[i]
            &&& forall|i: int| 0 <= i < st.head.len() ==> #[trigger] end.head[i] == st.head[i]
        }),
    decreases lines.len(),
{
    if lines.len() > 0 {
        let rest = lines.drop_last();
        assert forall|k: int| 0 <= k < rest.len() implies sections::on_base(#[trigger] rest[k])
            || sections::on_head(rest[k]) by {
            assert(rest[k] == lines[k]);
        }
        lemma_lines_added(st, rest);
        assert(sections::on_base(lines[lines.len() - 1]) || sections::on_head(
            lines[lines.len() - 1],
        ));
    }
}

/// Whether `line` says nothing of the files: the blobs, the names of the two
/// sides, a mode, a copy or a binary file.
pub open spec fn says_nothing(line: Seq<char>) -> bool {
    &&& ordinary(line)
    &&& {
        ||| "index "@.is_prefix_of(text::trim_end(line))
        ||| "--- "@.is_prefix_of(text::trim_end(line))
        ||| "+++ "@.is_prefix_of(text::trim_end(line))
        ||| "old mode "@.is_prefix_of(text::trim_end(line))
        ||| "new mode "@.is_prefix_of(text::trim_end(line))
        ||| "copy from "@.is_prefix_of(text::trim_end(line))
        ||| "copy to "@.is_prefix_of(text::trim_end(line))
        ||| "Binary files "@.is_prefix_of(text::trim_end(line))
    }
}

proof fn lemma_starts(p: Seq<char>, q: Seq<char>, s: Seq<char>)
    requires
        q.is_prefix_of(s),
        p.is_prefix_of(q),
    ensures
        p.is_prefix_of(s),
{
    assert(s.subrange(0, p.len() as int) =~= q.subrange(0, p.len() as int));
}

proof fn lemma_differs(p: Seq<char>, q: Seq<char>, s: Seq<char>, i: int)
    requires
        q.is_prefix_of(s),
        0 <= i < p.len(),
        i < q.len(),
        p[i] != q[i],
    ensures
        !p.is_prefix_of(s),
        text::strip_prefix(s, p) is None,
{
    if p.is_prefix_of(s) {
        assert(s.subrange(0, p.len() as int)[i] == p[i]);
    }
    assert(s.subrange(0, q.len() as int)[i] == q[i]);
}

/// Headers that say nothing of the lines are passed over.
pub proof fn law_passed_over(line: Seq<char>)
    requires
        says_nothing(line),
    ensures
        parse::classify(line) == DiffLine::<Seq<char>>::Skip,
{
    let t = text::trim_end(line);
    reveal_strlit("\\ ");
    reveal_strlit("rename from ");
    reveal_strlit("rename to ");
    reveal_strlit("new file mode");
    reveal_strlit("deleted file mode");
    if "index "@.is_prefix_of(t) {
        reveal_strlit("index ");
        reveal_strlit("index");
        lemma_told_apart("index "@, t, 0);
        assert("index "@.subrange(0, 5) =~= "index"@);
        lemma_starts("index"@, "index "@, t);
    } else if "--- "@.is_prefix_of(t) {
        reveal_strlit("--- ");
        reveal_strlit("---");
        lemma_told_apart("--- "@, t, 0);
        assert("--- "@.subrange(0, 3) =~= "---"@);
        lemma_starts("---"@, "--- "@, t);
    } else if "+++ "@.is_prefix_of(t) {
        reveal_strlit("+++ ");
        reveal_strlit("+++");
        lemma_told_apart("+++ "@, t, 0);
        assert("+++ "@.subrange(0, 3) =~= "+++"@);
        lemma_starts("+++"@, "+++ "@, t);
    } else if "old mode "@.is_prefix_of(t) {
        reveal_strlit("old mode ");
        reveal_strlit("old mode");
        lemma_told_apart("old mode "@, t, 0);
        assert("old mode "@.subrange(0, 8) =~= "old mode"@);
        lemma_starts("old mode"@, "old mode "@, t);
    } else if "new mode "@.is_prefix_of(t) {
        reveal_strlit("new mode ");
        reveal_strlit("new mode");
        lemma_told_apart("new mode "@, t, 4);
        assert("new mode "@.subrange(0, 8) =~= "new mode"@);
        lemma_starts("new mode"@, "new mode "@, t);
    } else if "copy from "@.is_prefix_of(t) {
        reveal_strlit("copy from ");
        reveal_strlit("copy from");
        lemma_told_apart("copy from "@, t, 0);
        assert("copy from "@.subrange(0, 9) =~= "copy from"@);
        lemma_starts("copy from"@, "copy from "@, t);
    } else if "copy to "@.is_prefix_of(t) {
        reveal_strlit("copy to ");
        reveal_strlit("copy to");
        lemma_told_apart("copy to "@, t, 0);
        assert("copy to "@.subrange(0, 7) =~= "copy to"@);
        lemma_starts("copy to"@, "copy to "@, t);
    } else {
        reveal_strlit("Binary files ");
        reveal_strlit("Binary files");
        lemma_told_apart("Binary files "@, t, 0);
        assert("Binary files "@.subrange(0, 12) =~= "Binary files"@);
        lemma_starts("Binary files"@, "Binary files "@, t);
    }
}

/// A header that starts with `q` is none of those that say something. From those
/// of new files it differs at `i`.
proof fn lemma_told_apart(q: Seq<char>, s: Seq<char>, i: int)
    requires
        q.is_prefix_of(s),
        q.len() > 0,
        q[0] != '\\' && q[0] != 'r' && q[0] != 'd',
        0 <= i < q.len(),
        i < 13,
        q[i] != "new file mode"@[i],
    ensures
        !("\\ "@.is_prefix_of(s)),
        text::strip_prefix(s, "rename from "@) is None,
        !("rename to "@.is_prefix_of(s)),
        !("new file mode"@.is_prefix_of(s)),
        !("deleted file mode"@.is_prefix_of(s)),
{
    reveal_strlit("\\ ");
    reveal_strlit("rename from ");
    reveal_strlit("rename to ");
    reveal_strlit("new file mode");
    reveal_strlit("deleted file mode");
    lemma_differs("\\ "@, q, s, 0);
    lemma_differs("rename from "@, q, s, 0);
    lemma_differs("rename to "@, q, s, 0);
    lemma_differs("new file mode"@, q, s, i);
    lemma_differs("deleted file mode"@, q, s, 0);
}

/// A rename header names the path that the file had, and the header after it with
/// the path that it has now says nothing more.
pub proof fn law_rename_line(path: Seq<char>)
    requires
        path.len() > 0,
        !text::white(path.last()),
    ensures
        ordinary("rename from "@ + path) ==> parse::classify("rename from "@ + path)
            == DiffLine::RenameFrom(path),
        ordinary("rename to "@ + path) ==> parse::classify("rename to "@ + path) == DiffLine::<
            Seq<char>,
        >::Skip,
{
    reveal_strlit("\\ ");
    reveal_strlit("rename from ");
    reveal_strlit("rename to ");
    let a = "rename from "@ + path;
    let b = "rename to "@ + path;
    assert(a.last() == path.last() && b.last() == path.last());
    assert(a.subrange(0, 12) =~= "rename from "@);
    assert(b.subrange(0, 10) =~= "rename to "@);
    lemma_differs("\\ "@, "rename from "@, a, 0);
    lemma_differs("\\ "@, "rename to "@, b, 0);
    lemma_differs("rename from "@, "rename to "@, b, 7);
    assert(a.skip(12) =~= path);
}

/// The mode of a new file says that it is new, and that of a file that is gone that
/// it is gone.
pub proof fn law_mode_line(line: Seq<char>)
    requires
        ordinary(line),
    ensures
        "new file mode "@.is_prefix_of(text::trim_end(line)) ==> parse::classify(line)
            == DiffLine::<Seq<char>>::Status(FileStatus::Added),
        "deleted file mode "@.is_prefix_of(text::trim_end(line)) ==> parse::classify(line)
            == DiffLine::<Seq<char>>::Status(FileStatus::Deleted),
{
    let t = text::trim_end(line);
    reveal_strlit("\\ ");
    reveal_strlit("rename from ");
    reveal_strlit("rename to ");
    reveal_strlit("new file mode ");
    reveal_strlit("deleted file mode ");
    reveal_strlit("new file mode");
    reveal_strlit("deleted file mode");
    if "new file mode "@.is_prefix_of(t) {
        let q = "new file mode "@;
        lemma_differs("\\ "@, q, t, 0);
        lemma_differs("rename from "@, q, t, 0);
        lemma_differs("rename to "@, q, t, 0);
        assert(q.subrange(0, 13) =~= "new file mode"@);
        lemma_starts("new file mode"@, q, t);
    }
    if "deleted file mode "@.is_prefix_of(t) {
        let q = "deleted file mode "@;
        lemma_differs("\\ "@, q, t, 0);
        lemma_differs("rename from "@, q, t, 0);
        lemma_differs("rename to "@, q, t, 0);
        lemma_differs("new file mode"@, q, t, 0);
        assert(q.subrange(0, 17) =~= "deleted file mode"@);
        lemma_starts("deleted file mode"@, q, t);
    }
}

/// A similarity line says how alike the two sides are, in percent.
pub proof fn law_similarity_line(line: Seq<char>, percent: nat)
    requires
        ({
            let t = text::trim_end(line);
            &&& !("\\ "@.is_prefix_of(t))
            &&& !("rename from "@.is_prefix_of(t))
            &&& !("rename to "@.is_prefix_of(t))
            &&& pattern::replaced("\\x1b\\[.*?m"@, t, ""@) == t
            &&& pattern::first_match("^diff --git a/(.+) b/(.+)$"@, t) is None
            &&& pattern::first_match("^@@ -(\\d+),?\\d* \\+(\\d+),?\\d* @@"@, t) is None
            &&& pattern::first_match("^similarity index (\\d+)%$"@, t) matches Some(groups)
                && groups.len() == 2 && groups[1] == Some(text::decimal(percent))
        }),
        percent <= 100,
    ensures
        parse::classify(line) == DiffLine::<Seq<char>>::Similarity(percent as u8),
{
    text::law_decimal(percent);
    assert(text::number(text::decimal(percent), 255) == Some(percent));
}

/// The note that a file ends without a line feed is no line of it.
pub proof fn law_note_passed_over(line: Seq<char>)
    requires
        "\\ "@.is_prefix_of(text::trim_end(line)),
    ensures
        parse::classify(line) == DiffLine::<Seq<char>>::Skip,
{
}

/// Colours make no difference: a line with colours stands for what it stands for
/// without them.
pub proof fn law_colours_dropped(line: Seq<char>, bare: Seq<char>)
    requires
        pattern::replaced("\\x1b\\[.*?m"@, text::trim_end(line), ""@) == bare,
        pattern::replaced("\\x1b\\[.*?m"@, bare, ""@) == bare,
        text::trim_end(bare) == bare,
        !("\\ "@.is_prefix_of(text::trim_end(line))),
        !("\\ "@.is_prefix_of(bare)),
    ensures
        parse::classify(line) == parse::classify(bare),
{
}

/// The diff of one file with one hunk, as a text: the header of the file, headers
/// that say nothing, the header of the hunk and its lines. The file has on each
/// side the lines that the hunk has of it, numbered from where the hunk starts.
pub proof fn law_text_read(
    diff: Seq<char>,
    top: Seq<char>,
    between: Seq<Seq<char>>,
    header: Seq<char>,
    lines: Seq<Seq<char>>,
    file: Seq<char>,
    left: nat,
    right: nat,
)
    requires
        text::text_lines(diff) == seq![top] + between + (seq![header] + lines),
        opens_file(top, file),
        file.len() > 0,
        forall|k: int| 0 <= k < between.len() ==> says_nothing(#[trigger] between[k]),
        opens_hunk(header, left, right),
        forall|k: int| 0 <= k < lines.len() ==> in_hunk(#[trigger] lines[k]),
        left + lines.len() <= usize::MAX,
        right + lines.len() <= usize::MAX,
    ensures
        parse::files_of(parse::classified(diff)) == Map::<
            Seq<char>,
            (SideView, SideView),
        >::empty().insert(
            file,
            (
                numbered_from(left as int, left_of(lines)),
                numbered_from(right as int, right_of(lines)),
            ),
        ),
        parse::meta_of(parse::classified(diff)).dom().contains(file),
        parse::meta_of(parse::classified(diff))[file].status == FileStatus::Modified,
        parse::meta_of(parse::classified(diff))[file].rename is None,
{
    law_openings(top, 0, 0, file);
    let start = Reading::start();
    let first = DiffLine::FileHeader(Some(file));
    let st = start.next(first);
    let all = parse::classified(diff);
    assert(all =~= seq![first] + read_lines(between) + read_lines(seq![header] + lines));
    sections::lemma_after_two(
        start,
        seq![first] + read_lines(between),
        read_lines(seq![header] + lines),
    );
    sections::lemma_after_two(start, seq![first], read_lines(between));
    assert(seq![first].drop_last() =~= Seq::<DiffLine<Seq<char>>>::empty());
    assert(start.after_lines(Seq::<DiffLine<Seq<char>>>::empty()) == start);
    assert(start.after_lines(seq![first]) == st);
    lemma_nothing_said(st, between);
    law_hunk_read(st, header, lines, left, right);
    lemma_quiet(st, header, lines, left, right);
    let end = st.after_lines(read_lines(seq![header] + lines));
    assert(start.after_lines(all) == end);
    assert(end.base =~= numbered_from(left as int, left_of(lines)));
    assert(end.head =~= numbered_from(right as int, right_of(lines)));
}

proof fn lemma_nothing_said(st: Reading, lines: Seq<Seq<char>>)
    requires
        forall|k: int| 0 <= k < lines.len() ==> says_nothing(#[trigger] lines[k]),
    ensures
        st.after_lines(read_lines(lines)) == st,
    decreases lines.len(),
{
    let all = read_lines(lines);
    if lines.len() > 0 {
        let rest = lines.drop_last();
        assert forall|k: int| 0 <= k < rest.len() implies says_nothing(#[trigger] rest[k]) by {
            assert(rest[k] == lines[k]);
        }
        lemma_nothing_said(st, rest);
        assert(says_nothing(lines[lines.len() - 1]));
        law_passed_over(lines.last());
        assert(all.drop_last() =~= read_lines(rest));
        assert(all.last() == parse::classify(lines.last()));
    }
}

/// A hunk says nothing of renames and modes.
proof fn lemma_quiet(
    st: Reading,
    header: Seq<char>,
    lines: Seq<Seq<char>>,
    left: nat,
    right: nat,
)
    requires
        opens_hunk(header, left, right),
        left <= usize::MAX,
        right <= usize::MAX,
        forall|k: int| 0 <= k < lines.len() ==> in_hunk(#[trigger] lines[k]),
    ensures
        ({
            let end = st.after_lines(read_lines(seq![header] + lines));
            end.status == st.status && end.from == st.from && end.similarity == st.similarity
        }),
    decreases lines.len(),
{
    let all = read_lines(seq![header] + lines);
    if lines.len() > 0 {
        let rest = lines.drop_last();
        assert forall|k: int| 0 <= k < rest.len() implies in_hunk(#[trigger] rest[k]) by {
            assert(rest[k] == lines[k]);
        }
        lemma_quiet(st, header, rest, left, right);
        assert(in_hunk(lines[lines.len() - 1]));
        law_hunk_line(lines.last());
        assert(all.drop_last() =~= read_lines(seq![header] + rest));
        assert(all.last() == parse::classify(lines.last()));
    } else {
        law_openings(header, left, right, seq![]);
        assert(all.drop_last() =~= Seq::<DiffLine<Seq<char>>>::empty());
        assert(st.after_lines(Seq::<DiffLine<Seq<char>>>::empty()) == st);
        assert(all.last() == parse::classify(header));
    }
}

} // verus!
