//! What holds of every parsed diff.
use vstd::prelude::*;
use super::parse;
use super::parse::{DiffLine, Reading};
use super::{FileMetaView, FileStatus, FilesView, MetaView, RenameView, SideView};
use crate::text;

verus! {

/// Whether `line` puts text on the left side.
pub open spec fn on_base(line: DiffLine<Seq<char>>) -> bool {
    line is Removed || line is Context
}

/// Whether `line` puts text on the right side.
pub open spec fn on_head(line: DiffLine<Seq<char>>) -> bool {
    line is Added || line is Context
}

/// The text of a content line.
pub open spec fn content(line: DiffLine<Seq<char>>) -> Seq<char> {
    match line {
        DiffLine::Removed(s) => s,
        DiffLine::Added(s) => s,
        DiffLine::Context(s) => s,
        _ => seq![],
    }
}

/// The texts that `lines` put on the left side, in order.
pub open spec fn base_texts(lines: Seq<DiffLine<Seq<char>>>) -> Seq<Seq<char>>
    decreases lines.len(),
{
    if lines.len() == 0 {
        seq![]
    } else if on_base(lines.last()) {
        base_texts(lines.drop_last()).push(content(lines.last()))
    } else {
        base_texts(lines.drop_last())
    }
}

/// The texts that `lines` put on the right side, in order.
pub open spec fn head_texts(lines: Seq<DiffLine<Seq<char>>>) -> Seq<Seq<char>>
    decreases lines.len(),
{
    if lines.len() == 0 {
        seq![]
    } else if on_head(lines.last()) {
        head_texts(lines.drop_last()).push(content(lines.last()))
    } else {
        head_texts(lines.drop_last())
    }
}

/// The texts of a side.
pub open spec fn texts(side: SideView) -> Seq<Seq<char>> {
    side.map_values(|line: (usize, Seq<char>)| line.1)
}

/// Whether no section starts among `lines`.
pub open spec fn headerless(lines: Seq<DiffLine<Seq<char>>>) -> bool {
    forall|k: int| 0 <= k < lines.len() ==> !((#[trigger] lines[k]) is FileHeader)
}

/// Whether nothing was read that would go to the next section.
pub open spec fn clean(st: Reading) -> bool {
    st.file.len() > 0 || (st.base.len() == 0 && st.head.len() == 0 && st.from is None
        && st.similarity is None && st.status == FileStatus::Modified)
}

pub proof fn lemma_after_two(st: Reading, a: Seq<DiffLine<Seq<char>>>, b: Seq<DiffLine<Seq<char>>>)
    ensures
        st.after_lines(a + b) == st.after_lines(a).after_lines(b),
    decreases b.len(),
{
    if b.len() == 0 {
        assert(a + b =~= a);
    } else {
        lemma_after_two(st, a, b.drop_last());
        assert((a + b).drop_last() =~= a + b.drop_last());
        assert((a + b).last() == b.last());
    }
}

/// Within a section only its own lines and headers change.
proof fn lemma_body(st: Reading, body: Seq<DiffLine<Seq<char>>>)
    requires
        headerless(body),
        st.base.len() == 0,
        st.head.len() == 0,
        st.base_no == 1,
        st.head_no == 1,
        st.from is None,
        st.similarity is None,
        st.status == FileStatus::Modified,
    ensures
        ({
            let own = Reading::start().after_lines(body);
            st.after_lines(body) == Reading {
                files: st.files,
                meta: st.meta,
                file: st.file,
                ..own
            }
        }),
    decreases body.len(),
{
    if body.len() > 0 {
        let rest = body.drop_last();
        assert forall|k: int| 0 <= k < rest.len() implies !((#[trigger] rest[k]) is FileHeader) by {
            assert(rest[k] == body[k]);
        }
        lemma_body(st, rest);
        assert(!(body[body.len() - 1] is FileHeader));
    } else {
        let own = Reading::start().after_lines(body);
        assert(st.base =~= own.base);
        assert(st.head =~= own.head);
    }
}

/// Whether a section of `file` starts among `lines`.
pub open spec fn names_file(lines: Seq<DiffLine<Seq<char>>>, file: Seq<char>) -> bool {
    exists|k: int| 0 <= k < lines.len() && #[trigger] lines[k] == DiffLine::FileHeader(Some(file))
}

/// Lines that start no section of `file` leave alone what is known of it.
proof fn lemma_other_sections(st: Reading, lines: Seq<DiffLine<Seq<char>>>, file: Seq<char>)
    requires
        st.file != file,
        file.len() > 0,
        !names_file(lines, file),
    ensures
        ({
            let end = st.after_lines(lines);
            &&& end.file != file
            &&& end.files.dom().contains(file) == st.files.dom().contains(file)
            &&& end.files[file] == st.files[file]
            &&& end.meta.dom().contains(file) == st.meta.dom().contains(file)
            &&& end.meta[file] == st.meta[file]
        }),
    decreases lines.len(),
{
    if lines.len() > 0 {
        let rest = lines.drop_last();
        assert(!names_file(rest, file)) by {
            if names_file(rest, file) {
                let k = choose|k: int|
                    0 <= k < rest.len() && #[trigger] rest[k] == DiffLine::FileHeader(Some(file));
                assert(lines[k] == rest[k]);
            }
        }
        lemma_other_sections(st, rest, file);
        assert(lines[lines.len() - 1] == lines.last());
    }
}

/// Each file gets the lines of its own section, numbered within it, and no
/// others: whatever stands before and after a section, the file's two sides
/// are those of a diff with that section alone. A rename header in the section
/// gives the file its rename, and the mode in it says whether the file is new or
/// gone.
pub proof fn law_section(
    before: Seq<DiffLine<Seq<char>>>,
    file: Seq<char>,
    body: Seq<DiffLine<Seq<char>>>,
    rest: Seq<DiffLine<Seq<char>>>,
)
    requires
        file.len() > 0,
        clean(Reading::start().after_lines(before)),
        headerless(body),
        rest.len() == 0 || rest[0] is FileHeader,
        !names_file(rest, file),
    ensures
        ({
            let all = before + seq![DiffLine::FileHeader(Some(file))] + body + rest;
            let own = Reading::start().after_lines(body);
            &&& parse::files_of(all).dom().contains(file)
            &&& parse::files_of(all)[file] == (own.base, own.head)
            &&& parse::meta_of(all).dom().contains(file)
            &&& parse::meta_of(all)[file].status == own.status
            &&& own.from matches Some(from) ==> parse::meta_of(all)[file].rename == Some(
                RenameView {
                    from,
                    similarity: match own.similarity {
                        Some(n) => n,
                        None => 100,
                    },
                },
            )
            &&& own.from is None && !names_file(before, file) ==> parse::meta_of(
                all,
            )[file].rename is None
        }),
{
    if !names_file(before, file) {
        lemma_other_sections(Reading::start(), before, file);
    }
    let header = seq![DiffLine::FileHeader(Some(file))];
    let all = before + header + body + rest;
    let start = Reading::start();
    let st0 = start.after_lines(before);
    let st1 = st0.next(DiffLine::FileHeader(Some(file)));
    lemma_after_two(start, before, header);
    assert(header.drop_last() =~= seq![]);
    assert(st0.after_lines(seq![]) == st0);
    assert(start.after_lines(before + header) == st1);
    lemma_after_two(start, before + header, body);
    lemma_body(st1, body);
    let st2 = st1.after_lines(body);
    lemma_after_two(start, before + header + body, rest);
    let end = st2.after_lines(rest);
    assert(start.after_lines(all) == end);
    if rest.len() > 0 {
        let first = seq![rest[0]];
        let others = rest.skip(1);
        assert(rest =~= first + others);
        lemma_after_two(st2, first, others);
        assert(first.drop_last() =~= seq![]);
        assert(st2.after_lines(seq![]) == st2);
        let st3 = st2.next(rest[0]);
        assert(st2.after_lines(first) == st3);
        assert(rest[0] != DiffLine::FileHeader(Some(file)));
        assert(!names_file(others, file)) by {
            if names_file(others, file) {
                let k = choose|k: int|
                    0 <= k < others.len() && #[trigger] others[k] == DiffLine::FileHeader(
                        Some(file),
                    );
                assert(rest[k + 1] == others[k]);
            }
        }
        lemma_other_sections(st3, others, file);
        assert(end.file != file);
    } else {
        assert(end == st2);
    }
}

/// The two sides of a section hold its content lines, in order.
pub proof fn law_texts(body: Seq<DiffLine<Seq<char>>>)
    requires
        headerless(body),
    ensures
        texts(Reading::start().after_lines(body).base) == base_texts(body),
        texts(Reading::start().after_lines(body).head) == head_texts(body),
    decreases body.len(),
{
    let own = Reading::start().after_lines(body);
    if body.len() > 0 {
        let rest = body.drop_last();
        assert forall|k: int| 0 <= k < rest.len() implies !((#[trigger] rest[k]) is FileHeader) by {
            assert(rest[k] == body[k]);
        }
        law_texts(rest);
        assert(!(body[body.len() - 1] is FileHeader));
        let st = Reading::start().after_lines(rest);
        assert(texts(own.base) =~= if on_base(body.last()) {
            texts(st.base).push(content(body.last()))
        } else {
            texts(st.base)
        });
        assert(texts(own.head) =~= if on_head(body.last()) {
            texts(st.head).push(content(body.last()))
        } else {
            texts(st.head)
        });
    } else {
        assert(texts(own.base) =~= seq![]);
        assert(texts(own.head) =~= seq![]);
    }
}

/// Whether `lines` are content lines only.
pub open spec fn content_only(lines: Seq<DiffLine<Seq<char>>>) -> bool {
    forall|k: int|
        0 <= k < lines.len() ==> on_base(#[trigger] lines[k]) || on_head(lines[k])
}

/// The lines of a hunk are numbered one by one on each side, from the numbers
/// in the hunk's header.
pub proof fn law_hunk_numbers(
    st: Reading,
    base: usize,
    head: usize,
    hunk: Seq<DiffLine<Seq<char>>>,
    i: int,
)
    requires
        content_only(hunk),
        base + hunk.len() <= usize::MAX,
        head + hunk.len() <= usize::MAX,
        0 <= i,
    ensures
        ({
            let end = st.next(DiffLine::Hunk(base, head)).after_lines(hunk);
            &&& end.base.len() == st.base.len() + base_texts(hunk).len()
            &&& i < base_texts(hunk).len() ==> end.base[st.base.len() + i] == (
                (base + i) as usize,
                base_texts(hunk)[i],
            )
            &&& end.head.len() == st.head.len() + head_texts(hunk).len()
            &&& i < head_texts(hunk).len() ==> end.head[st.head.len() + i] == (
                (head + i) as usize,
                head_texts(hunk)[i],
            )
            &&& end.base_no == base + base_texts(hunk).len()
            &&& end.head_no == head + head_texts(hunk).len()
            &&& base_texts(hunk).len() <= hunk.len()
            &&& head_texts(hunk).len() <= hunk.len()
        }),
    decreases hunk.len(),
{
    if hunk.len() > 0 {
        let rest = hunk.drop_last();
        assert forall|k: int| 0 <= k < rest.len() implies on_base(#[trigger] rest[k]) || on_head(
            rest[k],
        ) by {
            assert(rest[k] == hunk[k]);
        }
        law_hunk_numbers(st, base, head, rest, i);
        assert(on_base(hunk[hunk.len() - 1]) || on_head(hunk[hunk.len() - 1]));
    }
}

/// The files of a diff are those that a section names.
pub proof fn law_files(lines: Seq<DiffLine<Seq<char>>>, file: Seq<char>)
    ensures
        parse::files_of(lines).dom().contains(file) <==> file.len() > 0 && names_file(lines, file),
{
    lemma_files(lines, file);
}

proof fn lemma_files(lines: Seq<DiffLine<Seq<char>>>, file: Seq<char>)
    ensures
        ({
            let st = Reading::start().after_lines(lines);
            &&& (st.files.dom().contains(file) || (st.file == file && file.len() > 0))
                <==> file.len() > 0 && names_file(lines, file)
        }),
    decreases lines.len(),
{
    if lines.len() > 0 {
        let rest = lines.drop_last();
        lemma_files(rest, file);
        let last = lines.last();
        assert(lines[lines.len() - 1] == last);
        if names_file(rest, file) {
            let k = choose|k: int|
                0 <= k < rest.len() && #[trigger] rest[k] == DiffLine::FileHeader(Some(file));
            assert(lines[k] == rest[k]);
        }
        if names_file(lines, file) {
            let k = choose|k: int|
                0 <= k < lines.len() && #[trigger] lines[k] == DiffLine::FileHeader(Some(file));
            if k < rest.len() {
                assert(rest[k] == lines[k]);
            }
        }
    }
}

/// Whether a rename header with the path `from` stands among `lines`.
pub open spec fn has_rename(lines: Seq<DiffLine<Seq<char>>>, from: Seq<char>) -> bool {
    exists|k: int| 0 <= k < lines.len() && #[trigger] lines[k] == DiffLine::RenameFrom(from)
}

/// Whether no line says that two sides are more than wholly alike.
pub open spec fn in_percent(lines: Seq<DiffLine<Seq<char>>>) -> bool {
    forall|k: int| #![trigger lines[k]]
        0 <= k < lines.len() ==> (lines[k] matches DiffLine::Similarity(n) ==> n <= 100)
}

/// The files of which there is metadata are the files of the diff.
pub proof fn law_meta_of_files(lines: Seq<DiffLine<Seq<char>>>)
    ensures
        parse::meta_of(lines).dom() == parse::files_of(lines).dom(),
{
    lemma_meta_of_files(lines);
    assert(parse::meta_of(lines).dom() =~= parse::files_of(lines).dom());
}

proof fn lemma_meta_of_files(lines: Seq<DiffLine<Seq<char>>>)
    ensures
        Reading::start().after_lines(lines).meta.dom() == Reading::start().after_lines(
            lines,
        ).files.dom(),
    decreases lines.len(),
{
    let st = Reading::start().after_lines(lines);
    if lines.len() > 0 {
        lemma_meta_of_files(lines.drop_last());
    }
    assert(st.meta.dom() =~= st.files.dom());
}

/// Whether a line with the status `status` stands among `lines`.
pub open spec fn has_status(lines: Seq<DiffLine<Seq<char>>>, status: FileStatus) -> bool {
    exists|k: int| 0 <= k < lines.len() && #[trigger] lines[k] == DiffLine::<Seq<char>>::Status(
        status,
    )
}

/// What a file counts as is what a line of its section says. Where none says
/// anything, it counts as modified.
pub proof fn law_status(body: Seq<DiffLine<Seq<char>>>)
    requires
        headerless(body),
    ensures
        ({
            let own = Reading::start().after_lines(body).status;
            ||| has_status(body, own)
            ||| own == FileStatus::Modified && forall|s: FileStatus| !#[trigger]
                has_status(body, s)
        }),
    decreases body.len(),
{
    if body.len() > 0 {
        let rest = body.drop_last();
        assert forall|k: int| 0 <= k < rest.len() implies !((#[trigger] rest[k]) is FileHeader) by {
            assert(rest[k] == body[k]);
        }
        law_status(rest);
        assert(body[body.len() - 1] == body.last());
        assert forall|s: FileStatus| #[trigger] has_status(rest, s) implies has_status(body, s) by {
            let k = choose|k: int|
                0 <= k < rest.len() && #[trigger] rest[k] == DiffLine::<Seq<char>>::Status(s);
            assert(body[k] == rest[k]);
        }
        assert forall|s: FileStatus| #[trigger]
            has_status(body, s) implies has_status(rest, s) || body.last()
            == DiffLine::<Seq<char>>::Status(s) by {
            let k = choose|k: int|
                0 <= k < body.len() && #[trigger] body[k] == DiffLine::<Seq<char>>::Status(s);
            if k < rest.len() {
                assert(rest[k] == body[k]);
            }
        }
    }
}

/// Only a rename header gives a file a rename. Its similarity is at most 100 where
/// no line says more.
pub proof fn law_renames(lines: Seq<DiffLine<Seq<char>>>, file: Seq<char>)
    requires
        parse::meta_of(lines).dom().contains(file),
    ensures
        parse::meta_of(lines)[file].rename matches Some(r) ==> has_rename(lines, r.from) && (
        in_percent(lines) ==> r.similarity <= 100),
{
    lemma_renames(lines, file);
    if in_percent(lines) {
        lemma_similarity(lines, file);
    }
}

/// In the diff that `git diff` printed, the similarity of a rename is at most
/// 100.
pub proof fn law_similarity(diff: Seq<char>, file: Seq<char>)
    requires
        parse::meta_of(parse::classified(diff)).dom().contains(file),
    ensures
        parse::meta_of(parse::classified(diff))[file].rename matches Some(r) ==> r.similarity
            <= 100,
{
    let lines = parse::classified(diff);
    assert(in_percent(lines)) by {
        assert forall|k: int| #![trigger lines[k]] 0 <= k < lines.len() implies (
        lines[k] matches DiffLine::Similarity(n) ==> n <= 100) by {
            assert(lines[k] == parse::classify(text::text_lines(diff)[k]));
        }
    }
    law_renames(lines, file);
}

proof fn lemma_similarity(lines: Seq<DiffLine<Seq<char>>>, file: Seq<char>)
    requires
        in_percent(lines),
    ensures
        ({
            let st = Reading::start().after_lines(lines);
            &&& st.similarity matches Some(n) ==> n <= 100
            &&& st.meta.dom().contains(file) ==> (st.meta[file].rename matches Some(r)
                ==> r.similarity <= 100)
        }),
    decreases lines.len(),
{
    if lines.len() > 0 {
        let rest = lines.drop_last();
        assert(in_percent(rest)) by {
            assert forall|k: int| #![trigger rest[k]] 0 <= k < rest.len() implies (
            rest[k] matches DiffLine::Similarity(n) ==> n <= 100) by {
                assert(rest[k] == lines[k]);
            }
        }
        lemma_similarity(rest, file);
        assert(lines[lines.len() - 1] == lines.last());
    }
}

proof fn lemma_renames(lines: Seq<DiffLine<Seq<char>>>, file: Seq<char>)
    ensures
        ({
            let st = Reading::start().after_lines(lines);
            &&& st.meta.dom().contains(file) ==> (st.meta[file].rename matches Some(r)
                ==> has_rename(lines, r.from))
            &&& st.from matches Some(from) ==> has_rename(lines, from)
        }),
    decreases lines.len(),
{
    if lines.len() > 0 {
        let rest = lines.drop_last();
        lemma_renames(rest, file);
        assert(lines[lines.len() - 1] == lines.last());
        assert forall|p: Seq<char>| has_rename(rest, p) implies has_rename(lines, p) by {
            let k = choose|k: int|
                0 <= k < rest.len() && #[trigger] rest[k] == DiffLine::RenameFrom(p);
            assert(lines[k] == rest[k]);
        }
    }
}

/// No header or marker is shown as content: what a line of `git diff` puts on
/// a side is no metadata, an added line starts with `+`, a removed one with
/// `-`, and a line of both sides with neither.
pub proof fn law_content(line: Seq<char>)
    ensures
        ({
            let l = parse::classify(line);
            on_base(l) || on_head(l) ==> {
                &&& !parse::is_metadata(content(l))
                &&& l is Removed ==> content(l).len() > 0 && content(l)[0] == '-'
                &&& l is Added ==> content(l).len() > 0 && content(l)[0] == '+'
                &&& l is Context && content(l).len() > 0 ==> content(l)[0] != '-' && content(l)[0]
                    != '+'
                &&& text::strip_prefix(content(l), "rename from "@) is None
                &&& !("rename to "@.is_prefix_of(content(l)))
            }
        }),
{
}

/// A content line is found on a side only if a line of the diff put it there.
pub proof fn law_sides(lines: Seq<DiffLine<Seq<char>>>, file: Seq<char>, i: int)
    requires
        parse::files_of(lines).dom().contains(file),
        0 <= i,
    ensures
        ({
            let (base, head) = parse::files_of(lines)[file];
            &&& i < base.len() ==> exists|k: int|
                0 <= k < lines.len() && on_base(#[trigger] lines[k]) && content(lines[k])
                    == base[i].1
            &&& i < head.len() ==> exists|k: int|
                0 <= k < lines.len() && on_head(#[trigger] lines[k]) && content(lines[k])
                    == head[i].1
        }),
{
    lemma_sides(lines, file, i);
}

/// Whether some line puts `s` on the left side.
spec fn puts_base(lines: Seq<DiffLine<Seq<char>>>, s: Seq<char>) -> bool {
    exists|k: int|
        0 <= k < lines.len() && on_base(#[trigger] lines[k]) && content(lines[k]) == s
}

/// Whether some line puts `s` on the right side.
spec fn puts_head(lines: Seq<DiffLine<Seq<char>>>, s: Seq<char>) -> bool {
    exists|k: int|
        0 <= k < lines.len() && on_head(#[trigger] lines[k]) && content(lines[k]) == s
}

proof fn lemma_sides(lines: Seq<DiffLine<Seq<char>>>, file: Seq<char>, i: int)
    requires
        0 <= i,
    ensures
        ({
            let st = Reading::start().after_lines(lines);
            &&& i < st.base.len() ==> puts_base(lines, st.base[i].1)
            &&& i < st.head.len() ==> puts_head(lines, st.head[i].1)
            &&& st.files.dom().contains(file) ==> {
                &&& i < st.files[file].0.len() ==> puts_base(lines, st.files[file].0[i].1)
                &&& i < st.files[file].1.len() ==> puts_head(lines, st.files[file].1[i].1)
            }
        }),
    decreases lines.len(),
{
    if lines.len() > 0 {
        let rest = lines.drop_last();
        lemma_sides(rest, file, i);
        assert(lines[lines.len() - 1] == lines.last());
        assert forall|s: Seq<char>| puts_base(rest, s) implies puts_base(lines, s) by {
            let k = choose|k: int|
                0 <= k < rest.len() && on_base(#[trigger] rest[k]) && content(rest[k]) == s;
            assert(lines[k] == rest[k]);
        }
        assert forall|s: Seq<char>| puts_head(rest, s) implies puts_head(lines, s) by {
            let k = choose|k: int|
                0 <= k < rest.len() && on_head(#[trigger] rest[k]) && content(rest[k]) == s;
            assert(lines[k] == rest[k]);
        }
        let last = lines.last();
        if on_base(last) {
            assert(puts_base(lines, content(last)));
        }
        if on_head(last) {
            assert(puts_head(lines, content(last)));
        }
    }
}

// ---------------------------------------------------------------------------
// Two diffs, one after the other

/// The metadata of two diffs, one after the other. The later one says what it says
/// of a file, and a rename that only the earlier one knows stays known.
pub open spec fn merged(a: MetaView, b: MetaView) -> MetaView {
    Map::new(
        |f: Seq<char>| a.dom().contains(f) || b.dom().contains(f),
        |f: Seq<char>|
            if !b.dom().contains(f) {
                a[f]
            } else if b[f].rename is None && a.dom().contains(f) {
                FileMetaView { rename: a[f].rename, ..b[f] }
            } else {
                b[f]
            },
    )
}

/// What is known where these files and this metadata were known before.
spec fn on_top(st: Reading, files: FilesView, meta: MetaView) -> Reading {
    Reading {
        files: files.union_prefer_right(st.files),
        meta: merged(meta, st.meta),
        ..st
    }
}

proof fn lemma_on_top_end(st: Reading, files: FilesView, meta: MetaView)
    ensures
        on_top(st, files, meta).end_section() == on_top(st.end_section(), files, meta),
{
    let a = on_top(st, files, meta).end_section();
    let b = on_top(st.end_section(), files, meta);
    assert(a.files =~= b.files);
    assert(a.meta =~= b.meta);
    assert(a =~= b);
}

proof fn lemma_on_top(
    st: Reading,
    files: FilesView,
    meta: MetaView,
    lines: Seq<DiffLine<Seq<char>>>,
)
    ensures
        on_top(st, files, meta).after_lines(lines) == on_top(st.after_lines(lines), files, meta),
    decreases lines.len(),
{
    if lines.len() > 0 {
        let rest = lines.drop_last();
        lemma_on_top(st, files, meta, rest);
        lemma_on_top_end(st.after_lines(rest), files, meta);
    }
}

/// Of two diffs, one after the other, each file has what its own diff says of it,
/// or the later one where both name it: no lines, line numbers, rename, similarity
/// or status carry over from a file of one diff to another file of the next.
pub proof fn law_joined(a: Seq<DiffLine<Seq<char>>>, b: Seq<DiffLine<Seq<char>>>)
    requires
        clean(Reading::start().after_lines(a)),
        b.len() > 0,
        b[0] matches DiffLine::FileHeader(Some(_)),
    ensures
        parse::files_of(a + b) == parse::files_of(a).union_prefer_right(parse::files_of(b)),
        parse::meta_of(a + b) == merged(parse::meta_of(a), parse::meta_of(b)),
        parse::files_of(a).dom().disjoint(parse::files_of(b).dom()) ==> parse::meta_of(a + b)
            == parse::meta_of(a).union_prefer_right(parse::meta_of(b)),
{
    let start = Reading::start();
    let files = parse::files_of(a);
    let meta = parse::meta_of(a);
    let st = start.after_lines(a);
    let first = seq![b[0]];
    let rest = b.skip(1);
    assert(b =~= first + rest);
    lemma_after_two(start, a, b);
    lemma_after_two(st, first, rest);
    lemma_after_two(start, first, rest);
    assert(first.drop_last() =~= seq![]);
    assert(st.after_lines(seq![]) == st);
    assert(start.after_lines(seq![]) == start);
    let fresh = start.next(b[0]);
    assert(st.after_lines(first) == st.next(b[0]));
    assert(start.after_lines(first) == fresh);
    assert(st.next(b[0]) =~= on_top(fresh, files, meta)) by {
        assert(files.union_prefer_right(fresh.files) =~= files);
        assert(merged(meta, fresh.meta) =~= meta);
        assert(st.next(b[0]).base =~= fresh.base);
        assert(st.next(b[0]).head =~= fresh.head);
    }
    lemma_on_top(fresh, files, meta, rest);
    lemma_on_top_end(fresh.after_lines(rest), files, meta);
    if parse::files_of(a).dom().disjoint(parse::files_of(b).dom()) {
        law_meta_of_files(a);
        law_meta_of_files(b);
        assert(merged(meta, parse::meta_of(b)) =~= meta.union_prefer_right(parse::meta_of(b)));
    }
}

/// Whether `lines` start with a section.
pub open spec fn sectioned(lines: Seq<DiffLine<Seq<char>>>) -> bool {
    lines.len() > 0 && lines[0] is FileHeader
}

proof fn lemma_sectioned(lines: Seq<DiffLine<Seq<char>>>)
    requires
        sectioned(lines),
        parse::named(lines),
    ensures
        Reading::start().after_lines(lines).file.len() > 0,
    decreases lines.len(),
{
    let rest = lines.drop_last();
    assert(lines[lines.len() - 1] == lines.last());
    if rest.len() > 0 {
        assert(rest[0] == lines[0]);
        assert forall|k: int| 0 <= k < rest.len() implies parse::names_its_file(
            #[trigger] rest[k],
        ) by {
            assert(rest[k] == lines[k]);
        }
        lemma_sectioned(rest);
    }
    assert(parse::names_its_file(lines[lines.len() - 1]));
}

/// Parsing two texts of `git diff` as one gives what parsing each gives, where
/// the first ends with a line feed and both start with a section. That every
/// section names its file holds of each text that was parsed.
pub proof fn law_joined_texts(a: Seq<char>, b: Seq<char>)
    requires
        a.len() > 0,
        a.last() == '\n',
        sectioned(parse::classified(a)),
        sectioned(parse::classified(b)),
        parse::named(parse::classified(a)),
        parse::named(parse::classified(b)),
    ensures
        parse::named(parse::classified(a + b)),
        ({
            let (x, y) = (parse::classified(a), parse::classified(b));
            &&& parse::files_of(parse::classified(a + b)) == parse::files_of(x).union_prefer_right(
                parse::files_of(y),
            )
            &&& parse::meta_of(parse::classified(a + b)) == merged(
                parse::meta_of(x),
                parse::meta_of(y),
            )
        }),
{
    text::lemma_lines_two(a, b);
    let (x, y) = (parse::classified(a), parse::classified(b));
    assert(parse::classified(a + b) =~= x + y);
    assert(parse::names_its_file(y[0]));
    assert forall|k: int| 0 <= k < (x + y).len() implies parse::names_its_file(
        #[trigger] (x + y)[k],
    ) by {
        if k < x.len() {
            assert((x + y)[k] == x[k]);
        } else {
            assert((x + y)[k] == y[k - x.len()]);
        }
    }
    lemma_sectioned(parse::classified(a));
    law_joined(parse::classified(a), parse::classified(b));
}

} // verus!
