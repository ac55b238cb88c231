//! The text that `git diff` prints, as files and lines.
use vstd::prelude::*;
use super::pattern;
use super::pattern::{Groups, GroupsView, FILE_PATTERN};
use super::{
    FileChanges, FileMeta, FileMetaMap, FileMetaView, FileStatus, FilesView, LineChange, MetaView,
    RenameInfo, RenameView, SideView,
};
use crate::names::NameMap;
use crate::text;
use regex::Regex;

verus! {

/// The line that starts a hunk.
pub const HUNK_PATTERN: &'static str = "^@@ -(\\d+),?\\d* \\+(\\d+),?\\d* @@";

/// The escape sequences that set a terminal's colours.
pub const ANSI_PATTERN: &'static str = "\\x1b\\[.*?m";

/// The line that says how alike the two sides of a rename are.
pub const SIMILARITY_PATTERN: &'static str = "^similarity index (\\d+)%$";

/// What a line of a diff says.
#[derive(Debug, PartialEq)]
pub enum DiffLine<S> {
    /// Nothing that is shown or counted.
    Skip,
    /// The section of this file starts here.
    FileHeader(Option<S>),
    /// The next lines have these numbers on the two sides.
    Hunk(usize, usize),
    /// The file had this path before.
    RenameFrom(S),
    /// How alike the two sides of a rename are.
    Similarity(u8),
    /// Whether the file is new or gone.
    Status(FileStatus),
    /// A line of the left side only.
    Removed(S),
    /// A line of the right side only.
    Added(S),
    /// A line of both sides.
    Context(S),
}

impl DeepView for DiffLine<String> {
    type V = DiffLine<Seq<char>>;

    open spec fn deep_view(&self) -> DiffLine<Seq<char>> {
        match self {
            DiffLine::Skip => DiffLine::Skip,
            DiffLine::FileHeader(path) => DiffLine::FileHeader(path.deep_view()),
            DiffLine::Hunk(base, head) => DiffLine::Hunk(*base, *head),
            DiffLine::RenameFrom(path) => DiffLine::RenameFrom(path@),
            DiffLine::Similarity(n) => DiffLine::Similarity(*n),
            DiffLine::Status(status) => DiffLine::Status(*status),
            DiffLine::Removed(s) => DiffLine::Removed(s@),
            DiffLine::Added(s) => DiffLine::Added(s@),
            DiffLine::Context(s) => DiffLine::Context(s@),
        }
    }
}

// ---------------------------------------------------------------------------
// Lines

/// Group `i` of a match.
pub open spec fn group(groups: GroupsView, i: int) -> Option<Seq<char>> {
    if 0 <= i < groups.len() {
        groups[i]
    } else {
        None
    }
}

/// The line number that a group writes, or 1 where it writes none.
pub open spec fn line_number(g: Option<Seq<char>>) -> usize {
    match g {
        Some(s) => match text::number(s, usize::MAX as nat) {
            Some(n) => n as usize,
            None => 1,
        },
        None => 1,
    }
}

/// What a file header says.
pub open spec fn file_header(groups: GroupsView) -> DiffLine<Seq<char>> {
    DiffLine::FileHeader(group(groups, 2))
}

/// What a hunk header says.
pub open spec fn hunk_header(groups: GroupsView) -> DiffLine<Seq<char>> {
    DiffLine::Hunk(line_number(group(groups, 1)), line_number(group(groups, 2)))
}

/// What a similarity line says. A similarity is at most 100, and what is not
/// a byte's value is passed over.
pub open spec fn similarity(groups: GroupsView) -> DiffLine<Seq<char>> {
    match group(groups, 1) {
        Some(s) => match text::number(s, 255) {
            Some(n) => DiffLine::Similarity(
                if n <= 100 {
                    n as u8
                } else {
                    100
                },
            ),
            None => DiffLine::Skip,
        },
        None => DiffLine::Skip,
    }
}

/// Whether `s` is a header that says nothing of a line.
pub open spec fn is_metadata(s: Seq<char>) -> bool {
    ||| "index"@.is_prefix_of(s)
    ||| "---"@.is_prefix_of(s)
    ||| "+++"@.is_prefix_of(s)
    ||| "@@"@.is_prefix_of(s)
    ||| "new file mode"@.is_prefix_of(s)
    ||| "new mode"@.is_prefix_of(s)
    ||| "old mode"@.is_prefix_of(s)
    ||| "deleted file mode"@.is_prefix_of(s)
    ||| "copy from"@.is_prefix_of(s)
    ||| "copy to"@.is_prefix_of(s)
    ||| "dissimilarity index"@.is_prefix_of(s)
    ||| "Binary files"@.is_prefix_of(s)
}

/// What a line says that is no file header, hunk header or rename header. The mode
/// of a new file or of one that is gone says so.
pub open spec fn plain_line(s: Seq<char>) -> DiffLine<Seq<char>> {
    if "new file mode"@.is_prefix_of(s) {
        DiffLine::Status(FileStatus::Added)
    } else if "deleted file mode"@.is_prefix_of(s) {
        DiffLine::Status(FileStatus::Deleted)
    } else if is_metadata(s) {
        DiffLine::Skip
    } else if s.len() > 0 && s[0] == '-' {
        DiffLine::Removed(s)
    } else if s.len() > 0 && s[0] == '+' {
        DiffLine::Added(s)
    } else {
        DiffLine::Context(s)
    }
}

/// What a line says, once its colours are taken out.
pub open spec fn colourless_line(s: Seq<char>) -> DiffLine<Seq<char>> {
    match pattern::first_match(FILE_PATTERN@, s) {
        Some(groups) => file_header(groups),
        None => match pattern::first_match(HUNK_PATTERN@, s) {
            Some(groups) => hunk_header(groups),
            None => match text::strip_prefix(s, "rename from "@) {
                Some(path) => DiffLine::RenameFrom(path),
                None => if "rename to "@.is_prefix_of(s) {
                    DiffLine::Skip
                } else {
                    match pattern::first_match(SIMILARITY_PATTERN@, s) {
                        Some(groups) => similarity(groups),
                        None => plain_line(s),
                    }
                },
            },
        },
    }
}

/// What a line of `git diff` says. White space at its end is dropped, and the
/// note that a file ends without a line feed is passed over.
pub open spec fn classify(line: Seq<char>) -> DiffLine<Seq<char>> {
    let t = text::trim_end(line);
    if "\\ "@.is_prefix_of(t) {
        DiffLine::Skip
    } else {
        colourless_line(pattern::replaced(ANSI_PATTERN@, t, ""@))
    }
}

/// The line number that group `i` writes.
fn group_number(groups: &Groups, i: usize) -> (r: usize)
    ensures
        r == line_number(group(groups.deep_view(), i as int)),
{
    if i < groups.len() {
        assert(groups.deep_view()[i as int] == groups@[i as int].deep_view());
        if let Some(s) = &groups[i] {
            if let Some(n) = text::parse_number(s.as_str(), usize::MAX) {
                return n;
            }
        }
    }
    1
}

/// What a file header with these groups says.
pub fn read_file_header(groups: &Groups) -> (r: DiffLine<String>)
    ensures
        r.deep_view() == file_header(groups.deep_view()),
{
    if groups.len() > 2 {
        assert(groups.deep_view()[2] == groups@[2].deep_view());
        match &groups[2] {
            Some(path) => DiffLine::FileHeader(Some(path.clone())),
            None => DiffLine::FileHeader(None),
        }
    } else {
        DiffLine::FileHeader(None)
    }
}

/// What a hunk header with these groups says.
pub fn read_hunk_header(groups: &Groups) -> (r: DiffLine<String>)
    ensures
        r.deep_view() == hunk_header(groups.deep_view()),
{
    DiffLine::Hunk(group_number(groups, 1), group_number(groups, 2))
}

/// What a similarity line with these groups says.
pub fn read_similarity(groups: &Groups) -> (r: DiffLine<String>)
    ensures
        r.deep_view() == similarity(groups.deep_view()),
{
    if groups.len() > 1 {
        assert(groups.deep_view()[1] == groups@[1].deep_view());
        if let Some(s) = &groups[1] {
            if let Some(n) = text::parse_number(s.as_str(), 255) {
                return DiffLine::Similarity(
                    if n <= 100 {
                        n as u8
                    } else {
                        100
                    },
                );
            }
        }
    }
    DiffLine::Skip
}

/// Whether `s` is a header that says nothing of a line.
fn says_nothing(s: &str) -> (r: bool)
    ensures
        r == is_metadata(s@),
{
    let cs = text::chars_of(s);
    text::has_prefix(&cs, "index") || text::has_prefix(&cs, "---") || text::has_prefix(&cs, "+++")
        || text::has_prefix(&cs, "@@") || text::has_prefix(&cs, "new file mode")
        || text::has_prefix(&cs, "new mode") || text::has_prefix(&cs, "old mode")
        || text::has_prefix(&cs, "deleted file mode") || text::has_prefix(&cs, "copy from")
        || text::has_prefix(&cs, "copy to") || text::has_prefix(&cs, "dissimilarity index")
        || text::has_prefix(&cs, "Binary files")
}

/// What a line says that is no file header, hunk header or rename header.
pub fn read_plain_line(s: String) -> (r: DiffLine<String>)
    ensures
        r.deep_view() == plain_line(s@),
{
    if text::starts_with(s.as_str(), "new file mode") {
        return DiffLine::Status(FileStatus::Added);
    }
    if text::starts_with(s.as_str(), "deleted file mode") {
        return DiffLine::Status(FileStatus::Deleted);
    }
    if says_nothing(s.as_str()) {
        return DiffLine::Skip;
    }
    if s.as_str().unicode_len() > 0 {
        let first = s.as_str().get_char(0);
        if first == '-' {
            return DiffLine::Removed(s);
        }
        if first == '+' {
            return DiffLine::Added(s);
        }
    }
    DiffLine::Context(s)
}

/// Whether a line, if it starts a section, names the file.
pub open spec fn names_its_file(line: DiffLine<Seq<char>>) -> bool {
    line matches DiffLine::FileHeader(path) ==> (path matches Some(p) && p.len() > 0)
}

/// Whether every section of `lines` names its file.
pub open spec fn named(lines: Seq<DiffLine<Seq<char>>>) -> bool {
    forall|k: int| 0 <= k < lines.len() ==> names_its_file(#[trigger] lines[k])
}

/// The compiled patterns.
struct Patterns {
    file: Regex,
    hunk: Regex,
    ansi: Regex,
    similarity: Regex,
}

impl Patterns {
    /// Whether each expression was made of its own pattern.
    spec fn well_formed(self) -> bool {
        &&& pattern::compiled_from(self.file) == Some(FILE_PATTERN@)
        &&& pattern::compiled_from(self.hunk) == Some(HUNK_PATTERN@)
        &&& pattern::compiled_from(self.ansi) == Some(ANSI_PATTERN@)
        &&& pattern::compiled_from(self.similarity) == Some(SIMILARITY_PATTERN@)
    }

    /// Compiles the patterns.
    fn new() -> (r: Option<Patterns>)
        ensures
            r is Some <==> patterns_compile(),
            r matches Some(p) ==> p.well_formed(),
    {
        let file = match pattern::compile(FILE_PATTERN) {
            Ok(re) => re,
            Err(_) => return None,
        };
        let hunk = match pattern::compile(HUNK_PATTERN) {
            Ok(re) => re,
            Err(_) => return None,
        };
        let ansi = match pattern::compile(ANSI_PATTERN) {
            Ok(re) => re,
            Err(_) => return None,
        };
        let similarity = match pattern::compile(SIMILARITY_PATTERN) {
            Ok(re) => re,
            Err(_) => return None,
        };
        Some(Patterns { file, hunk, ansi, similarity })
    }

    /// What a line of `git diff` says.
    fn read_line(&self, line: &str) -> (r: DiffLine<String>)
        requires
            self.well_formed(),
        ensures
            r.deep_view() == classify(line@),
            names_its_file(classify(line@)),
    {
        let t = text::trimmed_end(line);
        if text::starts_with(t.as_str(), "\\ ") {
            return DiffLine::Skip;
        }
        let s = pattern::replace_all(&self.ansi, t.as_str(), "");
        if let Some(groups) = pattern::captures(&self.file, s.as_str()) {
            return read_file_header(&groups);
        }
        if let Some(groups) = pattern::captures(&self.hunk, s.as_str()) {
            return read_hunk_header(&groups);
        }
        if let Some(path) = text::without_prefix(s.as_str(), "rename from ") {
            return DiffLine::RenameFrom(path);
        }
        if text::starts_with(s.as_str(), "rename to ") {
            return DiffLine::Skip;
        }
        if let Some(groups) = pattern::captures(&self.similarity, s.as_str()) {
            return read_similarity(&groups);
        }
        read_plain_line(s)
    }
}

/// Whether the `regex` crate accepts the four patterns.
pub open spec fn patterns_compile() -> bool {
    &&& pattern::compiles(FILE_PATTERN@)
    &&& pattern::compiles(HUNK_PATTERN@)
    &&& pattern::compiles(ANSI_PATTERN@)
    &&& pattern::compiles(SIMILARITY_PATTERN@)
}

// ---------------------------------------------------------------------------
// Files

/// What is known after some lines of a diff.
#[verifier::ext_equal]
pub struct Reading {
    /// The files whose sections have ended.
    pub files: FilesView,
    /// What else is known of them.
    pub meta: MetaView,
    /// The file whose section is being read, empty before the first.
    pub file: Seq<char>,
    /// Its lines so far.
    pub base: SideView,
    pub head: SideView,
    /// The numbers of its next lines.
    pub base_no: usize,
    pub head_no: usize,
    /// Its rename headers so far.
    pub from: Option<Seq<char>>,
    pub similarity: Option<u8>,
    /// What its mode says.
    pub status: FileStatus,
}

/// The line number after `n`. Line numbers wrap around.
pub open spec fn after(n: usize) -> usize {
    if n == usize::MAX {
        0
    } else {
        (n + 1) as usize
    }
}

impl Reading {
    /// Before the first line.
    pub open spec fn start() -> Reading {
        Reading {
            files: Map::empty(),
            meta: Map::empty(),
            file: seq![],
            base: seq![],
            head: seq![],
            base_no: 1,
            head_no: 1,
            from: None,
            similarity: None,
            status: FileStatus::Modified,
        }
    }

    /// The rename of the file whose section is being read. A rename without a
    /// similarity line is a rename without content changes. A section without a
    /// rename header leaves the file the rename of an earlier one.
    pub open spec fn rename(self) -> Option<RenameView> {
        match self.from {
            Some(from) => Some(
                RenameView {
                    from,
                    similarity: match self.similarity {
                        Some(n) => n,
                        None => 100,
                    },
                },
            ),
            None => if self.meta.dom().contains(self.file) {
                self.meta[self.file].rename
            } else {
                None
            },
        }
    }

    /// The section of `self.file`, if there is one, ends.
    pub open spec fn end_section(self) -> Reading {
        if self.file.len() == 0 {
            self
        } else {
            Reading {
                files: self.files.insert(self.file, (self.base, self.head)),
                meta: self.meta.insert(
                    self.file,
                    FileMetaView { status: self.status, rename: self.rename() },
                ),
                file: seq![],
                base: seq![],
                head: seq![],
                from: None,
                similarity: None,
                status: FileStatus::Modified,
                ..self
            }
        }
    }

    /// After one more line.
    pub open spec fn next(self, line: DiffLine<Seq<char>>) -> Reading {
        match line {
            DiffLine::Skip => self,
            DiffLine::FileHeader(path) => match path {
                Some(p) => Reading { file: p, base_no: 1, head_no: 1, ..self.end_section() },
                None => self.end_section(),
            },
            DiffLine::Hunk(base, head) => Reading { base_no: base, head_no: head, ..self },
            DiffLine::RenameFrom(from) => Reading { from: Some(from), ..self },
            DiffLine::Similarity(n) => Reading { similarity: Some(n), ..self },
            DiffLine::Status(status) => Reading { status, ..self },
            DiffLine::Removed(s) => Reading {
                base: self.base.push((self.base_no, s)),
                base_no: after(self.base_no),
                ..self
            },
            DiffLine::Added(s) => Reading {
                head: self.head.push((self.head_no, s)),
                head_no: after(self.head_no),
                ..self
            },
            DiffLine::Context(s) => Reading {
                base: self.base.push((self.base_no, s)),
                head: self.head.push((self.head_no, s)),
                base_no: after(self.base_no),
                head_no: after(self.head_no),
                ..self
            },
        }
    }

    /// After the lines `lines`.
    pub open spec fn after_lines(self, lines: Seq<DiffLine<Seq<char>>>) -> Reading
        decreases lines.len(),
    {
        if lines.len() == 0 {
            self
        } else {
            self.after_lines(lines.drop_last()).next(lines.last())
        }
    }
}

/// The files of a diff with these lines.
pub open spec fn files_of(lines: Seq<DiffLine<Seq<char>>>) -> FilesView {
    Reading::start().after_lines(lines).end_section().files
}

/// The metadata of a diff with these lines.
pub open spec fn meta_of(lines: Seq<DiffLine<Seq<char>>>) -> MetaView {
    Reading::start().after_lines(lines).end_section().meta
}

/// What is known after some lines of a diff.
struct Reader {
    files: FileChanges,
    meta: FileMetaMap,
    file: String,
    base: Vec<LineChange>,
    head: Vec<LineChange>,
    base_no: usize,
    head_no: usize,
    from: Option<String>,
    similarity: Option<u8>,
    status: FileStatus,
}

impl View for Reader {
    type V = Reading;

    closed spec fn view(&self) -> Reading {
        Reading {
            files: self.files.deep_view(),
            meta: self.meta.deep_view(),
            file: self.file@,
            base: self.base.deep_view(),
            head: self.head.deep_view(),
            base_no: self.base_no,
            head_no: self.head_no,
            from: self.from.deep_view(),
            similarity: self.similarity,
            status: self.status,
        }
    }
}

impl Reader {
    /// Before the first line.
    fn new() -> (r: Self)
        ensures
            r@ == Reading::start(),
    {
        let r = Reader {
            files: NameMap::new(),
            meta: NameMap::new(),
            file: String::new(),
            base: Vec::new(),
            head: Vec::new(),
            base_no: 1,
            head_no: 1,
            from: None,
            similarity: None,
            status: FileStatus::Modified,
        };
        assert(r@ =~= Reading::start());
        r
    }

    /// Takes the rename of `file` out of its headers, or out of an earlier section.
    fn take_rename(&mut self, file: &str) -> (r: Option<RenameInfo>)
        ensures
            r.deep_view() == (Reading { file: file@, ..old(self)@ }).rename(),
            final(self)@ == (Reading { from: None, similarity: None, ..old(self)@ }),
    {
        let similarity = self.similarity.take();
        match self.from.take() {
            Some(from) => {
                let sim: u8 = match similarity {
                    Some(n) => n,
                    None => 100,
                };
                Some(RenameInfo { from, similarity: sim })
            },
            None => match self.meta.look_up(file) {
                Some(known) => match &known.rename {
                    Some(rename) => Some(rename.clone()),
                    None => None,
                },
                None => None,
            },
        }
    }

    /// Ends the section of the current file.
    fn end_section(&mut self)
        ensures
            final(self)@ == old(self)@.end_section(),
    {
        if self.file.as_str().unicode_len() == 0 {
            return;
        }
        let mut file = String::new();
        core::mem::swap(&mut file, &mut self.file);
        let mut base: Vec<LineChange> = Vec::new();
        core::mem::swap(&mut base, &mut self.base);
        let mut head: Vec<LineChange> = Vec::new();
        core::mem::swap(&mut head, &mut self.head);
        let rename = self.take_rename(file.as_str());
        let entry = FileMeta { status: self.status, rename };
        self.status = FileStatus::Modified;
        self.meta.insert(file.clone(), entry);
        self.files.insert(file, (base, head));
        proof {
            let want = old(self)@.end_section();
            assert(self@.files =~= want.files);
            assert(self@.meta =~= want.meta);
            assert(self@ =~= want);
        }
    }

    /// Takes in one more line.
    fn read(&mut self, line: DiffLine<String>)
        ensures
            final(self)@ == old(self)@.next(line.deep_view()),
    {
        match line {
            DiffLine::Skip => {},
            DiffLine::FileHeader(path) => {
                self.end_section();
                if let Some(p) = path {
                    self.file = p;
                    self.base_no = 1;
                    self.head_no = 1;
                }
            },
            DiffLine::Hunk(base, head) => {
                self.base_no = base;
                self.head_no = head;
            },
            DiffLine::RenameFrom(from) => {
                self.from = Some(from);
            },
            DiffLine::Similarity(n) => {
                self.similarity = Some(n);
            },
            DiffLine::Status(status) => {
                self.status = status;
            },
            DiffLine::Removed(s) => {
                self.base.push((self.base_no, s));
                self.base_no = self.base_no.wrapping_add(1);
            },
            DiffLine::Added(s) => {
                self.head.push((self.head_no, s));
                self.head_no = self.head_no.wrapping_add(1);
            },
            DiffLine::Context(s) => {
                self.base.push((self.base_no, s.clone()));
                self.head.push((self.head_no, s));
                self.base_no = self.base_no.wrapping_add(1);
                self.head_no = self.head_no.wrapping_add(1);
            },
        }
        assert(self@ =~= old(self)@.next(line.deep_view()));
    }
}

/// The files and the metadata of a diff with these lines.
pub fn assemble(lines: Vec<DiffLine<String>>) -> (r: (FileChanges, FileMetaMap))
    ensures
        r.0.deep_view() == files_of(lines.deep_view()),
        r.1.deep_view() == meta_of(lines.deep_view()),
{
    let ghost all = lines.deep_view();
    let mut reader = Reader::new();
    for line in it: lines
        invariant
            it.seq() == lines@,
            all == lines.deep_view(),
            reader@ == Reading::start().after_lines(all.take(it.index())),
    {
        let ghost i = it.index();
        reader.read(line);
        proof {
            let next = all.take(i + 1);
            assert(next.drop_last() =~= all.take(i));
            assert(next.last() == line.deep_view());
        }
    }
    assert(all.take(all.len() as int) =~= all);
    reader.end_section();
    (reader.files, reader.meta)
}

/// What the lines of the text `s` say.
pub open spec fn classified(s: Seq<char>) -> Seq<DiffLine<Seq<char>>> {
    text::text_lines(s).map_values(|line: Seq<char>| classify(line))
}

/// A pattern that the `regex` crate does not take.
#[derive(Debug)]
pub struct PatternError;

/// The files and the metadata of the diff that `git diff` printed. Every section
/// names its file.
pub fn parse_diff_output(diff_output: &str) -> (r: Result<
    (FileChanges, FileMetaMap),
    PatternError,
>)
    ensures
        match r {
            Ok((files, meta)) => {
                &&& patterns_compile()
                &&& files.deep_view() == files_of(classified(diff_output@))
                &&& meta.deep_view() == meta_of(classified(diff_output@))
                &&& named(classified(diff_output@))
            },
            Err(_) => !patterns_compile(),
        },
{
    let patterns = match Patterns::new() {
        Some(p) => p,
        None => return Err(PatternError),
    };
    let texts = text::lines(diff_output);
    let mut lines: Vec<DiffLine<String>> = Vec::new();
    for i in 0..texts.len()
        invariant
            patterns.well_formed(),
            texts.deep_view() == text::text_lines(diff_output@),
            lines@.len() == i,
            forall|j: int|
                0 <= j < i ==> (#[trigger] lines@[j]).deep_view() == classify(
                    texts.deep_view()[j],
                ) && names_its_file(lines@[j].deep_view()),
    {
        lines.push(patterns.read_line(texts[i].as_str()));
    }
    proof {
        let all = classified(diff_output@);
        assert(lines.deep_view() =~= all);
        assert forall|k: int| 0 <= k < all.len() implies names_its_file(#[trigger] all[k]) by {
            assert(all[k] == lines@[k].deep_view());
        }
    }
    Ok(assemble(lines))
}

} // verus!
