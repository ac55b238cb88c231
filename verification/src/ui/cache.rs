//! Highlighted files, kept from one frame to the next.
use vstd::prelude::*;
use super::draw;
use super::draw::{Line, LineView};
use super::grammar;
use super::panels;
use super::syntax;
use super::syntax::{LineHighlighter, Marks, Scheme};
use super::theme::{Theme, ThemeView};
use syntect::highlighting::ThemeSet;
use syntect::parsing::SyntaxSet;
use crate::diff::{LineChange, SideView};
use crate::text;

verus! {

/// How many highlighted files are kept. Two panes are drawn in a frame, so
/// this is the file that is shown and the one before it.
pub const HIGHLIGHT_CACHE_CAP: usize = 4;

/// How many lines are read at most to find what is open before a hunk.
pub const MAX_PRIME_LINES: usize = 2000;

/// The whole text of a file, where it is known.
pub type Source = Option<Seq<Seq<char>>>;

/// How far a file has been read.
pub struct Reading {
    /// The highlighter.
    pub hl: LineHighlighter,
    /// The highest line number that it has read.
    pub upto: usize,
}

/// The highlighter after lines `from` to `to` of a text.
pub open spec fn primed(hl: LineHighlighter, text: Seq<Seq<char>>, from: int, to: int) -> LineHighlighter
    decreases to - from,
{
    if from >= to {
        hl
    } else {
        primed(hl, text, from, to - 1).fed(text[to - 1])
    }
}

/// The end of the lines to be read before line `num`.
pub open spec fn prime_end(num: usize, len: nat) -> int {
    if num - 1 < len {
        num - 1
    } else {
        len as int
    }
}

/// The start of the lines to be read before line `num`: those that have not
/// been read, but not more than a limit.
pub open spec fn prime_start(upto: usize, num: usize, len: nat) -> int {
    if prime_end(num, len) - MAX_PRIME_LINES > upto {
        prime_end(num, len) - MAX_PRIME_LINES
    } else {
        upto as int
    }
}

impl Reading {
    /// The highlighter just before line `num`: it has read what the diff leaves
    /// out before it.
    pub open spec fn ready(self, num: usize, source: Source) -> LineHighlighter {
        match source {
            Some(text) => if num > self.upto + 1 {
                primed(
                    self.hl,
                    text,
                    prime_start(self.upto, num, text.len()),
                    prime_end(num, text.len()),
                )
            } else {
                self.hl
            },
            None => self.hl,
        }
    }

    /// After a line of the diff.
    pub open spec fn next(self, line: (usize, Seq<char>), source: Source) -> Reading {
        Reading {
            hl: self.ready(line.0, source).after(line.0, line.1),
            upto: if line.0 > self.upto {
                line.0
            } else {
                self.upto
            },
        }
    }
}

/// How far a file has been read after `n` lines of its diff.
pub open spec fn reading(first: LineHighlighter, lines: SideView, source: Source, n: int) -> Reading
    decreases n,
{
    if n <= 0 {
        Reading { hl: first, upto: 0 }
    } else {
        reading(first, lines, source, n - 1).next(lines[n - 1], source)
    }
}

/// The number and mark of line `i` of a diff that is read from its start.
pub open spec fn gutter_row(
    first: LineHighlighter,
    lines: SideView,
    source: Source,
    i: int,
) -> LineView {
    reading(first, lines, source, i).ready(lines[i].0, source).gutter(lines[i].0, lines[i].1)
}

/// The code of line `i` of a diff that is read from its start.
pub open spec fn content_row(
    first: LineHighlighter,
    lines: SideView,
    source: Source,
    i: int,
) -> LineView {
    reading(first, lines, source, i).ready(lines[i].0, source).content(lines[i].0, lines[i].1)
}

/// The numbers and marks of lines `from` to `to`.
pub open spec fn gutter_rows(
    first: LineHighlighter,
    lines: SideView,
    source: Source,
    from: int,
    to: int,
) -> Seq<LineView> {
    Seq::new((to - from) as nat, |i: int| gutter_row(first, lines, source, from + i))
}

/// The code of lines `from` to `to`.
pub open spec fn content_rows(
    first: LineHighlighter,
    lines: SideView,
    source: Source,
    from: int,
    to: int,
) -> Seq<LineView> {
    Seq::new((to - from) as nat, |i: int| content_row(first, lines, source, from + i))
}

/// `i`, but not more than `len`.
pub open spec fn at_most(i: int, len: nat) -> int {
    if i < len {
        i
    } else {
        len as int
    }
}

/// Reading a diff in two goes gives what reading it at once gives: the rows of
/// a part are that part of all rows.
pub proof fn law_window_is_slice(
    first: LineHighlighter,
    lines: SideView,
    source: Source,
    from: int,
    to: int,
)
    requires
        0 <= from <= to <= lines.len(),
    ensures
        gutter_rows(first, lines, source, from, to) == gutter_rows(
            first,
            lines,
            source,
            0,
            lines.len() as int,
        ).subrange(from, to),
        content_rows(first, lines, source, from, to) == content_rows(
            first,
            lines,
            source,
            0,
            lines.len() as int,
        ).subrange(from, to),
{
    assert(gutter_rows(first, lines, source, from, to) =~= gutter_rows(
        first,
        lines,
        source,
        0,
        lines.len() as int,
    ).subrange(from, to));
    assert(content_rows(first, lines, source, from, to) =~= content_rows(
        first,
        lines,
        source,
        0,
        lines.len() as int,
    ).subrange(from, to));
}

/// What the lines of a diff look like depends on the lines up to them alone.
pub proof fn law_rows_look_back(
    first: LineHighlighter,
    a: SideView,
    b: SideView,
    source: Source,
    n: int,
)
    requires
        0 <= n <= a.len(),
        n <= b.len(),
        a.take(n) == b.take(n),
    ensures
        reading(first, a, source, n) == reading(first, b, source, n),
        gutter_rows(first, a, source, 0, n) == gutter_rows(first, b, source, 0, n),
        content_rows(first, a, source, 0, n) == content_rows(first, b, source, 0, n),
    decreases n,
{
    if n > 0 {
        assert(a.take(n).take(n - 1) =~= a.take(n - 1));
        assert(b.take(n).take(n - 1) =~= b.take(n - 1));
        law_rows_look_back(first, a, b, source, n - 1);
        assert(a[n - 1] == a.take(n)[n - 1]);
        assert(b[n - 1] == b.take(n)[n - 1]);
        assert forall|i: int| 0 <= i < n implies gutter_row(first, a, source, i) == gutter_row(
            first,
            b,
            source,
            i,
        ) && content_row(first, a, source, i) == content_row(first, b, source, i) by {
            if i < n - 1 {
                assert(gutter_rows(first, a, source, 0, n - 1)[i] == gutter_row(
                    first,
                    a,
                    source,
                    i,
                ));
                assert(gutter_rows(first, b, source, 0, n - 1)[i] == gutter_row(
                    first,
                    b,
                    source,
                    i,
                ));
                assert(content_rows(first, a, source, 0, n - 1)[i] == content_row(
                    first,
                    a,
                    source,
                    i,
                ));
                assert(content_rows(first, b, source, 0, n - 1)[i] == content_row(
                    first,
                    b,
                    source,
                    i,
                ));
            }
        }
    }
    assert(gutter_rows(first, a, source, 0, n) =~= gutter_rows(first, b, source, 0, n));
    assert(content_rows(first, a, source, 0, n) =~= content_rows(first, b, source, 0, n));
}

/// A row that only fills a gap is blank and changes nothing for the rows after
/// it.
pub proof fn law_gap_rows(r: Reading, line: (usize, Seq<char>), source: Source)
    requires
        line.0 == 0,
    ensures
        r.next(line, source) == r,
        r.ready(0, source).gutter(0, line.1) == syntax::blank(),
        r.ready(0, source).content(0, line.1) == syntax::blank(),
{
}

/// Line numbers that go back do not make the highlighter read a line of the
/// file twice: it has read up to the highest number seen.
pub proof fn law_never_rewinds(first: LineHighlighter, lines: SideView, source: Source, i: int, n: int)
    requires
        0 <= i < n <= lines.len(),
    ensures
        reading(first, lines, source, n).upto >= lines[i].0,
        reading(first, lines, source, n).upto >= reading(first, lines, source, i).upto,
        lines[i].0 <= reading(first, lines, source, i).upto ==> reading(
            first,
            lines,
            source,
            i,
        ).ready(lines[i].0, source) == reading(first, lines, source, i).hl,
    decreases n,
{
    if i < n - 1 {
        law_never_rewinds(first, lines, source, i, n - 1);
    }
}

/// What a highlighted file is kept under: all that its look depends on.
pub struct KeyView {
    pub lines: SideView,
    pub filename: Seq<char>,
    pub scheme: Scheme,
    pub source: Source,
}

/// A highlighted file.
pub struct HighlightEntry {
    lines: Vec<LineChange>,
    filename: String,
    syntax_theme: String,
    is_dark: bool,
    marks: Marks,
    source: Option<Vec<String>>,
    /// The highlighter, until all lines have been read.
    hl: Option<LineHighlighter>,
    /// The highest line number that was read.
    upto: usize,
    gutter: Vec<Line>,
    content: Vec<Line>,
    /// The highlighter at the start.
    first: Ghost<LineHighlighter>,
}

/// Whether two texts are the same.
fn same_strings(x: &Vec<String>, y: &Vec<String>) -> (r: bool)
    ensures
        r == (x.deep_view() == y.deep_view()),
{
    if x.len() != y.len() {
        assert(x.deep_view().len() != y.deep_view().len());
        return false;
    }
    for i in 0..x.len()
        invariant
            x@.len() == y@.len(),
            forall|j: int| 0 <= j < i ==> x.deep_view()[j] == #[trigger] y.deep_view()[j],
    {
        assert(x.deep_view()[i as int] == x@[i as int]@);
        assert(y.deep_view()[i as int] == y@[i as int]@);
        if *x[i].as_str() != *y[i].as_str() {
            return false;
        }
    }
    assert(x.deep_view() =~= y.deep_view());
    true
}

/// Whether two texts are the same, where they are known.
fn same_text(a: &Option<Vec<String>>, b: Option<&Vec<String>>) -> (r: bool)
    ensures
        r == (a.deep_view() == b.deep_view()),
{
    match (a, b) {
        (None, None) => true,
        (Some(x), Some(y)) => same_strings(x, y),
        _ => false,
    }
}

/// The lines of a diff, again.
fn copy_side(lines: &[LineChange]) -> (r: Vec<LineChange>)
    ensures
        r.deep_view() == lines.deep_view(),
{
    let mut r: Vec<LineChange> = Vec::new();
    let ghost all = lines.deep_view();
    for i in 0..lines.len()
        invariant
            all == lines.deep_view(),
            r.deep_view() == all.take(i as int),
    {
        let ghost before = r.deep_view();
        r.push((lines[i].0, lines[i].1.clone()));
        proof {
            assert(all[i as int] == (lines@[i as int].0, lines@[i as int].1@));
            assert(r.deep_view() =~= before.push(all[i as int]));
            assert(all.take(i + 1) =~= before.push(all[i as int]));
        }
    }
    assert(all.take(all.len() as int) =~= all);
    r
}

/// Whether two sides are the same.
fn same_lines(a: &Vec<LineChange>, b: &[LineChange]) -> (r: bool)
    ensures
        r == (a.deep_view() == b.deep_view()),
{
    if a.len() != b.len() {
        assert(a.deep_view().len() != b.deep_view().len());
        return false;
    }
    for i in 0..a.len()
        invariant
            a@.len() == b@.len(),
            forall|j: int| 0 <= j < i ==> a.deep_view()[j] == #[trigger] b.deep_view()[j],
    {
        assert(a.deep_view()[i as int] == (a@[i as int].0, a@[i as int].1@));
        assert(b.deep_view()[i as int] == (b@[i as int].0, b@[i as int].1@));
        if a[i].0 != b[i].0 || *a[i].1.as_str() != *b[i].1.as_str() {
            return false;
        }
    }
    assert(a.deep_view() =~= b.deep_view());
    true
}

/// Lines `from` to `to`, again.
fn copy_rows(rows: &Vec<Line>, from: usize, to: usize) -> (r: Vec<Line>)
    requires
        from <= to <= rows@.len(),
    ensures
        r.deep_view() == rows.deep_view().subrange(from as int, to as int),
{
    let ghost all = rows.deep_view();
    let mut r: Vec<Line> = Vec::new();
    for i in from..to
        invariant
            from <= i <= to <= rows@.len(),
            all == rows.deep_view(),
            r.deep_view() == all.subrange(from as int, i as int),
    {
        let ghost before = r.deep_view();
        let line = draw::copy_line(&rows[i]);
        r.push(line);
        proof {
            assert(r.deep_view() =~= before.push(all[i as int]));
            assert(all.subrange(from as int, i + 1) =~= before.push(all[i as int]));
        }
    }
    r
}

impl HighlightEntry {
    /// What the file is kept under.
    pub closed spec fn key(self) -> KeyView {
        KeyView {
            lines: self.lines.deep_view(),
            filename: self.filename@,
            scheme: Scheme {
                syntax_theme: self.syntax_theme@,
                is_dark: self.is_dark,
                marks: self.marks,
            },
            source: self.source.deep_view(),
        }
    }

    /// The highlighter at the start.
    pub closed spec fn start(self) -> LineHighlighter {
        self.first@
    }

    /// Whether the rows are those of the lines, as far as they have been read,
    /// and the highlighter is as it is after them.
    pub closed spec fn valid(self, syntaxes: &'static SyntaxSet, themes: ThemeSet) -> bool {
        let lines = self.lines.deep_view();
        let source = self.source.deep_view();
        let done = self.gutter@.len() as int;
        &&& syntax::is_start(
            self.first@,
            self.filename@,
            syntaxes,
            themes,
            self.key().scheme,
        )
        &&& self.content@.len() == done
        &&& done <= lines.len()
        &&& self.gutter.deep_view() == gutter_rows(self.first@, lines, source, 0, done)
        &&& self.content.deep_view() == content_rows(self.first@, lines, source, 0, done)
        &&& match self.hl {
            Some(hl) => hl.valid() && (Reading { hl, upto: self.upto }) == reading(
                self.first@,
                lines,
                source,
                done,
            ),
            None => done == lines.len(),
        }
    }

    /// Reads the lines that the diff leaves out before line `num`.
    fn prime_for(hl: &mut LineHighlighter, upto: usize, num: usize, source: &Option<Vec<String>>)
        requires
            old(hl).valid(),
        ensures
            final(hl).valid(),
            *final(hl) == (Reading { hl: *old(hl), upto }).ready(num, source.deep_view()),
    {
        if let Some(src) = source {
            if num > 0 && num - 1 > upto {
                let len: usize = src.len();
                let to: usize = if num - 1 < len {
                    num - 1
                } else {
                    len
                };
                let from: usize = if to > MAX_PRIME_LINES && to - MAX_PRIME_LINES > upto {
                    to - MAX_PRIME_LINES
                } else {
                    upto
                };
                let ghost before = *hl;
                let ghost all = src.deep_view();
                let mut i: usize = from;
                while i < to
                    invariant
                        to <= src@.len(),
                        from <= to ==> from <= i <= to,
                        from > to ==> i == from,
                        all == src.deep_view(),
                        hl.valid(),
                        *hl == primed(before, all, from as int, i as int),
                    decreases to - i,
                {
                    hl.prime(src[i].as_str());
                    assert(all[i as int] == src@[i as int]@);
                    i = i + 1;
                }
            }
        }
    }

    /// Reads on until `target` lines have been read.
    fn extend(
        &mut self,
        target: usize,
        Ghost(syntaxes): Ghost<&'static SyntaxSet>,
        Ghost(themes): Ghost<ThemeSet>,
    )
        requires
            old(self).valid(syntaxes, themes),
            target <= old(self).lines@.len(),
        ensures
            final(self).valid(syntaxes, themes),
            final(self).key() == old(self).key(),
            final(self).start() == old(self).start(),
            final(self).gutter@.len() >= target,
    {
        if self.gutter.len() >= target {
            return;
        }
        let mut hl = match self.hl.take() {
            Some(hl) => hl,
            None => {
                return;
            },
        };
        let ghost first = self.first@;
        let ghost lines = self.lines.deep_view();
        let ghost source = self.source.deep_view();
        let mut gutter: Vec<Line> = Vec::new();
        let mut content: Vec<Line> = Vec::new();
        core::mem::swap(&mut gutter, &mut self.gutter);
        core::mem::swap(&mut content, &mut self.content);
        let mut upto: usize = self.upto;
        let mut i: usize = gutter.len();
        while i < target
            invariant
                i <= target <= self.lines@.len(),
                lines == self.lines.deep_view(),
                source == self.source.deep_view(),
                gutter@.len() == i,
                content@.len() == i,
                gutter.deep_view() == gutter_rows(first, lines, source, 0, i as int),
                content.deep_view() == content_rows(first, lines, source, 0, i as int),
                hl.valid(),
                (Reading { hl, upto }) == reading(first, lines, source, i as int),
            decreases target - i,
        {
            let num: usize = self.lines[i].0;
            let line = self.lines[i].1.as_str();
            let ghost g0 = gutter.deep_view();
            let ghost c0 = content.deep_view();
            assert(lines[i as int] == (num, line@));
            Self::prime_for(&mut hl, upto, num, &self.source);
            let (g, c) = hl.next(num, line);
            gutter.push(g);
            content.push(c);
            proof {
                assert(gutter.deep_view() =~= g0.push(g.deep_view()));
                assert(content.deep_view() =~= c0.push(c.deep_view()));
                assert(gutter_rows(first, lines, source, 0, i + 1) =~= g0.push(
                    gutter_row(first, lines, source, i as int),
                ));
                assert(content_rows(first, lines, source, 0, i + 1) =~= c0.push(
                    content_row(first, lines, source, i as int),
                ));
            }
            if num > upto {
                upto = num;
            }
            i = i + 1;
        }
        self.gutter = gutter;
        self.content = content;
        self.upto = upto;
        if target < self.lines.len() {
            self.hl = Some(hl);
        }
    }

    /// Whether the file is kept under this key.
    fn is_for(
        &self,
        lines: &[LineChange],
        filename: &str,
        theme: &Theme,
        source: Option<&Vec<String>>,
    ) -> (r: bool)
        ensures
            r == (self.key() == cache_key(
                lines.deep_view(),
                filename@,
                theme.deep_view(),
                source.deep_view(),
            )),
    {
        let marks = syntax::marks_of(theme);
        self.is_dark == theme.is_dark && self.marks == marks && *self.filename.as_str() == *filename
            && *self.syntax_theme.as_str() == *theme.syntax_theme.as_str() && same_text(
            &self.source,
            source,
        ) && same_lines(&self.lines, lines)
    }
}

/// What a file is kept under.
pub open spec fn cache_key(
    lines: SideView,
    filename: Seq<char>,
    theme: ThemeView,
    source: Source,
) -> KeyView {
    KeyView { lines, filename, scheme: syntax::scheme(theme), source }
}

/// The highlighted files that are kept: under what, and with which highlighter
/// at the start.
pub type Kept = Seq<(KeyView, LineHighlighter)>;

/// Whether there is a file under `key`.
pub open spec fn knows(kept: Kept, key: KeyView) -> bool {
    exists|i: int| 0 <= i < kept.len() && (#[trigger] kept[i]).0 == key
}

/// What is kept after a new file: where there is no room, the oldest goes.
pub open spec fn with_new(kept: Kept, key: KeyView, first: LineHighlighter) -> Kept {
    if kept.len() >= HIGHLIGHT_CACHE_CAP {
        kept.skip(1).push((key, first))
    } else {
        kept.push((key, first))
    }
}

/// Keeps highlighted files from one frame to the next. A file is read as far
/// as it is shown, so that a long one can be opened at once, and never read
/// again while it is kept.
pub struct HighlightCache {
    syntaxes: &'static SyntaxSet,
    themes: &'static ThemeSet,
    entries: Vec<HighlightEntry>,
    misses: u64,
}

impl HighlightCache {
    /// The syntaxes.
    pub closed spec fn syntaxes(self) -> &'static SyntaxSet {
        self.syntaxes
    }

    /// The themes.
    pub closed spec fn themes(self) -> ThemeSet {
        *self.themes
    }

    /// What is kept.
    pub closed spec fn kept(self) -> Kept {
        self.entries@.map_values(|e: HighlightEntry| (e.key(), e.start()))
    }

    /// How many files were highlighted from the start.
    pub closed spec fn missed(self) -> u64 {
        self.misses
    }

    /// Whether all files that are kept are highlighted as they should be, each
    /// is kept once and there are not too many.
    pub closed spec fn valid(self) -> bool {
        &&& grammar::has_plain_text(*self.syntaxes)
        &&& self.entries@.len() <= HIGHLIGHT_CACHE_CAP
        &&& forall|i: int| #![trigger self.entries@[i]]
            0 <= i < self.entries@.len() ==> self.entries@[i].valid(self.syntaxes, *self.themes)
        &&& forall|i: int, j: int| #![trigger self.entries@[i], self.entries@[j]]
            0 <= i < j < self.entries@.len() ==> self.entries@[i].key() != self.entries@[j].key()
    }

    /// Nothing is kept.
    pub fn new(syntaxes: &'static SyntaxSet, themes: &'static ThemeSet) -> (r: Self)
        requires
            grammar::has_plain_text(*syntaxes),
        ensures
            r.valid(),
            r.syntaxes() == syntaxes,
            r.themes() == *themes,
            r.kept() == Seq::<(KeyView, LineHighlighter)>::empty(),
            r.missed() == 0,
    {
        let r = HighlightCache { syntaxes, themes, entries: Vec::new(), misses: 0 };
        assert(r.kept() =~= Seq::<(KeyView, LineHighlighter)>::empty());
        r
    }

    /// How many files were highlighted from the start.
    pub fn misses(&self) -> (r: u64)
        ensures
            r == self.missed(),
    {
        self.misses
    }
}

impl HighlightCache {
    /// Where the file with this key is kept.
    fn find(
        &self,
        lines: &[LineChange],
        filename: &str,
        theme: &Theme,
        source: Option<&Vec<String>>,
    ) -> (r: Option<usize>)
        ensures
            match r {
                Some(i) => i < self.entries@.len() && self.entries@[i as int].key() == cache_key(
                    lines.deep_view(),
                    filename@,
                    theme.deep_view(),
                    source.deep_view(),
                ),
                None => !knows(
                    self.kept(),
                    cache_key(lines.deep_view(), filename@, theme.deep_view(), source.deep_view()),
                ),
            },
    {
        let ghost key = cache_key(
            lines.deep_view(),
            filename@,
            theme.deep_view(),
            source.deep_view(),
        );
        for i in 0..self.entries.len()
            invariant
                key == cache_key(
                    lines.deep_view(),
                    filename@,
                    theme.deep_view(),
                    source.deep_view(),
                ),
                forall|j: int| 0 <= j < i ==> (#[trigger] self.entries@[j]).key() != key,
        {
            if self.entries[i].is_for(lines, filename, theme, source) {
                return Some(i);
            }
        }
        proof {
            assert forall|j: int| 0 <= j < self.kept().len() implies (
            #[trigger] self.kept()[j]).0 != key by {
                assert(self.kept()[j].0 == self.entries@[j].key());
            }
        }
        None
    }

    /// Starts a new file.
    fn add(
        &mut self,
        lines: &[LineChange],
        filename: &str,
        theme: &Theme,
        source: Option<&Vec<String>>,
    ) -> (r: Ghost<LineHighlighter>)
        requires
            old(self).valid(),
            !knows(
                old(self).kept(),
                cache_key(lines.deep_view(), filename@, theme.deep_view(), source.deep_view()),
            ),
        ensures
            final(self).valid(),
            final(self).syntaxes() == old(self).syntaxes(),
            final(self).themes() == old(self).themes(),
            final(self).missed() == (if old(self).missed() < u64::MAX {
                old(self).missed() + 1
            } else {
                u64::MAX as int
            }),
            final(self).entries@.len() > 0,
            final(self).entries@.last().key() == cache_key(
                lines.deep_view(),
                filename@,
                theme.deep_view(),
                source.deep_view(),
            ),
            final(self).kept() == with_new(
                old(self).kept(),
                cache_key(lines.deep_view(), filename@, theme.deep_view(), source.deep_view()),
                r@,
            ),
    {
        let ghost key = cache_key(
            lines.deep_view(),
            filename@,
            theme.deep_view(),
            source.deep_view(),
        );
        let ghost before = self.entries@;
        let ghost kept = self.kept();
        proof {
            assert forall|j: int| 0 <= j < before.len() implies (#[trigger] before[j]).key()
                != key by {
                assert(kept[j].0 == before[j].key());
            }
        }
        if self.misses < u64::MAX {
            self.misses = self.misses + 1;
        }
        if self.entries.len() >= HIGHLIGHT_CACHE_CAP {
            let _oldest = self.entries.remove(0);
            proof {
                assert(self.entries@ =~= before.skip(1));
            }
        }
        let hl = LineHighlighter::new(filename, self.syntaxes, self.themes, theme);
        let ghost first = hl;
        let entry = HighlightEntry {
            lines: copy_side(lines),
            filename: filename.to_owned(),
            syntax_theme: theme.syntax_theme.clone(),
            is_dark: theme.is_dark,
            marks: syntax::marks_of(theme),
            source: match source {
                Some(s) => Some(text::copy_strings(s.as_slice())),
                None => None,
            },
            hl: Some(hl),
            upto: 0,
            gutter: Vec::new(),
            content: Vec::new(),
            first: Ghost(first),
        };
        proof {
            assert(entry.gutter.deep_view() =~= gutter_rows(
                first,
                entry.lines.deep_view(),
                entry.source.deep_view(),
                0,
                0,
            ));
            assert(entry.content.deep_view() =~= content_rows(
                first,
                entry.lines.deep_view(),
                entry.source.deep_view(),
                0,
                0,
            ));
            assert(entry.valid(self.syntaxes, *self.themes));
            assert(entry.key() == key);
        }
        self.entries.push(entry);
        assert(self.kept() =~= with_new(kept, key, first));
        Ghost(first)
    }

    /// Sees to it that at least `upto` lines of a file have been read, and
    /// says where it is kept.
    fn ensure_upto(
        &mut self,
        lines: &[LineChange],
        filename: &str,
        theme: &Theme,
        upto: usize,
        source: Option<&Vec<String>>,
    ) -> (r: usize)
        requires
            old(self).valid(),
        ensures
            final(self).valid(),
            final(self).syntaxes() == old(self).syntaxes(),
            final(self).themes() == old(self).themes(),
            r < final(self).entries@.len(),
            final(self).entries@[r as int].key() == cache_key(
                lines.deep_view(),
                filename@,
                theme.deep_view(),
                source.deep_view(),
            ),
            final(self).entries@[r as int].gutter@.len() >= at_most(upto as int, lines@.len()),
            remembers(
                *old(self),
                *final(self),
                cache_key(lines.deep_view(), filename@, theme.deep_view(), source.deep_view()),
                final(self).entries@[r as int].start(),
            ),
    {
        let ghost key = cache_key(
            lines.deep_view(),
            filename@,
            theme.deep_view(),
            source.deep_view(),
        );
        let ghost old_kept = self.kept();
        let idx: usize = match self.find(lines, filename, theme, source) {
            Some(i) => {
                proof {
                    assert(old_kept[i as int].0 == key);
                    assert(old_kept.contains((key, self.entries@[i as int].start())));
                }
                i
            },
            None => {
                let first = self.add(lines, filename, theme, source);
                proof {
                    let n = self.kept().len() - 1;
                    assert(self.kept()[n] == (
                        self.entries@[n].key(),
                        self.entries@[n].start(),
                    ));
                }
                self.entries.len() - 1
            },
        };
        let ghost kept = self.kept();
        let ghost entries = self.entries@;
        let len: usize = lines.len();
        let target: usize = if upto < len {
            upto
        } else {
            len
        };
        let mut entry = self.entries.remove(idx);
        assert(entry.lines.deep_view().len() == lines.deep_view().len());
        entry.extend(target, Ghost(self.syntaxes), Ghost(*self.themes));
        self.entries.insert(idx, entry);
        proof {
            assert(self.entries@ =~= entries.update(idx as int, entry));
            assert(self.kept() =~= kept);
        }
        idx
    }

    /// Lines `start` to `start + len` of a file, as far as there are so many,
    /// highlighted: their numbers and marks, and their code. `source` is the
    /// whole text, by which comments and strings are known that were opened
    /// above a hunk. A file that is kept is not started again.
    pub fn window_src(
        &mut self,
        lines: &[LineChange],
        filename: &str,
        theme: &Theme,
        start: usize,
        len: usize,
        source: Option<&Vec<String>>,
    ) -> (r: (Vec<Line>, Vec<Line>))
        requires
            old(self).valid(),
        ensures
            final(self).valid(),
            final(self).syntaxes() == old(self).syntaxes(),
            final(self).themes() == old(self).themes(),
            exists|first: LineHighlighter| #[trigger]
                syntax::is_start(
                    first,
                    filename@,
                    old(self).syntaxes(),
                    old(self).themes(),
                    syntax::scheme(theme.deep_view()),
                ) && remembers(
                    *old(self),
                    *final(self),
                    cache_key(lines.deep_view(), filename@, theme.deep_view(), source.deep_view()),
                    first,
                ) && is_window(
                    (r.0.deep_view(), r.1.deep_view()),
                    first,
                    lines.deep_view(),
                    source.deep_view(),
                    start as int,
                    len as int,
                ),
    {
        let upto: usize = start.saturating_add(len);
        let idx: usize = self.ensure_upto(lines, filename, theme, upto, source);
        let e = &self.entries[idx];
        let done: usize = e.content.len();
        let all: usize = lines.len();
        let total: usize = if done < all {
            done
        } else {
            all
        };
        let from: usize = if start < total {
            start
        } else {
            total
        };
        let to: usize = if upto < total {
            upto
        } else {
            total
        };
        let gutter = copy_rows(&e.gutter, from, to);
        let content = copy_rows(&e.content, from, to);
        proof {
            let first = e.start();
            let side = lines.deep_view();
            let src = source.deep_view();
            assert(e.lines.deep_view() == side);
            assert(from <= to);
            let a = at_most(start as int, side.len());
            let b = at_most(start + len, side.len());
            assert(gutter.deep_view() =~= gutter_rows(first, side, src, a, b));
            assert(content.deep_view() =~= content_rows(first, side, src, a, b));
        }
        (gutter, content)
    }

    /// Lines `start` to `start + len` of a file whose whole text is not known.
    pub fn window(
        &mut self,
        lines: &[LineChange],
        filename: &str,
        theme: &Theme,
        start: usize,
        len: usize,
    ) -> (r: (Vec<Line>, Vec<Line>))
        requires
            old(self).valid(),
        ensures
            final(self).valid(),
            final(self).syntaxes() == old(self).syntaxes(),
            final(self).themes() == old(self).themes(),
            exists|first: LineHighlighter| #[trigger]
                syntax::is_start(
                    first,
                    filename@,
                    old(self).syntaxes(),
                    old(self).themes(),
                    syntax::scheme(theme.deep_view()),
                ) && remembers(
                    *old(self),
                    *final(self),
                    cache_key(lines.deep_view(), filename@, theme.deep_view(), None),
                    first,
                ) && is_window(
                    (r.0.deep_view(), r.1.deep_view()),
                    first,
                    lines.deep_view(),
                    None,
                    start as int,
                    len as int,
                ),
    {
        self.window_src(lines, filename, theme, start, len, None)
    }
}

/// Whether `r` are lines `start` to `start + len`, as far as there are so many,
/// of a diff that is read with `first`.
pub open spec fn is_window(
    r: (Seq<LineView>, Seq<LineView>),
    first: LineHighlighter,
    lines: SideView,
    source: Source,
    start: int,
    len: int,
) -> bool {
    let from = at_most(start, lines.len());
    let to = at_most(start + len, lines.len());
    r.0 == gutter_rows(first, lines, source, from, to) && r.1 == content_rows(
        first,
        lines,
        source,
        from,
        to,
    )
}

/// Where only one syntax may be found for a file, a window of it is that part of
/// one full pass over the file, whatever windows were asked for before and
/// wherever it starts and ends.
pub proof fn law_window_of_full_pass(
    window: (Seq<LineView>, Seq<LineView>),
    first: LineHighlighter,
    start: int,
    len: int,
    whole: (Seq<LineView>, Seq<LineView>),
    other: LineHighlighter,
    lines: SideView,
    source: Source,
    filename: Seq<char>,
    syntaxes: &'static SyntaxSet,
    themes: ThemeSet,
    scheme: Scheme,
)
    requires
        syntax::found_once(*syntaxes, filename),
        0 <= start,
        0 <= len,
        syntax::is_start(first, filename, syntaxes, themes, scheme),
        is_window(window, first, lines, source, start, len),
        syntax::is_start(other, filename, syntaxes, themes, scheme),
        whole.0 == gutter_rows(other, lines, source, 0, lines.len() as int),
        whole.1 == content_rows(other, lines, source, 0, lines.len() as int),
    ensures
        first == other,
        ({
            let from = at_most(start, lines.len());
            let to = at_most(start + len, lines.len());
            window.0 == whole.0.subrange(from, to) && window.1 == whole.1.subrange(from, to)
        }),
{
    syntax::lemma_start_once(first, other, filename, syntaxes, themes, scheme);
    law_window_is_slice(
        first,
        lines,
        source,
        at_most(start, lines.len()),
        at_most(start + len, lines.len()),
    );
}

/// What became of the cache when a file was asked for that is read with
/// `first`. A file that is kept stays as it is; a new one is added.
pub open spec fn remembers(
    before: HighlightCache,
    after: HighlightCache,
    key: KeyView,
    first: LineHighlighter,
) -> bool {
    if knows(before.kept(), key) {
        before.kept().contains((key, first)) && after.kept() == before.kept() && after.missed()
            == before.missed()
    } else {
        after.kept() == with_new(before.kept(), key, first) && after.missed() == (
        if before.missed() < u64::MAX {
            before.missed() + 1
        } else {
            u64::MAX as int
        })
    }
}

/// A file that was asked for is read with the same highlighter when it is asked
/// for again right after, and is not started again.
pub proof fn law_asked_again(
    before: HighlightCache,
    between: HighlightCache,
    after: HighlightCache,
    key: KeyView,
    first: LineHighlighter,
    again: LineHighlighter,
)
    requires
        before.valid(),
        between.valid(),
        remembers(before, between, key, first),
        remembers(between, after, key, again),
    ensures
        again == first,
        after.missed() == between.missed(),
        after.kept() == between.kept(),
{
    let kept = between.kept();
    if !knows(before.kept(), key) {
        assert(kept.last() == (key, first));
        assert(kept[kept.len() - 1].0 == key);
    }
    let i = choose|i: int| 0 <= i < kept.len() && kept[i] == (key, first);
    assert(kept.contains((key, first)));
    assert(kept[i].0 == key);
    assert(knows(kept, key));
    let j = choose|j: int| 0 <= j < kept.len() && kept[j] == (key, again);
    assert(between.entries@[i].key() == key);
    assert(between.entries@[j].key() == key);
    assert(i == j);
}

// ---------------------------------------------------------------------------
// Whole diffs

/// Highlights a diff with this highlighter: the numbers and marks of its lines,
/// and their code.
pub fn highlight_lines_with(start: LineHighlighter, lines: &[LineChange]) -> (r: (
    Vec<Line>,
    Vec<Line>,
))
    requires
        start.valid(),
    ensures
        r.0.deep_view() == gutter_rows(start, lines.deep_view(), None, 0, lines@.len() as int),
        r.1.deep_view() == content_rows(start, lines.deep_view(), None, 0, lines@.len() as int),
{
    let ghost first = start;
    let mut hl = start;
    let ghost side = lines.deep_view();
    let mut gutter: Vec<Line> = Vec::new();
    let mut content: Vec<Line> = Vec::new();
    let mut i: usize = 0;
    let len: usize = lines.len();
    while i < len
        invariant
            i <= len == lines@.len(),
            side == lines.deep_view(),
            gutter.deep_view() == gutter_rows(first, side, None, 0, i as int),
            content.deep_view() == content_rows(first, side, None, 0, i as int),
            hl.valid(),
            hl == reading(first, side, None, i as int).hl,
        decreases len - i,
    {
        let ghost g0 = gutter.deep_view();
        let ghost c0 = content.deep_view();
        assert(side[i as int] == (lines@[i as int].0, lines@[i as int].1@));
        let (g, c) = hl.next(lines[i].0, lines[i].1.as_str());
        gutter.push(g);
        content.push(c);
        proof {
            assert(gutter.deep_view() =~= g0.push(g.deep_view()));
            assert(content.deep_view() =~= c0.push(c.deep_view()));
            assert(gutter_rows(first, side, None, 0, i + 1) =~= g0.push(
                gutter_row(first, side, None, i as int),
            ));
            assert(content_rows(first, side, None, 0, i + 1) =~= c0.push(
                content_row(first, side, None, i as int),
            ));
        }
        i = i + 1;
    }
    (gutter, content)
}

/// Highlights a diff: the numbers and marks of its lines, and their code.
pub fn highlight_line_changes_split(
    lines: &[LineChange],
    filename: &str,
    theme: &Theme,
    syntaxes: &'static SyntaxSet,
    themes: &'static ThemeSet,
) -> (r: (Vec<Line>, Vec<Line>))
    requires
        grammar::has_plain_text(*syntaxes),
    ensures
        exists|first: LineHighlighter| #[trigger]
            syntax::is_start(
                first,
                filename@,
                syntaxes,
                *themes,
                syntax::scheme(theme.deep_view()),
            )
                && r.0.deep_view() == gutter_rows(
                first,
                lines.deep_view(),
                None,
                0,
                lines@.len() as int,
            ) && r.1.deep_view() == content_rows(
                first,
                lines.deep_view(),
                None,
                0,
                lines@.len() as int,
            ),
{
    let first = LineHighlighter::new(filename, syntaxes, themes, theme);
    highlight_lines_with(first, lines)
}

/// Whether there is nothing to be seen on a line.
pub open spec fn unseen(line: LineView) -> bool {
    forall|i: int| 0 <= i < line.len() ==> (#[trigger] line[i]).text.len() == 0
}

/// A line with its number and mark. Where there is nothing to be seen it is
/// blank.
pub open spec fn merged(gutter: LineView, content: LineView) -> LineView {
    if unseen(gutter + content) {
        syntax::blank()
    } else {
        gutter + content
    }
}

/// A line with its number and mark.
fn merge(gutter: Line, content: Line) -> (r: Line)
    ensures
        r.deep_view() == merged(gutter.deep_view(), content.deep_view()),
{
    let line = panels::line_cat(gutter, content);
    for i in 0..line.len()
        invariant
            line.deep_view() == gutter.deep_view() + content.deep_view(),
            forall|j: int| 0 <= j < i ==> (#[trigger] line.deep_view()[j]).text.len() == 0,
    {
        assert(line.deep_view()[i as int] == line@[i as int].deep_view());
        if line[i].text.as_str().unicode_len() > 0 {
            assert(!unseen(line.deep_view()));
            return line;
        }
    }
    assert(unseen(line.deep_view()));
    panels::line1(draw::span("", draw::plain()))
}

/// Highlights a diff, line by line.
pub fn highlight_line_changes(
    lines: &[LineChange],
    filename: &str,
    theme: &Theme,
    syntaxes: &'static SyntaxSet,
    themes: &'static ThemeSet,
) -> (r: Vec<Line>)
    requires
        grammar::has_plain_text(*syntaxes),
    ensures
        exists|first: LineHighlighter| #[trigger]
            syntax::is_start(
                first,
                filename@,
                syntaxes,
                *themes,
                syntax::scheme(theme.deep_view()),
            )
                && r.deep_view() == Seq::new(
                lines@.len(),
                |i: int|
                    merged(
                        gutter_row(first, lines.deep_view(), None, i),
                        content_row(first, lines.deep_view(), None, i),
                    ),
            ),
{
    let (gutter, content) = highlight_line_changes_split(lines, filename, theme, syntaxes, themes);
    let ghost gv = gutter.deep_view();
    let ghost cv = content.deep_view();
    let ghost want = Seq::new(gv.len(), |i: int| merged(gv[i], cv[i]));
    let mut r: Vec<Line> = Vec::new();
    for i in 0..gutter.len()
        invariant
            gv == gutter.deep_view(),
            cv == content.deep_view(),
            gv.len() == cv.len(),
            want == Seq::new(gv.len(), |i: int| merged(gv[i], cv[i])),
            r.deep_view() == want.take(i as int),
    {
        let ghost before = r.deep_view();
        let line = merge(draw::copy_line(&gutter[i]), draw::copy_line(&content[i]));
        r.push(line);
        proof {
            assert(r.deep_view() =~= before.push(want[i as int]));
            assert(want.take(i + 1) =~= before.push(want[i as int]));
        }
    }
    proof {
        assert(want.take(want.len() as int) =~= want);
        let first = choose|first: LineHighlighter| #[trigger]
            syntax::is_start(
                first,
                filename@,
                syntaxes,
                *themes,
                syntax::scheme(theme.deep_view()),
            ) && gv
                == gutter_rows(first, lines.deep_view(), None, 0, lines@.len() as int) && cv
                == content_rows(first, lines.deep_view(), None, 0, lines@.len() as int);
        assert(want =~= Seq::new(
            lines@.len(),
            |i: int|
                merged(
                    gutter_row(first, lines.deep_view(), None, i),
                    content_row(first, lines.deep_view(), None, i),
                ),
        ));
    }
    r
}

/// Two files are kept under one key only where they have the same lines, the same name,
/// the same colours and the same place in the diff.
pub proof fn law_keys_tell_apart(
    a: (SideView, Seq<char>, ThemeView, Source),
    b: (SideView, Seq<char>, ThemeView, Source),
)
    requires
        cache_key(a.0, a.1, a.2, a.3) == cache_key(b.0, b.1, b.2, b.3),
    ensures
        a.0 == b.0,
        a.1 == b.1,
        a.3 == b.3,
        a.2.syntax_theme == b.2.syntax_theme,
        a.2.is_dark == b.2.is_dark,
        a.2.fg_line_num == b.2.fg_line_num,
        a.2.bg_added == b.2.bg_added,
        a.2.bg_removed == b.2.bg_removed,
        a.2.fg_added_marker == b.2.fg_added_marker,
        a.2.fg_removed_marker == b.2.fg_removed_marker,
{
}

/// A new file is kept with the latest three of the others.
pub proof fn law_latest_kept(kept: Kept, key: KeyView, first: LineHighlighter, i: int)
    requires
        kept.len() <= 4,
        0 <= i < kept.len(),
    ensures
        with_new(kept, key, first).len() <= 4,
        with_new(kept, key, first).last() == (key, first),
        i + 3 >= kept.len() ==> with_new(kept, key, first).contains(kept[i]),
{
    let n = with_new(kept, key, first);
    if kept.len() == 4 {
        if i >= 1 {
            assert(n[i - 1] == kept[i]);
        }
    } else {
        assert(n[i] == kept[i]);
    }
}

} // verus!
