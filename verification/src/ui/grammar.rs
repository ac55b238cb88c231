//! The syntaxes and themes by which code is highlighted.
use vstd::prelude::*;
use super::theme::Color;
use syntect::easy::HighlightLines;
use syntect::highlighting::Theme as SyntaxTheme;
use syntect::highlighting::ThemeSet;
use syntect::parsing::{SyntaxReference, SyntaxSet};
use crate::text;

verus! {

/// A set of syntaxes of the `syntect` crate.
#[verifier::external_type_specification]
#[verifier::external_body]
pub struct ExSyntaxSet(syntect::parsing::SyntaxSet);

/// A syntax of the `syntect` crate.
#[verifier::external_type_specification]
#[verifier::external_body]
pub struct ExSyntaxReference(syntect::parsing::SyntaxReference);

/// A set of themes of the `syntect` crate.
#[verifier::external_type_specification]
#[verifier::external_body]
pub struct ExThemeSet(syntect::highlighting::ThemeSet);

/// A theme of the `syntect` crate.
#[verifier::external_type_specification]
#[verifier::external_body]
pub struct ExSyntaxTheme(SyntaxTheme);

/// A highlighter of the `syntect` crate.
#[verifier::external_type_specification]
#[verifier::external_body]
pub struct ExHighlightLines<'a>(syntect::easy::HighlightLines<'a>);

/// The parts of a line, each with its colour.
pub type Parts = Seq<(Color, Seq<char>)>;

/// The text of the parts of a line.
pub open spec fn spelled(parts: Parts) -> Seq<char>
    decreases parts.len(),
{
    if parts.len() == 0 {
        seq![]
    } else {
        spelled(parts.drop_last()) + parts.last().1
    }
}

/// Whether a set has the syntax for plain text that
/// `SyntaxSet::find_syntax_plain_text` looks for.
pub uninterp spec fn has_plain_text(set: SyntaxSet) -> bool;

/// The set that a syntax was found in.
pub uninterp spec fn home(syntax: SyntaxReference) -> SyntaxSet;

/// Whether `found` is what `SyntaxSet::find_syntax_for_file` may find for a file
/// of this name, by what is on disk.
pub uninterp spec fn may_find(
    set: SyntaxSet,
    filename: Seq<char>,
    found: Option<SyntaxReference>,
) -> bool;

/// The syntax that `SyntaxSet::find_syntax_plain_text` finds.
pub uninterp spec fn plain_text(set: SyntaxSet) -> SyntaxReference;

/// The themes of a set, by name.
pub uninterp spec fn themes_in(set: ThemeSet) -> Map<Seq<char>, SyntaxTheme>;

/// The set whose syntax a highlighter was made for.
pub uninterp spec fn made_for(hl: HighlightLines<'static>) -> SyntaxSet;

/// The highlighter that `HighlightLines::new` makes.
pub uninterp spec fn fresh(
    syntax: SyntaxReference,
    theme: SyntaxTheme,
) -> HighlightLines<'static>;

/// What `HighlightLines::highlight_line` gives for a line, and the highlighter
/// after it.
pub uninterp spec fn highlighted(
    hl: HighlightLines<'static>,
    set: SyntaxSet,
    code: Seq<char>,
) -> (Option<Parts>, HighlightLines<'static>);

/// Calls `two_face::syntax::extra_no_newlines`, which loads the syntaxes for
/// lines without their line ends. Plain text is one of them.
#[verifier::external_body]
fn load_syntaxes() -> (r: SyntaxSet)
    ensures
        has_plain_text(r),
{
    two_face::syntax::extra_no_newlines()
}

/// The names of the themes that come with the program.
pub open spec fn bundled_names() -> Set<Seq<char>> {
    set![
        "base16-ocean.dark"@,
        "base16-eighties.dark"@,
        "base16-mocha.dark"@,
        "base16-ocean.light"@,
        "InspiredGitHub"@,
        "Solarized (dark)"@,
        "Solarized (light)"@,
    ]
}

/// Calls `syntect::highlighting::ThemeSet::load_defaults`, which loads seven
/// themes under the names that it documents.
#[verifier::external_body]
fn load_themes() -> (r: ThemeSet)
    ensures
        themes_in(r).dom() == bundled_names(),
{
    ThemeSet::load_defaults()
}

/// A syntax that was found, as a mathematical value.
pub open spec fn found_in(r: Option<&'static SyntaxReference>) -> Option<SyntaxReference> {
    match r {
        Some(s) => Some(*s),
        None => None,
    }
}

/// Calls `SyntaxSet::find_syntax_for_file`, which looks for a syntax by the
/// name and the extension of a file and, where it knows neither, by the first
/// line of the file. What it finds depends on what is on disk: it is one of the
/// syntaxes that may be found for this name, or none, and which one is left
/// unsaid.
#[verifier::external_body]
pub(crate) fn syntax_for_file(set: &'static SyntaxSet, filename: &str) -> (r: Option<
    &'static SyntaxReference,
>)
    ensures
        may_find(*set, filename@, found_in(r)),
        r matches Some(s) ==> home(*s) == *set,
{
    set.find_syntax_for_file(filename).ok().flatten()
}

/// Calls `SyntaxSet::find_syntax_plain_text`, which panics where the set has
/// no such syntax.
#[verifier::external_body]
pub(crate) fn plain_text_syntax(set: &'static SyntaxSet) -> (r: &'static SyntaxReference)
    requires
        has_plain_text(*set),
    ensures
        *r == plain_text(*set),
        home(*r) == *set,
{
    set.find_syntax_plain_text()
}

/// Looks a theme up in `ThemeSet::themes`, which is a map by name.
#[verifier::external_body]
pub(crate) fn theme_named(set: &'static ThemeSet, name: &str) -> (r: Option<
    &'static SyntaxTheme,
>)
    ensures
        match r {
            Some(t) => themes_in(*set).dom().contains(name@) && *t == themes_in(*set)[name@],
            None => !themes_in(*set).dom().contains(name@),
        },
{
    set.themes.get(name)
}

/// Takes the first value of `ThemeSet::themes`, which is ordered by name.
#[verifier::external_body]
pub(crate) fn first_theme(set: &'static ThemeSet) -> (r: Option<&'static SyntaxTheme>)
    ensures
        match r {
            Some(t) => exists|k: Seq<char>| #[trigger]
                is_first(themes_in(*set), k) && *t == themes_in(*set)[k],
            None => themes_in(*set).dom() == Set::<Seq<char>>::empty(),
        },
{
    set.themes.values().next()
}

/// Calls `HighlightLines::new`, which starts at the beginning of a file.
#[verifier::external_body]
pub(crate) fn new_highlighter(
    syntax: &SyntaxReference,
    theme: &'static SyntaxTheme,
) -> (r: HighlightLines<'static>)
    ensures
        r == fresh(*syntax, *theme),
        made_for(r) == home(*syntax),
{
    HighlightLines::new(syntax, theme)
}

/// Calls `HighlightLines::highlight_line`, which reads one more line and
/// divides it into coloured parts, or fails. The set has to be the one that
/// the syntax came from. The parts are slices of the line, one after the other
/// from its start. That they reach its end is left unsaid: the iterator behind
/// them stops where a scope is to be restored that was not cleared.
#[verifier::external_body]
pub(crate) fn highlight_line(
    hl: &mut HighlightLines<'static>,
    set: &SyntaxSet,
    code: &str,
) -> (r: Option<Vec<(Color, String)>>)
    requires
        made_for(*old(hl)) == *set,
    ensures
        r.deep_view() == highlighted(*old(hl), *set, code@).0,
        r.deep_view() matches Some(parts) ==> spelled(parts).is_prefix_of(code@),
        *final(hl) == highlighted(*old(hl), *set, code@).1,
        made_for(*final(hl)) == *set,
{
    let ranges = hl.highlight_line(code, set).ok()?;
    Some(
        ranges.into_iter().map(
            |(style, text)|
                {
                    let c = style.foreground;
                    (Color::Rgb(c.r, c.g, c.b), text.to_owned())
                },
        ).collect(),
    )
}

/// Whether `k` is the first name of a map.
pub open spec fn is_first<V>(m: Map<Seq<char>, V>, k: Seq<char>) -> bool {
    m.dom().contains(k) && forall|j: Seq<char>| #[trigger]
        m.dom().contains(j) ==> !text::before(j, k)
}

/// The theme with the first name, where there is one.
pub open spec fn first_of(m: Map<Seq<char>, SyntaxTheme>) -> Option<SyntaxTheme> {
    if m.dom() == Set::<Seq<char>>::empty() {
        None
    } else {
        Some(m[choose|k: Seq<char>| is_first(m, k)])
    }
}

/// There is one first name.
pub proof fn lemma_first_unique<V>(m: Map<Seq<char>, V>, a: Seq<char>, b: Seq<char>)
    requires
        is_first(m, a),
        is_first(m, b),
    ensures
        a == b,
{
    text::lemma_before_total(a, b);
}

/// The syntaxes and themes that come with the program. Plain text is one of
/// the syntaxes.
pub fn bundled() -> (r: (SyntaxSet, ThemeSet))
    ensures
        has_plain_text(r.0),
        themes_in(r.1).dom() == bundled_names(),
{
    (load_syntaxes(), load_themes())
}

/// Whether there is a theme of this name.
pub fn is_valid_syntax_theme(themes: &'static ThemeSet, name: &str) -> (r: bool)
    ensures
        r == themes_in(*themes).dom().contains(name@),
{
    theme_named(themes, name).is_some()
}

} // verus!
