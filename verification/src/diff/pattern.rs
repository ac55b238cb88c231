//! The regular expressions of a diff's lines.
use vstd::prelude::*;
use regex::Regex;

verus! {

/// The line that starts a file's section.
pub const FILE_PATTERN: &'static str = "^diff --git a/(.+) b/(.+)$";

/// A compiled regular expression of the `regex` crate.
#[verifier::external_type_specification]
#[verifier::external_body]
pub struct ExRegex(regex::Regex);

/// An error of the `regex` crate.
#[verifier::external_type_specification]
#[verifier::external_body]
pub struct ExRegexError(regex::Error);

/// The groups of a match, in order. A group that took no part is `None`.
pub type Groups = Vec<Option<String>>;

/// The groups of a match, as a mathematical value.
pub type GroupsView = Seq<Option<Seq<char>>>;

/// The pattern of which `regex::Regex::new` made `re`, where it did.
pub uninterp spec fn compiled_from(re: Regex) -> Option<Seq<char>>;

/// Whether `regex::Regex::new` accepts `pattern`.
pub uninterp spec fn compiles(pattern: Seq<char>) -> bool;

/// The groups of the first match of `pattern` in `text`, as
/// `regex::Regex::captures` finds it.
pub uninterp spec fn first_match(pattern: Seq<char>, text: Seq<char>) -> Option<GroupsView>;

/// `text` with every match of `pattern` replaced, as
/// `regex::Regex::replace_all` does it.
pub uninterp spec fn replaced(pattern: Seq<char>, text: Seq<char>, with: Seq<char>) -> Seq<char>;

/// Calls `regex::Regex::new`, which compiles a pattern or says that it is not
/// one.
#[verifier::external_body]
pub(crate) fn compile(pattern: &str) -> (r: Result<Regex, regex::Error>)
    ensures
        match r {
            Ok(re) => compiles(pattern@) && compiled_from(re) == Some(pattern@),
            Err(_) => !compiles(pattern@),
        },
{
    Regex::new(pattern)
}

/// Whether the groups of a file header are there: the whole match and two paths,
/// neither of which is empty.
pub open spec fn has_paths(groups: GroupsView) -> bool {
    &&& groups.len() == 3
    &&& groups[1] matches Some(old_path) && old_path.len() > 0
    &&& groups[2] matches Some(new_path) && new_path.len() > 0
}

/// Calls `regex::Regex::captures`, which finds the first match and its groups.
/// What is found depends on the pattern and the text alone. The two groups
/// `(.+)` of a file header stand outside of any repetition or alternative, so
/// both take part in every match, with one character or more.
#[verifier::external_body]
pub(crate) fn captures(re: &Regex, text: &str) -> (r: Option<Groups>)
    requires
        compiled_from(*re) is Some,
    ensures
        r.deep_view() == first_match(compiled_from(*re)->0, text@),
        compiled_from(*re) == Some(FILE_PATTERN@) ==> (r.deep_view() matches Some(groups)
            ==> has_paths(groups)),
{
    re.captures(text).map(
        |c| c.iter().map(|group| group.map(|m| m.as_str().to_owned())).collect(),
    )
}

/// Calls `regex::Regex::replace_all`, which replaces every match.
#[verifier::external_body]
pub(crate) fn replace_all(re: &Regex, text: &str, with: &str) -> (r: String)
    requires
        compiled_from(*re) is Some,
    ensures
        r@ == replaced(compiled_from(*re)->0, text@, with@),
{
    re.replace_all(text, with).into_owned()
}

} // verus!
