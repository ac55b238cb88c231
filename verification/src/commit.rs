//! Commit messages that a program writes.
use vstd::prelude::*;
use crate::diff::git;
use crate::diff::git::{Answer, AnswerView};
use crate::text;

verus! {

/// What the program is told about commit messages.
pub const SYSTEM_PROMPT: &'static str = "You generate git commit messages in Conventional Commits format.\n\nThe user will paste recent commit subjects (for style reference) and the unified diff to be committed.\nOutput ONLY the commit message text \u{2014} no preamble, no markdown code fences, no quotes, no explanation.\n\nFormat:\n<type>(<scope>): <subject>\n\n[optional body]\n\nRules:\n- Type: feat | fix | docs | style | refactor | perf | test | build | ci | chore | revert\n- Scope: derive from the dominant changed path (e.g. `feat(auth):`, `fix(api):`). Omit scope when changes span many unrelated areas.\n- Subject: imperative mood (\"add\" not \"added\"), lowercase first letter, no trailing period, <= 100 chars.\n- Body: OPTIONAL. Wrap at ~72 chars. Explain WHY/HOW, not WHAT. Skip the body entirely for trivial changes (typos, dep bumps, renames).\n- Language: match the language used in the recent commits provided. Default to English.\n- Breaking change footer: `BREAKING CHANGE: <description>`\n\nOutput ONLY the commit message text.";

/// The arguments with which the program is called.
pub open spec fn generator_call() -> Seq<Seq<char>> {
    seq![
        "-p"@,
        "--model"@,
        "haiku"@,
        "--system-prompt"@,
        SYSTEM_PROMPT@,
        "--output-format"@,
        "text"@,
    ]
}

/// The arguments with which the program is called.
pub fn generator_args() -> (r: Vec<String>)
    ensures
        r.deep_view() == generator_call(),
{
    let r = git::words(
        &["-p", "--model", "haiku", "--system-prompt", SYSTEM_PROMPT, "--output-format", "text"],
    );
    assert(r.deep_view() =~= generator_call());
    r
}

/// What follows the first line of `s`.
pub open spec fn after_first_line(s: Seq<char>) -> Seq<char> {
    let n = text::find_char(s, '\n') as int;
    if n < s.len() {
        s.skip(n + 1)
    } else {
        ""@
    }
}

/// What stands before the last fence of `s`, or the whole of it.
pub open spec fn before_last_fence(s: Seq<char>) -> Seq<char> {
    match text::rfind(s, "```"@, s.len() as int) {
        Some(i) => s.take(i),
        None => s,
    }
}

/// A message without the code fence and the white space around it.
pub open spec fn cleaned(s: Seq<char>) -> Seq<char> {
    let t = text::trim(s);
    if "```"@.is_prefix_of(t) {
        text::trim(before_last_fence(after_first_line(t)))
    } else {
        t
    }
}

/// What follows the first line of `s`.
fn skip_first_line(s: &str) -> (r: String)
    ensures
        r@ == after_first_line(s@),
{
    let cs = text::chars_of(s);
    let mut n: usize = 0;
    while n < cs.len() && cs[n] != '\n'
        invariant
            n <= cs@.len(),
            forall|j: int| 0 <= j < n ==> #[trigger] cs@[j] != '\n',
        decreases cs@.len() - n,
    {
        n = n + 1;
    }
    proof {
        text::lemma_find_char(cs@, '\n', n as int);
    }
    if n < cs.len() {
        assert(cs@.subrange(n + 1, cs@.len() as int) =~= s@.skip(n + 1));
        text::string_between(&cs, n + 1, cs.len())
    } else {
        "".to_owned()
    }
}

/// What stands before the last fence of `s`, or the whole of it.
fn cut_last_fence(s: String) -> (r: String)
    ensures
        r@ == before_last_fence(s@),
{
    let cs = text::chars_of(s.as_str());
    match text::rfind_in(&cs, "```") {
        Some(i) => {
            assert(cs@.subrange(0, i as int) =~= s@.take(i as int));
            text::string_between(&cs, 0, i)
        },
        None => s,
    }
}

/// A message without the code fence and the white space around it.
pub fn clean_message(s: &str) -> (r: String)
    ensures
        r@ == cleaned(s@),
{
    let t = text::trimmed(s);
    if text::starts_with(t.as_str(), "```") {
        let body = cut_last_fence(skip_first_line(t.as_str()));
        text::trimmed(body.as_str())
    } else {
        t
    }
}

/// The message in what the program left behind. Where it failed, its errors
/// are the reason, or else what it printed.
pub open spec fn message_in(program: Seq<char>, a: AnswerView) -> Result<Seq<char>, Seq<char>> {
    match a {
        Ok(out) => if !out.success {
            let errors = git::trimmed_text(out.stderr);
            Err(
                program + " exited with error: "@ + if errors.len() > 0 {
                    errors
                } else {
                    git::trimmed_text(out.stdout)
                },
            )
        } else if cleaned(git::lossy(out.stdout)).len() == 0 {
            Err(program + " returned an empty commit message"@)
        } else {
            Ok(cleaned(git::lossy(out.stdout)))
        },
        Err(e) => Err(e),
    }
}

/// The message in what the program left behind.
pub fn generate_commit_message(program: &str, reply: Answer) -> (r: Result<String, String>)
    ensures
        git::returned(r) == message_in(program@, git::answer(reply)),
{
    let out = match reply {
        Ok(out) => out,
        Err(e) => return Err(e),
    };
    if !out.success {
        let errors = git::trim_text(&out.stderr);
        let why = if errors.as_str().unicode_len() > 0 {
            errors
        } else {
            git::trim_text(&out.stdout)
        };
        return Err(text::cat3(program, " exited with error: ", why.as_str()));
    }
    let printed = git::from_utf8_lossy(&out.stdout);
    let message = clean_message(printed.as_str());
    if message.as_str().unicode_len() == 0 {
        return Err(text::cat2(program, " returned an empty commit message"));
    }
    Ok(message)
}

/// What is said where the program could not be started.
pub fn spawn_failure(program: &str, error: &str) -> (r: String)
    ensures
        r@ == "Failed to spawn `"@ + program@ + "` CLI: "@ + error@
            + ". Is it installed and on PATH?"@,
{
    text::cat5("Failed to spawn `", program, "` CLI: ", error, ". Is it installed and on PATH?")
}

/// A message that has nothing around it stays as it is.
pub proof fn law_clean_message_keeps(s: Seq<char>)
    requires
        text::trim(s) == s,
        !("```"@.is_prefix_of(s)),
    ensures
        cleaned(s) == s,
{
}

} // verus!
