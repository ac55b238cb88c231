//! Commit messages.
use giff::commit::{clean_message, generate_commit_message, generator_args, spawn_failure};
use giff::diff::git::GitOutput;

#[test]
fn clean_message_passes_through_plain_text() {
    let msg = "feat(ui): add commit shortcut\n\nBody here.";
    assert_eq!(clean_message(msg), msg);
}

#[test]
fn clean_message_trims_surrounding_whitespace() {
    assert_eq!(clean_message("  \n\nfeat: x\n\n  "), "feat: x");
}

#[test]
fn clean_message_strips_code_fences() {
    let fenced = "```\nfeat: x\n\nBody.\n```";
    assert_eq!(clean_message(fenced), "feat: x\n\nBody.");
}

#[test]
fn clean_message_strips_labelled_code_fences() {
    let fenced = "```text\nfeat: x\n```";
    assert_eq!(clean_message(fenced), "feat: x");
}

fn output(success: bool, stdout: &str, stderr: &str) -> GitOutput {
    GitOutput {
        success,
        stdout: stdout.as_bytes().to_vec(),
        stderr: stderr.as_bytes().to_vec(),
    }
}

#[test]
fn generated_message_is_cleaned() {
    let reply = Ok(output(true, "```\nfix: y\n```\n", ""));
    assert_eq!(generate_commit_message("writer", reply), Ok("fix: y".to_string()));
}

#[test]
fn generator_that_fails_gives_its_errors() {
    let reply = Ok(output(false, "printed", " not logged in \n"));
    assert_eq!(
        generate_commit_message("writer", reply),
        Err("writer exited with error: not logged in".to_string())
    );
}

#[test]
fn generator_that_fails_silently_gives_what_it_printed() {
    let reply = Ok(output(false, "printed\n", "  "));
    assert_eq!(
        generate_commit_message("writer", reply),
        Err("writer exited with error: printed".to_string())
    );
}

#[test]
fn empty_message_is_an_error() {
    let reply = Ok(output(true, "```\n\n```", ""));
    assert_eq!(
        generate_commit_message("writer", reply),
        Err("writer returned an empty commit message".to_string())
    );
}

#[test]
fn generator_that_cannot_be_run_gives_the_reason() {
    let reply = Err("no pipe".to_string());
    assert_eq!(generate_commit_message("writer", reply), Err("no pipe".to_string()));
    assert_eq!(
        spawn_failure("writer", "not found"),
        "Failed to spawn `writer` CLI: not found. Is it installed and on PATH?"
    );
}

#[test]
fn broken_utf8_of_the_generator_is_replaced() {
    let reply = Ok(GitOutput { success: true, stdout: vec![0x66, 0xff, 0x78], stderr: vec![] });
    assert_eq!(generate_commit_message("writer", reply), Ok("f\u{fffd}x".to_string()));
}

#[test]
fn generator_is_asked_to_print_text() {
    let args = generator_args();
    assert_eq!(args.len(), 7);
    assert_eq!(args[0], "-p");
    assert_eq!(args[2], "haiku");
    assert!(args[4].starts_with("You generate git commit messages"));
    assert_eq!(args[6], "text");
}
