//! What git is asked and what is made of its answers.
use giff::diff::fetch::{Fetching, FetchStep};
use giff::diff::git::{
    branch_status, count_ahead_behind, current_branch, decode_or_empty, get_commit_log,
    get_upstream_branch, git_repo_root, has_uncommitted_changes, list_remotes, push, Answer,
    GitCommand, GitOutput,
};
use giff::diff::rebase::{
    check_rebase_needed, get_commit_context, perform_rebase, pull_rebase, rebase_advice,
    CheckStep, GatherStep, PullStep, RebaseStep,
};
use giff::diff::{DiffPayload, DiffSource};
use giff::ui::watch::{
    is_ignored_path, poll_timeout, reload_due, triggers_reload, WatchKind, WatchedPath,
};

fn said(stdout: &str) -> Answer {
    Ok(GitOutput { success: true, stdout: stdout.as_bytes().to_vec(), stderr: vec![] })
}

fn failed(stderr: &str) -> Answer {
    Ok(GitOutput { success: false, stdout: vec![], stderr: stderr.as_bytes().to_vec() })
}

fn args(call: &GitCommand) -> String {
    call.args.join(" ")
}

fn next(step: FetchStep) -> (String, Fetching) {
    match step {
        FetchStep::Run(call, state) => (args(&call), state),
        FetchStep::Done(_) => panic!("git should be called"),
    }
}

fn done(step: FetchStep) -> Result<DiffPayload, String> {
    match step {
        FetchStep::Done(r) => r,
        FetchStep::Run(..) => panic!("the diff should be there"),
    }
}

const DIFF: &str = "\
diff --git a/a.rs b/a.rs
--- a/a.rs
+++ b/a.rs
@@ -1 +1 @@
-old
+new
";

#[test]
fn diff_against_a_ref() {
    let (call, state) = next(DiffSource::ToRef("main".to_string()).fetch());
    assert_eq!(call, "diff --no-color main");
    let p = done(state.resume(said(DIFF))).unwrap();
    assert_eq!(p.left_label, "main");
    assert_eq!(p.right_label, "Working Tree");
    assert_eq!(p.files.keys(), vec!["a.rs"]);
}

#[test]
fn failed_diff_gives_the_reason() {
    let (_, state) = next(DiffSource::ToRef("nope".to_string()).fetch());
    let e = done(state.resume(failed("fatal: bad revision"))).err().unwrap();
    assert!(e.contains("fatal: bad revision"));
    let (_, state) = next(DiffSource::ToRef("nope".to_string()).fetch());
    assert_eq!(done(state.resume(Err("no git".to_string()))).err().unwrap(), "no git");
}

#[test]
fn untracked_files_are_part_of_the_working_tree() {
    let (call, state) = next(DiffSource::Uncommitted.fetch());
    assert_eq!(call, "diff --no-color HEAD");
    let (call, state) = next(state.resume(said(DIFF)));
    assert_eq!(call, "rev-parse --show-toplevel");
    let (call, state) = next(state.resume(said("/repo\n")));
    assert_eq!(call, "ls-files --others --exclude-standard");
    let (call, state) = next(state.resume(said("new.txt\n")));
    assert!(call.ends_with("/dev/null new.txt"));
    let untracked = "\
diff --git a/new.txt b/new.txt
new file mode 100644
--- /dev/null
+++ b/new.txt
@@ -0,0 +1 @@
+hello
";
    // git diff --no-index exits with failure where the files differ.
    let reply = Ok(GitOutput {
        success: false,
        stdout: untracked.as_bytes().to_vec(),
        stderr: vec![],
    });
    let p = done(state.resume(reply)).unwrap();
    let mut names = p.files.keys();
    names.sort();
    assert_eq!(names, vec!["a.rs", "new.txt"]);
}

#[test]
fn without_a_commit_the_index_is_compared_with() {
    let (call, state) = next(DiffSource::Uncommitted.fetch_with_context(Some(7)));
    assert_eq!(call, "diff --no-color --unified=7 HEAD");
    let (call, state) = next(state.resume(failed("fatal: ambiguous argument 'HEAD'")));
    assert_eq!(call, "rev-parse --verify --quiet HEAD");
    let (call, state) = next(state.resume(failed("")));
    assert_eq!(call, "diff --no-color --unified=7");
    let (call, state) = next(state.resume(said(DIFF)));
    assert_eq!(call, "rev-parse --show-toplevel");
    let p = done(state.resume(failed(""))).unwrap();
    assert_eq!(p.files.keys(), vec!["a.rs"]);
    // Where there is a commit, the reason is given.
    let (_, state) = next(DiffSource::Uncommitted.fetch());
    let (_, state) = next(state.resume(failed("fatal: bad object")));
    let e = done(state.resume(said("0123456\n"))).err().unwrap();
    assert!(e.contains("fatal: bad object"));
    let (_, state) = next(DiffSource::Uncommitted.fetch());
    assert_eq!(done(state.resume(Err("no git".to_string()))).err().unwrap(), "no git");
}

#[test]
fn branch_is_compared_with_its_fork_point() {
    let (call, state) = next(DiffSource::SinceFork { base: Some("main".to_string()) }.fetch());
    assert_eq!(call, "merge-base main HEAD");
    let (call, state) = next(state.resume(said("0123456789abcdef\n")));
    assert_eq!(call, "diff --no-color 0123456789abcdef");
    let p = done(state.resume(said(DIFF))).unwrap();
    assert_eq!(p.left_label, "main (fork: 01234567)");
}

#[test]
fn base_of_a_branch_is_its_upstream_or_main_or_master() {
    let (call, state) = next(DiffSource::SinceFork { base: None }.fetch());
    assert!(call.contains("@{u}"));
    let (call, state) = next(state.resume(failed("no upstream")));
    assert!(call.contains("main"));
    let (call, state) = next(state.resume(failed("")));
    assert!(call.contains("master"));
    assert!(done(state.resume(failed(""))).is_err());
}

#[test]
fn commit_is_shown_against_its_first_parent() {
    let (call, state) = next(DiffSource::Commit("abc1234".to_string()).fetch_with_context(Some(9)));
    assert_eq!(call, "show --no-color --unified=9 --format= -m --first-parent abc1234");
    let p = done(state.resume(said(DIFF))).unwrap();
    assert!(p.right_label.contains("abc1234"));
}

// answers

#[test]
fn answers_are_trimmed() {
    assert_eq!(current_branch(said("main\n")), Ok("main".to_string()));
    assert_eq!(git_repo_root(said("/repo\n")), Ok("/repo".to_string()));
    assert_eq!(get_upstream_branch(said("origin/main\n")), Ok(Some("origin/main".to_string())));
    assert_eq!(get_upstream_branch(failed("none")), Ok(None));
    assert_eq!(
        list_remotes(said("origin\nfork\n")),
        Ok(vec!["origin".to_string(), "fork".to_string()])
    );
    assert_eq!(has_uncommitted_changes(said(" M a.rs\n")), Ok(true));
    assert_eq!(has_uncommitted_changes(said("")), Ok(false));
    assert_eq!(push(said("")), Ok(()));
    assert!(push(failed("rejected")).err().unwrap().contains("rejected"));
}

#[test]
fn counts_are_read_or_zero() {
    assert_eq!(count_ahead_behind(said("3\t5\n")), (5, 3));
    assert_eq!(count_ahead_behind(said("x y")), (0, 0));
    assert_eq!(count_ahead_behind(failed("")), (0, 0));
}

#[test]
fn branch_status_without_an_upstream_counts_nothing() {
    let s = branch_status(said("topic\n"), failed(""), said("3\t5\n"));
    assert_eq!(s.name, "topic");
    assert_eq!(s.upstream, None);
    assert_eq!((s.ahead, s.behind), (0, 0));
    let s = branch_status(said("topic\n"), said("origin/topic\n"), said("3\t5\n"));
    assert_eq!((s.ahead, s.behind), (5, 3));
}

#[test]
fn log_has_a_hash_and_a_subject_on_each_line() {
    let log = get_commit_log(said("abc1234 fix: x\ndef5678 feat: y z\n")).unwrap();
    assert_eq!(log.len(), 2);
    assert_eq!(log[1].hash, "def5678");
    assert_eq!(log[1].subject, "feat: y z");
    assert!(get_commit_log(failed("not a repository")).is_err());
}

#[test]
fn bytes_that_are_no_text_are_left_out() {
    assert_eq!(decode_or_empty(&[0x61, 0xff]), "");
    assert_eq!(decode_or_empty(b"abc"), "abc");
}

// rebase

#[test]
fn rebase_is_advised_when_behind_or_diverged() {
    assert_eq!(rebase_advice("## main...origin/main", "main", "origin/main"), None);
    let behind = rebase_advice("## main...origin/main [behind 2]", "main", "origin/main").unwrap();
    assert_eq!(behind, "Your branch 'main' is behind 'origin/main'. A rebase is recommended.");
    let both = rebase_advice("## m...o/m [ahead 1, behind 2]", "m", "o/m").unwrap();
    assert_eq!(
        both,
        "Your branch 'm' has diverged from 'o/m'.\nConsider rebasing to integrate changes cleanly."
    );
}

#[test]
fn names_give_no_reason_to_rebase() {
    let status = "## b...u [ahead 1]\n?? behind.txt\n M [behind\n";
    assert_eq!(rebase_advice(status, "b", "u"), None);
    let status = "## look-ahead...o/look-ahead [behind 3]\n?? ahead.txt\n";
    let advice = rebase_advice(status, "look-ahead", "o/look-ahead").unwrap();
    assert!(advice.contains("is behind"));
    assert_eq!(rebase_advice("## behind...o/ahead\n?? [behind 1]\n", "behind", "o/ahead"), None);
    assert_eq!(rebase_advice("## b...u [gone]\n", "b", "u"), None);
    assert_eq!(rebase_advice("", "b", "u"), None);
}

#[test]
fn rebase_is_not_checked_outside_of_a_repository() {
    match check_rebase_needed() {
        CheckStep::Run(_, state) => match state.resume(failed("not a repository")) {
            CheckStep::Done(r) => assert_eq!(r, Ok(None)),
            CheckStep::Run(..) => panic!("there is nothing to be checked"),
        },
        CheckStep::Done(_) => panic!("git should be called"),
    }
}

#[test]
fn failed_rebase_is_rolled_back() {
    let RebaseStep::Run(_, state) = perform_rebase("origin/main") else {
        panic!("git should be called")
    };
    let RebaseStep::Run(call, state) = state.resume(said("")) else {
        panic!("the rebase should be called for")
    };
    assert_eq!(args(&call), "rebase origin/main");
    let RebaseStep::Run(call, state) = state.resume(failed("CONFLICT")) else {
        panic!("the rebase should be rolled back")
    };
    assert_eq!(args(&call), "rebase --abort");
    match state.resume(said("")) {
        RebaseStep::Done(r) => assert_eq!(r, Ok(false)),
        RebaseStep::Run(..) => panic!("the rebase is over"),
    }
}

#[test]
fn failed_pull_is_rolled_back_and_explained() {
    let PullStep::Run(call, state) = pull_rebase() else { panic!("git should be called") };
    assert_eq!(args(&call), "pull --rebase");
    let PullStep::Run(call, state) = state.resume(failed("CONFLICT in a.rs")) else {
        panic!("the pull should be rolled back")
    };
    assert_eq!(args(&call), "rebase --abort");
    match state.resume(said("")) {
        PullStep::Done(r) => assert!(r.err().unwrap().contains("CONFLICT in a.rs")),
        PullStep::Run(..) => panic!("the pull is over"),
    }
}

#[test]
fn commit_context_starts_with_the_last_commits() {
    let GatherStep::Run(_, state) = get_commit_context() else { panic!("git should be called") };
    let GatherStep::Run(_, state) = state.resume(said("fix: x\n")) else {
        panic!("the diff should be asked for")
    };
    let GatherStep::Run(_, state) = state.resume(said(DIFF)) else {
        panic!("the untracked files should be asked for")
    };
    match state.resume(failed("")) {
        GatherStep::Done(r) => {
            let text = r.unwrap();
            assert!(text.find("fix: x").unwrap() < text.find("+new").unwrap());
        }
        GatherStep::Run(..) => panic!("without a root there are no untracked files"),
    }
}

// watching

fn watched(name: &str, relative: &str) -> WatchedPath {
    WatchedPath { name: Some(name.to_string()), relative: Some(relative.to_string()) }
}

#[test]
fn files_of_git_are_ignored() {
    assert!(is_ignored_path(&watched("index.lock", ".git/index.lock")));
    assert!(is_ignored_path(&watched("ab", ".git/objects/12/ab")));
    assert!(is_ignored_path(&watched("FETCH_HEAD", ".git/FETCH_HEAD")));
    assert!(!is_ignored_path(&watched("index", ".git/index")));
    assert!(!is_ignored_path(&watched("main.rs", "src/main.rs")));
}

#[test]
fn one_file_that_matters_is_enough() {
    let paths = vec![watched("ab", ".git/objects/12/ab"), watched("main.rs", "src/main.rs")];
    assert!(triggers_reload(WatchKind::Modify, &paths));
    assert!(!triggers_reload(WatchKind::Other, &paths));
    assert!(!triggers_reload(WatchKind::Create, &vec![watched("x.lock", "x.lock")]));
}

#[test]
fn reload_waits_until_files_are_at_rest() {
    assert!(!reload_due(None));
    assert!(!reload_due(Some(149)));
    assert!(reload_due(Some(150)));
    assert_eq!(poll_timeout(None), 250);
    assert_eq!(poll_timeout(Some(100)), 50);
    assert_eq!(poll_timeout(Some(900)), 0);
}
