use cratepro::git::{
    checkout_args, chdir_failure_prefix, clean_args, clone_args, clone_result, clone_url,
    head_branches, init_steps, is_shallow_output, pull_args, recent_log_args, remote_show_args,
    reset_args, shallow_query_args, GitError, RepoUpdate, RunOutcome, UpdateAction,
};

const QUIET: [&str; 8] = [
    "-c",
    "credential.helper=reject",
    "-c",
    "http.lowSpeedLimit=1000",
    "-c",
    "http.lowSpeedTime=10",
    "-c",
    "core.askpass=echo",
];

#[test]
fn clone_url_names_the_github_repository() {
    assert_eq!(clone_url("rust-lang", "cargo"), "https://github.com/rust-lang/cargo.git");
}

#[test]
fn clone_arguments() {
    let full = clone_args("o", "r", "/tmp/o/r", false);
    assert_eq!(
        full,
        vec![
            "clone",
            "--no-checkout",
            "--config",
            "credential.helper=reject",
            "--config",
            "http.lowSpeedLimit=1000",
            "--config",
            "http.lowSpeedTime=10",
            "--config",
            "core.askpass=echo",
            "https://github.com/o/r.git",
            "/tmp/o/r",
        ]
    );
    let partial = clone_args("o", "r", "/tmp/o/r", true);
    assert_eq!(partial.len(), 13);
    assert_eq!(&partial[..12], &full[..]);
    assert_eq!(partial[12], "--filter=blob:none");
}

#[test]
fn clone_outcomes() {
    assert_eq!(clone_result(RunOutcome::Exited { success: true }), Ok(()));
    assert_eq!(clone_result(RunOutcome::Exited { success: false }), Err(GitError::CloneFailed));
    assert_eq!(
        clone_result(RunOutcome::NotRun("no git".to_string())),
        Err(GitError::Io("no git".to_string()))
    );
}

#[test]
fn fixed_argument_lists() {
    assert_eq!(reset_args(), vec!["reset", "--hard", "HEAD"]);
    assert_eq!(clean_args(), vec!["clean", "-fd"]);
    let mut pull: Vec<&str> = QUIET.to_vec();
    pull.extend(["pull", "--rebase"]);
    assert_eq!(pull_args(), pull);
    let mut checkout: Vec<&str> = QUIET.to_vec();
    checkout.extend(["checkout", "main"]);
    assert_eq!(checkout_args("main"), checkout);
    assert_eq!(shallow_query_args(), vec!["rev-parse", "--is-shallow-repository"]);
    assert_eq!(remote_show_args(), vec!["remote", "show", "origin"]);
    assert_eq!(recent_log_args(), vec!["log", "--since=3.months", "--pretty=format:%ct"]);
}

#[test]
fn shallow_flag_is_read_trimmed() {
    assert!(is_shallow_output("true\n"));
    assert!(is_shallow_output("  true "));
    assert!(!is_shallow_output("false\n"));
    assert!(!is_shallow_output("True"));
    assert!(!is_shallow_output(""));
}

#[test]
fn head_branch_lines_are_picked() {
    let out = "* remote origin\n  Fetch URL: https://github.com/o/r.git\n  HEAD branch: main\n  Remote branches:\n";
    assert_eq!(head_branches(out), vec!["main"]);
    assert_eq!(head_branches("HEAD branch:dev:x\nHEAD branch:  \n"), vec!["dev", ""]);
    assert!(head_branches("no branch here\n  HEAD  branch: x\n").is_empty());
    assert!(head_branches("").is_empty());
}

fn run(update: &mut RepoUpdate, outcomes: &[Result<bool, GitError>]) -> Vec<String> {
    let mut trace = Vec::new();
    for o in outcomes {
        let action = update.step(o.clone_outcome());
        trace.push(match action {
            UpdateAction::RunGit(a) => a.join(" "),
            UpdateAction::RemoveCheckout => "remove".to_string(),
            UpdateAction::CloneAgain => "clone".to_string(),
            UpdateAction::Finish(Ok(())) => "ok".to_string(),
            UpdateAction::Finish(Err(e)) => format!("err {:?}", e),
        });
    }
    trace
}

trait CloneOutcome {
    fn clone_outcome(&self) -> Result<bool, GitError>;
}

impl CloneOutcome for Result<bool, GitError> {
    fn clone_outcome(&self) -> Result<bool, GitError> {
        match self {
            Ok(b) => Ok(*b),
            Err(GitError::CloneFailed) => Err(GitError::CloneFailed),
            Err(GitError::Io(m)) => Err(GitError::Io(m.clone())),
        }
    }
}

#[test]
fn update_pulls_after_reset_and_clean() {
    let (mut u, first) = RepoUpdate::start();
    match first {
        UpdateAction::RunGit(a) => assert_eq!(a, vec!["reset", "--hard", "HEAD"]),
        _ => panic!("update must start with a reset"),
    }
    let trace = run(&mut u, &[Ok(false), Ok(true), Ok(true)]);
    assert_eq!(trace[0], "clean -fd");
    assert!(trace[1].ends_with("pull --rebase"));
    assert_eq!(trace[2], "ok");
    assert!(u.is_finished());
}

#[test]
fn update_reclones_after_failed_pull() {
    let (mut u, _) = RepoUpdate::start();
    let trace = run(&mut u, &[Ok(true), Ok(true), Ok(false), Ok(true), Ok(true)]);
    assert_eq!(&trace[2..], &["remove", "clone", "ok"]);
    let (mut u, _) = RepoUpdate::start();
    let trace = run(&mut u, &[Ok(true), Ok(true), Ok(false), Ok(true), Err(GitError::CloneFailed)]);
    assert_eq!(trace[4], "err CloneFailed");
}

#[test]
fn update_stops_on_the_first_error() {
    let (mut u, _) = RepoUpdate::start();
    let trace = run(&mut u, &[Err(GitError::Io("spawn".to_string()))]);
    assert_eq!(trace, vec!["err Io(\"spawn\")"]);
    assert!(u.is_finished());
}

#[test]
fn init_commands() {
    let steps = init_steps();
    assert_eq!(steps.len(), 3);
    assert_eq!(steps[0].args, vec!["init"]);
    assert_eq!(steps[1].args, vec!["add", "."]);
    assert_eq!(steps[2].args, vec!["commit", "-m", "first commit"]);
    assert_eq!(steps[0].exit_failure_prefix, "git init failed: ");
    assert_eq!(steps[2].spawn_failure, "Failed to execute git commit");
    assert_eq!(chdir_failure_prefix(), "Failed to change directory: ");
}
