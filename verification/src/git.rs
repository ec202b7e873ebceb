//! The git invocations that keep local clones of GitHub repositories: their
//! argument lists, what their outcomes mean, the steps of an update, and what
//! is read from their output.

use vstd::prelude::*;

use crate::text::{chars_of, copy_range, find_char, find_char_from, line_at, line_bounds, lines,
    lines_from, push_str, range_equals, string_from_chars, trim, trim_bounds, trim_start,
    trim_start_bound, views, is_white_space, lemma_find_char_bounds, lemma_line_end_bounds,
};

verus! {

/// Why a git step failed.
#[derive(Debug, PartialEq, Eq)]
pub enum GitError {
    /// `git clone` ran and exited unsuccessfully.
    CloneFailed,
    /// A command could not be run, or a file-system step failed; the message
    /// is the error's.
    Io(String),
}

/// The URL of the GitHub repository `owner/repo`.
pub open spec fn clone_url_spec(owner: Seq<char>, repo: Seq<char>) -> Seq<char> {
    "https://github.com/"@ + owner + "/"@ + repo + ".git"@
}

/// `https://github.com/{owner}/{repo}.git`.
pub fn clone_url(owner: &str, repo: &str) -> (r: String)
    ensures
        r@ == clone_url_spec(owner@, repo@),
{
    let r = String::from_str("https://github.com/");
    let r = r.concat(owner);
    let r = r.concat("/");
    let r = r.concat(repo);
    r.concat(".git")
}

/// The arguments of `git clone` into `path`: no checkout, credential prompts
/// refused, a low-speed limit of 1000 bytes/s for 10 s, and with
/// `partial_clone` a blob-less partial clone.
pub open spec fn clone_args_spec(url: Seq<char>, path: Seq<char>, partial_clone: bool) -> Seq<
    Seq<char>,
> {
    let base = seq![
        "clone"@,
        "--no-checkout"@,
        "--config"@,
        "credential.helper=reject"@,
        "--config"@,
        "http.lowSpeedLimit=1000"@,
        "--config"@,
        "http.lowSpeedTime=10"@,
        "--config"@,
        "core.askpass=echo"@,
        url,
        path,
    ];
    if partial_clone {
        base.push("--filter=blob:none"@)
    } else {
        base
    }
}

/// The arguments of the `git clone` of `owner/repo` into `path`.
pub fn clone_args(owner: &str, repo: &str, path: &str, partial_clone: bool) -> (r: Vec<String>)
    ensures
        views(r@) == clone_args_spec(clone_url_spec(owner@, repo@), path@, partial_clone),
        views(r@).len() == (if partial_clone {
            13int
        } else {
            12int
        }),
        views(r@)[0] == "clone"@,
        views(r@)[10] == "https://github.com/"@ + owner@ + "/"@ + repo@ + ".git"@,
        views(r@)[11] == path@,
        partial_clone ==> views(r@)[12] == "--filter=blob:none"@,
{
    let url = clone_url(owner, repo);
    let mut r: Vec<String> = Vec::new();
    push_str(&mut r, "clone");
    push_str(&mut r, "--no-checkout");
    push_str(&mut r, "--config");
    push_str(&mut r, "credential.helper=reject");
    push_str(&mut r, "--config");
    push_str(&mut r, "http.lowSpeedLimit=1000");
    push_str(&mut r, "--config");
    push_str(&mut r, "http.lowSpeedTime=10");
    push_str(&mut r, "--config");
    push_str(&mut r, "core.askpass=echo");
    push_str(&mut r, url.as_str());
    push_str(&mut r, path);
    if partial_clone {
        push_str(&mut r, "--filter=blob:none");
    }
    assert(views(r@) =~= clone_args_spec(clone_url_spec(owner@, repo@), path@, partial_clone));
    r
}

/// How a command run ended: it exited (successfully or not), or it could
/// not be run, with the error's message.
#[derive(Debug, PartialEq, Eq)]
pub enum RunOutcome {
    Exited { success: bool },
    NotRun(String),
}

/// The result of a clone from the end of its `git clone` run: an unsuccessful
/// exit is `CloneFailed`, a run that could not start is that `Io` error.
pub fn clone_result(outcome: RunOutcome) -> (r: Result<(), GitError>)
    ensures
        r == (match outcome {
            RunOutcome::Exited { success: true } => Ok(()),
            RunOutcome::Exited { success: false } => Err(GitError::CloneFailed),
            RunOutcome::NotRun(msg) => Err(GitError::Io(msg)),
        }),
{
    match outcome {
        RunOutcome::Exited { success } => if success {
            Ok(())
        } else {
            Err(GitError::CloneFailed)
        },
        RunOutcome::NotRun(msg) => Err(GitError::Io(msg)),
    }
}

/// The `-c` options that every networked git command here carries.
pub open spec fn quiet_network_config() -> Seq<Seq<char>> {
    seq![
        "-c"@,
        "credential.helper=reject"@,
        "-c"@,
        "http.lowSpeedLimit=1000"@,
        "-c"@,
        "http.lowSpeedTime=10"@,
        "-c"@,
        "core.askpass=echo"@,
    ]
}

fn push_quiet_network_config(v: &mut Vec<String>)
    ensures
        views(final(v)@) == views(old(v)@) + quiet_network_config(),
{
    push_str(v, "-c");
    push_str(v, "credential.helper=reject");
    push_str(v, "-c");
    push_str(v, "http.lowSpeedLimit=1000");
    push_str(v, "-c");
    push_str(v, "http.lowSpeedTime=10");
    push_str(v, "-c");
    push_str(v, "core.askpass=echo");
    assert(views(v@) =~= views(old(v)@) + quiet_network_config());
}

/// `git reset --hard HEAD`.
pub open spec fn reset_args_spec() -> Seq<Seq<char>> {
    seq!["reset"@, "--hard"@, "HEAD"@]
}

/// `git clean -fd`.
pub open spec fn clean_args_spec() -> Seq<Seq<char>> {
    seq!["clean"@, "-fd"@]
}

/// `git pull --rebase` with the quiet network options.
pub open spec fn pull_args_spec() -> Seq<Seq<char>> {
    quiet_network_config() + seq!["pull"@, "--rebase"@]
}

/// `git checkout {branch}` with the quiet network options.
pub open spec fn checkout_args_spec(branch: Seq<char>) -> Seq<Seq<char>> {
    quiet_network_config() + seq!["checkout"@, branch]
}

/// The arguments of `git reset --hard HEAD`.
pub fn reset_args() -> (r: Vec<String>)
    ensures
        views(r@) == reset_args_spec(),
{
    let mut r: Vec<String> = Vec::new();
    push_str(&mut r, "reset");
    push_str(&mut r, "--hard");
    push_str(&mut r, "HEAD");
    assert(views(r@) =~= reset_args_spec());
    r
}

/// The arguments of `git clean -fd`.
pub fn clean_args() -> (r: Vec<String>)
    ensures
        views(r@) == clean_args_spec(),
{
    let mut r: Vec<String> = Vec::new();
    push_str(&mut r, "clean");
    push_str(&mut r, "-fd");
    assert(views(r@) =~= clean_args_spec());
    r
}

/// The arguments of the rebasing pull.
pub fn pull_args() -> (r: Vec<String>)
    ensures
        views(r@) == pull_args_spec(),
{
    let mut r: Vec<String> = Vec::new();
    push_quiet_network_config(&mut r);
    push_str(&mut r, "pull");
    push_str(&mut r, "--rebase");
    assert(views(r@) =~= pull_args_spec());
    r
}

/// The arguments of the checkout of `branch`.
pub fn checkout_args(branch: &str) -> (r: Vec<String>)
    ensures
        views(r@) == checkout_args_spec(branch@),
{
    let mut r: Vec<String> = Vec::new();
    push_quiet_network_config(&mut r);
    push_str(&mut r, "checkout");
    push_str(&mut r, branch);
    assert(views(r@) =~= checkout_args_spec(branch@));
    r
}

/// The arguments of `git rev-parse --is-shallow-repository`.
pub fn shallow_query_args() -> (r: Vec<String>)
    ensures
        views(r@) == seq!["rev-parse"@, "--is-shallow-repository"@],
{
    let mut r: Vec<String> = Vec::new();
    push_str(&mut r, "rev-parse");
    push_str(&mut r, "--is-shallow-repository");
    assert(views(r@) =~= seq!["rev-parse"@, "--is-shallow-repository"@]);
    r
}

/// The arguments of `git remote show origin`.
pub fn remote_show_args() -> (r: Vec<String>)
    ensures
        views(r@) == seq!["remote"@, "show"@, "origin"@],
{
    let mut r: Vec<String> = Vec::new();
    push_str(&mut r, "remote");
    push_str(&mut r, "show");
    push_str(&mut r, "origin");
    assert(views(r@) =~= seq!["remote"@, "show"@, "origin"@]);
    r
}

/// The arguments of the `git log` that lists the commit times (Unix
/// seconds) of the last three months.
pub fn recent_log_args() -> (r: Vec<String>)
    ensures
        views(r@) == seq!["log"@, "--since=3.months"@, "--pretty=format:%ct"@],
{
    let mut r: Vec<String> = Vec::new();
    push_str(&mut r, "log");
    push_str(&mut r, "--since=3.months");
    push_str(&mut r, "--pretty=format:%ct");
    assert(views(r@) =~= seq!["log"@, "--since=3.months"@, "--pretty=format:%ct"@]);
    r
}

/// Whether the output of `git rev-parse --is-shallow-repository` says the
/// repository is shallow: it reads `true` once trimmed.
pub fn is_shallow_output(output: &str) -> (r: bool)
    ensures
        r == (trim(output@) == "true"@),
{
    let cs = chars_of(output);
    let (a, b) = trim_bounds(&cs, 0, cs.len());
    assert(cs@.subrange(0, cs@.len() as int) == cs@);
    let t = chars_of("true");
    range_equals(&cs, a, b, &t)
}

/// The text that `line.split(':').nth(1)` gives: from after the first `':'`
/// up to the next `':'` or the end (empty when there is no `':'`).
pub open spec fn second_colon_field(line: Seq<char>) -> Seq<char> {
    let p = find_char(line, ':', 0);
    if p >= line.len() {
        seq![]
    } else {
        line.subrange(p + 1, find_char(line, ':', p + 1))
    }
}

/// The default branch that a line of `git remote show origin` names: for a
/// line that, without leading white space, starts with `HEAD branch:`, the
/// trimmed text between its first and its second `':'`.
pub open spec fn head_branch_of(line: Seq<char>) -> Option<Seq<char>> {
    if "HEAD branch:"@.is_prefix_of(trim_start(line)) {
        Some(trim(second_colon_field(line)))
    } else {
        None
    }
}

/// The default branches named in the lines `ls`, in order.
pub open spec fn head_branches_of(ls: Seq<Seq<char>>) -> Seq<Seq<char>>
    decreases ls.len(),
{
    if ls.len() == 0 {
        seq![]
    } else {
        (match head_branch_of(ls[0]) {
            Some(b) => seq![b],
            None => seq![],
        }) + head_branches_of(ls.drop_first())
    }
}

/// The default branch of one line, if it names one.
fn head_branch_in_line(line: &Vec<char>) -> (r: Option<String>)
    ensures
        match head_branch_of(line@) {
            Some(b) => r matches Some(s) && s@ == b,
            None => r is None,
        },
{
    let marker = chars_of("HEAD branch:");
    let a = trim_start_bound(line, 0, line.len());
    assert(line@.subrange(0, line@.len() as int) == line@);
    let ghost rest = line@.subrange(a as int, line@.len() as int);
    if line.len() - a < marker.len() {
        return None;
    }
    if !range_equals(line, a, a + marker.len(), &marker) {
        assert(rest.subrange(0, marker@.len() as int) == line@.subrange(
            a as int,
            a + marker@.len(),
        ));
        return None;
    }
    assert(rest.subrange(0, marker@.len() as int) == line@.subrange(
        a as int,
        a + marker@.len(),
    ));
    let p = find_char_from(line, ':', 0);
    proof {
        lemma_find_char_bounds(line@, ':', 0);
        reveal_strlit("HEAD branch:");
        assert(line@[a + 11] == marker@[11]);
        assert(p <= a + 11);
    }
    let q = find_char_from(line, ':', p + 1);
    proof {
        lemma_find_char_bounds(line@, ':', p + 1);
    }
    let (x, y) = trim_bounds(line, p + 1, q);
    let content: &[char] = &line.as_slice()[x..y];
    Some(string_from_chars(content))
}

/// The default branches that the output of `git remote show origin` names,
/// in the order of its lines.
pub fn head_branches(output: &str) -> (r: Vec<String>)
    ensures
        views(r@) == head_branches_of(lines(output@)),
{
    let cs = chars_of(output);
    let mut r: Vec<String> = Vec::new();
    let mut start: usize = 0;
    while start < cs.len()
        invariant
            start <= cs@.len(),
            views(r@) + head_branches_of(lines_from(cs@, start as int)) == head_branches_of(
                lines_from(cs@, 0),
            ),
        decreases cs@.len() - start,
    {
        let (hi, e) = line_bounds(&cs, start);
        let line = copy_range(&cs, start, hi);
        let b = head_branch_in_line(&line);
        let ghost l = line_at(cs@, start as int);
        let ghost rest = lines_from(cs@, e + 1);
        proof {
            lemma_line_end_bounds(cs@, start as int);
            assert(lines_from(cs@, start as int) == seq![l] + rest);
            assert((seq![l] + rest).drop_first() == rest);
            assert((seq![l] + rest)[0] == l);
        }
        let ghost before = views(r@);
        match b {
            Some(s) => {
                let ghost sv = s@;
                r.push(s);
                assert(views(r@) =~= before + seq![sv]);
            },
            None => {},
        }
        if e < cs.len() {
            start = e + 1;
        } else {
            assert(lines_from(cs@, e + 1) == Seq::<Seq<char>>::empty());
            start = cs.len();
        }
        assert(views(r@) + head_branches_of(lines_from(cs@, start as int)) =~= before
            + head_branches_of(seq![l] + rest));
    }
    r
}

/// Where an update of a checkout stands.
#[derive(Debug, Clone, Copy, PartialEq, Eq)]
pub enum UpdateStage {
    Resetting,
    Cleaning,
    Pulling,
    Removing,
    Recloning,
    Finished,
}

/// What the caller does next for an update.
#[derive(Debug)]
pub enum UpdateAction {
    /// Run git in the checkout with these arguments; report `Ok(success)`,
    /// or `Err` when it could not be run.
    RunGit(Vec<String>),
    /// Remove the checkout directory; report `Ok(true)` or the error.
    RemoveCheckout,
    /// Clone the repository afresh (not partially) into the checkout
    /// directory; report `Ok(true)` or the clone's error.
    CloneAgain,
    /// The update is over, with this result.
    Finish(Result<(), GitError>),
}

/// How many more steps an update in `stage` can take.
pub open spec fn stages_left(stage: UpdateStage) -> nat {
    match stage {
        UpdateStage::Resetting => 5,
        UpdateStage::Cleaning => 4,
        UpdateStage::Pulling => 3,
        UpdateStage::Removing => 2,
        UpdateStage::Recloning => 1,
        UpdateStage::Finished => 0,
    }
}

/// The stage an update moves to from `stage` on `outcome`.
pub open spec fn next_update_stage(stage: UpdateStage, outcome: Result<bool, GitError>) -> UpdateStage {
    match outcome {
        Err(_) => UpdateStage::Finished,
        Ok(success) => match stage {
            UpdateStage::Resetting => UpdateStage::Cleaning,
            UpdateStage::Cleaning => UpdateStage::Pulling,
            UpdateStage::Pulling => if success {
                UpdateStage::Finished
            } else {
                UpdateStage::Removing
            },
            UpdateStage::Removing => UpdateStage::Recloning,
            _ => UpdateStage::Finished,
        },
    }
}

/// Whether `action` is what an update does on `outcome` in `stage`: a step
/// that could not be done ends the update with its error; reset (whatever
/// its exit) is followed by clean, clean by pull; a pull that exits
/// successfully ends the update, one that exits unsuccessfully has the
/// checkout removed and cloned afresh; the removal is followed by the clone,
/// and the clone ends the update.
pub open spec fn is_update_action(
    stage: UpdateStage,
    outcome: Result<bool, GitError>,
    action: UpdateAction,
) -> bool {
    match outcome {
        Err(e) => action == UpdateAction::Finish(Err(e)),
        Ok(success) => match stage {
            UpdateStage::Resetting => action matches UpdateAction::RunGit(a) && views(a@)
                == clean_args_spec(),
            UpdateStage::Cleaning => action matches UpdateAction::RunGit(a) && views(a@)
                == pull_args_spec(),
            UpdateStage::Pulling => if success {
                action == UpdateAction::Finish(Ok(()))
            } else {
                action == UpdateAction::RemoveCheckout
            },
            UpdateStage::Removing => action == UpdateAction::CloneAgain,
            _ => action == UpdateAction::Finish(Ok(())),
        },
    }
}

/// The update of an existing checkout: reset, clean and pull, and where
/// the pull fails, a fresh clone in place of the checkout.
pub struct RepoUpdate {
    stage: UpdateStage,
}

impl RepoUpdate {
    pub closed spec fn stage(&self) -> UpdateStage {
        self.stage
    }

    /// Starts an update: the first step is `git reset --hard HEAD`.
    pub fn start() -> (r: (RepoUpdate, UpdateAction))
        ensures
            r.0.stage() == UpdateStage::Resetting,
            r.1 matches UpdateAction::RunGit(a) && views(a@) == reset_args_spec(),
    {
        (RepoUpdate { stage: UpdateStage::Resetting }, UpdateAction::RunGit(reset_args()))
    }

    /// Where the update stands.
    pub fn current_stage(&self) -> (r: UpdateStage)
        ensures
            r == self.stage(),
    {
        self.stage
    }

    /// Whether the update is over.
    pub fn is_finished(&self) -> (r: bool)
        ensures
            r == (self.stage() == UpdateStage::Finished),
    {
        match self.stage {
            UpdateStage::Finished => true,
            _ => false,
        }
    }

    /// Takes the outcome of the last action and gives the next one.
    pub fn step(&mut self, outcome: Result<bool, GitError>) -> (r: UpdateAction)
        requires
            old(self).stage() != UpdateStage::Finished,
        ensures
            final(self).stage() == next_update_stage(old(self).stage(), outcome),
            is_update_action(old(self).stage(), outcome, r),
            stages_left(final(self).stage()) < stages_left(old(self).stage()),
            (r is Finish) == (final(self).stage() == UpdateStage::Finished),
            outcome matches Err(e) ==> r == UpdateAction::Finish(Err(e))
                && final(self).stage() == UpdateStage::Finished,
            old(self).stage() == UpdateStage::Resetting && outcome is Ok ==> final(self).stage()
                == UpdateStage::Cleaning,
            old(self).stage() == UpdateStage::Resetting && outcome is Ok ==> (r matches UpdateAction::RunGit(a)
                && views(a@) == seq!["clean"@, "-fd"@]),
            old(self).stage() == UpdateStage::Cleaning && outcome is Ok ==> final(self).stage()
                == UpdateStage::Pulling,
            old(self).stage() == UpdateStage::Cleaning && outcome is Ok ==> (r matches UpdateAction::RunGit(a)
                && views(a@) == quiet_network_config() + seq!["pull"@, "--rebase"@]),
            old(self).stage() == UpdateStage::Pulling && outcome == Ok::<bool, GitError>(true)
                ==> final(self).stage() == UpdateStage::Finished && r == UpdateAction::Finish(
                Ok(()),
            ),
            old(self).stage() == UpdateStage::Pulling && outcome == Ok::<bool, GitError>(false)
                ==> final(self).stage() == UpdateStage::Removing && r
                == UpdateAction::RemoveCheckout,
            old(self).stage() == UpdateStage::Removing && outcome is Ok ==> final(self).stage()
                == UpdateStage::Recloning && r == UpdateAction::CloneAgain,
            old(self).stage() == UpdateStage::Recloning && outcome is Ok ==> final(self).stage()
                == UpdateStage::Finished && r == UpdateAction::Finish(Ok(())),
    {
        match outcome {
            Err(e) => {
                self.stage = UpdateStage::Finished;
                UpdateAction::Finish(Err(e))
            },
            Ok(success) => match self.stage {
                UpdateStage::Resetting => {
                    self.stage = UpdateStage::Cleaning;
                    UpdateAction::RunGit(clean_args())
                },
                UpdateStage::Cleaning => {
                    self.stage = UpdateStage::Pulling;
                    UpdateAction::RunGit(pull_args())
                },
                UpdateStage::Pulling => {
                    if success {
                        self.stage = UpdateStage::Finished;
                        UpdateAction::Finish(Ok(()))
                    } else {
                        self.stage = UpdateStage::Removing;
                        UpdateAction::RemoveCheckout
                    }
                },
                UpdateStage::Removing => {
                    self.stage = UpdateStage::Recloning;
                    UpdateAction::CloneAgain
                },
                _ => {
                    self.stage = UpdateStage::Finished;
                    UpdateAction::Finish(Ok(()))
                },
            },
        }
    }
}

/// One command of the initialisation of a fresh repository: its git
/// arguments, the message the run stops with when git cannot be started, and
/// the prefix of the line reported when git exits unsuccessfully.
pub struct InitStep {
    pub args: Vec<String>,
    pub spawn_failure: String,
    pub exit_failure_prefix: String,
}

pub open spec fn init_step_view(s: InitStep) -> (Seq<Seq<char>>, Seq<char>, Seq<char>) {
    (views(s.args@), s.spawn_failure@, s.exit_failure_prefix@)
}

/// `git init`, `git add .`, `git commit -m "first commit"`, in this order.
pub open spec fn init_steps_spec() -> Seq<(Seq<Seq<char>>, Seq<char>, Seq<char>)> {
    seq![
        (seq!["init"@], "Failed to execute git init"@, "git init failed: "@),
        (seq!["add"@, "."@], "Failed to execute git add"@, "git add failed: "@),
        (
            seq!["commit"@, "-m"@, "first commit"@],
            "Failed to execute git commit"@,
            "git commit failed: "@,
        ),
    ]
}

/// The message printed when the working directory cannot be changed to the
/// repository, before the error's text.
pub fn chdir_failure_prefix() -> (r: String)
    ensures
        r@ == "Failed to change directory: "@,
{
    String::from_str("Failed to change directory: ")
}

/// The commands that turn a directory of sources into a repository with one
/// commit.
pub fn init_steps() -> (r: Vec<InitStep>)
    ensures
        r@.map_values(|s: InitStep| init_step_view(s)) == init_steps_spec(),
{
    let mut r: Vec<InitStep> = Vec::new();
    let mut a: Vec<String> = Vec::new();
    push_str(&mut a, "init");
    assert(views(a@) =~= seq!["init"@]);
    r.push(
        InitStep {
            args: a,
            spawn_failure: String::from_str("Failed to execute git init"),
            exit_failure_prefix: String::from_str("git init failed: "),
        },
    );
    let mut a: Vec<String> = Vec::new();
    push_str(&mut a, "add");
    push_str(&mut a, ".");
    assert(views(a@) =~= seq!["add"@, "."@]);
    r.push(
        InitStep {
            args: a,
            spawn_failure: String::from_str("Failed to execute git add"),
            exit_failure_prefix: String::from_str("git add failed: "),
        },
    );
    let mut a: Vec<String> = Vec::new();
    push_str(&mut a, "commit");
    push_str(&mut a, "-m");
    push_str(&mut a, "first commit");
    assert(views(a@) =~= seq!["commit"@, "-m"@, "first commit"@]);
    r.push(
        InitStep {
            args: a,
            spawn_failure: String::from_str("Failed to execute git commit"),
            exit_failure_prefix: String::from_str("git commit failed: "),
        },
    );
    assert(r@.map_values(|s: InitStep| init_step_view(s)) =~= init_steps_spec());
    r
}

/// The clone goes where it is asked to: the URL of `owner/repo` and the
/// target path stand, unchanged, right after the fixed options, and a
/// partial clone only adds the blob filter at the end.
pub proof fn lemma_clone_target_is_path(url: Seq<char>, path: Seq<char>, partial_clone: bool)
    ensures
        clone_args_spec(url, path, partial_clone)[10] == url,
        clone_args_spec(url, path, partial_clone)[11] == path,
        clone_args_spec(url, path, true) == clone_args_spec(url, path, false).push(
            "--filter=blob:none"@,
        ),
{
}

/// The exit status of the reset and of the clean never changes the course
/// of an update: whatever they exit with, the pull comes next.
pub proof fn lemma_update_reaches_pull(reset_ok: bool, clean_ok: bool)
    ensures
        next_update_stage(
            next_update_stage(UpdateStage::Resetting, Ok(reset_ok)),
            Ok(clean_ok),
        ) == UpdateStage::Pulling,
        next_update_stage(UpdateStage::Resetting, Ok(true)) == next_update_stage(
            UpdateStage::Resetting,
            Ok(false),
        ),
        next_update_stage(UpdateStage::Cleaning, Ok(true)) == next_update_stage(
            UpdateStage::Cleaning,
            Ok(false),
        ),
{
}

/// White space in front of a text does not survive `trim_start`.
proof fn lemma_trim_start_skips_white_space(w: Seq<char>, t: Seq<char>)
    requires
        forall|i: int| 0 <= i < w.len() ==> is_white_space(#[trigger] w[i]),
    ensures
        trim_start(w + t) == trim_start(t),
    decreases w.len(),
{
    if w.len() == 0 {
        assert(w + t == t);
    } else {
        assert((w + t)[0] == w[0]);
        assert((w + t).drop_first() == w.drop_first() + t);
        assert forall|i: int| 0 <= i < w.drop_first().len() implies is_white_space(
            #[trigger] w.drop_first()[i],
        ) by {
            assert(w.drop_first()[i] == w[i + 1]);
        }
        lemma_trim_start_skips_white_space(w.drop_first(), t);
    }
}

/// A line that, after white space, reads `HEAD branch:` and then a text `b`
/// with no `':'` names the branch `b`, trimmed: the whole of `b`.
pub proof fn lemma_head_branch_line(w: Seq<char>, b: Seq<char>)
    requires
        forall|i: int| 0 <= i < w.len() ==> is_white_space(#[trigger] w[i]),
        forall|i: int| 0 <= i < b.len() ==> #[trigger] b[i] != ':',
    ensures
        head_branch_of(w + "HEAD branch:"@ + b) == Some(trim(b)),
{
    reveal_strlit("HEAD branch:");
    let marker = "HEAD branch:"@;
    let line = w + marker + b;
    assert(marker.len() == 12);
    assert(line == w + (marker + b));
    lemma_trim_start_skips_white_space(w, marker + b);
    assert(!is_white_space((marker + b)[0]));
    assert(trim_start(marker + b) == marker + b);
    assert((marker + b).subrange(0, 12) == marker);
    assert(marker.is_prefix_of(trim_start(line)));
    let e: int = w.len() as int + 11;
    assert(line[e] == ':');
    lemma_find_char_bounds(line, ':', 0);
    let p = find_char(line, ':', 0);
    assert forall|k: int| 0 <= k < e implies #[trigger] line[k] != ':' by {
        if k < w.len() {
            assert(line[k] == w[k]);
            assert(is_white_space(w[k]));
        } else {
            assert(line[k] == marker[k - w.len()]);
        }
    }
    if p < e {
        assert(line[p] == ':');
        assert(false);
    }
    assert(p == e);
    lemma_find_char_bounds(line, ':', p + 1);
    let q = find_char(line, ':', p + 1);
    if q < line.len() {
        assert(line[q] == b[q - w.len() - 12]);
        assert(false);
    }
    assert(line.subrange(p + 1, q) == b);
}

} // verus!
