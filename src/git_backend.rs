//! Remote operations through Git.
//!
//! A fetch or a push registers a temporary remote under a reserved name,
//! runs Git against it and removes it again, whether the operation worked or
//! not. Running Git is left to the caller: [`RemoteFetch`] and [`RemotePush`]
//! say which command to run next and what the outcome of the last one means,
//! and end with the operation's result. Each command is a list of arguments
//! to which [`GitInvocation`] adds the options, the Git directory and the
//! environment.
use vstd::prelude::*;
use crate::backend::ErrorView;
use crate::backend::SubtreeBackend;
use crate::backend::SubtreeBackendError;
use crate::repo_path::chars_of;
use crate::store::CommitId;
use crate::store::Store;
use crate::store::decode_hex;
use crate::store::hex_of;
use crate::store::is_hex;
use crate::trailer::trim;
use crate::trailer::trimmed_end;
use crate::trailer::trimmed_start;

verus! {

/// The name of the temporary remote.
pub open spec fn temp_remote() -> Seq<char> {
    "jj-subtree-temp"@
}

/// Where a fetched ref is kept until it is resolved.
pub open spec fn fetch_ref_namespace() -> Seq<char> {
    "refs/jj/subtree-fetch/"@
}

pub open spec fn starts_with_seq(s: Seq<char>, p: Seq<char>) -> bool {
    p.len() <= s.len() && s.subrange(0, p.len() as int) == p
}

pub open spec fn contains_seq(s: Seq<char>, p: Seq<char>) -> bool {
    exists|i: int| 0 <= i && i + p.len() <= s.len() && #[trigger] s.subrange(i, i + p.len()) == p
}

/// A ref name as given, where it starts with `refs/`, or else a branch.
pub open spec fn qualified_ref(r: Seq<char>) -> Seq<char> {
    if starts_with_seq(r, "refs/"@) {
        r
    } else {
        "refs/heads/"@ + r
    }
}

pub open spec fn fetch_local_ref(r: Seq<char>) -> Seq<char> {
    fetch_ref_namespace() + r
}

pub open spec fn remove_remote_args() -> Seq<Seq<char>> {
    seq!["remote"@, "remove"@, temp_remote()]
}

pub open spec fn add_remote_args(repository: Seq<char>) -> Seq<Seq<char>> {
    seq!["remote"@, "add"@, temp_remote(), repository]
}

pub open spec fn fetch_args(r: Seq<char>) -> Seq<Seq<char>> {
    seq![
        "fetch"@,
        "--no-write-fetch-head"@,
        "--"@,
        temp_remote(),
        qualified_ref(r) + ":"@ + fetch_local_ref(r),
    ]
}

pub open spec fn rev_parse_args(r: Seq<char>) -> Seq<Seq<char>> {
    seq!["rev-parse"@, fetch_local_ref(r)]
}

pub open spec fn delete_ref_args(r: Seq<char>) -> Seq<Seq<char>> {
    seq!["update-ref"@, "-d"@, fetch_local_ref(r)]
}

/// `<commit>:<ref>`, with a leading `+` for a forced push.
pub open spec fn push_refspec(commit: Seq<u8>, r: Seq<char>, force: bool) -> Seq<char> {
    (if force {
        "+"@
    } else {
        Seq::empty()
    }) + hex_of(commit) + ":"@ + qualified_ref(r)
}

pub open spec fn push_args(commit: Seq<u8>, r: Seq<char>, force: bool) -> Seq<Seq<char>> {
    seq!["push"@, "--porcelain"@, "--"@, temp_remote(), push_refspec(commit, r, force)]
}

/// Git's porcelain output marks a rejected ref with `!` and `[rejected]`.
pub open spec fn push_rejected(stdout: Seq<char>) -> bool {
    contains_seq(stdout, "![rejected]"@) || contains_seq(stdout, "! [rejected]"@)
}

pub open spec fn spawn_failure(message: Seq<char>) -> Seq<char> {
    "Failed to execute git command: "@ + message
}

pub open spec fn args_view(args: Seq<String>) -> Seq<Seq<char>> {
    args.map_values(|s: String| s@)
}

/// How the last command ended: it ran, with its exit status and output, or
/// it could not be started.
#[derive(Debug)]
pub enum GitEvent {
    Completed { success: bool, stdout: String, stderr: String },
    SpawnFailed { message: String },
}

/// What to do next: run Git with these arguments, or stop with this result.
pub enum StepView<T> {
    Run(Seq<Seq<char>>),
    Finished(Result<T, ErrorView>),
}

/// The next step of a fetch.
#[derive(Debug)]
pub enum FetchStep {
    Run(Vec<String>),
    Finished(Result<CommitId, SubtreeBackendError>),
}

impl View for FetchStep {
    type V = StepView<Seq<u8>>;

    open spec fn view(&self) -> StepView<Seq<u8>> {
        match self {
            FetchStep::Run(args) => StepView::Run(args_view(args@)),
            FetchStep::Finished(Ok(id)) => StepView::Finished(Ok(id@)),
            FetchStep::Finished(Err(e)) => StepView::Finished(Err(e@)),
        }
    }
}

/// The next step of a push.
#[derive(Debug)]
pub enum PushStep {
    Run(Vec<String>),
    Finished(Result<(), SubtreeBackendError>),
}

impl View for PushStep {
    type V = StepView<()>;

    open spec fn view(&self) -> StepView<()> {
        match self {
            PushStep::Run(args) => StepView::Run(args_view(args@)),
            PushStep::Finished(Ok(())) => StepView::Finished(Ok(())),
            PushStep::Finished(Err(e)) => StepView::Finished(Err(e@)),
        }
    }
}

/// Where an operation stands.
#[derive(Clone, Copy, Debug, PartialEq, Eq, Structural)]
pub enum Phase {
    /// Not started.
    Start,
    /// Removing a temporary remote left behind by an earlier operation.
    RemovingStale,
    /// Registering the temporary remote.
    AddingRemote,
    /// Fetching or pushing.
    Transferring,
    /// Resolving the fetched ref to a commit id.
    Resolving,
    /// Deleting the fetched ref.
    DeletingRef,
    /// Removing the temporary remote.
    CleaningUp,
    /// Finished.
    Done,
}

/// A fetch after one more event: its phase, the result it will end with once
/// known, and its next step.
pub open spec fn fetch_failed(repository: Seq<char>, message: Seq<char>) -> ErrorView {
    ErrorView::FetchFailed { repository, message }
}

pub open spec fn push_failed(repository: Seq<char>, message: Seq<char>) -> ErrorView {
    ErrorView::PushFailed { repository, message }
}

pub open spec fn fetch_next(
    phase: Phase,
    pending: Option<Result<Seq<u8>, ErrorView>>,
    event: GitEvent,
    repository: Seq<char>,
    remote_ref: Seq<char>,
) -> (Phase, Option<Result<Seq<u8>, ErrorView>>, StepView<Seq<u8>>) {
    match phase {
        Phase::RemovingStale => (Phase::AddingRemote, None, StepView::Run(add_remote_args(repository))),
        Phase::AddingRemote => match event {
            GitEvent::SpawnFailed { message } => (
                Phase::Done,
                None,
                StepView::Finished(Err(fetch_failed(repository, spawn_failure(message@)))),
            ),
            GitEvent::Completed { success, stdout, stderr } => if success {
                (Phase::Transferring, None, StepView::Run(fetch_args(remote_ref)))
            } else {
                (
                    Phase::Done,
                    None,
                    StepView::Finished(
                        Err(fetch_failed(repository, "Failed to create temporary remote: "@ + stderr@)),
                    ),
                )
            },
        },
        Phase::Transferring => match event {
            GitEvent::SpawnFailed { message } => (Phase::CleaningUp, Some(Err(fetch_failed(repository, spawn_failure(message@)))), StepView::Run(remove_remote_args())),
            GitEvent::Completed { success, stdout, stderr } => if success {
                (Phase::Resolving, None, StepView::Run(rev_parse_args(remote_ref)))
            } else {
                (Phase::CleaningUp, Some(Err(fetch_failed(repository, stderr@))), StepView::Run(remove_remote_args()))
            },
        },
        Phase::Resolving => match event {
            GitEvent::SpawnFailed { message } => (Phase::CleaningUp, Some(Err(fetch_failed(repository, spawn_failure(message@)))), StepView::Run(remove_remote_args())),
            GitEvent::Completed { success, stdout, stderr } => if !success {
                (Phase::CleaningUp, Some(Err(ErrorView::RefNotFound(remote_ref))), StepView::Run(remove_remote_args()))
            } else if is_hex(trim(stdout@)) {
                (
                    Phase::DeletingRef,
                    Some(Ok(decode_hex(trim(stdout@)))),
                    StepView::Run(delete_ref_args(remote_ref)),
                )
            } else {
                (Phase::CleaningUp, Some(Err(fetch_failed(repository, "Invalid commit hash: "@ + trim(stdout@)))), StepView::Run(remove_remote_args()))
            },
        },
        Phase::DeletingRef => (Phase::CleaningUp, pending, StepView::Run(remove_remote_args())),
        Phase::CleaningUp => (Phase::Done, None, StepView::Finished(pending.unwrap())),
        _ => (phase, pending, StepView::Run(Seq::empty())),
    }
}

/// A push after one more event, in the same terms as [`fetch_next`].
pub open spec fn push_next(
    phase: Phase,
    pending: Option<Result<(), ErrorView>>,
    event: GitEvent,
    repository: Seq<char>,
    local_commit: Seq<u8>,
    remote_ref: Seq<char>,
    force: bool,
) -> (Phase, Option<Result<(), ErrorView>>, StepView<()>) {
    match phase {
        Phase::RemovingStale => (Phase::AddingRemote, None, StepView::Run(add_remote_args(repository))),
        Phase::AddingRemote => match event {
            GitEvent::SpawnFailed { message } => (
                Phase::Done,
                None,
                StepView::Finished(Err(push_failed(repository, spawn_failure(message@)))),
            ),
            GitEvent::Completed { success, stdout, stderr } => if success {
                (
                    Phase::Transferring,
                    None,
                    StepView::Run(push_args(local_commit, remote_ref, force)),
                )
            } else {
                (
                    Phase::Done,
                    None,
                    StepView::Finished(
                        Err(push_failed(repository, "Failed to create temporary remote: "@ + stderr@)),
                    ),
                )
            },
        },
        Phase::Transferring => match event {
            GitEvent::SpawnFailed { message } => (Phase::CleaningUp, Some(Err(push_failed(repository, spawn_failure(message@)))), StepView::Run(remove_remote_args())),
            GitEvent::Completed { success, stdout, stderr } => if success {
                (Phase::CleaningUp, Some(Ok(())), StepView::Run(remove_remote_args()))
            } else if push_rejected(stdout@) {
                (Phase::CleaningUp, Some(Err(push_failed(repository, "Push rejected: "@ + stdout@))), StepView::Run(remove_remote_args()))
            } else {
                (Phase::CleaningUp, Some(Err(push_failed(repository, stderr@))), StepView::Run(remove_remote_args()))
            },
        },
        Phase::CleaningUp => (Phase::Done, None, StepView::Finished(pending.unwrap())),
        _ => (phase, pending, StepView::Run(Seq::empty())),
    }
}

/// Whether an event reports a command that ran and succeeded.
pub open spec fn succeeded(event: GitEvent) -> bool {
    event matches GitEvent::Completed { success: true, .. }
}

/// A fetch removes its temporary remote on every path once it is
/// registered: it finishes only from the cleanup phase, or straight after a
/// registration that failed, and it enters the cleanup phase by removing the
/// remote.
pub proof fn lemma_fetch_cleans_up(
    phase: Phase,
    pending: Option<Result<Seq<u8>, ErrorView>>,
    event: GitEvent,
    repository: Seq<char>,
    remote_ref: Seq<char>,
)
    requires
        phase != Phase::Start,
        phase != Phase::Done,
    ensures
        ({
            let (next, _, step) = fetch_next(phase, pending, event, repository, remote_ref);
            &&& step is Finished ==> phase == Phase::CleaningUp || (phase == Phase::AddingRemote
                && !succeeded(event))
            &&& next == Phase::CleaningUp && phase != Phase::CleaningUp ==> step == StepView::<
                Seq<u8>,
            >::Run(remove_remote_args())
            &&& phase == Phase::CleaningUp ==> next == Phase::Done && step is Finished
        }),
{
}

/// A push removes its temporary remote on every path once it is registered,
/// in the same terms as [`lemma_fetch_cleans_up`].
pub proof fn lemma_push_cleans_up(
    phase: Phase,
    pending: Option<Result<(), ErrorView>>,
    event: GitEvent,
    repository: Seq<char>,
    local_commit: Seq<u8>,
    remote_ref: Seq<char>,
    force: bool,
)
    requires
        phase != Phase::Start,
        phase != Phase::Done,
        phase != Phase::Resolving,
        phase != Phase::DeletingRef,
    ensures
        ({
            let (next, _, step) = push_next(
                phase,
                pending,
                event,
                repository,
                local_commit,
                remote_ref,
                force,
            );
            &&& step is Finished ==> phase == Phase::CleaningUp || (phase == Phase::AddingRemote
                && !succeeded(event))
            &&& next == Phase::CleaningUp && phase != Phase::CleaningUp ==> step == StepView::<
                (),
            >::Run(remove_remote_args())
            &&& phase == Phase::CleaningUp ==> next == Phase::Done && step is Finished
        }),
{
}

/// A copy of a string.
fn text(s: &str) -> (r: String)
    ensures
        r@ == s@,
{
    s.to_owned()
}

/// `a` followed by `b`.
fn concat(a: &str, b: &str) -> (r: String)
    ensures
        r@ == a@ + b@,
{
    let mut r = a.to_owned();
    r.append(b);
    r
}

/// Whether `s` starts with `p`.
pub fn has_prefix(s: &str, p: &str) -> (r: bool)
    ensures
        r == starts_with_seq(s@, p@),
{
    let x = chars_of(s);
    let y = chars_of(p);
    if y.len() > x.len() {
        return false;
    }
    let mut i: usize = 0;
    while i < y.len()
        invariant
            x@ == s@,
            y@ == p@,
            y@.len() <= x@.len(),
            i <= y@.len(),
            forall|j: int| 0 <= j < i ==> x@[j] == y@[j],
        decreases y@.len() - i,
    {
        if x[i] != y[i] {
            assert(s@.subrange(0, p@.len() as int)[i as int] != p@[i as int]);
            return false;
        }
        i = i + 1;
    }
    assert(s@.subrange(0, p@.len() as int) =~= p@);
    true
}

/// Whether `p` occurs in `s`.
pub fn contains_text(s: &str, p: &str) -> (r: bool)
    ensures
        r == contains_seq(s@, p@),
{
    let x = chars_of(s);
    let y = chars_of(p);
    let n = x.len();
    let m = y.len();
    if m > n {
        return false;
    }
    let mut i: usize = 0;
    while i <= n - m
        invariant
            x@ == s@,
            y@ == p@,
            n == x@.len(),
            m == y@.len(),
            m <= n,
            i <= n - m + 1,
            forall|k: int| 0 <= k < i ==> #[trigger] s@.subrange(k, k + m) != p@,
        decreases n - m + 1 - i,
    {
        let mut j: usize = 0;
        let mut same = true;
        while j < m
            invariant
                x@ == s@,
                y@ == p@,
                n == x@.len(),
                m == y@.len(),
                i + m <= n,
                j <= m,
                same == forall|l: int| 0 <= l < j ==> x@[i + l] == y@[l],
            decreases m - j,
        {
            if x[i + j] != y[j] {
                same = false;
            }
            j = j + 1;
        }
        if same {
            assert(s@.subrange(i as int, i + m) =~= p@);
            return true;
        }
        proof {
            let l = choose|l: int| 0 <= l < m && x@[i + l] != y@[l];
            assert(s@.subrange(i as int, i + m)[l] != p@[l]);
        }
        i = i + 1;
    }
    proof {
        assert forall|k: int| !(0 <= k && k + m <= n && #[trigger] s@.subrange(k, k + m) == p@) by {
            if 0 <= k && k + m <= n {
                assert(k < i);
            }
        }
    }
    false
}

/// `r` as given where it starts with `refs/`, else the branch `r`.
pub fn qualify_ref(r: &str) -> (q: String)
    ensures
        q@ == qualified_ref(r@),
{
    if has_prefix(r, "refs/") {
        text(r)
    } else {
        concat("refs/heads/", r)
    }
}

/// How Git is run: which program, with which environment.
#[derive(Debug)]
pub struct GitSubprocessOptions {
    pub executable_path: String,
    pub environment: Vec<(String, String)>,
}

pub open spec fn env_view(e: Seq<(String, String)>) -> Seq<(Seq<char>, Seq<char>)> {
    e.map_values(|p: (String, String)| (p.0@, p.1@))
}

fn copy_env(e: &Vec<(String, String)>) -> (r: Vec<(String, String)>)
    ensures
        env_view(r@) == env_view(e@),
{
    let mut r: Vec<(String, String)> = Vec::new();
    let mut i: usize = 0;
    while i < e.len()
        invariant
            i <= e@.len(),
            r@.len() == i,
            forall|j: int| 0 <= j < i ==> (#[trigger] r@[j]).0@ == e@[j].0@ && r@[j].1@ == e@[j].1@,
        decreases e@.len() - i,
    {
        r.push((e[i].0.clone(), e[i].1.clone()));
        i = i + 1;
    }
    assert(env_view(r@) =~= env_view(e@));
    r
}

impl GitSubprocessOptions {
    /// Runs `git` from the search path, with no extra environment.
    pub fn default_options() -> (r: GitSubprocessOptions)
        ensures
            r.executable_path@ == "git"@,
            r.environment@.len() == 0,
    {
        GitSubprocessOptions { executable_path: text("git"), environment: Vec::new() }
    }

    pub fn copy(&self) -> (r: GitSubprocessOptions)
        ensures
            r.executable_path@ == self.executable_path@,
            env_view(r.environment@) == env_view(self.environment@),
    {
        GitSubprocessOptions {
            executable_path: self.executable_path.clone(),
            environment: copy_env(&self.environment),
        }
    }
}

/// Everything needed to run Git on a repository: the program, the Git
/// directory, and the environment.
#[derive(Debug)]
pub struct GitInvocation {
    pub program: String,
    pub git_dir: String,
    pub environment: Vec<(String, String)>,
}

/// The options that every command gets before its own arguments.
pub open spec fn common_args(git_dir: Seq<char>) -> Seq<Seq<char>> {
    seq!["-c"@, "core.fsmonitor=false"@, "-c"@, "submodule.recurse=false"@, "--git-dir"@, git_dir]
}

impl GitInvocation {
    /// The whole argument list of a command: the common options, then `args`.
    pub fn command_args(&self, args: &Vec<String>) -> (r: Vec<String>)
        ensures
            args_view(r@) == common_args(self.git_dir@) + args_view(args@),
    {
        let mut r: Vec<String> = vec![
            text("-c"),
            text("core.fsmonitor=false"),
            text("-c"),
            text("submodule.recurse=false"),
            text("--git-dir"),
            self.git_dir.clone(),
        ];
        let ghost base = common_args(self.git_dir@);
        assert(args_view(r@) =~= base);
        let mut i: usize = 0;
        while i < args.len()
            invariant
                base == common_args(self.git_dir@),
                base.len() == 6,
                i <= args@.len(),
                r@.len() == 6 + i,
                forall|j: int| 0 <= j < 6 ==> (#[trigger] r@[j])@ == base[j],
                forall|j: int| 0 <= j < i ==> (#[trigger] r@[6 + j])@ == args@[j]@,
            decreases args@.len() - i,
        {
            r.push(args[i].clone());
            i = i + 1;
        }
        assert forall|j: int| 0 <= j < r@.len() implies #[trigger] args_view(r@)[j] == (base + args_view(
            args@,
        ))[j] by {
            if j >= 6 {
                assert(r@[6 + (j - 6)]@ == args@[j - 6]@);
            }
        }
        assert(args_view(r@) =~= base + args_view(args@));
        r
    }

    /// The environment of a command: the C locale, so that Git's messages
    /// can be read, then the configured variables.
    pub fn command_env(&self) -> (r: Vec<(String, String)>)
        ensures
            env_view(r@) == seq![("LC_ALL"@, "C"@)] + env_view(self.environment@),
    {
        let mut r: Vec<(String, String)> = vec![(text("LC_ALL"), text("C"))];
        let e = &self.environment;
        let mut i: usize = 0;
        while i < e.len()
            invariant
                i <= e@.len(),
                r@.len() == 1 + i,
                r@[0].0@ == "LC_ALL"@ && r@[0].1@ == "C"@,
                forall|j: int| 0 <= j < i ==> (#[trigger] r@[1 + j]).0@ == e@[j].0@ && r@[1 + j].1@ == e@[j].1@,
            decreases e@.len() - i,
        {
            r.push((e[i].0.clone(), e[i].1.clone()));
            i = i + 1;
        }
        assert forall|j: int| 0 <= j < r@.len() implies #[trigger] env_view(r@)[j] == (seq![
            ("LC_ALL"@, "C"@),
        ] + env_view(e@))[j] by {
            if j >= 1 {
                assert(r@[1 + (j - 1)].0@ == e@[j - 1].0@);
            }
        }
        assert(env_view(r@) =~= seq![("LC_ALL"@, "C"@)] + env_view(e@));
        r
    }
}

pub open spec fn fetch_pending_view(p: Option<Result<CommitId, SubtreeBackendError>>) -> Option<
    Result<Seq<u8>, ErrorView>,
> {
    match p {
        Some(Ok(id)) => Some(Ok(id@)),
        Some(Err(e)) => Some(Err(e@)),
        None => None,
    }
}

pub open spec fn push_pending_view(p: Option<Result<(), SubtreeBackendError>>) -> Option<
    Result<(), ErrorView>,
> {
    match p {
        Some(Ok(())) => Some(Ok(())),
        Some(Err(e)) => Some(Err(e@)),
        None => None,
    }
}

fn remove_remote_command() -> (r: Vec<String>)
    ensures
        args_view(r@) == remove_remote_args(),
{
    let r = vec![text("remote"), text("remove"), text("jj-subtree-temp")];
    assert(args_view(r@) =~= remove_remote_args());
    r
}

fn add_remote_command(repository: &String) -> (r: Vec<String>)
    ensures
        args_view(r@) == add_remote_args(repository@),
{
    let r = vec![text("remote"), text("add"), text("jj-subtree-temp"), repository.clone()];
    assert(args_view(r@) =~= add_remote_args(repository@));
    r
}

fn spawn_failure_message(message: &String) -> (r: String)
    ensures
        r@ == spawn_failure(message@),
{
    concat("Failed to execute git command: ", message.as_str())
}

/// A fetch of a ref from another repository, one Git command at a time.
#[derive(Debug)]
pub struct RemoteFetch {
    invocation: GitInvocation,
    repository: String,
    remote_ref: String,
    phase: Phase,
    pending: Option<Result<CommitId, SubtreeBackendError>>,
}

impl RemoteFetch {
    pub closed spec fn repository(self) -> Seq<char> {
        self.repository@
    }

    pub closed spec fn remote_ref(self) -> Seq<char> {
        self.remote_ref@
    }

    pub closed spec fn state(self) -> Phase {
        self.phase
    }

    /// The result the fetch will end with, once it is known.
    pub closed spec fn pending(self) -> Option<Result<Seq<u8>, ErrorView>> {
        fetch_pending_view(self.pending)
    }

    pub closed spec fn git_dir(self) -> Seq<char> {
        self.invocation.git_dir@
    }

    /// A fetch knows its result exactly while it deletes its ref or cleans
    /// up.
    pub open spec fn well_formed(self) -> bool {
        (self.state() == Phase::CleaningUp || self.state() == Phase::DeletingRef) <==> self.pending() is Some
    }

    pub open spec fn is_fresh(self) -> bool {
        self.state() == Phase::Start && self.pending() is None && self.well_formed()
    }

    pub(crate) fn new(invocation: GitInvocation, repository: &str, remote_ref: &str) -> (r: RemoteFetch)
        ensures
            r.is_fresh(),
            r.repository() == repository@,
            r.remote_ref() == remote_ref@,
            r.git_dir() == invocation.git_dir@,
    {
        RemoteFetch {
            invocation,
            repository: text(repository),
            remote_ref: text(remote_ref),
            phase: Phase::Start,
            pending: None,
        }
    }

    /// How Git is to be run for this fetch.
    pub fn invocation(&self) -> (r: &GitInvocation)
        ensures
            r.git_dir@ == self.git_dir(),
    {
        &self.invocation
    }

    pub fn phase(&self) -> (r: Phase)
        ensures
            r == self.state(),
    {
        self.phase
    }

    /// The first command: removing a temporary remote that an earlier
    /// operation may have left behind. How it ends does not matter.
    pub fn begin(&mut self) -> (r: FetchStep)
        requires
            old(self).well_formed(),
            old(self).state() == Phase::Start,
        ensures
            final(self).well_formed(),
            final(self).state() == Phase::RemovingStale,
            final(self).pending() == old(self).pending(),
            r@ == StepView::<Seq<u8>>::Run(remove_remote_args()),
            final(self).repository() == old(self).repository(),
            final(self).remote_ref() == old(self).remote_ref(),
            final(self).git_dir() == old(self).git_dir(),
    {
        self.phase = Phase::RemovingStale;
        FetchStep::Run(remove_remote_command())
    }

    /// The next step, given how the last command ended.
    pub fn step(&mut self, event: GitEvent) -> (r: FetchStep)
        requires
            old(self).well_formed(),
            old(self).state() != Phase::Start,
            old(self).state() != Phase::Done,
        ensures
            final(self).well_formed(),
            (final(self).state(), final(self).pending(), r@) == fetch_next(
                old(self).state(),
                old(self).pending(),
                event,
                old(self).repository(),
                old(self).remote_ref(),
            ),
            final(self).repository() == old(self).repository(),
            final(self).remote_ref() == old(self).remote_ref(),
            final(self).git_dir() == old(self).git_dir(),
    {
        let local_ref = concat("refs/jj/subtree-fetch/", self.remote_ref.as_str());
        match self.phase {
            Phase::RemovingStale => {
                self.phase = Phase::AddingRemote;
                FetchStep::Run(add_remote_command(&self.repository))
            },
            Phase::AddingRemote => match event {
                GitEvent::SpawnFailed { message } => {
                    self.phase = Phase::Done;
                    FetchStep::Finished(
                        Err(
                            SubtreeBackendError::FetchFailed {
                                repository: self.repository.clone(),
                                message: spawn_failure_message(&message),
                            },
                        ),
                    )
                },
                GitEvent::Completed { success, stdout, stderr } => {
                    if success {
                        self.phase = Phase::Transferring;
                        let mut refspec = qualify_ref(self.remote_ref.as_str());
                        refspec.append(":");
                        refspec.append(local_ref.as_str());
                        let r = vec![
                            text("fetch"),
                            text("--no-write-fetch-head"),
                            text("--"),
                            text("jj-subtree-temp"),
                            refspec,
                        ];
                        assert(args_view(r@) =~= fetch_args(self.remote_ref@));
                        FetchStep::Run(r)
                    } else {
                        self.phase = Phase::Done;
                        FetchStep::Finished(
                            Err(
                                SubtreeBackendError::FetchFailed {
                                    repository: self.repository.clone(),
                                    message: concat(
                                        "Failed to create temporary remote: ",
                                        stderr.as_str(),
                                    ),
                                },
                            ),
                        )
                    }
                },
            },
            Phase::Transferring => {
                let failure = match event {
                    GitEvent::SpawnFailed { message } => Some(spawn_failure_message(&message)),
                    GitEvent::Completed { success, stdout, stderr } => if success {
                        None
                    } else {
                        Some(stderr)
                    },
                };
                match failure {
                    Some(message) => {
                        self.phase = Phase::CleaningUp;
                        self.pending = Some(
                            Err(
                                SubtreeBackendError::FetchFailed {
                                    repository: self.repository.clone(),
                                    message,
                                },
                            ),
                        );
                        FetchStep::Run(remove_remote_command())
                    },
                    None => {
                        self.phase = Phase::Resolving;
                        let r = vec![text("rev-parse"), local_ref];
                        assert(args_view(r@) =~= rev_parse_args(self.remote_ref@));
                        FetchStep::Run(r)
                    },
                }
            },
            Phase::Resolving => {
                match event {
                    GitEvent::SpawnFailed { message } => {
                        self.phase = Phase::CleaningUp;
                        self.pending = Some(
                            Err(
                                SubtreeBackendError::FetchFailed {
                                    repository: self.repository.clone(),
                                    message: spawn_failure_message(&message),
                                },
                            ),
                        );
                        FetchStep::Run(remove_remote_command())
                    },
                    GitEvent::Completed { success, stdout, stderr } => {
                        if !success {
                            self.phase = Phase::CleaningUp;
                            self.pending = Some(
                                Err(SubtreeBackendError::RefNotFound(self.remote_ref.clone())),
                            );
                            FetchStep::Run(remove_remote_command())
                        } else {
                            let cs = chars_of(stdout.as_str());
                            let e = trimmed_end(&cs, 0, cs.len());
                            let st = trimmed_start(&cs, 0, e);
                            proof {
                                assert(cs@.subrange(0, cs@.len() as int) =~= stdout@);
                            }
                            let oid = stdout.as_str().substring_char(st, e);
                            match CommitId::try_from_hex(oid) {
                                Some(id) => {
                                    self.phase = Phase::DeletingRef;
                                    self.pending = Some(Ok(id));
                                    let r = vec![text("update-ref"), text("-d"), local_ref];
                                    assert(args_view(r@) =~= delete_ref_args(self.remote_ref@));
                                    FetchStep::Run(r)
                                },
                                None => {
                                    self.phase = Phase::CleaningUp;
                                    self.pending = Some(
                                        Err(
                                            SubtreeBackendError::FetchFailed {
                                                repository: self.repository.clone(),
                                                message: concat("Invalid commit hash: ", oid),
                                            },
                                        ),
                                    );
                                    FetchStep::Run(remove_remote_command())
                                },
                            }
                        }
                    },
                }
            },
            Phase::DeletingRef => {
                self.phase = Phase::CleaningUp;
                FetchStep::Run(remove_remote_command())
            },
            _ => {
                self.phase = Phase::Done;
                match self.pending.take() {
                    Some(result) => FetchStep::Finished(result),
                    None => FetchStep::Finished(Err(SubtreeBackendError::RemoteNotSupported)),
                }
            },
        }
    }
}

/// A push of a commit to another repository, one Git command at a time.
#[derive(Debug)]
pub struct RemotePush {
    invocation: GitInvocation,
    repository: String,
    local_commit: CommitId,
    remote_ref: String,
    force: bool,
    phase: Phase,
    pending: Option<Result<(), SubtreeBackendError>>,
}

impl RemotePush {
    pub closed spec fn repository(self) -> Seq<char> {
        self.repository@
    }

    pub closed spec fn local_commit(self) -> Seq<u8> {
        self.local_commit@
    }

    pub closed spec fn remote_ref(self) -> Seq<char> {
        self.remote_ref@
    }

    pub closed spec fn force(self) -> bool {
        self.force
    }

    pub closed spec fn state(self) -> Phase {
        self.phase
    }

    /// The result the push will end with, once it is known.
    pub closed spec fn pending(self) -> Option<Result<(), ErrorView>> {
        push_pending_view(self.pending)
    }

    pub closed spec fn git_dir(self) -> Seq<char> {
        self.invocation.git_dir@
    }

    /// A push knows its result exactly while it cleans up, and has no ref
    /// to resolve or delete.
    pub open spec fn well_formed(self) -> bool {
        &&& self.state() == Phase::CleaningUp <==> self.pending() is Some
        &&& self.state() != Phase::Resolving
        &&& self.state() != Phase::DeletingRef
    }

    pub open spec fn is_fresh(self) -> bool {
        self.state() == Phase::Start && self.pending() is None && self.well_formed()
    }

    pub(crate) fn new(
        invocation: GitInvocation,
        repository: &str,
        local_commit: &CommitId,
        remote_ref: &str,
        force: bool,
    ) -> (r: RemotePush)
        ensures
            r.is_fresh(),
            r.repository() == repository@,
            r.local_commit() == local_commit@,
            r.remote_ref() == remote_ref@,
            r.force() == force,
            r.git_dir() == invocation.git_dir@,
    {
        RemotePush {
            invocation,
            repository: text(repository),
            local_commit: local_commit.copy(),
            remote_ref: text(remote_ref),
            force,
            phase: Phase::Start,
            pending: None,
        }
    }

    /// How Git is to be run for this push.
    pub fn invocation(&self) -> (r: &GitInvocation)
        ensures
            r.git_dir@ == self.git_dir(),
    {
        &self.invocation
    }

    pub fn phase(&self) -> (r: Phase)
        ensures
            r == self.state(),
    {
        self.phase
    }

    /// The first command: removing a temporary remote that an earlier
    /// operation may have left behind. How it ends does not matter.
    pub fn begin(&mut self) -> (r: PushStep)
        requires
            old(self).well_formed(),
            old(self).state() == Phase::Start,
        ensures
            final(self).well_formed(),
            final(self).state() == Phase::RemovingStale,
            final(self).pending() == old(self).pending(),
            r@ == StepView::<()>::Run(remove_remote_args()),
            final(self).repository() == old(self).repository(),
            final(self).local_commit() == old(self).local_commit(),
            final(self).remote_ref() == old(self).remote_ref(),
            final(self).force() == old(self).force(),
            final(self).git_dir() == old(self).git_dir(),
    {
        self.phase = Phase::RemovingStale;
        PushStep::Run(remove_remote_command())
    }

    /// The next step, given how the last command ended.
    pub fn step(&mut self, event: GitEvent) -> (r: PushStep)
        requires
            old(self).well_formed(),
            old(self).state() != Phase::Start,
            old(self).state() != Phase::Done,
        ensures
            final(self).well_formed(),
            (final(self).state(), final(self).pending(), r@) == push_next(
                old(self).state(),
                old(self).pending(),
                event,
                old(self).repository(),
                old(self).local_commit(),
                old(self).remote_ref(),
                old(self).force(),
            ),
            final(self).repository() == old(self).repository(),
            final(self).local_commit() == old(self).local_commit(),
            final(self).remote_ref() == old(self).remote_ref(),
            final(self).force() == old(self).force(),
            final(self).git_dir() == old(self).git_dir(),
    {
        match self.phase {
            Phase::RemovingStale => {
                self.phase = Phase::AddingRemote;
                PushStep::Run(add_remote_command(&self.repository))
            },
            Phase::AddingRemote => match event {
                GitEvent::SpawnFailed { message } => {
                    self.phase = Phase::Done;
                    PushStep::Finished(
                        Err(
                            SubtreeBackendError::PushFailed {
                                repository: self.repository.clone(),
                                message: spawn_failure_message(&message),
                            },
                        ),
                    )
                },
                GitEvent::Completed { success, stdout, stderr } => {
                    if success {
                        self.phase = Phase::Transferring;
                        let mut refspec = if self.force {
                            text("+")
                        } else {
                            String::new()
                        };
                        refspec.append(self.local_commit.hex().as_str());
                        refspec.append(":");
                        refspec.append(qualify_ref(self.remote_ref.as_str()).as_str());
                        let r = vec![
                            text("push"),
                            text("--porcelain"),
                            text("--"),
                            text("jj-subtree-temp"),
                            refspec,
                        ];
                        assert(args_view(r@) =~= push_args(self.local_commit@, self.remote_ref@, self.force));
                        PushStep::Run(r)
                    } else {
                        self.phase = Phase::Done;
                        PushStep::Finished(
                            Err(
                                SubtreeBackendError::PushFailed {
                                    repository: self.repository.clone(),
                                    message: concat(
                                        "Failed to create temporary remote: ",
                                        stderr.as_str(),
                                    ),
                                },
                            ),
                        )
                    }
                },
            },
            Phase::Transferring => {
                let failure = match event {
                    GitEvent::SpawnFailed { message } => Some(spawn_failure_message(&message)),
                    GitEvent::Completed { success, stdout, stderr } => if success {
                        None
                    } else if contains_text(stdout.as_str(), "![rejected]") || contains_text(
                        stdout.as_str(),
                        "! [rejected]",
                    ) {
                        Some(concat("Push rejected: ", stdout.as_str()))
                    } else {
                        Some(stderr)
                    },
                };
                self.phase = Phase::CleaningUp;
                match failure {
                    Some(message) => {
                        self.pending = Some(
                            Err(
                                SubtreeBackendError::PushFailed {
                                    repository: self.repository.clone(),
                                    message,
                                },
                            ),
                        );
                    },
                    None => {
                        self.pending = Some(Ok(()));
                    },
                }
                PushStep::Run(remove_remote_command())
            },
            Phase::CleaningUp => {
                self.phase = Phase::Done;
                match self.pending.take() {
                    Some(result) => PushStep::Finished(result),
                    None => PushStep::Finished(Err(SubtreeBackendError::RemoteNotSupported)),
                }
            },
            _ => PushStep::Run(Vec::new()),
        }
    }
}

/// The Git backend of a store: it fetches and pushes by running Git on the
/// store's Git repository.
#[derive(Debug)]
pub struct GitSubtreeBackend {
    git_dir: Option<String>,
    subprocess_options: Option<GitSubprocessOptions>,
}

pub open spec fn options_view(o: GitSubprocessOptions) -> (Seq<char>, Seq<(Seq<char>, Seq<char>)>) {
    (o.executable_path@, env_view(o.environment@))
}

impl GitSubtreeBackend {
    /// The Git directory, where the store is backed by Git.
    pub closed spec fn git_dir(self) -> Option<Seq<char>> {
        match self.git_dir {
            Some(d) => Some(d@),
            None => None,
        }
    }

    /// The configured way of running Git, if one was set.
    pub closed spec fn options(self) -> Option<(Seq<char>, Seq<(Seq<char>, Seq<char>)>)> {
        match self.subprocess_options {
            Some(o) => Some(options_view(o)),
            None => None,
        }
    }

    /// A backend for the Git repository of `store`; where the store is not
    /// backed by Git, it supports no remote operation.
    pub fn new(store: &Store) -> (r: GitSubtreeBackend)
        ensures
            r.git_dir() == store.git_path(),
            r.options() is None,
    {
        let git_dir = match store.git_repo_path() {
            Some(p) => Some(p.clone()),
            None => None,
        };
        GitSubtreeBackend { git_dir, subprocess_options: None }
    }

    /// The same backend, running Git as `options` say.
    pub fn with_subprocess_options(self, options: GitSubprocessOptions) -> (r: GitSubtreeBackend)
        ensures
            r.git_dir() == self.git_dir(),
            r.options() == Some(options_view(options)),
    {
        GitSubtreeBackend { git_dir: self.git_dir, subprocess_options: Some(options) }
    }

    /// The configured way of running Git, or `git` from the search path.
    fn get_subprocess_options(&self) -> (r: GitSubprocessOptions)
        ensures
            self.options() is Some ==> Some(options_view(r)) == self.options(),
            self.options() is None ==> r.executable_path@ == "git"@ && r.environment@.len() == 0,
    {
        match &self.subprocess_options {
            Some(o) => o.copy(),
            None => GitSubprocessOptions::default_options(),
        }
    }

    /// The Git directory; a store that is not backed by Git has none.
    fn git_dir_path(&self) -> (r: Result<String, SubtreeBackendError>)
        ensures
            r is Ok <==> self.git_dir() is Some,
            r matches Ok(d) ==> Some(d@) == self.git_dir(),
            r matches Err(e) ==> e is RemoteNotSupported,
    {
        match &self.git_dir {
            Some(d) => Ok(d.clone()),
            None => Err(SubtreeBackendError::RemoteNotSupported),
        }
    }

    /// How to run Git on this backend's repository.
    pub fn invocation(&self) -> (r: Result<GitInvocation, SubtreeBackendError>)
        ensures
            r is Ok <==> self.git_dir() is Some,
            r matches Ok(i) ==> Some(i.git_dir@) == self.git_dir(),
            r matches Ok(i) ==> self.options() is Some ==> self.options() == Some(
                (i.program@, env_view(i.environment@)),
            ),
            r matches Ok(i) ==> self.options() is None ==> i.program@ == "git"@
                && i.environment@.len() == 0,
            r matches Err(e) ==> e is RemoteNotSupported,
    {
        let git_dir = match self.git_dir_path() {
            Ok(d) => d,
            Err(e) => {
                return Err(e);
            },
        };
        let options = self.get_subprocess_options();
        Ok(GitInvocation { program: options.executable_path, git_dir, environment: options.environment })
    }
}

impl SubtreeBackend for GitSubtreeBackend {
    open spec fn remote_supported(&self) -> bool {
        self.git_dir() is Some
    }

    fn supports_remote_operations(&self) -> (r: bool) {
        self.git_dir.is_some()
    }

    fn fetch_remote(&self, repository: &str, remote_ref: &str) -> (r: Result<RemoteFetch, SubtreeBackendError>) {
        match self.invocation() {
            Ok(invocation) => Ok(RemoteFetch::new(invocation, repository, remote_ref)),
            Err(e) => Err(e),
        }
    }

    fn push_remote(&self, repository: &str, local_commit: &CommitId, remote_ref: &str, force: bool) -> (r:
        Result<RemotePush, SubtreeBackendError>) {
        match self.invocation() {
            Ok(invocation) => Ok(RemotePush::new(invocation, repository, local_commit, remote_ref, force)),
            Err(e) => Err(e),
        }
    }
}

} // verus!
