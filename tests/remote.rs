use jj_subtree::backend::create_subtree_backend;
use jj_subtree::backend::SubtreeBackend;
use jj_subtree::backend::SubtreeBackendError;
use jj_subtree::git_backend::qualify_ref;
use jj_subtree::git_backend::FetchStep;
use jj_subtree::git_backend::GitEvent;
use jj_subtree::git_backend::GitSubprocessOptions;
use jj_subtree::git_backend::GitSubtreeBackend;
use jj_subtree::git_backend::Phase;
use jj_subtree::git_backend::PushStep;
use jj_subtree::store::CommitId;
use jj_subtree::store::Store;

fn ok(stdout: &str) -> GitEvent {
    GitEvent::Completed { success: true, stdout: stdout.to_string(), stderr: String::new() }
}

fn failed(stdout: &str, stderr: &str) -> GitEvent {
    GitEvent::Completed { success: false, stdout: stdout.to_string(), stderr: stderr.to_string() }
}

fn run_args(step: FetchStep) -> Vec<String> {
    match step {
        FetchStep::Run(args) => args,
        other => panic!("expected a command, got {:?}", other),
    }
}

fn push_args(step: PushStep) -> Vec<String> {
    match step {
        PushStep::Run(args) => args,
        other => panic!("expected a command, got {:?}", other),
    }
}

fn git_backend() -> GitSubtreeBackend {
    GitSubtreeBackend::new(&Store::new(Some("/work/.git".to_string())))
}

#[test]
fn fetch_runs_the_whole_protocol() {
    let mut fetch = git_backend().fetch_remote("https://example.com/r.git", "main").unwrap();
    assert_eq!(run_args(fetch.begin()), vec!["remote", "remove", "jj-subtree-temp"]);
    assert_eq!(
        run_args(fetch.step(failed("", "no such remote"))),
        vec!["remote", "add", "jj-subtree-temp", "https://example.com/r.git"]
    );
    assert_eq!(
        run_args(fetch.step(ok(""))),
        vec![
            "fetch",
            "--no-write-fetch-head",
            "--",
            "jj-subtree-temp",
            "refs/heads/main:refs/jj/subtree-fetch/main"
        ]
    );
    assert_eq!(run_args(fetch.step(ok(""))), vec!["rev-parse", "refs/jj/subtree-fetch/main"]);
    assert_eq!(
        run_args(fetch.step(ok("0123456789abcdef0123456789abcdef01234567\n"))),
        vec!["update-ref", "-d", "refs/jj/subtree-fetch/main"]
    );
    assert_eq!(run_args(fetch.step(failed("", "ignored"))), vec!["remote", "remove", "jj-subtree-temp"]);
    match fetch.step(ok("")) {
        FetchStep::Finished(Ok(id)) => assert_eq!(id.hex(), "0123456789abcdef0123456789abcdef01234567"),
        other => panic!("expected a commit, got {:?}", other),
    }
    assert_eq!(fetch.phase(), Phase::Done);
}

#[test]
fn fetch_cleans_up_after_a_failed_fetch() {
    let mut fetch = git_backend().fetch_remote("/elsewhere", "refs/tags/v1").unwrap();
    fetch.begin();
    fetch.step(ok(""));
    let args = run_args(fetch.step(ok("")));
    assert_eq!(args[4], "refs/tags/v1:refs/jj/subtree-fetch/refs/tags/v1");
    assert_eq!(run_args(fetch.step(failed("", "fatal: couldn't find remote ref"))), vec![
        "remote",
        "remove",
        "jj-subtree-temp"
    ]);
    match fetch.step(ok("")) {
        FetchStep::Finished(Err(SubtreeBackendError::FetchFailed { repository, message })) => {
            assert_eq!(repository, "/elsewhere");
            assert_eq!(message, "fatal: couldn't find remote ref");
        }
        other => panic!("expected a fetch failure, got {:?}", other),
    }
}

#[test]
fn fetch_reports_an_unresolvable_ref() {
    let mut fetch = git_backend().fetch_remote("/elsewhere", "main").unwrap();
    fetch.begin();
    fetch.step(ok(""));
    fetch.step(ok(""));
    fetch.step(ok(""));
    assert_eq!(run_args(fetch.step(failed("", "unknown revision"))), vec![
        "remote",
        "remove",
        "jj-subtree-temp"
    ]);
    assert!(matches!(fetch.step(ok("")), FetchStep::Finished(Err(SubtreeBackendError::RefNotFound(r))) if r == "main"));
}

#[test]
fn fetch_rejects_a_malformed_hash() {
    let mut fetch = git_backend().fetch_remote("/elsewhere", "main").unwrap();
    fetch.begin();
    fetch.step(ok(""));
    fetch.step(ok(""));
    fetch.step(ok(""));
    run_args(fetch.step(ok("not-a-hash\n")));
    match fetch.step(ok("")) {
        FetchStep::Finished(Err(SubtreeBackendError::FetchFailed { message, .. })) => {
            assert_eq!(message, "Invalid commit hash: not-a-hash");
        }
        other => panic!("expected a fetch failure, got {:?}", other),
    }
}

#[test]
fn fetch_stops_when_the_remote_cannot_be_added() {
    let mut fetch = git_backend().fetch_remote("/elsewhere", "main").unwrap();
    fetch.begin();
    fetch.step(ok(""));
    match fetch.step(failed("", "bad url")) {
        FetchStep::Finished(Err(SubtreeBackendError::FetchFailed { message, .. })) => {
            assert_eq!(message, "Failed to create temporary remote: bad url");
        }
        other => panic!("expected a fetch failure, got {:?}", other),
    }
}

#[test]
fn fetch_reports_a_command_that_could_not_start() {
    let mut fetch = git_backend().fetch_remote("/elsewhere", "main").unwrap();
    fetch.begin();
    fetch.step(ok(""));
    fetch.step(ok(""));
    run_args(fetch.step(GitEvent::SpawnFailed { message: "not found".to_string() }));
    match fetch.step(ok("")) {
        FetchStep::Finished(Err(SubtreeBackendError::FetchFailed { message, .. })) => {
            assert_eq!(message, "Failed to execute git command: not found");
        }
        other => panic!("expected a fetch failure, got {:?}", other),
    }
}

#[test]
fn push_builds_the_refspec() {
    let id = CommitId::new(vec![0xde, 0xad, 0xbe, 0xef]);
    let mut push = git_backend().push_remote("/elsewhere", &id, "feature", true).unwrap();
    push.begin();
    push.step(ok(""));
    assert_eq!(
        push_args(push.step(ok(""))),
        vec!["push", "--porcelain", "--", "jj-subtree-temp", "+deadbeef:refs/heads/feature"]
    );
    assert_eq!(push_args(push.step(ok(""))), vec!["remote", "remove", "jj-subtree-temp"]);
    assert!(matches!(push.step(ok("")), PushStep::Finished(Ok(()))));
}

#[test]
fn push_reports_a_rejection() {
    let id = CommitId::new(vec![0x01]);
    let mut push = git_backend().push_remote("/elsewhere", &id, "refs/heads/main", false).unwrap();
    push.begin();
    push.step(ok(""));
    let args = push_args(push.step(ok("")));
    assert_eq!(args[4], "01:refs/heads/main");
    push_args(push.step(failed("To /elsewhere\n!\trefs/heads/main ! [rejected] (non-fast-forward)\n", "error")));
    match push.step(ok("")) {
        PushStep::Finished(Err(SubtreeBackendError::PushFailed { message, .. })) => {
            assert!(message.starts_with("Push rejected: "));
        }
        other => panic!("expected a rejection, got {:?}", other),
    }
}

#[test]
fn push_reports_other_failures_from_stderr() {
    let id = CommitId::new(vec![0x01]);
    let mut push = git_backend().push_remote("/elsewhere", &id, "main", false).unwrap();
    push.begin();
    push.step(ok(""));
    push.step(ok(""));
    push.step(failed("", "fatal: unreachable"));
    match push.step(ok("")) {
        PushStep::Finished(Err(SubtreeBackendError::PushFailed { repository, message })) => {
            assert_eq!(repository, "/elsewhere");
            assert_eq!(message, "fatal: unreachable");
        }
        other => panic!("expected a failure, got {:?}", other),
    }
}

#[test]
fn push_stops_when_the_remote_cannot_be_added() {
    let id = CommitId::new(vec![0x01]);
    let mut push = git_backend().push_remote("/elsewhere", &id, "main", false).unwrap();
    push.begin();
    push.step(ok(""));
    assert!(matches!(push.step(failed("", "x")), PushStep::Finished(Err(SubtreeBackendError::PushFailed { .. }))));
}

#[test]
fn commands_get_the_common_options_and_locale() {
    let backend = create_subtree_backend(&Store::new(Some("/work/.git".to_string())));
    let fetch = backend.fetch_remote("/r", "main").unwrap();
    let invocation = fetch.invocation();
    assert_eq!(invocation.program, "git");
    let args = invocation.command_args(&vec!["status".to_string()]);
    assert_eq!(args, vec![
        "-c",
        "core.fsmonitor=false",
        "-c",
        "submodule.recurse=false",
        "--git-dir",
        "/work/.git",
        "status"
    ]);
    assert_eq!(invocation.command_env(), vec![("LC_ALL".to_string(), "C".to_string())]);
}

#[test]
fn configured_options_are_used() {
    let options = GitSubprocessOptions {
        executable_path: "/usr/local/bin/git".to_string(),
        environment: vec![("GIT_TRACE".to_string(), "1".to_string())],
    };
    let backend = git_backend().with_subprocess_options(options);
    let invocation = backend.invocation().unwrap();
    assert_eq!(invocation.program, "/usr/local/bin/git");
    assert_eq!(invocation.command_env(), vec![
        ("LC_ALL".to_string(), "C".to_string()),
        ("GIT_TRACE".to_string(), "1".to_string())
    ]);
}

#[test]
fn git_backend_without_git_store_supports_nothing() {
    let backend = GitSubtreeBackend::new(&Store::new(None));
    assert!(!backend.supports_remote_operations());
    assert!(matches!(backend.fetch_remote("/r", "main"), Err(SubtreeBackendError::RemoteNotSupported)));
}

#[test]
fn refs_are_qualified() {
    assert_eq!(qualify_ref("main"), "refs/heads/main");
    assert_eq!(qualify_ref("refs/tags/v1"), "refs/tags/v1");
}
