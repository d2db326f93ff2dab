//! The capability to fetch from and push to other repositories, and the
//! choice of backend for a store.
use vstd::prelude::*;
use crate::store::BackendError;
use crate::store::CommitId;
use crate::store::Store;
use crate::git_backend::GitSubtreeBackend;
use crate::git_backend::RemoteFetch;
use crate::git_backend::RemotePush;

verus! {

/// Errors of the remote operations.
#[derive(Debug)]
pub enum SubtreeBackendError {
    /// The store is not backed by Git, so nothing can be fetched or pushed.
    RemoteNotSupported,
    /// A fetch failed.
    FetchFailed { repository: String, message: String },
    /// A push failed.
    PushFailed { repository: String, message: String },
    /// The remote repository does not exist.
    RemoteNotFound(String),
    /// The remote ref does not exist.
    RefNotFound(String),
    /// An error of the object store.
    Backend(BackendError),
}

/// What an error stands for, with its texts as character sequences.
pub enum ErrorView {
    RemoteNotSupported,
    FetchFailed { repository: Seq<char>, message: Seq<char> },
    PushFailed { repository: Seq<char>, message: Seq<char> },
    RemoteNotFound(Seq<char>),
    RefNotFound(Seq<char>),
    Backend,
}

impl View for SubtreeBackendError {
    type V = ErrorView;

    open spec fn view(&self) -> ErrorView {
        match self {
            SubtreeBackendError::RemoteNotSupported => ErrorView::RemoteNotSupported,
            SubtreeBackendError::FetchFailed { repository, message } => ErrorView::FetchFailed {
                repository: repository@,
                message: message@,
            },
            SubtreeBackendError::PushFailed { repository, message } => ErrorView::PushFailed {
                repository: repository@,
                message: message@,
            },
            SubtreeBackendError::RemoteNotFound(s) => ErrorView::RemoteNotFound(s@),
            SubtreeBackendError::RefNotFound(s) => ErrorView::RefNotFound(s@),
            SubtreeBackendError::Backend(_) => ErrorView::Backend,
        }
    }
}

/// Remote operations of a store. An operation is started here and then run
/// by whoever can run Git: see [`RemoteFetch`] and [`RemotePush`].
pub trait SubtreeBackend {
    /// Whether fetch and push can work with this backend.
    spec fn remote_supported(&self) -> bool;

    fn supports_remote_operations(&self) -> (r: bool)
        ensures
            r == self.remote_supported(),
    ;

    /// Starts fetching `remote_ref` from `repository`.
    fn fetch_remote(&self, repository: &str, remote_ref: &str) -> (r: Result<RemoteFetch, SubtreeBackendError>)
        ensures
            r is Ok <==> self.remote_supported(),
            r matches Err(e) ==> e is RemoteNotSupported,
            r matches Ok(f) ==> f.is_fresh() && f.repository() == repository@ && f.remote_ref()
                == remote_ref@,
    ;

    /// Starts pushing `local_commit` to `remote_ref` of `repository`,
    /// overwriting the remote ref where `force` is set.
    fn push_remote(&self, repository: &str, local_commit: &CommitId, remote_ref: &str, force: bool) -> (r:
        Result<RemotePush, SubtreeBackendError>)
        ensures
            r is Ok <==> self.remote_supported(),
            r matches Err(e) ==> e is RemoteNotSupported,
            r matches Ok(p) ==> p.is_fresh() && p.repository() == repository@ && p.remote_ref()
                == remote_ref@ && p.local_commit() == local_commit@ && p.force() == force,
    ;
}

/// The backend of a store that is not backed by Git: it has no remote
/// operations.
#[derive(Debug)]
pub struct LocalSubtreeBackend {}

impl LocalSubtreeBackend {
    pub fn new(_store: &Store) -> (r: LocalSubtreeBackend)
        ensures
            !r.remote_supported(),
    {
        LocalSubtreeBackend {  }
    }
}

impl SubtreeBackend for LocalSubtreeBackend {
    open spec fn remote_supported(&self) -> bool {
        false
    }

    fn supports_remote_operations(&self) -> (r: bool) {
        false
    }

    fn fetch_remote(&self, repository: &str, remote_ref: &str) -> (r: Result<RemoteFetch, SubtreeBackendError>) {
        Err(SubtreeBackendError::RemoteNotSupported)
    }

    fn push_remote(&self, repository: &str, local_commit: &CommitId, remote_ref: &str, force: bool) -> (r:
        Result<RemotePush, SubtreeBackendError>) {
        Err(SubtreeBackendError::RemoteNotSupported)
    }
}

/// The backend chosen for a store.
#[derive(Debug)]
pub enum AnySubtreeBackend {
    Git(GitSubtreeBackend),
    Local(LocalSubtreeBackend),
}

impl SubtreeBackend for AnySubtreeBackend {
    open spec fn remote_supported(&self) -> bool {
        match self {
            AnySubtreeBackend::Git(b) => b.remote_supported(),
            AnySubtreeBackend::Local(b) => b.remote_supported(),
        }
    }

    fn supports_remote_operations(&self) -> (r: bool) {
        match self {
            AnySubtreeBackend::Git(b) => b.supports_remote_operations(),
            AnySubtreeBackend::Local(b) => b.supports_remote_operations(),
        }
    }

    fn fetch_remote(&self, repository: &str, remote_ref: &str) -> (r: Result<RemoteFetch, SubtreeBackendError>) {
        match self {
            AnySubtreeBackend::Git(b) => b.fetch_remote(repository, remote_ref),
            AnySubtreeBackend::Local(b) => b.fetch_remote(repository, remote_ref),
        }
    }

    fn push_remote(&self, repository: &str, local_commit: &CommitId, remote_ref: &str, force: bool) -> (r:
        Result<RemotePush, SubtreeBackendError>) {
        match self {
            AnySubtreeBackend::Git(b) => b.push_remote(repository, local_commit, remote_ref, force),
            AnySubtreeBackend::Local(b) => b.push_remote(repository, local_commit, remote_ref, force),
        }
    }
}

/// The backend for a store: the Git backend, bound to the store's Git
/// repository, where the store is backed by Git, and the local backend
/// otherwise.
pub fn create_subtree_backend(store: &Store) -> (r: AnySubtreeBackend)
    ensures
        store.git_path() is Some <==> r is Git,
        r matches AnySubtreeBackend::Git(g) ==> g.git_dir() == store.git_path() && g.options() is None,
        r.remote_supported() == store.git_path() is Some,
{
    if store.is_git_backed() {
        AnySubtreeBackend::Git(GitSubtreeBackend::new(store))
    } else {
        AnySubtreeBackend::Local(LocalSubtreeBackend::new(store))
    }
}

} // verus!
