//! A session with a provider: what is asked, what answers are accepted, and what is kept of them.

use crate::content::{content_bytes, decode_content, same_bytes, Content};
use crate::error::VcsError;
use crate::model::{
    capability_problem, commit_problem, first_problem, law_checked_snapshot_is_well_formed,
    lemma_first_problem, lemma_no_problem, outcome, snapshot_problem, valid_revision,
    validate_revision, well_formed, Capabilities, CommitChange, History, HistoryCommit,
    RepositoryInfo, Snapshot, MAX_HISTORY_COMMITS,
};
use crate::path::{
    components, law_components_stand_between_separators, law_invalid_paths_are_refused, path_problem,
    valid_path, validate_path,
};
use crate::request::{Request, RequestView, PROTOCOL_VERSION};
use crate::text::{ascii_lower, same_text};
use crate::transport::ProcessTransport;
use vstd::hash_set::StringHashSet;
use vstd::prelude::*;

verus! {

/// How a provider introduces itself.
#[derive(Clone, Debug, PartialEq, Eq)]
pub struct Initialization {
    pub protocol_version: String,
    pub capabilities: Capabilities,
}

/// Whether a feature is advertised that this version of the protocol only reserves.
pub open spec fn reserved_feature(capabilities: Capabilities) -> bool {
    capabilities.blame || capabilities.branch_diff || capabilities.permalinks
        || capabilities.diff_stats || capabilities.stashes || capabilities.worktrees
}

/// What is wrong with how a provider introduces itself.
pub open spec fn initialization_problem(initialization: Initialization) -> Option<VcsError> {
    let capabilities = initialization.capabilities;
    if initialization.protocol_version@ != "0.1"@ {
        Some(VcsError::UnsupportedVersion)
    } else if !capabilities.read_only {
        Some(VcsError::NotReadOnly)
    } else if capabilities.tracking && !capabilities.branches {
        Some(VcsError::TrackingWithoutBranches)
    } else if reserved_feature(capabilities) {
        Some(VcsError::ReservedFeature)
    } else {
        None
    }
}

/// What is wrong with a discovered repository, given whether its root is the workspace's.
pub open spec fn discovery_problem(
    repository: Option<RepositoryInfo>,
    root_matches: bool,
) -> Option<VcsError> {
    match repository {
        None => Some(VcsError::UnrecognizedWorkspace),
        Some(repository) => if !root_matches {
            Some(VcsError::RootMismatch)
        } else if repository.id@.len() == 0 || repository.label@.len() == 0 {
            Some(VcsError::EmptyIdentity)
        } else {
            None
        },
    }
}

/// What is wrong with a snapshot under some capabilities.
pub open spec fn status_problem(snapshot: Snapshot, capabilities: Capabilities) -> Option<
    VcsError,
> {
    match snapshot_problem(snapshot) {
        Some(problem) => Some(problem),
        None => capability_problem(snapshot, capabilities),
    }
}

/// Whether a part of a path counts: empty ones and single dots do not.
pub open spec fn counts(part: Seq<char>) -> bool {
    part.len() > 0 && part != seq!['.']
}

/// The parts of a path that count, split at `/`.
pub open spec fn parts(path: Seq<char>) -> Seq<Seq<char>> {
    components(path).filter(|part: Seq<char>| counts(part))
}

/// The parts of a path that count, split at `/` and at `\`, in lower case as far as ASCII goes.
pub open spec fn spelled(path: Seq<char>) -> Seq<Seq<char>> {
    parts(
        path.map_values(
            |c: char|
                if c == '\\' {
                    '/'
                } else {
                    ascii_lower(c)
                },
        ),
    )
}

/// Whether a path starts at the root on every platform: with exactly one `/`, and without anything
/// that is a separator or a prefix on some platforms only.
pub open spec fn rooted(path: Seq<char>) -> bool {
    &&& path.len() > 0 && path[0] == '/'
    &&& path.len() > 1 ==> path[1] != '/'
    &&& !path.contains('\\')
    &&& !path.contains(':')
}

/// Compares two paths with `std::path::Path`'s `==`, which goes by components: repeated and
/// trailing separators do not count, nor do single dots but for one at the very beginning of a
/// relative path, and nothing else is passed over but the case of a drive letter. So paths from
/// the root are equal exactly where their parts are, a path equals itself, and equal paths spell
/// the same. Of other paths, which characters separate and what is a prefix is left to the
/// platform.
#[verifier::external_body]
pub(crate) fn same_path(left: &str, right: &str) -> (same: bool)
    ensures
        left@ == right@ ==> same,
        same ==> spelled(left@) == spelled(right@),
        rooted(left@) && rooted(right@) ==> same == (parts(left@) == parts(right@)),
{
    std::path::Path::new(left) == std::path::Path::new(right)
}

/// A session that has asked the provider to begin.
#[derive(Debug)]
pub struct Starting {
    pub root: String,
}

/// A session that has asked for the repository of its workspace.
#[derive(Debug)]
pub struct Discovering {
    pub root: String,
    pub capabilities: Capabilities,
}

/// A session that has asked for its first snapshot.
#[derive(Debug)]
pub struct Loading {
    pub repository: RepositoryInfo,
    pub capabilities: Capabilities,
}

/// A session: the repository, what the provider can do, and the last valid snapshot.
#[derive(Debug)]
pub struct Client {
    pub repository: RepositoryInfo,
    pub capabilities: Capabilities,
    pub snapshot: Snapshot,
}

/// Checks a snapshot as the protocol and the capabilities want it.
fn check_status(snapshot: &Snapshot, capabilities: Capabilities) -> (checked: Result<(), VcsError>)
    ensures
        checked == outcome(status_problem(*snapshot, capabilities)),
{
    snapshot.validate()?;
    snapshot.validate_capabilities(capabilities)
}

impl Starting {
    /// Takes the provider's introduction; next, it is asked for the repository.
    pub fn initialized(self, initialization: Initialization) -> (next: Result<
        (Discovering, Request),
        VcsError,
    >)
        ensures
            match initialization_problem(initialization) {
                Some(problem) => next == Err::<(Discovering, Request), VcsError>(problem),
                None => next matches Ok((discovering, request)) && discovering == (Discovering {
                    root: self.root,
                    capabilities: initialization.capabilities,
                }) && request@ == (RequestView::Discover { workspace_root: self.root@ }),
            },
    {
        let capabilities: Capabilities = initialization.capabilities;
        if !same_text(&initialization.protocol_version, PROTOCOL_VERSION) {
            return Err(VcsError::UnsupportedVersion);
        }
        if !capabilities.read_only {
            return Err(VcsError::NotReadOnly);
        }
        if capabilities.tracking && !capabilities.branches {
            return Err(VcsError::TrackingWithoutBranches);
        }
        if capabilities.blame || capabilities.branch_diff || capabilities.permalinks
            || capabilities.diff_stats || capabilities.stashes || capabilities.worktrees {
            return Err(VcsError::ReservedFeature);
        }
        let request: Request = Request::Discover { workspace_root: self.root.clone() };
        Ok((Discovering { root: self.root, capabilities }, request))
    }
}

impl Discovering {
    /// Whether `next` is what follows a repository, given whether its root is the workspace's.
    pub open spec fn settles(
        self,
        repository: Option<RepositoryInfo>,
        root_matches: bool,
        next: Result<(Loading, Request), VcsError>,
    ) -> bool {
        match discovery_problem(repository, root_matches) {
            Some(problem) => next == Err::<(Loading, Request), VcsError>(problem),
            None => next matches Ok((loading, request)) && loading == (Loading {
                repository: repository->0,
                capabilities: self.capabilities,
            }) && request@ == (RequestView::Status { repository: repository->0.id@ }),
        }
    }

    /// Takes the repository, given whether its root is the workspace's; next, the provider is
    /// asked for a snapshot.
    pub fn settled(self, repository: Option<RepositoryInfo>, root_matches: bool) -> (next: Result<
        (Loading, Request),
        VcsError,
    >)
        ensures
            self.settles(repository, root_matches, next),
    {
        match repository {
            None => Err(VcsError::UnrecognizedWorkspace),
            Some(repository) => {
                if !root_matches {
                    return Err(VcsError::RootMismatch);
                }
                if repository.id.as_str().is_empty() || repository.label.as_str().is_empty() {
                    return Err(VcsError::EmptyIdentity);
                }
                let request: Request = Request::Status { repository: repository.id.clone() };
                Ok((Loading { repository, capabilities: self.capabilities }, request))
            },
        }
    }

    /// Takes the repository, which must be that of the workspace: of the same root.
    pub fn discovered(self, repository: Option<RepositoryInfo>) -> (next: Result<
        (Loading, Request),
        VcsError,
    >)
        ensures
            repository is None ==> self.settles(repository, false, next),
            repository matches Some(found) ==> {
                &&& self.settles(repository, true, next) || self.settles(repository, false, next)
                &&& found.root@ == self.root@ ==> self.settles(repository, true, next)
                &&& spelled(found.root@) != spelled(self.root@) ==> self.settles(
                    repository,
                    false,
                    next,
                )
                &&& rooted(found.root@) && rooted(self.root@) ==> self.settles(
                    repository,
                    parts(found.root@) == parts(self.root@),
                    next,
                )
            },
    {
        let root_matches: bool = match &repository {
            Some(found) => same_path(&found.root, &self.root),
            None => false,
        };
        self.settled(repository, root_matches)
    }
}

impl Loading {
    /// Takes the first snapshot; with it the session stands.
    pub fn loaded(self, snapshot: Snapshot) -> (client: Result<Client, VcsError>)
        ensures
            match status_problem(snapshot, self.capabilities) {
                Some(problem) => client == Err::<Client, VcsError>(problem),
                None => client matches Ok(client) && client.repository == self.repository
                    && client.capabilities == self.capabilities && client.snapshot == snapshot
                    && client.wf() && client.advertised(),
            },
    {
        proof {
            law_checked_snapshot_is_well_formed(snapshot);
        }
        check_status(&snapshot, self.capabilities)?;
        Ok(Client { repository: self.repository, capabilities: self.capabilities, snapshot })
    }
}

impl Client {
    /// The snapshot is as the protocol wants it.
    pub open spec fn wf(&self) -> bool {
        well_formed(self.snapshot)
    }

    /// The snapshot holds nothing that the provider did not advertise.
    pub open spec fn advertised(&self) -> bool {
        capability_problem(self.snapshot, self.capabilities) is None
    }

    /// Begins a session about the workspace at `root`.
    pub fn start(root: String) -> (next: (Starting, Request))
        ensures
            next.0 == (Starting { root }),
            next.1@ == RequestView::Initialize,
    {
        (Starting { root }, Request::Initialize)
    }

    /// A session that begins with a given snapshot, of a provider with a staging baseline and
    /// nothing else.
    pub fn mock(repository: RepositoryInfo, snapshot: Snapshot) -> (client: Result<
        Client,
        VcsError,
    >)
        ensures
            match snapshot_problem(snapshot) {
                Some(problem) => client == Err::<Client, VcsError>(problem),
                None => client matches Ok(client) && client.repository == repository
                    && client.snapshot == snapshot && client.wf() && client.capabilities == (
                Capabilities {
                    read_only: true,
                    staging: true,
                    history: false,
                    branches: false,
                    tags: false,
                    tracking: false,
                    blame: false,
                    branch_diff: false,
                    permalinks: false,
                    diff_stats: false,
                    stashes: false,
                    worktrees: false,
                }),
            },
    {
        proof {
            law_checked_snapshot_is_well_formed(snapshot);
        }
        snapshot.validate()?;
        let mut capabilities: Capabilities = Capabilities::default();
        capabilities.read_only = true;
        capabilities.staging = true;
        Ok(Client { repository, capabilities, snapshot })
    }

    /// The last valid snapshot.
    pub fn snapshot(&self) -> (snapshot: &Snapshot)
        ensures
            *snapshot == self.snapshot,
    {
        &self.snapshot
    }

    /// Stops the session: its connection serves no further request.
    pub fn stop(&self, transport: &mut ProcessTransport)
        ensures
            *final(transport) == (ProcessTransport { failed: true, ..*old(transport) }),
    {
        transport.stop();
    }

    /// Asks for a new snapshot.
    pub fn status_request(&self) -> (request: Request)
        ensures
            request@ == (RequestView::Status { repository: self.repository.id@ }),
    {
        Request::Status { repository: self.repository.id.clone() }
    }

    /// Takes the answer to a status request. A snapshot that passes its checks replaces the last
    /// one; anything else leaves the last one in place.
    pub fn refresh(&mut self, reply: Result<Snapshot, VcsError>) -> (done: Result<(), VcsError>)
        ensures
            final(self).repository == old(self).repository,
            final(self).capabilities == old(self).capabilities,
            match reply {
                Err(error) => done == Err::<(), VcsError>(error) && final(self).snapshot == old(
                    self,
                ).snapshot,
                Ok(snapshot) => match status_problem(snapshot, old(self).capabilities) {
                    Some(problem) => done == Err::<(), VcsError>(problem) && final(self).snapshot
                        == old(self).snapshot,
                    None => done == Ok::<(), VcsError>(()) && final(self).snapshot == snapshot
                        && final(self).advertised(),
                },
            },
            old(self).wf() ==> final(self).wf(),
    {
        match reply {
            Err(error) => Err(error),
            Ok(snapshot) => {
                proof {
                    law_checked_snapshot_is_well_formed(snapshot);
                }
                check_status(&snapshot, self.capabilities)?;
                self.snapshot = snapshot;
                Ok(())
            },
        }
    }
}

/// What is wrong with a request for history.
pub open spec fn history_request_problem(
    capabilities: Capabilities,
    revision: Seq<char>,
    path: Option<Seq<char>>,
    limit: usize,
) -> Option<VcsError> {
    if !capabilities.history {
        Some(VcsError::NoHistory)
    } else if !valid_revision(revision) {
        Some(VcsError::InvalidRevision)
    } else if !(1 <= limit <= MAX_HISTORY_COMMITS) {
        Some(VcsError::InvalidHistoryLimit)
    } else {
        match path {
            Some(path) => path_problem(path),
            None => None,
        }
    }
}

/// What is wrong with a request about one revision.
pub open spec fn revision_request_problem(
    capabilities: Capabilities,
    revision: Seq<char>,
) -> Option<VcsError> {
    if !capabilities.history {
        Some(VcsError::NoHistory)
    } else if !valid_revision(revision) {
        Some(VcsError::InvalidRevision)
    } else {
        None
    }
}

/// What is wrong with the commit at `i`, given those before it.
pub open spec fn listed_commit_problem(commits: Seq<HistoryCommit>, i: int) -> Option<VcsError> {
    match commit_problem(commits[i]) {
        Some(problem) => Some(problem),
        None => if exists|j: int| 0 <= j < i && (#[trigger] commits[j]).id@ == commits[i].id@ {
            Some(VcsError::DuplicateCommit)
        } else {
            None
        },
    }
}

pub open spec fn listed_commit_problems(commits: Seq<HistoryCommit>) -> Seq<Option<VcsError>> {
    Seq::new(commits.len(), |i: int| listed_commit_problem(commits, i))
}

/// What is wrong with an answer to a request for `limit` commits.
pub open spec fn history_problem(history: History, limit: usize) -> Option<VcsError> {
    if history.commits@.len() > limit {
        Some(VcsError::HistoryLimitExceeded)
    } else {
        first_problem(listed_commit_problems(history.commits@))
    }
}

/// The most files that one commit may change.
pub const MAX_COMMIT_FILES: usize = 4096;

/// What is wrong with the file at `i` of a commit, given those before it.
pub open spec fn commit_change_problem(changes: Seq<CommitChange>, i: int) -> Option<VcsError> {
    let change = changes[i];
    if !valid_path(change.path@) {
        path_problem(change.path@)
    } else if exists|j: int| 0 <= j < i && (#[trigger] changes[j]).path@ == change.path@ {
        Some(VcsError::DuplicateCommitPath)
    } else if change.base is None && change.target is None {
        Some(VcsError::EmptyCommitChange)
    } else {
        None
    }
}

pub open spec fn commit_change_problems(changes: Seq<CommitChange>) -> Seq<Option<VcsError>> {
    Seq::new(changes.len(), |i: int| commit_change_problem(changes, i))
}

/// What is wrong with the files that a commit changes.
pub open spec fn commit_changes_problem(changes: Seq<CommitChange>) -> Option<VcsError> {
    if changes.len() > MAX_COMMIT_FILES {
        Some(VcsError::TooManyFiles)
    } else {
        first_problem(commit_change_problems(changes))
    }
}

/// What is wrong with the details of a commit that was asked for by `revision`.
pub open spec fn commit_details_problem(commit: HistoryCommit, revision: Seq<char>) -> Option<
    VcsError,
> {
    match commit_problem(commit) {
        Some(problem) => Some(problem),
        None => if commit.id@ != revision {
            Some(VcsError::WrongCommit)
        } else {
            None
        },
    }
}

/// An answer, or its error, or what is wrong with it.
pub open spec fn accepted<T>(reply: Result<T, VcsError>, problem: Option<VcsError>) -> Result<
    T,
    VcsError,
> {
    match reply {
        Err(error) => Err(error),
        Ok(value) => match problem {
            Some(problem) => Err(problem),
            None => Ok(value),
        },
    }
}

/// The identifiers of the first `n` commits.
spec fn ids_of(commits: Seq<HistoryCommit>, n: int) -> Set<Seq<char>> {
    Set::new(|id: Seq<char>| exists|j: int| 0 <= j < n && (#[trigger] commits[j]).id@ == id)
}

/// Checks the commits of an answer.
fn check_commits(commits: &Vec<HistoryCommit>) -> (checked: Result<(), VcsError>)
    ensures
        checked == outcome(first_problem(listed_commit_problems(commits@))),
{
    let mut ids: StringHashSet = StringHashSet::new();
    let ghost problems = listed_commit_problems(commits@);
    let mut i: usize = 0;
    assert(ids@ =~= ids_of(commits@, 0));
    while i < commits.len()
        invariant
            i <= commits@.len(),
            problems == listed_commit_problems(commits@),
            forall|j: int| 0 <= j < i ==> (#[trigger] problems[j]) is None,
            ids@ == ids_of(commits@, i as int),
        decreases commits@.len() - i,
    {
        let commit: &HistoryCommit = &commits[i];
        assert(problems[i as int] == listed_commit_problem(commits@, i as int));
        proof {
            if problems[i as int] is Some {
                lemma_first_problem(problems, i as int);
            }
        }
        commit.validate()?;
        let fresh: bool = ids.insert(commit.id.clone());
        assert(fresh == !ids_of(commits@, i as int).contains(commit.id@));
        if !fresh {
            return Err(VcsError::DuplicateCommit);
        }
        proof {
            assert forall|j: int| 0 <= j < i implies (#[trigger] commits@[j]).id@ != commit.id@ by {
                if commits@[j].id@ == commit.id@ {
                    assert(ids_of(commits@, i as int).contains(commit.id@));
                }
            }
            assert(ids_of(commits@, i + 1) =~= ids@);
        }
        i += 1;
    }
    proof {
        lemma_first_problem(problems, i as int);
    }
    Ok(())
}

/// The paths of the first `n` files of a commit.
spec fn changed_paths(changes: Seq<CommitChange>, n: int) -> Set<Seq<char>> {
    Set::new(
        |path: Seq<char>| exists|j: int| 0 <= j < n && (#[trigger] changes[j]).path@ == path,
    )
}

/// Checks the files that a commit changes.
fn check_commit_changes(changes: &Vec<CommitChange>) -> (checked: Result<(), VcsError>)
    ensures
        checked == outcome(first_problem(commit_change_problems(changes@))),
{
    let mut paths: StringHashSet = StringHashSet::new();
    let ghost problems = commit_change_problems(changes@);
    let mut i: usize = 0;
    assert(paths@ =~= changed_paths(changes@, 0));
    while i < changes.len()
        invariant
            i <= changes@.len(),
            problems == commit_change_problems(changes@),
            forall|j: int| 0 <= j < i ==> (#[trigger] problems[j]) is None,
            paths@ == changed_paths(changes@, i as int),
        decreases changes@.len() - i,
    {
        let change: &CommitChange = &changes[i];
        assert(problems[i as int] == commit_change_problem(changes@, i as int));
        proof {
            if problems[i as int] is Some {
                lemma_first_problem(problems, i as int);
            }
        }
        validate_path(&change.path)?;
        let fresh: bool = paths.insert(change.path.clone());
        assert(fresh == !changed_paths(changes@, i as int).contains(change.path@));
        if !fresh {
            return Err(VcsError::DuplicateCommitPath);
        }
        proof {
            assert forall|j: int| 0 <= j < i implies (#[trigger] changes@[j]).path@
                != change.path@ by {
                if changes@[j].path@ == change.path@ {
                    assert(changed_paths(changes@, i as int).contains(change.path@));
                }
            }
        }
        if change.base.is_none() && change.target.is_none() {
            return Err(VcsError::EmptyCommitChange);
        }
        assert(changed_paths(changes@, i + 1) =~= paths@);
        i += 1;
    }
    proof {
        lemma_first_problem(problems, i as int);
    }
    Ok(())
}

impl Client {
    /// Asks for at most `limit` commits that lead to `revision`, of one path or of all.
    pub fn history_request(&self, revision: &str, path: Option<&str>, limit: usize) -> (request:
        Result<Request, VcsError>)
        ensures
            match history_request_problem(
                self.capabilities,
                revision@,
                match path {
                    Some(path) => Some(path@),
                    None => None,
                },
                limit,
            ) {
                Some(problem) => request == Err::<Request, VcsError>(problem),
                None => request matches Ok(request) && request@ == (RequestView::History {
                    repository: self.repository.id@,
                    revision: revision@,
                    path: match path {
                        Some(path) => Some(path@),
                        None => None,
                    },
                    limit,
                }),
            },
    {
        if !self.capabilities.history {
            return Err(VcsError::NoHistory);
        }
        validate_revision(revision)?;
        if limit < 1 || limit > MAX_HISTORY_COMMITS {
            return Err(VcsError::InvalidHistoryLimit);
        }
        let path: Option<String> = match path {
            Some(path) => {
                validate_path(path)?;
                Some(path.to_owned())
            },
            None => None,
        };
        Ok(
            Request::History {
                repository: self.repository.id.clone(),
                revision: revision.to_owned(),
                path,
                limit,
            },
        )
    }

    /// Takes the answer to a request for at most `limit` commits.
    pub fn history(&self, limit: usize, reply: Result<History, VcsError>) -> (history: Result<
        History,
        VcsError,
    >)
        ensures
            history == accepted(
                reply,
                match reply {
                    Ok(found) => history_problem(found, limit),
                    Err(_) => None,
                },
            ),
    {
        let history: History = reply?;
        if history.commits.len() > limit {
            return Err(VcsError::HistoryLimitExceeded);
        }
        check_commits(&history.commits)?;
        Ok(history)
    }

    /// Asks for one commit.
    pub fn commit_details_request(&self, revision: &str) -> (request: Result<Request, VcsError>)
        ensures
            match revision_request_problem(self.capabilities, revision@) {
                Some(problem) => request == Err::<Request, VcsError>(problem),
                None => request matches Ok(request) && request@ == (RequestView::CommitDetails {
                    repository: self.repository.id@,
                    revision: revision@,
                }),
            },
    {
        if !self.capabilities.history {
            return Err(VcsError::NoHistory);
        }
        validate_revision(revision)?;
        Ok(
            Request::CommitDetails {
                repository: self.repository.id.clone(),
                revision: revision.to_owned(),
            },
        )
    }

    /// Takes the answer to a request for the commit `revision`.
    pub fn commit_details(&self, revision: &str, reply: Result<HistoryCommit, VcsError>) -> (commit:
        Result<HistoryCommit, VcsError>)
        ensures
            commit == accepted(
                reply,
                match reply {
                    Ok(found) => commit_details_problem(found, revision@),
                    Err(_) => None,
                },
            ),
    {
        let commit: HistoryCommit = reply?;
        commit.validate()?;
        if !same_text(&commit.id, revision) {
            return Err(VcsError::WrongCommit);
        }
        Ok(commit)
    }

    /// Asks for the files that a commit changes.
    pub fn commit_changes_request(&self, revision: &str) -> (request: Result<Request, VcsError>)
        ensures
            match revision_request_problem(self.capabilities, revision@) {
                Some(problem) => request == Err::<Request, VcsError>(problem),
                None => request matches Ok(request) && request@ == (RequestView::CommitChanges {
                    repository: self.repository.id@,
                    revision: revision@,
                }),
            },
    {
        if !self.capabilities.history {
            return Err(VcsError::NoHistory);
        }
        validate_revision(revision)?;
        Ok(
            Request::CommitChanges {
                repository: self.repository.id.clone(),
                revision: revision.to_owned(),
            },
        )
    }

    /// Takes the answer to a request for the files that a commit changes.
    pub fn commit_changes(&self, reply: Result<Vec<CommitChange>, VcsError>) -> (changes: Result<
        Vec<CommitChange>,
        VcsError,
    >)
        ensures
            changes == accepted(
                reply,
                match reply {
                    Ok(found) => commit_changes_problem(found@),
                    Err(_) => None,
                },
            ),
    {
        let changes: Vec<CommitChange> = reply?;
        if changes.len() > MAX_COMMIT_FILES {
            return Err(VcsError::TooManyFiles);
        }
        check_commit_changes(&changes)?;
        Ok(changes)
    }

    /// Asks for the bytes behind a content reference.
    pub fn read_content_request(&self, reference: &str) -> (request: Request)
        ensures
            request@ == (RequestView::ReadContent {
                repository: self.repository.id@,
                content: reference@,
            }),
    {
        Request::ReadContent {
            repository: self.repository.id.clone(),
            content: reference.to_owned(),
        }
    }

    /// Takes the answer to a request for content.
    pub fn read_content(&self, reply: Result<Content, VcsError>) -> (bytes: Result<
        Vec<u8>,
        VcsError,
    >)
        ensures
            same_bytes(
                bytes,
                match reply {
                    Ok(content) => content_bytes(content),
                    Err(error) => Err(error),
                },
            ),
    {
        let content: Content = reply?;
        decode_content(&content)
    }
}

/// A provider is accepted exactly where it speaks this version of the protocol, is read-only, tracks
/// upstreams only where it has branches, and claims nothing that this version reserves.
pub proof fn law_providers_are_accepted_for_what_they_claim(initialization: Initialization)
    ensures
        initialization_problem(initialization) is None <==> {
            let capabilities = initialization.capabilities;
            &&& initialization.protocol_version@ == "0.1"@
            &&& capabilities.read_only
            &&& capabilities.tracking ==> capabilities.branches
            &&& !capabilities.blame
            &&& !capabilities.branch_diff
            &&& !capabilities.permalinks
            &&& !capabilities.diff_stats
            &&& !capabilities.stashes
            &&& !capabilities.worktrees
        },
{
}

/// A repository is accepted exactly where there is one, at the workspace's root, with an identifier
/// and a label.
pub proof fn law_repositories_are_accepted_at_their_root(
    repository: Option<RepositoryInfo>,
    root_matches: bool,
)
    ensures
        discovery_problem(repository, root_matches) is None <==> repository is Some && root_matches
            && repository->0.id@.len() > 0 && repository->0.label@.len() > 0,
{
}

/// A snapshot is taken exactly where it is accepted and stays within what was advertised.
pub proof fn law_snapshots_are_taken_within_capabilities(
    snapshot: Snapshot,
    capabilities: Capabilities,
)
    ensures
        status_problem(snapshot, capabilities) is None <==> snapshot_problem(snapshot) is None
            && capability_problem(snapshot, capabilities) is None,
{
}

/// History is asked for exactly where the provider has it, of a revision that may be one, for 1 to
/// 200 commits, and of a valid path if of any; and so is a single revision, without the rest.
pub proof fn law_history_is_asked_for_within_bounds(
    capabilities: Capabilities,
    revision: Seq<char>,
    path: Option<Seq<char>>,
    limit: usize,
)
    ensures
        history_request_problem(capabilities, revision, path, limit) is None <==> {
            &&& capabilities.history
            &&& valid_revision(revision)
            &&& 1 <= limit <= 200
            &&& path matches Some(path) ==> valid_path(path)
        },
        revision_request_problem(capabilities, revision) is None <==> capabilities.history
            && valid_revision(revision),
{
}

/// History is accepted exactly where it holds no more commits than were asked for, each acceptable,
/// and no two of one identifier.
pub proof fn law_history_lists_each_commit_once(history: History, limit: usize)
    ensures
        history_problem(history, limit) is None <==> {
            let commits = history.commits@;
            &&& commits.len() <= limit
            &&& forall|i: int|
                0 <= i < commits.len() ==> commit_problem(#[trigger] commits[i]) is None
            &&& forall|i: int, j: int|
                0 <= i < j < commits.len() ==> (#[trigger] commits[i]).id@ != (
                #[trigger] commits[j]).id@
        },
{
    let commits = history.commits@;
    let problems = listed_commit_problems(commits);
    lemma_no_problem(problems);
    if history_problem(history, limit) is None {
        assert forall|i: int| 0 <= i < commits.len() implies commit_problem(
            #[trigger] commits[i],
        ) is None by {
            assert(problems[i] is None);
        }
        assert forall|i: int, j: int| 0 <= i < j < commits.len() implies (
        #[trigger] commits[i]).id@ != (#[trigger] commits[j]).id@ by {
            assert(problems[j] is None);
        }
    } else if commits.len() <= limit {
        let i = choose|i: int| 0 <= i < problems.len() && (#[trigger] problems[i]) is Some;
        assert(listed_commit_problem(commits, i) is Some);
        assert(commit_problem(commits[i]) is None ==> exists|j: int|
            0 <= j < i && (#[trigger] commits[j]).id@ == commits[i].id@);
    }
}

/// The files that a commit changes are accepted exactly where there are at most 4096, each at a valid
/// path, no two at one, and each there before the commit or after it.
pub proof fn law_commits_change_each_file_once(changes: Seq<CommitChange>)
    ensures
        commit_changes_problem(changes) is None <==> {
            &&& changes.len() <= 4096
            &&& forall|i: int|
                0 <= i < changes.len() ==> {
                    let change = #[trigger] changes[i];
                    valid_path(change.path@) && (change.base is Some || change.target is Some)
                }
            &&& forall|i: int, j: int|
                0 <= i < j < changes.len() ==> (#[trigger] changes[i]).path@ != (
                #[trigger] changes[j]).path@
        },
{
    let problems = commit_change_problems(changes);
    lemma_no_problem(problems);
    if commit_changes_problem(changes) is None {
        assert forall|i: int| 0 <= i < changes.len() implies {
            let change = #[trigger] changes[i];
            valid_path(change.path@) && (change.base is Some || change.target is Some)
        } by {
            assert(problems[i] is None);
        }
        assert forall|i: int, j: int| 0 <= i < j < changes.len() implies (
        #[trigger] changes[i]).path@ != (#[trigger] changes[j]).path@ by {
            assert(problems[j] is None);
        }
    } else if changes.len() <= 4096 {
        let i = choose|i: int| 0 <= i < problems.len() && (#[trigger] problems[i]) is Some;
        assert(commit_change_problem(changes, i) is Some);
        let change = changes[i];
        assert(valid_path(change.path@) && (change.base is Some || change.target is Some)
            ==> exists|j: int| 0 <= j < i && (#[trigger] changes[j]).path@ == change.path@);
    }
}

/// A single commit is accepted exactly where it is acceptable and the one that was asked for.
pub proof fn law_the_commit_asked_for_is_accepted(commit: HistoryCommit, revision: Seq<char>)
    ensures
        commit_details_problem(commit, revision) is None <==> commit_problem(commit) is None
            && commit.id@ == revision,
{
}

/// An answer is handed on exactly where nothing is wrong with it, and otherwise its error is, or
/// what is wrong with it.
pub proof fn law_answers_are_handed_on<T>(reply: Result<T, VcsError>, problem: Option<VcsError>)
    ensures
        accepted(reply, problem) is Ok <==> reply is Ok && problem is None,
        accepted(reply, problem) matches Ok(value) ==> reply == Ok::<T, VcsError>(value),
        accepted(reply, problem) matches Err(error) ==> reply == Err::<T, VcsError>(error) || (
        reply is Ok && problem == Some(error)),
{
}

/// Two paths from the root have the same parts where they differ in repeated or trailing separators
/// and single dots alone.
pub proof fn law_separators_and_dots_do_not_count(left: Seq<char>, right: Seq<char>)
    ensures
        parts(left + seq!['/'] + right) == parts(left) + parts(right),
        parts(Seq::empty()) == Seq::<Seq<char>>::empty(),
        parts(seq!['.']) == Seq::<Seq<char>>::empty(),
        !left.contains('/') && left.len() > 0 && left != seq!['.'] ==> parts(left) == seq![left],
{
    let counting = |part: Seq<char>| counts(part);
    let dot = seq!['.'];
    law_components_stand_between_separators(left, right);
    law_components_stand_between_separators(Seq::empty(), right);
    law_components_stand_between_separators(dot, right);
    Seq::filter_distributes_over_add(components(left), components(right), counting);
    reveal_with_fuel(Seq::<_>::filter, 2);
    assert(!dot.contains('/'));
    assert(!Seq::<char>::empty().contains('/'));
    assert(seq![dot].drop_last() =~= Seq::<Seq<char>>::empty());
    assert(seq![Seq::<char>::empty()].drop_last() =~= Seq::<Seq<char>>::empty());
    assert(seq![left].drop_last() =~= Seq::<Seq<char>>::empty());
    assert(seq![left].last() == left && seq![dot].last() == dot);
    assert(Seq::<Seq<char>>::empty().push(left) =~= seq![left]);
}

/// What is reported of a provider is its version, or else that it is not read-only, or else that it
/// tracks without branches, or else that it claims what is reserved.
pub proof fn law_providers_are_refused_for_their_first_fault(initialization: Initialization)
    ensures
        ({
            let problem = initialization_problem(initialization);
            let capabilities = initialization.capabilities;
            let is_spoken = initialization.protocol_version@ == "0.1"@;
            let is_safe = is_spoken && capabilities.read_only;
            let is_consistent = is_safe && (capabilities.tracking ==> capabilities.branches);
            &&& problem == Some(VcsError::UnsupportedVersion) <==> !is_spoken
            &&& problem == Some(VcsError::NotReadOnly) <==> is_spoken && !capabilities.read_only
            &&& problem == Some(VcsError::TrackingWithoutBranches) <==> is_safe && !is_consistent
            &&& problem == Some(VcsError::ReservedFeature) <==> is_consistent && (
            capabilities.blame || capabilities.branch_diff || capabilities.permalinks
                || capabilities.diff_stats || capabilities.stashes || capabilities.worktrees)
        }),
{
}

/// What is reported of a repository is that there is none, or else that it is elsewhere, or else that
/// it lacks an identifier or a label.
pub proof fn law_repositories_are_refused_for_their_first_fault(
    repository: Option<RepositoryInfo>,
    root_matches: bool,
)
    ensures
        ({
            let problem = discovery_problem(repository, root_matches);
            &&& problem == Some(VcsError::UnrecognizedWorkspace) <==> repository is None
            &&& problem == Some(VcsError::RootMismatch) <==> repository is Some && !root_matches
            &&& problem == Some(VcsError::EmptyIdentity) <==> repository is Some && root_matches && (
            repository->0.id@.len() == 0 || repository->0.label@.len() == 0)
        }),
{
}

/// What is reported of a request for history is that there is none, or else that its revision is
/// none, or else that its limit is out of bounds, or else what is wrong with its path.
pub proof fn law_history_requests_are_refused_for_their_first_fault(
    capabilities: Capabilities,
    revision: Seq<char>,
    path: Option<Seq<char>>,
    limit: usize,
)
    ensures
        ({
            let problem = history_request_problem(capabilities, revision, path, limit);
            let single = revision_request_problem(capabilities, revision);
            let is_bounded = capabilities.history && valid_revision(revision) && 1 <= limit <= 200;
            &&& problem == Some(VcsError::NoHistory) <==> !capabilities.history
            &&& problem == Some(VcsError::InvalidRevision) <==> capabilities.history
                && !valid_revision(revision)
            &&& problem == Some(VcsError::InvalidHistoryLimit) <==> capabilities.history
                && valid_revision(revision) && !is_bounded
            &&& is_bounded && path is Some ==> problem == path_problem(path->0)
            &&& single == Some(VcsError::NoHistory) <==> !capabilities.history
            &&& single == Some(VcsError::InvalidRevision) <==> capabilities.history
                && !valid_revision(revision)
        }),
{
    if let Some(path) = path {
        law_invalid_paths_are_refused(path);
    }
}

/// What is reported of listed commits is that there are too many, or else of the first faulty one
/// what is wrong with it, or that it was listed before.
pub proof fn law_history_is_refused_for_its_first_fault(history: History, limit: usize, i: int)
    requires
        0 <= i < history.commits@.len(),
        forall|j: int| 0 <= j < i ==> commit_problem(#[trigger] history.commits@[j]) is None,
        forall|j: int, k: int|
            0 <= j < k < i ==> (#[trigger] history.commits@[j]).id@ != (
            #[trigger] history.commits@[k]).id@,
    ensures
        history.commits@.len() > limit ==> history_problem(history, limit) == Some(
            VcsError::HistoryLimitExceeded,
        ),
        history.commits@.len() <= limit ==> {
            let problem = commit_problem(history.commits@[i]);
            &&& problem is Some ==> history_problem(history, limit) == problem
            &&& problem is None && (exists|j: int|
                0 <= j < i && (#[trigger] history.commits@[j]).id@ == history.commits@[i].id@)
                ==> history_problem(history, limit) == Some(VcsError::DuplicateCommit)
        },
{
    let commits = history.commits@;
    let problems = listed_commit_problems(commits);
    assert forall|j: int| 0 <= j < i implies (#[trigger] problems[j]) is None by {
        assert(listed_commit_problem(commits, j) is None);
    }
    if problems[i] is Some {
        lemma_first_problem(problems, i);
    }
}

/// What is reported of the files that a commit changes is that there are too many, or else of the
/// first faulty one what is wrong with its path, or else that it was there before, or else that it
/// has no side.
pub proof fn law_commit_changes_are_refused_for_their_first_fault(
    changes: Seq<CommitChange>,
    i: int,
)
    requires
        0 <= i < changes.len(),
        forall|j: int|
            0 <= j < i ==> {
                let change = #[trigger] changes[j];
                valid_path(change.path@) && (change.base is Some || change.target is Some)
            },
        forall|j: int, k: int|
            0 <= j < k < i ==> (#[trigger] changes[j]).path@ != (#[trigger] changes[k]).path@,
    ensures
        changes.len() > 4096 ==> commit_changes_problem(changes) == Some(VcsError::TooManyFiles),
        changes.len() <= 4096 ==> {
            let change = changes[i];
            let is_repeated = exists|j: int|
                0 <= j < i && (#[trigger] changes[j]).path@ == change.path@;
            &&& !valid_path(change.path@) ==> commit_changes_problem(changes) == path_problem(
                change.path@,
            )
            &&& valid_path(change.path@) && is_repeated ==> commit_changes_problem(changes) == Some(
                VcsError::DuplicateCommitPath,
            )
            &&& valid_path(change.path@) && !is_repeated && change.base is None
                && change.target is None ==> commit_changes_problem(changes) == Some(
                VcsError::EmptyCommitChange,
            )
        },
{
    let problems = commit_change_problems(changes);
    assert forall|j: int| 0 <= j < i implies (#[trigger] problems[j]) is None by {
        assert(commit_change_problem(changes, j) is None);
    }
    law_invalid_paths_are_refused(changes[i].path@);
    assert(problems[i] == commit_change_problem(changes, i));
    if problems[i] is Some {
        lemma_first_problem(problems, i);
    }
}

/// What is reported of a single commit is what is wrong with it, or else that it is another one than
/// was asked for.
pub proof fn law_other_commits_are_refused(commit: HistoryCommit, revision: Seq<char>)
    ensures
        commit_problem(commit) is Some ==> commit_details_problem(commit, revision)
            == commit_problem(commit),
        commit_problem(commit) is None && commit.id@ != revision ==> commit_details_problem(
            commit,
            revision,
        ) == Some(VcsError::WrongCommit),
{
}

/// A path starts at the root exactly where it begins with one separator and holds neither what else
/// separates nor what else stands for a root on some platforms.
pub proof fn law_rooted_paths_begin_with_one_separator(path: Seq<char>)
    ensures
        rooted(path) <==> (exists|rest: Seq<char>|
            path == #[trigger] (seq!['/'] + rest) && (rest.len() > 0 ==> rest[0] != '/'))
            && !path.contains('\\') && !path.contains(':'),
{
    if rooted(path) {
        assert(path =~= seq!['/'] + path.skip(1));
        if path.len() > 1 {
            assert(path.skip(1)[0] == path[1]);
        }
    }
}

} // verus!
