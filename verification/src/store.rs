//! The repositories of a project: which providers are started, which repositories they replace, and
//! what follows from each refresh.

use crate::client::{parts, rooted, same_path, spelled, Client};
use crate::error::{message_of, VcsError};
use crate::model::Snapshot;
use crate::order::reversed;
use crate::repository::{refreshed, ExternalRepository, Known};
use crate::request::{optional_view, Request, RequestView};
use crate::text::same_text;
use std::collections::{HashMap, HashSet};
use vstd::prelude::*;

verus! {

broadcast use vstd::std_specs::hash::group_hash_axioms;

pub type RepositoryId = u64;

pub type WorktreeId = u64;

pub type BufferId = u64;

/// What was seen at the last refresh that had consequences.
#[derive(Debug)]
pub struct Polling {
    pub previous_snapshot: String,
    pub previous_error: Option<String>,
}

/// A repository of a project: one that a provider serves, or a native one.
pub struct Repository {
    pub id: RepositoryId,
    pub work_directory: String,
    pub is_read_only: bool,
    pub external_backend: Option<ExternalRepository>,
    pub polling: Option<Polling>,
}

/// What a refresh leads to.
#[derive(Debug)]
pub struct Refreshed {
    /// What goes to the log.
    pub log: Option<String>,
    /// Whether the status of the files is scanned again.
    pub scan: bool,
    /// Whether the baselines of open diffs are read again.
    pub reload: bool,
}

/// What a repository does when its poll interval has passed.
#[derive(Debug)]
pub enum Poll {
    /// It is asked for a new snapshot.
    Refresh(Request),
    /// Nothing, and it polls no more.
    Stop,
}

impl Repository {
    /// A repository that a provider serves: read only, and polled from here on.
    pub fn external(id: RepositoryId, backend: ExternalRepository) -> (repository: Repository)
        ensures
            repository.id == id,
            repository.work_directory@ == backend.root@,
            repository.is_read_only,
            repository.external_backend == Some(backend),
            repository.polling matches Some(polling) && polling.previous_snapshot@
                == backend.client.snapshot.snapshot@ && polling.previous_error is None,
    {
        Repository {
            id,
            work_directory: backend.root.clone(),
            is_read_only: true,
            polling: Some(
                Polling {
                    previous_snapshot: backend.client.snapshot.snapshot.clone(),
                    previous_error: None,
                },
            ),
            external_backend: Some(backend),
        }
    }

    /// Whether nothing here changes the repository.
    pub fn is_read_only(&self) -> (read_only: bool)
        ensures
            read_only == self.is_read_only,
    {
        self.is_read_only
    }

    /// Ends the polling of a provider and takes its trust. What is returned says whether there is
    /// a provider to stop.
    pub fn stop_external_provider(&mut self) -> (stop: bool)
        ensures
            stop == old(self).external_backend is Some,
            match old(self).external_backend {
                Some(backend) => *final(self) == (Repository {
                    external_backend: Some(ExternalRepository { trusted: false, ..backend }),
                    polling: None,
                    ..*old(self)
                }),
                None => *final(self) == *old(self),
            },
    {
        match self.external_backend.take() {
            Some(backend) => {
                let mut backend: ExternalRepository = backend;
                self.polling = None;
                let stop: bool = backend.set_trusted(false);
                self.external_backend = Some(backend);
                stop
            },
            None => false,
        }
    }

    /// What happens when the poll interval has passed.
    pub fn poll(&mut self) -> (poll: Poll)
        ensures
            match old(self).external_backend {
                Some(backend) if old(self).polling is Some && backend.trusted => *final(self)
                    == *old(self) && (poll matches Poll::Refresh(request) && request@ == (
                RequestView::Status { repository: backend.client.repository.id@ })),
                _ => poll is Stop && *final(self) == (Repository { polling: None, ..*old(self) }),
            },
    {
        if self.polling.is_some() {
            if let Some(backend) = &self.external_backend {
                if let Ok(request) = backend.refresh_request() {
                    return Poll::Refresh(request);
                }
            }
        }
        self.polling = None;
        Poll::Stop
    }
}

/// What went wrong with a refresh, in words.
pub open spec fn refresh_error(backend: ExternalRepository, reply: Result<Snapshot, VcsError>) -> Option<
    Seq<char>,
> {
    match refreshed(reply, backend.client) {
        Ok(_) => None,
        Err(error) => Some(message_of(error)),
    }
}

/// The token of the snapshot that a refresh leaves.
pub open spec fn refreshed_token(
    backend: ExternalRepository,
    reply: Result<Snapshot, VcsError>,
) -> Seq<char> {
    match refreshed(reply, backend.client) {
        Ok(snapshot) => snapshot.snapshot@,
        Err(_) => backend.client.snapshot.snapshot@,
    }
}

/// Whether a refresh differs from what was seen before: in its token, or in what went wrong.
pub open spec fn is_news(
    polling: Polling,
    backend: ExternalRepository,
    reply: Result<Snapshot, VcsError>,
) -> bool {
    refreshed_token(backend, reply) != polling.previous_snapshot@ || refresh_error(backend, reply)
        != optional_view(polling.previous_error)
}

/// Whether two texts, where there are any, are the same.
fn same_optional(left: &Option<String>, right: &Option<String>) -> (same: bool)
    ensures
        same == (optional_view(*left) == optional_view(*right)),
{
    match (left, right) {
        (Some(left), Some(right)) => same_text(left, right),
        (None, None) => true,
        _ => false,
    }
}

impl Repository {
    /// Takes the answer to the request of a poll. Only what differs from before has consequences:
    /// an error goes to the log, the status is scanned again, and where the refresh went well the
    /// baselines of open diffs are read again.
    pub fn polled(&mut self, reply: Result<Snapshot, VcsError>) -> (effects: Refreshed)
        requires
            old(self).external_backend is Some,
            old(self).polling is Some,
        ensures
            final(self).id == old(self).id,
            final(self).work_directory == old(self).work_directory,
            final(self).is_read_only == old(self).is_read_only,
            final(self).external_backend is Some,
            final(self).polling is Some,
            ({
                let backend = old(self).external_backend->0;
                let polling = old(self).polling->0;
                let after = final(self).external_backend->0;
                let seen = final(self).polling->0;
                let error = refresh_error(backend, reply);
                let news = is_news(polling, backend, reply);
                &&& after.root == backend.root
                &&& after.trusted == backend.trusted
                &&& after.known() == backend.known()
                &&& after.client.repository == backend.client.repository
                &&& after.client.capabilities == backend.client.capabilities
                &&& after.client.snapshot == match refreshed(reply, backend.client) {
                    Ok(snapshot) => snapshot,
                    Err(_) => backend.client.snapshot,
                }
                &&& optional_view(after.error) == error
                &&& backend.wf() ==> after.wf()
                &&& effects.scan == news
                &&& effects.reload == (news && error is None)
                &&& optional_view(effects.log) == (if news {
                    error
                } else {
                    None
                })
                &&& seen.previous_snapshot@ == refreshed_token(backend, reply)
                &&& optional_view(seen.previous_error) == error
            }),
    {
        let mut effects: Refreshed = Refreshed { log: None, scan: false, reload: false };
        if let Some(backend) = self.external_backend.take() {
            if let Some(polling) = self.polling.take() {
                let mut backend: ExternalRepository = backend;
                let mut polling: Polling = polling;
                let done: Result<(), VcsError> = backend.refresh(reply);
                let error: Option<String> = match &done {
                    Ok(()) => None,
                    Err(error) => Some(error.message()),
                };
                let token: &String = &backend.client.snapshot.snapshot;
                if !same_text(token, &polling.previous_snapshot) || !same_optional(
                    &error,
                    &polling.previous_error,
                ) {
                    effects.scan = true;
                    effects.reload = done.is_ok();
                    effects.log = match &error {
                        Some(error) => Some(error.clone()),
                        None => None,
                    };
                    polling.previous_snapshot = token.clone();
                    polling.previous_error = error;
                }
                self.external_backend = Some(backend);
                self.polling = Some(polling);
            }
        }
        effects
    }
}

/// The same answer twice in a row has no consequences the second time.
pub proof fn law_unchanged_refresh_is_quiet(
    seen: Polling,
    backend: ExternalRepository,
    after: ExternalRepository,
    reply: Result<Snapshot, VcsError>,
)
    requires
        after.client.repository == backend.client.repository,
        after.client.capabilities == backend.client.capabilities,
        after.client.snapshot == (match refreshed(reply, backend.client) {
            Ok(snapshot) => snapshot,
            Err(_) => backend.client.snapshot,
        }),
        seen.previous_snapshot@ == refreshed_token(backend, reply),
        optional_view(seen.previous_error) == refresh_error(backend, reply),
    ensures
        !is_news(seen, after, reply),
{
}

/// Where a store keeps its repositories: here, perhaps shared with others, or elsewhere.
#[derive(Clone, Copy, Debug)]
pub enum GitStoreState {
    Local { next_repository_id: RepositoryId, downstream: bool },
    Remote,
}

/// Which changes a diff shows.
#[derive(Clone, Copy, Debug, PartialEq, Eq, Structural)]
pub enum DiffKind {
    Unstaged,
    Staged,
    Uncommitted,
}

/// What can be done to the hunks of a diff.
#[derive(Clone, Copy, Debug, PartialEq, Eq, Structural)]
pub struct DiffOperations {
    pub kind: DiffKind,
    pub read_only: bool,
}

/// A diff that is open.
#[derive(Clone, Copy, Debug, PartialEq, Eq, Structural)]
pub struct OpenDiff {
    pub operations: Option<DiffOperations>,
}

/// The diffs of a buffer, and the repository that its file lies in.
#[derive(Clone, Copy, Debug)]
pub struct BufferDiffs {
    pub buffer: BufferId,
    pub repository: Option<RepositoryId>,
    pub unstaged: Option<OpenDiff>,
    pub staged: Option<OpenDiff>,
    pub uncommitted: Option<OpenDiff>,
}

/// What a store has done by others.
#[derive(Clone, Copy, Debug, PartialEq, Eq, Structural)]
pub enum Effect {
    /// Those it is shared with are told that a repository is gone.
    RemoveDownstream(RepositoryId),
    /// The status of a repository's files is scanned.
    Scan(RepositoryId),
    /// A repository was added.
    RepositoryAdded,
    /// The baselines of a repository's open diffs are read.
    RefreshDiffBase(RepositoryId),
    /// Another repository is the active one.
    ActiveRepositoryChanged(RepositoryId),
}

/// The repositories of a project, and what hangs on them.
pub struct GitStore {
    pub state: GitStoreState,
    pub has_project: bool,
    pub repositories: Vec<Repository>,
    pub worktree_ids: HashMap<RepositoryId, HashSet<WorktreeId>>,
    pub display_diffs: HashSet<RepositoryId>,
    pub active_repo_id: Option<RepositoryId>,
    pub external_starts: HashSet<WorktreeId>,
    pub diffs: Vec<BufferDiffs>,
}

/// A diff with its operations, where it is open.
pub open spec fn with_operations(
    diff: Option<OpenDiff>,
    kind: DiffKind,
    read_only: bool,
) -> Option<OpenDiff> {
    match diff {
        Some(_) => Some(OpenDiff { operations: Some(DiffOperations { kind, read_only }) }),
        None => None,
    }
}

/// The diffs of a buffer after those of a repository were given their operations.
pub open spec fn buffer_updated(
    diffs: BufferDiffs,
    id: RepositoryId,
    read_only: bool,
) -> BufferDiffs {
    if diffs.repository == Some(id) {
        BufferDiffs {
            unstaged: with_operations(diffs.unstaged, DiffKind::Unstaged, read_only),
            staged: with_operations(diffs.staged, DiffKind::Staged, read_only),
            uncommitted: with_operations(diffs.uncommitted, DiffKind::Uncommitted, read_only),
            ..diffs
        }
    } else {
        diffs
    }
}

/// Whether `id` is that of the repository at `i`.
pub open spec fn is_at(repositories: Seq<Repository>, id: RepositoryId, i: int) -> bool {
    0 <= i < repositories.len() && repositories[i].id == id
}

/// Whether no two repositories have the same identifier, and all have lower ones than the next.
pub open spec fn ids_wf(repositories: Seq<Repository>, next: RepositoryId) -> bool {
    &&& forall|i: int, j: int|
        0 <= i < j < repositories.len() ==> (#[trigger] repositories[i]).id != (
        #[trigger] repositories[j]).id
    &&& forall|i: int| 0 <= i < repositories.len() ==> (#[trigger] repositories[i]).id < next
}

/// Whether buffers lie in repositories with lower identifiers than the next.
pub open spec fn diffs_wf(diffs: Seq<BufferDiffs>, next: RepositoryId) -> bool {
    forall|i: int|
        0 <= i < diffs.len() ==> ((#[trigger] diffs[i]).repository matches Some(id) ==> id < next)
}

/// The diffs of all buffers after those of a repository were given their operations.
pub open spec fn diffs_updated(
    diffs: Seq<BufferDiffs>,
    repositories: Seq<Repository>,
    has_project: bool,
    id: RepositoryId,
) -> Seq<BufferDiffs> {
    if has_project && exists|i: int| is_at(repositories, id, i) {
        let read_only = repositories[choose|i: int| is_at(repositories, id, i)].is_read_only;
        diffs.map_values(|diffs: BufferDiffs| buffer_updated(diffs, id, read_only))
    } else {
        diffs
    }
}

/// Gives a diff its operations, where it is open.
fn set_operations(diff: Option<OpenDiff>, kind: DiffKind, read_only: bool) -> (updated: Option<
    OpenDiff,
>)
    ensures
        updated == with_operations(diff, kind, read_only),
{
    match diff {
        Some(_) => Some(OpenDiff { operations: Some(DiffOperations { kind, read_only }) }),
        None => None,
    }
}

impl GitStore {
    /// The identifier that the next repository gets; all in use are lower.
    pub open spec fn next_id(&self) -> RepositoryId {
        match self.state {
            GitStoreState::Local { next_repository_id, .. } => next_repository_id,
            GitStoreState::Remote => u64::MAX,
        }
    }

    /// The identifiers are as they should be: those of repositories, and those that buffers name.
    pub open spec fn wf(&self) -> bool {
        ids_wf(self.repositories@, self.next_id()) && diffs_wf(self.diffs@, self.next_id())
    }

    /// A store on this machine without repositories.
    pub fn local(next_repository_id: RepositoryId, downstream: bool, has_project: bool) -> (store:
        GitStore)
        ensures
            store.state == (GitStoreState::Local { next_repository_id, downstream }),
            store.has_project == has_project,
            store.repositories@ == Seq::<Repository>::empty(),
            store.worktree_ids@ == Map::<RepositoryId, HashSet<WorktreeId>>::empty(),
            store.display_diffs@ == Set::<RepositoryId>::empty(),
            store.active_repo_id is None,
            store.external_starts@ == Set::<WorktreeId>::empty(),
            store.diffs@ == Seq::<BufferDiffs>::empty(),
            store.wf(),
    {
        GitStore {
            state: GitStoreState::Local { next_repository_id, downstream },
            has_project,
            repositories: Vec::new(),
            worktree_ids: HashMap::new(),
            display_diffs: HashSet::new(),
            active_repo_id: None,
            external_starts: HashSet::new(),
            diffs: Vec::new(),
        }
    }

    /// Where a repository stands.
    fn position(&self, id: RepositoryId) -> (position: Option<usize>)
        ensures
            match position {
                Some(position) => is_at(self.repositories@, id, position as int),
                None => forall|i: int| !is_at(self.repositories@, id, i),
            },
    {
        let mut i: usize = 0;
        while i < self.repositories.len()
            invariant
                i <= self.repositories@.len(),
                forall|j: int| 0 <= j < i ==> !is_at(self.repositories@, id, j),
            decreases self.repositories@.len() - i,
        {
            if self.repositories[i].id == id {
                return Some(i);
            }
            i += 1;
        }
        None
    }

    /// Gives every open diff of a repository the operations that the repository allows.
    pub fn update_diff_operations_for_repository(&mut self, id: RepositoryId)
        requires
            old(self).wf(),
        ensures
            final(self).diffs@ == diffs_updated(
                old(self).diffs@,
                old(self).repositories@,
                old(self).has_project,
                id,
            ),
            *final(self) == (GitStore { diffs: final(self).diffs, ..*old(self) }),
    {
        let position: usize = match self.position(id) {
            Some(position) => position,
            None => {
                return;
            },
        };
        let read_only: bool = self.repositories[position].is_read_only();
        proof {
            let chosen = choose|i: int| is_at(self.repositories@, id, i);
            assert(is_at(self.repositories@, id, position as int));
            assert(chosen == position);
        }
        if !self.has_project {
            return;
        }
        let ghost before = self.diffs@;
        let ghost wanted = before.map_values(
            |diffs: BufferDiffs| buffer_updated(diffs, id, read_only),
        );
        let mut i: usize = 0;
        while i < self.diffs.len()
            invariant
                i <= self.diffs@.len(),
                self.diffs@.len() == before.len(),
                before == old(self).diffs@,
                wanted == before.map_values(
                    |diffs: BufferDiffs| buffer_updated(diffs, id, read_only),
                ),
                forall|j: int| 0 <= j < i ==> self.diffs@[j] == wanted[j],
                forall|j: int| i <= j < before.len() ==> self.diffs@[j] == before[j],
                *self == (GitStore { diffs: self.diffs, ..*old(self) }),
            decreases self.diffs@.len() - i,
        {
            let diffs: BufferDiffs = self.diffs[i];
            assert(wanted[i as int] == buffer_updated(before[i as int], id, read_only));
            let of_repository: bool = match diffs.repository {
                Some(repository) => repository == id,
                None => false,
            };
            if of_repository {
                self.diffs.set(
                    i,
                    BufferDiffs {
                        buffer: diffs.buffer,
                        repository: diffs.repository,
                        unstaged: set_operations(diffs.unstaged, DiffKind::Unstaged, read_only),
                        staged: set_operations(diffs.staged, DiffKind::Staged, read_only),
                        uncommitted: set_operations(
                            diffs.uncommitted,
                            DiffKind::Uncommitted,
                            read_only,
                        ),
                    },
                );
            }
            i += 1;
        }
        assert(self.diffs@ =~= wanted);
    }
}

/// The repositories that are not replaced, in their order.
pub open spec fn remaining(repositories: Seq<Repository>, replaced: Seq<bool>) -> Seq<Repository>
    decreases repositories.len(),
{
    if repositories.len() == 0 {
        Seq::empty()
    } else {
        let before = remaining(repositories.drop_last(), replaced);
        if replaced[repositories.len() - 1] {
            before
        } else {
            before.push(repositories.last())
        }
    }
}

/// The identifiers of the repositories that are replaced, in their order.
pub open spec fn replaced_ids(repositories: Seq<Repository>, replaced: Seq<bool>) -> Seq<RepositoryId>
    decreases repositories.len(),
{
    if repositories.len() == 0 {
        Seq::empty()
    } else {
        let before = replaced_ids(repositories.drop_last(), replaced);
        if replaced[repositories.len() - 1] {
            before.push(repositories.last().id)
        } else {
            before
        }
    }
}

/// What is done when a repository is added with the identifier `id` and others are replaced.
pub open spec fn registration_effects(
    gone: Seq<RepositoryId>,
    downstream: bool,
    id: RepositoryId,
    activated: bool,
) -> Seq<Effect> {
    let told = if downstream {
        gone.map_values(|id: RepositoryId| Effect::RemoveDownstream(id))
    } else {
        Seq::empty()
    };
    let added = told.push(Effect::Scan(id)).push(Effect::RepositoryAdded).push(
        Effect::RefreshDiffBase(id),
    );
    if activated {
        added.push(Effect::ActiveRepositoryChanged(id))
    } else {
        added
    }
}

/// The active repository after some are gone.
pub open spec fn active_without(
    active: Option<RepositoryId>,
    gone: Seq<RepositoryId>,
) -> Option<RepositoryId> {
    match active {
        Some(id) => if gone.contains(id) {
            None
        } else {
            active
        },
        None => None,
    }
}

proof fn lemma_replaced_in_turn(repositories: Seq<Repository>, replaced: Seq<bool>, n: int)
    requires
        0 <= n < repositories.len(),
        replaced.len() == repositories.len(),
    ensures
        remaining(repositories.take(n + 1), replaced) == if replaced[n] {
            remaining(repositories.take(n), replaced)
        } else {
            remaining(repositories.take(n), replaced).push(repositories[n])
        },
        replaced_ids(repositories.take(n + 1), replaced) == if replaced[n] {
            replaced_ids(repositories.take(n), replaced).push(repositories[n].id)
        } else {
            replaced_ids(repositories.take(n), replaced)
        },
{
    assert(repositories.take(n + 1).drop_last() =~= repositories.take(n));
}

/// What remains are repositories that are not replaced, and no two of them have one identifier.
proof fn lemma_remaining(
    repositories: Seq<Repository>,
    replaced: Seq<bool>,
    next: RepositoryId,
    n: int,
)
    requires
        0 <= n <= repositories.len(),
        replaced.len() == repositories.len(),
        ids_wf(repositories, next),
    ensures
        forall|i: int|
            0 <= i < remaining(repositories.take(n), replaced).len() ==> remains(
                repositories,
                replaced,
                n,
                #[trigger] remaining(repositories.take(n), replaced)[i],
            ),
        ids_wf(remaining(repositories.take(n), replaced), next),
    decreases n,
{
    let kept = remaining(repositories.take(n), replaced);
    if n > 0 {
        let before = remaining(repositories.take(n - 1), replaced);
        lemma_remaining(repositories, replaced, next, n - 1);
        lemma_replaced_in_turn(repositories, replaced, n - 1);
        assert forall|i: int| 0 <= i < kept.len() implies remains(
            repositories,
            replaced,
            n,
            #[trigger] kept[i],
        ) by {
            if i < before.len() {
                assert(remains(repositories, replaced, n - 1, before[i]));
                let j = choose|j: int|
                    0 <= j < n - 1 && !replaced[j] && #[trigger] repositories[j] == before[i];
                assert(repositories[j] == kept[i]);
            } else {
                assert(repositories[n - 1] == kept[i]);
            }
        }
        assert forall|i: int, j: int| 0 <= i < j < kept.len() implies (#[trigger] kept[i]).id != (
        #[trigger] kept[j]).id by {
            if j == before.len() {
                assert(remains(repositories, replaced, n - 1, before[i]));
                let k = choose|k: int|
                    0 <= k < n - 1 && !replaced[k] && #[trigger] repositories[k] == before[i];
                assert(repositories[k].id != repositories[n - 1].id);
            } else {
                assert(before[i].id != before[j].id);
            }
        }
        assert forall|i: int| 0 <= i < kept.len() implies (#[trigger] kept[i]).id < next by {
            if i < before.len() {
                assert(before[i].id < next);
            } else {
                assert(repositories[n - 1].id < next);
            }
        }
    } else {
        assert(repositories.take(n) =~= Seq::<Repository>::empty());
    }
}

/// Whether a repository is one of the first `n` and not replaced.
pub open spec fn remains(
    repositories: Seq<Repository>,
    replaced: Seq<bool>,
    n: int,
    repository: Repository,
) -> bool {
    exists|j: int| 0 <= j < n && !replaced[j] && #[trigger] repositories[j] == repository
}

/// A buffer after the repository `id` took the place of others: in it where it is one of
/// `buffers`, and in none where it was in one that is gone.
pub open spec fn buffer_moved(
    diffs: BufferDiffs,
    buffers: Seq<BufferId>,
    gone: Seq<RepositoryId>,
    id: RepositoryId,
) -> BufferDiffs {
    if buffers.contains(diffs.buffer) {
        BufferDiffs { repository: Some(id), ..diffs }
    } else if diffs.repository matches Some(other) && gone.contains(other) {
        BufferDiffs { repository: None, ..diffs }
    } else {
        diffs
    }
}

/// The buffers after the read-only repository `id` took the place of others: the open diffs of
/// those in it allow nothing.
pub open spec fn diffs_registered(
    diffs: Seq<BufferDiffs>,
    buffers: Seq<BufferId>,
    gone: Seq<RepositoryId>,
    id: RepositoryId,
    has_project: bool,
) -> Seq<BufferDiffs> {
    diffs.map_values(
        |diffs: BufferDiffs|
            if has_project && buffers.contains(diffs.buffer) {
                buffer_updated(buffer_moved(diffs, buffers, gone, id), id, true)
            } else {
                buffer_moved(diffs, buffers, gone, id)
            },
    )
}

impl GitStore {
    /// What a store is after a repository was registered, given which others it replaces and which
    /// buffers lie in it.
    pub open spec fn registered(
        &self,
        after: &GitStore,
        worktree: WorktreeId,
        backend: ExternalRepository,
        replaced: Seq<bool>,
        buffers: Seq<BufferId>,
    ) -> bool {
        match self.state {
            GitStoreState::Remote => *after == *self,
            GitStoreState::Local { next_repository_id, downstream } => {
                let id = next_repository_id;
                let gone = replaced_ids(self.repositories@, replaced);
                let kept = remaining(self.repositories@, replaced);
                let active = active_without(self.active_repo_id, gone);
                &&& after.state == (GitStoreState::Local {
                    next_repository_id: (id + 1) as u64,
                    downstream,
                })
                &&& after.has_project == self.has_project
                &&& after.repositories@.drop_last() == kept
                &&& after.repositories@.len() > 0
                &&& after.repositories@.last().id == id
                &&& after.repositories@.last().work_directory@ == backend.root@
                &&& after.repositories@.last().is_read_only
                &&& after.repositories@.last().external_backend == Some(backend)
                &&& after.repositories@.last().polling matches Some(polling)
                &&& polling.previous_snapshot@ == backend.client.snapshot.snapshot@
                &&& polling.previous_error is None
                &&& after.worktree_ids@.dom() == self.worktree_ids@.dom().difference(
                    gone.to_set(),
                ).insert(id)
                &&& after.worktree_ids@[id]@ == set![worktree]
                &&& forall|other: RepositoryId|
                    other != id && after.worktree_ids@.contains_key(other)
                        ==> #[trigger] after.worktree_ids@[other] == self.worktree_ids@[other]
                &&& after.display_diffs@ == self.display_diffs@.difference(gone.to_set())
                &&& after.active_repo_id == match active {
                    Some(current) => Some(current),
                    None => Some(id),
                }
                &&& after.external_starts == self.external_starts
                &&& after.diffs@ == diffs_registered(
                    self.diffs@,
                    buffers,
                    gone,
                    id,
                    self.has_project,
                )
            },
        }
    }

    /// What is done when a repository is registered, given which others it replaces.
    pub open spec fn registering(&self, replaced: Seq<bool>) -> Seq<Effect> {
        match self.state {
            GitStoreState::Remote => Seq::empty(),
            GitStoreState::Local { next_repository_id, downstream } => {
                let gone = replaced_ids(self.repositories@, replaced);
                registration_effects(
                    gone,
                    downstream,
                    next_repository_id,
                    active_without(self.active_repo_id, gone) is None,
                )
            },
        }
    }
}

impl GitStore {
    /// Registers the repository of a provider, given which others it replaces and which buffers lie
    /// in it.
    pub fn register_replacing(
        &mut self,
        worktree_id: WorktreeId,
        backend: ExternalRepository,
        replaced: &Vec<bool>,
        buffers: &Vec<BufferId>,
    ) -> (effects: Vec<Effect>)
        requires
            old(self).wf(),
            replaced@.len() == old(self).repositories@.len(),
            old(self).state matches GitStoreState::Local { next_repository_id, .. }
                ==> next_repository_id < u64::MAX,
        ensures
            old(self).registered(final(self), worktree_id, backend, replaced@, buffers@),
            effects@ == old(self).registering(replaced@),
            final(self).wf(),
    {
        let mut effects: Vec<Effect> = Vec::new();
        let (id, downstream): (RepositoryId, bool) = match self.state {
            GitStoreState::Local { next_repository_id, downstream } => (
                next_repository_id,
                downstream,
            ),
            GitStoreState::Remote => {
                return effects;
            },
        };
        let ghost all = self.repositories@;
        let ghost flags = replaced@;
        let repositories: Vec<Repository> = self.take_repositories();
        let mut rest: Vec<Repository> = reversed(repositories);
        let mut kept: Vec<Repository> = Vec::new();
        let mut gone: Vec<RepositoryId> = Vec::new();
        let mut n: usize = 0;
        let ghost told = |gone: Seq<RepositoryId>|
            if downstream {
                gone.map_values(|id: RepositoryId| Effect::RemoveDownstream(id))
            } else {
                Seq::<Effect>::empty()
            };
        proof {
            assert(all.skip(0) =~= all);
            assert(all.take(0) =~= Seq::<Repository>::empty());
            assert(effects@ =~= told(gone@));
            assert(self.worktree_ids@.dom() =~= old(self).worktree_ids@.dom().difference(
                gone@.to_set(),
            ));
            assert(self.display_diffs@ =~= old(self).display_diffs@.difference(gone@.to_set()));
        }
        while n < replaced.len()
            invariant
                n <= replaced@.len(),
                replaced@ == flags,
                flags.len() == all.len(),
                rest@ == all.skip(n as int).reverse(),
                kept@ == remaining(all.take(n as int), flags),
                gone@ == replaced_ids(all.take(n as int), flags),
                told == (|gone: Seq<RepositoryId>|
                    if downstream {
                        gone.map_values(|id: RepositoryId| Effect::RemoveDownstream(id))
                    } else {
                        Seq::<Effect>::empty()
                    }),
                effects@ == told(gone@),
                self.state == old(self).state,
                self.has_project == old(self).has_project,
                self.external_starts == old(self).external_starts,
                self.diffs == old(self).diffs,
                self.active_repo_id == active_without(old(self).active_repo_id, gone@),
                self.worktree_ids@.dom() == old(self).worktree_ids@.dom().difference(
                    gone@.to_set(),
                ),
                forall|other: RepositoryId|
                    self.worktree_ids@.contains_key(other)
                        ==> #[trigger] self.worktree_ids@[other] == old(self).worktree_ids@[other],
                self.display_diffs@ == old(self).display_diffs@.difference(gone@.to_set()),
            decreases replaced@.len() - n,
        {
            proof {
                lemma_replaced_in_turn(all, flags, n as int);
            }
            let ghost before = gone@;
            if let Some(repository) = rest.pop() {
                assert(repository == all[n as int]);
                assert(rest@ =~= all.skip(n + 1).reverse());
                if replaced[n] {
                    let other: RepositoryId = repository.id;
                    gone.push(other);
                    proof {
                        lemma_gone_in_turn(before, other);
                    }
                    if downstream {
                        effects.push(Effect::RemoveDownstream(other));
                    }
                    assert(effects@ =~= told(gone@));
                    self.worktree_ids.remove(&other);
                    self.display_diffs.remove(&other);
                    if self.active_repo_id == Some(other) {
                        self.active_repo_id = None;
                    }
                    assert(self.worktree_ids@.dom() =~= old(self).worktree_ids@.dom().difference(
                        gone@.to_set(),
                    ));
                    assert(self.display_diffs@ =~= old(self).display_diffs@.difference(
                        gone@.to_set(),
                    ));
                } else {
                    kept.push(repository);
                }
            }
            n += 1;
        }
        assert(all.take(n as int) =~= all);
        proof {
            lemma_remaining(all, flags, id, n as int);
        }
        let ghost remaining_ones = kept@;
        kept.push(Repository::external(id, backend));
        assert(kept@.drop_last() =~= remaining_ones);
        self.repositories = kept;
        self.state = GitStoreState::Local { next_repository_id: id + 1, downstream };
        effects.push(Effect::Scan(id));
        proof {
            assert forall|i: int, j: int|
                0 <= i < j < self.repositories@.len() implies (
            #[trigger] self.repositories@[i]).id != (#[trigger] self.repositories@[j]).id by {
                assert(self.repositories@[i] == remaining_ones[i]);
                if j < remaining_ones.len() {
                    assert(self.repositories@[j] == remaining_ones[j]);
                }
            }
            assert forall|i: int| 0 <= i < self.repositories@.len() implies (
            #[trigger] self.repositories@[i]).id < id + 1 by {
                if i < remaining_ones.len() {
                    assert(self.repositories@[i] == remaining_ones[i]);
                }
            }
        }
        self.move_buffers(buffers, &gone, id);
        self.update_diff_operations_for_repository(id);
        proof {
            let last = self.repositories@.len() - 1;
            assert(is_at(self.repositories@, id, last));
            let chosen = choose|i: int| is_at(self.repositories@, id, i);
            assert(chosen == last);
            assert(self.diffs@ =~= diffs_registered(
                old(self).diffs@,
                buffers@,
                gone@,
                id,
                self.has_project,
            ));
        }
        let mut worktrees: HashSet<WorktreeId> = HashSet::new();
        worktrees.insert(worktree_id);
        assert(worktrees@ =~= set![worktree_id]);
        let ghost ids_before = self.worktree_ids@;
        self.worktree_ids.insert(id, worktrees);
        assert(self.worktree_ids@.dom() =~= ids_before.dom().insert(id));
        effects.push(Effect::RepositoryAdded);
        effects.push(Effect::RefreshDiffBase(id));
        if self.active_repo_id.is_none() {
            self.active_repo_id = Some(id);
            effects.push(Effect::ActiveRepositoryChanged(id));
        }
        effects
    }

    /// Takes note of the buffers that lie in the repository `id`, and of those that lie in none that
    /// is left.
    fn move_buffers(
        &mut self,
        buffers: &Vec<BufferId>,
        gone: &Vec<RepositoryId>,
        id: RepositoryId,
    )
        ensures
            final(self).diffs@ == old(self).diffs@.map_values(
                |diffs: BufferDiffs| buffer_moved(diffs, buffers@, gone@, id),
            ),
            *final(self) == (GitStore { diffs: final(self).diffs, ..*old(self) }),
    {
        let ghost before = self.diffs@;
        let mut i: usize = 0;
        while i < self.diffs.len()
            invariant
                i <= self.diffs@.len(),
                self.diffs@.len() == before.len(),
                before == old(self).diffs@,
                forall|j: int|
                    0 <= j < i ==> #[trigger] self.diffs@[j] == buffer_moved(
                        before[j],
                        buffers@,
                        gone@,
                        id,
                    ),
                forall|j: int| i <= j < before.len() ==> #[trigger] self.diffs@[j] == before[j],
                *self == (GitStore { diffs: self.diffs, ..*old(self) }),
            decreases self.diffs@.len() - i,
        {
            let mut diffs: BufferDiffs = self.diffs[i];
            if holds(buffers, diffs.buffer) {
                diffs.repository = Some(id);
            } else if let Some(other) = diffs.repository {
                if holds(gone, other) {
                    diffs.repository = None;
                }
            }
            self.diffs.set(i, diffs);
            i += 1;
        }
        assert(self.diffs@ =~= before.map_values(
            |diffs: BufferDiffs| buffer_moved(diffs, buffers@, gone@, id),
        ));
    }

    /// Takes the repositories out.
    fn take_repositories(&mut self) -> (repositories: Vec<Repository>)
        ensures
            repositories == old(self).repositories,
            final(self).repositories@ == Seq::<Repository>::empty(),
            *final(self) == (GitStore { repositories: final(self).repositories, ..*old(self) }),
    {
        let mut repositories: Vec<Repository> = Vec::new();
        std::mem::swap(&mut repositories, &mut self.repositories);
        repositories
    }
}

/// Whether `id` is one of `ids`.
fn holds(ids: &Vec<u64>, id: u64) -> (held: bool)
    ensures
        held == ids@.contains(id),
{
    let mut i: usize = 0;
    while i < ids.len()
        invariant
            i <= ids@.len(),
            forall|j: int| 0 <= j < i ==> ids@[j] != id,
        decreases ids@.len() - i,
    {
        if ids[i] == id {
            return true;
        }
        i += 1;
    }
    false
}

proof fn lemma_gone_in_turn(gone: Seq<RepositoryId>, id: RepositoryId)
    ensures
        gone.push(id).to_set() == gone.to_set().insert(id),
        forall|other: RepositoryId|
            #[trigger] gone.push(id).contains(other) <==> gone.contains(other) || other == id,
{
    assert forall|other: RepositoryId| #[trigger] gone.push(id).contains(other) <==> gone.contains(
        other,
    ) || other == id by {
        if gone.contains(other) {
            let k = choose|k: int| 0 <= k < gone.len() && gone[k] == other;
            assert(gone.push(id)[k] == other);
        }
        assert(gone.push(id)[gone.len() as int] == id);
    }
    assert(gone.push(id).to_set() =~= gone.to_set().insert(id));
}

/// Whether it is right to take a working directory for `root`, or not to: paths from the root are
/// told apart by their parts; of others, the same text is the same directory, and what spells
/// differently is not.
pub open spec fn same_directory(directory: Seq<char>, root: Seq<char>, taken: bool) -> bool {
    &&& directory == root ==> taken
    &&& taken ==> spelled(directory) == spelled(root)
    &&& rooted(directory) && rooted(root) ==> taken == (parts(directory) == parts(root))
}

/// Whether the repositories that are replaced are those of a working directory.
pub open spec fn replaces_root(
    repositories: Seq<Repository>,
    replaced: Seq<bool>,
    root: Seq<char>,
) -> bool {
    &&& replaced.len() == repositories.len()
    &&& forall|i: int|
        0 <= i < repositories.len() ==> same_directory(
            (#[trigger] repositories[i]).work_directory@,
            root,
            replaced[i],
        )
}

impl GitStore {
    /// Registers the repository of a provider, in which the files of `buffers` lie. It replaces
    /// whatever serves the same working directory, so that no two backends compete for the same
    /// files.
    pub fn register_external_repository(
        &mut self,
        worktree_id: WorktreeId,
        backend: ExternalRepository,
        buffers: &Vec<BufferId>,
    ) -> (effects: Vec<Effect>)
        requires
            old(self).wf(),
            old(self).state matches GitStoreState::Local { next_repository_id, .. }
                ==> next_repository_id < u64::MAX,
        ensures
            exists|replaced: Seq<bool>|
                {
                    &&& #[trigger] replaces_root(
                        old(self).repositories@,
                        replaced,
                        backend.root@,
                    )
                    &&& old(self).registered(
                        final(self),
                        worktree_id,
                        backend,
                        replaced,
                        buffers@,
                    )
                    &&& effects@ == old(self).registering(replaced)
                },
            final(self).wf(),
    {
        let mut replaced: Vec<bool> = Vec::new();
        let mut i: usize = 0;
        while i < self.repositories.len()
            invariant
                i <= self.repositories@.len(),
                replaced@.len() == i,
                *self == *old(self),
                forall|j: int|
                    0 <= j < i ==> same_directory(
                        (#[trigger] self.repositories@[j]).work_directory@,
                        backend.root@,
                        replaced@[j],
                    ),
            decreases self.repositories@.len() - i,
        {
            replaced.push(same_path(&self.repositories[i].work_directory, &backend.root));
            i += 1;
        }
        assert(replaces_root(self.repositories@, replaced@, backend.root@));
        self.register_replacing(worktree_id, backend, &replaced, buffers)
    }
}

/// After a repository is registered it alone serves its working directory: no other has that text,
/// nor, where both are paths from the root, the same parts. What was replaced spelled the same
/// directory; it is not active, has no display diffs, and no buffer lies in it. There is an active
/// repository. The buffers that lie in the new repository are noted there and, in a project, each
/// of their open diffs is read-only; what is noted of other buffers changes only where they lay in
/// a repository that was replaced.
pub proof fn law_registered_repository_serves_alone(
    before: GitStore,
    after: GitStore,
    worktree: WorktreeId,
    backend: ExternalRepository,
    replaced: Seq<bool>,
    buffers: Seq<BufferId>,
)
    requires
        before.wf(),
        before.state is Local,
        replaces_root(before.repositories@, replaced, backend.root@),
        before.registered(&after, worktree, backend, replaced, buffers),
    ensures
        forall|i: int|
            0 <= i < after.repositories@.len() - 1 ==> {
                let directory = (#[trigger] after.repositories@[i]).work_directory@;
                &&& directory != backend.root@
                &&& rooted(directory) && rooted(backend.root@) ==> parts(directory) != parts(
                    backend.root@,
                )
            },
        forall|i: int|
            0 <= i < before.repositories@.len() && replaced[i] ==> {
                let directory = (#[trigger] before.repositories@[i]).work_directory@;
                &&& spelled(directory) == spelled(backend.root@)
                &&& rooted(directory) && rooted(backend.root@) ==> parts(directory) == parts(
                    backend.root@,
                )
            },
        after.active_repo_id is Some,
        forall|i: int|
            0 <= i < before.repositories@.len() && replaced[i] ==> after.active_repo_id != Some(
                (#[trigger] before.repositories@[i]).id,
            ) && !after.display_diffs@.contains(before.repositories@[i].id)
                && !after.worktree_ids@.contains_key(before.repositories@[i].id),
        after.diffs@.len() == before.diffs@.len(),
        forall|i: int, k: int|
            0 <= i < after.diffs@.len() && 0 <= k < before.repositories@.len() && replaced[k]
                ==> (#[trigger] after.diffs@[i]).repository != Some(
                (#[trigger] before.repositories@[k]).id,
            ),
        forall|i: int|
            0 <= i < after.diffs@.len() ==> {
                let old_diffs = before.diffs@[i];
                let diffs = #[trigger] after.diffs@[i];
                let id = before.next_id();
                &&& diffs.buffer == old_diffs.buffer
                &&& buffers.contains(diffs.buffer) ==> diffs.repository == Some(id) && (
                before.has_project ==> {
                    &&& diffs.unstaged == with_operations(
                        old_diffs.unstaged,
                        DiffKind::Unstaged,
                        true,
                    )
                    &&& diffs.staged == with_operations(old_diffs.staged, DiffKind::Staged, true)
                    &&& diffs.uncommitted == with_operations(
                        old_diffs.uncommitted,
                        DiffKind::Uncommitted,
                        true,
                    )
                })
                &&& !buffers.contains(diffs.buffer) ==> diffs.unstaged == old_diffs.unstaged
                    && diffs.staged == old_diffs.staged && diffs.uncommitted
                    == old_diffs.uncommitted && (diffs.repository == old_diffs.repository || (
                diffs.repository is None && exists|k: int|
                    0 <= k < before.repositories@.len() && replaced[k] && old_diffs.repository
                        == Some((#[trigger] before.repositories@[k]).id)))
            },
{
    let all = before.repositories@;
    let next = match before.state {
        GitStoreState::Local { next_repository_id, .. } => next_repository_id,
        GitStoreState::Remote => 0,
    };
    assert(all.take(all.len() as int) =~= all);
    lemma_remaining(all, replaced, next, all.len() as int);
    assert forall|i: int| 0 <= i < after.repositories@.len() - 1 implies {
        let directory = (#[trigger] after.repositories@[i]).work_directory@;
        &&& directory != backend.root@
        &&& rooted(directory) && rooted(backend.root@) ==> parts(directory) != parts(backend.root@)
    } by {
        let kept = remaining(all, replaced);
        assert(after.repositories@.drop_last()[i] == after.repositories@[i]);
        assert(remains(all, replaced, all.len() as int, kept[i]));
        let j = choose|j: int| 0 <= j < all.len() && !replaced[j] && #[trigger] all[j] == kept[i];
        assert(same_directory(all[j].work_directory@, backend.root@, false));
    }
    assert forall|i: int| 0 <= i < all.len() && replaced[i] implies after.active_repo_id != Some(
        (#[trigger] all[i]).id,
    ) && !after.display_diffs@.contains(all[i].id) && !after.worktree_ids@.contains_key(
        all[i].id,
    ) by {
        lemma_replaced_are_gone(all, replaced, i, all.len() as int);
        assert(all[i].id < next);
    }
    let gone = replaced_ids(all, replaced);
    assert forall|i: int, k: int|
        0 <= i < after.diffs@.len() && 0 <= k < all.len() && replaced[k] implies (
    #[trigger] after.diffs@[i]).repository != Some((#[trigger] all[k]).id) by {
        lemma_replaced_are_gone(all, replaced, k, all.len() as int);
        assert(all[k].id < next);
    }
    assert forall|other: RepositoryId| gone.contains(other) implies exists|k: int|
        0 <= k < all.len() && replaced[k] && (#[trigger] all[k]).id == other by {
        lemma_gone_were_replaced(all, replaced, other, all.len() as int);
    }
}

proof fn lemma_gone_were_replaced(
    all: Seq<Repository>,
    replaced: Seq<bool>,
    id: RepositoryId,
    n: int,
)
    requires
        0 <= n <= all.len(),
        replaced.len() == all.len(),
        replaced_ids(all.take(n), replaced).contains(id),
    ensures
        exists|k: int| 0 <= k < n && replaced[k] && (#[trigger] all[k]).id == id,
    decreases n,
{
    if n > 0 {
        lemma_replaced_in_turn(all, replaced, n - 1);
        let before = replaced_ids(all.take(n - 1), replaced);
        if replaced[n - 1] {
            lemma_gone_in_turn(before, all[n - 1].id);
        }
        if before.contains(id) {
            lemma_gone_were_replaced(all, replaced, id, n - 1);
        } else {
            assert(all[n - 1].id == id);
        }
    }
}

proof fn lemma_replaced_are_gone(all: Seq<Repository>, replaced: Seq<bool>, i: int, n: int)
    requires
        0 <= i < n <= all.len(),
        replaced.len() == all.len(),
        replaced[i],
    ensures
        replaced_ids(all.take(n), replaced).contains(all[i].id),
    decreases n,
{
    lemma_replaced_in_turn(all, replaced, n - 1);
    let before = replaced_ids(all.take(n - 1), replaced);
    if i < n - 1 {
        lemma_replaced_are_gone(all, replaced, i, n - 1);
    }
    if replaced[n - 1] {
        lemma_gone_in_turn(before, all[n - 1].id);
        assert(before.push(all[n - 1].id).contains(all[i].id));
    }
}

/// What the settings say about the provider of a worktree.
#[derive(Clone, Copy, Debug)]
pub struct ProviderSettings {
    pub poll_interval_ms: Option<u64>,
    pub request_timeout_ms: Option<u64>,
}

/// A worktree of the project: its settings, whether it lies on this machine, and whether it may be
/// trusted.
#[derive(Clone, Copy, Debug)]
pub struct WorktreeState {
    pub id: WorktreeId,
    pub settings: Option<ProviderSettings>,
    pub is_local: bool,
    pub can_trust: bool,
}

/// A provider that is to be started for the worktree at `position`.
#[derive(Clone, Copy, Debug, PartialEq, Eq, Structural)]
pub struct ProviderStart {
    pub position: usize,
    pub worktree_id: WorktreeId,
    pub timeout_ms: u64,
    pub interval_ms: u64,
}

/// How long a request may take: half a minute unless the settings say otherwise, but neither less
/// than a tenth of a second nor more than five minutes.
pub open spec fn timeout_of(configured: Option<u64>) -> u64 {
    match configured {
        None => 30_000,
        Some(milliseconds) => if milliseconds < 100 {
            100
        } else if milliseconds > 300_000 {
            300_000
        } else {
            milliseconds
        },
    }
}

/// How long to wait between refreshes: two seconds unless the settings say otherwise, but not less
/// than a quarter of a second.
pub open spec fn interval_of(configured: Option<u64>) -> u64 {
    match configured {
        None => 2000,
        Some(milliseconds) => if milliseconds < 250 {
            250
        } else {
            milliseconds
        },
    }
}

/// How long a request may take, in milliseconds.
pub fn request_timeout(configured: Option<u64>) -> (milliseconds: u64)
    ensures
        milliseconds == timeout_of(configured),
{
    let milliseconds: u64 = match configured {
        Some(milliseconds) => milliseconds,
        None => 30_000,
    };
    if milliseconds < 100 {
        100
    } else if milliseconds > 300_000 {
        300_000
    } else {
        milliseconds
    }
}

/// How long to wait between refreshes, in milliseconds.
pub fn poll_interval(configured: Option<u64>) -> (milliseconds: u64)
    ensures
        milliseconds == interval_of(configured),
{
    let milliseconds: u64 = match configured {
        Some(milliseconds) => milliseconds,
        None => 2000,
    };
    if milliseconds < 250 {
        250
    } else {
        milliseconds
    }
}

/// Whether a provider is to be started for a worktree, given those it was started for before.
pub open spec fn is_startable(worktree: WorktreeState, started: Set<WorktreeId>) -> bool {
    worktree.settings is Some && worktree.is_local && !started.contains(worktree.id)
        && worktree.can_trust
}

/// The providers that are started for the first `n` worktrees, and the worktrees that providers
/// were started for then.
pub open spec fn starting(
    worktrees: Seq<WorktreeState>,
    started: Set<WorktreeId>,
    n: int,
) -> (Seq<ProviderStart>, Set<WorktreeId>)
    decreases n,
{
    if n <= 0 {
        (Seq::empty(), started)
    } else {
        let (starts, known) = starting(worktrees, started, n - 1);
        let worktree = worktrees[n - 1];
        if is_startable(worktree, known) {
            (
                starts.push(
                    ProviderStart {
                        position: (n - 1) as usize,
                        worktree_id: worktree.id,
                        timeout_ms: timeout_of(worktree.settings->0.request_timeout_ms),
                        interval_ms: interval_of(worktree.settings->0.poll_interval_ms),
                    },
                ),
                known.insert(worktree.id),
            )
        } else {
            (starts, known)
        }
    }
}

impl GitStore {
    /// Finds the worktrees that a provider is to be started for: those with settings for one, on
    /// this machine, trusted, for which none was started before.
    pub fn start_external_providers(&mut self, worktrees: &Vec<WorktreeState>) -> (starts: Vec<
        ProviderStart,
    >)
        ensures
            *final(self) == (GitStore {
                external_starts: final(self).external_starts,
                ..*old(self)
            }),
            match old(self).state {
                GitStoreState::Remote => *final(self) == *old(self) && starts@ == Seq::<
                    ProviderStart,
                >::empty(),
                GitStoreState::Local { .. } => (starts@, final(self).external_starts@) == starting(
                    worktrees@,
                    old(self).external_starts@,
                    worktrees@.len() as int,
                ),
            },
    {
        let mut starts: Vec<ProviderStart> = Vec::new();
        if let GitStoreState::Remote = self.state {
            return starts;
        }
        let mut n: usize = 0;
        while n < worktrees.len()
            invariant
                n <= worktrees@.len(),
                (starts@, self.external_starts@) == starting(
                    worktrees@,
                    old(self).external_starts@,
                    n as int,
                ),
                *self == (GitStore { external_starts: self.external_starts, ..*old(self) }),
            decreases worktrees@.len() - n,
        {
            let worktree: WorktreeState = worktrees[n];
            if let Some(settings) = worktree.settings {
                if worktree.is_local && !self.external_starts.contains(&worktree.id)
                    && worktree.can_trust {
                    starts.push(
                        ProviderStart {
                            position: n,
                            worktree_id: worktree.id,
                            timeout_ms: request_timeout(settings.request_timeout_ms),
                            interval_ms: poll_interval(settings.poll_interval_ms),
                        },
                    );
                    self.external_starts.insert(worktree.id);
                }
            }
            n += 1;
        }
        starts
    }

    /// Takes a session that was started for a worktree: it is registered where the worktree is
    /// still there and still trusted, with the files of `buffers` in it, and otherwise dropped.
    pub fn provider_started(
        &mut self,
        worktree_id: WorktreeId,
        is_present: bool,
        can_trust: bool,
        client: Client,
        buffers: &Vec<BufferId>,
    ) -> (effects: Vec<Effect>)
        requires
            old(self).wf(),
            old(self).state matches GitStoreState::Local { next_repository_id, .. }
                ==> next_repository_id < u64::MAX,
        ensures
            !(is_present && can_trust) ==> *final(self) == *old(self) && effects@ == Seq::<
                Effect,
            >::empty(),
            is_present && can_trust ==> exists|replaced: Seq<bool>, backend: ExternalRepository|
                {
                    &&& #[trigger] replaces_root(
                        old(self).repositories@,
                        replaced,
                        client.repository.root@,
                    )
                    &&& #[trigger] old(self).registered(
                        final(self),
                        worktree_id,
                        backend,
                        replaced,
                        buffers@,
                    )
                    &&& effects@ == old(self).registering(replaced)
                    &&& is_new_backend(backend, client)
                },
            final(self).wf(),
    {
        if !is_present || !can_trust {
            return Vec::new();
        }
        let backend: ExternalRepository = ExternalRepository::new(client);
        self.register_external_repository(worktree_id, backend, buffers)
    }
}

/// Whether a backend is the new, trusted one of a session.
pub open spec fn is_new_backend(backend: ExternalRepository, client: Client) -> bool {
    &&& backend.client == client
    &&& backend.root@ == client.repository.root@
    &&& backend.trusted
    &&& backend.error is None
    &&& backend.known() == (Known { revisions: Map::empty(), history: Map::empty() })
}

/// No provider is started for a worktree that is not trusted, lies elsewhere or has no settings for
/// one, and none is started twice.
pub proof fn law_untrusted_worktrees_start_nothing(
    worktrees: Seq<WorktreeState>,
    started: Set<WorktreeId>,
    n: int,
)
    requires
        0 <= n <= worktrees.len(),
        worktrees.len() <= usize::MAX,
    ensures
        forall|i: int|
            0 <= i < starting(worktrees, started, n).0.len() ==> {
                let start = #[trigger] starting(worktrees, started, n).0[i];
                let worktree = worktrees[start.position as int];
                &&& start.position < n
                &&& worktree.id == start.worktree_id
                &&& worktree.can_trust && worktree.is_local && worktree.settings is Some
                &&& !started.contains(start.worktree_id)
                &&& starting(worktrees, started, n).1.contains(start.worktree_id)
            },
        forall|i: int, j: int|
            0 <= i < j < starting(worktrees, started, n).0.len() ==> (#[trigger] starting(
                worktrees,
                started,
                n,
            ).0[i]).worktree_id != (#[trigger] starting(worktrees, started, n).0[j]).worktree_id,
        started.subset_of(starting(worktrees, started, n).1),
    decreases n,
{
    if n > 0 {
        law_untrusted_worktrees_start_nothing(worktrees, started, n - 1);
    }
}

/// A request may take what the settings say, within a tenth of a second and five minutes, and half a
/// minute where they say nothing; between refreshes lies what they say, a quarter of a second at
/// least, and two seconds where they say nothing.
pub proof fn law_times_are_as_configured_within_bounds(configured: u64, more: u64)
    requires
        configured <= more,
    ensures
        timeout_of(None) == 30_000,
        100 <= timeout_of(Some(configured)) <= 300_000,
        100 <= configured <= 300_000 ==> timeout_of(Some(configured)) == configured,
        configured < 100 ==> timeout_of(Some(configured)) == 100,
        configured > 300_000 ==> timeout_of(Some(configured)) == 300_000,
        timeout_of(Some(configured)) <= timeout_of(Some(more)),
        interval_of(None) == 2_000,
        interval_of(Some(configured)) >= 250,
        configured >= 250 ==> interval_of(Some(configured)) == configured,
        configured < 250 ==> interval_of(Some(configured)) == 250,
        interval_of(Some(configured)) <= interval_of(Some(more)),
{
}

/// Whether a worktree has settings for a provider, lies on this machine and is trusted.
pub open spec fn is_eligible(worktree: WorktreeState) -> bool {
    worktree.settings is Some && worktree.is_local && worktree.can_trust
}

/// A provider is started for every worktree with settings for one, on this machine and trusted, for
/// which none was started before: once, at the first of its places, with its own times, and in the
/// order of the worktrees.
pub proof fn law_eligible_worktrees_are_started(
    worktrees: Seq<WorktreeState>,
    started: Set<WorktreeId>,
    n: int,
)
    requires
        0 <= n <= worktrees.len(),
        worktrees.len() <= usize::MAX,
    ensures
        ({
            let (starts, known) = starting(worktrees, started, n);
            &&& forall|k: int|
                0 <= k < n && is_eligible(#[trigger] worktrees[k]) && !started.contains(
                    worktrees[k].id,
                ) ==> exists|i: int|
                    0 <= i < starts.len() && (#[trigger] starts[i]).worktree_id == worktrees[k].id
                        && starts[i].position <= k
            &&& forall|id: WorktreeId| #[trigger]
                known.contains(id) <==> started.contains(id) || exists|i: int|
                    0 <= i < starts.len() && (#[trigger] starts[i]).worktree_id == id
            &&& forall|i: int|
                0 <= i < starts.len() ==> {
                    let start = #[trigger] starts[i];
                    let settings = worktrees[start.position as int].settings->0;
                    &&& start.position < n
                    &&& is_eligible(worktrees[start.position as int])
                    &&& start.worktree_id == worktrees[start.position as int].id
                    &&& start.timeout_ms == timeout_of(settings.request_timeout_ms)
                    &&& start.interval_ms == interval_of(settings.poll_interval_ms)
                }
            &&& forall|i: int, j: int|
                0 <= i < j < starts.len() ==> (#[trigger] starts[i]).position < (
                #[trigger] starts[j]).position
        }),
    decreases n,
{
    if n > 0 {
        law_eligible_worktrees_are_started(worktrees, started, n - 1);
        let (before, known_before) = starting(worktrees, started, n - 1);
        let (starts, known) = starting(worktrees, started, n);
        let worktree = worktrees[n - 1];
        assert forall|i: int| 0 <= i < before.len() implies #[trigger] starts[i] == before[i] by {}
        assert forall|k: int|
            0 <= k < n && is_eligible(#[trigger] worktrees[k]) && !started.contains(
                worktrees[k].id,
            ) implies exists|i: int|
            0 <= i < starts.len() && (#[trigger] starts[i]).worktree_id == worktrees[k].id
                && starts[i].position <= k by {
            if k < n - 1 || known_before.contains(worktree.id) {
                let i = choose|i: int|
                    0 <= i < before.len() && (#[trigger] before[i]).worktree_id == worktrees[k].id
                        && (before[i].position <= k);
                assert(starts[i] == before[i]);
            } else {
                assert(starts.last().worktree_id == worktree.id);
                assert(starts[starts.len() - 1].position == k);
            }
        }
        assert forall|id: WorktreeId| #[trigger]
            known.contains(id) <==> started.contains(id) || exists|i: int|
                0 <= i < starts.len() && (#[trigger] starts[i]).worktree_id == id by {
            if known.contains(id) && !started.contains(id) {
                if known_before.contains(id) {
                    let i = choose|i: int|
                        0 <= i < before.len() && (#[trigger] before[i]).worktree_id == id;
                    assert(starts[i].worktree_id == id);
                } else {
                    assert(starts[starts.len() - 1].worktree_id == id);
                }
            }
            if exists|i: int| 0 <= i < starts.len() && (#[trigger] starts[i]).worktree_id == id {
                let i = choose|i: int|
                    0 <= i < starts.len() && (#[trigger] starts[i]).worktree_id == id;
                if i < before.len() {
                    assert(before[i].worktree_id == id);
                    assert(known_before.contains(id));
                }
            }
        }
    }
}

/// The open diffs of a buffer in a repository get their own kind and what the repository allows; a
/// diff that is not open stays so, and nothing happens to a buffer that lies elsewhere.
pub proof fn law_open_diffs_allow_what_their_repository_does(
    diffs: BufferDiffs,
    id: RepositoryId,
    read_only: bool,
)
    ensures
        ({
            let after = buffer_updated(diffs, id, read_only);
            &&& after.buffer == diffs.buffer
            &&& after.repository == diffs.repository
            &&& after.unstaged is Some <==> diffs.unstaged is Some
            &&& after.staged is Some <==> diffs.staged is Some
            &&& after.uncommitted is Some <==> diffs.uncommitted is Some
            &&& diffs.repository != Some(id) ==> after == diffs
            &&& diffs.repository == Some(id) ==> {
                &&& after.unstaged matches Some(diff) ==> diff.operations == Some(
                    DiffOperations { kind: DiffKind::Unstaged, read_only },
                )
                &&& after.staged matches Some(diff) ==> diff.operations == Some(
                    DiffOperations { kind: DiffKind::Staged, read_only },
                )
                &&& after.uncommitted matches Some(diff) ==> diff.operations == Some(
                    DiffOperations { kind: DiffKind::Uncommitted, read_only },
                )
            }
        }),
{
}

/// The diffs of a repository's buffers are updated by what that repository allows, in a project and
/// where there is such a repository; otherwise nothing happens to any.
pub proof fn law_diffs_are_updated_by_their_repository(
    diffs: Seq<BufferDiffs>,
    repositories: Seq<Repository>,
    next: RepositoryId,
    has_project: bool,
    at: int,
    other: RepositoryId,
)
    requires
        ids_wf(repositories, next),
        0 <= at < repositories.len(),
        forall|i: int| 0 <= i < repositories.len() ==> (#[trigger] repositories[i]).id != other,
    ensures
        ({
            let id = repositories[at].id;
            let after = diffs_updated(diffs, repositories, true, id);
            &&& after.len() == diffs.len()
            &&& forall|i: int|
                0 <= i < diffs.len() ==> #[trigger] after[i] == buffer_updated(
                    diffs[i],
                    id,
                    repositories[at].is_read_only,
                )
            &&& diffs_updated(diffs, repositories, false, id) == diffs
            &&& diffs_updated(diffs, repositories, has_project, other) == diffs
        }),
{
    let id = repositories[at].id;
    assert(is_at(repositories, id, at));
    let chosen = choose|i: int| is_at(repositories, id, i);
    if chosen < at {
        assert(repositories[chosen].id != repositories[at].id);
    } else if at < chosen {
        assert(repositories[at].id != repositories[chosen].id);
    }
    assert forall|i: int| !is_at(repositories, other, i) by {
        if 0 <= i < repositories.len() {
            assert(repositories[i].id != other);
        }
    }
}

proof fn lemma_later_flags_do_not_count(
    repositories: Seq<Repository>,
    replaced: Seq<bool>,
    later: Seq<bool>,
)
    requires
        repositories.len() <= replaced.len(),
    ensures
        remaining(repositories, replaced + later) == remaining(repositories, replaced),
        replaced_ids(repositories, replaced + later) == replaced_ids(repositories, replaced),
    decreases repositories.len(),
{
    if repositories.len() > 0 {
        lemma_later_flags_do_not_count(repositories.drop_last(), replaced, later);
        assert((replaced + later)[repositories.len() - 1] == replaced[repositories.len() - 1]);
    }
}

/// Each repository either remains or is replaced, one after another: what remains, and what is gone,
/// comes in the order that it had.
pub proof fn law_each_repository_remains_or_is_replaced(
    repositories: Seq<Repository>,
    replaced: Seq<bool>,
    next: Repository,
    is_replaced: bool,
)
    requires
        replaced.len() == repositories.len(),
    ensures
        remaining(Seq::empty(), Seq::empty()) == Seq::<Repository>::empty(),
        replaced_ids(Seq::empty(), Seq::empty()) == Seq::<RepositoryId>::empty(),
        remaining(repositories.push(next), replaced.push(is_replaced)) == if is_replaced {
            remaining(repositories, replaced)
        } else {
            remaining(repositories, replaced).push(next)
        },
        replaced_ids(repositories.push(next), replaced.push(is_replaced)) == if is_replaced {
            replaced_ids(repositories, replaced).push(next.id)
        } else {
            replaced_ids(repositories, replaced)
        },
        remaining(repositories, replaced).len() + replaced_ids(repositories, replaced).len()
            == repositories.len(),
    decreases repositories.len(),
{
    lemma_later_flags_do_not_count(repositories, replaced, seq![is_replaced]);
    assert(replaced + seq![is_replaced] =~= replaced.push(is_replaced));
    assert(repositories.push(next).drop_last() =~= repositories);
    if repositories.len() > 0 {
        let fewer = repositories.drop_last();
        let flags = replaced.drop_last();
        law_each_repository_remains_or_is_replaced(
            fewer,
            flags,
            repositories.last(),
            replaced.last(),
        );
        assert(fewer.push(repositories.last()) =~= repositories);
        assert(flags.push(replaced.last()) =~= replaced);
    }
}

/// When a repository is added, those that share the store are told of each that is gone, in their
/// order; then the new one is scanned and announced, and the baselines of its diffs are read; and
/// last, where there was no active repository left, it is the active one.
pub proof fn law_registration_is_followed_by_its_effects(
    gone: Seq<RepositoryId>,
    downstream: bool,
    id: RepositoryId,
    activated: bool,
)
    ensures
        ({
            let effects = registration_effects(gone, downstream, id, activated);
            let n = if downstream {
                gone.len() as int
            } else {
                0
            };
            &&& effects.len() == n + 3 + if activated {
                1int
            } else {
                0
            }
            &&& forall|i: int|
                0 <= i < n ==> #[trigger] effects[i] == Effect::RemoveDownstream(gone[i])
            &&& effects[n] == Effect::Scan(id)
            &&& effects[n + 1] == Effect::RepositoryAdded
            &&& effects[n + 2] == Effect::RefreshDiffBase(id)
            &&& activated ==> effects[n + 3] == Effect::ActiveRepositoryChanged(id)
        }),
{
}

/// The active repository stays so unless it is gone.
pub proof fn law_active_repository_stays_unless_gone(
    active: Option<RepositoryId>,
    gone: Seq<RepositoryId>,
)
    ensures
        active_without(active, gone) is None <==> active is None || gone.contains(active->0),
        active_without(active, gone) is Some ==> active_without(active, gone) == active,
{
}

/// A repository is registered under the next identifier, as the last: read only, served by its
/// provider in its working directory, polled from its first snapshot on, and of its worktree alone.
/// Whatever it does not replace stays, and so does what is kept of that.
pub proof fn law_registered_repository_is_added_last(
    before: GitStore,
    after: GitStore,
    worktree: WorktreeId,
    backend: ExternalRepository,
    replaced: Seq<bool>,
    buffers: Seq<BufferId>,
)
    requires
        before.wf(),
        before.next_id() < u64::MAX,
        before.state is Local,
        replaced.len() == before.repositories@.len(),
        before.registered(&after, worktree, backend, replaced, buffers),
    ensures
        ({
            let id = before.next_id();
            let added = after.repositories@.last();
            &&& after.state is Local
            &&& after.next_id() == id + 1
            &&& after.state->downstream == before.state->downstream
            &&& after.has_project == before.has_project
            &&& after.external_starts == before.external_starts
            &&& after.repositories@.len() >= 1
            &&& added.id == id
            &&& added.is_read_only
            &&& added.external_backend == Some(backend)
            &&& added.work_directory@ == backend.root@
            &&& added.polling is Some
            &&& added.polling->0.previous_snapshot@ == backend.client.snapshot.snapshot@
            &&& added.polling->0.previous_error is None
            &&& after.worktree_ids@.contains_key(id)
            &&& after.worktree_ids@[id]@ == set![worktree]
            &&& forall|i: int|
                0 <= i < before.repositories@.len() && !replaced[i] ==> {
                    let other = #[trigger] before.repositories@[i];
                    &&& after.repositories@.contains(other)
                    &&& after.worktree_ids@.contains_key(other.id)
                        <==> before.worktree_ids@.contains_key(other.id)
                    &&& before.worktree_ids@.contains_key(other.id) ==> after.worktree_ids@[other.id]
                        == before.worktree_ids@[other.id]
                    &&& after.display_diffs@.contains(other.id)
                        <==> before.display_diffs@.contains(other.id)
                    &&& before.active_repo_id == Some(other.id) ==> after.active_repo_id == Some(
                        other.id,
                    )
                }
            &&& before.active_repo_id is None ==> after.active_repo_id == Some(id)
            &&& forall|i: int|
                0 <= i < before.repositories@.len() && replaced[i] && before.active_repo_id == Some(
                    (#[trigger] before.repositories@[i]).id,
                ) ==> after.active_repo_id == Some(id)
        }),
{
    let all = before.repositories@;
    let n = all.len() as int;
    let id = before.next_id();
    let gone = replaced_ids(all, replaced);
    assert(all.take(n) =~= all);
    assert forall|i: int| 0 <= i < n && !replaced[i] implies {
        let other = #[trigger] all[i];
        &&& after.repositories@.contains(other)
        &&& after.worktree_ids@.contains_key(other.id) <==> before.worktree_ids@.contains_key(
            other.id,
        )
        &&& before.worktree_ids@.contains_key(other.id) ==> after.worktree_ids@[other.id]
            == before.worktree_ids@[other.id]
        &&& after.display_diffs@.contains(other.id) <==> before.display_diffs@.contains(other.id)
        &&& before.active_repo_id == Some(other.id) ==> after.active_repo_id == Some(other.id)
    } by {
        let other = all[i];
        let kept = remaining(all, replaced);
        assert(other.id < id);
        lemma_kept_remains(all, replaced, i, n);
        let at = choose|at: int| 0 <= at < kept.len() && kept[at] == other;
        assert(after.repositories@.drop_last()[at] == after.repositories@[at]);
        if gone.contains(other.id) {
            lemma_gone_were_replaced(all, replaced, other.id, n);
            let k = choose|k: int| 0 <= k < n && replaced[k] && (#[trigger] all[k]).id == other.id;
            if k < i {
                assert(all[k].id != all[i].id);
            } else {
                assert(all[i].id != all[k].id);
            }
        }
        assert(!gone.to_set().contains(other.id));
    }
    assert forall|i: int|
        0 <= i < n && replaced[i] && before.active_repo_id == Some(
            (#[trigger] all[i]).id,
        ) implies after.active_repo_id == Some(id) by {
        lemma_replaced_are_gone(all, replaced, i, n);
    }
}

proof fn lemma_kept_remains(all: Seq<Repository>, replaced: Seq<bool>, i: int, n: int)
    requires
        0 <= i < n <= all.len(),
        replaced.len() == all.len(),
        !replaced[i],
    ensures
        remaining(all.take(n), replaced).contains(all[i]),
    decreases n,
{
    lemma_replaced_in_turn(all, replaced, n - 1);
    let before = remaining(all.take(n - 1), replaced);
    let kept = remaining(all.take(n), replaced);
    if i < n - 1 {
        lemma_kept_remains(all, replaced, i, n - 1);
        let at = choose|at: int| 0 <= at < before.len() && before[at] == all[i];
        assert(kept[at] == all[i]);
    } else {
        assert(kept[kept.len() - 1] == all[i]);
    }
}

/// A refresh that went well leaves the token of the snapshot that came, and no error; one that did
/// not leaves the token that there was, and the words of its error. It is news exactly where either
/// differs from what was seen before.
pub proof fn law_news_is_another_token_or_error(
    polling: Polling,
    backend: ExternalRepository,
    reply: Result<Snapshot, VcsError>,
)
    ensures
        ({
            let came = refreshed(reply, backend.client);
            let token = refreshed_token(backend, reply);
            let error = refresh_error(backend, reply);
            &&& came matches Ok(snapshot) ==> token == snapshot.snapshot@ && error is None
            &&& came matches Err(problem) ==> token == backend.client.snapshot.snapshot@ && error
                == Some(message_of(problem))
            &&& !is_news(polling, backend, reply) <==> {
                &&& polling.previous_snapshot@ == token
                &&& polling.previous_error is Some <==> error is Some
                &&& error is Some ==> polling.previous_error->0@ == error->0
            }
        }),
{
}

/// A store that keeps its repositories elsewhere registers none.
pub proof fn law_remote_stores_register_nothing(
    before: GitStore,
    after: GitStore,
    worktree: WorktreeId,
    backend: ExternalRepository,
    replaced: Seq<bool>,
    buffers: Seq<BufferId>,
)
    requires
        before.state is Remote,
        before.registered(&after, worktree, backend, replaced, buffers),
    ensures
        after == before,
        before.registering(replaced).len() == 0,
{
}

} // verus!
