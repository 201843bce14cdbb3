use vcs_provider::client::Client;
use vcs_provider::contents::ContentsStep;
use vcs_provider::content::Content;
use vcs_provider::error::{ProviderError, VcsError};
use vcs_provider::model::{Change, ChangeKind, Comparison, RepositoryInfo, Snapshot};
use vcs_provider::operation::Operation;
use vcs_provider::repository::ExternalRepository;
use vcs_provider::status::{FileStatus, StatusCode, TrackedStatus};
use vcs_provider::store::{
    poll_interval, request_timeout, BufferDiffs, DiffKind, DiffOperations, Effect, GitStore,
    GitStoreState, OpenDiff, Poll, ProviderSettings, Repository, WorktreeState,
};

fn snapshot(token: &str) -> Snapshot {
    Snapshot {
        snapshot: token.into(),
        revision: Some("revision".into()),
        branch: Some("main".into()),
        changes: vec![Change {
            path: "hello.txt".into(),
            status: ChangeKind::Modified,
            staged_status: ChangeKind::Modified,
            original_path: None,
        }],
        references: Vec::new(),
    }
}

fn client(root: &str) -> Client {
    Client::mock(
        RepositoryInfo { id: "mock".into(), root: root.into(), label: "Mock VCS".into() },
        snapshot("1"),
    )
    .unwrap()
}

fn backend(root: &str) -> ExternalRepository {
    ExternalRepository::new(client(root))
}

fn native(id: u64, root: &str) -> Repository {
    Repository {
        id,
        work_directory: root.into(),
        is_read_only: false,
        external_backend: None,
        polling: None,
    }
}

fn open(repository: u64) -> BufferDiffs {
    BufferDiffs {
        buffer: 1,
        repository: Some(repository),
        unstaged: None,
        staged: Some(OpenDiff { operations: None }),
        uncommitted: Some(OpenDiff { operations: None }),
    }
}

fn worktree(id: u64) -> WorktreeState {
    WorktreeState {
        id,
        settings: Some(ProviderSettings { poll_interval_ms: None, request_timeout_ms: None }),
        is_local: true,
        can_trust: true,
    }
}

/// The base of a path, as a provider serves it whose bases change with the snapshot.
fn base_of(backend: &mut ExternalRepository, path: &str) -> Vec<u8> {
    let mut step = backend.load_revisions(&vec![format!("HEAD:{path}")]);
    loop {
        step = match step {
            ContentsStep::Compare(batch, _) => {
                let base = if backend.client.snapshot.snapshot == "2" { "base-2" } else { "base" };
                let comparisons = batch
                    .paths
                    .iter()
                    .map(|path| Comparison {
                        path: path.clone(),
                        base: Some(base.into()),
                        index: Some("index".into()),
                    })
                    .collect();
                backend.client.contents_compared(batch, Ok(comparisons))
            }
            ContentsStep::Read(reading, _) => {
                let data = match reading.comparisons[reading.contents.len()].base.as_deref() {
                    Some("base-2") => "dXBkYXRlZAo=",
                    Some("base") => "YmFzZQo=",
                    _ => "aW5kZXgK",
                };
                let content = Content { encoding: "base64".into(), data: data.into() };
                backend.client.contents_read(reading, Ok(content))
            }
            ContentsStep::Refresh(_, _) => panic!("nothing expires"),
            ContentsStep::Done(result) => return result.unwrap().remove(0).unwrap(),
        };
    }
}

#[test]
fn a_provider_drives_status_baselines_and_read_only_diffs() {
    let mut store = GitStore::local(1, false, true);
    store.diffs.push(BufferDiffs { repository: None, ..open(0) });
    let effects = store.register_external_repository(7, backend("/work"), &vec![1]);
    assert_eq!(
        effects,
        [
            Effect::Scan(1),
            Effect::RepositoryAdded,
            Effect::RefreshDiffBase(1),
            Effect::ActiveRepositoryChanged(1),
        ]
    );
    assert_eq!(store.diffs[0].repository, Some(1));
    assert_eq!(
        store.diffs[0].uncommitted.unwrap().operations,
        Some(DiffOperations { kind: DiffKind::Uncommitted, read_only: true })
    );
    let repository = &mut store.repositories[0];
    assert!(repository.is_read_only());
    let external = repository.external_backend.as_mut().unwrap();
    assert!(external.is_trusted());
    let entries = external.status(&Vec::new()).unwrap();
    assert_eq!(entries[0].path, "hello.txt");
    assert_eq!(
        entries[0].status,
        FileStatus::Versioned(TrackedStatus {
            index_status: StatusCode::Modified,
            worktree_status: StatusCode::Modified,
        })
    );
    assert_eq!(base_of(external, "hello.txt"), b"base\n");
    assert!(matches!(repository.poll(), Poll::Refresh(_)));
    let refreshed = repository.polled(Ok(snapshot("2")));
    assert!(refreshed.scan && refreshed.reload);
    let external = repository.external_backend.as_mut().unwrap();
    assert_eq!(base_of(external, "hello.txt"), b"updated\n");
    assert!(external.attempt(Operation::StagePaths).is_err());
    external.set_trusted(false);
    assert!(external.refresh_request().is_err());
    assert!(matches!(repository.poll(), Poll::Stop));
}

#[test]
fn providers_start_once_and_only_under_trust() {
    let mut store = GitStore::local(1, false, true);
    let untrusted = WorktreeState { can_trust: false, ..worktree(1) };
    let elsewhere = WorktreeState { is_local: false, ..worktree(2) };
    let plain = WorktreeState { settings: None, ..worktree(3) };
    assert!(store.start_external_providers(&vec![untrusted, elsewhere, plain]).is_empty());
    assert!(store.external_starts.is_empty());
    let starts = store.start_external_providers(&vec![plain, worktree(1), worktree(1)]);
    assert_eq!(starts.len(), 1);
    assert_eq!(starts[0].position, 1);
    assert_eq!(starts[0].worktree_id, 1);
    assert_eq!((starts[0].timeout_ms, starts[0].interval_ms), (30_000, 2000));
    assert!(store.start_external_providers(&vec![worktree(1)]).is_empty());
    store.state = GitStoreState::Remote;
    assert!(store.start_external_providers(&vec![worktree(4)]).is_empty());
    assert_eq!(store.external_starts.len(), 1);
}

#[test]
fn settings_are_kept_within_bounds() {
    assert_eq!(request_timeout(None), 30_000);
    assert_eq!(request_timeout(Some(1)), 100);
    assert_eq!(request_timeout(Some(5_000)), 5_000);
    assert_eq!(request_timeout(Some(u64::MAX)), 300_000);
    assert_eq!(poll_interval(None), 2000);
    assert_eq!(poll_interval(Some(0)), 250);
    assert_eq!(poll_interval(Some(60_000)), 60_000);
}

#[test]
fn sessions_are_registered_while_their_worktree_is_there_and_trusted() {
    let mut store = GitStore::local(1, false, true);
    assert!(store.provider_started(1, false, true, client("/work"), &Vec::new()).is_empty());
    assert!(store.provider_started(1, true, false, client("/work"), &Vec::new()).is_empty());
    assert!(store.repositories.is_empty());
    assert_eq!(store.provider_started(1, true, true, client("/work"), &Vec::new()).len(), 4);
    assert_eq!(store.repositories.len(), 1);
    assert_eq!(store.active_repo_id, Some(1));
    let repository = &mut store.repositories[0];
    assert!(repository.external_backend.as_ref().unwrap().is_trusted());
    assert!(repository.stop_external_provider());
    assert!(!repository.external_backend.as_ref().unwrap().is_trusted());
    assert!(repository.polling.is_none());
    assert!(matches!(repository.poll(), Poll::Stop));
    assert!(!native(9, "/other").stop_external_provider());
}

#[test]
fn a_provider_replaces_what_served_its_working_directory() {
    let mut store = GitStore::local(5, true, true);
    store.repositories.push(native(1, "/work"));
    store.repositories.push(native(2, "/other"));
    store.repositories.push(native(3, "/work/"));
    for id in 1..4 {
        store.worktree_ids.insert(id, [7].into_iter().collect());
        store.display_diffs.insert(id);
    }
    store.active_repo_id = Some(1);
    store.diffs.push(open(2));
    let effects = store.register_external_repository(8, backend("/work"), &Vec::new());
    assert_eq!(
        effects,
        [
            Effect::RemoveDownstream(1),
            Effect::RemoveDownstream(3),
            Effect::Scan(5),
            Effect::RepositoryAdded,
            Effect::RefreshDiffBase(5),
            Effect::ActiveRepositoryChanged(5),
        ]
    );
    let ids: Vec<u64> = store.repositories.iter().map(|repository| repository.id).collect();
    assert_eq!(ids, [2, 5]);
    assert_eq!(store.repositories[1].work_directory, "/work");
    assert_eq!(store.active_repo_id, Some(5));
    assert!(!store.worktree_ids.contains_key(&1) && !store.display_diffs.contains(&3));
    assert!(store.worktree_ids[&5].contains(&8) && store.worktree_ids[&2].contains(&7));
    assert!(store.display_diffs.contains(&2));
    assert!(store.diffs[0].staged.unwrap().operations.is_none());
    let effects = store.register_external_repository(9, backend("/third"), &Vec::new());
    assert_eq!(
        effects,
        [Effect::Scan(6), Effect::RepositoryAdded, Effect::RefreshDiffBase(6)]
    );
    assert_eq!(store.active_repo_id, Some(5));
}

#[test]
fn open_diffs_of_a_replaced_repository_become_read_only() {
    let writable = |kind| Some(OpenDiff {
        operations: Some(DiffOperations { kind, read_only: false }),
    });
    let refused = |kind| Some(OpenDiff {
        operations: Some(DiffOperations { kind, read_only: true }),
    });
    let diffs = |buffer: u64, repository: u64| BufferDiffs {
        buffer,
        repository: Some(repository),
        unstaged: writable(DiffKind::Unstaged),
        staged: None,
        uncommitted: writable(DiffKind::Uncommitted),
    };
    for has_project in [true, false] {
        let mut store = GitStore::local(5, false, has_project);
        store.repositories.push(native(1, "/w"));
        store.repositories.push(native(2, "/other"));
        store.diffs.push(diffs(10, 1));
        store.diffs.push(diffs(11, 2));
        store.diffs.push(diffs(12, 1));
        store.provider_started(3, true, true, client("/w"), &vec![10]);
        assert_eq!(store.diffs[0].repository, Some(5));
        let expected = |kind| if has_project { refused(kind) } else { writable(kind) };
        assert_eq!(store.diffs[0].unstaged, expected(DiffKind::Unstaged));
        assert_eq!(store.diffs[0].staged, None);
        assert_eq!(store.diffs[0].uncommitted, expected(DiffKind::Uncommitted));
        assert_eq!(store.diffs[1].repository, Some(2));
        assert_eq!(store.diffs[1].unstaged, writable(DiffKind::Unstaged));
        // Nothing lies in a repository that is gone.
        assert_eq!(store.diffs[2].repository, None);
        assert_eq!(store.diffs[2].unstaged, writable(DiffKind::Unstaged));
    }
}

#[test]
fn other_working_directories_are_left_alone() {
    let mut store = GitStore::local(9, false, true);
    for (id, root) in [(1, "/a/bc"), (2, "/ab"), (3, "/ab/./c/"), (4, "/ab/c/d"), (5, "/AB/c")] {
        store.repositories.push(native(id, root));
    }
    store.register_external_repository(8, backend("/ab/c"), &Vec::new());
    let ids: Vec<u64> = store.repositories.iter().map(|repository| repository.id).collect();
    assert_eq!(ids, [1, 2, 4, 5, 9]);
}

#[test]
fn a_store_elsewhere_registers_nothing() {
    let mut store = GitStore::local(1, false, true);
    store.state = GitStoreState::Remote;
    assert!(store.register_external_repository(1, backend("/work"), &Vec::new()).is_empty());
    assert!(store.repositories.is_empty() && store.active_repo_id.is_none());
}

#[test]
fn diffs_get_the_operations_of_their_repository() {
    let mut store = GitStore::local(9, false, true);
    store.repositories.push(native(1, "/work"));
    store.diffs.push(open(1));
    store.diffs.push(open(2));
    store.diffs.push(BufferDiffs { repository: None, ..open(1) });
    store.update_diff_operations_for_repository(4);
    assert!(store.diffs[0].staged.unwrap().operations.is_none());
    store.update_diff_operations_for_repository(1);
    assert!(store.diffs[0].unstaged.is_none());
    assert_eq!(
        store.diffs[0].staged.unwrap().operations,
        Some(DiffOperations { kind: DiffKind::Staged, read_only: false })
    );
    assert!(store.diffs[1].staged.unwrap().operations.is_none());
    assert!(store.diffs[2].staged.unwrap().operations.is_none());
    store.has_project = false;
    store.diffs.push(open(1));
    store.update_diff_operations_for_repository(1);
    assert!(store.diffs[3].staged.unwrap().operations.is_none());
}

#[test]
fn only_news_has_consequences() {
    let mut repository = Repository::external(1, backend("/work"));
    let same = repository.polled(Ok(snapshot("1")));
    assert!(!same.scan && !same.reload && same.log.is_none());
    let down = || {
        Err(VcsError::Provider(ProviderError { code: -32000, message: "down".into() }))
    };
    let failed = repository.polled(down());
    assert!(failed.scan && !failed.reload);
    assert_eq!(failed.log, Some("VCS provider error -32000: down".into()));
    let again = repository.polled(down());
    assert!(!again.scan && !again.reload && again.log.is_none());
    let back = repository.polled(Ok(snapshot("1")));
    assert!(back.scan && back.reload && back.log.is_none());
    let newer = repository.polled(Ok(snapshot("2")));
    assert!(newer.scan && newer.reload);
    assert_eq!(repository.polling.unwrap().previous_snapshot, "2");
}
