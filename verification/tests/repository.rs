use vcs_provider::client::Client;
use vcs_provider::commit::{CommitLoading, CommitStep, Side};
use vcs_provider::content::Content;
use vcs_provider::contents::ContentsStep;
use vcs_provider::error::{ProviderError, VcsError};
use vcs_provider::history::{text_is_found, LogOrder, LogSource, ShowStep};
use vcs_provider::model::{
    Capabilities, Change, ChangeKind, CommitChange, History, HistoryCommit, RepositoryInfo,
    Snapshot,
};
use vcs_provider::oid::{Oid, RevisionTable};
use vcs_provider::operation::Operation;
use vcs_provider::repository::ExternalRepository;
use vcs_provider::request::Request;
use vcs_provider::status::FileStatus;

const OID_1: &str = "76637321a82dd8bd52f85a74b2266557d9e0ec19";
const OID_2: &str = "76637321b1115971f5ab5c198ea893b4cc2b8db1";

fn repository(history: bool, revision: Option<&str>) -> ExternalRepository {
    ExternalRepository::new(Client {
        repository: RepositoryInfo {
            id: "mock".into(),
            root: "/work".into(),
            label: "Mock VCS".into(),
        },
        capabilities: Capabilities { read_only: true, history, ..Default::default() },
        snapshot: snapshot("1", revision),
    })
}

fn snapshot(token: &str, revision: Option<&str>) -> Snapshot {
    let change = |path: &str, status: ChangeKind| Change {
        path: path.into(),
        status,
        staged_status: ChangeKind::Unchanged,
        original_path: None,
    };
    Snapshot {
        snapshot: token.into(),
        revision: revision.map(|revision| revision.to_string()),
        branch: Some("main".into()),
        changes: vec![
            change("src/lib.rs", ChangeKind::Modified),
            change("src-old/a.rs", ChangeKind::Deleted),
            change("src/b/c.rs", ChangeKind::Untracked),
            change("README.md", ChangeKind::Ignored),
        ],
        references: Vec::new(),
    }
}

fn commit(id: &str, parents: &[&str], message: &str) -> HistoryCommit {
    HistoryCommit {
        id: id.into(),
        parents: parents.iter().map(|parent| parent.to_string()).collect(),
        author_name: "Ada".into(),
        author_email: "ada@example.com".into(),
        timestamp: 1700000000,
        message: message.into(),
    }
}

fn listed() -> Result<History, VcsError> {
    Ok(History {
        commits: vec![
            commit("revision-2", &["revision-1"], "Change hello\r\n\nDetails"),
            commit("revision-1", &[], "Begin"),
        ],
        has_more: false,
    })
}

#[test]
fn opaque_revisions_get_identifiers_of_their_own() {
    assert_eq!(Oid::of_revision("revision-2").text(), OID_2);
    assert_eq!(
        Oid::of_revision("opaque").text(),
        "7663732101c1bdc7dd2555c890f92a4506253165"
    );
    // As long as an identifier, but none.
    assert_eq!(
        Oid::of_revision(&"z".repeat(40)).text(),
        "766373218a7b72c0aa64500c839782d33910981c"
    );
    let hash = "0123456789abcdef0123456789ABCDEF01234567";
    assert_eq!(Oid::of_revision(hash).text(), hash.to_lowercase());
    assert_eq!(Oid::of_revision(&"F".repeat(64)).text(), "f".repeat(64));
    assert!(Oid::parse("abc").is_none());
    assert_eq!(
        Oid::opaque(&[0xab; 16]).text(),
        format!("76637321{}", "ab".repeat(16))
    );
}

#[test]
fn recorded_revisions_are_found_by_their_identifiers() {
    let mut table = RevisionTable::new();
    let oid = table.record("revision-1").unwrap();
    assert_eq!(table.record("revision-1").unwrap(), oid);
    table.record("revision-2").unwrap();
    assert_eq!(table.resolve(&None, OID_1), Ok("revision-1".into()));
    assert_eq!(table.resolve(&None, &OID_2.to_uppercase()), Ok("revision-2".into()));
    assert_eq!(table.resolve(&None, "revision-3"), Ok("revision-3".into()));
    let unknown = "f".repeat(40);
    assert_eq!(table.resolve(&None, &unknown), Ok(unknown.clone()));
    assert_eq!(table.resolve(&None, "HEAD"), Err(VcsError::NoCurrentRevision));
    assert_eq!(table.resolve(&Some("now".into()), "HEAD"), Ok("now".into()));
}

#[test]
fn two_spellings_of_one_identifier_collide() {
    let mut repository = repository(true, None);
    assert!(repository.oid(&"A".repeat(40)).is_ok());
    assert_eq!(repository.oid(&"a".repeat(40)).err(), Some(VcsError::RevisionCollision));
    assert_eq!(repository.revision(&"a".repeat(40)), Ok("A".repeat(40)));
}

#[test]
fn commits_are_kept_as_far_as_they_can_be() {
    let mut repository = repository(true, None);
    repository.oid(&"A".repeat(40)).unwrap();
    let lower = "a".repeat(40);
    let refused = repository.cache_commit(commit("revision-2", &["revision-1", &lower], "m"));
    assert_eq!(refused.err(), Some(VcsError::RevisionCollision));
    // What it named before that is known, but it is not kept.
    assert_eq!(repository.revision(OID_1), Ok("revision-1".into()));
    assert_eq!(repository.revision(OID_2), Ok("revision-2".into()));
    let reader = repository.commit_data_reader().unwrap();
    assert!(reader.read(&Oid::of_revision("revision-2")).is_none());
}

#[test]
fn history_requests_follow_their_sources() {
    let mut repository = repository(true, Some("revision-2"));
    let asked = |repository: &ExternalRepository, source: LogSource| {
        match repository.history_for_source_request(&source) {
            Ok(Request::History { repository: _, revision, path, limit }) => {
                assert_eq!(limit, 200);
                Ok((revision, path))
            }
            Ok(_) => panic!("history is asked for"),
            Err(error) => Err(error),
        }
    };
    assert_eq!(asked(&repository, LogSource::All), Ok(("revision-2".into(), None)));
    assert_eq!(
        asked(&repository, LogSource::Branch("main".into())),
        Ok(("revision-2".into(), None))
    );
    assert_eq!(
        asked(&repository, LogSource::Branch("other".into())),
        Err(VcsError::OtherBranch)
    );
    let oid = Oid::of_revision("revision-1");
    assert_eq!(asked(&repository, LogSource::Sha(oid.copy())), Ok((OID_1.into(), None)));
    repository.oid("revision-1").unwrap();
    assert_eq!(asked(&repository, LogSource::Sha(oid)), Ok(("revision-1".into(), None)));
    assert_eq!(
        asked(&repository, LogSource::Path("src/lib.rs".into())),
        Ok(("revision-2".into(), Some("src/lib.rs".into())))
    );
    assert_eq!(
        asked(&repository, LogSource::Path("../lib.rs".into())),
        Err(VcsError::PathEscapes)
    );
    repository.client.snapshot.branch = None;
    assert!(asked(&repository, LogSource::Branch("Mock VCS".into())).is_ok());
    repository.client.snapshot.revision = None;
    assert_eq!(asked(&repository, LogSource::All), Err(VcsError::NoCurrentRevision));
    assert!(repository.set_trusted(false));
    assert_eq!(asked(&repository, LogSource::All), Err(VcsError::Untrusted));
}

#[test]
fn commits_come_with_identifiers_and_subjects() {
    let mut repository = repository(true, Some("revision-2"));
    let commits = repository.history_for_source(listed()).unwrap();
    assert_eq!(commits.len(), 2);
    assert_eq!(commits[0].sha.text(), OID_2);
    assert_eq!(commits[0].parents[0].text(), OID_1);
    assert_eq!(commits[0].subject, "Change hello");
    assert_eq!(commits[0].message, "Change hello\r\n\nDetails");
    assert_eq!(commits[0].commit_timestamp, 1700000000);
    assert_eq!(commits[1].subject, "Begin");
    let reader = repository.commit_data_reader().unwrap();
    let kept = reader.read(&Oid::of_revision("revision-1")).unwrap();
    assert_eq!(kept.message, "Begin");
}

#[test]
fn graphs_are_in_the_order_that_is_wanted() {
    let mut repository = repository(true, Some("revision-2"));
    let graph = repository.initial_graph_data(LogOrder::AsListed, listed()).unwrap();
    assert_eq!(graph[0].sha.text(), OID_2);
    assert_eq!(graph[0].parents[0].text(), OID_1);
    assert!(graph[0].ref_names.is_empty());
    let graph = repository.initial_graph_data(LogOrder::ReverseChronological, listed()).unwrap();
    assert_eq!(graph[0].sha.text(), OID_1);
    assert_eq!(graph[1].sha.text(), OID_2);
    let refused = repository.initial_graph_data(LogOrder::AsListed, Err(VcsError::TimedOut));
    assert_eq!(refused.err(), Some(VcsError::TimedOut));
}

#[test]
fn searches_look_at_revisions_authors_and_messages() {
    let mut repository = repository(true, Some("revision-2"));
    let mut search = |query: &str, case_sensitive: bool| {
        repository
            .search_commits(query, case_sensitive, listed())
            .unwrap()
            .iter()
            .map(|oid| oid.text())
            .collect::<Vec<_>>()
    };
    assert_eq!(search("revision-1", true), vec![OID_1]);
    assert_eq!(search("HELLO", true), Vec::<String>::new());
    assert_eq!(search("HELLO", false), vec![OID_2]);
    assert_eq!(search("Ada ada@example.com", true), vec![OID_2, OID_1]);
    for case_sensitive in [true, false] {
        assert_eq!(search("", case_sensitive), vec![OID_2, OID_1]);
    }
    assert_eq!(search("nowhere", false), Vec::<String>::new());
    assert!(text_is_found("STRASSE \u{c4}", "\u{e4}", false));
    assert!(!text_is_found("STRASSE \u{c4}", "\u{e4}", true));
}

#[test]
fn a_commit_is_shown_once_it_was_fetched() {
    let mut repository = repository(true, Some("revision-2"));
    let (revision, request) = match repository.show("HEAD") {
        Ok(ShowStep::Fetch(revision, request)) => (revision, request),
        _ => panic!("the commit is not known yet"),
    };
    assert_eq!(revision, "revision-2");
    assert_eq!(request.method(), "repository/commitDetails");
    assert_eq!(
        repository.shown(&revision, Ok(commit("other", &[], "m"))).err(),
        Some(VcsError::WrongCommit)
    );
    let details = repository
        .shown(&revision, Ok(commit("revision-2", &["revision-1"], "message")))
        .unwrap();
    assert_eq!(details.sha, OID_2);
    assert_eq!(details.message, "message");
    assert_eq!(details.author_email, "ada@example.com");
    for name in ["HEAD", OID_2, "revision-2"] {
        match repository.show(name) {
            Ok(ShowStep::Details(details)) => assert_eq!(details.message, "message"),
            _ => panic!("the commit is known"),
        }
    }
    assert_eq!(repository.show("").err(), Some(VcsError::InvalidRevision));
}

#[test]
fn without_history_only_the_current_revision_is_shown() {
    let mut repository = repository(false, Some("now"));
    match repository.show("HEAD") {
        Ok(ShowStep::Details(details)) => {
            assert_eq!(details.sha, "now");
            assert_eq!(details.message, "");
            assert_eq!(details.commit_timestamp, 0);
        }
        _ => panic!("there is nothing to fetch"),
    }
    assert_eq!(repository.show("now").err(), Some(VcsError::HistoryUnsupported));
    assert_eq!(repository.commit_data_reader().err(), Some(VcsError::HistoryUnsupported));
    assert_eq!(repository.load_commit_request("HEAD").err(), Some(VcsError::NoHistory));
    repository.client.snapshot.revision = None;
    assert!(matches!(repository.show("HEAD"), Ok(ShowStep::Details(details)) if details.sha == ""));
}

#[test]
fn names_are_parsed_given_what_is_known_by_then() {
    let names = |names: &[&str]| names.iter().map(|name| name.to_string()).collect::<Vec<_>>();
    let mut with = repository(true, Some("revision-2"));
    assert_eq!(
        with.revparse_batch(&names(&[OID_2, "HEAD", &OID_2.to_uppercase(), "main", OID_1])),
        Ok(vec![None, Some(OID_2.into()), Some(OID_2.into()), None, None])
    );
    let mut without = repository(false, Some("now"));
    assert_eq!(
        without.revparse_batch(&names(&["HEAD", "now"])),
        Ok(vec![Some("now".into()), None])
    );
    let mut unborn = repository(true, None);
    assert_eq!(unborn.revparse_batch(&names(&["HEAD"])), Ok(vec![None]));
    unborn.set_trusted(false);
    assert_eq!(unborn.revparse_batch(&names(&["HEAD"])), Err(VcsError::Untrusted));
}

#[test]
fn status_is_sorted_by_components_and_kept_to_directories() {
    let mut repository = repository(false, None);
    let mut paths = |prefixes: &[&str]| {
        let prefixes = prefixes.iter().map(|prefix| prefix.to_string()).collect();
        repository.status(&prefixes).map(|entries| {
            entries.into_iter().map(|entry| (entry.path, entry.status)).collect::<Vec<_>>()
        })
    };
    let all = paths(&[]).unwrap();
    let order: Vec<&str> = all.iter().map(|(path, _)| path.as_str()).collect();
    assert_eq!(order, ["README.md", "src/b/c.rs", "src/lib.rs", "src-old/a.rs"]);
    assert_eq!(all[0].1, FileStatus::Ignored);
    assert_eq!(all[1].1, FileStatus::Untracked);
    let listed = paths(&["src", "nowhere"]).unwrap();
    let order: Vec<&str> = listed.iter().map(|(path, _)| path.as_str()).collect();
    assert_eq!(order, ["src/b/c.rs", "src/lib.rs"]);
    assert_eq!(paths(&["sr"]).unwrap().len(), 0);
    assert_eq!(paths(&["", "src"]).unwrap().len(), 4);
    assert_eq!(paths(&["README.md"]).unwrap().len(), 1);
    drop(paths);
    repository.set_trusted(false);
    assert_eq!(repository.status(&Vec::new()).err(), Some(VcsError::Untrusted));
}

#[test]
fn revisions_of_files_are_their_baselines() {
    let mut repository = repository(false, None);
    let revisions = |revisions: &[&str]| {
        revisions.iter().map(|revision| revision.to_string()).collect::<Vec<_>>()
    };
    match repository.load_revisions(&revisions(&["HEAD:a/b", ":c"])) {
        ContentsStep::Compare(batch, _) => {
            assert_eq!(batch.paths, ["a/b", "c"]);
            assert_eq!(batch.staged, [false, true]);
        }
        _ => panic!("the batch begins"),
    }
    let failure = |repository: &ExternalRepository, names: &[&str]| {
        match repository.load_revisions(&revisions(names)) {
            ContentsStep::Done(result) => result.err(),
            _ => None,
        }
    };
    assert_eq!(failure(&repository, &[":c", "v1:a"]), Some(VcsError::ArbitraryRevision));
    assert_eq!(failure(&repository, &["HEAD:"]), Some(VcsError::InvalidPath));
    repository.set_trusted(false);
    assert_eq!(failure(&repository, &[":c"]), Some(VcsError::Untrusted));
}

#[test]
fn refreshes_keep_the_last_snapshot_and_the_last_error() {
    let mut repository = repository(false, Some("r"));
    assert_eq!(repository.branches().branches.len(), 1);
    assert_eq!(repository.branches().branches[0].ref_name, "main");
    assert!(repository.branches().branches[0].is_head);
    let failed = VcsError::Provider(ProviderError { code: -32000, message: "down".into() });
    assert!(repository.refresh(Err(failed)).is_err());
    assert_eq!(repository.client.snapshot().snapshot, "1");
    assert_eq!(repository.branches().error, Some("VCS provider error -32000: down".into()));
    assert_eq!(
        repository.refresh(Ok(snapshot("", None))),
        Err(VcsError::EmptySnapshotToken)
    );
    assert_eq!(repository.branches().error, Some("empty snapshot token".into()));
    assert_eq!(repository.refresh(Ok(snapshot("2", None))), Ok(()));
    assert_eq!(repository.branches().error, None);
    assert_eq!(repository.client.snapshot().snapshot, "2");
    assert!(repository.refresh_request().is_ok());
    assert!(!repository.set_trusted(true));
    assert!(repository.set_trusted(false));
    assert!(!repository.is_trusted());
    assert_eq!(repository.refresh_request().err(), Some(VcsError::Untrusted));
    assert_eq!(repository.path(), "/work");
    assert_eq!(repository.main_repository_path(), "/work");
    assert!(repository.is_read_only());
}

#[test]
fn writes_are_refused_and_what_there_is_none_of_is_empty() {
    let repository = repository(false, None);
    for operation in [
        Operation::StagePaths,
        Operation::UnstagePaths,
        Operation::Commit,
        Operation::Push,
        Operation::Reset,
        Operation::SetIndexText,
        Operation::RestoreCheckpoint,
        Operation::UpdateRef,
        Operation::Blame,
        Operation::Diff,
    ] {
        assert_eq!(repository.attempt(operation), Err(VcsError::ReadOnly));
    }
    for operation in [
        Operation::RemoteUrls,
        Operation::Worktrees,
        Operation::StashEntries,
        Operation::MergeMessage,
        Operation::DiffStat,
        Operation::LoadCommitTemplate,
        Operation::GetAllRemotes,
    ] {
        assert_eq!(repository.attempt(operation), Ok(()));
    }
}

fn changed(path: &str, base: Option<&str>, target: Option<&str>) -> CommitChange {
    CommitChange {
        path: path.into(),
        base: base.map(|base| base.to_string()),
        target: target.map(|target| target.to_string()),
    }
}

/// Loads a commit, of which each reference is its own content; `large` is refused for its size.
fn load(
    repository: &ExternalRepository,
    changes: Vec<CommitChange>,
    asked: &mut Vec<String>,
) -> Result<Vec<vcs_provider::commit::CommitFile>, VcsError> {
    let mut step = repository.load_commit(Ok(changes));
    loop {
        match step {
            CommitStep::Done(Ok(diff)) => {
                assert!(!diff.is_shallow_boundary);
                return Ok(diff.files);
            }
            CommitStep::Done(Err(error)) => return Err(error),
            CommitStep::Read(loading, Request::ReadContent { repository: _, content }) => {
                asked.push(content.clone());
                let reply = match content.as_str() {
                    "large" => Err(VcsError::Provider(ProviderError {
                        code: -32002,
                        message: "too large".into(),
                    })),
                    "broken" => Ok(Content { encoding: "base64".into(), data: "?".into() }),
                    "b2xk" | "bmV3" | "AAE=" => {
                        Ok(Content { encoding: "base64".into(), data: content.clone() })
                    }
                    _ => Err(VcsError::TimedOut),
                };
                step = repository.load_commit_read(loading, reply, content == "AAE=");
            }
            CommitStep::Read(_, _) => panic!("content is asked for"),
        }
    }
}

#[test]
fn commits_are_loaded_whole() {
    let repository = repository(true, Some("revision-2"));
    let mut asked = Vec::new();
    let files = load(
        &repository,
        vec![
            changed("changed", Some("b2xk"), Some("bmV3")),
            changed("added", None, Some("AAE=")),
            changed("removed", Some("b2xk"), None),
        ],
        &mut asked,
    )
    .unwrap();
    assert_eq!(asked, ["b2xk", "bmV3", "AAE=", "b2xk"]);
    assert_eq!(files[0].path, "changed");
    assert_eq!(files[0].old_content, Some(b"old".to_vec()));
    assert_eq!(files[0].new_content, Some(b"new".to_vec()));
    assert!(!files[0].is_binary);
    assert_eq!(files[1].old_content, None);
    assert_eq!(files[1].new_content, Some(vec![0, 1]));
    assert!(files[1].is_binary);
    assert_eq!(files[2].new_content, None);
    assert!(files.iter().all(|file| file.omitted_reason.is_none()));
}

#[test]
fn files_that_are_too_large_are_left_out() {
    let repository = repository(true, Some("revision-2"));
    let mut asked = Vec::new();
    let files = load(
        &repository,
        vec![
            changed("base", Some("large"), Some("bmV3")),
            changed("target", Some("b2xk"), Some("large")),
            changed("small", None, Some("bmV3")),
        ],
        &mut asked,
    )
    .unwrap();
    // The other side of a file that is left out is not asked for.
    assert_eq!(asked, ["large", "b2xk", "large", "bmV3"]);
    for file in &files[..2] {
        assert_eq!(file.old_content, Some(Vec::new()));
        assert_eq!(file.new_content, Some(Vec::new()));
        assert_eq!(
            file.omitted_reason,
            Some("File exceeds the provider's content size limit".into())
        );
    }
    assert_eq!(files[2].new_content, Some(b"new".to_vec()));
}

#[test]
fn other_failures_end_the_loading() {
    let repository = repository(true, Some("revision-2"));
    for (reference, reason) in
        [("late", VcsError::TimedOut), ("broken", VcsError::InvalidBase64)]
    {
        let error = load(
            &repository,
            vec![changed("a.txt", Some("b2xk"), Some(reference))],
            &mut Vec::new(),
        )
        .unwrap_err();
        assert_eq!(
            error,
            VcsError::LoadingCommitFile { path: "a.txt".into(), source: Box::new(reason) }
        );
    }
    assert_eq!(
        load(&repository, vec![changed("a", None, None)], &mut Vec::new()).err(),
        Some(VcsError::EmptyCommitChange)
    );
}

#[test]
fn commits_keep_no_more_than_their_limit() {
    let limit = 128 * 1024 * 1024;
    let side = |len: usize| Ok(Side { bytes: vec![1; len], is_binary: true });
    let changes = vec![
        changed("first", None, Some("a")),
        changed("second", None, Some("b")),
        changed("third", None, Some("c")),
    ];
    let loading = CommitLoading { changes, files: Vec::new(), bytes: 0, old: None };
    let next = |step: CommitStep| match step {
        CommitStep::Read(loading, _) => loading,
        CommitStep::Done(_) => panic!("there are more files"),
    };
    let loading = next(loading.side_read("mock", side(limit - 1)));
    let loading = next(loading.side_read("mock", side(2)));
    assert_eq!(loading.bytes, limit - 1);
    let files = match loading.side_read("mock", side(1)) {
        CommitStep::Done(Ok(diff)) => diff.files,
        _ => panic!("that was the last file"),
    };
    assert_eq!(files[0].new_content.as_ref().map(Vec::len), Some(limit - 1));
    assert_eq!(files[1].new_content, Some(Vec::new()));
    assert_eq!(
        files[1].omitted_reason,
        Some("Commit diff exceeds the 128 MiB content limit".into())
    );
    assert!(!files[1].is_binary);
    assert_eq!(files[2].new_content, Some(vec![1]));
    assert!(files[2].omitted_reason.is_none());
}

#[test]
fn commits_to_load_are_resolved_first() {
    let mut repository = repository(true, Some("revision-2"));
    repository.oid("revision-1").unwrap();
    match repository.load_commit_request(OID_1) {
        Ok(Request::CommitChanges { repository: _, revision }) => {
            assert_eq!(revision, "revision-1")
        }
        _ => panic!("the files of the commit are asked for"),
    }
    repository.set_trusted(false);
    assert_eq!(repository.load_commit_request(OID_1).err(), Some(VcsError::Untrusted));
}
