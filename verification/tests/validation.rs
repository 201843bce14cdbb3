use vcs_provider::client::{Client, Discovering, Initialization, Loading};
use vcs_provider::content::{accept_content, decode_content, Content};
use vcs_provider::contents::ContentsStep;
use vcs_provider::error::{is_expired_error, is_size_limit_error, ProviderError, VcsError};
use vcs_provider::model::{
    Capabilities, Change, ChangeKind, CommitChange, Comparison, History, HistoryCommit, Reference,
    ReferenceKind, RepositoryInfo, Snapshot, Tracking,
};

fn capabilities() -> Capabilities {
    Capabilities { read_only: true, staging: true, history: true, ..Default::default() }
}

fn info() -> RepositoryInfo {
    RepositoryInfo { id: "mock".into(), root: "/work".into(), label: "Mock VCS".into() }
}

fn snapshot() -> Snapshot {
    Snapshot {
        snapshot: "1".into(),
        revision: Some("revision".into()),
        branch: Some("main".into()),
        changes: Vec::new(),
        references: Vec::new(),
    }
}

fn change(path: &str, staged_status: ChangeKind) -> Change {
    Change { path: path.into(), status: ChangeKind::Modified, staged_status, original_path: None }
}

fn reference(kind: ReferenceKind, upstream: Option<Tracking>) -> Reference {
    Reference { name: "main".into(), kind, revision: "r".into(), upstream, commit: None }
}

fn upstream(ahead: Option<u32>, behind: Option<u32>, gone: bool) -> Option<Tracking> {
    Some(Tracking { name: "origin/main".into(), gone, ahead, behind })
}

fn client() -> Client {
    Client { repository: info(), capabilities: capabilities(), snapshot: snapshot() }
}

fn commit(id: &str, parents: &[&str]) -> HistoryCommit {
    HistoryCommit {
        id: id.into(),
        parents: parents.iter().map(|parent| parent.to_string()).collect(),
        author_name: "Ada".into(),
        author_email: "ada@example.com".into(),
        timestamp: 1,
        message: "message".into(),
    }
}

fn listed(commits: Vec<HistoryCommit>) -> Result<History, VcsError> {
    Ok(History { commits, has_more: false })
}

#[test]
fn snapshots_are_refused_for_their_reasons() {
    let with = |edit: &dyn Fn(&mut Snapshot)| {
        let mut snapshot = snapshot();
        edit(&mut snapshot);
        snapshot.validate()
    };
    assert_eq!(snapshot().validate(), Ok(()));
    assert_eq!(with(&|s| s.snapshot = "".into()), Err(VcsError::EmptySnapshotToken));
    assert_eq!(
        with(&|s| {
            s.references.push(reference(ReferenceKind::Branch, None));
            s.references[0].revision = "".into();
        }),
        Err(VcsError::InvalidRevision)
    );
    assert_eq!(
        with(&|s| s.references.push(reference(ReferenceKind::Tag, upstream(None, None, false)))),
        Err(VcsError::UpstreamNotLocal)
    );
    assert_eq!(
        with(&|s| {
            s.references.push(reference(ReferenceKind::Branch, upstream(Some(1), None, false)))
        }),
        Err(VcsError::IncompleteTracking)
    );
    assert_eq!(
        with(&|s| {
            s.references.push(reference(ReferenceKind::Branch, upstream(Some(1), Some(2), true)))
        }),
        Err(VcsError::GoneWithCounts)
    );
    assert_eq!(
        with(&|s| {
            s.references.push(reference(ReferenceKind::Branch, None));
            s.references.push(reference(ReferenceKind::Tag, None));
            s.references.push(reference(ReferenceKind::Branch, None));
        }),
        Err(VcsError::DuplicateReference)
    );
    assert_eq!(
        with(&|s| {
            s.references.push(reference(ReferenceKind::Branch, None));
            s.references.push(reference(ReferenceKind::Tag, None));
        }),
        Ok(())
    );
    assert_eq!(
        with(&|s| s.changes.push(change("a\\b", ChangeKind::Unchanged))),
        Err(VcsError::InvalidPath)
    );
    assert_eq!(
        with(&|s| s.changes.push(change("a/./b", ChangeKind::Unchanged))),
        Err(VcsError::PathEscapes)
    );
    assert_eq!(
        with(&|s| {
            s.changes.push(change("a", ChangeKind::Unchanged));
            s.changes.push(change("a", ChangeKind::Unchanged));
        }),
        Err(VcsError::DuplicateStatusPath)
    );
    for kind in [ChangeKind::Untracked, ChangeKind::Ignored, ChangeKind::Conflicted] {
        assert_eq!(
            with(&|s| s.changes.push(change("a", kind))),
            Err(VcsError::InvalidStagedStatus)
        );
    }
    assert_eq!(
        with(&|s| {
            s.changes.push(change("a", ChangeKind::Renamed));
            s.changes[0].original_path = Some("../a".into());
        }),
        Err(VcsError::PathEscapes)
    );
}

#[test]
fn names_and_revisions_have_their_limits() {
    let name = |name: &str| vcs_provider::model::validate_reference_name(name);
    assert_eq!(name(&"n".repeat(4096)), Ok(()));
    assert_eq!(name(&"n".repeat(4097)), Err(VcsError::InvalidReferenceName));
    // The limit is on bytes: each of these characters takes two.
    assert_eq!(name(&"\u{e9}".repeat(2048)), Ok(()));
    assert_eq!(name(&"\u{e9}".repeat(2049)), Err(VcsError::InvalidReferenceName));
    assert_eq!(name(""), Err(VcsError::InvalidReferenceName));
    assert_eq!(name("a\u{85}b"), Err(VcsError::InvalidReferenceName));
    let revision = |revision: &str| vcs_provider::model::validate_revision(revision);
    assert_eq!(revision(&"r".repeat(4096)), Ok(()));
    assert_eq!(revision(&"r".repeat(4097)), Err(VcsError::InvalidRevision));
    assert_eq!(revision("a\nb"), Ok(()));
    assert_eq!(revision("a\0b"), Err(VcsError::InvalidRevision));
}

#[test]
fn references_need_their_capabilities() {
    let mut snapshot = snapshot();
    snapshot.references.push(reference(ReferenceKind::Branch, upstream(None, None, false)));
    let mut capabilities = capabilities();
    assert_eq!(
        snapshot.validate_capabilities(capabilities),
        Err(VcsError::UnadvertisedReference)
    );
    capabilities.branches = true;
    assert_eq!(snapshot.validate_capabilities(capabilities), Err(VcsError::UnadvertisedUpstream));
    capabilities.tracking = true;
    assert_eq!(snapshot.validate_capabilities(capabilities), Ok(()));
    snapshot.references.push(reference(ReferenceKind::Tag, None));
    assert_eq!(
        snapshot.validate_capabilities(capabilities),
        Err(VcsError::UnadvertisedReference)
    );
}

#[test]
fn sessions_begin_only_with_fitting_providers() {
    let (starting, request) = Client::start("/work".into());
    assert_eq!(request.method(), "initialize");
    let refused = starting.initialized(Initialization {
        protocol_version: "0.1".into(),
        capabilities: Capabilities::default(),
    });
    assert_eq!(refused.err(), Some(VcsError::NotReadOnly));
    let discovering = || Discovering { root: "/work".into(), capabilities: capabilities() };
    assert_eq!(discovering().discovered(None).err(), Some(VcsError::UnrecognizedWorkspace));
    let elsewhere = RepositoryInfo { root: "/other".into(), ..info() };
    assert_eq!(discovering().discovered(Some(elsewhere)).err(), Some(VcsError::RootMismatch));
    // Paths are compared by their components.
    for root in ["/work/", "/work/.", "/./work"] {
        let spelled = RepositoryInfo { root: root.into(), ..info() };
        assert!(discovering().discovered(Some(spelled)).is_ok(), "{root}");
    }
    for root in ["/wo/rk", "/Work", "/work/..", "work", "/.work", "/"] {
        let other = RepositoryInfo { root: root.into(), ..info() };
        assert_eq!(
            discovering().discovered(Some(other)).err(),
            Some(VcsError::RootMismatch),
            "{root}"
        );
    }
    let nameless = RepositoryInfo { label: "".into(), ..info() };
    assert_eq!(discovering().discovered(Some(nameless)).err(), Some(VcsError::EmptyIdentity));
    let loading = Loading { repository: info(), capabilities: capabilities() };
    assert!(loading.loaded(snapshot()).is_ok());
    let mock = Client::mock(info(), snapshot()).unwrap();
    assert!(mock.capabilities.read_only && mock.capabilities.staging);
    assert!(!mock.capabilities.history);
    let empty = Snapshot { snapshot: "".into(), ..snapshot() };
    assert_eq!(Client::mock(info(), empty).err(), Some(VcsError::EmptySnapshotToken));
}

#[test]
fn history_is_asked_for_and_accepted_within_bounds() {
    let client = client();
    assert_eq!(client.history_request("", None, 1).err(), Some(VcsError::InvalidRevision));
    for limit in [0, 201] {
        assert_eq!(
            client.history_request("r", None, limit).err(),
            Some(VcsError::InvalidHistoryLimit)
        );
    }
    assert!(client.history_request("r", Some("a/b"), 200).is_ok());
    assert_eq!(client.history_request("r", Some("a:b"), 1).err(), Some(VcsError::InvalidPath));
    let two = || listed(vec![commit("a", &["b"]), commit("b", &[])]);
    assert_eq!(client.history(1, two()).err(), Some(VcsError::HistoryLimitExceeded));
    assert_eq!(client.history(2, two()).unwrap().commits.len(), 2);
    let twice = listed(vec![commit("a", &["b"]), commit("a", &["c"])]);
    assert_eq!(client.history(2, twice).err(), Some(VcsError::DuplicateCommit));
    for parents in [vec!["a"], vec!["b", "b"]] {
        let bad = listed(vec![commit("a", &parents)]);
        assert_eq!(client.history(2, bad).err(), Some(VcsError::InvalidParents));
    }
    let mut old = self::client();
    old.capabilities.history = false;
    assert_eq!(old.history_request("r", None, 1).err(), Some(VcsError::NoHistory));
    assert_eq!(old.commit_details_request("r").err(), Some(VcsError::NoHistory));
    assert_eq!(old.commit_changes_request("r").err(), Some(VcsError::NoHistory));
}

#[test]
fn commits_are_accepted_as_they_were_asked_for() {
    let client = client();
    assert_eq!(client.commit_details("a", Ok(commit("b", &[]))).err(), Some(VcsError::WrongCommit));
    assert_eq!(client.commit_details("a", Ok(commit("a", &["b"]))).unwrap().id, "a");
    let file = |path: &str, base: Option<&str>| CommitChange {
        path: path.into(),
        base: base.map(|base| base.to_string()),
        target: None,
    };
    assert_eq!(
        client.commit_changes(Ok(vec![file("a", None)])).err(),
        Some(VcsError::EmptyCommitChange)
    );
    assert_eq!(
        client.commit_changes(Ok(vec![file("a", Some("x")), file("a", Some("y"))])).err(),
        Some(VcsError::DuplicateCommitPath)
    );
    let many = |n: usize| (0..n).map(|i| file(&format!("f{i}"), Some("x"))).collect::<Vec<_>>();
    assert_eq!(client.commit_changes(Ok(many(4097))).err(), Some(VcsError::TooManyFiles));
    assert_eq!(client.commit_changes(Ok(many(4096))).unwrap().len(), 4096);
}

#[test]
fn content_is_padded_standard_base64() {
    let content = |encoding: &str, data: &str| {
        decode_content(&Content { encoding: encoding.into(), data: data.into() })
    };
    assert_eq!(content("base64", "b2xkIGNvbnRlbnQK"), Ok(b"old content\n".to_vec()));
    assert_eq!(content("base64", ""), Ok(Vec::new()));
    assert_eq!(content("base64", "+/8="), Ok(vec![0xfb, 0xff]));
    assert_eq!(content("utf8", "b2xk"), Err(VcsError::UnsupportedEncoding));
    for bad in ["-_8=", "+/8", "a", "!!!!"] {
        assert_eq!(content("base64", bad), Err(VcsError::InvalidBase64), "{bad}");
    }
    assert_eq!(accept_content("base64", None), Err(VcsError::InvalidBase64));
    assert_eq!(accept_content("base64", Some(vec![1])), Ok(vec![1]));
}

fn outcome(step: ContentsStep) -> Option<VcsError> {
    match step {
        ContentsStep::Done(result) => result.err(),
        _ => None,
    }
}

#[test]
fn batches_are_refused_for_their_reasons() {
    let client = client();
    let paths = |n: usize| vec!["a".to_string(); n];
    assert_eq!(outcome(client.contents(paths(2), vec![true])), Some(VcsError::InvalidBatch));
    assert_eq!(
        outcome(client.contents(paths(4097), vec![true; 4097])),
        Some(VcsError::InvalidBatch)
    );
    assert_eq!(outcome(client.contents(vec!["".into()], vec![true])), Some(VcsError::InvalidPath));
    let batch = |path: &str| match client.contents(vec![path.into()], vec![false]) {
        ContentsStep::Compare(batch, _) => batch,
        _ => panic!("a batch begins with a comparison"),
    };
    assert_eq!(
        outcome(client.contents_compared(batch("a"), Ok(Vec::new()))),
        Some(VcsError::WrongComparisonCount)
    );
    let other = Comparison { path: "b".into(), base: Some("x".into()), index: None };
    assert_eq!(
        outcome(client.contents_compared(batch("a"), Ok(vec![other]))),
        Some(VcsError::WrongComparisonPath)
    );
    assert!(matches!(
        client.contents(paths(4096), vec![true; 4096]),
        ContentsStep::Compare(_, _)
    ));
    let nothing = client.contents_compared(batch("a"), Ok(vec![Comparison {
        path: "a".into(),
        base: None,
        index: Some("x".into()),
    }]));
    assert!(matches!(nothing, ContentsStep::Done(Ok(contents)) if contents == vec![None]));
}

#[test]
fn errors_carry_their_words_and_codes() {
    let provider = |code: i64| {
        VcsError::Provider(ProviderError { code, message: "too large".into() })
    };
    assert_eq!(provider(-32002).message(), "VCS provider error -32002: too large");
    assert_eq!(provider(7).message(), "VCS provider error 7: too large");
    assert_eq!(
        provider(i64::MIN).message(),
        "VCS provider error -9223372036854775808: too large"
    );
    assert!(is_size_limit_error(&provider(-32002)));
    assert!(!is_size_limit_error(&provider(-32001)));
    assert!(is_expired_error(&provider(-32001)));
    assert!(!is_size_limit_error(&VcsError::TimedOut));
    let loading = VcsError::LoadingCommitFile {
        path: "a.txt".into(),
        source: Box::new(provider(-32002)),
    };
    assert_eq!(loading.message(), "loading commit file a.txt");
    assert_eq!(loading.code(), Some(-32002));
    assert_eq!(VcsError::Untrusted.message(), "VCS provider workspace is not trusted");
    assert_eq!(
        VcsError::ReadOnly.message(),
        "operation unavailable: external VCS provider is read-only"
    );
}
