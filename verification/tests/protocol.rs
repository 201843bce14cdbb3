use serde_json::Value;
use vcs_provider::client::{Client, Initialization};
use vcs_provider::content::Content;
use vcs_provider::contents::ContentsStep;
use vcs_provider::error::{ProviderError, VcsError};
use vcs_provider::frame::write_frame;
use vcs_provider::model::{
    Capabilities, Change, ChangeKind, CommitChange, Comparison, History, HistoryCommit, Reference,
    ReferenceKind, RepositoryInfo, Snapshot, Tracking,
};
use vcs_provider::path::validate_path;
use vcs_provider::request::Request;
use vcs_provider::transport::{read_message, ProcessTransport, Received};

const ROOT: &str = "/work/service";

fn json(text: &str) -> Value {
    serde_json::from_str(text).unwrap()
}

fn text(value: &Value) -> Option<String> {
    value.as_str().map(|text| text.to_owned())
}

fn required(value: &Value) -> Result<String, VcsError> {
    text(value).ok_or(VcsError::InvalidResult)
}

fn list(value: &Value) -> Result<Vec<Value>, VcsError> {
    value.as_array().cloned().ok_or(VcsError::InvalidResult)
}

fn flag(value: &Value, key: &str) -> bool {
    value[key].as_bool().unwrap_or(false)
}

fn capabilities(value: &Value) -> Capabilities {
    Capabilities {
        read_only: flag(value, "readOnly"),
        staging: flag(value, "staging"),
        history: flag(value, "history"),
        branches: flag(value, "branches"),
        tags: flag(value, "tags"),
        tracking: flag(value, "tracking"),
        blame: flag(value, "blame"),
        branch_diff: flag(value, "branchDiff"),
        permalinks: flag(value, "permalinks"),
        diff_stats: flag(value, "diffStats"),
        stashes: flag(value, "stashes"),
        worktrees: flag(value, "worktrees"),
    }
}

fn kind(value: &Value) -> Result<ChangeKind, VcsError> {
    match value.as_str() {
        None | Some("unchanged") => Ok(ChangeKind::Unchanged),
        Some("modified") => Ok(ChangeKind::Modified),
        Some("added") => Ok(ChangeKind::Added),
        Some("deleted") => Ok(ChangeKind::Deleted),
        Some("untracked") => Ok(ChangeKind::Untracked),
        _ => Err(VcsError::InvalidResult),
    }
}

fn snapshot(value: &Value) -> Result<Snapshot, VcsError> {
    let mut changes = Vec::new();
    for change in list(&value["changes"])? {
        changes.push(Change {
            path: required(&change["path"])?,
            status: kind(&change["status"])?,
            staged_status: kind(&change["stagedStatus"])?,
            original_path: text(&change["originalPath"]),
        });
    }
    let mut references = Vec::new();
    for reference in value["references"].as_array().cloned().unwrap_or_default() {
        let upstream = &reference["upstream"];
        references.push(Reference {
            name: required(&reference["name"])?,
            kind: match reference["kind"].as_str() {
                Some("branch") => ReferenceKind::Branch,
                Some("remoteBranch") => ReferenceKind::RemoteBranch,
                Some("tag") => ReferenceKind::Tag,
                _ => return Err(VcsError::InvalidResult),
            },
            revision: required(&reference["revision"])?,
            upstream: if upstream.is_null() {
                None
            } else {
                Some(Tracking {
                    name: required(&upstream["name"])?,
                    gone: flag(upstream, "gone"),
                    ahead: upstream["ahead"].as_u64().map(|count| count as u32),
                    behind: upstream["behind"].as_u64().map(|count| count as u32),
                })
            },
            commit: None,
        });
    }
    Ok(Snapshot {
        snapshot: required(&value["snapshot"])?,
        revision: text(&value["revision"]),
        branch: text(&value["branch"]),
        changes,
        references,
    })
}

fn commit(value: &Value) -> Result<HistoryCommit, VcsError> {
    let mut parents = Vec::new();
    for parent in list(&value["parents"])? {
        parents.push(required(&parent)?);
    }
    Ok(HistoryCommit {
        id: required(&value["id"])?,
        parents,
        author_name: required(&value["authorName"])?,
        author_email: required(&value["authorEmail"])?,
        timestamp: value["timestamp"].as_i64().ok_or(VcsError::InvalidResult)?,
        message: required(&value["message"])?,
    })
}

fn history(value: &Value) -> Result<History, VcsError> {
    let mut commits = Vec::new();
    for listed in list(&value["commits"])? {
        commits.push(commit(&listed)?);
    }
    Ok(History { commits, has_more: flag(value, "hasMore") })
}

fn commit_changes(value: &Value) -> Result<Vec<CommitChange>, VcsError> {
    let mut changes = Vec::new();
    for change in list(value)? {
        changes.push(CommitChange {
            path: required(&change["path"])?,
            base: text(&change["base"]),
            target: text(&change["target"]),
        });
    }
    Ok(changes)
}

fn comparisons(value: &Value) -> Result<Vec<Comparison>, VcsError> {
    let mut comparisons = Vec::new();
    for comparison in list(value)? {
        comparisons.push(Comparison {
            path: required(&comparison["path"])?,
            base: text(&comparison["base"]),
            index: text(&comparison["index"]),
        });
    }
    Ok(comparisons)
}

fn content(value: &Value) -> Result<Content, VcsError> {
    Ok(Content { encoding: required(&value["encoding"])?, data: required(&value["data"])? })
}

/// A provider that answers frames with frames, in one of several modes.
struct Provider {
    mode: &'static str,
    statuses: u32,
    comparisons: u32,
}

impl Provider {
    fn new(mode: &'static str) -> Provider {
        Provider { mode, statuses: 0, comparisons: 0 }
    }

    /// The bytes that a request is answered with; nothing where the provider never answers.
    fn answer(&mut self, frame: &[u8]) -> Option<Vec<u8>> {
        let message = read_message(frame).unwrap();
        assert_eq!(message.taken, frame.len());
        let request = message.value;
        assert_eq!(request["jsonrpc"], "2.0");
        let id = request["id"].as_u64().unwrap();
        let method = request["method"].as_str().unwrap();
        let params = &request["params"];
        if method != "initialize" && method != "repository/discover" {
            assert_eq!(params["repository"], "mock");
        }
        let answer = match method {
            "initialize" => {
                assert_eq!(params["protocolVersion"], "0.1");
                self.initialize()
            }
            "repository/discover" => {
                assert_eq!(params["workspaceRoot"], ROOT);
                if self.mode == "timeout" {
                    return None;
                }
                if self.mode == "eof" {
                    return Some(Vec::new());
                }
                Ok(format!(r#"{{"id":"mock","root":"{ROOT}","label":"Mock VCS"}}"#))
            }
            "repository/status" => self.status(),
            "repository/comparison" => self.comparison(params),
            "repository/readContent" => self.content(params["content"].as_str().unwrap()),
            "repository/history" => self.history(params["limit"].as_u64().unwrap()),
            "repository/commitDetails" => Ok(self.commit("revision-2", "revision-1")),
            "repository/commitChanges" => Ok(self.commit_changes()),
            _ => Err((-32601, "unknown method")),
        };
        let answered = if self.mode == "bad-id" { id + 1 } else { id };
        let body = match answer {
            Ok(result) => format!(r#"{{"jsonrpc":"2.0","id":{answered},"result":{result}}}"#),
            Err((code, message)) => format!(
                r#"{{"jsonrpc":"2.0","id":{answered},"error":{{"code":{code},"message":"{message}"}}}}"#
            ),
        };
        let hint = r#"{"jsonrpc":"2.0","method":"repository/changed","params":{"repository":"mock"}}"#;
        let mut bytes = write_frame(hint.as_bytes()).unwrap();
        bytes.extend(write_frame(body.as_bytes()).unwrap());
        Some(bytes)
    }

    fn initialize(&self) -> Result<String, (i64, &'static str)> {
        let version = if self.mode == "version" { "9" } else { "0.1" };
        let more = match self.mode {
            "history-refs" | "bad-refs-duplicate" | "bad-refs-name" | "bad-refs-counts"
            | "bad-refs-gone" => r#","history":true,"branches":true,"tags":true,"tracking":true"#,
            "bad-tracking" => r#","tracking":true"#,
            "reserved-feature" => r#","blame":true"#,
            mode if mode.starts_with("history") => r#","history":true"#,
            _ => "",
        };
        Ok(format!(
            r#"{{"protocolVersion":"{version}","capabilities":{{"readOnly":true,"staging":true{more}}}}}"#
        ))
    }

    fn status(&mut self) -> Result<String, (i64, &'static str)> {
        if self.mode == "status-error" && self.statuses == 1 {
            return Err((-32000, "backend failed"));
        }
        self.statuses += 1;
        let path = if self.mode == "bad-path" { "../escape" } else { "hello.txt" };
        let references = match self.mode {
            "history-refs" => {
                r#"[{"name":"main","kind":"branch","revision":"r","upstream":{"name":"origin/main","ahead":1,"behind":0}},
                    {"name":"gone","kind":"branch","revision":"r","upstream":{"name":"origin/gone","gone":true}},
                    {"name":"plain","kind":"branch","revision":"r"},
                    {"name":"origin/main","kind":"remoteBranch","revision":"r"},
                    {"name":"main","kind":"tag","revision":"r"},
                    {"name":"v1","kind":"tag","revision":"r"}]"#
            }
            "bad-refs-duplicate" => {
                r#"[{"name":"main","kind":"branch","revision":"r"},{"name":"main","kind":"branch","revision":"s"}]"#
            }
            "bad-refs-name" => r#"[{"name":"ma\nin","kind":"branch","revision":"r"}]"#,
            "bad-refs-counts" => {
                r#"[{"name":"main","kind":"branch","revision":"r","upstream":{"name":"o","ahead":1}}]"#
            }
            "bad-refs-gone" => {
                r#"[{"name":"main","kind":"branch","revision":"r","upstream":{"name":"o","gone":true,"ahead":1,"behind":1}}]"#
            }
            "unadvertised-refs" => r#"[{"name":"main","kind":"branch","revision":"r"}]"#,
            _ => "[]",
        };
        Ok(format!(
            r#"{{"snapshot":"{}","revision":"revision-2","branch":"main","changes":[
                {{"path":"{path}","status":"modified","stagedStatus":"modified"}},
                {{"path":"new.txt","status":"untracked"}},
                {{"path":"removed.txt","status":"deleted"}}],"references":{references}}}"#,
            self.statuses
        ))
    }

    fn comparison(&mut self, params: &Value) -> Result<String, (i64, &'static str)> {
        self.comparisons += 1;
        if self.mode == "expired" && self.comparisons == 1 {
            return Err((-32001, "Snapshot expired; refresh status"));
        }
        if self.mode == "always-expired" {
            return Err((-32001, "Snapshot expired; refresh status"));
        }
        assert_eq!(params["snapshot"], self.statuses.to_string().as_str());
        let mut entries = Vec::new();
        for path in params["paths"].as_array().unwrap() {
            let path = path.as_str().unwrap();
            entries.push(if path == "new.txt" {
                format!(r#"{{"path":"{path}","base":null,"index":null}}"#)
            } else {
                format!(r#"{{"path":"{path}","base":"base","index":"index"}}"#)
            });
        }
        Ok(format!("[{}]", entries.join(",")))
    }

    fn content(&self, reference: &str) -> Result<String, (i64, &'static str)> {
        let data = match reference {
            "base" => "YmFzZQoA/w==",
            "index" => "aW5kZXgKAP8=",
            "before" => "YmVmb3JlCgD/",
            _ => return Err((-32602, "unknown content")),
        };
        Ok(format!(r#"{{"encoding":"base64","data":"{data}"}}"#))
    }

    fn commit(&self, id: &str, parent: &str) -> String {
        format!(
            r#"{{"id":"{id}","parents":["{parent}"],"authorName":"Ada","authorEmail":"ada@example.com",
                "timestamp":1700000000,"message":"Change hello\n\nDetails"}}"#
        )
    }

    fn history(&self, limit: u64) -> Result<String, (i64, &'static str)> {
        let commits = match self.mode {
            "history-bad-id" => {
                vec![self.commit("revision-2", "revision-1"), self.commit("revision-2", "revision-0")]
            }
            "history-too-many" => {
                vec![self.commit("revision-2", "revision-1"), self.commit("revision-1", "revision-0")]
            }
            _ => vec![self.commit("revision-2", "revision-1")],
        };
        Ok(format!(
            r#"{{"commits":[{}],"hasMore":{}}}"#,
            commits.join(","),
            limit == 1
        ))
    }

    fn commit_changes(&self) -> String {
        let path = if self.mode == "history-bad-path" { "../escape" } else { "hello.txt" };
        format!(
            r#"[{{"path":"{path}","base":"before","target":"base"}},
                {{"path":"added.txt","base":null,"target":"base"}},
                {{"path":"removed.txt","base":"before","target":null}}]"#
        )
    }
}

/// A session over a provider.
struct Session {
    transport: ProcessTransport,
    provider: Provider,
    client: Client,
}

fn exchange(
    transport: &mut ProcessTransport,
    provider: &mut Provider,
    request: &Request,
) -> Result<Value, VcsError> {
    let outgoing = transport.send(request)?;
    let answer = provider.answer(&outgoing.bytes);
    let mut input = match answer {
        Some(bytes) => bytes,
        None => {
            return match transport.receive(outgoing.id, Err(VcsError::TimedOut)) {
                Received::Failed(error) => Err(error),
                _ => panic!("a timeout fails the connection"),
            };
        }
    };
    loop {
        let message = match read_message(&input) {
            Ok(message) => {
                input = input[message.taken..].to_vec();
                Ok(message.value)
            }
            Err(error) => Err(error),
        };
        match transport.receive(outgoing.id, message) {
            Received::Again => {}
            Received::Result(message) => return Ok(message["result"].clone()),
            Received::Error(message) => {
                let error = &message["error"];
                return Err(VcsError::Provider(ProviderError {
                    code: error["code"].as_i64().unwrap(),
                    message: required(&error["message"])?,
                }));
            }
            Received::Failed(error) => return Err(error),
        }
    }
}

fn start(mode: &'static str) -> Result<Session, VcsError> {
    let mut transport = ProcessTransport::new();
    let mut provider = Provider::new(mode);
    let (starting, request) = Client::start(ROOT.to_owned());
    let answer = exchange(&mut transport, &mut provider, &request)?;
    let (discovering, request) = starting.initialized(Initialization {
        protocol_version: required(&answer["protocolVersion"])?,
        capabilities: capabilities(&answer["capabilities"]),
    })?;
    let answer = exchange(&mut transport, &mut provider, &request)?;
    let repository = if answer.is_null() {
        None
    } else {
        Some(RepositoryInfo {
            id: required(&answer["id"])?,
            root: required(&answer["root"])?,
            label: required(&answer["label"])?,
        })
    };
    let (loading, request) = discovering.discovered(repository)?;
    let answer = exchange(&mut transport, &mut provider, &request)?;
    let client = loading.loaded(snapshot(&answer)?)?;
    Ok(Session { transport, provider, client })
}

impl Session {
    fn ask(&mut self, request: &Request) -> Result<Value, VcsError> {
        exchange(&mut self.transport, &mut self.provider, request)
    }

    fn refresh(&mut self) -> Result<(), VcsError> {
        let request = self.client.status_request();
        let reply = self.ask(&request).and_then(|answer| snapshot(&answer));
        self.client.refresh(reply)
    }

    fn contents(
        &mut self,
        paths: &[&str],
        staged: &[bool],
    ) -> Result<Vec<Option<Vec<u8>>>, VcsError> {
        let paths = paths.iter().map(|path| path.to_string()).collect();
        let mut step = self.client.contents(paths, staged.to_vec());
        loop {
            step = match step {
                ContentsStep::Compare(batch, request) => {
                    let reply = self.ask(&request).and_then(|answer| comparisons(&answer));
                    self.client.contents_compared(batch, reply)
                }
                ContentsStep::Read(reading, request) => {
                    let reply = self.ask(&request).and_then(|answer| content(&answer));
                    self.client.contents_read(reading, reply)
                }
                ContentsStep::Refresh(batch, request) => {
                    let reply = self.ask(&request).and_then(|answer| snapshot(&answer));
                    self.client.contents_refreshed(batch, reply)
                }
                ContentsStep::Done(result) => return result,
            };
        }
    }

    fn history(
        &mut self,
        revision: &str,
        path: Option<&str>,
        limit: usize,
    ) -> Result<History, VcsError> {
        let request = self.client.history_request(revision, path, limit)?;
        let reply = self.ask(&request).and_then(|answer| history(&answer));
        self.client.history(limit, reply)
    }

    fn commit_details(&mut self, revision: &str) -> Result<HistoryCommit, VcsError> {
        let request = self.client.commit_details_request(revision)?;
        let reply = self.ask(&request).and_then(|answer| commit(&answer));
        self.client.commit_details(revision, reply)
    }

    fn commit_changes(&mut self, revision: &str) -> Result<Vec<CommitChange>, VcsError> {
        let request = self.client.commit_changes_request(revision)?;
        let reply = self.ask(&request).and_then(|answer| commit_changes(&answer));
        self.client.commit_changes(reply)
    }

    fn read_content(&mut self, reference: &str) -> Result<Vec<u8>, VcsError> {
        let request = self.client.read_content_request(reference);
        let reply = self.ask(&request).and_then(|answer| content(&answer));
        self.client.read_content(reply)
    }
}

#[test]
fn mock_discovery_status_notifications_and_lazy_content() {
    let mut session = start("normal").unwrap();
    assert!(session.client.capabilities.staging);
    assert_eq!(session.client.snapshot().changes.len(), 3);
    let contents = session
        .contents(
            &["hello.txt", "hello.txt", "new.txt", "clean.txt"],
            &[false, true, false, false],
        )
        .unwrap();
    assert_eq!(
        contents,
        vec![
            Some(b"base\n\x00\xff".to_vec()),
            Some(b"index\n\x00\xff".to_vec()),
            None,
            Some(b"base\n\x00\xff".to_vec())
        ]
    );
    session.refresh().unwrap();
    assert_eq!(session.client.snapshot().snapshot, "2");
}

#[test]
fn rejects_invalid_providers_and_bounds_request_time() {
    for mode in ["version", "eof", "bad-id", "bad-path", "timeout"] {
        assert!(start(mode).is_err(), "{mode}");
    }
}

#[test]
fn invalid_providers_are_rejected_for_their_reasons() {
    for (mode, reason) in [
        ("version", VcsError::UnsupportedVersion),
        ("eof", VcsError::ClosedStdout),
        ("bad-id", VcsError::UnexpectedId),
        ("bad-path", VcsError::PathEscapes),
        ("timeout", VcsError::TimedOut),
    ] {
        assert_eq!(start(mode).err(), Some(reason), "{mode}");
    }
}

#[test]
fn errors_preserve_the_last_valid_snapshot() {
    let mut session = start("status-error").unwrap();
    let snapshot = session.client.snapshot().clone();
    assert!(session.refresh().is_err());
    assert_eq!(*session.client.snapshot(), snapshot);
    assert!(session.contents(&["hello.txt"], &[false]).is_ok());
}

#[test]
fn framing_and_path_validation() {
    for message in [
        b"Content-Length: 999999999\r\n\r\n".as_slice(),
        b"Content-Length: 2\r\nContent-Length: 2\r\n\r\n{}",
        b"Content-Length: 10\r\n\r\n{}",
        b"\r\n",
        &[b'x'; 9000],
    ] {
        assert!(read_message(message).is_err());
    }
    assert_eq!(
        read_message(b"Content-Length: 2\r\n\r\n{}".as_slice()).unwrap().value,
        json("{}")
    );
    for path in ["../a", "/a", "a/../b", "a//b", "a\\b", "C:/a", "a\0b", ""] {
        assert!(validate_path(path).is_err());
    }
    assert!(validate_path("dir/unicode 🦀.txt").is_ok());
}

#[test]
fn expired_snapshot_is_refreshed_and_retried_once() {
    let mut session = start("expired").unwrap();
    let contents = session.contents(&["hello.txt"], &[false]).unwrap();
    assert_eq!(contents, vec![Some(b"base\n\x00\xff".to_vec())]);
    assert_eq!(session.client.snapshot().snapshot, "2");
}

#[test]
fn a_snapshot_that_keeps_expiring_is_retried_no_more() {
    let mut session = start("always-expired").unwrap();
    let error = session.contents(&["hello.txt"], &[false]).unwrap_err();
    assert_eq!(error.code(), Some(-32001));
    assert_eq!(session.provider.comparisons, 2);
    assert_eq!(session.client.snapshot().snapshot, "2");
}

#[test]
fn optional_history_metadata_and_commit_contents() {
    let mut session = start("history").unwrap();
    assert!(session.client.capabilities.history);
    let history = session.history("revision-2", None, 1).unwrap();
    assert_eq!(history.commits.len(), 1);
    assert!(history.has_more);
    assert_eq!(history.commits[0].parents, ["revision-1"]);
    let commit = session.commit_details("revision-2").unwrap();
    assert_eq!(commit.message, "Change hello\n\nDetails");
    let changes = session.commit_changes("revision-2").unwrap();
    assert_eq!(changes.len(), 3);
    assert!(changes[1].base.is_none());
    assert!(changes[2].target.is_none());
    assert_eq!(
        session.read_content(changes[0].base.as_ref().unwrap()).unwrap(),
        b"before\n\x00\xff"
    );
    assert!(session.history("revision-2", Some("../escape"), 1).is_err());
    assert!(session.history("revision-2", None, 201).is_err());
    let mut old_provider = start("normal").unwrap();
    assert!(!old_provider.client.capabilities.history);
    assert!(old_provider.history("opaque-revision", None, 1).is_err());
    for (mode, limit) in [("history-bad-id", 2), ("history-too-many", 1)] {
        let mut session = start(mode).unwrap();
        assert!(session.history("revision-2", None, limit).is_err());
    }
    let mut session = start("history-bad-path").unwrap();
    assert!(session.commit_changes("revision-2").is_err());
}

#[test]
fn capabilities_and_reference_validation() {
    let legacy = start("normal").unwrap();
    assert!(!legacy.client.capabilities.branches);
    assert!(!legacy.client.capabilities.tags);
    assert!(legacy.client.snapshot().references.is_empty());
    let session = start("history-refs").unwrap();
    assert!(
        session.client.capabilities.branches
            && session.client.capabilities.tags
            && session.client.capabilities.tracking
    );
    assert_eq!(session.client.snapshot().references.len(), 6);
    for mode in [
        "bad-tracking",
        "reserved-feature",
        "bad-refs-duplicate",
        "bad-refs-name",
        "bad-refs-counts",
        "bad-refs-gone",
        "unadvertised-refs",
    ] {
        assert!(start(mode).is_err(), "{mode}");
    }
}

#[test]
fn references_are_rejected_for_their_reasons() {
    for (mode, reason) in [
        ("bad-tracking", VcsError::TrackingWithoutBranches),
        ("reserved-feature", VcsError::ReservedFeature),
        ("bad-refs-duplicate", VcsError::DuplicateReference),
        ("bad-refs-name", VcsError::InvalidReferenceName),
        ("bad-refs-counts", VcsError::IncompleteTracking),
        ("bad-refs-gone", VcsError::GoneWithCounts),
        ("unadvertised-refs", VcsError::UnadvertisedReference),
    ] {
        assert_eq!(start(mode).err(), Some(reason), "{mode}");
    }
}

#[test]
fn a_failed_connection_serves_nothing_more() {
    let mut session = start("normal").unwrap();
    session.client.stop(&mut session.transport);
    assert_eq!(session.refresh().err(), Some(VcsError::Disconnected));
    assert_eq!(session.client.snapshot().snapshot, "1");
}
