//! A provider's repository as a history view and a change list see it: read only, under trust, with
//! commits named by object identifiers.

use crate::client::{status_problem, Client};
use crate::error::{message_of, VcsError};
use crate::model::{capability_problem, snapshot_problem, HistoryCommit, Snapshot};
use crate::oid::{
    keeps, knows, law_recording_goes_in_turn, law_recording_keeps_meanings, oid_of, recorded,
    recording, resolved, table_wf, valid_oid, Oid, RevisionTable,
};
use crate::request::{optional_view, views, Request, RequestView};
use crate::text::{first_line, first_line_text};
use vstd::hash_map::StringHashMap;
use vstd::prelude::*;

verus! {

/// A commit of the history.
#[derive(Debug)]
pub struct CommitData {
    pub sha: Oid,
    pub parents: Vec<Oid>,
    pub author_name: String,
    pub author_email: String,
    pub commit_timestamp: i64,
    pub subject: String,
    pub message: String,
}

/// What a commit of the history holds.
#[verifier::ext_equal]
pub struct CommitView {
    pub sha: Seq<char>,
    pub parents: Seq<Seq<char>>,
    pub author_name: Seq<char>,
    pub author_email: Seq<char>,
    pub commit_timestamp: i64,
    pub subject: Seq<char>,
    pub message: Seq<char>,
}

/// The texts of some identifiers.
pub open spec fn oid_texts(oids: Seq<Oid>) -> Seq<Seq<char>> {
    oids.map_values(|oid: Oid| oid@)
}

impl View for CommitData {
    type V = CommitView;

    open spec fn view(&self) -> CommitView {
        CommitView {
            sha: self.sha@,
            parents: oid_texts(self.parents@),
            author_name: self.author_name@,
            author_email: self.author_email@,
            commit_timestamp: self.commit_timestamp,
            subject: self.subject@,
            message: self.message@,
        }
    }
}

/// A commit of a provider as the history keeps it: with object identifiers in place of revisions,
/// and the first line of its message as its subject.
pub open spec fn commit_view(commit: HistoryCommit) -> CommitView {
    CommitView {
        sha: oid_of(commit.id@),
        parents: views(commit.parents@).map_values(|parent: Seq<char>| oid_of(parent)),
        author_name: commit.author_name@,
        author_email: commit.author_email@,
        commit_timestamp: commit.timestamp,
        subject: first_line(commit.message@),
        message: commit.message@,
    }
}

/// What some commits hold.
pub open spec fn commit_views(commits: Seq<CommitData>) -> Seq<CommitView> {
    commits.map_values(|commit: CommitData| commit@)
}

/// The revisions that a commit names: itself, then its parents.
pub open spec fn named_revisions(commit: HistoryCommit) -> Seq<Seq<char>> {
    seq![commit.id@] + views(commit.parents@)
}

/// What a repository knows: revisions by their identifiers, and commits by theirs.
#[verifier::ext_equal]
pub struct Known {
    pub revisions: Map<Seq<char>, Seq<char>>,
    pub history: Map<Seq<char>, CommitView>,
}

/// What is known after a commit came: its revisions, as far as they could be recorded, and, where
/// all of them could be, the commit.
pub open spec fn caching(known: Known, commit: HistoryCommit) -> (Known, Option<VcsError>) {
    let (revisions, problem) = recording(known.revisions, named_revisions(commit));
    match problem {
        Some(_) => (Known { revisions, ..known }, problem),
        None => (
            Known {
                revisions,
                history: known.history.insert(oid_of(commit.id@), commit_view(commit)),
            },
            None,
        ),
    }
}

/// What is known after some commits came in turn, up to the first that could not be kept.
pub open spec fn caching_all(known: Known, commits: Seq<HistoryCommit>) -> (Known, Option<VcsError>)
    decreases commits.len(),
{
    if commits.len() == 0 {
        (known, None)
    } else {
        let (after, problem) = caching(known, commits[0]);
        if problem is Some {
            (after, problem)
        } else {
            caching_all(after, commits.skip(1))
        }
    }
}

/// Whether every commit is kept under its own identifier, and it and its parents are known.
pub open spec fn known_wf(known: Known) -> bool {
    &&& table_wf(known.revisions)
    &&& forall|oid: Seq<char>| #[trigger]
        known.history.contains_key(oid) ==> {
            &&& known.history[oid].sha == oid
            &&& known.revisions.contains_key(oid)
            &&& forall|i: int|
                0 <= i < known.history[oid].parents.len() ==> known.revisions.contains_key(
                    #[trigger] known.history[oid].parents[i],
                )
        }
}

/// A repository that a provider serves.
pub struct ExternalRepository {
    pub client: Client,
    pub root: String,
    pub trusted: bool,
    pub error: Option<String>,
    pub history: StringHashMap<CommitData>,
    pub revisions: RevisionTable,
}

impl CommitData {
    /// The same commit again.
    pub fn copy(&self) -> (commit: CommitData)
        ensures
            commit@ == self@,
    {
        let mut parents: Vec<Oid> = Vec::new();
        let mut i: usize = 0;
        while i < self.parents.len()
            invariant
                i <= self.parents@.len(),
                parents@ == self.parents@.take(i as int),
            decreases self.parents@.len() - i,
        {
            parents.push(self.parents[i].copy());
            i += 1;
            assert(self.parents@.take(i as int) == self.parents@.take(i - 1).push(
                self.parents@[i - 1],
            ));
        }
        assert(self.parents@.take(i as int) == self.parents@);
        CommitData {
            sha: self.sha.copy(),
            parents,
            author_name: self.author_name.clone(),
            author_email: self.author_email.clone(),
            commit_timestamp: self.commit_timestamp,
            subject: self.subject.clone(),
            message: self.message.clone(),
        }
    }
}

impl ExternalRepository {
    /// What this repository knows.
    pub open spec fn known(&self) -> Known {
        Known {
            revisions: self.revisions@,
            history: self.history@.map_values(|commit: CommitData| commit@),
        }
    }

    /// The snapshot is as the protocol wants it, and what is known hangs together.
    pub open spec fn wf(&self) -> bool {
        self.client.wf() && known_wf(self.known())
    }

    /// The current revision.
    pub open spec fn head(&self) -> Option<Seq<char>> {
        optional_view(self.client.snapshot.revision)
    }

    /// Whether nothing differs from `other` but what is known.
    pub open spec fn differs_in_knowledge(&self, other: &ExternalRepository) -> bool {
        &&& self.client == other.client
        &&& self.root == other.root
        &&& self.trusted == other.trusted
        &&& self.error == other.error
    }

    /// The repository of a session: trusted, with nothing known yet.
    pub fn new(client: Client) -> (repository: ExternalRepository)
        ensures
            repository.client == client,
            repository.root@ == client.repository.root@,
            repository.trusted,
            repository.error is None,
            repository.known() == (Known { revisions: Map::empty(), history: Map::empty() }),
            client.wf() ==> repository.wf(),
    {
        let repository: ExternalRepository = ExternalRepository {
            root: client.repository.root.clone(),
            client,
            trusted: true,
            error: None,
            history: StringHashMap::new(),
            revisions: RevisionTable::new(),
        };
        assert(repository.known().history =~= Map::<Seq<char>, CommitView>::empty());
        repository
    }

    /// The object identifier of a revision, which from here on stands for it.
    pub fn oid(&mut self, revision: &str) -> (oid: Result<Oid, VcsError>)
        ensures
            final(self).differs_in_knowledge(old(self)),
            final(self).known().history == old(self).known().history,
            match recorded(old(self).known().revisions, revision@) {
                Ok(revisions) => oid matches Ok(oid) && oid@ == oid_of(revision@) && valid_oid(oid@)
                    && final(self).known().revisions == revisions,
                Err(error) => oid == Err::<Oid, VcsError>(error) && final(self).known().revisions
                    == old(self).known().revisions,
            },
            table_wf(old(self).known().revisions) ==> table_wf(final(self).known().revisions),
            old(self).wf() ==> final(self).wf(),
    {
        let oid: Result<Oid, VcsError> = self.revisions.record(revision);
        proof {
            if old(self).wf() && oid is Ok {
                let before = old(self).known();
                let after = self.known();
                assert(keeps(before.revisions, after.revisions));
                lemma_known_stays_wf(before, after.revisions);
                assert(after == (Known { revisions: after.revisions, ..before }));
            }
        }
        oid
    }

    /// The revision that a name stands for.
    pub fn revision(&self, name: &str) -> (revision: Result<String, VcsError>)
        ensures
            match resolved(self.known().revisions, self.head(), name@) {
                Ok(found) => revision matches Ok(revision) && revision@ == found,
                Err(error) => revision == Err::<String, VcsError>(error),
            },
    {
        self.revisions.resolve(&self.client.snapshot.revision, name)
    }
}

/// What hangs together does so still when more revisions are known.
proof fn lemma_known_stays_wf(known: Known, revisions: Map<Seq<char>, Seq<char>>)
    requires
        known_wf(known),
        table_wf(revisions),
        keeps(known.revisions, revisions),
    ensures
        known_wf(Known { revisions, ..known }),
{
    let after = Known { revisions, ..known };
    assert forall|oid: Seq<char>| #[trigger] after.history.contains_key(oid) implies {
        &&& after.history[oid].sha == oid
        &&& after.revisions.contains_key(oid)
        &&& forall|i: int|
            0 <= i < after.history[oid].parents.len() ==> after.revisions.contains_key(
                #[trigger] after.history[oid].parents[i],
            )
    } by {
        assert(known.history.contains_key(oid));
        assert(known.revisions.contains_key(oid));
        assert forall|i: int| 0 <= i < after.history[oid].parents.len() implies
            after.revisions.contains_key(#[trigger] after.history[oid].parents[i]) by {
            assert(known.revisions.contains_key(known.history[oid].parents[i]));
        }
    }
}

impl ExternalRepository {
    /// Records what a commit names and keeps the commit.
    pub fn cache_commit(&mut self, commit: HistoryCommit) -> (data: Result<CommitData, VcsError>)
        ensures
            final(self).differs_in_knowledge(old(self)),
            final(self).known() == caching(old(self).known(), commit).0,
            match caching(old(self).known(), commit).1 {
                Some(problem) => data == Err::<CommitData, VcsError>(problem),
                None => data matches Ok(data) && data@ == commit_view(commit) && valid_oid(
                    data@.sha,
                ),
            },
            old(self).wf() ==> final(self).wf(),
    {
        let ghost before = self.known();
        let ghost names = named_revisions(commit);
        let sha: Oid = match self.oid(&commit.id) {
            Ok(sha) => sha,
            Err(error) => {
                assert(self.known() == before);
                return Err(error);
            },
        };
        let ghost parent_oids = commit_view(commit).parents;
        let mut parents: Vec<Oid> = Vec::new();
        let mut i: usize = 0;
        assert(names.skip(1) =~= views(commit.parents@));
        assert(views(commit.parents@).skip(0) =~= views(commit.parents@));
        assert(oid_texts(parents@) =~= parent_oids.take(0));
        while i < commit.parents.len()
            invariant
                i <= commit.parents@.len(),
                self.differs_in_knowledge(old(self)),
                self.known().history == before.history,
                before == old(self).known(),
                names == named_revisions(commit),
                parent_oids == commit_view(commit).parents,
                recording(before.revisions, names) == recording(
                    self.known().revisions,
                    views(commit.parents@).skip(i as int),
                ),
                oid_texts(parents@) == parent_oids.take(i as int),
                old(self).wf() ==> self.wf(),
            decreases commit.parents@.len() - i,
        {
            assert(views(commit.parents@).skip(i as int)[0] == commit.parents@[i as int]@);
            assert(views(commit.parents@).skip(i as int).skip(1) =~= views(commit.parents@).skip(
                i + 1,
            ));
            let parent: Oid = match self.oid(&commit.parents[i]) {
                Ok(parent) => parent,
                Err(error) => {
                    assert(self.known() =~= caching(before, commit).0);
                    return Err(error);
                },
            };
            parents.push(parent);
            i += 1;
            assert(parent_oids.take(i as int) == parent_oids.take(i - 1).push(parent_oids[i - 1]));
            assert(oid_texts(parents@) == parent_oids.take(i as int));
        }
        assert(parent_oids.take(i as int) == parent_oids);
        let data: CommitData = CommitData {
            sha,
            parents,
            author_name: commit.author_name,
            author_email: commit.author_email,
            commit_timestamp: commit.timestamp,
            subject: first_line_text(&commit.message),
            message: commit.message,
        };
        assert(data@ == commit_view(commit));
        let ghost unkept = self.known();
        self.history.insert(data.sha.text(), data.copy());
        proof {
            assert(self.known().history =~= before.history.insert(
                oid_of(commit.id@),
                commit_view(commit),
            ));
            if old(self).wf() {
                lemma_commit_is_kept(before, commit, unkept);
            }
        }
        Ok(data)
    }
}

/// A commit whose revisions are all known can be kept.
proof fn lemma_commit_is_kept(before: Known, commit: HistoryCommit, unkept: Known)
    requires
        known_wf(unkept),
        caching(before, commit).1 is None,
        unkept.revisions == caching(before, commit).0.revisions,
        unkept.history == before.history,
    ensures
        known_wf(caching(before, commit).0),
{
    let names = named_revisions(commit);
    let after = caching(before, commit).0;
    law_recording_keeps_meanings(before.revisions, names);
    assert forall|oid: Seq<char>| #[trigger] after.history.contains_key(oid) implies {
        &&& after.history[oid].sha == oid
        &&& after.revisions.contains_key(oid)
        &&& forall|i: int|
            0 <= i < after.history[oid].parents.len() ==> after.revisions.contains_key(
                #[trigger] after.history[oid].parents[i],
            )
    } by {
        if oid == oid_of(commit.id@) {
            assert(names[0] == commit.id@);
            assert(knows(after.revisions, names[0]));
            assert forall|i: int| 0 <= i < after.history[oid].parents.len() implies
                after.revisions.contains_key(#[trigger] after.history[oid].parents[i]) by {
                assert(names[i + 1] == commit.parents@[i]@);
                assert(knows(after.revisions, names[i + 1]));
            }
        } else {
            assert(unkept.history.contains_key(oid));
        }
    }
}

impl ExternalRepository {
    /// The name of the current branch: the label of the repository where it has none.
    pub open spec fn current_branch(&self) -> Seq<char> {
        match self.client.snapshot.branch {
            Some(branch) => branch@,
            None => self.client.repository.label@,
        }
    }

    /// Refuses whoever asks without trust.
    pub(crate) fn ensure_trusted(&self) -> (checked: Result<(), VcsError>)
        ensures
            self.trusted ==> checked == Ok::<(), VcsError>(()),
            !self.trusted ==> checked == Err::<(), VcsError>(VcsError::Untrusted),
    {
        if self.trusted {
            Ok(())
        } else {
            Err(VcsError::Untrusted)
        }
    }

    /// The name of the current branch.
    pub(crate) fn branch_name(&self) -> (name: String)
        ensures
            name@ == self.current_branch(),
    {
        match &self.client.snapshot.branch {
            Some(branch) => branch.clone(),
            None => self.client.repository.label.clone(),
        }
    }
}

/// A branch, as a list of branches shows it.
#[derive(Debug)]
pub struct Branch {
    pub is_head: bool,
    pub ref_name: String,
    pub upstream: Option<String>,
    pub most_recent_commit: Option<String>,
}

/// The branches, and what went wrong when they were last refreshed.
#[derive(Debug)]
pub struct BranchesScanResult {
    pub branches: Vec<Branch>,
    pub error: Option<String>,
}

impl ExternalRepository {
    /// Nothing here changes the provider's repository.
    pub fn is_read_only(&self) -> (read_only: bool)
        ensures
            read_only,
    {
        true
    }

    /// Where the working copy lies.
    pub fn path(&self) -> (path: &str)
        ensures
            path@ == self.root@,
    {
        self.root.as_str()
    }

    /// Where the main working copy lies: there is but one.
    pub fn main_repository_path(&self) -> (path: &str)
        ensures
            path@ == self.root@,
    {
        self.root.as_str()
    }

    /// Whether the workspace is trusted.
    pub fn is_trusted(&self) -> (trusted: bool)
        ensures
            trusted == self.trusted,
    {
        self.trusted
    }

    /// Gives or takes trust. Whoever takes it has to stop the provider: that is what is returned.
    pub fn set_trusted(&mut self, trusted: bool) -> (stop: bool)
        ensures
            *final(self) == (ExternalRepository { trusted, ..*old(self) }),
            stop == !trusted,
    {
        self.trusted = trusted;
        !trusted
    }

    /// Asks for a new snapshot.
    pub fn refresh_request(&self) -> (request: Result<Request, VcsError>)
        ensures
            !self.trusted ==> request == Err::<Request, VcsError>(VcsError::Untrusted),
            self.trusted ==> (request matches Ok(request) && request@ == (RequestView::Status {
                repository: self.client.repository.id@,
            })),
    {
        self.ensure_trusted()?;
        Ok(self.client.status_request())
    }

    /// Takes the answer to a request for a new snapshot, and keeps in mind what went wrong.
    pub fn refresh(&mut self, reply: Result<Snapshot, VcsError>) -> (done: Result<(), VcsError>)
        ensures
            final(self).root == old(self).root,
            final(self).trusted == old(self).trusted,
            final(self).known() == old(self).known(),
            final(self).client.repository == old(self).client.repository,
            final(self).client.capabilities == old(self).client.capabilities,
            match refreshed(reply, old(self).client) {
                Ok(snapshot) => done == Ok::<(), VcsError>(()) && final(self).client.snapshot
                    == snapshot && final(self).error is None,
                Err(error) => done == Err::<(), VcsError>(error) && final(self).client.snapshot
                    == old(self).client.snapshot && optional_view(final(self).error) == Some(
                    message_of(error),
                ),
            },
            old(self).wf() ==> final(self).wf(),
    {
        let done: Result<(), VcsError> = self.client.refresh(reply);
        self.error = match &done {
            Ok(()) => None,
            Err(error) => Some(error.message()),
        };
        done
    }

    /// The branches: the current one.
    pub fn branches(&self) -> (scan: BranchesScanResult)
        ensures
            scan.branches@.len() == 1,
            scan.branches@[0].is_head,
            scan.branches@[0].ref_name@ == self.current_branch(),
            scan.branches@[0].upstream is None,
            scan.branches@[0].most_recent_commit is None,
            optional_view(scan.error) == optional_view(self.error),
    {
        let mut branches: Vec<Branch> = Vec::new();
        branches.push(
            Branch {
                is_head: true,
                ref_name: self.branch_name(),
                upstream: None,
                most_recent_commit: None,
            },
        );
        let error: Option<String> = match &self.error {
            Some(error) => Some(error.clone()),
            None => None,
        };
        BranchesScanResult { branches, error }
    }
}

/// The snapshot that an answer brings, or its error, or what is wrong with it.
pub open spec fn refreshed(reply: Result<Snapshot, VcsError>, client: Client) -> Result<
    Snapshot,
    VcsError,
> {
    match reply {
        Err(error) => Err(error),
        Ok(snapshot) => match status_problem(snapshot, client.capabilities) {
            Some(problem) => Err(problem),
            None => Ok(snapshot),
        },
    }
}

/// A commit is kept with the identifiers of its revision and of every parent, in their order, with
/// its author, its time and its whole message, and with the first line of the message as its
/// subject.
pub proof fn law_commits_are_kept_whole(commit: HistoryCommit)
    ensures
        ({
            let kept = commit_view(commit);
            &&& kept.sha == oid_of(commit.id@)
            &&& kept.parents.len() == commit.parents@.len()
            &&& forall|j: int|
                0 <= j < commit.parents@.len() ==> #[trigger] kept.parents[j] == oid_of(
                    commit.parents@[j]@,
                )
            &&& kept.author_name == commit.author_name@
            &&& kept.author_email == commit.author_email@
            &&& kept.commit_timestamp == commit.timestamp
            &&& kept.message == commit.message@
            &&& kept.subject == first_line(commit.message@)
        }),
{
}

/// Keeping a commit fails exactly where recording its revision and then its parents does, and no
/// commit is kept then, but the revisions before the one that failed are known. Otherwise it is kept
/// under its own identifier, all of its revisions are known, and no other commit changes.
pub proof fn law_keeping_a_commit_adds_it_alone(known: Known, commit: HistoryCommit)
    ensures
        ({
            let (after, problem) = caching(known, commit);
            let oid = oid_of(commit.id@);
            &&& keeps(known.revisions, after.revisions)
            &&& problem == recording(known.revisions, seq![commit.id@] + views(commit.parents@)).1
            &&& problem is Some ==> after.history == known.history
            &&& problem is Some && recorded(known.revisions, commit.id@) is Ok ==> knows(
                after.revisions,
                commit.id@,
            )
            &&& forall|j: int|
                0 <= j < commit.parents@.len() && #[trigger] recording(
                    known.revisions,
                    named_revisions(commit).take(j + 1),
                ).1 is None ==> keeps(
                    recording(known.revisions, named_revisions(commit).take(j + 1)).0,
                    after.revisions,
                )
            &&& problem is None ==> {
                &&& after.history.contains_key(oid)
                &&& after.history[oid] == commit_view(commit)
                &&& knows(after.revisions, commit.id@)
                &&& forall|j: int|
                    0 <= j < commit.parents@.len() ==> knows(
                        after.revisions,
                        (#[trigger] commit.parents@[j])@,
                    )
                &&& forall|other: Seq<char>|
                    other != oid ==> {
                        &&& #[trigger] after.history.contains_key(other)
                            <==> known.history.contains_key(other)
                        &&& known.history.contains_key(other) ==> after.history[other]
                            == known.history[other]
                    }
            }
        }),
{
    let names = named_revisions(commit);
    law_recording_keeps_meanings(known.revisions, names);
    assert(names[0] == commit.id@);
    let after = caching(known, commit).0;
    if let Ok(first) = recorded(known.revisions, commit.id@) {
        law_recording_keeps_meanings(first, names.skip(1));
        assert(first.contains_key(oid_of(commit.id@)));
    }
    assert forall|j: int|
        0 <= j < commit.parents@.len() && #[trigger] recording(
            known.revisions,
            names.take(j + 1),
        ).1 is None implies keeps(
        recording(known.revisions, names.take(j + 1)).0,
        after.revisions,
    ) by {
        let earlier = recording(known.revisions, names.take(j + 1)).0;
        assert(names.take(j + 1) + names.skip(j + 1) =~= names);
        law_recording_goes_in_turn(known.revisions, names.take(j + 1), names.skip(j + 1));
        law_recording_keeps_meanings(earlier, names.skip(j + 1));
    }
    if caching(known, commit).1 is None {
        assert forall|j: int| 0 <= j < commit.parents@.len() implies knows(
            after.revisions,
            (#[trigger] commit.parents@[j])@,
        ) by {
            assert(names[j + 1] == commit.parents@[j]@);
        }
    }
}

/// Commits that come in turn are kept one group after another.
pub proof fn law_commits_are_kept_in_turn(
    known: Known,
    first: Seq<HistoryCommit>,
    rest: Seq<HistoryCommit>,
)
    ensures
        caching_all(known, Seq::empty()) == (known, None::<VcsError>),
        caching_all(known, first + rest) == if caching_all(known, first).1 is Some {
            caching_all(known, first)
        } else {
            caching_all(caching_all(known, first).0, rest)
        },
    decreases first.len(),
{
    if first.len() == 0 {
        assert(first + rest =~= rest);
    } else {
        assert((first + rest)[0] == first[0]);
        assert((first + rest).skip(1) =~= first.skip(1) + rest);
        law_commits_are_kept_in_turn(caching(known, first[0]).0, first.skip(1), rest);
    }
}

/// A new snapshot is the one that came, exactly where it is accepted and stays within what was
/// advertised, and otherwise nothing but an error comes of it: that of the answer, or what is wrong.
pub proof fn law_refreshed_snapshots_are_those_that_came(
    reply: Result<Snapshot, VcsError>,
    client: Client,
)
    ensures
        refreshed(reply, client) is Ok <==> reply is Ok && snapshot_problem(reply->Ok_0) is None
            && capability_problem(reply->Ok_0, client.capabilities) is None,
        refreshed(reply, client) matches Ok(snapshot) ==> reply == Ok::<Snapshot, VcsError>(
            snapshot,
        ),
        reply matches Err(error) ==> refreshed(reply, client) == Err::<Snapshot, VcsError>(error),
        reply matches Ok(snapshot) ==> (snapshot_problem(snapshot) matches Some(problem) ==> refreshed(
            reply,
            client,
        ) == Err::<Snapshot, VcsError>(problem)),
{
}

/// The current branch is that of the snapshot, and the label of the repository where it names none.
pub proof fn law_current_branch_is_that_of_the_snapshot(repository: ExternalRepository)
    ensures
        repository.client.snapshot.branch matches Some(branch) ==> repository.current_branch()
            == branch@,
        repository.client.snapshot.branch is None ==> repository.current_branch()
            == repository.client.repository.label@,
{
}

} // verus!
