//! What a history view asks of a repository: its log, its graph, searches and single commits.

use crate::client::{
    commit_details_problem, history_problem, history_request_problem, revision_request_problem,
};
use crate::error::VcsError;
use crate::model::{commit_problem, valid_revision, History, HistoryCommit, MAX_HISTORY_COMMITS};
use crate::oid::{
    keeps, knows, law_oids_are_valid, law_recording_keeps_meanings, oid_of, parsed_oid, recorded,
    resolved, valid_oid, Oid,
};
use crate::order::reversed;
use crate::repository::{
    caching, caching_all, commit_view, commit_views, named_revisions, oid_texts, CommitData,
    CommitView, ExternalRepository, Known,
};
use crate::request::{optional_view, views, Request, RequestView};
use crate::text::{
    contains_text, law_occurrence_is_transitive, law_what_occurs_stands_between, lowercase,
    lowercase_text, occurs_in, same_text,
};
use vstd::hash_map::StringHashMap;
use vstd::prelude::*;

verus! {

/// Which commits a history view is about.
#[derive(Debug)]
pub enum LogSource {
    /// Those that lead to the current revision.
    All,
    /// Those of a branch, which must be the current one.
    Branch(String),
    /// Those that lead to a commit.
    Sha(Oid),
    /// Those that changed a path.
    Path(String),
}

impl ExternalRepository {
    /// The revision, and the path if there is one, that a source asks the history of.
    pub open spec fn history_source(&self, source: LogSource) -> Result<
        (Seq<char>, Option<Seq<char>>),
        VcsError,
    > {
        if !self.trusted {
            Err(VcsError::Untrusted)
        } else {
            match self.head() {
                None => Err(VcsError::NoCurrentRevision),
                Some(head) => match source {
                    LogSource::All => Ok((head, None)),
                    LogSource::Branch(branch) => if branch@ == self.current_branch() {
                        Ok((head, None))
                    } else {
                        Err(VcsError::OtherBranch)
                    },
                    LogSource::Sha(oid) => match resolved(
                        self.known().revisions,
                        Some(head),
                        oid@,
                    ) {
                        Ok(revision) => Ok((revision, None)),
                        Err(error) => Err(error),
                    },
                    LogSource::Path(path) => Ok((head, Some(path@))),
                },
            }
        }
    }

    /// Asks for the commits of a source.
    pub fn history_for_source_request(&self, source: &LogSource) -> (request: Result<
        Request,
        VcsError,
    >)
        ensures
            match self.history_source(*source) {
                Err(error) => request == Err::<Request, VcsError>(error),
                Ok((revision, path)) => match history_request_problem(
                    self.client.capabilities,
                    revision,
                    path,
                    MAX_HISTORY_COMMITS,
                ) {
                    Some(problem) => request == Err::<Request, VcsError>(problem),
                    None => request matches Ok(request) && request@ == (RequestView::History {
                        repository: self.client.repository.id@,
                        revision,
                        path,
                        limit: MAX_HISTORY_COMMITS,
                    }),
                },
            },
    {
        self.ensure_trusted()?;
        let head: String = self.revision("HEAD")?;
        match source {
            LogSource::All => self.client.history_request(&head, None, MAX_HISTORY_COMMITS),
            LogSource::Branch(branch) => {
                if self.branch_name() != *branch {
                    return Err(VcsError::OtherBranch);
                }
                self.client.history_request(&head, None, MAX_HISTORY_COMMITS)
            },
            LogSource::Sha(oid) => {
                let revision: String = self.revision(&oid.text())?;
                self.client.history_request(&revision, None, MAX_HISTORY_COMMITS)
            },
            LogSource::Path(path) => self.client.history_request(
                &head,
                Some(path.as_str()),
                MAX_HISTORY_COMMITS,
            ),
        }
    }

    /// Takes the commits of a source and keeps them.
    pub fn history_for_source(&mut self, reply: Result<History, VcsError>) -> (commits: Result<
        Vec<CommitData>,
        VcsError,
    >)
        ensures
            final(self).differs_in_knowledge(old(self)),
            match accepted_history(reply) {
                Err(error) => commits == Err::<Vec<CommitData>, VcsError>(error)
                    && final(self).known() == old(self).known(),
                Ok(listed) => {
                    &&& final(self).known() == caching_all(old(self).known(), listed).0
                    &&& match caching_all(old(self).known(), listed).1 {
                        Some(problem) => commits == Err::<Vec<CommitData>, VcsError>(problem),
                        None => commits matches Ok(commits) && commit_views(commits@)
                            == listed.map_values(|commit: HistoryCommit| commit_view(commit))
                            && forall|i: int|
                            0 <= i < listed.len() ==> valid_oid(
                                oid_of((#[trigger] listed[i]).id@),
                            ),
                    }
                },
            },
            old(self).wf() ==> final(self).wf(),
    {
        let history: History = self.client.history(MAX_HISTORY_COMMITS, reply)?;
        let ghost listed = history.commits@;
        let ghost wanted = listed.map_values(|commit: HistoryCommit| commit_view(commit));
        let mut rest: Vec<HistoryCommit> = reversed(history.commits);
        let mut commits: Vec<CommitData> = Vec::new();
        assert(listed.skip(0) =~= listed);
        assert(commit_views(commits@) =~= wanted.take(0));
        while rest.len() > 0
            invariant
                rest@.len() + commits@.len() == listed.len(),
                rest@ == listed.skip(commits@.len() as int).reverse(),
                wanted == listed.map_values(|commit: HistoryCommit| commit_view(commit)),
                commit_views(commits@) == wanted.take(commits@.len() as int),
                forall|i: int|
                    0 <= i < commits@.len() ==> valid_oid(oid_of((#[trigger] listed[i]).id@)),
                self.differs_in_knowledge(old(self)),
                caching_all(old(self).known(), listed) == caching_all(
                    self.known(),
                    listed.skip(commits@.len() as int),
                ),
                accepted_history(reply) == Ok::<Seq<HistoryCommit>, VcsError>(listed),
                old(self).wf() ==> self.wf(),
            decreases rest@.len(),
        {
            let ghost n = commits@.len() as int;
            let ghost before = rest@;
            match rest.pop() {
                Some(commit) => {
                    assert(commit == listed[n]);
                    assert(listed.skip(n)[0] == listed[n]);
                    assert(listed.skip(n).skip(1) =~= listed.skip(n + 1));
                    assert(rest@ =~= listed.skip(n + 1).reverse());
                    let data: CommitData = self.cache_commit(commit)?;
                    commits.push(data);
                    assert(wanted[n] == data@);
                    assert(wanted.take(n + 1) == wanted.take(n).push(wanted[n]));
                    assert(commit_views(commits@) =~= wanted.take(n + 1));
                },
                None => {},
            }
        }
        assert(wanted.take(commits@.len() as int) == wanted);
        Ok(commits)
    }
}

/// The commits of an answer, or its error, or what is wrong with it.
pub open spec fn accepted_history(reply: Result<History, VcsError>) -> Result<
    Seq<HistoryCommit>,
    VcsError,
> {
    match reply {
        Err(error) => Err(error),
        Ok(history) => match history_problem(history, MAX_HISTORY_COMMITS) {
            Some(problem) => Err(problem),
            None => Ok(history.commits@),
        },
    }
}

/// The order in which a history view wants its commits.
#[derive(Clone, Copy, Debug, PartialEq, Eq, Structural)]
pub enum LogOrder {
    /// As the provider lists them, the newest first.
    AsListed,
    /// The oldest first.
    ReverseChronological,
}

/// A commit of a history graph.
#[derive(Debug)]
pub struct InitialGraphCommitData {
    pub sha: Oid,
    pub parents: Vec<Oid>,
    pub ref_names: Vec<String>,
}

/// What a commit of a history graph holds.
#[verifier::ext_equal]
pub struct GraphView {
    pub sha: Seq<char>,
    pub parents: Seq<Seq<char>>,
    pub ref_names: Seq<Seq<char>>,
}

impl View for InitialGraphCommitData {
    type V = GraphView;

    open spec fn view(&self) -> GraphView {
        GraphView {
            sha: self.sha@,
            parents: oid_texts(self.parents@),
            ref_names: views(self.ref_names@),
        }
    }
}

/// A provider's commit in a history graph, where no names of references are shown.
pub open spec fn graph_view(commit: HistoryCommit) -> GraphView {
    GraphView {
        sha: commit_view(commit).sha,
        parents: commit_view(commit).parents,
        ref_names: Seq::empty(),
    }
}

/// What some commits of a history graph hold.
pub open spec fn graph_views(commits: Seq<InitialGraphCommitData>) -> Seq<GraphView> {
    commits.map_values(|commit: InitialGraphCommitData| commit@)
}

/// Some commits in the order that is wanted.
pub open spec fn in_log_order(listed: Seq<HistoryCommit>, order: LogOrder) -> Seq<HistoryCommit> {
    match order {
        LogOrder::AsListed => listed,
        LogOrder::ReverseChronological => listed.reverse(),
    }
}

impl ExternalRepository {
    /// Takes the commits of a source, keeps them, and lays them out for a graph.
    pub fn initial_graph_data(
        &mut self,
        order: LogOrder,
        reply: Result<History, VcsError>,
    ) -> (graph: Result<Vec<InitialGraphCommitData>, VcsError>)
        ensures
            final(self).differs_in_knowledge(old(self)),
            match accepted_history(reply) {
                Err(error) => graph == Err::<Vec<InitialGraphCommitData>, VcsError>(error)
                    && final(self).known() == old(self).known(),
                Ok(listed) => {
                    &&& final(self).known() == caching_all(old(self).known(), listed).0
                    &&& match caching_all(old(self).known(), listed).1 {
                        Some(problem) => graph == Err::<Vec<InitialGraphCommitData>, VcsError>(
                            problem,
                        ),
                        None => graph matches Ok(graph) && graph_views(graph@) == in_log_order(
                            listed,
                            order,
                        ).map_values(|commit: HistoryCommit| graph_view(commit)) && forall|i: int|
                            0 <= i < listed.len() ==> {
                                let commit = in_log_order(listed, order)[i];
                                let entry = #[trigger] graph@[i];
                                &&& entry.sha@ == oid_of(commit.id@)
                                &&& entry.parents@.len() == commit.parents@.len()
                                &&& forall|j: int|
                                    0 <= j < commit.parents@.len() ==> (
                                    #[trigger] entry.parents@[j])@ == oid_of(
                                        commit.parents@[j]@,
                                    )
                            },
                    }
                },
            },
            old(self).wf() ==> final(self).wf(),
    {
        let commits: Vec<CommitData> = self.history_for_source(reply)?;
        let ghost listed = accepted_history(reply)->Ok_0;
        let ghost kept = commits@;
        let ghost wanted = in_log_order(listed, order);
        // Taken from the end, the first is the last of the reverse.
        let mut rest: Vec<CommitData> = if order == LogOrder::ReverseChronological {
            commits
        } else {
            reversed(commits)
        };
        let ghost all = rest@;
        let mut graph: Vec<InitialGraphCommitData> = Vec::new();
        proof {
            assert(commit_views(kept).len() == listed.len());
            assert forall|i: int| 0 <= i < listed.len() implies all[listed.len() - 1 - i]@
                == commit_view(#[trigger] wanted[i]) by {
                let at = if order == LogOrder::ReverseChronological {
                    listed.len() - 1 - i
                } else {
                    i
                };
                assert(commit_views(kept)[at] == commit_view(listed[at]));
            }
            assert(rest@ =~= all.take(all.len() as int));
        }
        while rest.len() > 0
            invariant
                rest@.len() + graph@.len() == all.len(),
                all.len() == wanted.len(),
                rest@ == all.take(rest@.len() as int),
                forall|i: int|
                    0 <= i < wanted.len() ==> all[wanted.len() - 1 - i]@ == commit_view(
                        #[trigger] wanted[i],
                    ),
                forall|i: int|
                    0 <= i < graph@.len() ==> (#[trigger] graph@[i])@ == graph_view(wanted[i]),
            decreases rest@.len(),
        {
            let ghost n = graph@.len() as int;
            match rest.pop() {
                Some(commit) => {
                    assert(commit@ == commit_view(wanted[n]));
                    let entry: InitialGraphCommitData = InitialGraphCommitData {
                        sha: commit.sha,
                        parents: commit.parents,
                        ref_names: Vec::new(),
                    };
                    assert(entry@ == graph_view(wanted[n]));
                    graph.push(entry);
                    assert(rest@ =~= all.take(rest@.len() as int));
                },
                None => {},
            }
        }
        assert(graph_views(graph@) =~= wanted.map_values(
            |commit: HistoryCommit| graph_view(commit),
        ));
        assert forall|i: int| 0 <= i < listed.len() implies {
            let commit = wanted[i];
            let entry = #[trigger] graph@[i];
            &&& entry.sha@ == oid_of(commit.id@)
            &&& entry.parents@.len() == commit.parents@.len()
            &&& forall|j: int|
                0 <= j < commit.parents@.len() ==> (#[trigger] entry.parents@[j])@ == oid_of(
                    commit.parents@[j]@,
                )
        } by {
            let entry = graph@[i];
            let parents = oid_texts(entry.parents@);
            assert(entry@ == graph_view(wanted[i]));
            assert(entry@.parents == parents && parents.len() == entry.parents@.len());
            assert forall|j: int| 0 <= j < wanted[i].parents@.len() implies (
            #[trigger] entry.parents@[j])@ == oid_of(wanted[i].parents@[j]@) by {
                assert(parents[j] == entry.parents@[j]@);
            }
        }
        Ok(graph)
    }
}

/// What a search looks at in a commit: its revision, its author and its message.
pub open spec fn search_text(commit: HistoryCommit) -> Seq<char> {
    commit.id@ + seq![' '] + commit.author_name@ + seq![' '] + commit.author_email@ + seq![' ']
        + commit.message@
}

/// Whether a search for `query` finds a text. An empty query finds every text.
pub open spec fn found(text: Seq<char>, query: Seq<char>, case_sensitive: bool) -> bool {
    query.len() == 0 || if case_sensitive {
        occurs_in(text, query)
    } else {
        occurs_in(lowercase(text), lowercase(query))
    }
}

/// The identifiers of the commits that a search finds, in the order of the commits.
pub open spec fn found_in(
    commits: Seq<HistoryCommit>,
    query: Seq<char>,
    case_sensitive: bool,
) -> Seq<Seq<char>>
    decreases commits.len(),
{
    if commits.len() == 0 {
        Seq::empty()
    } else {
        let before = found_in(commits.drop_last(), query, case_sensitive);
        if found(search_text(commits.last()), query, case_sensitive) {
            before.push(oid_of(commits.last().id@))
        } else {
            before
        }
    }
}

/// Whether a search for `query` finds a text.
pub fn text_is_found(text: &str, query: &str, case_sensitive: bool) -> (is_found: bool)
    ensures
        is_found == found(text@, query@, case_sensitive),
{
    if query.is_empty() {
        true
    } else if case_sensitive {
        contains_text(text, query)
    } else {
        contains_text(&lowercase_text(text), &lowercase_text(query))
    }
}

/// Once listed commits are kept, each of their revisions is known by its identifier, and whatever
/// was known before is known still.
pub proof fn law_kept_commits_are_known(known: Known, commits: Seq<HistoryCommit>)
    ensures
        keeps(known.revisions, caching_all(known, commits).0.revisions),
        caching_all(known, commits).1 is None ==> forall|i: int|
            0 <= i < commits.len() ==> knows(
                caching_all(known, commits).0.revisions,
                (#[trigger] commits[i]).id@,
            ),
    decreases commits.len(),
{
    if commits.len() > 0 {
        let names = named_revisions(commits[0]);
        let (after, problem) = caching(known, commits[0]);
        law_recording_keeps_meanings(known.revisions, names);
        let rest = commits.skip(1);
        let last = caching_all(known, commits).0.revisions;
        if problem is None {
            law_kept_commits_are_known(after, rest);
            assert(names[0] == commits[0].id@);
            assert(knows(after.revisions, names[0]));
            assert(after.revisions.contains_key(oid_of(names[0])));
            assert forall|oid: Seq<char>| #[trigger] known.revisions.contains_key(oid) implies
                last.contains_key(oid) && last[oid] == known.revisions[oid] by {
                assert(after.revisions.contains_key(oid));
            }
            assert forall|i: int|
                0 <= i < commits.len() && caching_all(after, rest).1 is None implies knows(
                last,
                (#[trigger] commits[i]).id@,
            ) by {
                if i > 0 {
                    assert(rest[i - 1] == commits[i]);
                }
            }
        }
    }
}

impl ExternalRepository {
    /// Takes the commits of a source, keeps them, and finds those that hold `query`.
    pub fn search_commits(
        &mut self,
        query: &str,
        case_sensitive: bool,
        reply: Result<History, VcsError>,
    ) -> (matches: Result<Vec<Oid>, VcsError>)
        ensures
            final(self).differs_in_knowledge(old(self)),
            match accepted_history(reply) {
                Err(error) => matches == Err::<Vec<Oid>, VcsError>(error) && final(self).known()
                    == old(self).known(),
                Ok(listed) => {
                    &&& final(self).known() == caching_all(old(self).known(), listed).0
                    &&& match caching_all(old(self).known(), listed).1 {
                        Some(problem) => matches == Err::<Vec<Oid>, VcsError>(problem),
                        None => matches matches Ok(oids) && oid_texts(oids@) == found_in(
                            listed,
                            query@,
                            case_sensitive,
                        ),
                    }
                },
            },
            old(self).wf() ==> final(self).wf(),
    {
        let commits: Vec<CommitData> = self.history_for_source(reply)?;
        let ghost listed = accepted_history(reply)->Ok_0;
        let ghost wanted = listed.map_values(|commit: HistoryCommit| commit_view(commit));
        proof {
            law_kept_commits_are_known(old(self).known(), listed);
        }
        let mut oids: Vec<Oid> = Vec::new();
        let mut i: usize = 0;
        assert(listed.take(0) =~= Seq::<HistoryCommit>::empty());
        assert(oid_texts(oids@) =~= Seq::<Seq<char>>::empty());
        assert(commit_views(commits@).len() == listed.len());
        while i < commits.len()
            invariant
                i <= commits@.len() == listed.len(),
                commit_views(commits@) == wanted,
                wanted == listed.map_values(|commit: HistoryCommit| commit_view(commit)),
                forall|j: int|
                    0 <= j < listed.len() ==> valid_oid(oid_of((#[trigger] listed[j]).id@))
                        && knows(self.known().revisions, listed[j].id@),
                oid_texts(oids@) == found_in(listed.take(i as int), query@, case_sensitive),
                accepted_history(reply) == Ok::<Seq<HistoryCommit>, VcsError>(listed),
                caching_all(old(self).known(), listed).1 is None,
            decreases commits@.len() - i,
        {
            let commit: &CommitData = &commits[i];
            assert(commit@ == wanted[i as int]) by {
                assert(commit_views(commits@)[i as int] == commits@[i as int]@);
            }
            proof {
                reveal_strlit("HEAD");
                law_oids_are_valid(oid_of(listed[i as int].id@), Seq::new(16, |k: int| 0u8));
            }
            let revision: String = self.revision(&commit.sha.text())?;
            assert(revision@ == listed[i as int].id@);
            let mut text: String = revision;
            text.push(' ');
            text.append(&commit.author_name);
            text.push(' ');
            text.append(&commit.author_email);
            text.push(' ');
            text.append(&commit.message);
            assert(text@ == search_text(listed[i as int]));
            let ghost before = oid_texts(oids@);
            if text_is_found(&text, query, case_sensitive) {
                oids.push(commit.sha.copy());
                assert(oid_texts(oids@) =~= before.push(commit@.sha));
            }
            i += 1;
            assert(listed.take(i as int).drop_last() =~= listed.take(i - 1));
        }
        assert(listed.take(i as int) == listed);
        Ok(oids)
    }
}

/// What is shown of one commit.
#[derive(Debug)]
pub struct CommitDetails {
    pub sha: String,
    pub message: String,
    pub commit_timestamp: i64,
    pub author_email: String,
    pub author_name: String,
}

/// What the details of a commit say.
#[verifier::ext_equal]
pub struct DetailsView {
    pub sha: Seq<char>,
    pub message: Seq<char>,
    pub commit_timestamp: i64,
    pub author_email: Seq<char>,
    pub author_name: Seq<char>,
}

impl View for CommitDetails {
    type V = DetailsView;

    open spec fn view(&self) -> DetailsView {
        DetailsView {
            sha: self.sha@,
            message: self.message@,
            commit_timestamp: self.commit_timestamp,
            author_email: self.author_email@,
            author_name: self.author_name@,
        }
    }
}

/// What is shown of a commit.
pub open spec fn details_of(commit: CommitView) -> DetailsView {
    DetailsView {
        sha: commit.sha,
        message: commit.message,
        commit_timestamp: commit.commit_timestamp,
        author_email: commit.author_email,
        author_name: commit.author_name,
    }
}

/// What is shown of the current revision where there is no history.
pub open spec fn bare_details(head: Option<Seq<char>>) -> DetailsView {
    DetailsView {
        sha: match head {
            Some(revision) => revision,
            None => Seq::empty(),
        },
        message: Seq::empty(),
        commit_timestamp: 0,
        author_email: Seq::empty(),
        author_name: Seq::empty(),
    }
}

/// What a commit that is to be shown needs next, or what is shown.
#[derive(Debug)]
pub enum ShowStep {
    /// Nothing: this is shown.
    Details(CommitDetails),
    /// The answer to a request for the commit of this revision.
    Fetch(String, Request),
}

/// What a step says.
#[verifier::ext_equal]
pub enum ShowView {
    Details(DetailsView),
    Fetch(Seq<char>, RequestView),
}

impl View for ShowStep {
    type V = ShowView;

    open spec fn view(&self) -> ShowView {
        match *self {
            ShowStep::Details(details) => ShowView::Details(details@),
            ShowStep::Fetch(revision, request) => ShowView::Fetch(revision@, request@),
        }
    }
}

impl ExternalRepository {
    /// How a commit of the history is shown: the one that is kept, or else the provider's.
    pub open spec fn show_listed(&self, revision: Seq<char>) -> Result<ShowView, VcsError> {
        let known = self.known();
        if known.history.contains_key(oid_of(revision)) {
            Ok(ShowView::Details(details_of(known.history[oid_of(revision)])))
        } else {
            match revision_request_problem(self.client.capabilities, revision) {
                Some(problem) => Err(problem),
                None => Ok(
                    ShowView::Fetch(
                        revision,
                        RequestView::CommitDetails {
                            repository: self.client.repository.id@,
                            revision,
                        },
                    ),
                ),
            }
        }
    }

    /// How a commit is shown, and what revisions are known from here on.
    pub open spec fn show_step(&self, commit: Seq<char>) -> (
        Map<Seq<char>, Seq<char>>,
        Result<ShowView, VcsError>,
    ) {
        let revisions = self.known().revisions;
        if !self.trusted {
            (revisions, Err(VcsError::Untrusted))
        } else if !self.client.capabilities.history {
            (
                revisions,
                if commit == "HEAD"@ {
                    Ok(ShowView::Details(bare_details(self.head())))
                } else {
                    Err(VcsError::HistoryUnsupported)
                },
            )
        } else {
            match resolved(revisions, self.head(), commit) {
                Err(error) => (revisions, Err(error)),
                Ok(revision) => match recorded(revisions, revision) {
                    Err(error) => (revisions, Err(error)),
                    Ok(after) => (after, self.show_listed(revision)),
                },
            }
        }
    }

    /// Shows a commit, or asks the provider for it.
    pub fn show(&mut self, commit: &str) -> (step: Result<ShowStep, VcsError>)
        ensures
            final(self).differs_in_knowledge(old(self)),
            final(self).known().history == old(self).known().history,
            final(self).known().revisions == old(self).show_step(commit@).0,
            match old(self).show_step(commit@).1 {
                Ok(view) => step matches Ok(step) && step@ == view,
                Err(error) => step == Err::<ShowStep, VcsError>(error),
            },
            old(self).wf() ==> final(self).wf(),
    {
        self.ensure_trusted()?;
        if !self.client.capabilities.history {
            if !same_text(commit, "HEAD") {
                return Err(VcsError::HistoryUnsupported);
            }
            let details: CommitDetails = CommitDetails {
                sha: match &self.client.snapshot.revision {
                    Some(revision) => revision.clone(),
                    None => String::new(),
                },
                message: String::new(),
                commit_timestamp: 0,
                author_email: String::new(),
                author_name: String::new(),
            };
            assert(details@ == bare_details(self.head()));
            return Ok(ShowStep::Details(details));
        }
        let revision: String = self.revision(commit)?;
        let oid: Oid = self.oid(&revision)?;
        match self.history.get(&oid.hex) {
            Some(data) => {
                assert(self.known().history.contains_key(oid@));
                Ok(ShowStep::Details(data.details()))
            },
            None => {
                assert(!self.known().history.contains_key(oid@));
                let request: Request = self.client.commit_details_request(&revision)?;
                Ok(ShowStep::Fetch(revision, request))
            },
        }
    }

    /// Takes the commit that was asked for, keeps it and shows it.
    pub fn shown(&mut self, revision: &str, reply: Result<HistoryCommit, VcsError>) -> (details:
        Result<CommitDetails, VcsError>)
        ensures
            final(self).differs_in_knowledge(old(self)),
            match accepted_commit(reply, revision@) {
                Err(error) => details == Err::<CommitDetails, VcsError>(error)
                    && final(self).known() == old(self).known(),
                Ok(commit) => {
                    &&& final(self).known() == caching(old(self).known(), commit).0
                    &&& match caching(old(self).known(), commit).1 {
                        Some(problem) => details == Err::<CommitDetails, VcsError>(problem),
                        None => details matches Ok(details) && details@ == details_of(
                            commit_view(commit),
                        ),
                    }
                },
            },
            old(self).wf() ==> final(self).wf(),
    {
        let commit: HistoryCommit = self.client.commit_details(revision, reply)?;
        let data: CommitData = self.cache_commit(commit)?;
        Ok(data.details())
    }
}

impl CommitData {
    /// What is shown of this commit.
    pub fn details(&self) -> (details: CommitDetails)
        ensures
            details@ == details_of(self@),
    {
        CommitDetails {
            sha: self.sha.text(),
            message: self.message.clone(),
            commit_timestamp: self.commit_timestamp,
            author_email: self.author_email.clone(),
            author_name: self.author_name.clone(),
        }
    }
}

/// The commit of an answer, or its error, or what is wrong with it.
pub open spec fn accepted_commit(
    reply: Result<HistoryCommit, VcsError>,
    revision: Seq<char>,
) -> Result<HistoryCommit, VcsError> {
    match reply {
        Err(error) => Err(error),
        Ok(commit) => match commit_details_problem(commit, revision) {
            Some(problem) => Err(problem),
            None => Ok(commit),
        },
    }
}

/// The full identifier that a name stands for, if it is known, and what revisions are known then.
pub open spec fn parsed_name(
    revisions: Map<Seq<char>, Seq<char>>,
    head: Option<Seq<char>>,
    has_history: bool,
    name: Seq<char>,
) -> (Map<Seq<char>, Seq<char>>, Result<Option<Seq<char>>, VcsError>) {
    if name == "HEAD"@ {
        match head {
            Some(revision) if has_history => match recorded(revisions, revision) {
                Ok(after) => (after, Ok(Some(oid_of(revision)))),
                Err(error) => (revisions, Err(error)),
            },
            _ => (revisions, Ok(head)),
        }
    } else {
        match parsed_oid(name) {
            Some(oid) if revisions.contains_key(oid) => (revisions, Ok(Some(oid))),
            _ => (revisions, Ok(None)),
        }
    }
}

/// The full identifiers that some names stand for, each given what is known after those before it.
pub open spec fn parsed_names(
    revisions: Map<Seq<char>, Seq<char>>,
    head: Option<Seq<char>>,
    has_history: bool,
    names: Seq<Seq<char>>,
) -> (Map<Seq<char>, Seq<char>>, Result<Seq<Option<Seq<char>>>, VcsError>)
    decreases names.len(),
{
    if names.len() == 0 {
        (revisions, Ok(Seq::empty()))
    } else {
        match parsed_name(revisions, head, has_history, names[0]) {
            (after, Err(error)) => (after, Err(error)),
            (after, Ok(first)) => preceded(
                seq![first],
                parsed_names(after, head, has_history, names.skip(1)),
            ),
        }
    }
}

/// Some results with others before them.
pub open spec fn preceded(
    before: Seq<Option<Seq<char>>>,
    rest: (Map<Seq<char>, Seq<char>>, Result<Seq<Option<Seq<char>>>, VcsError>),
) -> (Map<Seq<char>, Seq<char>>, Result<Seq<Option<Seq<char>>>, VcsError>) {
    (
        rest.0,
        match rest.1 {
            Ok(names) => Ok(before + names),
            Err(error) => Err(error),
        },
    )
}

/// What some texts hold, where there are any.
pub open spec fn optional_views(texts: Seq<Option<String>>) -> Seq<Option<Seq<char>>> {
    texts.map_values(|text: Option<String>| optional_view(text))
}

impl ExternalRepository {
    /// Finds the full identifier that a name stands for.
    fn revparse(&mut self, name: &str) -> (oid: Result<Option<String>, VcsError>)
        ensures
            final(self).differs_in_knowledge(old(self)),
            final(self).known().history == old(self).known().history,
            ({
                let (revisions, parsed) = parsed_name(
                    old(self).known().revisions,
                    old(self).head(),
                    old(self).client.capabilities.history,
                    name@,
                );
                &&& final(self).known().revisions == revisions
                &&& match parsed {
                    Ok(parsed) => oid matches Ok(oid) && optional_view(oid) == parsed,
                    Err(error) => oid == Err::<Option<String>, VcsError>(error),
                }
            }),
            old(self).wf() ==> final(self).wf(),
    {
        if same_text(name, "HEAD") {
            let head: Option<String> = match &self.client.snapshot.revision {
                Some(revision) => Some(revision.clone()),
                None => None,
            };
            if !self.client.capabilities.history {
                return Ok(head);
            }
            return match head {
                Some(revision) => {
                    let oid: Oid = self.oid(&revision)?;
                    Ok(Some(oid.text()))
                },
                None => Ok(None),
            };
        }
        match Oid::parse(name) {
            Some(oid) => match self.revisions.get(&oid) {
                Some(_) => Ok(Some(oid.text())),
                None => Ok(None),
            },
            None => Ok(None),
        }
    }

    /// Finds the full identifiers that some names stand for.
    pub fn revparse_batch(&mut self, names: &Vec<String>) -> (oids: Result<
        Vec<Option<String>>,
        VcsError,
    >)
        ensures
            final(self).differs_in_knowledge(old(self)),
            final(self).known().history == old(self).known().history,
            !old(self).trusted ==> final(self).known() == old(self).known() && oids == Err::<
                Vec<Option<String>>,
                VcsError,
            >(VcsError::Untrusted),
            old(self).trusted ==> ({
                let (revisions, parsed) = parsed_names(
                    old(self).known().revisions,
                    old(self).head(),
                    old(self).client.capabilities.history,
                    views(names@),
                );
                &&& final(self).known().revisions == revisions
                &&& match parsed {
                    Ok(parsed) => oids matches Ok(oids) && optional_views(oids@) == parsed,
                    Err(error) => oids == Err::<Vec<Option<String>>, VcsError>(error),
                }
            }),
            old(self).wf() ==> final(self).wf(),
    {
        self.ensure_trusted()?;
        let ghost head = self.head();
        let ghost has_history = self.client.capabilities.history;
        let ghost all = views(names@);
        let ghost whole = parsed_names(self.known().revisions, head, has_history, all);
        let mut oids: Vec<Option<String>> = Vec::new();
        let mut i: usize = 0;
        proof {
            assert(all.skip(0) =~= all);
            lemma_preceded_by_nothing(optional_views(oids@), whole);
        }
        while i < names.len()
            invariant
                i <= names@.len(),
                all == views(names@),
                self.differs_in_knowledge(old(self)),
                self.known().history == old(self).known().history,
                self.head() == head,
                old(self).head() == head,
                self.client.capabilities.history == has_history,
                old(self).client.capabilities.history == has_history,
                whole == parsed_names(old(self).known().revisions, head, has_history, all),
                whole == preceded(
                    optional_views(oids@),
                    parsed_names(
                        self.known().revisions,
                        head,
                        has_history,
                        all.skip(i as int),
                    ),
                ),
                old(self).trusted,
                old(self).wf() ==> self.wf(),
            decreases names@.len() - i,
        {
            assert(all.skip(i as int)[0] == names@[i as int]@);
            assert(all.skip(i as int).skip(1) =~= all.skip(i + 1));
            let ghost before = optional_views(oids@);
            let oid: Option<String> = self.revparse(&names[i])?;
            oids.push(oid);
            assert(optional_views(oids@) =~= before.push(optional_view(oid)));
            i += 1;
            proof {
                lemma_preceded_in_turn(
                    before,
                    optional_view(oid),
                    parsed_names(self.known().revisions, head, has_history, all.skip(i as int)),
                );
            }
        }
        assert(optional_views(oids@) + Seq::<Option<Seq<char>>>::empty() =~= optional_views(oids@));
        Ok(oids)
    }
}

proof fn lemma_preceded_by_nothing(
    nothing: Seq<Option<Seq<char>>>,
    rest: (Map<Seq<char>, Seq<char>>, Result<Seq<Option<Seq<char>>>, VcsError>),
)
    requires
        nothing.len() == 0,
    ensures
        preceded(nothing, rest) == rest,
{
    if let Ok(names) = rest.1 {
        assert(nothing + names =~= names);
    }
}

proof fn lemma_preceded_in_turn(
    before: Seq<Option<Seq<char>>>,
    next: Option<Seq<char>>,
    rest: (Map<Seq<char>, Seq<char>>, Result<Seq<Option<Seq<char>>>, VcsError>),
)
    ensures
        preceded(before, preceded(seq![next], rest)) == preceded(before.push(next), rest),
{
    if let Ok(names) = rest.1 {
        assert(before + (seq![next] + names) =~= before.push(next) + names);
    }
}

/// Reads the commits that are kept.
pub struct CommitDataReader<'a> {
    pub cache: &'a StringHashMap<CommitData>,
}

impl<'a> CommitDataReader<'a> {
    /// The commit of an identifier, if it is kept.
    pub fn read(&self, oid: &Oid) -> (commit: Option<&'a CommitData>)
        ensures
            match commit {
                Some(commit) => self.cache@.contains_key(oid@) && *commit == self.cache@[oid@],
                None => !self.cache@.contains_key(oid@),
            },
    {
        self.cache.get(&oid.hex)
    }
}

impl ExternalRepository {
    /// A reader of the commits that are kept.
    pub fn commit_data_reader(&self) -> (reader: Result<CommitDataReader<'_>, VcsError>)
        ensures
            match reader {
                Ok(reader) => self.trusted && self.client.capabilities.history && *reader.cache
                    == self.history,
                Err(error) => if !self.trusted {
                    error == VcsError::Untrusted
                } else {
                    !self.client.capabilities.history && error == VcsError::HistoryUnsupported
                },
            },
    {
        self.ensure_trusted()?;
        if !self.client.capabilities.history {
            return Err(VcsError::HistoryUnsupported);
        }
        Ok(CommitDataReader { cache: &self.history })
    }
}

/// A commit that is kept is shown from then on without asking the provider, by its identifier as
/// the history view has it.
pub proof fn law_kept_commit_is_shown(
    repository: ExternalRepository,
    before: Known,
    commit: HistoryCommit,
)
    requires
        repository.trusted,
        repository.client.capabilities.history,
        caching(before, commit).1 is None,
        repository.known() == caching(before, commit).0,
        valid_oid(oid_of(commit.id@)),
    ensures
        repository.show_step(oid_of(commit.id@)).1 == Ok::<ShowView, VcsError>(
            ShowView::Details(details_of(commit_view(commit))),
        ),
        repository.show_step(oid_of(commit.id@)).0 == repository.known().revisions,
{
    let names = named_revisions(commit);
    let oid = oid_of(commit.id@);
    law_recording_keeps_meanings(before.revisions, names);
    assert(names[0] == commit.id@);
    assert(knows(repository.known().revisions, names[0]));
    reveal_strlit("HEAD");
    law_oids_are_valid(oid, Seq::new(16, |i: int| 0u8));
    assert(repository.known().revisions.insert(oid, commit.id@) =~= repository.known().revisions);
}

/// A graph shows every listed commit, in the order that is wanted, with each of its parents, in
/// their order and by their identifiers.
pub proof fn law_graphs_show_every_parent(listed: Seq<HistoryCommit>, order: LogOrder)
    ensures
        ({
            let graph = in_log_order(listed, order).map_values(
                |commit: HistoryCommit| graph_view(commit),
            );
            &&& graph.len() == listed.len()
            &&& forall|i: int|
                0 <= i < listed.len() ==> {
                    let at = if order is AsListed {
                        i
                    } else {
                        listed.len() - 1 - i
                    };
                    &&& (#[trigger] graph[i]).sha == oid_of(listed[at].id@)
                    &&& graph[i].parents.len() == listed[at].parents@.len()
                    &&& forall|j: int|
                        0 <= j < listed[at].parents@.len() ==> #[trigger] graph[i].parents[j]
                            == oid_of(listed[at].parents@[j]@)
                    &&& graph[i].ref_names.len() == 0
                }
        }),
{
}

/// The two orders of a history view are each other's reverse.
pub proof fn law_log_orders_are_reverses(listed: Seq<HistoryCommit>)
    ensures
        in_log_order(listed, LogOrder::AsListed) == listed,
        in_log_order(listed, LogOrder::ReverseChronological).len() == listed.len(),
        forall|i: int|
            0 <= i < listed.len() ==> #[trigger] in_log_order(
                listed,
                LogOrder::ReverseChronological,
            )[i] == listed[listed.len() - 1 - i],
{
}

/// A search goes through the commits one by one, and what it finds comes in their order.
pub proof fn law_searches_go_commit_by_commit(
    first: Seq<HistoryCommit>,
    rest: Seq<HistoryCommit>,
    query: Seq<char>,
    case_sensitive: bool,
)
    ensures
        found_in(Seq::empty(), query, case_sensitive) == Seq::<Seq<char>>::empty(),
        found_in(first + rest, query, case_sensitive) == found_in(first, query, case_sensitive)
            + found_in(rest, query, case_sensitive),
    decreases rest.len(),
{
    let found_first = found_in(first, query, case_sensitive);
    if rest.len() == 0 {
        assert(first + rest =~= first);
        assert(found_first + Seq::<Seq<char>>::empty() =~= found_first);
    } else {
        assert((first + rest).drop_last() =~= first + rest.drop_last());
        assert((first + rest).last() == rest.last());
        law_searches_go_commit_by_commit(first, rest.drop_last(), query, case_sensitive);
        assert(found_in(first + rest, query, case_sensitive) =~= found_first + found_in(
            rest,
            query,
            case_sensitive,
        ));
    }
}

/// Whether a text is made of something, `needle` and something else.
pub open spec fn stands_in(text: Seq<char>, needle: Seq<char>) -> bool {
    exists|before: Seq<char>, after: Seq<char>| text == #[trigger] (before + needle + after)
}

/// A search finds a commit exactly where the query is empty or stands somewhere in the revision, the
/// name of the author, their address and the whole message, in this order and with a space between
/// each two; without regard to case, where it does so after both were put in lower case.
pub proof fn law_searches_look_at_all_of_a_commit(
    commit: HistoryCommit,
    query: Seq<char>,
    case_sensitive: bool,
)
    ensures
        ({
            let text = commit.id@ + seq![' '] + commit.author_name@ + seq![' ']
                + commit.author_email@ + seq![' '] + commit.message@;
            let looked_at = if case_sensitive {
                text
            } else {
                lowercase(text)
            };
            let looked_for = if case_sensitive {
                query
            } else {
                lowercase(query)
            };
            found_in(seq![commit], query, case_sensitive) == if query.len() == 0 || stands_in(
                looked_at,
                looked_for,
            ) {
                seq![oid_of(commit.id@)]
            } else {
                Seq::empty()
            }
        }),
{
    let text = commit.id@ + seq![' '] + commit.author_name@ + seq![' '] + commit.author_email@
        + seq![' '] + commit.message@;
    law_what_occurs_stands_between(text, query);
    law_what_occurs_stands_between(lowercase(text), lowercase(query));
    reveal_with_fuel(found_in, 2);
    assert(seq![commit].drop_last() =~= Seq::<HistoryCommit>::empty());
    assert(seq![commit].last() == commit);
    assert(Seq::<Seq<char>>::empty().push(oid_of(commit.id@)) =~= seq![oid_of(commit.id@)]);
}

/// Whether a text is one of those that a search looks at in a commit.
pub open spec fn is_part(commit: HistoryCommit, part: Seq<char>) -> bool {
    ||| part == commit.id@
    ||| part == commit.author_name@
    ||| part == commit.author_email@
    ||| part == commit.message@
}

/// A commit is among those found where its revision, the name of its author, their address or its
/// message holds the query. So it is without regard to case where the lower case of one of them holds
/// the lower case of the query, as far as that of the commit's whole text holds that of its parts.
pub proof fn law_commits_are_found_by_each_part(
    commits: Seq<HistoryCommit>,
    i: int,
    part: Seq<char>,
    query: Seq<char>,
)
    requires
        0 <= i < commits.len(),
        is_part(commits[i], part),
    ensures
        occurs_in(part, query) ==> found_in(commits, query, true).contains(
            oid_of(commits[i].id@),
        ),
        ({
            let commit = commits[i];
            let whole = commit.id@ + seq![' '] + commit.author_name@ + seq![' ']
                + commit.author_email@ + seq![' '] + commit.message@;
            occurs_in(lowercase(part), lowercase(query)) && occurs_in(
                lowercase(whole),
                lowercase(part),
            ) ==> found_in(commits, query, false).contains(oid_of(commit.id@))
        }),
{
    let commit = commits[i];
    let text = search_text(commit);
    let space = seq![' '];
    let (id, name, email, message) = (
        commit.id@,
        commit.author_name@,
        commit.author_email@,
        commit.message@,
    );
    law_what_occurs_stands_between(text, part);
    if part == id {
        let after = space + name + space + email + space + message;
        assert(text =~= Seq::<char>::empty() + part + after);
    } else if part == name {
        assert(text =~= (id + space) + part + (space + email + space + message));
    } else if part == email {
        assert(text =~= (id + space + name + space) + part + (space + message));
    } else {
        let before = id + space + name + space + email + space;
        assert(text =~= before + part + Seq::<char>::empty());
    }
    if occurs_in(part, query) {
        law_occurrence_is_transitive(text, part, query);
        lemma_found_commit_is_listed(commits, i, query, true);
    }
    if occurs_in(lowercase(part), lowercase(query)) && occurs_in(lowercase(text), lowercase(part)) {
        law_occurrence_is_transitive(lowercase(text), lowercase(part), lowercase(query));
        lemma_found_commit_is_listed(commits, i, query, false);
    }
}

proof fn lemma_found_commit_is_listed(
    commits: Seq<HistoryCommit>,
    i: int,
    query: Seq<char>,
    case_sensitive: bool,
)
    requires
        0 <= i < commits.len(),
        found(search_text(commits[i]), query, case_sensitive),
    ensures
        found_in(commits, query, case_sensitive).contains(oid_of(commits[i].id@)),
    decreases commits.len(),
{
    let before = found_in(commits.drop_last(), query, case_sensitive);
    let oids = found_in(commits, query, case_sensitive);
    if i == commits.len() - 1 {
        assert(oids.last() == oid_of(commits[i].id@));
    } else {
        assert(commits.drop_last()[i] == commits[i]);
        lemma_found_commit_is_listed(commits.drop_last(), i, query, case_sensitive);
        let at = choose|at: int|
            0 <= at < before.len() && before[at] == oid_of(commits[i].id@);
        assert(oids[at] == before[at]);
    }
}

/// What is shown of a commit of a provider: its identifier, its author, its time and its whole
/// message.
pub proof fn law_details_tell_of_the_commit(commit: HistoryCommit, head: Option<Seq<char>>)
    ensures
        ({
            let details = details_of(commit_view(commit));
            &&& details.sha == oid_of(commit.id@)
            &&& details.message == commit.message@
            &&& details.commit_timestamp == commit.timestamp
            &&& details.author_email == commit.author_email@
            &&& details.author_name == commit.author_name@
        }),
        ({
            let details = bare_details(head);
            &&& head matches Some(revision) ==> details.sha == revision
            &&& head is None ==> details.sha.len() == 0
            &&& details.message.len() == 0
            &&& details.commit_timestamp == 0
            &&& details.author_email.len() == 0
            &&& details.author_name.len() == 0
        }),
{
}

/// A commit that is not kept is asked for by the revision that its name stands for, which is known
/// from then on; nothing is shown by a repository that is not trusted, nor without history but the
/// current revision.
pub proof fn law_commits_are_asked_for_where_not_kept(
    repository: ExternalRepository,
    name: Seq<char>,
)
    ensures
        ({
            let (revisions, step) = repository.show_step(name);
            let known = repository.known();
            let meant = resolved(known.revisions, repository.head(), name);
            &&& !repository.trusted ==> step == Err::<ShowView, VcsError>(VcsError::Untrusted)
            &&& !repository.trusted || !repository.client.capabilities.history ==> revisions
                == known.revisions
            &&& repository.trusted && !repository.client.capabilities.history ==> {
                &&& step is Ok <==> name == "HEAD"@
                &&& step matches Ok(shown) ==> shown == ShowView::Details(
                    bare_details(repository.head()),
                )
                &&& step matches Err(error) ==> error == VcsError::HistoryUnsupported
            }
            &&& repository.trusted && repository.client.capabilities.history ==> {
                &&& meant matches Err(error) ==> step == Err::<ShowView, VcsError>(error)
                &&& step matches Ok(shown) ==> meant is Ok && knows(revisions, meant->Ok_0)
                &&& step matches Ok(shown) ==> if known.history.contains_key(oid_of(meant->Ok_0)) {
                    shown == ShowView::Details(
                        details_of(known.history[oid_of(meant->Ok_0)]),
                    )
                } else {
                    &&& valid_revision(meant->Ok_0)
                    &&& shown == ShowView::Fetch(
                        meant->Ok_0,
                        RequestView::CommitDetails {
                            repository: repository.client.repository.id@,
                            revision: meant->Ok_0,
                        },
                    )
                }
            }
        }),
{
}

/// A history view asks for the history of the current revision, or of the revision that an
/// identifier stands for, and of a path only where it is about one.
pub proof fn law_sources_ask_for_their_own(
    repository: ExternalRepository,
    branch: String,
    oid: Oid,
    path: String,
)
    ensures
        ({
            let all = repository.history_source(LogSource::All);
            let of_branch = repository.history_source(LogSource::Branch(branch));
            let of_oid = repository.history_source(LogSource::Sha(oid));
            let of_path = repository.history_source(LogSource::Path(path));
            let is_open = repository.trusted && repository.head() is Some;
            &&& all is Ok <==> is_open
            &&& of_path is Ok <==> is_open
            &&& of_branch is Ok <==> is_open && branch@ == repository.current_branch()
            &&& of_oid is Ok <==> is_open
            &&& all matches Ok((revision, about)) ==> Some(revision) == repository.head()
                && about is None
            &&& of_branch matches Ok((revision, about)) ==> Some(revision) == repository.head()
                && about is None
            &&& of_path matches Ok((revision, about)) ==> Some(revision) == repository.head()
                && about == Some(path@)
            &&& of_oid matches Ok((revision, about)) ==> about is None && resolved(
                repository.known().revisions,
                repository.head(),
                oid@,
            ) == Ok::<Seq<char>, VcsError>(revision)
            &&& !repository.trusted ==> all == Err::<
                (Seq<char>, Option<Seq<char>>),
                VcsError,
            >(VcsError::Untrusted)
        }),
{
}

/// Names are looked up in turn, one group after another.
pub proof fn law_names_are_looked_up_in_turn(
    revisions: Map<Seq<char>, Seq<char>>,
    head: Option<Seq<char>>,
    has_history: bool,
    first: Seq<Seq<char>>,
    rest: Seq<Seq<char>>,
)
    ensures
        ({
            let (after, found_first) = parsed_names(revisions, head, has_history, first);
            let (at_end, found_rest) = parsed_names(after, head, has_history, rest);
            let (whole_end, whole) = parsed_names(revisions, head, has_history, first + rest);
            &&& found_first matches Err(error) ==> whole == found_first && whole_end == after
            &&& found_first matches Ok(found_first) ==> {
                &&& whole_end == at_end
                &&& found_first.len() == first.len()
                &&& found_rest is Err ==> whole == found_rest
                &&& found_rest matches Ok(found_rest) ==> whole matches Ok(whole) && whole
                    == found_first + found_rest
            }
        }),
    decreases first.len(),
{
    if first.len() == 0 {
        assert(first + rest =~= rest);
        let (at_end, found_rest) = parsed_names(revisions, head, has_history, rest);
        if let Ok(found_rest) = found_rest {
            assert(Seq::<Option<Seq<char>>>::empty() + found_rest =~= found_rest);
        }
    } else {
        assert((first + rest)[0] == first[0]);
        assert((first + rest).skip(1) =~= first.skip(1) + rest);
        let (after, name) = parsed_name(revisions, head, has_history, first[0]);
        if let Ok(name) = name {
            law_names_are_looked_up_in_turn(after, head, has_history, first.skip(1), rest);
            let (later, more) = parsed_names(after, head, has_history, first.skip(1));
            let (at_end, found_rest) = parsed_names(later, head, has_history, rest);
            if let Ok(more) = more {
                if let Ok(found_rest) = found_rest {
                    assert(seq![name] + (more + found_rest) =~= seq![name] + more + found_rest);
                }
            }
        }
    }
}

/// `HEAD` stands for the current revision, by its identifier where there is history, and is known
/// then. Any other name stands for itself in lower case where it is the identifier of a known
/// revision, and for nothing otherwise.
pub proof fn law_names_are_known_identifiers(
    revisions: Map<Seq<char>, Seq<char>>,
    head: Option<Seq<char>>,
    has_history: bool,
    name: Seq<char>,
)
    ensures
        ({
            let (after, parsed) = parsed_name(revisions, head, has_history, name);
            &&& name != "HEAD"@ || head is None || !has_history ==> after == revisions
                && parsed is Ok
            &&& name != "HEAD"@ ==> {
                &&& parsed->Ok_0 is Some <==> parsed_oid(name) is Some && revisions.contains_key(
                    parsed_oid(name)->0,
                )
                &&& parsed->Ok_0 is Some ==> parsed->Ok_0 == parsed_oid(name)
            }
            &&& name == "HEAD"@ && head is None ==> parsed->Ok_0 is None
            &&& name == "HEAD"@ && head is Some && !has_history ==> parsed->Ok_0 == head
            &&& name == "HEAD"@ && head is Some && has_history ==> match parsed {
                Ok(oid) => oid == Some(oid_of(head->0)) && knows(after, head->0) && keeps(
                    revisions,
                    after,
                ),
                Err(error) => after == revisions && error == VcsError::RevisionCollision
                    && !knows(revisions, head->0),
            }
        }),
{
}

/// Listed commits are taken as they came, exactly where there are at most 200 and nothing is wrong
/// with them, and a single one exactly where nothing is wrong with it and it is the one that was
/// asked for.
pub proof fn law_commits_are_taken_as_they_came(
    reply: Result<History, VcsError>,
    single: Result<HistoryCommit, VcsError>,
    revision: Seq<char>,
)
    ensures
        accepted_history(reply) is Ok <==> reply is Ok && history_problem(
            reply->Ok_0,
            200,
        ) is None,
        accepted_history(reply) matches Ok(listed) ==> listed == reply->Ok_0.commits@ && listed.len()
            <= 200,
        reply matches Err(error) ==> accepted_history(reply) == Err::<
            Seq<HistoryCommit>,
            VcsError,
        >(error),
        accepted_commit(single, revision) is Ok <==> single is Ok && commit_problem(
            single->Ok_0,
        ) is None && single->Ok_0.id@ == revision,
        accepted_commit(single, revision) matches Ok(commit) ==> single == Ok::<
            HistoryCommit,
            VcsError,
        >(commit),
        single matches Err(error) ==> accepted_commit(single, revision) == Err::<
            HistoryCommit,
            VcsError,
        >(error),
{
}

} // verus!
