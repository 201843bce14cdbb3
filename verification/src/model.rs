//! What a provider publishes, and the rules that it keeps.

use crate::error::VcsError;
use crate::path::{law_invalid_paths_are_refused, path_problem, valid_path, validate_path};
use crate::text::{has_char, has_control, is_control};
use vstd::hash_set::StringHashSet;
use vstd::prelude::*;
use vstd::utf8::encode_utf8;

verus! {

/// What a provider advertises when a session begins.
#[derive(Clone, Copy, Debug, PartialEq, Eq, Structural)]
pub struct Capabilities {
    pub read_only: bool,
    pub staging: bool,
    pub history: bool,
    pub branches: bool,
    pub tags: bool,
    pub tracking: bool,
    pub blame: bool,
    pub branch_diff: bool,
    pub permalinks: bool,
    pub diff_stats: bool,
    pub stashes: bool,
    pub worktrees: bool,
}

impl Default for Capabilities {
    fn default() -> (capabilities: Capabilities)
        ensures
            capabilities == (Capabilities {
                read_only: false,
                staging: false,
                history: false,
                branches: false,
                tags: false,
                tracking: false,
                blame: false,
                branch_diff: false,
                permalinks: false,
                diff_stats: false,
                stashes: false,
                worktrees: false,
            }),
    {
        Capabilities {
            read_only: false,
            staging: false,
            history: false,
            branches: false,
            tags: false,
            tracking: false,
            blame: false,
            branch_diff: false,
            permalinks: false,
            diff_stats: false,
            stashes: false,
            worktrees: false,
        }
    }
}

#[derive(Clone, Copy, Debug, PartialEq, Eq, Structural)]
pub enum ReferenceKind {
    Branch,
    RemoteBranch,
    Tag,
}

/// A named revision.
#[derive(Clone, Debug, PartialEq, Eq)]
pub struct Reference {
    pub name: String,
    pub kind: ReferenceKind,
    pub revision: String,
    pub upstream: Option<Tracking>,
    pub commit: Option<ReferenceCommit>,
}

/// What a reference points at.
#[derive(Clone, Debug, PartialEq, Eq)]
pub struct ReferenceCommit {
    pub timestamp: i64,
    pub subject: String,
    pub author_name: String,
}

/// The upstream of a local branch, and how far the two have moved apart.
#[derive(Clone, Debug, PartialEq, Eq)]
pub struct Tracking {
    pub name: String,
    pub gone: bool,
    pub ahead: Option<u32>,
    pub behind: Option<u32>,
}

/// The repository that a session is about.
#[derive(Clone, Debug, PartialEq, Eq)]
pub struct RepositoryInfo {
    pub id: String,
    pub root: String,
    pub label: String,
}

#[derive(Clone, Copy, Debug, PartialEq, Eq, Structural)]
pub enum ChangeKind {
    Unchanged,
    Modified,
    Added,
    Deleted,
    Renamed,
    Copied,
    TypeChanged,
    Untracked,
    Ignored,
    Conflicted,
}

impl Default for ChangeKind {
    fn default() -> (kind: ChangeKind)
        ensures
            kind == ChangeKind::Unchanged,
    {
        ChangeKind::Unchanged
    }
}

/// One changed file: in the working copy against the staging baseline, and there against the base.
#[derive(Clone, Debug, PartialEq, Eq)]
pub struct Change {
    pub path: String,
    pub status: ChangeKind,
    pub staged_status: ChangeKind,
    pub original_path: Option<String>,
}

/// A complete status of the repository, under a token that names it.
#[derive(Clone, Debug, PartialEq, Eq)]
pub struct Snapshot {
    pub snapshot: String,
    pub revision: Option<String>,
    pub branch: Option<String>,
    pub changes: Vec<Change>,
    pub references: Vec<Reference>,
}

/// The content references of a path: its base and its staging baseline.
#[derive(Clone, Debug, PartialEq, Eq)]
pub struct Comparison {
    pub path: String,
    pub base: Option<String>,
    pub index: Option<String>,
}

/// The most commits that one request may ask for.
pub const MAX_HISTORY_COMMITS: usize = 200;

#[derive(Clone, Debug, PartialEq, Eq)]
pub struct HistoryCommit {
    pub id: String,
    pub parents: Vec<String>,
    pub author_name: String,
    pub author_email: String,
    pub timestamp: i64,
    pub message: String,
}

#[derive(Debug, PartialEq, Eq)]
pub struct History {
    pub commits: Vec<HistoryCommit>,
    pub has_more: bool,
}

/// The content references of a path before and after a commit.
#[derive(Debug, PartialEq, Eq)]
pub struct CommitChange {
    pub path: String,
    pub base: Option<String>,
    pub target: Option<String>,
}

/// The longest name of a reference or a revision, in bytes.
pub const MAX_NAME_BYTES: usize = 4096;

/// A name that a reference may have.
pub open spec fn valid_reference_name(name: Seq<char>) -> bool {
    &&& name.len() > 0
    &&& encode_utf8(name).len() <= MAX_NAME_BYTES
    &&& forall|i: int| 0 <= i < name.len() ==> !is_control(#[trigger] name[i])
}

/// An identifier that a revision may have.
pub open spec fn valid_revision(revision: Seq<char>) -> bool {
    revision.len() > 0 && encode_utf8(revision).len() <= MAX_NAME_BYTES && !revision.contains('\0')
}

/// Checks the name of a reference.
pub fn validate_reference_name(name: &str) -> (checked: Result<(), VcsError>)
    ensures
        checked == if valid_reference_name(name@) {
            Ok(())
        } else {
            Err(VcsError::InvalidReferenceName)
        },
{
    if name.is_empty() || name.as_bytes().len() > MAX_NAME_BYTES || has_control(name) {
        Err(VcsError::InvalidReferenceName)
    } else {
        Ok(())
    }
}

/// Checks the identifier of a revision.
pub fn validate_revision(revision: &str) -> (checked: Result<(), VcsError>)
    ensures
        checked == if valid_revision(revision@) {
            Ok(())
        } else {
            Err(VcsError::InvalidRevision)
        },
{
    if revision.is_empty() || revision.as_bytes().len() > MAX_NAME_BYTES || has_char(
        revision,
        '\0',
    ) {
        Err(VcsError::InvalidRevision)
    } else {
        Ok(())
    }
}

/// The earliest of some problems, if there is one.
pub open spec fn first_problem(problems: Seq<Option<VcsError>>) -> Option<VcsError>
    decreases problems.len(),
{
    if problems.len() == 0 {
        None
    } else if problems[0] is Some {
        problems[0]
    } else {
        first_problem(problems.skip(1))
    }
}

/// The outcome of a check that found `problem`, if anything.
pub open spec fn outcome(problem: Option<VcsError>) -> Result<(), VcsError> {
    match problem {
        None => Ok(()),
        Some(problem) => Err(problem),
    }
}

/// A problem with none before it is the earliest.
pub proof fn lemma_first_problem(problems: Seq<Option<VcsError>>, i: int)
    requires
        0 <= i <= problems.len(),
        forall|j: int| 0 <= j < i ==> (#[trigger] problems[j]) is None,
        i < problems.len() ==> problems[i] is Some,
    ensures
        first_problem(problems) == if i < problems.len() {
            problems[i]
        } else {
            None
        },
    decreases problems.len(),
{
    if i > 0 {
        let rest = problems.skip(1);
        assert forall|j: int| 0 <= j < i - 1 implies (#[trigger] rest[j]) is None by {
            assert(rest[j] == problems[j + 1]);
        }
        lemma_first_problem(rest, i - 1);
    }
}

/// There is no earliest problem exactly where there is no problem.
pub proof fn lemma_no_problem(problems: Seq<Option<VcsError>>)
    ensures
        first_problem(problems) is None <==> forall|i: int|
            0 <= i < problems.len() ==> (#[trigger] problems[i]) is None,
    decreases problems.len(),
{
    if problems.len() > 0 {
        let rest = problems.skip(1);
        lemma_no_problem(rest);
        if problems[0] is None {
            assert forall|i: int| 0 <= i < rest.len() implies rest[i] == #[trigger] problems[i
                + 1] by {}
            if first_problem(problems) is None {
                assert forall|i: int| 0 <= i < problems.len() implies (
                #[trigger] problems[i]) is None by {
                    if i > 0 {
                        assert(rest[i - 1] is None);
                    }
                }
            }
        }
    }
}

/// The earliest problem is one of them, with none before it.
pub proof fn lemma_first_is_first(problems: Seq<Option<VcsError>>)
    ensures
        first_problem(problems) matches Some(problem) ==> exists|i: int|
            0 <= i < problems.len() && #[trigger] problems[i] == Some(problem) && forall|j: int|
                0 <= j < i ==> (#[trigger] problems[j]) is None,
    decreases problems.len(),
{
    if problems.len() > 0 {
        let rest = problems.skip(1);
        lemma_first_is_first(rest);
        if problems[0] is Some {
            assert(problems[0] == first_problem(problems));
        } else if let Some(problem) = first_problem(rest) {
            let i = choose|i: int|
                0 <= i < rest.len() && #[trigger] rest[i] == Some(problem) && forall|j: int|
                    0 <= j < i ==> (#[trigger] rest[j]) is None;
            assert(problems[i + 1] == Some(problem));
            assert forall|j: int| 0 <= j < i + 1 implies (#[trigger] problems[j]) is None by {
                if j > 0 {
                    assert(rest[j - 1] is None);
                }
            }
        }
    }
}

/// What is wrong with an upstream of a reference of the given kind.
pub open spec fn upstream_problem(kind: ReferenceKind, upstream: Option<Tracking>) -> Option<
    VcsError,
> {
    match upstream {
        None => None,
        Some(upstream) => if kind != ReferenceKind::Branch {
            Some(VcsError::UpstreamNotLocal)
        } else if !valid_reference_name(upstream.name@) {
            Some(VcsError::InvalidReferenceName)
        } else if upstream.ahead is Some != upstream.behind is Some {
            Some(VcsError::IncompleteTracking)
        } else if upstream.gone && upstream.ahead is Some {
            Some(VcsError::GoneWithCounts)
        } else {
            None
        },
    }
}

/// Whether two references are of one kind and have one name.
pub open spec fn same_reference(left: Reference, right: Reference) -> bool {
    left.kind == right.kind && left.name@ == right.name@
}

/// What is wrong with the reference at `i`, given those before it.
pub open spec fn reference_problem(references: Seq<Reference>, i: int) -> Option<VcsError> {
    let reference = references[i];
    if !valid_reference_name(reference.name@) {
        Some(VcsError::InvalidReferenceName)
    } else if !valid_revision(reference.revision@) {
        Some(VcsError::InvalidRevision)
    } else if exists|j: int| 0 <= j < i && same_reference(#[trigger] references[j], reference) {
        Some(VcsError::DuplicateReference)
    } else {
        upstream_problem(reference.kind, reference.upstream)
    }
}

pub open spec fn reference_problems(references: Seq<Reference>) -> Seq<Option<VcsError>> {
    Seq::new(references.len(), |i: int| reference_problem(references, i))
}

/// A kind that describes the working copy alone.
pub open spec fn working_only(kind: ChangeKind) -> bool {
    kind == ChangeKind::Untracked || kind == ChangeKind::Ignored || kind == ChangeKind::Conflicted
}

/// What is wrong with the change at `i`, given those before it.
pub open spec fn change_problem(changes: Seq<Change>, i: int) -> Option<VcsError> {
    let change = changes[i];
    if !valid_path(change.path@) {
        path_problem(change.path@)
    } else if exists|j: int| 0 <= j < i && (#[trigger] changes[j]).path@ == change.path@ {
        Some(VcsError::DuplicateStatusPath)
    } else if change.original_path matches Some(original) && !valid_path(original@) {
        path_problem(change.original_path->0@)
    } else if working_only(change.staged_status) {
        Some(VcsError::InvalidStagedStatus)
    } else {
        None
    }
}

pub open spec fn change_problems(changes: Seq<Change>) -> Seq<Option<VcsError>> {
    Seq::new(changes.len(), |i: int| change_problem(changes, i))
}

/// What is wrong with a snapshot: its token, then its references, then its changes.
pub open spec fn snapshot_problem(snapshot: Snapshot) -> Option<VcsError> {
    if snapshot.snapshot@.len() == 0 {
        Some(VcsError::EmptySnapshotToken)
    } else {
        match first_problem(reference_problems(snapshot.references@)) {
            Some(problem) => Some(problem),
            None => first_problem(change_problems(snapshot.changes@)),
        }
    }
}

/// What a reference lacks the advertised capability for.
pub open spec fn unadvertised(reference: Reference, capabilities: Capabilities) -> Option<
    VcsError,
> {
    let advertised = if reference.kind == ReferenceKind::Tag {
        capabilities.tags
    } else {
        capabilities.branches
    };
    if !advertised {
        Some(VcsError::UnadvertisedReference)
    } else if reference.upstream is Some && !capabilities.tracking {
        Some(VcsError::UnadvertisedUpstream)
    } else {
        None
    }
}

/// What a snapshot lacks the advertised capability for.
pub open spec fn capability_problem(snapshot: Snapshot, capabilities: Capabilities) -> Option<
    VcsError,
> {
    first_problem(
        snapshot.references@.map_values(
            |reference: Reference| unadvertised(reference, capabilities),
        ),
    )
}

/// Checks the upstream of a reference.
fn check_upstream(kind: ReferenceKind, upstream: &Option<Tracking>) -> (checked: Result<
    (),
    VcsError,
>)
    ensures
        checked == outcome(upstream_problem(kind, *upstream)),
{
    match upstream {
        None => Ok(()),
        Some(upstream) => {
            if kind != ReferenceKind::Branch {
                return Err(VcsError::UpstreamNotLocal);
            }
            validate_reference_name(&upstream.name)?;
            if upstream.ahead.is_some() != upstream.behind.is_some() {
                return Err(VcsError::IncompleteTracking);
            }
            if upstream.gone && upstream.ahead.is_some() {
                return Err(VcsError::GoneWithCounts);
            }
            Ok(())
        },
    }
}

/// The names of the first `n` references of one kind.
spec fn names_of(references: Seq<Reference>, kind: ReferenceKind, n: int) -> Set<Seq<char>> {
    Set::new(
        |name: Seq<char>|
            exists|j: int|
                0 <= j < n && (#[trigger] references[j]).kind == kind && references[j].name@
                    == name,
    )
}

/// Checks the references of a snapshot.
fn check_references(references: &Vec<Reference>) -> (checked: Result<(), VcsError>)
    ensures
        checked == outcome(first_problem(reference_problems(references@))),
{
    let mut branches: StringHashSet = StringHashSet::new();
    let mut remote_branches: StringHashSet = StringHashSet::new();
    let mut tags: StringHashSet = StringHashSet::new();
    let ghost problems = reference_problems(references@);
    let mut i: usize = 0;
    assert(branches@ =~= names_of(references@, ReferenceKind::Branch, 0));
    assert(remote_branches@ =~= names_of(references@, ReferenceKind::RemoteBranch, 0));
    assert(tags@ =~= names_of(references@, ReferenceKind::Tag, 0));
    while i < references.len()
        invariant
            i <= references@.len(),
            problems == reference_problems(references@),
            forall|j: int| 0 <= j < i ==> (#[trigger] problems[j]) is None,
            branches@ == names_of(references@, ReferenceKind::Branch, i as int),
            remote_branches@ == names_of(references@, ReferenceKind::RemoteBranch, i as int),
            tags@ == names_of(references@, ReferenceKind::Tag, i as int),
        decreases references@.len() - i,
    {
        let reference: &Reference = &references[i];
        assert(problems[i as int] == reference_problem(references@, i as int));
        proof {
            if problems[i as int] is Some {
                lemma_first_problem(problems, i as int);
            }
        }
        validate_reference_name(&reference.name)?;
        validate_revision(&reference.revision)?;
        let fresh: bool = match reference.kind {
            ReferenceKind::Branch => branches.insert(reference.name.clone()),
            ReferenceKind::RemoteBranch => remote_branches.insert(reference.name.clone()),
            ReferenceKind::Tag => tags.insert(reference.name.clone()),
        };
        proof {
            let known = names_of(references@, reference.kind, i as int);
            assert(fresh == !known.contains(reference.name@));
            if !fresh {
                let j = choose|j: int|
                    0 <= j < i && (#[trigger] references@[j]).kind == reference.kind
                        && references@[j].name@ == reference.name@;
                assert(same_reference(references@[j], *reference));
            }
        }
        if !fresh {
            return Err(VcsError::DuplicateReference);
        }
        proof {
            assert forall|j: int| 0 <= j < i implies !same_reference(
                #[trigger] references@[j],
                *reference,
            ) by {
                if same_reference(references@[j], *reference) {
                    assert(names_of(references@, reference.kind, i as int).contains(
                        reference.name@,
                    ));
                }
            }
        }
        check_upstream(reference.kind, &reference.upstream)?;
        proof {
            assert(names_of(references@, ReferenceKind::Branch, i + 1) =~= branches@);
            assert(names_of(references@, ReferenceKind::RemoteBranch, i + 1) =~= remote_branches@);
            assert(names_of(references@, ReferenceKind::Tag, i + 1) =~= tags@);
        }
        i += 1;
    }
    proof {
        lemma_first_problem(problems, i as int);
    }
    Ok(())
}

/// The paths of the first `n` changes.
spec fn paths_of(changes: Seq<Change>, n: int) -> Set<Seq<char>> {
    Set::new(
        |path: Seq<char>| exists|j: int| 0 <= j < n && (#[trigger] changes[j]).path@ == path,
    )
}

/// Checks the changes of a snapshot.
fn check_changes(changes: &Vec<Change>) -> (checked: Result<(), VcsError>)
    ensures
        checked == outcome(first_problem(change_problems(changes@))),
{
    let mut paths: StringHashSet = StringHashSet::new();
    let ghost problems = change_problems(changes@);
    let mut i: usize = 0;
    assert(paths@ =~= paths_of(changes@, 0));
    while i < changes.len()
        invariant
            i <= changes@.len(),
            problems == change_problems(changes@),
            forall|j: int| 0 <= j < i ==> (#[trigger] problems[j]) is None,
            paths@ == paths_of(changes@, i as int),
        decreases changes@.len() - i,
    {
        let change: &Change = &changes[i];
        assert(problems[i as int] == change_problem(changes@, i as int));
        proof {
            if problems[i as int] is Some {
                lemma_first_problem(problems, i as int);
            }
        }
        validate_path(&change.path)?;
        let fresh: bool = paths.insert(change.path.clone());
        assert(fresh == !paths_of(changes@, i as int).contains(change.path@));
        if !fresh {
            return Err(VcsError::DuplicateStatusPath);
        }
        proof {
            assert forall|j: int| 0 <= j < i implies (#[trigger] changes@[j]).path@
                != change.path@ by {
                if changes@[j].path@ == change.path@ {
                    assert(paths_of(changes@, i as int).contains(change.path@));
                }
            }
        }
        if let Some(original_path) = &change.original_path {
            validate_path(original_path)?;
        }
        match change.staged_status {
            ChangeKind::Untracked | ChangeKind::Ignored | ChangeKind::Conflicted => {
                return Err(VcsError::InvalidStagedStatus);
            },
            _ => {},
        }
        assert(paths_of(changes@, i + 1) =~= paths@);
        i += 1;
    }
    proof {
        lemma_first_problem(problems, i as int);
    }
    Ok(())
}

impl Snapshot {
    /// Checks that every reference, and every upstream, is of a kind that was advertised.
    pub fn validate_capabilities(&self, capabilities: Capabilities) -> (checked: Result<
        (),
        VcsError,
    >)
        ensures
            checked == outcome(capability_problem(*self, capabilities)),
    {
        let ghost problems = self.references@.map_values(
            |reference: Reference| unadvertised(reference, capabilities),
        );
        let mut i: usize = 0;
        while i < self.references.len()
            invariant
                i <= self.references@.len(),
                problems == self.references@.map_values(
                    |reference: Reference| unadvertised(reference, capabilities),
                ),
                forall|j: int| 0 <= j < i ==> (#[trigger] problems[j]) is None,
            decreases self.references@.len() - i,
        {
            let reference: &Reference = &self.references[i];
            assert(problems[i as int] == unadvertised(*reference, capabilities));
            proof {
                if problems[i as int] is Some {
                    lemma_first_problem(problems, i as int);
                }
            }
            let advertised: bool = match reference.kind {
                ReferenceKind::Tag => capabilities.tags,
                _ => capabilities.branches,
            };
            if !advertised {
                return Err(VcsError::UnadvertisedReference);
            }
            if reference.upstream.is_some() && !capabilities.tracking {
                return Err(VcsError::UnadvertisedUpstream);
            }
            i += 1;
        }
        proof {
            lemma_first_problem(problems, i as int);
        }
        Ok(())
    }

    /// Checks everything about a snapshot that does not depend on what was advertised.
    pub fn validate(&self) -> (checked: Result<(), VcsError>)
        ensures
            checked == outcome(snapshot_problem(*self)),
    {
        if self.snapshot.as_str().is_empty() {
            return Err(VcsError::EmptySnapshotToken);
        }
        check_references(&self.references)?;
        check_changes(&self.changes)
    }
}

/// What is wrong with the parent at `i` of a commit, given those before it.
pub open spec fn parent_problem(id: Seq<char>, parents: Seq<String>, i: int) -> Option<VcsError> {
    let parent = parents[i]@;
    if !valid_revision(parent) {
        Some(VcsError::InvalidRevision)
    } else if parent == id || exists|j: int| 0 <= j < i && (#[trigger] parents[j])@ == parent {
        Some(VcsError::InvalidParents)
    } else {
        None
    }
}

pub open spec fn parent_problems(id: Seq<char>, parents: Seq<String>) -> Seq<Option<VcsError>> {
    Seq::new(parents.len(), |i: int| parent_problem(id, parents, i))
}

/// What is wrong with a commit.
pub open spec fn commit_problem(commit: HistoryCommit) -> Option<VcsError> {
    if !valid_revision(commit.id@) {
        Some(VcsError::InvalidRevision)
    } else {
        first_problem(parent_problems(commit.id@, commit.parents@))
    }
}

/// The first `n` of some texts.
pub open spec fn texts_of(texts: Seq<String>, n: int) -> Set<Seq<char>> {
    Set::new(|text: Seq<char>| exists|j: int| 0 <= j < n && (#[trigger] texts[j])@ == text)
}

impl HistoryCommit {
    /// Checks a commit: its identifier, and that its parents are others, each named once.
    pub fn validate(&self) -> (checked: Result<(), VcsError>)
        ensures
            checked == outcome(commit_problem(*self)),
    {
        validate_revision(&self.id)?;
        let mut parents: StringHashSet = StringHashSet::new();
        let ghost problems = parent_problems(self.id@, self.parents@);
        let mut i: usize = 0;
        assert(parents@ =~= texts_of(self.parents@, 0));
        while i < self.parents.len()
            invariant
                i <= self.parents@.len(),
                valid_revision(self.id@),
                problems == parent_problems(self.id@, self.parents@),
                forall|j: int| 0 <= j < i ==> (#[trigger] problems[j]) is None,
                parents@ == texts_of(self.parents@, i as int),
            decreases self.parents@.len() - i,
        {
            let parent: &String = &self.parents[i];
            assert(problems[i as int] == parent_problem(self.id@, self.parents@, i as int));
            proof {
                if problems[i as int] is Some {
                    lemma_first_problem(problems, i as int);
                }
            }
            validate_revision(parent)?;
            if *parent == self.id {
                return Err(VcsError::InvalidParents);
            }
            let fresh: bool = parents.insert(parent.clone());
            assert(fresh == !texts_of(self.parents@, i as int).contains(parent@));
            if !fresh {
                return Err(VcsError::InvalidParents);
            }
            proof {
                assert forall|j: int| 0 <= j < i implies (#[trigger] self.parents@[j])@
                    != parent@ by {
                    if self.parents@[j]@ == parent@ {
                        assert(texts_of(self.parents@, i as int).contains(parent@));
                    }
                }
                assert(texts_of(self.parents@, i + 1) =~= parents@);
            }
            i += 1;
        }
        proof {
            lemma_first_problem(problems, i as int);
        }
        Ok(())
    }
}

/// A snapshot as the protocol wants it: a token; references with valid, distinct names, of which
/// only local branches have upstreams, with counts that agree; and changes at valid, distinct
/// paths, with no working-copy status on the staged side.
pub open spec fn well_formed(snapshot: Snapshot) -> bool {
    let references = snapshot.references@;
    let changes = snapshot.changes@;
    &&& snapshot.snapshot@.len() > 0
    &&& forall|i: int|
        0 <= i < references.len() ==> {
            let reference = #[trigger] references[i];
            &&& valid_reference_name(reference.name@)
            &&& valid_revision(reference.revision@)
            &&& reference.upstream matches Some(upstream) ==> {
                &&& reference.kind == ReferenceKind::Branch
                &&& valid_reference_name(upstream.name@)
                &&& upstream.ahead is Some == upstream.behind is Some
                &&& upstream.gone ==> upstream.ahead is None
            }
        }
    &&& forall|i: int, j: int|
        0 <= i < j < references.len() ==> !same_reference(
            #[trigger] references[i],
            #[trigger] references[j],
        )
    &&& forall|i: int|
        0 <= i < changes.len() ==> {
            let change = #[trigger] changes[i];
            &&& valid_path(change.path@)
            &&& change.original_path matches Some(original) ==> valid_path(original@)
            &&& !working_only(change.staged_status)
        }
    &&& forall|i: int, j: int|
        0 <= i < j < changes.len() ==> (#[trigger] changes[i]).path@ != (
        #[trigger] changes[j]).path@
}

/// A snapshot passes its check exactly where it is as the protocol wants it.
pub proof fn law_checked_snapshot_is_well_formed(snapshot: Snapshot)
    ensures
        snapshot_problem(snapshot) is None <==> well_formed(snapshot),
{
    let references = snapshot.references@;
    let changes = snapshot.changes@;
    let of_references = reference_problems(references);
    let of_changes = change_problems(changes);
    lemma_no_problem(of_references);
    lemma_no_problem(of_changes);
    if snapshot_problem(snapshot) is None {
        assert forall|i: int| 0 <= i < references.len() implies reference_problem(
            references,
            i,
        ) is None by {
            assert(of_references[i] is None);
        }
        assert forall|i: int| 0 <= i < changes.len() implies change_problem(changes, i) is None by {
            assert(of_changes[i] is None);
        }
        assert forall|i: int, j: int| 0 <= i < j < references.len() implies !same_reference(
            #[trigger] references[i],
            #[trigger] references[j],
        ) by {
            assert(reference_problem(references, j) is None);
        }
        assert forall|i: int, j: int| 0 <= i < j < changes.len() implies (
        #[trigger] changes[i]).path@ != (#[trigger] changes[j]).path@ by {
            assert(change_problem(changes, j) is None);
        }
        assert forall|i: int| 0 <= i < references.len() implies {
            let reference = #[trigger] references[i];
            &&& valid_reference_name(reference.name@)
            &&& valid_revision(reference.revision@)
            &&& upstream_problem(reference.kind, reference.upstream) is None
        } by {
            assert(reference_problem(references, i) is None);
        }
        assert forall|i: int| 0 <= i < changes.len() implies {
            let change = #[trigger] changes[i];
            &&& valid_path(change.path@)
            &&& change.original_path matches Some(original) ==> valid_path(original@)
            &&& !working_only(change.staged_status)
        } by {
            assert(change_problem(changes, i) is None);
        }
    }
    if well_formed(snapshot) {
        assert forall|i: int| 0 <= i < of_references.len() implies (
        #[trigger] of_references[i]) is None by {
            assert(valid_reference_name(references[i].name@));
        }
        assert forall|i: int| 0 <= i < of_changes.len() implies (
        #[trigger] of_changes[i]) is None by {
            assert(valid_path(changes[i].path@));
        }
    }
}

/// A revision may have any name of 1 to 4096 bytes without NUL, and a reference any of that length
/// without control characters.
pub proof fn law_names_are_of_bounded_length(name: Seq<char>)
    ensures
        valid_revision(name) <==> name.len() > 0 && encode_utf8(name).len() <= 4096
            && !name.contains('\0'),
        valid_reference_name(name) <==> name.len() > 0 && encode_utf8(name).len() <= 4096 && forall|
            i: int,
        |
            0 <= i < name.len() ==> {
                let c = #[trigger] name[i] as u32;
                c > 0x1f && !(0x7f <= c <= 0x9f)
            },
{
    if forall|i: int|
        0 <= i < name.len() ==> {
            let c = #[trigger] name[i] as u32;
            c > 0x1f && !(0x7f <= c <= 0x9f)
        } {
        assert forall|i: int| 0 <= i < name.len() implies !is_control(#[trigger] name[i]) by {}
    }
    if forall|i: int| 0 <= i < name.len() ==> !is_control(#[trigger] name[i]) {
        assert forall|i: int| 0 <= i < name.len() implies {
            let c = #[trigger] name[i] as u32;
            c > 0x1f && !(0x7f <= c <= 0x9f)
        } by {
            assert(!is_control(name[i]));
        }
    }
}

/// A snapshot is accepted exactly where it has a token; where each reference has a name and a
/// revision that it may have, no two of one kind have one name, and an upstream is that of a branch,
/// with a name that it may have, and with both counts or none, none where it is gone; and where each
/// change is at a valid path, no two at one, from a valid path if from any, and with no staged status
/// that only the working copy can have.
pub proof fn law_snapshots_are_accepted_as_the_protocol_has_them(snapshot: Snapshot)
    ensures
        snapshot_problem(snapshot) is None <==> {
            let references = snapshot.references@;
            let changes = snapshot.changes@;
            &&& snapshot.snapshot@.len() > 0
            &&& forall|i: int|
                0 <= i < references.len() ==> {
                    let reference = #[trigger] references[i];
                    &&& valid_reference_name(reference.name@)
                    &&& valid_revision(reference.revision@)
                    &&& reference.upstream matches Some(upstream) ==> {
                        &&& reference.kind is Branch
                        &&& valid_reference_name(upstream.name@)
                        &&& upstream.ahead is Some <==> upstream.behind is Some
                        &&& !(upstream.gone && upstream.ahead is Some)
                    }
                }
            &&& forall|i: int, j: int|
                0 <= i < j < references.len() ==> {
                    ||| (#[trigger] references[i]).kind != (#[trigger] references[j]).kind
                    ||| references[i].name@ != references[j].name@
                }
            &&& forall|i: int|
                0 <= i < changes.len() ==> {
                    let change = #[trigger] changes[i];
                    &&& valid_path(change.path@)
                    &&& change.original_path matches Some(original) ==> valid_path(original@)
                    &&& !(change.staged_status is Untracked)
                    &&& !(change.staged_status is Ignored)
                    &&& !(change.staged_status is Conflicted)
                }
            &&& forall|i: int, j: int|
                0 <= i < j < changes.len() ==> (#[trigger] changes[i]).path@ != (
                #[trigger] changes[j]).path@
        },
{
    law_checked_snapshot_is_well_formed(snapshot);
    let references = snapshot.references@;
    if well_formed(snapshot) {
        assert forall|i: int, j: int| 0 <= i < j < references.len() implies {
            ||| (#[trigger] references[i]).kind != (#[trigger] references[j]).kind
            ||| references[i].name@ != references[j].name@
        } by {
            assert(!same_reference(references[i], references[j]));
        }
    }
}

/// A snapshot stays within what was advertised exactly where there are tags only with that
/// capability, branches only with theirs, and upstreams only with tracking.
pub proof fn law_references_need_their_capabilities(
    snapshot: Snapshot,
    capabilities: Capabilities,
)
    ensures
        capability_problem(snapshot, capabilities) is None <==> forall|i: int|
            0 <= i < snapshot.references@.len() ==> {
                let reference = #[trigger] snapshot.references@[i];
                &&& reference.kind is Tag ==> capabilities.tags
                &&& reference.kind is Branch ==> capabilities.branches
                &&& reference.kind is RemoteBranch ==> capabilities.branches
                &&& reference.upstream is Some ==> capabilities.tracking
            },
        capability_problem(snapshot, capabilities) matches Some(problem) ==> problem
            == VcsError::UnadvertisedReference || problem == VcsError::UnadvertisedUpstream,
{
    let references = snapshot.references@;
    let problems = references.map_values(
        |reference: Reference| unadvertised(reference, capabilities),
    );
    lemma_no_problem(problems);
    lemma_first_is_first(problems);
    if capability_problem(snapshot, capabilities) is None {
        assert forall|i: int| 0 <= i < references.len() implies {
            let reference = #[trigger] references[i];
            &&& reference.kind is Tag ==> capabilities.tags
            &&& reference.kind is Branch ==> capabilities.branches
            &&& reference.kind is RemoteBranch ==> capabilities.branches
            &&& reference.upstream is Some ==> capabilities.tracking
        } by {
            assert(problems[i] is None);
        }
    } else {
        let i = choose|i: int| 0 <= i < problems.len() && (#[trigger] problems[i]) is Some;
        assert(problems[i] is Some ==> {
            let reference = references[i];
            ||| reference.kind is Tag && !capabilities.tags
            ||| !(reference.kind is Tag) && !capabilities.branches
            ||| reference.upstream is Some && !capabilities.tracking
        });
    }
    if forall|i: int|
        0 <= i < references.len() ==> {
            let reference = #[trigger] references[i];
            &&& reference.kind is Tag ==> capabilities.tags
            &&& reference.kind is Branch ==> capabilities.branches
            &&& reference.kind is RemoteBranch ==> capabilities.branches
            &&& reference.upstream is Some ==> capabilities.tracking
        } {
        assert forall|i: int| 0 <= i < problems.len() implies (#[trigger] problems[i]) is None by {
            assert(references[i] == references[i]);
        }
    }
}

/// A commit is accepted exactly where it and its parents have names that they may have, and it is
/// none of its parents, nor any of them twice.
pub proof fn law_commits_are_accepted_with_distinct_parents(commit: HistoryCommit)
    ensures
        commit_problem(commit) is None <==> {
            let parents = commit.parents@;
            &&& valid_revision(commit.id@)
            &&& forall|i: int|
                0 <= i < parents.len() ==> valid_revision((#[trigger] parents[i])@) && parents[i]@
                    != commit.id@
            &&& forall|i: int, j: int|
                0 <= i < j < parents.len() ==> (#[trigger] parents[i])@ != (#[trigger] parents[j])@
        },
{
    let parents = commit.parents@;
    let problems = parent_problems(commit.id@, parents);
    lemma_no_problem(problems);
    if commit_problem(commit) is None {
        assert forall|i: int| 0 <= i < parents.len() implies valid_revision(
            (#[trigger] parents[i])@,
        ) && parents[i]@ != commit.id@ by {
            assert(problems[i] is None);
        }
        assert forall|i: int, j: int| 0 <= i < j < parents.len() implies (#[trigger] parents[i])@
            != (#[trigger] parents[j])@ by {
            assert(problems[j] is None);
        }
    } else if valid_revision(commit.id@) {
        let i = choose|i: int| 0 <= i < problems.len() && (#[trigger] problems[i]) is Some;
        assert(parent_problem(commit.id@, parents, i) is Some);
        assert(valid_revision(parents[i]@) && parents[i]@ != commit.id@ ==> exists|j: int|
            0 <= j < i && (#[trigger] parents[j])@ == parents[i]@);
    }
}

/// What is reported of a reference is what is wrong with its name, or else with its revision, or else
/// that there is one like it before it, or else what is wrong with its upstream: that it is not that
/// of a branch, or else its name, or else that it lacks a count, or else that it has any while it is
/// gone.
pub proof fn law_references_are_refused_for_their_first_fault(references: Seq<Reference>, i: int)
    requires
        0 <= i < references.len(),
    ensures
        ({
            let problem = reference_problem(references, i);
            let reference = references[i];
            let is_named = valid_reference_name(reference.name@);
            let is_sound = is_named && valid_revision(reference.revision@);
            let is_repeated = exists|j: int|
                0 <= j < i && (#[trigger] references[j]).kind == reference.kind
                    && references[j].name@ == reference.name@;
            let may_track = is_sound && !is_repeated && reference.upstream is Some;
            let is_local = may_track && reference.kind is Branch;
            let upstream = reference.upstream->0;
            let is_tracked = is_local && valid_reference_name(upstream.name@);
            let is_counted = is_tracked && (upstream.ahead is Some <==> upstream.behind is Some);
            &&& problem == Some(VcsError::InvalidReferenceName) <==> !is_named || (is_local
                && !valid_reference_name(upstream.name@))
            &&& problem == Some(VcsError::InvalidRevision) <==> is_named && !valid_revision(
                reference.revision@,
            )
            &&& problem == Some(VcsError::DuplicateReference) <==> is_sound && is_repeated
            &&& problem == Some(VcsError::UpstreamNotLocal) <==> may_track && !(
            reference.kind is Branch)
            &&& problem == Some(VcsError::IncompleteTracking) <==> is_tracked && !is_counted
            &&& problem == Some(VcsError::GoneWithCounts) <==> is_counted && upstream.gone
                && upstream.ahead is Some
        }),
{
    let reference = references[i];
    if exists|j: int|
        0 <= j < i && (#[trigger] references[j]).kind == reference.kind && references[j].name@
            == reference.name@ {
        let j = choose|j: int|
            0 <= j < i && (#[trigger] references[j]).kind == reference.kind && references[j].name@
                == reference.name@;
        assert(same_reference(references[j], reference));
    }
}

/// What is reported of a change is what is wrong with its path, or else that there is one at it
/// before it, or else what is wrong with the path that it came from, or else that it is staged as
/// only the working copy can be.
pub proof fn law_changes_are_refused_for_their_first_fault(changes: Seq<Change>, i: int)
    requires
        0 <= i < changes.len(),
    ensures
        ({
            let problem = change_problem(changes, i);
            let change = changes[i];
            let is_repeated = exists|j: int|
                0 <= j < i && (#[trigger] changes[j]).path@ == change.path@;
            let is_alone = valid_path(change.path@) && !is_repeated;
            let is_moved_wrongly = change.original_path is Some && !valid_path(
                change.original_path->0@,
            );
            &&& !valid_path(change.path@) ==> problem == path_problem(change.path@) && problem is Some
            &&& problem == Some(VcsError::DuplicateStatusPath) <==> valid_path(change.path@)
                && is_repeated
            &&& is_alone && is_moved_wrongly ==> problem == path_problem(change.original_path->0@)
                && problem is Some
            &&& problem == Some(VcsError::InvalidStagedStatus) <==> is_alone && !is_moved_wrongly
                && (change.staged_status is Untracked || change.staged_status is Ignored
                || change.staged_status is Conflicted)
        }),
{
    law_invalid_paths_are_refused(changes[i].path@);
    if let Some(original) = changes[i].original_path {
        law_invalid_paths_are_refused(original@);
    }
}

/// What is reported of a snapshot is that it has no token, or else the fault of its first faulty
/// reference, or else that of its first faulty change.
pub proof fn law_snapshots_are_refused_for_their_first_fault(snapshot: Snapshot)
    ensures
        snapshot_problem(snapshot) == Some(VcsError::EmptySnapshotToken) <==> snapshot.snapshot@.len()
            == 0,
        forall|i: int|
            0 <= i < snapshot.references@.len() && snapshot.snapshot@.len() > 0
                && #[trigger] reference_problem(snapshot.references@, i) is Some && (forall|j: int|
                0 <= j < i ==> #[trigger] reference_problem(snapshot.references@, j) is None)
                ==> snapshot_problem(snapshot) == reference_problem(snapshot.references@, i),
        forall|i: int|
            0 <= i < snapshot.changes@.len() && snapshot.snapshot@.len() > 0
                && #[trigger] change_problem(snapshot.changes@, i) is Some && (forall|j: int|
                0 <= j < i ==> #[trigger] change_problem(snapshot.changes@, j) is None) && (forall|
                j: int,
            |
                0 <= j < snapshot.references@.len() ==> #[trigger] reference_problem(
                    snapshot.references@,
                    j,
                ) is None) ==> snapshot_problem(snapshot) == change_problem(snapshot.changes@, i),
{
    let references = snapshot.references@;
    let changes = snapshot.changes@;
    let of_references = reference_problems(references);
    let of_changes = change_problems(changes);
    lemma_first_is_first(of_references);
    lemma_first_is_first(of_changes);
    assert(snapshot_problem(snapshot) == Some(VcsError::EmptySnapshotToken)
        ==> snapshot.snapshot@.len() == 0) by {
        if let Some(problem) = first_problem(of_references) {
            let i = choose|i: int|
                0 <= i < of_references.len() && #[trigger] of_references[i] == Some(problem)
                    && forall|j: int| 0 <= j < i ==> (#[trigger] of_references[j]) is None;
            assert(of_references[i] == reference_problem(references, i));
        } else if let Some(problem) = first_problem(of_changes) {
            let i = choose|i: int|
                0 <= i < of_changes.len() && #[trigger] of_changes[i] == Some(problem) && forall|
                    j: int,
                |
                    0 <= j < i ==> (#[trigger] of_changes[j]) is None;
            assert(of_changes[i] == change_problem(changes, i));
        }
    }
    assert forall|i: int|
        0 <= i < references.len() && snapshot.snapshot@.len() > 0 && #[trigger] reference_problem(
            references,
            i,
        ) is Some && (forall|j: int|
            0 <= j < i ==> #[trigger] reference_problem(references, j) is None) implies snapshot_problem(
        snapshot,
    ) == reference_problem(references, i) by {
        assert forall|j: int| 0 <= j < i implies (#[trigger] of_references[j]) is None by {
            assert(reference_problem(references, j) is None);
        }
        lemma_first_problem(of_references, i);
    }
    assert forall|i: int|
        0 <= i < changes.len() && snapshot.snapshot@.len() > 0 && #[trigger] change_problem(
            changes,
            i,
        ) is Some && (forall|j: int| 0 <= j < i ==> #[trigger] change_problem(changes, j) is None)
            && (forall|j: int|
            0 <= j < references.len() ==> #[trigger] reference_problem(
                references,
                j,
            ) is None) implies snapshot_problem(snapshot) == change_problem(changes, i) by {
        assert forall|j: int| 0 <= j < i implies (#[trigger] of_changes[j]) is None by {
            assert(change_problem(changes, j) is None);
        }
        assert forall|j: int| 0 <= j < of_references.len() implies (
        #[trigger] of_references[j]) is None by {
            assert(reference_problem(references, j) is None);
        }
        lemma_no_problem(of_references);
        lemma_first_problem(of_changes, i);
    }
}

/// What is reported of a commit is that its name is none, or else of the first faulty parent that
/// its name is none, or that it is the commit itself or there twice.
pub proof fn law_commits_are_refused_for_their_first_fault(commit: HistoryCommit, i: int)
    requires
        valid_revision(commit.id@),
        0 <= i < commit.parents@.len(),
        forall|j: int|
            0 <= j < i ==> valid_revision((#[trigger] commit.parents@[j])@) && commit.parents@[j]@
                != commit.id@,
        forall|j: int, k: int|
            0 <= j < k < i ==> (#[trigger] commit.parents@[j])@ != (#[trigger] commit.parents@[k])@,
    ensures
        !valid_revision(commit.parents@[i]@) ==> commit_problem(commit) == Some(
            VcsError::InvalidRevision,
        ),
        valid_revision(commit.parents@[i]@) && (commit.parents@[i]@ == commit.id@ || exists|j: int|
            0 <= j < i && (#[trigger] commit.parents@[j])@ == commit.parents@[i]@)
            ==> commit_problem(commit) == Some(VcsError::InvalidParents),
{
    let parents = commit.parents@;
    let problems = parent_problems(commit.id@, parents);
    assert forall|j: int| 0 <= j < i implies (#[trigger] problems[j]) is None by {
        assert(parent_problem(commit.id@, parents, j) is None);
    }
    if problems[i] is Some {
        lemma_first_problem(problems, i);
    }
}

/// What a snapshot lacks is what its first reference that lacks something does: the capability for
/// its kind, or else tracking.
pub proof fn law_first_unadvertised_reference_is_reported(
    snapshot: Snapshot,
    capabilities: Capabilities,
    i: int,
)
    requires
        0 <= i < snapshot.references@.len(),
        forall|j: int|
            0 <= j < i ==> {
                let reference = #[trigger] snapshot.references@[j];
                &&& reference.kind is Tag ==> capabilities.tags
                &&& !(reference.kind is Tag) ==> capabilities.branches
                &&& reference.upstream is Some ==> capabilities.tracking
            },
    ensures
        ({
            let reference = snapshot.references@[i];
            let is_advertised = if reference.kind is Tag {
                capabilities.tags
            } else {
                capabilities.branches
            };
            &&& !is_advertised ==> capability_problem(snapshot, capabilities) == Some(
                VcsError::UnadvertisedReference,
            )
            &&& is_advertised && reference.upstream is Some && !capabilities.tracking
                ==> capability_problem(snapshot, capabilities) == Some(
                VcsError::UnadvertisedUpstream,
            )
        }),
{
    let references = snapshot.references@;
    let problems = references.map_values(
        |reference: Reference| unadvertised(reference, capabilities),
    );
    assert forall|j: int| 0 <= j < i implies (#[trigger] problems[j]) is None by {
        assert(references[j] == references[j]);
    }
    if problems[i] is Some {
        lemma_first_problem(problems, i);
    }
}

/// A check succeeds exactly where it finds nothing wrong, and otherwise fails with what it found.
pub proof fn law_checks_fail_with_what_they_find(problem: Option<VcsError>)
    ensures
        outcome(problem) is Ok <==> problem is None,
        problem matches Some(error) ==> outcome(problem) == Err::<(), VcsError>(error),
{
}

} // verus!
