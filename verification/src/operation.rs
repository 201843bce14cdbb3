//! What a repository of this kind does not serve: answers without content, and refusals.

use crate::contents::StepView;
use crate::error::VcsError;
use crate::history::{LogSource, ShowView};
use crate::repository::ExternalRepository;
use crate::request::{method_of, RequestView};
use vstd::prelude::*;

verus! {

/// An operation on a repository that a provider of this protocol has no part in.
#[derive(Clone, Copy, Debug, PartialEq, Eq, Structural)]
pub enum Operation {
    RemoteUrls,
    Worktrees,
    StashEntries,
    MergeMessage,
    DiffStat,
    LoadCommitTemplate,
    GetAllRemotes,
    LoadBlobContent,
    DiffTree,
    WorktreeCreatedAt,
    Blame,
    BlameAtRevision,
    GetPushRemote,
    GetBranchRemote,
    CheckForPushedCommit,
    Diff,
    CompareCheckpoints,
    DiffCheckpoints,
    DefaultBranch,
    FileHistoryChangedFiles,
    SetIndexText,
    ChangeBranch,
    CreateBranch,
    RenameBranch,
    DeleteBranch,
    CreateWorktree,
    CheckoutBranchInWorktree,
    RemoveWorktree,
    RenameWorktree,
    RepairWorktrees,
    Reset,
    CheckoutFiles,
    StagePaths,
    UnstagePaths,
    RunHook,
    Commit,
    StashPaths,
    StashStaged,
    StashPop,
    StashApply,
    StashDrop,
    Push,
    Pull,
    Fetch,
    RemoveRemote,
    CreateRemote,
    Checkpoint,
    RestoreCheckpoint,
    CreateArchiveCheckpoint,
    RestoreArchiveCheckpoint,
    UpdateRef,
    DeleteRef,
}

/// Whether an operation asks about something of which there is none here, so that it is answered
/// with nothing.
pub open spec fn answered_with_nothing(operation: Operation) -> bool {
    match operation {
        Operation::RemoteUrls | Operation::Worktrees | Operation::StashEntries
        | Operation::MergeMessage | Operation::DiffStat | Operation::LoadCommitTemplate
        | Operation::GetAllRemotes => true,
        _ => false,
    }
}

/// Whether an operation writes: to the working copy, to the repository or to a remote.
pub open spec fn writes(operation: Operation) -> bool {
    match operation {
        Operation::SetIndexText | Operation::ChangeBranch | Operation::CreateBranch
        | Operation::RenameBranch | Operation::DeleteBranch | Operation::CreateWorktree
        | Operation::CheckoutBranchInWorktree | Operation::RemoveWorktree
        | Operation::RenameWorktree | Operation::RepairWorktrees | Operation::Reset
        | Operation::CheckoutFiles | Operation::StagePaths | Operation::UnstagePaths
        | Operation::RunHook | Operation::Commit | Operation::StashPaths
        | Operation::StashStaged | Operation::StashPop | Operation::StashApply
        | Operation::StashDrop | Operation::Push | Operation::Pull | Operation::Fetch
        | Operation::RemoveRemote | Operation::CreateRemote | Operation::Checkpoint
        | Operation::RestoreCheckpoint | Operation::CreateArchiveCheckpoint
        | Operation::RestoreArchiveCheckpoint | Operation::UpdateRef | Operation::DeleteRef => true,
        _ => false,
    }
}

impl ExternalRepository {
    /// Answers an operation with nothing, or refuses it.
    pub fn attempt(&self, operation: Operation) -> (answer: Result<(), VcsError>)
        ensures
            answered_with_nothing(operation) ==> answer == Ok::<(), VcsError>(()),
            !answered_with_nothing(operation) ==> answer == Err::<(), VcsError>(
                VcsError::ReadOnly,
            ),
            writes(operation) ==> answer is Err,
    {
        match operation {
            Operation::RemoteUrls | Operation::Worktrees | Operation::StashEntries
            | Operation::MergeMessage | Operation::DiffStat | Operation::LoadCommitTemplate
            | Operation::GetAllRemotes => Ok(()),
            _ => Err(VcsError::ReadOnly),
        }
    }
}

/// No operation that writes is answered: each of them is refused.
pub proof fn law_writes_are_refused(operation: Operation)
    ensures
        writes(operation) ==> !answered_with_nothing(operation),
{
}

/// Without trust nothing is asked of a provider: neither history nor commits nor baselines.
pub proof fn law_untrusted_repository_asks_nothing(
    repository: ExternalRepository,
    source: LogSource,
    commit: Seq<char>,
    revisions: Seq<Seq<char>>,
)
    requires
        !repository.trusted,
    ensures
        repository.history_source(source) == Err::<(Seq<char>, Option<Seq<char>>), VcsError>(
            VcsError::Untrusted,
        ),
        repository.show_step(commit) == (
            repository.known().revisions,
            Err::<ShowView, VcsError>(VcsError::Untrusted),
        ),
        repository.commit_to_load(commit) == Err::<Seq<char>, VcsError>(VcsError::Untrusted),
        repository.loading(revisions) == StepView::Done(Err(VcsError::Untrusted)),
{
}

/// Whatever is asked of a provider, it is asked to read.
pub proof fn law_requests_read_only(request: RequestView)
    ensures
        seq![
            "initialize"@,
            "repository/discover"@,
            "repository/status"@,
            "repository/comparison"@,
            "repository/readContent"@,
            "repository/history"@,
            "repository/commitDetails"@,
            "repository/commitChanges"@,
        ].contains(method_of(request)),
{
    let methods = seq![
        "initialize"@,
        "repository/discover"@,
        "repository/status"@,
        "repository/comparison"@,
        "repository/readContent"@,
        "repository/history"@,
        "repository/commitDetails"@,
        "repository/commitChanges"@,
    ];
    let at = match request {
        RequestView::Initialize => 0int,
        RequestView::Discover { .. } => 1,
        RequestView::Status { .. } => 2,
        RequestView::Comparison { .. } => 3,
        RequestView::ReadContent { .. } => 4,
        RequestView::History { .. } => 5,
        RequestView::CommitDetails { .. } => 6,
        RequestView::CommitChanges { .. } => 7,
    };
    assert(methods[at] == method_of(request));
}

/// What is answered with nothing is a question about remotes, worktrees, stashes, a message to merge
/// with, a template or counts of lines, and every operation that is neither answered so nor writes is
/// a question that only a version control system could answer.
pub proof fn law_only_some_questions_are_answered(operation: Operation)
    ensures
        answered_with_nothing(operation) <==> {
            ||| operation is RemoteUrls
            ||| operation is Worktrees
            ||| operation is StashEntries
            ||| operation is MergeMessage
            ||| operation is DiffStat
            ||| operation is LoadCommitTemplate
            ||| operation is GetAllRemotes
        },
        !answered_with_nothing(operation) && !writes(operation) <==> {
            ||| operation is LoadBlobContent
            ||| operation is DiffTree
            ||| operation is WorktreeCreatedAt
            ||| operation is Blame
            ||| operation is BlameAtRevision
            ||| operation is GetPushRemote
            ||| operation is GetBranchRemote
            ||| operation is CheckForPushedCommit
            ||| operation is Diff
            ||| operation is CompareCheckpoints
            ||| operation is DiffCheckpoints
            ||| operation is DefaultBranch
            ||| operation is FileHistoryChangedFiles
        },
{
}

} // verus!
