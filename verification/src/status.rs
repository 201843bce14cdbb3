//! How changes look to a version control view: per-file status, and its summary.

use crate::model::{Change, ChangeKind};
use vstd::prelude::*;

verus! {

#[derive(Clone, Copy, Debug, PartialEq, Eq, Structural)]
pub enum StatusCode {
    Modified,
    Added,
    Deleted,
    Unmodified,
}

#[derive(Clone, Copy, Debug, PartialEq, Eq, Structural)]
pub enum UnmergedStatusCode {
    Added,
    Deleted,
    Updated,
}

/// What each side of a conflict did to a file.
#[derive(Clone, Copy, Debug, PartialEq, Eq, Structural)]
pub struct UnmergedStatus {
    pub first_head: UnmergedStatusCode,
    pub second_head: UnmergedStatusCode,
}

/// The status of a file against the base, and against the staging baseline.
#[derive(Clone, Copy, Debug, PartialEq, Eq, Structural)]
pub struct TrackedStatus {
    pub index_status: StatusCode,
    pub worktree_status: StatusCode,
}

#[derive(Clone, Copy, Debug, PartialEq, Eq, Structural)]
pub enum FileStatus {
    Untracked,
    Ignored,
    Unmerged(UnmergedStatus),
    Versioned(TrackedStatus),
}

/// How many files one side adds, modifies and deletes.
#[derive(Clone, Copy, Debug, PartialEq, Eq, Structural)]
pub struct TrackedSummary {
    pub added: usize,
    pub modified: usize,
    pub deleted: usize,
}

/// How many files are changed, and how.
#[derive(Clone, Copy, Debug, PartialEq, Eq, Structural)]
pub struct GitSummary {
    pub index: TrackedSummary,
    pub worktree: TrackedSummary,
    pub conflict: usize,
    pub untracked: usize,
    pub count: usize,
}

/// The code for a kind of change. Renames, copies and type changes count as modifications, so
/// that summaries and diffs show them.
pub open spec fn code_of(kind: ChangeKind) -> StatusCode {
    match kind {
        ChangeKind::Unchanged | ChangeKind::Ignored => StatusCode::Unmodified,
        ChangeKind::Added | ChangeKind::Untracked => StatusCode::Added,
        ChangeKind::Deleted => StatusCode::Deleted,
        _ => StatusCode::Modified,
    }
}

/// The status of a file with the given kinds of change, in the working copy and staged.
pub open spec fn status_of(working: ChangeKind, staged: ChangeKind) -> FileStatus {
    if working == ChangeKind::Ignored {
        FileStatus::Ignored
    } else if working == ChangeKind::Conflicted {
        FileStatus::Unmerged(
            UnmergedStatus {
                first_head: UnmergedStatusCode::Updated,
                second_head: UnmergedStatusCode::Updated,
            },
        )
    } else if working == ChangeKind::Untracked && staged == ChangeKind::Unchanged {
        FileStatus::Untracked
    } else {
        FileStatus::Versioned(
            TrackedStatus { index_status: code_of(staged), worktree_status: code_of(working) },
        )
    }
}

/// The code for a kind of change.
pub fn status_code(kind: ChangeKind) -> (code: StatusCode)
    ensures
        code == code_of(kind),
{
    match kind {
        ChangeKind::Added | ChangeKind::Untracked => StatusCode::Added,
        ChangeKind::Modified | ChangeKind::Conflicted => StatusCode::Modified,
        ChangeKind::Deleted => StatusCode::Deleted,
        ChangeKind::Renamed | ChangeKind::Copied | ChangeKind::TypeChanged => StatusCode::Modified,
        ChangeKind::Unchanged | ChangeKind::Ignored => StatusCode::Unmodified,
    }
}

/// The status of a changed file.
pub fn file_status(change: &Change) -> (status: FileStatus)
    ensures
        status == status_of(change.status, change.staged_status),
{
    match change.status {
        ChangeKind::Untracked if change.staged_status == ChangeKind::Unchanged => {
            FileStatus::Untracked
        },
        ChangeKind::Ignored => FileStatus::Ignored,
        ChangeKind::Conflicted => FileStatus::Unmerged(
            UnmergedStatus {
                first_head: UnmergedStatusCode::Updated,
                second_head: UnmergedStatusCode::Updated,
            },
        ),
        _ => FileStatus::Versioned(
            TrackedStatus {
                index_status: status_code(change.staged_status),
                worktree_status: status_code(change.status),
            },
        ),
    }
}

/// Whether a status is one of a changed file.
pub open spec fn shows_changes(status: FileStatus) -> bool {
    match status {
        FileStatus::Ignored => false,
        FileStatus::Untracked | FileStatus::Unmerged(_) => true,
        FileStatus::Versioned(sides) => sides.index_status != StatusCode::Unmodified
            || sides.worktree_status != StatusCode::Unmodified,
    }
}

/// How one side with the given code counts in a summary.
pub open spec fn summary_of(code: StatusCode) -> TrackedSummary {
    TrackedSummary {
        added: if code == StatusCode::Added { 1 } else { 0 },
        modified: if code == StatusCode::Modified { 1 } else { 0 },
        deleted: if code == StatusCode::Deleted { 1 } else { 0 },
    }
}

/// How a file counts in a summary.
pub open spec fn file_summary(status: FileStatus) -> GitSummary {
    let nothing = summary_of(StatusCode::Unmodified);
    let unchanged = GitSummary {
        index: nothing,
        worktree: nothing,
        conflict: 0,
        untracked: 0,
        count: 0,
    };
    match status {
        FileStatus::Ignored => unchanged,
        FileStatus::Untracked => GitSummary { untracked: 1, count: 1, ..unchanged },
        FileStatus::Unmerged(_) => GitSummary { conflict: 1, count: 1, ..unchanged },
        FileStatus::Versioned(sides) => GitSummary {
            index: summary_of(sides.index_status),
            worktree: summary_of(sides.worktree_status),
            count: 1,
            ..unchanged
        },
    }
}

impl StatusCode {
    fn summary(self) -> (summary: TrackedSummary)
        ensures
            summary == summary_of(self),
    {
        let nothing: TrackedSummary = TrackedSummary { added: 0, modified: 0, deleted: 0 };
        match self {
            StatusCode::Added => TrackedSummary { added: 1, ..nothing },
            StatusCode::Modified => TrackedSummary { modified: 1, ..nothing },
            StatusCode::Deleted => TrackedSummary { deleted: 1, ..nothing },
            StatusCode::Unmodified => nothing,
        }
    }
}

impl FileStatus {
    /// Whether this is the status of a changed file.
    pub fn has_changes(self) -> (changed: bool)
        ensures
            changed == shows_changes(self),
    {
        match self {
            FileStatus::Ignored => false,
            FileStatus::Untracked | FileStatus::Unmerged(_) => true,
            FileStatus::Versioned(sides) => sides.index_status != StatusCode::Unmodified
                || sides.worktree_status != StatusCode::Unmodified,
        }
    }

    /// How a file with this status counts in a summary.
    pub fn summary(self) -> (summary: GitSummary)
        ensures
            summary == file_summary(self),
    {
        let nothing: TrackedSummary = StatusCode::Unmodified.summary();
        let unchanged: GitSummary = GitSummary {
            index: nothing,
            worktree: nothing,
            conflict: 0,
            untracked: 0,
            count: 0,
        };
        match self {
            FileStatus::Ignored => unchanged,
            FileStatus::Untracked => GitSummary { untracked: 1, count: 1, ..unchanged },
            FileStatus::Unmerged(_) => GitSummary { conflict: 1, count: 1, ..unchanged },
            FileStatus::Versioned(sides) => GitSummary {
                index: sides.index_status.summary(),
                worktree: sides.worktree_status.summary(),
                count: 1,
                ..unchanged
            },
        }
    }
}

/// A file that is not ignored shows as changed exactly where either side reports a change.
pub proof fn law_changes_are_visible(working: ChangeKind, staged: ChangeKind)
    requires
        working != ChangeKind::Ignored,
        staged != ChangeKind::Ignored,
    ensures
        shows_changes(status_of(working, staged)) <==> (working != ChangeKind::Unchanged || staged
            != ChangeKind::Unchanged),
{
}

/// A staged rename, copy or type change counts as one modification in the index.
pub proof fn law_moves_count_as_modifications(working: ChangeKind, staged: ChangeKind)
    requires
        staged == ChangeKind::Renamed || staged == ChangeKind::Copied || staged
            == ChangeKind::TypeChanged,
        working != ChangeKind::Ignored,
        working != ChangeKind::Conflicted,
    ensures
        shows_changes(status_of(working, staged)),
        file_summary(status_of(working, staged)).index == (TrackedSummary {
            added: 0,
            modified: 1,
            deleted: 0,
        }),
{
}

/// A file is ignored, unmerged or untracked for what the working copy says, untracked only where
/// nothing is staged at its path; every other file is versioned. Of a versioned file the index side
/// tells of the staged kind alone and the worktree side of the working kind alone: unmodified where
/// there is no change, and added, deleted or modified as the change is.
pub proof fn law_sides_tell_of_their_own_kind(working: ChangeKind, staged: ChangeKind)
    ensures
        status_of(working, staged) is Ignored <==> working == ChangeKind::Ignored,
        status_of(working, staged) is Unmerged <==> working == ChangeKind::Conflicted,
        status_of(working, staged) is Untracked <==> working == ChangeKind::Untracked && staged
            == ChangeKind::Unchanged,
        status_of(working, staged) matches FileStatus::Unmerged(heads) ==> heads.first_head
            == UnmergedStatusCode::Updated && heads.second_head == UnmergedStatusCode::Updated,
        status_of(working, staged) matches FileStatus::Versioned(sides) ==> {
            &&& sides.index_status == StatusCode::Unmodified <==> staged == ChangeKind::Unchanged
                || staged == ChangeKind::Ignored
            &&& sides.index_status == StatusCode::Added <==> staged == ChangeKind::Added || staged
                == ChangeKind::Untracked
            &&& sides.index_status == StatusCode::Deleted <==> staged == ChangeKind::Deleted
            &&& sides.index_status == StatusCode::Modified <==> staged == ChangeKind::Modified
                || staged == ChangeKind::Conflicted || staged == ChangeKind::Renamed || staged
                == ChangeKind::Copied || staged == ChangeKind::TypeChanged
            &&& sides.worktree_status == StatusCode::Unmodified <==> working
                == ChangeKind::Unchanged
            &&& sides.worktree_status == StatusCode::Added <==> working == ChangeKind::Added
                || working == ChangeKind::Untracked
            &&& sides.worktree_status == StatusCode::Deleted <==> working == ChangeKind::Deleted
            &&& sides.worktree_status == StatusCode::Modified <==> working == ChangeKind::Modified
                || working == ChangeKind::Renamed || working == ChangeKind::Copied || working
                == ChangeKind::TypeChanged
        },
{
}

/// What is staged does not change what the worktree side of a versioned file tells, and what the
/// working copy holds does not change what its index side tells.
pub proof fn law_sides_are_independent(
    working: ChangeKind,
    staged: ChangeKind,
    other_working: ChangeKind,
    other_staged: ChangeKind,
)
    ensures
        status_of(working, staged) matches FileStatus::Versioned(sides) ==> {
            &&& status_of(working, other_staged) matches FileStatus::Versioned(others)
                ==> others.worktree_status == sides.worktree_status
            &&& status_of(other_working, staged) matches FileStatus::Versioned(others)
                ==> others.index_status == sides.index_status
        },
{
}

/// A summary counts a file once, unless it is ignored, and under what its status says: as untracked,
/// as a conflict, or for each side of a versioned file as added, modified or deleted, or not at all.
pub proof fn law_summaries_count_each_file_once(status: FileStatus)
    ensures
        ({
            let summary = file_summary(status);
            &&& summary.count == if status is Ignored {
                0int
            } else {
                1
            }
            &&& summary.untracked == if status is Untracked {
                1int
            } else {
                0
            }
            &&& summary.conflict == if status is Unmerged {
                1int
            } else {
                0
            }
            &&& match status {
                FileStatus::Versioned(sides) => {
                    &&& summary.index.added == 1 <==> sides.index_status == StatusCode::Added
                    &&& summary.index.modified == 1 <==> sides.index_status == StatusCode::Modified
                    &&& summary.index.deleted == 1 <==> sides.index_status == StatusCode::Deleted
                    &&& summary.index.added + summary.index.modified + summary.index.deleted == if
                        sides.index_status == StatusCode::Unmodified {
                        0int
                    } else {
                        1
                    }
                    &&& summary.worktree.added == 1 <==> sides.worktree_status == StatusCode::Added
                    &&& summary.worktree.modified == 1 <==> sides.worktree_status
                        == StatusCode::Modified
                    &&& summary.worktree.deleted == 1 <==> sides.worktree_status
                        == StatusCode::Deleted
                    &&& summary.worktree.added + summary.worktree.modified
                        + summary.worktree.deleted == if sides.worktree_status
                        == StatusCode::Unmodified {
                        0int
                    } else {
                        1
                    }
                },
                _ => {
                    &&& summary.index.added + summary.index.modified + summary.index.deleted == 0
                    &&& summary.worktree.added + summary.worktree.modified
                        + summary.worktree.deleted == 0
                },
            }
        }),
{
}

/// Exactly the files that a summary counts show as changed, but for versioned files that neither
/// side changed.
pub proof fn law_shown_changes_are_counted(status: FileStatus)
    ensures
        shows_changes(status) <==> file_summary(status).count == 1 && (status
            matches FileStatus::Versioned(sides) ==> sides.index_status != StatusCode::Unmodified
            || sides.worktree_status != StatusCode::Unmodified),
{
}

} // verus!
