use vcs_provider::model::{Change, ChangeKind};
use vcs_provider::status::{
    file_status, status_code, FileStatus, StatusCode, TrackedStatus, UnmergedStatus,
    UnmergedStatusCode,
};

fn change(status: ChangeKind, staged_status: ChangeKind) -> Change {
    Change { path: "new.txt".into(), status, staged_status, original_path: None }
}

#[test]
fn provider_changes_are_visible_to_native_diff_and_tree_consumers() {
    for kind in [ChangeKind::Renamed, ChangeKind::Copied, ChangeKind::TypeChanged] {
        let status = file_status(&Change {
            path: "new.txt".into(),
            status: ChangeKind::Unchanged,
            staged_status: kind,
            original_path: Some("old.txt".into()),
        });
        assert!(status.has_changes());
        assert_eq!(status.summary().index.modified, 1);
    }
}

#[test]
fn a_new_file_is_untracked_unless_something_is_staged_there() {
    let untracked = file_status(&change(ChangeKind::Untracked, ChangeKind::Unchanged));
    assert_eq!(untracked, FileStatus::Untracked);
    assert_eq!(untracked.summary().untracked, 1);
    assert_eq!(
        file_status(&change(ChangeKind::Untracked, ChangeKind::Deleted)),
        FileStatus::Versioned(TrackedStatus {
            index_status: StatusCode::Deleted,
            worktree_status: StatusCode::Added,
        })
    );
}

#[test]
fn ignored_files_show_no_changes_and_conflicts_show_as_such() {
    let ignored = file_status(&change(ChangeKind::Ignored, ChangeKind::Modified));
    assert_eq!(ignored, FileStatus::Ignored);
    assert!(!ignored.has_changes());
    assert_eq!(ignored.summary().count, 0);
    let conflicted = file_status(&change(ChangeKind::Conflicted, ChangeKind::Unchanged));
    assert_eq!(
        conflicted,
        FileStatus::Unmerged(UnmergedStatus {
            first_head: UnmergedStatusCode::Updated,
            second_head: UnmergedStatusCode::Updated,
        })
    );
    assert_eq!(conflicted.summary().conflict, 1);
}

#[test]
fn each_kind_has_its_code() {
    for (kind, code) in [
        (ChangeKind::Unchanged, StatusCode::Unmodified),
        (ChangeKind::Modified, StatusCode::Modified),
        (ChangeKind::Added, StatusCode::Added),
        (ChangeKind::Deleted, StatusCode::Deleted),
        (ChangeKind::Renamed, StatusCode::Modified),
        (ChangeKind::Copied, StatusCode::Modified),
        (ChangeKind::TypeChanged, StatusCode::Modified),
        (ChangeKind::Untracked, StatusCode::Added),
        (ChangeKind::Ignored, StatusCode::Unmodified),
        (ChangeKind::Conflicted, StatusCode::Modified),
    ] {
        assert_eq!(status_code(kind), code);
    }
}
