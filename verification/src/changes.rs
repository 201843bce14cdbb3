//! What a change list asks of a repository: the status of its files, and their baselines.

use crate::contents::{begin, ready, BatchView, ContentsStep, StepView};
use crate::error::VcsError;
use crate::model::Change;
use crate::order::{
    begins_with, covers, key_before, law_path_order_is_total, lies_within,
    path_before, sort_positions,
};
use crate::path::{components, contents, split};
use crate::repository::ExternalRepository;
use crate::request::views;
use crate::status::{file_status, status_of, FileStatus};
use crate::text::{after_prefix, has_prefix, law_prefixes_stand_first};
use vstd::prelude::*;

verus! {

/// A file of a change list.
#[derive(Debug)]
pub struct StatusEntry {
    pub path: String,
    pub status: FileStatus,
}

/// Whether a path is asked for: anywhere where no directories are given, or else in one of them.
pub open spec fn asked_for(path: Seq<char>, directories: Seq<Seq<char>>) -> bool {
    directories.len() == 0 || exists|i: int|
        0 <= i < directories.len() && #[trigger] lies_within(path, directories[i])
}

/// Whether an entry is that of a change.
pub open spec fn shows(entry: StatusEntry, change: Change) -> bool {
    entry.path@ == change.path@ && entry.status == status_of(change.status, change.staged_status)
}

/// Whether entries are those of the changes that are asked for, in the order of their paths.
pub open spec fn lists(
    entries: Seq<StatusEntry>,
    changes: Seq<Change>,
    directories: Seq<Seq<char>>,
) -> bool {
    &&& forall|i: int, j: int|
        0 <= i < j < entries.len() ==> path_before(
            (#[trigger] entries[i]).path@,
            (#[trigger] entries[j]).path@,
        )
    &&& forall|i: int|
        0 <= i < entries.len() ==> asked_for((#[trigger] entries[i]).path@, directories) && exists|
            k: int,
        |
            0 <= k < changes.len() && shows(entries[i], #[trigger] changes[k])
    &&& forall|k: int|
        0 <= k < changes.len() && asked_for((#[trigger] changes[k]).path@, directories) ==> exists|
            i: int,
        |
            0 <= i < entries.len() && shows(#[trigger] entries[i], changes[k])
}

/// Splits some paths into their components.
fn split_all(paths: &Vec<String>) -> (all: Vec<Vec<Vec<char>>>)
    ensures
        all@.len() == paths@.len(),
        forall|i: int|
            0 <= i < all@.len() ==> contents((#[trigger] all@[i])@) == components(paths@[i]@),
{
    let mut all: Vec<Vec<Vec<char>>> = Vec::new();
    let mut i: usize = 0;
    while i < paths.len()
        invariant
            i <= paths@.len(),
            all@.len() == i,
            forall|j: int|
                0 <= j < all@.len() ==> contents((#[trigger] all@[j])@) == components(
                    paths@[j]@,
                ),
        decreases paths@.len() - i,
    {
        all.push(split(&paths[i]));
        i += 1;
    }
    all
}

/// Whether a path, given by its components, is asked for.
fn is_asked_for(
    Ghost(path): Ghost<Seq<char>>,
    parts: &Vec<Vec<char>>,
    directories: &Vec<String>,
    split_directories: &Vec<Vec<Vec<char>>>,
) -> (asked: bool)
    requires
        contents(parts@) == components(path),
        split_directories@.len() == directories@.len(),
        forall|i: int|
            0 <= i < directories@.len() ==> contents((#[trigger] split_directories@[i])@)
                == components(directories@[i]@),
    ensures
        asked == asked_for(path, views(directories@)),
{
    if directories.len() == 0 {
        return true;
    }
    let ghost texts = views(directories@);
    let mut i: usize = 0;
    while i < directories.len()
        invariant
            i <= directories@.len(),
            texts == views(directories@),
            contents(parts@) == components(path),
            split_directories@.len() == directories@.len(),
            forall|j: int|
                0 <= j < directories@.len() ==> contents((#[trigger] split_directories@[j])@)
                    == components(directories@[j]@),
            forall|j: int| 0 <= j < i ==> !(#[trigger] lies_within(path, texts[j])),
        decreases directories@.len() - i,
    {
        assert(texts[i as int] == directories@[i as int]@);
        if directories[i].as_str().is_empty() || begins_with(parts, &split_directories[i]) {
            assert(lies_within(path, texts[i as int]));
            return true;
        }
        i += 1;
    }
    false
}

impl ExternalRepository {
    /// The status of the changed files in the directories given, or of all where none are, in the
    /// order of their paths.
    pub fn status(&self, path_prefixes: &Vec<String>) -> (entries: Result<
        Vec<StatusEntry>,
        VcsError,
    >)
        requires
            self.client.wf(),
        ensures
            !self.trusted ==> entries == Err::<Vec<StatusEntry>, VcsError>(VcsError::Untrusted),
            self.trusted ==> (entries matches Ok(entries) && lists(
                entries@,
                self.client.snapshot.changes@,
                views(path_prefixes@),
            )),
    {
        self.ensure_trusted()?;
        let changes: &Vec<Change> = &self.client.snapshot.changes;
        let directories: Vec<Vec<Vec<char>>> = split_all(path_prefixes);
        let ghost texts = views(path_prefixes@);
        // The changes that are asked for, and the components of their paths.
        let mut chosen: Vec<usize> = Vec::new();
        let mut keys: Vec<Vec<Vec<char>>> = Vec::new();
        let mut i: usize = 0;
        while i < changes.len()
            invariant
                i <= changes@.len(),
                texts == views(path_prefixes@),
                directories@.len() == path_prefixes@.len(),
                forall|j: int|
                    0 <= j < directories@.len() ==> contents((#[trigger] directories@[j])@)
                        == components(path_prefixes@[j]@),
                keys@.len() == chosen@.len(),
                forall|j: int|
                    0 <= j < chosen@.len() ==> (#[trigger] chosen@[j]) < i && asked_for(
                        changes@[chosen@[j] as int].path@,
                        texts,
                    ) && contents(keys@[j]@) == components(changes@[chosen@[j] as int].path@),
                forall|j: int, k: int|
                    0 <= j < k < chosen@.len() ==> (#[trigger] chosen@[j]) < (
                    #[trigger] chosen@[k]),
                forall|k: int|
                    0 <= k < i && asked_for((#[trigger] changes@[k]).path@, texts) ==> exists|
                        j: int,
                    |
                        0 <= j < chosen@.len() && #[trigger] chosen@[j] == k,
            decreases changes@.len() - i,
        {
            let parts: Vec<Vec<char>> = split(&changes[i].path);
            let ghost before = chosen@;
            if is_asked_for(Ghost(changes@[i as int].path@), &parts, path_prefixes, &directories) {
                chosen.push(i);
                keys.push(parts);
                assert(chosen@[before.len() as int] == i);
            }
            assert forall|k: int|
                0 <= k < i + 1 && asked_for((#[trigger] changes@[k]).path@, texts) implies exists|
                j: int,
            |
                0 <= j < chosen@.len() && #[trigger] chosen@[j] == k by {
                if k < i {
                    let j = choose|j: int| 0 <= j < before.len() && #[trigger] before[j] == k;
                    assert(chosen@[j] == k);
                }
            }
            i += 1;
        }
        proof {
            assert forall|j: int, k: int| 0 <= j < k < keys@.len() implies contents(
                #[trigger] keys@[j]@,
            ) != contents(#[trigger] keys@[k]@) by {
                let left = changes@[chosen@[j] as int].path@;
                let right = changes@[chosen@[k] as int].path@;
                law_path_order_is_total(left, right);
                assert(left != right);
            }
        }
        let order: Vec<usize> = sort_positions(&keys, 0, keys.len());
        let mut entries: Vec<StatusEntry> = Vec::new();
        let mut n: usize = 0;
        while n < order.len()
            invariant
                n <= order@.len(),
                entries@.len() == n,
                covers(order@, 0, keys@.len() as int),
                keys@.len() == chosen@.len(),
                *changes == self.client.snapshot.changes,
                forall|j: int|
                    0 <= j < chosen@.len() ==> (#[trigger] chosen@[j]) < changes@.len(),
                forall|m: int|
                    0 <= m < n ==> shows(
                        #[trigger] entries@[m],
                        changes@[chosen@[order@[m] as int] as int],
                    ),
            decreases order@.len() - n,
        {
            let change: &Change = &changes[chosen[order[n]]];
            entries.push(StatusEntry { path: change.path.clone(), status: file_status(change) });
            n += 1;
        }
        proof {
            assert forall|a: int, b: int| 0 <= a < b < entries@.len() implies path_before(
                (#[trigger] entries@[a]).path@,
                (#[trigger] entries@[b]).path@,
            ) by {
                assert(key_before(keys@, order@[a], order@[b]));
            }
            assert forall|k: int|
                0 <= k < changes@.len() && asked_for(
                    (#[trigger] changes@[k]).path@,
                    texts,
                ) implies exists|m: int|
                0 <= m < entries@.len() && shows(#[trigger] entries@[m], changes@[k]) by {
                let j = choose|j: int| 0 <= j < chosen@.len() && #[trigger] chosen@[j] == k;
                assert(order@.contains(j as usize));
                let m = choose|m: int| 0 <= m < order@.len() && order@[m] == j as usize;
                assert(shows(entries@[m], changes@[k]));
            }
        }
        Ok(entries)
    }
}

/// A baseline of a path: the base, or the staging baseline.
pub struct Baseline {
    pub path: Seq<char>,
    pub staged: bool,
}

/// The baseline that a revision such as `HEAD:path` or `:path` means.
pub open spec fn baseline_of(revision: Seq<char>) -> Option<Baseline> {
    if has_prefix(revision, "HEAD:"@) {
        Some(Baseline { path: revision.skip("HEAD:"@.len() as int), staged: false })
    } else if has_prefix(revision, ":"@) {
        Some(Baseline { path: revision.skip(":"@.len() as int), staged: true })
    } else {
        None
    }
}

/// The batch of baselines that some revisions mean.
pub open spec fn baselines(revisions: Seq<Seq<char>>) -> BatchView {
    BatchView {
        paths: revisions.map_values(|revision: Seq<char>| baseline_of(revision)->0.path),
        staged: revisions.map_values(|revision: Seq<char>| baseline_of(revision)->0.staged),
        retried: false,
    }
}

impl ExternalRepository {
    /// How the reading of some revisions begins.
    pub open spec fn loading(&self, revisions: Seq<Seq<char>>) -> StepView {
        if !self.trusted {
            StepView::Done(Err(VcsError::Untrusted))
        } else if exists|i: int|
            0 <= i < revisions.len() && baseline_of(#[trigger] revisions[i]) is None {
            StepView::Done(Err(VcsError::ArbitraryRevision))
        } else {
            begin(
                self.client.repository.id@,
                self.client.snapshot.snapshot@,
                baselines(revisions),
            )
        }
    }

    /// Begins to read the baselines that some revisions mean.
    pub fn load_revisions(&self, revisions: &Vec<String>) -> (step: ContentsStep)
        ensures
            step@ == self.loading(views(revisions@)),
            ready(step@),
    {
        match self.ensure_trusted() {
            Ok(()) => {},
            Err(error) => {
                return ContentsStep::Done(Err(error));
            },
        }
        let ghost texts = views(revisions@);
        let ghost wanted = baselines(texts);
        let mut paths: Vec<String> = Vec::new();
        let mut staged: Vec<bool> = Vec::new();
        let mut i: usize = 0;
        while i < revisions.len()
            invariant
                i <= revisions@.len(),
                texts == views(revisions@),
                wanted == baselines(texts),
                self.trusted,
                views(paths@) == wanted.paths.take(i as int),
                staged@ == wanted.staged.take(i as int),
                forall|j: int| 0 <= j < i ==> baseline_of(#[trigger] texts[j]) is Some,
            decreases revisions@.len() - i,
        {
            let revision: &String = &revisions[i];
            let ghost before = views(paths@);
            assert(texts[i as int] == revision@);
            match after_prefix(revision, "HEAD:") {
                Some(path) => {
                    assert(baseline_of(texts[i as int]) == Some(
                        Baseline { path: path@, staged: false },
                    ));
                    paths.push(path);
                    staged.push(false);
                },
                None => match after_prefix(revision, ":") {
                    Some(path) => {
                        assert(baseline_of(texts[i as int]) == Some(
                            Baseline { path: path@, staged: true },
                        ));
                        paths.push(path);
                        staged.push(true);
                    },
                    None => {
                        assert(baseline_of(texts[i as int]) is None);
                        return ContentsStep::Done(Err(VcsError::ArbitraryRevision));
                    },
                },
            }
            assert(views(paths@) =~= before.push(baseline_of(texts[i as int])->0.path));
            i += 1;
            assert(wanted.paths.take(i as int) == wanted.paths.take(i - 1).push(
                wanted.paths[i - 1],
            ));
            assert(wanted.staged.take(i as int) == wanted.staged.take(i - 1).push(
                wanted.staged[i - 1],
            ));
        }
        assert(wanted.paths.take(i as int) == wanted.paths);
        assert(wanted.staged.take(i as int) == wanted.staged);
        self.client.contents(paths, staged)
    }
}

/// Where no directories are given every path is asked for, and otherwise those that lie within one
/// of them.
pub proof fn law_paths_are_asked_for_by_directory(
    path: Seq<char>,
    directory: Seq<char>,
    first: Seq<Seq<char>>,
    rest: Seq<Seq<char>>,
)
    ensures
        asked_for(path, Seq::empty()),
        asked_for(path, seq![directory]) == lies_within(path, directory),
        first.len() > 0 && rest.len() > 0 ==> asked_for(path, first + rest) == (asked_for(
            path,
            first,
        ) || asked_for(path, rest)),
{
    let one = seq![directory];
    if lies_within(path, directory) {
        assert(lies_within(path, one[0]));
    }
    if first.len() > 0 && rest.len() > 0 {
        let both = first + rest;
        if asked_for(path, both) {
            let i = choose|i: int| 0 <= i < both.len() && #[trigger] lies_within(path, both[i]);
            if i < first.len() {
                assert(lies_within(path, first[i]));
            } else {
                assert(lies_within(path, rest[i - first.len()]));
            }
        }
        if asked_for(path, first) {
            let i = choose|i: int| 0 <= i < first.len() && #[trigger] lies_within(path, first[i]);
            assert(lies_within(path, both[i]));
        }
        if asked_for(path, rest) {
            let i = choose|i: int| 0 <= i < rest.len() && #[trigger] lies_within(path, rest[i]);
            assert(lies_within(path, both[first.len() + i]));
        }
    }
}

/// A change list holds a path exactly where it is asked for and changed, with the status of that
/// change, and holds no path twice.
pub proof fn law_change_lists_hold_what_is_asked_for(
    entries: Seq<StatusEntry>,
    changes: Seq<Change>,
    directories: Seq<Seq<char>>,
    path: Seq<char>,
)
    requires
        lists(entries, changes, directories),
    ensures
        (exists|i: int| 0 <= i < entries.len() && (#[trigger] entries[i]).path@ == path) <==> (
        asked_for(path, directories) && exists|k: int|
            0 <= k < changes.len() && (#[trigger] changes[k]).path@ == path),
        forall|i: int, k: int|
            #![trigger entries[i], changes[k]]
            0 <= i < entries.len() && 0 <= k < changes.len() && entries[i].path@
                == changes[k].path@ && asked_for(changes[k].path@, directories) ==> entries[i].status
                == status_of(changes[k].status, changes[k].staged_status),
        forall|i: int, j: int|
            0 <= i < j < entries.len() ==> (#[trigger] entries[i]).path@ != (
            #[trigger] entries[j]).path@,
{
    assert forall|i: int, j: int| 0 <= i < j < entries.len() implies (#[trigger] entries[i]).path@
        != (#[trigger] entries[j]).path@ by {
        law_path_order_is_total(entries[i].path@, entries[j].path@);
        assert(path_before(entries[i].path@, entries[j].path@));
    }
    if exists|i: int| 0 <= i < entries.len() && (#[trigger] entries[i]).path@ == path {
        let i = choose|i: int| 0 <= i < entries.len() && (#[trigger] entries[i]).path@ == path;
        let k = choose|k: int| 0 <= k < changes.len() && shows(entries[i], #[trigger] changes[k]);
        assert(changes[k].path@ == path);
    }
    if asked_for(path, directories) && exists|k: int|
        0 <= k < changes.len() && (#[trigger] changes[k]).path@ == path {
        let k = choose|k: int| 0 <= k < changes.len() && (#[trigger] changes[k]).path@ == path;
        let i = choose|i: int| 0 <= i < entries.len() && shows(#[trigger] entries[i], changes[k]);
        assert(entries[i].path@ == path);
    }
    assert forall|i: int, k: int|
        #![trigger entries[i], changes[k]]
        0 <= i < entries.len() && 0 <= k < changes.len() && entries[i].path@ == changes[k].path@
            && asked_for(changes[k].path@, directories) implies entries[i].status == status_of(
        changes[k].status,
        changes[k].staged_status,
    ) by {
        let at = choose|at: int|
            0 <= at < entries.len() && shows(#[trigger] entries[at], changes[k]);
        if at < i {
            assert(entries[at].path@ != entries[i].path@);
        } else if i < at {
            assert(entries[i].path@ != entries[at].path@);
        }
    }
}

/// A path after `HEAD:` means its base, one after `:` alone what is staged of it, and nothing else
/// means a baseline.
pub proof fn law_baselines_are_named_by_their_prefix(path: Seq<char>, revision: Seq<char>)
    ensures
        baseline_of("HEAD:"@ + path) == Some(Baseline { path, staged: false }),
        baseline_of(":"@ + path) == Some(Baseline { path, staged: true }),
        baseline_of(revision) matches Some(baseline) ==> revision == if baseline.staged {
            ":"@ + baseline.path
        } else {
            "HEAD:"@ + baseline.path
        },
{
    reveal_strlit("HEAD:");
    reveal_strlit(":");
    let base = "HEAD:"@ + path;
    let staged = ":"@ + path;
    assert(base.subrange(0, 5) =~= "HEAD:"@);
    assert(base.skip(5) =~= path);
    assert(staged.subrange(0, 1) =~= ":"@);
    assert(staged.skip(1) =~= path);
    assert(staged[0] == ':');
    assert("HEAD:"@[0] == 'H');
    if has_prefix(staged, "HEAD:"@) {
        assert(staged.subrange(0, 5)[0] == staged[0]);
    }
    law_prefixes_stand_first(revision, "HEAD:"@);
    law_prefixes_stand_first(revision, ":"@);
}

/// Reading begins with the baselines that the revisions mean, in their order, and with none where
/// one of them means none.
pub proof fn law_revisions_are_read_as_their_baselines(
    repository: ExternalRepository,
    revisions: Seq<Seq<char>>,
)
    requires
        repository.trusted,
    ensures
        forall|i: int|
            0 <= i < revisions.len() ==> {
                let path = baselines(revisions).paths[i];
                let staged = baselines(revisions).staged[i];
                baseline_of(#[trigger] revisions[i]) matches Some(baseline) ==> baseline.path == path
                    && baseline.staged == staged
            },
        baselines(revisions).paths.len() == revisions.len(),
        baselines(revisions).staged.len() == revisions.len(),
        !baselines(revisions).retried,
        (forall|i: int| 0 <= i < revisions.len() ==> baseline_of(#[trigger] revisions[i]) is Some)
            ==> repository.loading(revisions) == begin(
            repository.client.repository.id@,
            repository.client.snapshot.snapshot@,
            baselines(revisions),
        ),
        forall|i: int|
            0 <= i < revisions.len() && baseline_of(#[trigger] revisions[i]) is None
                ==> repository.loading(revisions) == StepView::Done(
                Err(VcsError::ArbitraryRevision),
            ),
{
}

} // verus!
