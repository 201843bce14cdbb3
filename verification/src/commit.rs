//! Loading the files of a commit: for each, what it held before and after, within a limit on what
//! is kept of the whole commit.

use crate::client::{commit_changes_problem, revision_request_problem};
use crate::content::{content_bytes, Content};
use crate::error::{is_size_limit_error, provider_code, VcsError, SIZE_LIMIT};
use crate::model::{valid_revision, CommitChange};
use crate::oid::resolved;
use crate::repository::ExternalRepository;
use crate::request::{optional_view, Request, RequestView};
use vstd::prelude::*;

verus! {

/// The most content of one commit that is kept, in bytes: 128 MiB.
pub const MAX_COMMIT_BYTES: usize = 134217728;

/// Why a file is left out that the provider will not send.
pub const FILE_TOO_LARGE: &'static str = "File exceeds the provider's content size limit";

/// Why a file is left out that there is no room for.
pub const COMMIT_TOO_LARGE: &'static str = "Commit diff exceeds the 128 MiB content limit";

/// A file of a commit. Where it is left out, the sides that exist are there, but empty.
#[derive(Debug, PartialEq, Eq)]
pub struct CommitFile {
    pub path: String,
    pub old_content: Option<Vec<u8>>,
    pub new_content: Option<Vec<u8>>,
    pub is_binary: bool,
    pub omitted_reason: Option<String>,
}

/// The files of a commit.
#[derive(Debug, PartialEq, Eq)]
pub struct CommitDiff {
    pub files: Vec<CommitFile>,
    pub is_shallow_boundary: bool,
}

/// What a file of a commit holds.
#[verifier::ext_equal]
pub struct FileView {
    pub path: Seq<char>,
    pub old_content: Option<Seq<u8>>,
    pub new_content: Option<Seq<u8>>,
    pub is_binary: bool,
    pub omitted_reason: Option<Seq<char>>,
}

/// What a side holds, if it exists.
pub open spec fn side_view(content: Option<Vec<u8>>) -> Option<Seq<u8>> {
    match content {
        Some(bytes) => Some(bytes@),
        None => None,
    }
}

impl View for CommitFile {
    type V = FileView;

    open spec fn view(&self) -> FileView {
        FileView {
            path: self.path@,
            old_content: side_view(self.old_content),
            new_content: side_view(self.new_content),
            is_binary: self.is_binary,
            omitted_reason: optional_view(self.omitted_reason),
        }
    }
}

/// What some files hold.
pub open spec fn file_views(files: Seq<CommitFile>) -> Seq<FileView> {
    files.map_values(|file: CommitFile| file@)
}

/// What the files of a commit are.
#[verifier::ext_equal]
pub struct DiffView {
    pub files: Seq<FileView>,
    pub is_shallow_boundary: bool,
}

impl View for CommitDiff {
    type V = DiffView;

    open spec fn view(&self) -> DiffView {
        DiffView {
            files: file_views(self.files@),
            is_shallow_boundary: self.is_shallow_boundary,
        }
    }
}

/// The files of a commit that are all there is to it: a provider's history has no boundary.
pub open spec fn diff_of(files: Seq<FileView>) -> DiffView {
    DiffView { files, is_shallow_boundary: false }
}

/// A side that was read, and whether it is binary.
#[derive(Debug)]
pub struct Side {
    pub bytes: Vec<u8>,
    pub is_binary: bool,
}

/// What a side that was read holds.
#[verifier::ext_equal]
pub struct SideView {
    pub bytes: Seq<u8>,
    pub is_binary: bool,
}

impl View for Side {
    type V = SideView;

    open spec fn view(&self) -> SideView {
        SideView { bytes: self.bytes@, is_binary: self.is_binary }
    }
}

/// What sides that were read hold, where they exist.
pub open spec fn optional_side(side: Option<Side>) -> Option<SideView> {
    match side {
        Some(side) => Some(side@),
        None => None,
    }
}

/// What was read, or why nothing was.
pub open spec fn read_view(read: Result<Side, VcsError>) -> Result<SideView, VcsError> {
    match read {
        Ok(side) => Ok(side@),
        Err(error) => Err(error),
    }
}

/// A commit whose files are being loaded: those that are done, how much is kept of them, and what
/// was read of the next.
#[derive(Debug)]
pub struct CommitLoading {
    pub changes: Vec<CommitChange>,
    pub files: Vec<CommitFile>,
    pub bytes: usize,
    pub old: Option<Side>,
}

/// What a commit that is being loaded holds.
#[verifier::ext_equal]
pub struct LoadingView {
    pub changes: Seq<CommitChange>,
    pub files: Seq<FileView>,
    pub bytes: nat,
    pub old: Option<SideView>,
}

impl View for CommitLoading {
    type V = LoadingView;

    open spec fn view(&self) -> LoadingView {
        LoadingView {
            changes: self.changes@,
            files: file_views(self.files@),
            bytes: self.bytes as nat,
            old: optional_side(self.old),
        }
    }
}

/// What a commit that is being loaded needs next, or how it ended.
#[derive(Debug)]
pub enum CommitStep {
    /// The answer to a content request.
    Read(CommitLoading, Request),
    /// Nothing: it has ended.
    Done(Result<CommitDiff, VcsError>),
}

/// What a step says.
#[verifier::ext_equal]
pub enum CommitStepView {
    Read(LoadingView, RequestView),
    Done(Result<DiffView, VcsError>),
}

impl View for CommitStep {
    type V = CommitStepView;

    open spec fn view(&self) -> CommitStepView {
        match *self {
            CommitStep::Read(loading, request) => CommitStepView::Read(loading@, request@),
            CommitStep::Done(Ok(diff)) => CommitStepView::Done(Ok(diff@)),
            CommitStep::Done(Err(error)) => CommitStepView::Done(Err(error)),
        }
    }
}

/// How much a side holds.
pub open spec fn side_bytes(content: Option<Seq<u8>>) -> nat {
    match content {
        Some(bytes) => bytes.len(),
        None => 0,
    }
}

/// How much some files hold.
pub open spec fn kept_bytes(files: Seq<FileView>) -> nat
    decreases files.len(),
{
    if files.len() == 0 {
        0
    } else {
        kept_bytes(files.drop_last()) + side_bytes(files.last().old_content) + side_bytes(
            files.last().new_content,
        )
    }
}

/// A side that is there, but empty, where there is a reference to it.
pub open spec fn placeholder(reference: Option<String>) -> Option<Seq<u8>> {
    match reference {
        Some(_) => Some(Seq::empty()),
        None => None,
    }
}

/// A file that is left out.
pub open spec fn omitted(change: CommitChange, reason: Seq<char>) -> FileView {
    FileView {
        path: change.path@,
        old_content: placeholder(change.base),
        new_content: placeholder(change.target),
        is_binary: false,
        omitted_reason: Some(reason),
    }
}

/// The bytes of a side that was read.
pub open spec fn bytes_read(side: Option<SideView>) -> Option<Seq<u8>> {
    match side {
        Some(side) => Some(side.bytes),
        None => None,
    }
}

/// A file that was read.
pub open spec fn kept(change: CommitChange, old: Option<SideView>, new: Option<SideView>) -> FileView {
    FileView {
        path: change.path@,
        old_content: bytes_read(old),
        new_content: bytes_read(new),
        is_binary: (old matches Some(old) && old.is_binary) || (new matches Some(new)
            && new.is_binary),
        omitted_reason: None,
    }
}

/// A commit with one more file, of which both sides were read as far as they exist.
pub open spec fn with_file(
    loading: LoadingView,
    old: Option<SideView>,
    new: Option<SideView>,
) -> LoadingView {
    let change = loading.changes[loading.files.len() as int];
    let bytes = loading.bytes + side_bytes(bytes_read(old)) + side_bytes(bytes_read(new));
    if bytes > MAX_COMMIT_BYTES {
        LoadingView {
            files: loading.files.push(omitted(change, COMMIT_TOO_LARGE@)),
            old: None,
            ..loading
        }
    } else {
        LoadingView { files: loading.files.push(kept(change, old, new)), bytes, old: None, ..loading }
    }
}

/// What is read next.
pub open spec fn next_read(repository: Seq<char>, loading: LoadingView) -> CommitStepView
    decreases loading.changes.len() - loading.files.len(),
{
    if loading.files.len() >= loading.changes.len() {
        CommitStepView::Done(Ok(diff_of(loading.files)))
    } else {
        let change = loading.changes[loading.files.len() as int];
        match (change.base, change.target) {
            (Some(content), _) => CommitStepView::Read(
                loading,
                RequestView::ReadContent { repository, content: content@ },
            ),
            (None, Some(content)) => CommitStepView::Read(
                loading,
                RequestView::ReadContent { repository, content: content@ },
            ),
            (None, None) => next_read(repository, with_file(loading, None, None)),
        }
    }
}

/// What follows a side that was read, or could not be. A file that the provider will not send is
/// left out, and its other side is not asked for.
pub open spec fn after_side(
    repository: Seq<char>,
    loading: LoadingView,
    read: Result<SideView, VcsError>,
) -> CommitStepView {
    let change = loading.changes[loading.files.len() as int];
    match read {
        Err(error) => if provider_code(error) == Some(SIZE_LIMIT) {
            next_read(
                repository,
                LoadingView {
                    files: loading.files.push(omitted(change, FILE_TOO_LARGE@)),
                    old: None,
                    ..loading
                },
            )
        } else {
            CommitStepView::Done(
                Err(
                    VcsError::LoadingCommitFile {
                        path: change.path,
                        source: Box::new(error),
                    },
                ),
            )
        },
        Ok(side) => if change.base is Some && loading.old is None {
            match change.target {
                Some(content) => CommitStepView::Read(
                    LoadingView { old: Some(side), ..loading },
                    RequestView::ReadContent { repository, content: content@ },
                ),
                None => next_read(repository, with_file(loading, Some(side), None)),
            }
        } else {
            next_read(repository, with_file(loading, loading.old, Some(side)))
        },
    }
}

/// Whether files are those of the first changes, each with the sides that its change has, and no
/// more of them is kept than may be.
pub open spec fn fits(changes: Seq<CommitChange>, files: Seq<FileView>) -> bool {
    &&& files.len() <= changes.len()
    &&& forall|i: int|
        0 <= i < files.len() ==> (#[trigger] files[i]).path == changes[i].path@
            && files[i].old_content is Some == changes[i].base is Some && files[i].new_content
            is Some == changes[i].target is Some
    &&& kept_bytes(files) <= MAX_COMMIT_BYTES
}

/// Whether a commit that is being loaded holds together.
pub open spec fn loading_wf(loading: LoadingView) -> bool {
    &&& fits(loading.changes, loading.files)
    &&& loading.bytes == kept_bytes(loading.files)
    &&& loading.old is Some ==> loading.files.len() < loading.changes.len() && loading.changes[
    loading.files.len() as int].base is Some && loading.changes[loading.files.len() as int].target
        is Some
}

/// Whether a commit waits for a side of its next file.
pub open spec fn awaits_side(loading: LoadingView) -> bool {
    &&& loading_wf(loading)
    &&& loading.files.len() < loading.changes.len()
    &&& loading.changes[loading.files.len() as int].base is Some || loading.changes[
    loading.files.len() as int].target is Some
}

/// Whether a step is one whose request can be answered, or the end with all files of the commit.
pub open spec fn step_wf(changes: Seq<CommitChange>, step: CommitStepView) -> bool {
    match step {
        CommitStepView::Read(loading, _) => loading.changes == changes && awaits_side(loading),
        CommitStepView::Done(Ok(diff)) => diff == diff_of(diff.files) && diff.files.len()
            == changes.len() && fits(changes, diff.files),
        CommitStepView::Done(Err(_)) => true,
    }
}

proof fn lemma_file_fits(loading: LoadingView, file: FileView)
    requires
        loading_wf(loading),
        loading.files.len() < loading.changes.len(),
        file.path == loading.changes[loading.files.len() as int].path@,
        file.old_content is Some == loading.changes[loading.files.len() as int].base is Some,
        file.new_content is Some == loading.changes[loading.files.len() as int].target is Some,
        loading.bytes + side_bytes(file.old_content) + side_bytes(file.new_content)
            <= MAX_COMMIT_BYTES,
    ensures
        fits(loading.changes, loading.files.push(file)),
        kept_bytes(loading.files.push(file)) == loading.bytes + side_bytes(file.old_content)
            + side_bytes(file.new_content),
{
    assert(loading.files.push(file).drop_last() =~= loading.files);
}

/// A file that is done, kept or left out, leaves a commit together.
proof fn lemma_with_file(loading: LoadingView, old: Option<SideView>, new: Option<SideView>)
    requires
        loading_wf(loading),
        loading.files.len() < loading.changes.len(),
        old is Some == loading.changes[loading.files.len() as int].base is Some,
        new is Some == loading.changes[loading.files.len() as int].target is Some,
    ensures
        loading_wf(with_file(loading, old, new)),
        with_file(loading, old, new).changes == loading.changes,
        with_file(loading, old, new).files.len() == loading.files.len() + 1,
{
    let after = with_file(loading, old, new);
    lemma_file_fits(loading, after.files.last());
}

/// What is read next leaves a commit together.
proof fn lemma_next_read(repository: Seq<char>, loading: LoadingView)
    requires
        loading_wf(loading),
        loading.old is None,
    ensures
        step_wf(loading.changes, next_read(repository, loading)),
    decreases loading.changes.len() - loading.files.len(),
{
    if loading.files.len() < loading.changes.len() {
        let change = loading.changes[loading.files.len() as int];
        if change.base is None && change.target is None {
            lemma_with_file(loading, None, None);
            lemma_next_read(repository, with_file(loading, None, None));
        }
    }
}

/// However a side is answered, what is kept of the commit stays within its limit, each file done
/// has the path and exactly the sides of its change, and a commit that ends well has all its files.
pub proof fn law_commit_stays_within_limit(
    repository: Seq<char>,
    loading: LoadingView,
    read: Result<SideView, VcsError>,
)
    requires
        awaits_side(loading),
    ensures
        step_wf(loading.changes, after_side(repository, loading, read)),
{
    let change = loading.changes[loading.files.len() as int];
    match read {
        Err(error) => {
            lemma_file_fits(loading, omitted(change, FILE_TOO_LARGE@));
            let left_out = LoadingView {
                files: loading.files.push(omitted(change, FILE_TOO_LARGE@)),
                old: None,
                ..loading
            };
            lemma_next_read(repository, left_out);
        },
        Ok(side) => {
            if change.base is Some && loading.old is None {
                if change.target is None {
                    lemma_with_file(loading, Some(side), None);
                    lemma_next_read(repository, with_file(loading, Some(side), None));
                }
            } else {
                lemma_with_file(loading, loading.old, Some(side));
                lemma_next_read(repository, with_file(loading, loading.old, Some(side)));
            }
        },
    }
}

/// How much a side holds.
fn side_len(side: &Option<Side>) -> (len: usize)
    ensures
        len == side_bytes(bytes_read(optional_side(*side))),
{
    match side {
        Some(side) => side.bytes.len(),
        None => 0,
    }
}

/// A side that is there, but empty, where there is a reference to it.
fn empty_side(reference: &Option<String>) -> (content: Option<Vec<u8>>)
    ensures
        side_view(content) == placeholder(*reference),
{
    match reference {
        Some(_) => {
            let content: Vec<u8> = Vec::new();
            assert(content@ =~= Seq::<u8>::empty());
            Some(content)
        },
        None => None,
    }
}

/// A file that is left out.
fn omit(change: &CommitChange, reason: &str) -> (file: CommitFile)
    ensures
        file@ == omitted(*change, reason@),
{
    CommitFile {
        path: change.path.clone(),
        old_content: empty_side(&change.base),
        new_content: empty_side(&change.target),
        is_binary: false,
        omitted_reason: Some(reason.to_owned()),
    }
}

/// A file that was read.
fn keep(change: &CommitChange, old: Option<Side>, new: Option<Side>) -> (file: CommitFile)
    ensures
        file@ == kept(*change, optional_side(old), optional_side(new)),
{
    let old_binary: bool = match &old {
        Some(side) => side.is_binary,
        None => false,
    };
    let new_binary: bool = match &new {
        Some(side) => side.is_binary,
        None => false,
    };
    CommitFile {
        path: change.path.clone(),
        old_content: match old {
            Some(side) => Some(side.bytes),
            None => None,
        },
        new_content: match new {
            Some(side) => Some(side.bytes),
            None => None,
        },
        is_binary: old_binary || new_binary,
        omitted_reason: None,
    }
}

impl CommitLoading {
    /// Adds a file, of which both sides were read as far as they exist.
    fn finish_file(self, old: Option<Side>, new: Option<Side>) -> (loading: CommitLoading)
        requires
            self.files@.len() < self.changes@.len(),
            self.bytes <= MAX_COMMIT_BYTES,
        ensures
            loading@ == with_file(self@, optional_side(old), optional_side(new)),
            loading.bytes <= MAX_COMMIT_BYTES,
    {
        let ghost before = self@;
        let mut loading: CommitLoading = self;
        let room: usize = MAX_COMMIT_BYTES - loading.bytes;
        let old_len: usize = side_len(&old);
        let new_len: usize = side_len(&new);
        let change: &CommitChange = &loading.changes[loading.files.len()];
        let file: CommitFile = if old_len > room || new_len > room - old_len {
            omit(change, COMMIT_TOO_LARGE)
        } else {
            loading.bytes = loading.bytes + old_len + new_len;
            keep(change, old, new)
        };
        loading.files.push(file);
        loading.old = None;
        assert(loading@.files =~= before.files.push(file@));
        loading
    }

    /// Finds what is read next.
    fn next_read(self, repository: &str) -> (step: CommitStep)
        requires
            loading_wf(self@),
            self.old is None,
        ensures
            step@ == next_read(repository@, self@),
            step_wf(self@.changes, step@),
    {
        proof {
            lemma_next_read(repository@, self@);
        }
        let mut loading: CommitLoading = self;
        while loading.files.len() < loading.changes.len()
            invariant
                loading_wf(loading@),
                loading.old is None,
                loading@.changes == self@.changes,
                next_read(repository@, loading@) == next_read(repository@, self@),
                step_wf(self@.changes, next_read(repository@, self@)),
            decreases loading@.changes.len() - loading@.files.len(),
        {
            let change: &CommitChange = &loading.changes[loading.files.len()];
            let reference: &Option<String> = if change.base.is_some() {
                &change.base
            } else {
                &change.target
            };
            if let Some(reference) = reference {
                let request: Request = Request::ReadContent {
                    repository: repository.to_owned(),
                    content: reference.clone(),
                };
                return CommitStep::Read(loading, request);
            }
            proof {
                lemma_with_file(loading@, None, None);
            }
            loading = loading.finish_file(None, None);
        }
        CommitStep::Done(Ok(CommitDiff { files: loading.files, is_shallow_boundary: false }))
    }

    /// Takes a side that was read, or could not be.
    pub fn side_read(self, repository: &str, read: Result<Side, VcsError>) -> (step: CommitStep)
        requires
            awaits_side(self@),
        ensures
            step@ == after_side(repository@, self@, read_view(read)),
            step_wf(self@.changes, step@),
    {
        let ghost before = self@;
        proof {
            law_commit_stays_within_limit(repository@, self@, read_view(read));
        }
        let mut loading: CommitLoading = self;
        let change: &CommitChange = &loading.changes[loading.files.len()];
        match read {
            Err(error) => {
                if !is_size_limit_error(&error) {
                    return CommitStep::Done(
                        Err(
                            VcsError::LoadingCommitFile {
                                path: change.path.clone(),
                                source: Box::new(error),
                            },
                        ),
                    );
                }
                let file: CommitFile = omit(change, FILE_TOO_LARGE);
                proof {
                    lemma_file_fits(before, file@);
                }
                loading.files.push(file);
                loading.old = None;
                assert(loading@.files =~= before.files.push(file@));
                loading.next_read(repository)
            },
            Ok(side) => {
                if change.base.is_some() && loading.old.is_none() {
                    if let Some(reference) = &change.target {
                        let request: Request = Request::ReadContent {
                            repository: repository.to_owned(),
                            content: reference.clone(),
                        };
                        loading.old = Some(side);
                        return CommitStep::Read(loading, request);
                    }
                    proof {
                        lemma_with_file(before, Some(side@), None);
                    }
                    return loading.finish_file(Some(side), None).next_read(repository);
                }
                proof {
                    lemma_with_file(before, before.old, Some(side@));
                }
                let old: Option<Side> = loading.old;
                loading.old = None;
                loading.finish_file(old, Some(side)).next_read(repository)
            },
        }
    }
}

impl ExternalRepository {
    /// The revision of a commit whose files are to be loaded.
    pub open spec fn commit_to_load(&self, commit: Seq<char>) -> Result<Seq<char>, VcsError> {
        if !self.trusted {
            Err(VcsError::Untrusted)
        } else {
            match resolved(self.known().revisions, self.head(), commit) {
                Err(error) => Err(error),
                Ok(revision) => match revision_request_problem(
                    self.client.capabilities,
                    revision,
                ) {
                    Some(problem) => Err(problem),
                    None => Ok(revision),
                },
            }
        }
    }

    /// Asks which files a commit changes.
    pub fn load_commit_request(&self, commit: &str) -> (request: Result<Request, VcsError>)
        ensures
            match self.commit_to_load(commit@) {
                Err(error) => request == Err::<Request, VcsError>(error),
                Ok(revision) => request matches Ok(request) && request@ == (
                RequestView::CommitChanges { repository: self.client.repository.id@, revision }),
            },
    {
        self.ensure_trusted()?;
        let revision: String = self.revision(commit)?;
        self.client.commit_changes_request(&revision)
    }

    /// Takes which files a commit changes, and begins to load them.
    pub fn load_commit(&self, reply: Result<Vec<CommitChange>, VcsError>) -> (step: CommitStep)
        ensures
            match accepted_changes(reply) {
                Err(error) => step@ == CommitStepView::Done(Err(error)),
                Ok(changes) => step@ == next_read(
                    self.client.repository.id@,
                    unloaded(changes),
                ) && step_wf(changes, step@),
            },
    {
        match self.client.commit_changes(reply) {
            Err(error) => CommitStep::Done(Err(error)),
            Ok(changes) => {
                let loading: CommitLoading = CommitLoading {
                    changes,
                    files: Vec::new(),
                    bytes: 0,
                    old: None,
                };
                assert(loading@ == unloaded(changes@));
                loading.next_read(&self.client.repository.id)
            },
        }
    }

    /// Takes the answer to a content request of a commit, and whether what it brings is binary.
    pub fn load_commit_read(
        &self,
        loading: CommitLoading,
        reply: Result<Content, VcsError>,
        is_binary: bool,
    ) -> (step: CommitStep)
        requires
            awaits_side(loading@),
        ensures
            step@ == after_side(
                self.client.repository.id@,
                loading@,
                side_of_reply(reply, is_binary),
            ),
            step_wf(loading@.changes, step@),
    {
        let read: Result<Side, VcsError> = match self.client.read_content(reply) {
            Ok(bytes) => Ok(Side { bytes, is_binary }),
            Err(error) => Err(error),
        };
        assert(read_view(read) == side_of_reply(reply, is_binary));
        loading.side_read(&self.client.repository.id, read)
    }
}

/// The files of an answer, or its error, or what is wrong with it.
pub open spec fn accepted_changes(reply: Result<Vec<CommitChange>, VcsError>) -> Result<
    Seq<CommitChange>,
    VcsError,
> {
    match reply {
        Err(error) => Err(error),
        Ok(changes) => match commit_changes_problem(changes@) {
            Some(problem) => Err(problem),
            None => Ok(changes@),
        },
    }
}

/// A commit of which nothing is loaded.
pub open spec fn unloaded(changes: Seq<CommitChange>) -> LoadingView {
    LoadingView { changes, files: Seq::empty(), bytes: 0, old: None }
}

/// The side that an answer brings.
pub open spec fn side_of_reply(reply: Result<Content, VcsError>, is_binary: bool) -> Result<
    SideView,
    VcsError,
> {
    match reply {
        Err(error) => Err(error),
        Ok(content) => match content_bytes(content) {
            Err(error) => Err(error),
            Ok(bytes) => Ok(SideView { bytes, is_binary }),
        },
    }
}

/// What lies behind a reference, if there is one.
pub open spec fn behind(
    reference: Option<String>,
    sides: spec_fn(Seq<char>) -> SideView,
) -> Option<SideView> {
    match reference {
        Some(reference) => Some(sides(reference@)),
        None => None,
    }
}

/// The files that a commit's references lead to.
pub open spec fn whole_files(
    changes: Seq<CommitChange>,
    sides: spec_fn(Seq<char>) -> SideView,
) -> Seq<FileView> {
    changes.map_values(
        |change: CommitChange|
            kept(change, behind(change.base, sides), behind(change.target, sides)),
    )
}

/// Where a step gets to when every content request is answered with what lies behind its
/// reference.
pub open spec fn loaded_from(
    repository: Seq<char>,
    step: CommitStepView,
    sides: spec_fn(Seq<char>) -> SideView,
    fuel: nat,
) -> CommitStepView
    decreases fuel,
{
    match step {
        CommitStepView::Read(loading, RequestView::ReadContent { repository: _, content }) => if fuel
            == 0 {
            step
        } else {
            loaded_from(
                repository,
                after_side(repository, loading, Ok(sides(content))),
                sides,
                (fuel - 1) as nat,
            )
        },
        _ => step,
    }
}

proof fn lemma_kept_bytes_grow(files: Seq<FileView>, n: int)
    requires
        0 <= n <= files.len(),
    ensures
        kept_bytes(files.take(n)) <= kept_bytes(files),
    decreases files.len() - n,
{
    if n < files.len() {
        lemma_kept_bytes_grow(files, n + 1);
        assert(files.take(n + 1).drop_last() =~= files.take(n));
    } else {
        assert(files.take(n) =~= files);
    }
}

/// The law, for a commit of which some files are done.
proof fn lemma_loaded(
    repository: Seq<char>,
    loading: LoadingView,
    sides: spec_fn(Seq<char>) -> SideView,
    fuel: nat,
)
    requires
        loading.files == whole_files(loading.changes, sides).take(loading.files.len() as int),
        loading.files.len() <= loading.changes.len(),
        loading.bytes == kept_bytes(loading.files),
        loading.old is None,
        kept_bytes(whole_files(loading.changes, sides)) <= MAX_COMMIT_BYTES,
        fuel >= 2 * (loading.changes.len() - loading.files.len()),
    ensures
        loaded_from(repository, next_read(repository, loading), sides, fuel)
            == CommitStepView::Done(Ok(diff_of(whole_files(loading.changes, sides)))),
    decreases loading.changes.len() - loading.files.len(),
{
    let whole = whole_files(loading.changes, sides);
    let n = loading.files.len() as int;
    if n < loading.changes.len() {
        let change = loading.changes[n];
        let old = behind(change.base, sides);
        let new = behind(change.target, sides);
        let after = with_file(loading, old, new);
        lemma_kept_bytes_grow(whole, n + 1);
        assert(whole.take(n + 1).drop_last() =~= whole.take(n));
        assert(whole[n] == kept(change, old, new));
        assert(after.files =~= whole.take(n + 1));
        if change.base is Some && change.target is Some {
            lemma_loaded(repository, after, sides, (fuel - 2) as nat);
            let half = LoadingView { old, ..loading };
            assert(with_file(half, old, new) == after);
            assert(after_side(repository, half, Ok(new->0)) == next_read(repository, after));
            assert(after_side(repository, loading, Ok(old->0)) == CommitStepView::Read(
                half,
                RequestView::ReadContent { repository, content: change.target->0@ },
            ));
            reveal_with_fuel(loaded_from, 3);
        } else if change.base is Some || change.target is Some {
            lemma_loaded(repository, after, sides, (fuel - 1) as nat);
            reveal_with_fuel(loaded_from, 2);
        } else {
            lemma_loaded(repository, after, sides, fuel);
        }
    } else {
        assert(whole.take(n) =~= whole);
    }
}

/// Where everything that a commit's references lead to fits within the limit, and every content
/// request is answered with it, the commit ends with all of its files, in order and whole.
pub proof fn law_commit_is_loaded_whole(
    repository: Seq<char>,
    changes: Seq<CommitChange>,
    sides: spec_fn(Seq<char>) -> SideView,
)
    requires
        kept_bytes(whole_files(changes, sides)) <= MAX_COMMIT_BYTES,
    ensures
        loaded_from(
            repository,
            next_read(repository, unloaded(changes)),
            sides,
            (2 * changes.len()) as nat,
        ) == CommitStepView::Done(Ok(diff_of(whole_files(changes, sides)))),
{
    assert(whole_files(changes, sides).take(0) =~= Seq::<FileView>::empty());
    lemma_loaded(repository, unloaded(changes), sides, (2 * changes.len()) as nat);
}

/// Where a step gets to within `n` content requests, each answered for its reference.
pub open spec fn loaded_with(
    repository: Seq<char>,
    step: CommitStepView,
    answers: spec_fn(Seq<char>) -> Result<SideView, VcsError>,
    n: nat,
) -> CommitStepView
    decreases n,
{
    match step {
        CommitStepView::Read(loading, RequestView::ReadContent { repository: _, content }) => if n
            == 0 {
            step
        } else {
            loaded_with(
                repository,
                after_side(repository, loading, answers(content)),
                answers,
                (n - 1) as nat,
            )
        },
        _ => step,
    }
}

/// The content of both sides of some files, in bytes.
pub open spec fn content_total(files: Seq<FileView>) -> nat
    decreases files.len(),
{
    if files.len() == 0 {
        0
    } else {
        content_total(files.drop_last()) + content_length(files.last().old_content)
            + content_length(files.last().new_content)
    }
}

/// The content of a side, in bytes.
pub open spec fn content_length(content: Option<Seq<u8>>) -> nat {
    match content {
        Some(bytes) => bytes.len(),
        None => 0,
    }
}

/// Whether content is exactly what a reference was answered with, and there is none exactly where
/// there is no reference.
pub open spec fn is_answer(
    content: Option<Seq<u8>>,
    reference: Option<String>,
    answers: spec_fn(Seq<char>) -> Result<SideView, VcsError>,
) -> bool {
    match reference {
        Some(reference) => answers(reference@) is Ok && content == Some(
            answers(reference@)->Ok_0.bytes,
        ),
        None => content is None,
    }
}

/// Whether a reference was answered with what is binary.
pub open spec fn is_binary_answer(
    reference: Option<String>,
    answers: spec_fn(Seq<char>) -> Result<SideView, VcsError>,
) -> bool {
    reference matches Some(reference) && answers(reference@) is Ok && answers(
        reference@,
    )->Ok_0.is_binary
}

/// Whether a reference was answered with an error.
pub open spec fn is_refused(
    reference: Option<String>,
    answers: spec_fn(Seq<char>) -> Result<SideView, VcsError>,
    error: VcsError,
) -> bool {
    reference matches Some(reference) && answers(reference@) == Err::<SideView, VcsError>(error)
}

/// Whether the provider would not send what is behind a reference for its size.
pub open spec fn is_too_large(
    reference: Option<String>,
    answers: spec_fn(Seq<char>) -> Result<SideView, VcsError>,
) -> bool {
    exists|error: VcsError| #[trigger]
        is_refused(reference, answers, error) && provider_code(error) == Some(-32002i64)
}

/// Whether a file is right for its change, when `before` bytes are kept of those before it: with
/// exactly the answers for its sides where it is not left out; and where it is, with nothing in the
/// sides that exist, because the provider would not send one of them, or because both together
/// would be too much.
pub open spec fn is_right(
    file: FileView,
    change: CommitChange,
    before: nat,
    answers: spec_fn(Seq<char>) -> Result<SideView, VcsError>,
) -> bool {
    &&& file.path == change.path@
    &&& match file.omitted_reason {
        None => {
            &&& is_answer(file.old_content, change.base, answers)
            &&& is_answer(file.new_content, change.target, answers)
            &&& file.is_binary == (is_binary_answer(change.base, answers) || is_binary_answer(
                change.target,
                answers,
            ))
            &&& before + content_length(file.old_content) + content_length(file.new_content)
                <= 134217728
        },
        Some(reason) => {
            &&& file.old_content == (if change.base is Some {
                Some(Seq::<u8>::empty())
            } else {
                None
            })
            &&& file.new_content == (if change.target is Some {
                Some(Seq::<u8>::empty())
            } else {
                None
            })
            &&& !file.is_binary
            &&& {
                ||| reason == "File exceeds the provider's content size limit"@ && (is_too_large(
                    change.base,
                    answers,
                ) || is_too_large(change.target, answers))
                ||| reason == "Commit diff exceeds the 128 MiB content limit"@ && exists|
                    old: Option<Seq<u8>>,
                    new: Option<Seq<u8>>,
                |
                    #![trigger is_answer(old, change.base, answers), is_answer(
                        new,
                        change.target,
                        answers,
                    )]
                    is_answer(old, change.base, answers) && is_answer(new, change.target, answers)
                        && before + content_length(old) + content_length(new) > 134217728
            }
        },
    }
}

/// Whether each file is right for its change.
pub open spec fn are_right(
    files: Seq<FileView>,
    changes: Seq<CommitChange>,
    answers: spec_fn(Seq<char>) -> Result<SideView, VcsError>,
) -> bool {
    forall|i: int|
        0 <= i < files.len() ==> is_right(
            #[trigger] files[i],
            changes[i],
            content_total(files.take(i)),
            answers,
        )
}

/// Whether an error is that of a side which was refused, other than for its size.
pub open spec fn is_failure(
    error: VcsError,
    change: CommitChange,
    answers: spec_fn(Seq<char>) -> Result<SideView, VcsError>,
) -> bool {
    error matches VcsError::LoadingCommitFile { path, source } && path == change.path
        && provider_code(*source) != Some(-32002i64) && (is_refused(change.base, answers, *source)
        || is_refused(change.target, answers, *source))
}

/// A right file more leaves all files right.
proof fn lemma_right_file(
    loading: LoadingView,
    file: FileView,
    answers: spec_fn(Seq<char>) -> Result<SideView, VcsError>,
)
    requires
        are_right(loading.files, loading.changes, answers),
        loading.bytes == content_total(loading.files),
        loading.files.len() < loading.changes.len(),
        is_right(file, loading.changes[loading.files.len() as int], loading.bytes, answers),
    ensures
        are_right(loading.files.push(file), loading.changes, answers),
        content_total(loading.files.push(file)) == loading.bytes + content_length(file.old_content)
            + content_length(file.new_content),
{
    let files = loading.files.push(file);
    assert(files.drop_last() =~= loading.files);
    assert forall|i: int| 0 <= i < files.len() implies is_right(
        #[trigger] files[i],
        loading.changes[i],
        content_total(files.take(i)),
        answers,
    ) by {
        assert(files.take(i) =~= loading.files.take(i));
        if i < loading.files.len() {
            assert(files[i] == loading.files[i]);
        } else {
            assert(loading.files.take(i) =~= loading.files);
        }
    }
}

/// A file both sides of which were answered is right.
proof fn lemma_right_with_file(
    loading: LoadingView,
    old: Option<SideView>,
    new: Option<SideView>,
    answers: spec_fn(Seq<char>) -> Result<SideView, VcsError>,
)
    requires
        are_right(loading.files, loading.changes, answers),
        loading.bytes == content_total(loading.files),
        loading.files.len() < loading.changes.len(),
        was_answered(old, loading.changes[loading.files.len() as int].base, answers),
        was_answered(new, loading.changes[loading.files.len() as int].target, answers),
    ensures
        ({
            let after = with_file(loading, old, new);
            &&& are_right(after.files, after.changes, answers)
            &&& after.bytes == content_total(after.files)
            &&& after.files.len() == loading.files.len() + 1
            &&& after.changes == loading.changes
            &&& after.old is None
        }),
{
    let change = loading.changes[loading.files.len() as int];
    let file = with_file(loading, old, new).files.last();
    assert(is_answer(bytes_read(old), change.base, answers));
    assert(is_answer(bytes_read(new), change.target, answers));
    lemma_right_file(loading, file, answers);
}

/// Whether a side is the answer for a reference, where there is one.
spec fn was_answered(
    side: Option<SideView>,
    reference: Option<String>,
    answers: spec_fn(Seq<char>) -> Result<SideView, VcsError>,
) -> bool {
    match reference {
        Some(reference) => side matches Some(side) && answers(reference@) == Ok::<
            SideView,
            VcsError,
        >(side),
        None => side is None,
    }
}

/// Whether a step ends a commit as the law says.
spec fn ends_right(
    step: CommitStepView,
    changes: Seq<CommitChange>,
    answers: spec_fn(Seq<char>) -> Result<SideView, VcsError>,
) -> bool {
    match step {
        CommitStepView::Done(Ok(diff)) => !diff.is_shallow_boundary && diff.files.len()
            == changes.len() && are_right(diff.files, changes, answers),
        CommitStepView::Done(Err(error)) => exists|i: int|
            0 <= i < changes.len() && is_failure(error, #[trigger] changes[i], answers),
        _ => false,
    }
}

/// The law, for a commit of which some files are done.
proof fn lemma_loaded_right(
    repository: Seq<char>,
    loading: LoadingView,
    answers: spec_fn(Seq<char>) -> Result<SideView, VcsError>,
    n: nat,
)
    requires
        are_right(loading.files, loading.changes, answers),
        loading.bytes == content_total(loading.files),
        loading.files.len() <= loading.changes.len(),
        loading.old is None,
        n >= 2 * (loading.changes.len() - loading.files.len()),
    ensures
        ends_right(
            loaded_with(repository, next_read(repository, loading), answers, n),
            loading.changes,
            answers,
        ),
    decreases loading.changes.len() - loading.files.len(), 1int,
{
    let k = loading.files.len() as int;
    if k < loading.changes.len() {
        let change = loading.changes[k];
        if change.base is None && change.target is None {
            lemma_right_with_file(loading, None, None, answers);
            lemma_loaded_right(repository, with_file(loading, None, None), answers, n);
        } else {
            let first = if change.base is Some {
                change.base->0@
            } else {
                change.target->0@
            };
            match answers(first) {
                Err(error) => {
                    lemma_refused_right(repository, loading, error, answers, (n - 1) as nat);
                },
                Ok(side) => {
                    if change.base is Some && change.target is Some {
                        let half = LoadingView { old: Some(side), ..loading };
                        match answers(change.target->0@) {
                            Err(error) => {
                                lemma_refused_right(
                                    repository,
                                    half,
                                    error,
                                    answers,
                                    (n - 2) as nat,
                                );
                            },
                            Ok(new) => {
                                lemma_right_with_file(half, Some(side), Some(new), answers);
                                lemma_loaded_right(
                                    repository,
                                    with_file(half, Some(side), Some(new)),
                                    answers,
                                    (n - 2) as nat,
                                );
                            },
                        }
                        reveal_with_fuel(loaded_with, 3);
                    } else {
                        let old = if change.base is Some {
                            Some(side)
                        } else {
                            None
                        };
                        let new = if change.base is Some {
                            None
                        } else {
                            Some(side)
                        };
                        lemma_right_with_file(loading, old, new, answers);
                        lemma_loaded_right(
                            repository,
                            with_file(loading, old, new),
                            answers,
                            (n - 1) as nat,
                        );
                        reveal_with_fuel(loaded_with, 2);
                    }
                },
            }
        }
    }
}

/// The law, where a side of the next file was refused.
proof fn lemma_refused_right(
    repository: Seq<char>,
    loading: LoadingView,
    error: VcsError,
    answers: spec_fn(Seq<char>) -> Result<SideView, VcsError>,
    n: nat,
)
    requires
        are_right(loading.files, loading.changes, answers),
        loading.bytes == content_total(loading.files),
        loading.files.len() < loading.changes.len(),
        is_refused(loading.changes[loading.files.len() as int].base, answers, error)
            || is_refused(loading.changes[loading.files.len() as int].target, answers, error),
        n >= 2 * (loading.changes.len() - loading.files.len() - 1),
    ensures
        ends_right(
            loaded_with(repository, after_side(repository, loading, Err(error)), answers, n),
            loading.changes,
            answers,
        ),
    decreases loading.changes.len() - loading.files.len(), 0int,
{
    let change = loading.changes[loading.files.len() as int];
    if provider_code(error) == Some(SIZE_LIMIT) {
        let file = omitted(change, FILE_TOO_LARGE@);
        lemma_right_file(loading, file, answers);
        lemma_loaded_right(
            repository,
            LoadingView { files: loading.files.push(file), old: None, ..loading },
            answers,
            n,
        );
    } else {
        match after_side(repository, loading, Err(error)) {
            CommitStepView::Done(Err(failure)) => {
                assert(is_failure(failure, change, answers));
            },
            _ => {},
        }
    }
}

/// However the content requests of a commit are answered: where it ends well it has one file per
/// change, in order, each of its path. A file that is not left out holds exactly what the requests
/// for its base and for its target were answered with, and nothing on a side that its change does
/// not have; with it no more than the limit is kept. A file is left out only because the provider
/// would not send one of its sides for its size, or because both would exceed the limit, and then
/// the sides that exist are empty. The commit ends in error only with that of a side that was
/// refused for another reason. There is no other end.
pub proof fn law_commit_holds_what_was_answered(
    repository: Seq<char>,
    changes: Seq<CommitChange>,
    answers: spec_fn(Seq<char>) -> Result<SideView, VcsError>,
)
    ensures
        match loaded_with(
            repository,
            next_read(repository, unloaded(changes)),
            answers,
            (2 * changes.len()) as nat,
        ) {
            CommitStepView::Done(Ok(diff)) => {
                &&& !diff.is_shallow_boundary
                &&& diff.files.len() == changes.len()
                &&& forall|i: int|
                    0 <= i < diff.files.len() ==> {
                        let file = #[trigger] diff.files[i];
                        let change = changes[i];
                        &&& file.path == change.path@
                        &&& file.old_content is Some <==> change.base is Some
                        &&& file.new_content is Some <==> change.target is Some
                        &&& file.omitted_reason is None ==> {
                            &&& change.base matches Some(reference) ==> answers(reference@) is Ok
                                && file.old_content->0 == answers(reference@)->Ok_0.bytes
                            &&& change.target matches Some(reference) ==> answers(reference@) is Ok
                                && file.new_content->0 == answers(reference@)->Ok_0.bytes
                            &&& file.is_binary == (is_binary_answer(change.base, answers)
                                || is_binary_answer(change.target, answers))
                        }
                        &&& file.omitted_reason is Some ==> {
                            &&& change.base is Some ==> file.old_content->0.len() == 0
                            &&& change.target is Some ==> file.new_content->0.len() == 0
                            &&& !file.is_binary
                        }
                        &&& is_right(file, change, content_total(diff.files.take(i)), answers)
                    }
            },
            CommitStepView::Done(Err(error)) => exists|i: int|
                0 <= i < changes.len() && is_failure(error, #[trigger] changes[i], answers),
            _ => false,
        },
{
    lemma_loaded_right(repository, unloaded(changes), answers, (2 * changes.len()) as nat);
    match loaded_with(
        repository,
        next_read(repository, unloaded(changes)),
        answers,
        (2 * changes.len()) as nat,
    ) {
        CommitStepView::Done(Ok(diff)) => {
            assert forall|i: int| 0 <= i < diff.files.len() implies is_right(
                #[trigger] diff.files[i],
                changes[i],
                content_total(diff.files.take(i)),
                answers,
            ) by {}
        },
        _ => {},
    }
}

/// Whatever a commit reads next, it reads of its repository, and of the first change without a file:
/// its base, or its target once the base was read or where there is none. What was done before
/// stays as it is.
pub proof fn law_commit_reads_its_changes_in_order(
    repository: Seq<char>,
    loading: LoadingView,
    read: Result<SideView, VcsError>,
)
    requires
        awaits_side(loading),
    ensures
        match after_side(repository, loading, read) {
            CommitStepView::Read(next, RequestView::ReadContent { repository: asked, content }) => {
                let k = next.files.len() as int;
                &&& asked == repository
                &&& next.changes == loading.changes
                &&& loading.files.is_prefix_of(next.files)
                &&& k < next.changes.len()
                &&& next.old is None ==> k > loading.files.len() && (if next.changes[k].base is Some {
                    content == next.changes[k].base->0@
                } else {
                    next.changes[k].target is Some && content == next.changes[k].target->0@
                })
                &&& next.old matches Some(side) ==> k == loading.files.len() && read == Ok::<
                    SideView,
                    VcsError,
                >(side) && next.changes[k].target is Some && content == next.changes[k].target->0@
            },
            CommitStepView::Done(Ok(diff)) => loading.files.is_prefix_of(diff.files),
            CommitStepView::Done(Err(_)) => true,
            _ => false,
        },
{
    let change = loading.changes[loading.files.len() as int];
    match read {
        Err(_) => {
            let left_out = LoadingView {
                files: loading.files.push(omitted(change, FILE_TOO_LARGE@)),
                old: None,
                ..loading
            };
            lemma_next_read_in_order(repository, left_out, loading.files);
        },
        Ok(side) => {
            if change.base is Some && loading.old is None {
                if change.target is None {
                    lemma_next_read_in_order(
                        repository,
                        with_file(loading, Some(side), None),
                        loading.files,
                    );
                }
            } else {
                lemma_next_read_in_order(
                    repository,
                    with_file(loading, loading.old, Some(side)),
                    loading.files,
                );
            }
        },
    }
}

proof fn lemma_next_read_in_order(
    repository: Seq<char>,
    loading: LoadingView,
    before: Seq<FileView>,
)
    requires
        before.is_prefix_of(loading.files),
        before.len() < loading.files.len() <= loading.changes.len(),
        loading.old is None,
    ensures
        match next_read(repository, loading) {
            CommitStepView::Read(next, RequestView::ReadContent { repository: asked, content }) => {
                let k = next.files.len() as int;
                &&& asked == repository
                &&& next.changes == loading.changes
                &&& before.is_prefix_of(next.files)
                &&& before.len() < k < next.changes.len()
                &&& next.old is None
                &&& if next.changes[k].base is Some {
                    content == next.changes[k].base->0@
                } else {
                    next.changes[k].target is Some && content == next.changes[k].target->0@
                }
            },
            CommitStepView::Done(Ok(diff)) => before.is_prefix_of(diff.files),
            _ => false,
        },
    decreases loading.changes.len() - loading.files.len(),
{
    if loading.files.len() < loading.changes.len() {
        let change = loading.changes[loading.files.len() as int];
        if change.base is None && change.target is None {
            let after = with_file(loading, None, None);
            assert(before =~= after.files.subrange(0, before.len() as int)) by {
                assert(before =~= loading.files.subrange(0, before.len() as int));
            }
            lemma_next_read_in_order(repository, after, before);
        }
    }
}

/// The side that an answer brings holds exactly the bytes of its content, and comes exactly where
/// there is an answer and its content can be read; otherwise there is an error.
pub proof fn law_sides_hold_what_the_answer_does(
    reply: Result<Content, VcsError>,
    is_binary: bool,
)
    ensures
        side_of_reply(reply, is_binary) is Ok <==> reply is Ok && content_bytes(reply->Ok_0) is Ok,
        side_of_reply(reply, is_binary) matches Ok(side) ==> content_bytes(reply->Ok_0) == Ok::<
            Seq<u8>,
            VcsError,
        >(side.bytes) && side.is_binary == is_binary,
        reply matches Err(error) ==> side_of_reply(reply, is_binary) == Err::<SideView, VcsError>(
            error,
        ),
        reply matches Ok(content) ==> (content_bytes(content) matches Err(error) ==> side_of_reply(
            reply,
            is_binary,
        ) == Err::<SideView, VcsError>(error)),
{
}

/// The files of a commit are asked for by the revision that its name stands for, where the
/// repository is trusted, there is history and the revision may be one.
pub proof fn law_commits_are_loaded_by_what_they_stand_for(
    repository: ExternalRepository,
    commit: Seq<char>,
)
    ensures
        ({
            let meant = resolved(repository.known().revisions, repository.head(), commit);
            let loaded = repository.commit_to_load(commit);
            &&& loaded is Ok <==> repository.trusted && meant is Ok
                && repository.client.capabilities.history && valid_revision(meant->Ok_0)
            &&& loaded is Ok ==> loaded == meant
            &&& !repository.trusted ==> loaded == Err::<Seq<char>, VcsError>(VcsError::Untrusted)
            &&& repository.trusted ==> (meant matches Err(error) ==> loaded == Err::<
                Seq<char>,
                VcsError,
            >(error))
        }),
{
}

/// The files of an answer are taken as they came, exactly where nothing is wrong with them.
pub proof fn law_changes_are_taken_as_they_came(reply: Result<Vec<CommitChange>, VcsError>)
    ensures
        accepted_changes(reply) is Ok <==> reply is Ok && commit_changes_problem(
            reply->Ok_0@,
        ) is None,
        accepted_changes(reply) matches Ok(changes) ==> changes == reply->Ok_0@,
        reply matches Err(error) ==> accepted_changes(reply) == Err::<Seq<CommitChange>, VcsError>(
            error,
        ),
        reply is Ok ==> (commit_changes_problem(reply->Ok_0@) matches Some(problem)
            ==> accepted_changes(reply) == Err::<Seq<CommitChange>, VcsError>(problem)),
{
}

} // verus!
