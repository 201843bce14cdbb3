//! Reading the baselines of a batch of paths: compare, then read what the comparison refers to;
//! where the snapshot has expired meanwhile, refresh it and begin again, once.

use crate::client::{status_problem, Client};
use crate::content::{content_bytes, decode_content, Content};
use crate::error::{is_expired_error, provider_code, VcsError, EXPIRED};
use crate::model::{
    first_problem, lemma_first_is_first, lemma_first_problem, lemma_no_problem, Comparison, Snapshot,
};
use crate::path::{path_problem, valid_path, validate_path};
use crate::request::{optional_view, views, Request, RequestView};
use vstd::prelude::*;

verus! {

/// The most paths of one batch.
pub const MAX_BATCH_PATHS: usize = 4096;

/// A batch: some paths, which baseline of each is wanted, and whether it has begun again.
#[derive(Debug)]
pub struct Batch {
    pub paths: Vec<String>,
    pub staged: Vec<bool>,
    pub retried: bool,
}

/// A batch whose contents are being read.
#[derive(Debug)]
pub struct Reading {
    pub batch: Batch,
    pub comparisons: Vec<Comparison>,
    pub contents: Vec<Option<Vec<u8>>>,
}

/// What a batch needs next, or how it ended.
#[derive(Debug)]
pub enum ContentsStep {
    /// The answer to a comparison request.
    Compare(Batch, Request),
    /// The answer to a content request.
    Read(Reading, Request),
    /// The answer to a status request.
    Refresh(Batch, Request),
    /// Nothing: it has ended.
    Done(Result<Vec<Option<Vec<u8>>>, VcsError>),
}

/// What a batch holds.
#[verifier::ext_equal]
pub struct BatchView {
    pub paths: Seq<Seq<char>>,
    pub staged: Seq<bool>,
    pub retried: bool,
}

/// What a batch that is being read holds.
#[verifier::ext_equal]
pub struct ReadingView {
    pub batch: BatchView,
    pub comparisons: Seq<Comparison>,
    pub contents: Seq<Option<Seq<u8>>>,
}

/// What a step says.
#[verifier::ext_equal]
pub enum StepView {
    Compare(BatchView, RequestView),
    Read(ReadingView, RequestView),
    Refresh(BatchView, RequestView),
    Done(Result<Seq<Option<Seq<u8>>>, VcsError>),
}

/// What some contents are.
pub open spec fn contents_view(contents: Seq<Option<Vec<u8>>>) -> Seq<Option<Seq<u8>>> {
    contents.map_values(
        |content: Option<Vec<u8>>|
            match content {
                Some(bytes) => Some(bytes@),
                None => None,
            },
    )
}

impl View for Batch {
    type V = BatchView;

    open spec fn view(&self) -> BatchView {
        BatchView { paths: views(self.paths@), staged: self.staged@, retried: self.retried }
    }
}

impl View for Reading {
    type V = ReadingView;

    open spec fn view(&self) -> ReadingView {
        ReadingView {
            batch: self.batch@,
            comparisons: self.comparisons@,
            contents: contents_view(self.contents@),
        }
    }
}

impl View for ContentsStep {
    type V = StepView;

    open spec fn view(&self) -> StepView {
        match *self {
            ContentsStep::Compare(batch, request) => StepView::Compare(batch@, request@),
            ContentsStep::Read(reading, request) => StepView::Read(reading@, request@),
            ContentsStep::Refresh(batch, request) => StepView::Refresh(batch@, request@),
            ContentsStep::Done(result) => StepView::Done(
                match result {
                    Ok(contents) => Ok(contents_view(contents@)),
                    Err(error) => Err(error),
                },
            ),
        }
    }
}

/// What is wrong with a batch.
pub open spec fn batch_problem(batch: BatchView) -> Option<VcsError> {
    if batch.paths.len() != batch.staged.len() || batch.paths.len() > MAX_BATCH_PATHS {
        Some(VcsError::InvalidBatch)
    } else {
        first_problem(batch.paths.map_values(|path: Seq<char>| path_problem(path)))
    }
}

/// The reference that a comparison gives for the wanted baseline.
pub open spec fn selected(comparison: Comparison, staged: bool) -> Option<Seq<char>> {
    if staged {
        optional_view(comparison.index)
    } else {
        optional_view(comparison.base)
    }
}

/// How a batch begins, in the repository and at the snapshot given.
pub open spec fn begin(repository: Seq<char>, snapshot: Seq<char>, batch: BatchView) -> StepView {
    match batch_problem(batch) {
        Some(problem) => StepView::Done(Err(problem)),
        None => StepView::Compare(
            batch,
            RequestView::Comparison { repository, snapshot, paths: batch.paths },
        ),
    }
}

/// What follows an error: where something has expired, and the batch has not begun again before,
/// a new snapshot; otherwise the end.
pub open spec fn after_error(
    repository: Seq<char>,
    batch: BatchView,
    error: VcsError,
) -> StepView {
    if provider_code(error) == Some(EXPIRED) && !batch.retried {
        StepView::Refresh(batch, RequestView::Status { repository })
    } else {
        StepView::Done(Err(error))
    }
}

/// Whether comparisons and wanted baselines agree in number with the paths.
pub open spec fn in_step(reading: ReadingView) -> bool {
    &&& reading.batch.paths.len() == reading.batch.staged.len()
    &&& reading.batch.paths.len() == reading.comparisons.len()
    &&& reading.contents.len() <= reading.batch.paths.len()
}

/// What is read next: sides that do not exist need no reading.
pub open spec fn advance(repository: Seq<char>, reading: ReadingView) -> StepView
    decreases reading.batch.paths.len() - reading.contents.len(),
{
    let next = reading.contents.len() as int;
    if next >= reading.batch.paths.len() {
        StepView::Done(Ok(reading.contents))
    } else if reading.comparisons[next].path@ != reading.batch.paths[next] {
        StepView::Done(Err(VcsError::WrongComparisonPath))
    } else {
        match selected(reading.comparisons[next], reading.batch.staged[next]) {
            Some(content) => StepView::Read(
                reading,
                RequestView::ReadContent { repository, content },
            ),
            None => advance(
                repository,
                ReadingView { contents: reading.contents.push(None), ..reading },
            ),
        }
    }
}

/// What follows the answer to a comparison request.
pub open spec fn after_comparison(
    repository: Seq<char>,
    batch: BatchView,
    reply: Result<Seq<Comparison>, VcsError>,
) -> StepView {
    match reply {
        Err(error) => after_error(repository, batch, error),
        Ok(comparisons) => if comparisons.len() != batch.paths.len() {
            StepView::Done(Err(VcsError::WrongComparisonCount))
        } else {
            advance(repository, ReadingView { batch, comparisons, contents: Seq::empty() })
        },
    }
}

/// What follows the answer to a content request, of which `reply` gives the bytes.
pub open spec fn after_content(
    repository: Seq<char>,
    reading: ReadingView,
    reply: Result<Seq<u8>, VcsError>,
) -> StepView {
    match reply {
        Err(error) => after_error(repository, reading.batch, error),
        Ok(bytes) => advance(
            repository,
            ReadingView { contents: reading.contents.push(Some(bytes)), ..reading },
        ),
    }
}

/// Whether a step is one that the answer to its request can be taken for.
pub open spec fn ready(step: StepView) -> bool {
    match step {
        StepView::Compare(batch, _) => batch.paths.len() == batch.staged.len(),
        StepView::Read(reading, _) => in_step(reading) && reading.contents.len()
            < reading.batch.paths.len(),
        _ => true,
    }
}

/// The bytes of an answer to a content request.
pub open spec fn reply_bytes(reply: Result<Content, VcsError>) -> Result<Seq<u8>, VcsError> {
    match reply {
        Ok(content) => content_bytes(content),
        Err(error) => Err(error),
    }
}

impl Reading {
    /// Finds what is read next.
    fn advance(self, repository: &str) -> (step: ContentsStep)
        requires
            in_step(self@),
        ensures
            step@ == advance(repository@, self@),
            ready(step@),
    {
        let mut reading: Reading = self;
        while reading.contents.len() < reading.batch.paths.len()
            invariant
                in_step(reading@),
                advance(repository@, reading@) == advance(repository@, self@),
            decreases reading@.batch.paths.len() - reading@.contents.len(),
        {
            let ghost before = reading@;
            let next: usize = reading.contents.len();
            let comparison: &Comparison = &reading.comparisons[next];
            if comparison.path != reading.batch.paths[next] {
                return ContentsStep::Done(Err(VcsError::WrongComparisonPath));
            }
            let reference: &Option<String> = if reading.batch.staged[next] {
                &comparison.index
            } else {
                &comparison.base
            };
            match reference {
                Some(reference) => {
                    let request: Request = Request::ReadContent {
                        repository: repository.to_owned(),
                        content: reference.clone(),
                    };
                    return ContentsStep::Read(reading, request);
                },
                None => {},
            }
            reading.contents.push(None);
            assert(reading@ == (ReadingView { contents: before.contents.push(None), ..before }));
        }
        ContentsStep::Done(Ok(reading.contents))
    }
}

impl Client {
    /// Begins to read the base, or the staging baseline where `staged` says so, of each path.
    pub fn contents(&self, paths: Vec<String>, staged: Vec<bool>) -> (step: ContentsStep)
        ensures
            step@ == begin(
                self.repository.id@,
                self.snapshot.snapshot@,
                BatchView { paths: views(paths@), staged: staged@, retried: false },
            ),
            ready(step@),
    {
        self.begin_batch(Batch { paths, staged, retried: false })
    }

    /// Checks a batch and asks for its comparison.
    fn begin_batch(&self, batch: Batch) -> (step: ContentsStep)
        ensures
            step@ == begin(self.repository.id@, self.snapshot.snapshot@, batch@),
            ready(step@),
    {
        if batch.paths.len() != batch.staged.len() || batch.paths.len() > MAX_BATCH_PATHS {
            return ContentsStep::Done(Err(VcsError::InvalidBatch));
        }
        let ghost problems = batch@.paths.map_values(|path: Seq<char>| path_problem(path));
        let mut paths: Vec<String> = Vec::new();
        let mut i: usize = 0;
        while i < batch.paths.len()
            invariant
                i <= batch.paths@.len(),
                problems == batch@.paths.map_values(|path: Seq<char>| path_problem(path)),
                forall|j: int| 0 <= j < i ==> (#[trigger] problems[j]) is None,
                batch_problem(batch@) == first_problem(problems),
                paths@ == batch.paths@.take(i as int),
            decreases batch.paths@.len() - i,
        {
            assert(problems[i as int] == path_problem(batch.paths@[i as int]@));
            match validate_path(&batch.paths[i]) {
                Ok(()) => {},
                Err(error) => {
                    proof {
                        lemma_first_problem(problems, i as int);
                    }
                    return ContentsStep::Done(Err(error));
                },
            }
            paths.push(batch.paths[i].clone());
            i += 1;
            assert(batch.paths@.take(i as int) == batch.paths@.take(i - 1).push(
                batch.paths@[i - 1],
            ));
        }
        proof {
            lemma_first_problem(problems, i as int);
            assert(batch.paths@.take(i as int) == batch.paths@);
        }
        let request: Request = Request::Comparison {
            repository: self.repository.id.clone(),
            snapshot: self.snapshot.snapshot.clone(),
            paths,
        };
        ContentsStep::Compare(batch, request)
    }

    /// What follows an error.
    fn contents_failed(&self, batch: Batch, error: VcsError) -> (step: ContentsStep)
        ensures
            step@ == after_error(self.repository.id@, batch@, error),
    {
        if is_expired_error(&error) && !batch.retried {
            ContentsStep::Refresh(batch, self.status_request())
        } else {
            ContentsStep::Done(Err(error))
        }
    }

    /// Takes the answer to the comparison request of a batch.
    pub fn contents_compared(
        &self,
        batch: Batch,
        reply: Result<Vec<Comparison>, VcsError>,
    ) -> (step: ContentsStep)
        requires
            batch.paths@.len() == batch.staged@.len(),
        ensures
            step@ == after_comparison(
                self.repository.id@,
                batch@,
                match reply {
                    Ok(comparisons) => Ok(comparisons@),
                    Err(error) => Err(error),
                },
            ),
            ready(step@),
    {
        match reply {
            Err(error) => self.contents_failed(batch, error),
            Ok(comparisons) => {
                if comparisons.len() != batch.paths.len() {
                    return ContentsStep::Done(Err(VcsError::WrongComparisonCount));
                }
                let reading: Reading = Reading { batch, comparisons, contents: Vec::new() };
                assert(reading@.contents == Seq::<Option<Seq<u8>>>::empty());
                reading.advance(&self.repository.id)
            },
        }
    }

    /// Takes the answer to a content request of a batch.
    pub fn contents_read(&self, reading: Reading, reply: Result<Content, VcsError>) -> (step:
        ContentsStep)
        requires
            in_step(reading@),
            reading@.contents.len() < reading@.batch.paths.len(),
        ensures
            step@ == after_content(self.repository.id@, reading@, reply_bytes(reply)),
            ready(step@),
    {
        let bytes: Vec<u8> = match reply {
            Err(error) => {
                return self.contents_failed(reading.batch, error);
            },
            Ok(content) => match decode_content(&content) {
                Ok(bytes) => bytes,
                Err(error) => {
                    return self.contents_failed(reading.batch, error);
                },
            },
        };
        let ghost before = reading@;
        let mut reading: Reading = reading;
        reading.contents.push(Some(bytes));
        assert(reading@ == (ReadingView { contents: before.contents.push(Some(bytes@)), ..before }));
        reading.advance(&self.repository.id)
    }

    /// Takes the answer to the status request of a batch: with a new snapshot it begins again.
    pub fn contents_refreshed(
        &mut self,
        batch: Batch,
        reply: Result<Snapshot, VcsError>,
    ) -> (step: ContentsStep)
        ensures
            final(self).repository == old(self).repository,
            final(self).capabilities == old(self).capabilities,
            old(self).wf() ==> final(self).wf(),
            match reply {
                Err(error) => step@ == StepView::Done(Err(error)) && final(self).snapshot == old(
                    self,
                ).snapshot,
                Ok(snapshot) => match status_problem(snapshot, old(self).capabilities) {
                    Some(problem) => step@ == StepView::Done(Err(problem)) && final(self).snapshot
                        == old(self).snapshot,
                    None => final(self).snapshot == snapshot && step@ == begin(
                        old(self).repository.id@,
                        snapshot.snapshot@,
                        BatchView { retried: true, ..batch@ },
                    ),
                },
            },
            ready(step@),
    {
        match self.refresh(reply) {
            Err(error) => ContentsStep::Done(Err(error)),
            Ok(()) => {
                let again: Batch = Batch {
                    paths: batch.paths,
                    staged: batch.staged,
                    retried: true,
                };
                self.begin_batch(again)
            },
        }
    }
}

/// What each path is to be answered with, given the bytes behind each reference.
pub open spec fn wanted(
    batch: BatchView,
    comparisons: Seq<Comparison>,
    bytes: spec_fn(Seq<char>) -> Seq<u8>,
) -> Seq<Option<Seq<u8>>> {
    Seq::new(
        batch.paths.len(),
        |i: int|
            match selected(comparisons[i], batch.staged[i]) {
                Some(reference) => Some(bytes(reference)),
                None => None,
            },
    )
}

/// Where a batch gets to when every content request is answered with the bytes behind its
/// reference.
pub open spec fn served(
    repository: Seq<char>,
    reading: ReadingView,
    bytes: spec_fn(Seq<char>) -> Seq<u8>,
) -> StepView
    decreases reading.batch.paths.len() - reading.contents.len(),
    when in_step(reading)
    via served_decreases
{
    match advance(repository, reading) {
        StepView::Read(next, RequestView::ReadContent { repository: _, content }) => served(
            repository,
            ReadingView { contents: next.contents.push(Some(bytes(content))), ..next },
            bytes,
        ),
        step => step,
    }
}

#[via_fn]
proof fn served_decreases(
    repository: Seq<char>,
    reading: ReadingView,
    bytes: spec_fn(Seq<char>) -> Seq<u8>,
) {
    lemma_advance(repository, reading);
}

/// Advancing passes over sides that do not exist, and stops where something is to be read.
proof fn lemma_advance(repository: Seq<char>, reading: ReadingView)
    requires
        in_step(reading),
    ensures
        match advance(repository, reading) {
            StepView::Read(next, request) => {
                &&& in_step(next)
                &&& next.batch == reading.batch
                &&& next.comparisons == reading.comparisons
                &&& reading.contents.len() <= next.contents.len() < reading.batch.paths.len()
                &&& request == (RequestView::ReadContent {
                    repository,
                    content: selected(
                        next.comparisons[next.contents.len() as int],
                        next.batch.staged[next.contents.len() as int],
                    )->0,
                })
                &&& selected(
                    next.comparisons[next.contents.len() as int],
                    next.batch.staged[next.contents.len() as int],
                ) is Some
                &&& forall|i: int|
                    0 <= i < reading.contents.len() ==> next.contents[i] == reading.contents[i]
                &&& forall|i: int|
                    reading.contents.len() <= i < next.contents.len() ==> (
                    #[trigger] next.contents[i]) is None && selected(
                        reading.comparisons[i],
                        reading.batch.staged[i],
                    ) is None
            },
            StepView::Done(Ok(contents)) => {
                &&& contents.len() == reading.batch.paths.len()
                &&& forall|i: int|
                    0 <= i < reading.contents.len() ==> contents[i] == reading.contents[i]
                &&& forall|i: int|
                    reading.contents.len() <= i < contents.len() ==> (
                    #[trigger] contents[i]) is None && selected(
                        reading.comparisons[i],
                        reading.batch.staged[i],
                    ) is None
            },
            StepView::Done(Err(error)) => error == VcsError::WrongComparisonPath && exists|i: int|
                reading.contents.len() <= i < reading.batch.paths.len()
                    && #[trigger] reading.comparisons[i].path@ != reading.batch.paths[i],
            _ => false,
        },
    decreases reading.batch.paths.len() - reading.contents.len(),
{
    let next = reading.contents.len() as int;
    if next < reading.batch.paths.len() && reading.comparisons[next].path@
        == reading.batch.paths[next] && selected(
        reading.comparisons[next],
        reading.batch.staged[next],
    ) is None {
        lemma_advance(
            repository,
            ReadingView { contents: reading.contents.push(None), ..reading },
        );
    }
}

/// Where the comparisons are of the wanted paths, in order, and every content request is answered
/// with the bytes behind its reference, a batch ends with exactly one entry per path, in order:
/// the bytes behind its wanted side, or nothing where that side does not exist.
pub proof fn law_batch_answers_every_path(
    repository: Seq<char>,
    batch: BatchView,
    comparisons: Seq<Comparison>,
    bytes: spec_fn(Seq<char>) -> Seq<u8>,
)
    requires
        batch.paths.len() == batch.staged.len(),
        batch.paths.len() == comparisons.len(),
        forall|i: int|
            0 <= i < comparisons.len() ==> (#[trigger] comparisons[i]).path@ == batch.paths[i],
    ensures
        served(
            repository,
            ReadingView { batch, comparisons, contents: Seq::empty() },
            bytes,
        ) == StepView::Done(Ok(wanted(batch, comparisons, bytes))),
{
    lemma_served(
        repository,
        ReadingView { batch, comparisons, contents: Seq::empty() },
        bytes,
    );
}

/// The law, for a batch of which some entries are there.
proof fn lemma_served(
    repository: Seq<char>,
    reading: ReadingView,
    bytes: spec_fn(Seq<char>) -> Seq<u8>,
)
    requires
        in_step(reading),
        forall|i: int|
            0 <= i < reading.comparisons.len() ==> (#[trigger] reading.comparisons[i]).path@
                == reading.batch.paths[i],
        forall|i: int|
            0 <= i < reading.contents.len() ==> reading.contents[i] == wanted(
                reading.batch,
                reading.comparisons,
                bytes,
            )[i],
    ensures
        served(repository, reading, bytes) == StepView::Done(
            Ok(wanted(reading.batch, reading.comparisons, bytes)),
        ),
    decreases reading.batch.paths.len() - reading.contents.len(),
{
    let all = wanted(reading.batch, reading.comparisons, bytes);
    lemma_advance(repository, reading);
    match advance(repository, reading) {
        StepView::Read(next, RequestView::ReadContent { repository: _, content }) => {
            let read = ReadingView { contents: next.contents.push(Some(bytes(content))), ..next };
            assert forall|i: int| 0 <= i < read.contents.len() implies read.contents[i]
                == all[i] by {
                if i < reading.contents.len() {
                    assert(next.contents[i] == reading.contents[i]);
                }
            }
            lemma_served(repository, read, bytes);
        },
        StepView::Done(Ok(contents)) => {
            assert(contents =~= all);
        },
        _ => {},
    }
}

/// Whether a step belongs to a batch that has begun again.
pub open spec fn begun_again(step: StepView) -> bool {
    match step {
        StepView::Compare(batch, _) => batch.retried,
        StepView::Read(reading, _) => reading.batch.retried,
        StepView::Refresh(batch, _) => false,
        StepView::Done(_) => true,
    }
}

/// A batch begins again at most once: what has begun again never asks for a new snapshot, and
/// nothing but an expired snapshot or reference makes a batch begin again.
pub proof fn law_batch_begins_again_once(
    repository: Seq<char>,
    snapshot: Seq<char>,
    reading: ReadingView,
    compared: Result<Seq<Comparison>, VcsError>,
    read: Result<Seq<u8>, VcsError>,
)
    requires
        in_step(reading),
        reading.contents.len() < reading.batch.paths.len(),
    ensures
        reading.batch.retried ==> begun_again(begin(repository, snapshot, reading.batch)),
        reading.batch.retried ==> begun_again(
            after_comparison(repository, reading.batch, compared),
        ),
        reading.batch.retried ==> begun_again(after_content(repository, reading, read)),
        after_comparison(repository, reading.batch, compared) is Refresh ==> (compared matches Err(
            error,
        ) && provider_code(error) == Some(EXPIRED)),
        after_content(repository, reading, read) is Refresh ==> (read matches Err(error)
            && provider_code(error) == Some(EXPIRED)),
{
    if let Ok(comparisons) = compared {
        if comparisons.len() == reading.batch.paths.len() {
            lemma_advance(
                repository,
                ReadingView { batch: reading.batch, comparisons, contents: Seq::empty() },
            );
        }
    }
    if let Ok(bytes) = read {
        lemma_advance(
            repository,
            ReadingView { contents: reading.contents.push(Some(bytes)), ..reading },
        );
    }
}

/// Where a step gets to within `n` content requests, each answered for its reference.
pub open spec fn answered(
    repository: Seq<char>,
    step: StepView,
    answers: spec_fn(Seq<char>) -> Result<Seq<u8>, VcsError>,
    n: nat,
) -> StepView
    decreases n,
{
    match step {
        StepView::Read(reading, RequestView::ReadContent { repository: _, content }) => if n == 0 {
            step
        } else {
            answered(
                repository,
                after_content(repository, reading, answers(content)),
                answers,
                (n - 1) as nat,
            )
        },
        _ => step,
    }
}

/// Whether an entry holds the bytes behind a reference, or nothing where there is none.
pub open spec fn holds(
    entry: Option<Seq<u8>>,
    reference: Option<String>,
    answers: spec_fn(Seq<char>) -> Result<Seq<u8>, VcsError>,
) -> bool {
    match reference {
        Some(reference) => answers(reference@) is Ok && entry == Some(answers(reference@)->Ok_0),
        None => entry is None,
    }
}

/// Whether `error` is what some reference was answered with.
pub open spec fn answered_with(
    reference: Option<String>,
    answers: spec_fn(Seq<char>) -> Result<Seq<u8>, VcsError>,
    error: VcsError,
) -> bool {
    reference matches Some(reference) && answers(reference@) == Err::<Seq<u8>, VcsError>(error)
}

/// Whether the entry at `i` holds what is behind the side that was asked for.
spec fn entry_holds(
    reading: ReadingView,
    i: int,
    entry: Option<Seq<u8>>,
    answers: spec_fn(Seq<char>) -> Result<Seq<u8>, VcsError>,
) -> bool {
    &&& reading.comparisons[i].path@ == reading.batch.paths[i]
    &&& reading.batch.staged[i] ==> holds(entry, reading.comparisons[i].index, answers)
    &&& !reading.batch.staged[i] ==> holds(entry, reading.comparisons[i].base, answers)
}

/// The first entries hold what is behind the sides that were asked for.
spec fn entries_hold(
    reading: ReadingView,
    contents: Seq<Option<Seq<u8>>>,
    answers: spec_fn(Seq<char>) -> Result<Seq<u8>, VcsError>,
) -> bool {
    forall|i: int|
        0 <= i < contents.len() ==> entry_holds(reading, i, #[trigger] contents[i], answers)
}

/// Advancing adds nothing but entries for sides that do not exist, where the paths are right.
proof fn lemma_advance_holds(
    repository: Seq<char>,
    reading: ReadingView,
    answers: spec_fn(Seq<char>) -> Result<Seq<u8>, VcsError>,
)
    requires
        in_step(reading),
        entries_hold(reading, reading.contents, answers),
    ensures
        match advance(repository, reading) {
            StepView::Read(next, RequestView::ReadContent { repository: asked, content }) => {
                let n = next.contents.len() as int;
                &&& in_step(next)
                &&& next.batch == reading.batch
                &&& next.comparisons == reading.comparisons
                &&& reading.contents.len() <= n < reading.batch.paths.len()
                &&& entries_hold(next, next.contents, answers)
                &&& next.comparisons[n].path@ == next.batch.paths[n]
                &&& asked == repository
                &&& next.batch.staged[n] ==> next.comparisons[n].index is Some && content
                    == next.comparisons[n].index->0@
                &&& !next.batch.staged[n] ==> next.comparisons[n].base is Some && content
                    == next.comparisons[n].base->0@
            },
            StepView::Done(Ok(contents)) => {
                &&& contents.len() == reading.batch.paths.len()
                &&& entries_hold(reading, contents, answers)
            },
            StepView::Done(Err(error)) => error == VcsError::WrongComparisonPath && exists|i: int|
                0 <= i < reading.batch.paths.len() && #[trigger] reading.comparisons[i].path@
                    != reading.batch.paths[i],
            _ => false,
        },
    decreases reading.batch.paths.len() - reading.contents.len(),
{
    let next = reading.contents.len() as int;
    if next < reading.batch.paths.len() && reading.comparisons[next].path@
        == reading.batch.paths[next] && selected(
        reading.comparisons[next],
        reading.batch.staged[next],
    ) is None {
        let more = ReadingView { contents: reading.contents.push(None), ..reading };
        assert forall|i: int| 0 <= i < more.contents.len() implies entry_holds(
            more,
            i,
            #[trigger] more.contents[i],
            answers,
        ) by {
            if i < next {
                assert(more.contents[i] == reading.contents[i]);
                assert(entry_holds(reading, i, reading.contents[i], answers));
            }
        }
        lemma_advance_holds(repository, more, answers);
    }
}

/// What a batch of which some entries are there ends with.
proof fn lemma_answered(
    repository: Seq<char>,
    reading: ReadingView,
    answers: spec_fn(Seq<char>) -> Result<Seq<u8>, VcsError>,
    n: nat,
)
    requires
        in_step(reading),
        entries_hold(reading, reading.contents, answers),
        n >= reading.batch.paths.len() - reading.contents.len(),
    ensures
        match answered(repository, advance(repository, reading), answers, n) {
            StepView::Done(Ok(contents)) => contents.len() == reading.batch.paths.len()
                && entries_hold(reading, contents, answers),
            StepView::Done(Err(error)) => {
                ||| error == VcsError::WrongComparisonPath && exists|i: int|
                    0 <= i < reading.batch.paths.len() && #[trigger] reading.comparisons[i].path@
                        != reading.batch.paths[i]
                ||| (provider_code(error) != Some(EXPIRED) || reading.batch.retried) && exists|
                    i: int,
                |
                    0 <= i < reading.batch.paths.len() && wanted_answered_with(
                        #[trigger] reading.comparisons[i],
                        reading.batch.staged[i],
                        answers,
                        error,
                    )
            },
            StepView::Refresh(batch, request) => batch == reading.batch && !batch.retried && request
                == (RequestView::Status { repository }) && exists|i: int, error: VcsError|
                0 <= i < reading.batch.paths.len() && provider_code(error) == Some(EXPIRED)
                    && #[trigger] wanted_answered_with(
                    reading.comparisons[i],
                    reading.batch.staged[i],
                    answers,
                    error,
                ),
            _ => false,
        },
    decreases reading.batch.paths.len() - reading.contents.len(),
{
    lemma_advance_holds(repository, reading, answers);
    match advance(repository, reading) {
        StepView::Read(next, RequestView::ReadContent { repository: _, content }) => {
            let k = next.contents.len() as int;
            match answers(content) {
                Ok(bytes) => {
                    let read = ReadingView { contents: next.contents.push(Some(bytes)), ..next };
                    assert forall|i: int| 0 <= i < read.contents.len() implies entry_holds(
                        read,
                        i,
                        #[trigger] read.contents[i],
                        answers,
                    ) by {
                        if i < k {
                            assert(read.contents[i] == next.contents[i]);
                            assert(entry_holds(next, i, next.contents[i], answers));
                        }
                    }
                    lemma_answered(repository, read, answers, (n - 1) as nat);
                },
                Err(error) => {
                    assert(wanted_answered_with(
                        reading.comparisons[k],
                        reading.batch.staged[k],
                        answers,
                        error,
                    ));
                    reveal_with_fuel(answered, 2);
                },
            }
        },
        _ => {},
    }
}

/// Whether `error` is what the side that was asked for was answered with.
pub open spec fn wanted_answered_with(
    comparison: Comparison,
    staged: bool,
    answers: spec_fn(Seq<char>) -> Result<Seq<u8>, VcsError>,
    error: VcsError,
) -> bool {
    &&& staged ==> answered_with(comparison.index, answers, error)
    &&& !staged ==> answered_with(comparison.base, answers, error)
}

/// However the content requests of a batch are answered: where it ends well it has one entry per
/// path, in order, each the bytes behind the staging baseline of its path where that was asked for,
/// and behind its base otherwise, and nothing exactly where that side does not exist; what the other
/// side is has no part in it. It asks for a new snapshot, once, only where the side that was asked
/// for has expired, and ends in error only where a comparison is of another path or where the side
/// that was asked for was answered with that error. There is no other end.
pub proof fn law_batch_answers_with_the_wanted_sides(
    repository: Seq<char>,
    batch: BatchView,
    comparisons: Seq<Comparison>,
    answers: spec_fn(Seq<char>) -> Result<Seq<u8>, VcsError>,
)
    requires
        batch.paths.len() == batch.staged.len(),
    ensures
        comparisons.len() != batch.paths.len() ==> after_comparison(
            repository,
            batch,
            Ok(comparisons),
        ) == StepView::Done(Err(VcsError::WrongComparisonCount)),
        comparisons.len() == batch.paths.len() ==> match answered(
            repository,
            after_comparison(repository, batch, Ok(comparisons)),
            answers,
            batch.paths.len(),
        ) {
            StepView::Done(Ok(entries)) => {
                &&& entries.len() == batch.paths.len()
                &&& forall|i: int|
                    0 <= i < batch.paths.len() ==> {
                        let entry = #[trigger] entries[i];
                        &&& comparisons[i].path@ == batch.paths[i]
                        &&& batch.staged[i] ==> {
                            &&& entry is None <==> comparisons[i].index is None
                            &&& comparisons[i].index matches Some(reference) ==> answers(
                                reference@,
                            ) == Ok::<Seq<u8>, VcsError>(entry->0)
                        }
                        &&& !batch.staged[i] ==> {
                            &&& entry is None <==> comparisons[i].base is None
                            &&& comparisons[i].base matches Some(reference) ==> answers(
                                reference@,
                            ) == Ok::<Seq<u8>, VcsError>(entry->0)
                        }
                    }
            },
            StepView::Done(Err(error)) => {
                ||| error == VcsError::WrongComparisonPath && exists|i: int|
                    0 <= i < batch.paths.len() && #[trigger] comparisons[i].path@ != batch.paths[i]
                ||| (provider_code(error) != Some(EXPIRED) || batch.retried) && exists|i: int|
                    0 <= i < batch.paths.len() && wanted_answered_with(
                        #[trigger] comparisons[i],
                        batch.staged[i],
                        answers,
                        error,
                    )
            },
            StepView::Refresh(again, request) => {
                &&& again == batch && !batch.retried
                &&& request == RequestView::Status { repository }
                &&& exists|i: int, error: VcsError|
                    0 <= i < batch.paths.len() && provider_code(error) == Some(EXPIRED)
                        && #[trigger] wanted_answered_with(
                        comparisons[i],
                        batch.staged[i],
                        answers,
                        error,
                    )
            },
            _ => false,
        },
{
    if comparisons.len() == batch.paths.len() {
        let reading = ReadingView { batch, comparisons, contents: Seq::empty() };
        lemma_answered(repository, reading, answers, batch.paths.len());
        match answered(repository, advance(repository, reading), answers, batch.paths.len()) {
            StepView::Done(Ok(entries)) => {
                assert forall|i: int| 0 <= i < batch.paths.len() implies {
                    let entry = #[trigger] entries[i];
                    &&& comparisons[i].path@ == batch.paths[i]
                    &&& batch.staged[i] ==> {
                        &&& entry is None <==> comparisons[i].index is None
                        &&& comparisons[i].index matches Some(reference) ==> answers(reference@)
                            == Ok::<Seq<u8>, VcsError>(entry->0)
                    }
                    &&& !batch.staged[i] ==> {
                        &&& entry is None <==> comparisons[i].base is None
                        &&& comparisons[i].base matches Some(reference) ==> answers(reference@)
                            == Ok::<Seq<u8>, VcsError>(entry->0)
                    }
                } by {
                    assert(entry_holds(reading, i, entries[i], answers));
                }
            },
            _ => {},
        }
    }
}

/// What the side that was not asked for is makes no difference: with other comparisons that agree on
/// the paths and on the sides asked for, a batch ends in the same way.
pub proof fn law_the_other_side_makes_no_difference(
    repository: Seq<char>,
    batch: BatchView,
    comparisons: Seq<Comparison>,
    others: Seq<Comparison>,
    answers: spec_fn(Seq<char>) -> Result<Seq<u8>, VcsError>,
)
    requires
        batch.paths.len() == batch.staged.len(),
        comparisons.len() == batch.paths.len(),
        others.len() == batch.paths.len(),
        forall|i: int|
            0 <= i < batch.paths.len() ==> {
                &&& (#[trigger] comparisons[i]).path@ == others[i].path@
                &&& batch.staged[i] ==> comparisons[i].index == others[i].index
                &&& !batch.staged[i] ==> comparisons[i].base == others[i].base
            },
    ensures
        answered(
            repository,
            after_comparison(repository, batch, Ok(comparisons)),
            answers,
            batch.paths.len(),
        ) == answered(
            repository,
            after_comparison(repository, batch, Ok(others)),
            answers,
            batch.paths.len(),
        ),
{
    lemma_same_end(
        repository,
        ReadingView { batch, comparisons, contents: Seq::empty() },
        others,
        answers,
        batch.paths.len(),
    );
}

/// Advancing stops at the same place with comparisons that agree on the sides asked for.
proof fn lemma_same_advance(repository: Seq<char>, reading: ReadingView, others: Seq<Comparison>)
    requires
        in_step(reading),
        others.len() == reading.comparisons.len(),
        forall|i: int|
            0 <= i < reading.batch.paths.len() ==> {
                &&& (#[trigger] reading.comparisons[i]).path@ == others[i].path@
                &&& reading.batch.staged[i] ==> reading.comparisons[i].index == others[i].index
                &&& !reading.batch.staged[i] ==> reading.comparisons[i].base == others[i].base
            },
    ensures
        advance(repository, ReadingView { comparisons: others, ..reading }) == match advance(
            repository,
            reading,
        ) {
            StepView::Read(next, request) => StepView::Read(
                ReadingView { comparisons: others, ..next },
                request,
            ),
            step => step,
        },
        advance(repository, reading) matches StepView::Read(next, _) ==> in_step(next)
            && next.batch == reading.batch && next.comparisons == reading.comparisons
            && reading.contents.len() <= next.contents.len() < reading.batch.paths.len(),
    decreases reading.batch.paths.len() - reading.contents.len(),
{
    let next = reading.contents.len() as int;
    if next < reading.batch.paths.len() {
        assert(reading.comparisons[next].path@ == others[next].path@);
        if reading.comparisons[next].path@ == reading.batch.paths[next] && selected(
            reading.comparisons[next],
            reading.batch.staged[next],
        ) is None {
            lemma_same_advance(
                repository,
                ReadingView { contents: reading.contents.push(None), ..reading },
                others,
            );
        }
    }
}

proof fn lemma_same_end(
    repository: Seq<char>,
    reading: ReadingView,
    others: Seq<Comparison>,
    answers: spec_fn(Seq<char>) -> Result<Seq<u8>, VcsError>,
    n: nat,
)
    requires
        in_step(reading),
        others.len() == reading.comparisons.len(),
        n >= reading.batch.paths.len() - reading.contents.len(),
        forall|i: int|
            0 <= i < reading.batch.paths.len() ==> {
                &&& (#[trigger] reading.comparisons[i]).path@ == others[i].path@
                &&& reading.batch.staged[i] ==> reading.comparisons[i].index == others[i].index
                &&& !reading.batch.staged[i] ==> reading.comparisons[i].base == others[i].base
            },
    ensures
        answered(repository, advance(repository, reading), answers, n) == answered(
            repository,
            advance(repository, ReadingView { comparisons: others, ..reading }),
            answers,
            n,
        ),
    decreases reading.batch.paths.len() - reading.contents.len(),
{
    lemma_same_advance(repository, reading, others);
    lemma_advance(repository, reading);
    match advance(repository, reading) {
        StepView::Read(next, RequestView::ReadContent { repository: _, content }) => {
            if let Ok(bytes) = answers(content) {
                lemma_same_end(
                    repository,
                    ReadingView { contents: next.contents.push(Some(bytes)), ..next },
                    others,
                    answers,
                    (n - 1) as nat,
                );
            }
            reveal_with_fuel(answered, 2);
        },
        _ => {},
    }
}

/// A batch begins with a comparison of exactly its paths at the snapshot given, unless it is refused:
/// where there are not as many wanted sides as paths or more paths than may be, or for the first
/// path that is not valid.
pub proof fn law_batches_begin_with_their_paths(
    repository: Seq<char>,
    snapshot: Seq<char>,
    batch: BatchView,
)
    ensures
        match begin(repository, snapshot, batch) {
            StepView::Compare(asked, RequestView::Comparison { repository: r, snapshot: t, paths }) => {
                &&& asked == batch
                &&& r == repository && t == snapshot && paths == batch.paths
                &&& batch.paths.len() == batch.staged.len() <= 4096
                &&& forall|i: int|
                    0 <= i < batch.paths.len() ==> valid_path(#[trigger] batch.paths[i])
            },
            StepView::Done(Err(error)) => if batch.paths.len() != batch.staged.len()
                || batch.paths.len() > 4096 {
                error == VcsError::InvalidBatch
            } else {
                exists|i: int|
                    0 <= i < batch.paths.len() && path_problem(#[trigger] batch.paths[i]) == Some(
                        error,
                    ) && forall|j: int| 0 <= j < i ==> valid_path(#[trigger] batch.paths[j])
            },
            _ => false,
        },
{
    let problems = batch.paths.map_values(|path: Seq<char>| path_problem(path));
    lemma_no_problem(problems);
    lemma_first_is_first(problems);
    match begin(repository, snapshot, batch) {
        StepView::Compare(_, _) => {
            assert forall|i: int| 0 <= i < batch.paths.len() implies valid_path(
                #[trigger] batch.paths[i],
            ) by {
                assert(problems[i] is None);
            }
        },
        StepView::Done(Err(error)) => {
            if batch.paths.len() == batch.staged.len() && batch.paths.len() <= 4096 {
                let i = choose|i: int|
                    0 <= i < problems.len() && #[trigger] problems[i] == Some(error) && forall|
                        j: int,
                    |
                        0 <= j < i ==> (#[trigger] problems[j]) is None;
                assert(path_problem(batch.paths[i]) == Some(error));
                assert forall|j: int| 0 <= j < i implies valid_path(#[trigger] batch.paths[j]) by {
                    assert(problems[j] is None);
                }
            }
        },
        _ => {},
    }
}

/// An error that some request of a batch is answered with ends the batch with that error, unless it
/// tells that something has expired and the batch has not begun again: then exactly a new snapshot
/// is asked for, and the batch is kept.
pub proof fn law_only_expiry_begins_a_batch_again(
    repository: Seq<char>,
    reading: ReadingView,
    error: VcsError,
)
    ensures
        after_comparison(repository, reading.batch, Err(error)) == after_content(
            repository,
            reading,
            Err(error),
        ),
        match after_content(repository, reading, Err(error)) {
            StepView::Refresh(batch, RequestView::Status { repository: asked }) => batch
                == reading.batch && asked == repository && !batch.retried && provider_code(error)
                == Some(-32001i64),
            StepView::Done(Err(ended)) => ended == error && (reading.batch.retried || provider_code(
                error,
            ) != Some(-32001i64)),
            _ => false,
        },
{
}

/// The bytes of an answer are those of its content, and come exactly where there is an answer and its
/// content can be read.
pub proof fn law_answers_hold_the_bytes_of_their_content(reply: Result<Content, VcsError>)
    ensures
        reply matches Ok(content) ==> reply_bytes(reply) == content_bytes(content),
        reply matches Err(error) ==> reply_bytes(reply) == Err::<Seq<u8>, VcsError>(error),
{
}

} // verus!
