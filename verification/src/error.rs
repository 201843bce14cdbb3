//! What can go wrong, and the words for it.

use crate::text::{
    decimal, decimal_text, law_decimal_is_read_back, unsigned_value, NumberProblem, Utf8Problem,
};
use vstd::prelude::*;

verus! {

/// An error that the provider reported in a complete JSON-RPC response.
#[derive(Clone, Debug, PartialEq, Eq)]
pub struct ProviderError {
    pub code: i64,
    pub message: String,
}

/// The code of an expired snapshot or content reference.
pub const EXPIRED: i64 = -32001;

/// The code of content that exceeds the provider's limits.
pub const SIZE_LIMIT: i64 = -32002;

/// Every way an operation of this library fails.
#[derive(Debug, PartialEq, Eq)]
pub enum VcsError {
    /// A status snapshot without a token.
    EmptySnapshotToken,
    /// A reference name that is empty, too long, or holds control characters.
    InvalidReferenceName,
    /// A revision identifier that is empty, too long, or holds NUL.
    InvalidRevision,
    /// Two references of one kind with one name.
    DuplicateReference,
    /// An upstream on something other than a local branch.
    UpstreamNotLocal,
    /// Only one of the two tracking counts.
    IncompleteTracking,
    /// Tracking counts on an upstream that is gone.
    GoneWithCounts,
    /// A path that is empty or holds a backslash, a colon or NUL.
    InvalidPath,
    /// A path with an empty, `.` or `..` component.
    PathEscapes,
    /// Two changes at one path.
    DuplicateStatusPath,
    /// A working-copy status on the staged side.
    InvalidStagedStatus,
    /// A reference of a kind that the provider did not advertise.
    UnadvertisedReference,
    /// An upstream without the tracking capability.
    UnadvertisedUpstream,
    /// A commit that names itself or a parent twice.
    InvalidParents,
    /// The stream ended inside a header.
    ClosedStdout,
    /// A header longer than the limit.
    HeaderTooLarge,
    /// A header line that is not UTF-8.
    InvalidHeaderText(Utf8Problem),
    /// A header line without a colon.
    InvalidHeader,
    /// A second `Content-Length`.
    DuplicateLength,
    /// A `Content-Length` that is no number.
    InvalidLength(NumberProblem),
    /// A header without `Content-Length`.
    MissingLength,
    /// A body longer than the limit.
    MessageTooLarge,
    /// The stream ended inside a body.
    TruncatedBody,
    /// The connection has failed before.
    Disconnected,
    /// The provider took too long.
    TimedOut,
    /// A request longer than the limit.
    RequestTooLarge,
    /// A message of another JSON-RPC version.
    InvalidJsonRpc,
    /// A response to something that was not asked.
    UnexpectedId,
    /// A response with both or neither of `result` and `error`.
    AmbiguousResponse,
    /// A result of the wrong shape.
    InvalidResult,
    /// A provider of another protocol version.
    UnsupportedVersion,
    /// A provider that does not promise to be read-only.
    NotReadOnly,
    /// Tracking advertised without branches.
    TrackingWithoutBranches,
    /// A reserved feature advertised.
    ReservedFeature,
    /// The provider does not know the workspace.
    UnrecognizedWorkspace,
    /// The provider answers for another directory.
    RootMismatch,
    /// A repository without an identifier or a label.
    EmptyIdentity,
    /// History asked of a provider without it.
    NoHistory,
    /// A history limit out of range.
    InvalidHistoryLimit,
    /// More commits than were asked for.
    HistoryLimitExceeded,
    /// A commit listed twice.
    DuplicateCommit,
    /// Details of another commit.
    WrongCommit,
    /// A commit that changes too many files.
    TooManyFiles,
    /// A path changed twice by one commit.
    DuplicateCommitPath,
    /// A commit change with neither side.
    EmptyCommitChange,
    /// Content in an encoding other than base64.
    UnsupportedEncoding,
    /// Content that is not base64.
    InvalidBase64,
    /// A batch that is too long, or whose two lists differ in length.
    InvalidBatch,
    /// As many comparisons as paths were expected.
    WrongComparisonCount,
    /// A comparison of another path.
    WrongComparisonPath,
    /// Two revisions with one object identifier.
    RevisionCollision,
    /// The repository has no current revision.
    NoCurrentRevision,
    /// History of a branch other than the current one.
    OtherBranch,
    /// The workspace is not trusted.
    Untrusted,
    /// Content of something other than `HEAD` or the index.
    ArbitraryRevision,
    /// A commit view without the history capability.
    HistoryUnsupported,
    /// An operation that a read-only repository refuses.
    ReadOnly,
    /// A body that is not JSON, in the parser's words.
    InvalidJson(String),
    /// A failure outside this library, in its own words.
    Outside(String),
    /// The provider's own error.
    Provider(ProviderError),
    /// The provider process could not be stopped after `source`.
    Terminating { detail: String, source: Box<VcsError> },
    /// The provider process could not be waited for.
    Reaping { detail: String },
    /// A file of a commit could not be loaded, because of `source`.
    LoadingCommitFile { path: String, source: Box<VcsError> },
}

/// A signed number in decimal.
pub open spec fn signed_decimal(n: int) -> Seq<char> {
    if n < 0 {
        seq!['-'] + decimal((-n) as nat)
    } else {
        decimal(n as nat)
    }
}

fn signed_decimal_text(n: i64) -> (text: String)
    ensures
        text@ == signed_decimal(n as int),
{
    if n >= 0 {
        return decimal_text(n as u64);
    }
    let magnitude: u64 = if n == i64::MIN {
        0x8000_0000_0000_0000
    } else {
        (-n) as u64
    };
    let mut text = String::new();
    text.push('-');
    text.append(&decimal_text(magnitude));
    assert(text@ == signed_decimal(n as int));
    text
}

/// The words for bytes that are not UTF-8.
pub open spec fn utf8_words(problem: Utf8Problem) -> Seq<char> {
    match problem.error_len {
        Some(len) => "invalid utf-8 sequence of "@ + decimal(len as nat) + " bytes from index "@
            + decimal(problem.valid_up_to as nat),
        None => "incomplete utf-8 byte sequence from index "@ + decimal(
            problem.valid_up_to as nat,
        ),
    }
}

fn utf8_text_of(problem: Utf8Problem) -> (text: String)
    ensures
        text@ == utf8_words(problem),
{
    match problem.error_len {
        Some(len) => {
            let mut text: String = "invalid utf-8 sequence of ".to_owned();
            text.append(&decimal_text(len as u64));
            text.append(" bytes from index ");
            text.append(&decimal_text(problem.valid_up_to as u64));
            text
        },
        None => {
            let mut text: String = "incomplete utf-8 byte sequence from index ".to_owned();
            text.append(&decimal_text(problem.valid_up_to as u64));
            text
        },
    }
}

/// The words for a text that denotes no number.
pub open spec fn number_words(problem: NumberProblem) -> Seq<char> {
    match problem {
        NumberProblem::Empty => "cannot parse integer from empty string"@,
        NumberProblem::InvalidDigit => "invalid digit found in string"@,
        NumberProblem::TooLarge => "number too large to fit in target type"@,
    }
}

fn number_text(problem: NumberProblem) -> (text: String)
    ensures
        text@ == number_words(problem),
{
    match problem {
        NumberProblem::Empty => "cannot parse integer from empty string".to_owned(),
        NumberProblem::InvalidDigit => "invalid digit found in string".to_owned(),
        NumberProblem::TooLarge => "number too large to fit in target type".to_owned(),
    }
}

/// The words for an error.
pub open spec fn message_of(error: VcsError) -> Seq<char> {
    match error {
        VcsError::EmptySnapshotToken => "empty snapshot token"@,
        VcsError::InvalidReferenceName => "invalid reference name"@,
        VcsError::InvalidRevision => "invalid revision identifier"@,
        VcsError::DuplicateReference => "duplicate reference"@,
        VcsError::UpstreamNotLocal => "only local branches track upstreams"@,
        VcsError::IncompleteTracking => "incomplete tracking counts"@,
        VcsError::GoneWithCounts => "gone upstream has tracking counts"@,
        VcsError::InvalidPath => "invalid relative path"@,
        VcsError::PathEscapes => "path escapes repository scope"@,
        VcsError::DuplicateStatusPath => "duplicate status path"@,
        VcsError::InvalidStagedStatus => "invalid staged status"@,
        VcsError::UnadvertisedReference => "reference requires its advertised capability"@,
        VcsError::UnadvertisedUpstream => "upstream requires tracking capability"@,
        VcsError::InvalidParents => "invalid commit parents"@,
        VcsError::ClosedStdout => "VCS provider closed stdout"@,
        VcsError::HeaderTooLarge => "VCS provider header too large"@,
        VcsError::InvalidHeaderText(problem) => utf8_words(problem),
        VcsError::InvalidHeader => "invalid frame header"@,
        VcsError::DuplicateLength => "duplicate Content-Length"@,
        VcsError::InvalidLength(problem) => number_words(problem),
        VcsError::MissingLength => "missing Content-Length"@,
        VcsError::MessageTooLarge => "VCS provider message too large"@,
        VcsError::TruncatedBody => "unexpected end of file"@,
        VcsError::Disconnected => "VCS provider disconnected; reopen the project to restart it"@,
        VcsError::TimedOut => "VCS provider request timed out"@,
        VcsError::RequestTooLarge => "request too large"@,
        VcsError::InvalidJsonRpc => "invalid JSON-RPC version"@,
        VcsError::UnexpectedId => "unexpected response id"@,
        VcsError::AmbiguousResponse => "expected exactly one result or error"@,
        VcsError::InvalidResult => "invalid VCS provider result"@,
        VcsError::UnsupportedVersion => "unsupported VCS protocol version"@,
        VcsError::NotReadOnly => "provider must support read-only operation"@,
        VcsError::TrackingWithoutBranches => "tracking requires branches capability"@,
        VcsError::ReservedFeature => "provider advertises features not implemented by protocol 0.1"@,
        VcsError::UnrecognizedWorkspace => "provider did not recognize this workspace"@,
        VcsError::RootMismatch => "provider root must equal the requested workspace scope"@,
        VcsError::EmptyIdentity => "empty repository identity"@,
        VcsError::NoHistory => "VCS provider does not support history"@,
        VcsError::InvalidHistoryLimit => "invalid history limit"@,
        VcsError::HistoryLimitExceeded => "provider exceeded history limit"@,
        VcsError::DuplicateCommit => "duplicate history commit"@,
        VcsError::WrongCommit => "wrong commit identifier"@,
        VcsError::TooManyFiles => "commit exceeds the file limit"@,
        VcsError::DuplicateCommitPath => "duplicate commit path"@,
        VcsError::EmptyCommitChange => "empty commit change"@,
        VcsError::UnsupportedEncoding => "unsupported content encoding"@,
        VcsError::InvalidBase64 => "invalid base64 content"@,
        VcsError::InvalidBatch => "invalid comparison batch size"@,
        VcsError::WrongComparisonCount => "wrong comparison count"@,
        VcsError::WrongComparisonPath => "wrong comparison path"@,
        VcsError::RevisionCollision => "provider revision identifier collision"@,
        VcsError::NoCurrentRevision => "repository has no current revision"@,
        VcsError::OtherBranch => "only current-branch provider history is supported"@,
        VcsError::Untrusted => "VCS provider workspace is not trusted"@,
        VcsError::ArbitraryRevision => "arbitrary revision reads are not supported by this VCS provider prototype"@,
        VcsError::HistoryUnsupported => "provider does not support history"@,
        VcsError::ReadOnly => "operation unavailable: external VCS provider is read-only"@,
        VcsError::InvalidJson(text) => text@,
        VcsError::Outside(text) => text@,
        VcsError::Provider(error) => "VCS provider error "@ + signed_decimal(error.code as int) + ": "@
            + error.message@,
        VcsError::Terminating { detail, source } => "terminating provider: "@ + detail@,
        VcsError::Reaping { detail } => "reaping VCS provider"@,
        VcsError::LoadingCommitFile { path, source } => "loading commit file "@ + path@,
    }
}

/// The code of the provider error that lies behind `error`, if one does.
pub open spec fn provider_code(error: VcsError) -> Option<i64>
    decreases error,
{
    match error {
        VcsError::Provider(error) => Some(error.code),
        VcsError::Terminating { detail, source } => provider_code(*source),
        VcsError::LoadingCommitFile { path, source } => provider_code(*source),
        _ => None,
    }
}

impl ProviderError {
    /// The words for the provider's error: its code and its message.
    pub fn text(&self) -> (text: String)
        ensures
            text@ == "VCS provider error "@ + signed_decimal(self.code as int) + ": "@
                + self.message@,
    {
        let mut text: String = "VCS provider error ".to_owned();
        text.append(&signed_decimal_text(self.code));
        text.append(": ");
        text.append(&self.message);
        text
    }
}

impl VcsError {
    /// The words for this error.
    pub fn message(&self) -> (text: String)
        ensures
            text@ == message_of(*self),
    {
        match self {
            VcsError::EmptySnapshotToken => "empty snapshot token".to_owned(),
            VcsError::InvalidReferenceName => "invalid reference name".to_owned(),
            VcsError::InvalidRevision => "invalid revision identifier".to_owned(),
            VcsError::DuplicateReference => "duplicate reference".to_owned(),
            VcsError::UpstreamNotLocal => "only local branches track upstreams".to_owned(),
            VcsError::IncompleteTracking => "incomplete tracking counts".to_owned(),
            VcsError::GoneWithCounts => "gone upstream has tracking counts".to_owned(),
            VcsError::InvalidPath => "invalid relative path".to_owned(),
            VcsError::PathEscapes => "path escapes repository scope".to_owned(),
            VcsError::DuplicateStatusPath => "duplicate status path".to_owned(),
            VcsError::InvalidStagedStatus => "invalid staged status".to_owned(),
            VcsError::UnadvertisedReference => "reference requires its advertised capability".to_owned(),
            VcsError::UnadvertisedUpstream => "upstream requires tracking capability".to_owned(),
            VcsError::InvalidParents => "invalid commit parents".to_owned(),
            VcsError::ClosedStdout => "VCS provider closed stdout".to_owned(),
            VcsError::HeaderTooLarge => "VCS provider header too large".to_owned(),
            VcsError::InvalidHeaderText(problem) => utf8_text_of(*problem),
            VcsError::InvalidHeader => "invalid frame header".to_owned(),
            VcsError::DuplicateLength => "duplicate Content-Length".to_owned(),
            VcsError::InvalidLength(problem) => number_text(*problem),
            VcsError::MissingLength => "missing Content-Length".to_owned(),
            VcsError::MessageTooLarge => "VCS provider message too large".to_owned(),
            VcsError::TruncatedBody => "unexpected end of file".to_owned(),
            VcsError::Disconnected => "VCS provider disconnected; reopen the project to restart it".to_owned(),
            VcsError::TimedOut => "VCS provider request timed out".to_owned(),
            VcsError::RequestTooLarge => "request too large".to_owned(),
            VcsError::InvalidJsonRpc => "invalid JSON-RPC version".to_owned(),
            VcsError::UnexpectedId => "unexpected response id".to_owned(),
            VcsError::AmbiguousResponse => "expected exactly one result or error".to_owned(),
            VcsError::InvalidResult => "invalid VCS provider result".to_owned(),
            VcsError::UnsupportedVersion => "unsupported VCS protocol version".to_owned(),
            VcsError::NotReadOnly => "provider must support read-only operation".to_owned(),
            VcsError::TrackingWithoutBranches => "tracking requires branches capability".to_owned(),
            VcsError::ReservedFeature => "provider advertises features not implemented by protocol 0.1".to_owned(),
            VcsError::UnrecognizedWorkspace => "provider did not recognize this workspace".to_owned(),
            VcsError::RootMismatch => "provider root must equal the requested workspace scope".to_owned(),
            VcsError::EmptyIdentity => "empty repository identity".to_owned(),
            VcsError::NoHistory => "VCS provider does not support history".to_owned(),
            VcsError::InvalidHistoryLimit => "invalid history limit".to_owned(),
            VcsError::HistoryLimitExceeded => "provider exceeded history limit".to_owned(),
            VcsError::DuplicateCommit => "duplicate history commit".to_owned(),
            VcsError::WrongCommit => "wrong commit identifier".to_owned(),
            VcsError::TooManyFiles => "commit exceeds the file limit".to_owned(),
            VcsError::DuplicateCommitPath => "duplicate commit path".to_owned(),
            VcsError::EmptyCommitChange => "empty commit change".to_owned(),
            VcsError::UnsupportedEncoding => "unsupported content encoding".to_owned(),
            VcsError::InvalidBase64 => "invalid base64 content".to_owned(),
            VcsError::InvalidBatch => "invalid comparison batch size".to_owned(),
            VcsError::WrongComparisonCount => "wrong comparison count".to_owned(),
            VcsError::WrongComparisonPath => "wrong comparison path".to_owned(),
            VcsError::RevisionCollision => "provider revision identifier collision".to_owned(),
            VcsError::NoCurrentRevision => "repository has no current revision".to_owned(),
            VcsError::OtherBranch => "only current-branch provider history is supported".to_owned(),
            VcsError::Untrusted => "VCS provider workspace is not trusted".to_owned(),
            VcsError::ArbitraryRevision => "arbitrary revision reads are not supported by this VCS provider prototype".to_owned(),
            VcsError::HistoryUnsupported => "provider does not support history".to_owned(),
            VcsError::ReadOnly => "operation unavailable: external VCS provider is read-only".to_owned(),
            VcsError::InvalidJson(text) => text.clone(),
            VcsError::Outside(text) => text.clone(),
            VcsError::Provider(error) => error.text(),
            VcsError::Terminating { detail, .. } => {
                let mut text: String = "terminating provider: ".to_owned();
                text.append(detail);
                text
            },
            VcsError::Reaping { .. } => "reaping VCS provider".to_owned(),
            VcsError::LoadingCommitFile { path, .. } => {
                let mut text: String = "loading commit file ".to_owned();
                text.append(path);
                text
            },
        }
    }

    /// The code of the provider error behind this error, if there is one.
    pub fn code(&self) -> (code: Option<i64>)
        ensures
            code == provider_code(*self),
        decreases *self,
    {
        match self {
            VcsError::Provider(error) => Some(error.code),
            VcsError::Terminating { source, .. } => source.code(),
            VcsError::LoadingCommitFile { source, .. } => source.code(),
            _ => None,
        }
    }
}

/// Whether the provider refused because of a size limit.
pub fn is_size_limit_error(error: &VcsError) -> (refused: bool)
    ensures
        refused == (provider_code(*error) == Some(SIZE_LIMIT)),
{
    match error.code() {
        Some(code) => code == SIZE_LIMIT,
        None => false,
    }
}

/// Whether the provider refused because a snapshot or a reference has expired.
pub fn is_expired_error(error: &VcsError) -> (expired: bool)
    ensures
        expired == (provider_code(*error) == Some(EXPIRED)),
{
    match error.code() {
        Some(code) => code == EXPIRED,
        None => false,
    }
}

/// The code of an error is that of the provider's error behind it, however often it was passed on,
/// and no other error has one.
pub proof fn law_codes_are_those_of_the_provider(
    error: VcsError,
    provider: ProviderError,
    text: String,
)
    ensures
        provider_code(VcsError::Provider(provider)) == Some(provider.code),
        provider_code(VcsError::Terminating { detail: text, source: Box::new(error) })
            == provider_code(error),
        provider_code(VcsError::LoadingCommitFile { path: text, source: Box::new(error) })
            == provider_code(error),
        provider_code(error) is Some <==> error is Provider || (error matches VcsError::Terminating {
            detail,
            source,
        } && provider_code(*source) is Some) || (error matches VcsError::LoadingCommitFile {
            path,
            source,
        } && provider_code(*source) is Some),
        EXPIRED == -32001,
        SIZE_LIMIT == -32002,
{
    reveal_with_fuel(provider_code, 2);
}

/// A signed number is the digits of its magnitude, which denote it, after a minus sign exactly where
/// it is negative.
pub proof fn law_signed_numbers_are_read_back(n: int)
    ensures
        n >= 0 ==> unsigned_value(signed_decimal(n)) == Some(n as nat),
        n < 0 ==> signed_decimal(n)[0] == '-' && unsigned_value(signed_decimal(n).skip(1)) == Some(
            (-n) as nat,
        ),
{
    if n >= 0 {
        law_decimal_is_read_back(n as nat);
    } else {
        law_decimal_is_read_back((-n) as nat);
        assert(signed_decimal(n).skip(1) =~= decimal((-n) as nat));
    }
}

/// The words for an error end with what it is about: the provider's message after its code, the
/// reason for which a process could not be stopped, the path of a file. What comes in words from
/// elsewhere is told in those words.
pub proof fn law_words_end_with_what_they_are_about(
    provider: ProviderError,
    text: String,
    error: VcsError,
)
    ensures
        message_of(VcsError::InvalidJson(text)) == text@,
        message_of(VcsError::Outside(text)) == text@,
        provider.message@.is_suffix_of(message_of(VcsError::Provider(provider))),
        (signed_decimal(provider.code as int) + ": "@ + provider.message@).is_suffix_of(
            message_of(VcsError::Provider(provider)),
        ),
        text@.is_suffix_of(
            message_of(VcsError::Terminating { detail: text, source: Box::new(error) }),
        ),
        text@.is_suffix_of(
            message_of(VcsError::LoadingCommitFile { path: text, source: Box::new(error) }),
        ),
{
    let words = message_of(VcsError::Provider(provider));
    let code = signed_decimal(provider.code as int);
    let about = code + ": "@ + provider.message@;
    assert(words =~= "VCS provider error "@ + about);
    assert(provider.message@ =~= words.skip(words.len() - provider.message@.len()));
    assert(about =~= words.skip(words.len() - about.len()));
}

/// The words for bytes that are not UTF-8 tell how many are invalid, where that is known, and end
/// with how many before them are valid.
pub proof fn law_words_for_bytes_tell_where_they_fail(problem: Utf8Problem)
    ensures
        decimal(problem.valid_up_to as nat).is_suffix_of(
            message_of(VcsError::InvalidHeaderText(problem)),
        ),
        problem.error_len matches Some(len) ==> (decimal(len as nat) + " bytes from index "@
            + decimal(problem.valid_up_to as nat)).is_suffix_of(
            message_of(VcsError::InvalidHeaderText(problem)),
        ),
{
    let words = utf8_words(problem);
    let place = decimal(problem.valid_up_to as nat);
    assert(place =~= words.skip(words.len() - place.len()));
    if let Some(len) = problem.error_len {
        let about = decimal(len as nat) + " bytes from index "@ + place;
        assert(words =~= "invalid utf-8 sequence of "@ + about);
        assert(about =~= words.skip(words.len() - about.len()));
    }
}

} // verus!
