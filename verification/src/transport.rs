//! The connection to a provider process: numbered requests, and what may come back.

use crate::error::{ProviderError, VcsError};
use crate::frame::{
    first_frame, frame_bytes, law_frame_is_read_back, read_frame, write_frame, MAX_MESSAGE_BYTES,
};
use crate::json::{
    json_content, json_document, json_from_slice, json_get, json_read, members_of, object_of,
    JsonView,
};
use crate::request::{request_body, request_json, Request};
use crate::text::same_text;
use vstd::prelude::*;

verus! {

/// The member of a JSON object under a key.
pub open spec fn member(json: JsonView, key: Seq<char>) -> Option<JsonView> {
    match json {
        JsonView::Object(members) => if members.contains_key(key) {
            Some(members[key])
        } else {
            None
        },
        _ => None,
    }
}

/// What a message is to the one who waits for the answer to a request.
#[derive(Clone, Copy, Debug, PartialEq, Eq, Structural)]
pub enum Incoming {
    /// A hint that the repository has changed; the answer is still to come.
    Notification,
    /// The answer, with a result.
    Result,
    /// The answer, with an error.
    Error,
}

/// What a message is to the one who waits for the answer to request `id`.
pub open spec fn incoming(message: JsonView, id: u64) -> Result<Incoming, VcsError> {
    let has_result = member(message, "result"@) is Some;
    let has_error = member(message, "error"@) is Some;
    if member(message, "jsonrpc"@) != Some(JsonView::Text("2.0"@)) {
        Err(VcsError::InvalidJsonRpc)
    } else if member(message, "method"@) == Some(JsonView::Text("repository/changed"@)) && member(
        message,
        "id"@,
    ) is None {
        Ok(Incoming::Notification)
    } else if member(message, "id"@) != Some(JsonView::Unsigned(id)) {
        Err(VcsError::UnexpectedId)
    } else if has_result == has_error {
        Err(VcsError::AmbiguousResponse)
    } else if has_error {
        Ok(Incoming::Error)
    } else {
        Ok(Incoming::Result)
    }
}

/// Whether `message` has the text `text` under `key`.
fn says(message: &serde_json::Value, key: &str, text: &str) -> (said: bool)
    ensures
        said == (member(json_content(*message), key@) == Some(JsonView::Text(text@))),
{
    match json_get(message, key) {
        Some(value) => match value.as_str() {
            Some(found) => same_text(found, text),
            None => false,
        },
        None => false,
    }
}

/// Tells what `message` is to the one who waits for the answer to request `id`.
pub fn classify(message: &serde_json::Value, id: u64) -> (kind: Result<Incoming, VcsError>)
    ensures
        kind == incoming(json_content(*message), id),
{
    if !says(message, "jsonrpc", "2.0") {
        return Err(VcsError::InvalidJsonRpc);
    }
    let given: Option<&serde_json::Value> = json_get(message, "id");
    if says(message, "method", "repository/changed") && given.is_none() {
        return Ok(Incoming::Notification);
    }
    let number: Option<u64> = match given {
        Some(value) => value.as_u64(),
        None => None,
    };
    if number != Some(id) {
        return Err(VcsError::UnexpectedId);
    }
    let has_result: bool = json_get(message, "result").is_some();
    let has_error: bool = json_get(message, "error").is_some();
    if has_result == has_error {
        return Err(VcsError::AmbiguousResponse);
    }
    if has_error {
        Ok(Incoming::Error)
    } else {
        Ok(Incoming::Result)
    }
}

/// Reads the body of a frame as JSON.
pub fn parse_message(body: &[u8]) -> (message: Result<serde_json::Value, VcsError>)
    ensures
        match json_read(body@) {
            Ok(content) => message matches Ok(value) && json_content(value) == content,
            Err(words) => message matches Err(VcsError::InvalidJson(text)) && text@ == words,
        },
{
    accept_message(json_from_slice(body))
}

/// Settles a body, of which `read` is what JSON makes of it.
pub fn accept_message(read: Result<serde_json::Value, String>) -> (message: Result<
    serde_json::Value,
    VcsError,
>)
    ensures
        message == match read {
            Ok(value) => Ok::<serde_json::Value, VcsError>(value),
            Err(words) => Err(VcsError::InvalidJson(words)),
        },
{
    match read {
        Ok(value) => Ok(value),
        Err(words) => Err(VcsError::InvalidJson(words)),
    }
}

/// A message taken off the front of some bytes, and how many bytes it took.
#[derive(Debug)]
pub struct Message {
    pub value: serde_json::Value,
    pub taken: usize,
}

/// Takes the first message off `input`: a frame whose body is JSON.
pub fn read_message(input: &[u8]) -> (message: Result<Message, VcsError>)
    ensures
        match first_frame(input@) {
            Ok((body, taken)) => match json_read(body) {
                Ok(content) => message matches Ok(message) && json_content(message.value)
                    == content && message.taken == taken,
                Err(words) => message matches Err(VcsError::InvalidJson(text)) && text@ == words,
            },
            Err(error) => message matches Err(e) && e == error,
        },
{
    match read_frame(input) {
        Ok(frame) => match parse_message(&frame.body) {
            Ok(value) => Ok(Message { value, taken: frame.taken }),
            Err(error) => Err(error),
        },
        Err(error) => Err(error),
    }
}

/// The state of a connection: how many requests it has numbered, and whether it has failed.
#[derive(Clone, Copy, Debug, PartialEq, Eq, Structural)]
pub struct ProcessTransport {
    pub next_id: u64,
    pub failed: bool,
}

/// A request on its way: its number, and the bytes to send.
pub struct Outgoing {
    pub id: u64,
    pub bytes: Vec<u8>,
}

/// What to do after a message, or after a failure to read one.
#[derive(Debug)]
pub enum Received {
    /// Read the next message.
    Again,
    /// The request is answered by the result in this message.
    Result(serde_json::Value),
    /// The request is answered by the error in this message.
    Error(serde_json::Value),
    /// The connection has failed: the process is to be stopped.
    Failed(VcsError),
}

/// How an attempt to kill the provider process ended.
#[derive(Debug)]
pub enum Kill {
    Done,
    /// It had exited before.
    NotRunning,
    /// It could not be killed, for the reason given.
    Refused(String),
}

/// What to do after an attempt to kill the provider process.
#[derive(Debug)]
pub enum AfterKill {
    /// Wait for the process to exit, then report this error.
    Reap(VcsError),
    /// Report this error.
    Report(VcsError),
}

impl ProcessTransport {
    /// A connection that has sent nothing.
    pub fn new() -> (transport: ProcessTransport)
        ensures
            transport == (ProcessTransport { next_id: 0, failed: false }),
    {
        ProcessTransport { next_id: 0, failed: false }
    }

    /// Numbers the next request. A failed connection numbers no more.
    pub fn number(&mut self) -> (id: Result<u64, VcsError>)
        requires
            old(self).failed || old(self).next_id < u64::MAX,
        ensures
            if old(self).failed {
                id == Err::<u64, VcsError>(VcsError::Disconnected) && *final(self) == *old(self)
            } else {
                id == Ok::<u64, VcsError>((old(self).next_id + 1) as u64) && *final(self) == (
                ProcessTransport { next_id: (old(self).next_id + 1) as u64, failed: false })
            },
    {
        if self.failed {
            return Err(VcsError::Disconnected);
        }
        self.next_id = self.next_id + 1;
        Ok(self.next_id)
    }

    /// Frames the body of a request. One that is too long fails the connection.
    pub fn frame(&mut self, body: &[u8]) -> (bytes: Result<Vec<u8>, VcsError>)
        ensures
            if body@.len() > MAX_MESSAGE_BYTES {
                bytes == Err::<Vec<u8>, VcsError>(VcsError::RequestTooLarge) && *final(self) == (
                ProcessTransport { failed: true, ..*old(self) })
            } else {
                bytes matches Ok(bytes) && bytes@ == frame_bytes(body@) && *final(self) == *old(
                    self,
                )
            },
            old(self).failed ==> final(self).failed,
    {
        match write_frame(body) {
            Ok(bytes) => Ok(bytes),
            Err(error) => {
                self.failed = true;
                Err(error)
            },
        }
    }

    /// Prepares a request: numbers it, puts it in JSON-RPC, and frames that.
    pub fn send(&mut self, request: &Request) -> (outgoing: Result<Outgoing, VcsError>)
        requires
            old(self).failed || old(self).next_id < u64::MAX,
        ensures
            if old(self).failed {
                outgoing == Err::<Outgoing, VcsError>(VcsError::Disconnected) && *final(self)
                    == *old(self)
            } else {
                let id = (old(self).next_id + 1) as u64;
                &&& final(self).next_id == id
                &&& exists|body: Seq<u8>|
                    {
                        &&& #[trigger] json_document(body) == Some(request_json(id, request@))
                        &&& if body.len() > MAX_MESSAGE_BYTES {
                            &&& outgoing == Err::<Outgoing, VcsError>(VcsError::RequestTooLarge)
                            &&& final(self).failed
                        } else {
                            &&& outgoing matches Ok(outgoing)
                            &&& outgoing.id == id
                            &&& outgoing.bytes@ == frame_bytes(body)
                            &&& !final(self).failed
                        }
                    }
            },
            outgoing matches Ok(outgoing) ==> {
                &&& first_frame(outgoing.bytes@) matches Ok((body, taken))
                &&& taken == outgoing.bytes@.len()
                &&& json_document(body) == Some(request_json(outgoing.id, request@))
            },
            old(self).failed ==> final(self).failed,
    {
        match self.number() {
            Err(error) => Err(error),
            Ok(id) => {
                let body: Vec<u8> = request_body(id, request);
                match self.frame(&body) {
                    Ok(bytes) => {
                        proof {
                            law_frame_is_read_back(body@, Seq::empty());
                            assert(frame_bytes(body@) + Seq::<u8>::empty() == frame_bytes(body@));
                        }
                        Ok(Outgoing { id, bytes })
                    },
                    Err(error) => Err(error),
                }
            },
        }
    }

    /// Takes what was read while request `id` waits for its answer. A message that is no answer
    /// and no hint, and any failure to read, fails the connection; an error that the provider
    /// reports does not.
    pub fn receive(
        &mut self,
        id: u64,
        message: Result<serde_json::Value, VcsError>,
    ) -> (received: Received)
        ensures
            match message {
                Err(error) => received == Received::Failed(error) && *final(self) == (
                ProcessTransport { failed: true, ..*old(self) }),
                Ok(value) => match incoming(json_content(value), id) {
                    Err(error) => received == Received::Failed(error) && *final(self) == (
                    ProcessTransport { failed: true, ..*old(self) }),
                    Ok(Incoming::Notification) => received == Received::Again && *final(self)
                        == *old(self),
                    Ok(Incoming::Result) => received == Received::Result(value) && *final(self)
                        == *old(self),
                    Ok(Incoming::Error) => received == Received::Error(value) && *final(self)
                        == *old(self),
                },
            },
            old(self).failed ==> final(self).failed,
    {
        match message {
            Err(error) => {
                self.failed = true;
                Received::Failed(error)
            },
            Ok(value) => match classify(&value, id) {
                Err(error) => {
                    self.failed = true;
                    Received::Failed(error)
                },
                Ok(Incoming::Notification) => Received::Again,
                Ok(Incoming::Result) => Received::Result(value),
                Ok(Incoming::Error) => Received::Error(value),
            },
        }
    }

    /// Marks the connection as failed because its owner stops it.
    pub fn stop(&mut self)
        ensures
            *final(self) == (ProcessTransport { failed: true, ..*old(self) }),
    {
        self.failed = true;
    }
}

/// What follows an attempt to kill the process of a connection that failed with `error`.
pub open spec fn killed(error: VcsError, kill: Kill) -> AfterKill {
    match kill {
        Kill::Refused(detail) => AfterKill::Report(
            VcsError::Terminating { detail, source: Box::new(error) },
        ),
        _ => AfterKill::Reap(error),
    }
}

/// What to report of a connection that failed with `error`, once its process was waited for, or
/// could not be.
pub open spec fn reaped(error: VcsError, refusal: Option<String>) -> VcsError {
    match refusal {
        Some(detail) => VcsError::Reaping { detail },
        None => error,
    }
}

/// Tells what follows an attempt to kill the process of a connection that failed with `error`.
pub fn after_kill(error: VcsError, kill: Kill) -> (next: AfterKill)
    ensures
        next == killed(error, kill),
{
    match kill {
        Kill::Refused(detail) => AfterKill::Report(
            VcsError::Terminating { detail, source: Box::new(error) },
        ),
        Kill::Done | Kill::NotRunning => AfterKill::Reap(error),
    }
}

/// Tells what to report of a connection that failed with `error`, once its process was waited for,
/// or could not be, for the reason given.
pub fn after_reap(error: VcsError, refusal: Option<String>) -> (report: VcsError)
    ensures
        report == reaped(error, refusal),
{
    match refusal {
        Some(detail) => VcsError::Reaping { detail },
        None => error,
    }
}

/// An answer, once what it holds was read.
#[derive(Debug)]
pub enum Reply<T> {
    /// Its result, if that is of the kind that was asked for.
    Result(Option<T>),
    /// Its error, or the words for why that is none.
    Error(Result<ProviderError, String>),
}

/// What an answer comes to.
pub open spec fn reply_value<T>(reply: Reply<T>) -> Result<T, VcsError> {
    match reply {
        Reply::Result(Some(value)) => Ok(value),
        Reply::Result(None) => Err(VcsError::InvalidResult),
        Reply::Error(Ok(error)) => Err(VcsError::Provider(error)),
        Reply::Error(Err(words)) => Err(VcsError::InvalidJson(words)),
    }
}

/// How a request ends.
#[derive(Debug)]
pub enum Settled<T> {
    /// With this result; the connection can be used on.
    Done(Result<T, VcsError>),
    /// With this error, once the process is killed and waited for.
    Kill(VcsError),
}

impl ProcessTransport {
    /// What a connection is after an exchange, and how the request ends.
    pub open spec fn settling<T>(self, exchanged: Result<Reply<T>, VcsError>) -> (
        ProcessTransport,
        Settled<T>,
    ) {
        match exchanged {
            Ok(reply) => (self, Settled::Done(reply_value(reply))),
            Err(error) => (ProcessTransport { failed: true, ..self }, Settled::Kill(error)),
        }
    }

    /// Settles a request by what its exchange came to: an answer, or why there is none, be it that
    /// the time ran out. Whatever an answer holds, it leaves the connection usable.
    pub fn settle<T>(&mut self, exchanged: Result<Reply<T>, VcsError>) -> (settled: Settled<T>)
        ensures
            (*final(self), settled) == old(self).settling(exchanged),
    {
        match exchanged {
            Ok(Reply::Result(Some(value))) => Settled::Done(Ok(value)),
            Ok(Reply::Result(None)) => Settled::Done(Err(VcsError::InvalidResult)),
            Ok(Reply::Error(Ok(error))) => Settled::Done(Err(VcsError::Provider(error))),
            Ok(Reply::Error(Err(words))) => Settled::Done(Err(VcsError::InvalidJson(words))),
            Err(error) => {
                self.failed = true;
                Settled::Kill(error)
            },
        }
    }
}

/// A request from its beginning to its end: what the connection is then, what is returned, whether
/// anything was sent, and whether the process was killed and waited for.
pub struct RequestEnd<T> {
    pub transport: ProcessTransport,
    pub result: Result<T, VcsError>,
    pub was_sent: bool,
    pub was_killed: bool,
    pub was_reaped: bool,
}

/// How a request ends, given what its exchange comes to, and what killing the process and waiting
/// for it would.
pub open spec fn request_end<T>(
    transport: ProcessTransport,
    exchanged: Result<Reply<T>, VcsError>,
    kill: Kill,
    refusal: Option<String>,
) -> RequestEnd<T> {
    if transport.failed {
        RequestEnd {
            transport,
            result: Err(VcsError::Disconnected),
            was_sent: false,
            was_killed: false,
            was_reaped: false,
        }
    } else {
        let numbered = ProcessTransport { next_id: (transport.next_id + 1) as u64, failed: false };
        match numbered.settling(exchanged) {
            (after, Settled::Done(result)) => RequestEnd {
                transport: after,
                result,
                was_sent: true,
                was_killed: false,
                was_reaped: false,
            },
            (after, Settled::Kill(error)) => match killed(error, kill) {
                AfterKill::Report(report) => RequestEnd {
                    transport: after,
                    result: Err(report),
                    was_sent: true,
                    was_killed: true,
                    was_reaped: false,
                },
                AfterKill::Reap(error) => RequestEnd {
                    transport: after,
                    result: Err(reaped(error, refusal)),
                    was_sent: true,
                    was_killed: true,
                    was_reaped: true,
                },
            },
        }
    }
}

/// A connection that has failed sends nothing and stays failed. Otherwise, where an exchange comes
/// to nothing, the request is an error, the connection has failed, and its process is killed and,
/// unless it could not be killed, waited for. Where an exchange comes to an answer the connection
/// is usable on, whatever the answer holds: the provider's error is returned with its code and
/// message, a result of the right kind is returned, and anything else is an error.
pub proof fn law_requests_end_as_their_exchange<T>(
    transport: ProcessTransport,
    exchanged: Result<Reply<T>, VcsError>,
    kill: Kill,
    refusal: Option<String>,
)
    ensures
        ({
            let end = request_end(transport, exchanged, kill, refusal);
            &&& transport.failed ==> end.transport == transport && end.result == Err::<
                T,
                VcsError,
            >(VcsError::Disconnected) && !end.was_sent && !end.was_killed
            &&& !transport.failed ==> match exchanged {
                Err(error) => {
                    &&& end.result is Err
                    &&& end.transport.failed
                    &&& end.was_killed
                    &&& kill !is Refused ==> end.was_reaped
                    &&& kill !is Refused && refusal is None ==> end.result == Err::<T, VcsError>(
                        error,
                    )
                },
                Ok(reply) => {
                    &&& !end.transport.failed
                    &&& !end.was_killed
                    &&& match reply {
                        Reply::Error(Ok(error)) => end.result == Err::<T, VcsError>(
                            VcsError::Provider(error),
                        ),
                        Reply::Error(Err(_)) => end.result is Err,
                        Reply::Result(Some(value)) => end.result == Ok::<T, VcsError>(value),
                        Reply::Result(None) => end.result == Err::<T, VcsError>(
                            VcsError::InvalidResult,
                        ),
                    }
                },
            }
        }),
{
}

/// The answer to a request: its number, and a result or an error.
pub open spec fn response_json(id: u64, key: Seq<char>, content: JsonView) -> JsonView {
    object_of(
        seq![
            ("jsonrpc"@, JsonView::Text("2.0"@)),
            ("id"@, JsonView::Unsigned(id)),
            (key, content),
        ],
    )
}

/// The members of an object of three.
proof fn lemma_three_members(
    a: (Seq<char>, JsonView),
    b: (Seq<char>, JsonView),
    c: (Seq<char>, JsonView),
)
    ensures
        members_of(seq![a, b, c]) == Map::empty().insert(a.0, a.1).insert(b.0, b.1).insert(
            c.0,
            c.1,
        ),
{
    assert(seq![a, b, c].drop_last() == seq![a, b]);
    assert(seq![a, b].drop_last() == seq![a]);
    assert(seq![a].drop_last() == Seq::<(Seq<char>, JsonView)>::empty());
    assert(members_of(Seq::<(Seq<char>, JsonView)>::empty()) == Map::<
        Seq<char>,
        JsonView,
    >::empty());
    assert(members_of(seq![a]) == Map::empty().insert(a.0, a.1));
    assert(members_of(seq![a, b]) == Map::empty().insert(a.0, a.1).insert(b.0, b.1));
}

/// A response that echoes the number of the request and holds one of `result` and `error` answers
/// it; one with another number answers nothing.
pub proof fn law_responses_answer_their_request(id: u64, other: u64, content: JsonView)
    ensures
        incoming(response_json(id, "result"@, content), id) == Ok::<Incoming, VcsError>(
            Incoming::Result,
        ),
        incoming(response_json(id, "error"@, content), id) == Ok::<Incoming, VcsError>(
            Incoming::Error,
        ),
        other != id ==> incoming(response_json(other, "result"@, content), id) == Err::<
            Incoming,
            VcsError,
        >(VcsError::UnexpectedId),
{
    reveal_strlit("jsonrpc");
    reveal_strlit("id");
    reveal_strlit("method");
    reveal_strlit("result");
    reveal_strlit("error");
    let version = ("jsonrpc"@, JsonView::Text("2.0"@));
    let number = ("id"@, JsonView::Unsigned(id));
    let other_number = ("id"@, JsonView::Unsigned(other));
    lemma_three_members(version, number, ("result"@, content));
    lemma_three_members(version, number, ("error"@, content));
    lemma_three_members(version, other_number, ("result"@, content));
    assert("result"@.len() == "method"@.len() && "result"@[0] != "method"@[0]);
    assert("error"@.len() != "method"@.len() && "error"@.len() != "result"@.len());
    assert("id"@.len() != "method"@.len() && "jsonrpc"@.len() != "method"@.len());
    assert("id"@.len() != "result"@.len() && "id"@.len() != "error"@.len());
    assert("jsonrpc"@.len() != "result"@.len() && "jsonrpc"@.len() != "error"@.len());
    assert("jsonrpc"@.len() != "id"@.len());
}

/// A hint that the repository has changed, without a number, answers no request.
pub proof fn law_notifications_answer_nothing(id: u64, params: JsonView)
    ensures
        incoming(
            object_of(
                seq![
                    ("jsonrpc"@, JsonView::Text("2.0"@)),
                    ("method"@, JsonView::Text("repository/changed"@)),
                    ("params"@, params),
                ],
            ),
            id,
        ) == Ok::<Incoming, VcsError>(Incoming::Notification),
{
    reveal_strlit("jsonrpc");
    reveal_strlit("id");
    reveal_strlit("method");
    reveal_strlit("params");
    lemma_three_members(
        ("jsonrpc"@, JsonView::Text("2.0"@)),
        ("method"@, JsonView::Text("repository/changed"@)),
        ("params"@, params),
    );
    assert("method"@.len() == "params"@.len() && "method"@[0] != "params"@[0]);
    assert("jsonrpc"@.len() != "method"@.len() && "jsonrpc"@.len() != "params"@.len());
    assert("id"@.len() != "jsonrpc"@.len());
    assert("id"@.len() != "method"@.len() && "id"@.len() != "params"@.len());
}

/// A message is a hint exactly where it names that method and has no number, and an answer exactly
/// where it has the number of the request, and a result or an error but not both. Either is of
/// JSON-RPC 2.0, and whatever is neither is refused.
pub proof fn law_messages_are_hints_or_answers(members: Map<Seq<char>, JsonView>, id: u64)
    ensures
        ({
            let told = incoming(JsonView::Object(members), id);
            let is_rpc = members.contains_key("jsonrpc"@) && members["jsonrpc"@] == JsonView::Text(
                "2.0"@,
            );
            let is_numbered = members.contains_key("id"@) && members["id"@] == JsonView::Unsigned(
                id,
            );
            let has_result = members.contains_key("result"@);
            let has_error = members.contains_key("error"@);
            let is_hint = is_rpc && members.contains_key("method"@) && members["method"@]
                == JsonView::Text("repository/changed"@) && !members.contains_key("id"@);
            &&& told == Ok::<Incoming, VcsError>(Incoming::Notification) <==> is_hint
            &&& told == Ok::<Incoming, VcsError>(Incoming::Result) <==> is_rpc && is_numbered
                && has_result && !has_error
            &&& told == Ok::<Incoming, VcsError>(Incoming::Error) <==> is_rpc && is_numbered
                && has_error && !has_result
            &&& told == Err::<Incoming, VcsError>(VcsError::InvalidJsonRpc) <==> !is_rpc
            &&& told == Err::<Incoming, VcsError>(VcsError::UnexpectedId) <==> is_rpc && !is_hint
                && !is_numbered
            &&& told == Err::<Incoming, VcsError>(VcsError::AmbiguousResponse) <==> is_rpc
                && is_numbered && has_result == has_error
        }),
{
}

/// Nothing but an object is a message.
pub proof fn law_messages_are_objects(message: JsonView, id: u64)
    ensures
        message !is Object ==> incoming(message, id) == Err::<Incoming, VcsError>(
            VcsError::InvalidJsonRpc,
        ),
{
}

/// Every request that is sent takes the next number. Where an exchange came to nothing, that is
/// what is reported, unless the process could not be killed, or not be waited for: the reason is
/// reported then, and a process that could not be killed is not waited for.
pub proof fn law_failures_tell_what_failed<T>(
    transport: ProcessTransport,
    exchanged: Result<Reply<T>, VcsError>,
    kill: Kill,
    refusal: Option<String>,
)
    requires
        !transport.failed,
        transport.next_id < u64::MAX,
    ensures
        ({
            let end = request_end(transport, exchanged, kill, refusal);
            &&& end.was_sent
            &&& end.transport.next_id == transport.next_id + 1
            &&& end.was_killed <==> exchanged is Err
            &&& end.transport.failed <==> exchanged is Err
            &&& end.was_reaped <==> exchanged is Err && !(kill is Refused)
            &&& exchanged matches Err(error) ==> {
                &&& kill matches Kill::Refused(detail) ==> end.result == Err::<T, VcsError>(
                    VcsError::Terminating { detail, source: Box::new(error) },
                )
                &&& !(kill is Refused) ==> (refusal matches Some(detail) ==> end.result == Err::<
                    T,
                    VcsError,
                >(VcsError::Reaping { detail }))
                &&& !(kill is Refused) && refusal is None ==> end.result == Err::<T, VcsError>(
                    error,
                )
            }
            &&& exchanged matches Ok(Reply::Error(Err(words))) ==> end.result == Err::<T, VcsError>(
                VcsError::InvalidJson(words),
            )
        }),
{
}

} // verus!
