use serde_json::Value;
use vcs_provider::error::{ProviderError, VcsError};
use vcs_provider::frame::{read_frame, write_frame, FrameHeader, HeaderStep, MAX_MESSAGE_BYTES};
use vcs_provider::request::{request_body, Request};
use vcs_provider::text::{NumberProblem, Utf8Problem};
use vcs_provider::transport::{
    accept_message, after_kill, after_reap, classify, parse_message, read_message, AfterKill,
    Incoming, Kill, ProcessTransport, Received, Reply, Settled,
};

fn json(text: &str) -> Value {
    serde_json::from_str(text).unwrap()
}

#[test]
fn a_frame_is_read_back_whatever_follows() {
    let mut bytes = write_frame(b"{}").unwrap();
    assert_eq!(bytes, b"Content-Length: 2\r\n\r\n{}");
    bytes.extend(b"rest");
    let frame = read_frame(&bytes).unwrap();
    assert_eq!(frame.body, b"{}");
    assert_eq!(frame.taken, bytes.len() - 4);
}

#[test]
fn frames_are_refused_for_their_reasons() {
    let refused = |bytes: &[u8]| read_frame(bytes).err();
    assert_eq!(refused(b""), Some(VcsError::ClosedStdout));
    assert_eq!(refused(b"Content-Length: 2\r\n"), Some(VcsError::ClosedStdout));
    assert_eq!(refused(&[b'x'; 9000]), Some(VcsError::HeaderTooLarge));
    assert_eq!(
        refused(b"a\xff: 1\r\n\r\n"),
        Some(VcsError::InvalidHeaderText(Utf8Problem { valid_up_to: 1, error_len: Some(1) }))
    );
    assert_eq!(refused(b"Content-Length\r\n\r\n"), Some(VcsError::InvalidHeader));
    assert_eq!(
        refused(b"Content-Length: 2\r\ncontent-length: 2\r\n\r\n{}"),
        Some(VcsError::DuplicateLength)
    );
    for (length, problem) in [
        ("", NumberProblem::Empty),
        ("-1", NumberProblem::InvalidDigit),
        ("two", NumberProblem::InvalidDigit),
        ("1 1", NumberProblem::InvalidDigit),
        ("+", NumberProblem::InvalidDigit),
        ("99999999999999999999999", NumberProblem::TooLarge),
        ("99999999999999999999999x", NumberProblem::TooLarge),
        ("9x999999999999999999999", NumberProblem::InvalidDigit),
    ] {
        let frame = format!("Content-Length: {length}\r\n\r\n");
        let error = refused(frame.as_bytes()).unwrap();
        assert_eq!(error, VcsError::InvalidLength(problem), "{length}");
        // The words are those of the standard library.
        assert_eq!(error.message(), length.parse::<usize>().unwrap_err().to_string());
    }
    assert_eq!(refused(b"Other: 2\r\n\r\n{}"), Some(VcsError::MissingLength));
    assert_eq!(refused(b"Content-Length: 33554433\r\n\r\n"), Some(VcsError::MessageTooLarge));
    assert_eq!(refused(b"Content-Length: 3\r\n\r\n{}"), Some(VcsError::TruncatedBody));
}

#[test]
fn header_names_are_case_insensitive_and_other_headers_are_passed_over() {
    let frame = read_frame(b"X-Other: a:b\r\nCONTENT-length:\t +2 \r\n\r\n{}").unwrap();
    assert_eq!(frame.body, b"{}");
}

#[test]
fn a_header_is_bounded_as_a_whole() {
    let mut header = FrameHeader::new();
    let line = [b"X: ".as_slice(), &[b'y'; 4091], b"\r\n"].concat();
    assert_eq!(header.accept(&line), Ok(HeaderStep::More));
    assert_eq!(header.accept(&line), Ok(HeaderStep::More));
    assert_eq!(header.bytes, 8192);
    assert_eq!(header.accept(b"\r\n"), Err(VcsError::HeaderTooLarge));
    assert_eq!(header.bytes, 8192);
}

#[test]
fn bodies_that_are_too_long_fail_the_connection() {
    let body = vec![b' '; MAX_MESSAGE_BYTES + 1];
    assert_eq!(write_frame(&body), Err(VcsError::RequestTooLarge));
    let mut transport = ProcessTransport::new();
    assert_eq!(transport.frame(&body), Err(VcsError::RequestTooLarge));
    assert!(transport.failed);
}

#[test]
fn messages_are_json() {
    let words = serde_json::from_slice::<Value>(b"{").unwrap_err().to_string();
    assert_eq!(parse_message(b"{"), Err(VcsError::InvalidJson(words)));
    assert_eq!(accept_message(Err("no".into())), Err(VcsError::InvalidJson("no".into())));
    assert_eq!(parse_message(b" [1, \"a\"] ").unwrap(), json("[1,\"a\"]"));
    assert!(matches!(
        read_message(b"Content-Length: 1\r\n\r\n{"),
        Err(VcsError::InvalidJson(_))
    ));
}

#[test]
fn messages_are_told_apart() {
    let kind = |text: &str| classify(&json(text), 7);
    assert_eq!(kind(r#"{"jsonrpc":"2.0","id":7,"result":null}"#), Ok(Incoming::Result));
    assert_eq!(kind(r#"{"jsonrpc":"2.0","id":7,"error":{}}"#), Ok(Incoming::Error));
    assert_eq!(
        kind(r#"{"jsonrpc":"2.0","method":"repository/changed","params":{}}"#),
        Ok(Incoming::Notification)
    );
    assert_eq!(kind(r#"{"jsonrpc":"1.0","id":7,"result":1}"#), Err(VcsError::InvalidJsonRpc));
    assert_eq!(kind("[]"), Err(VcsError::InvalidJsonRpc));
    assert_eq!(kind(r#"{"jsonrpc":"2.0","id":8,"result":1}"#), Err(VcsError::UnexpectedId));
    assert_eq!(kind(r#"{"jsonrpc":"2.0","id":"7","result":1}"#), Err(VcsError::UnexpectedId));
    assert_eq!(
        kind(r#"{"jsonrpc":"2.0","method":"repository/changed","id":null}"#),
        Err(VcsError::UnexpectedId)
    );
    assert_eq!(
        kind(r#"{"jsonrpc":"2.0","method":"window/log"}"#),
        Err(VcsError::UnexpectedId)
    );
    assert_eq!(kind(r#"{"jsonrpc":"2.0","id":7}"#), Err(VcsError::AmbiguousResponse));
    assert_eq!(
        kind(r#"{"jsonrpc":"2.0","id":7,"result":1,"error":{}}"#),
        Err(VcsError::AmbiguousResponse)
    );
}

#[test]
fn requests_are_numbered_from_one_and_read_back() {
    let mut transport = ProcessTransport::new();
    for id in 1..4 {
        let outgoing = transport.send(&Request::Status { repository: "a \"b\"".into() }).unwrap();
        assert_eq!(outgoing.id, id);
        let message = read_message(&outgoing.bytes).unwrap();
        assert_eq!(message.taken, outgoing.bytes.len());
        assert_eq!(message.value["jsonrpc"], "2.0");
        assert_eq!(message.value["id"], id);
        assert_eq!(message.value["method"], "repository/status");
        assert_eq!(message.value["params"]["repository"], "a \"b\"");
    }
}

#[test]
fn each_request_has_its_method_and_parameters() {
    let body = |request: Request| json(std::str::from_utf8(&request_body(3, &request)).unwrap());
    assert_eq!(
        body(Request::Initialize),
        json(
            r#"{"jsonrpc":"2.0","id":3,"method":"initialize",
                "params":{"protocolVersion":"0.1","client":{"name":"Zed"}}}"#
        )
    );
    assert_eq!(
        body(Request::Discover { workspace_root: "/work".into() })["params"],
        json(r#"{"workspaceRoot":"/work"}"#)
    );
    assert_eq!(
        body(Request::Comparison {
            repository: "r".into(),
            snapshot: "s".into(),
            paths: vec!["a".into(), "b".into()],
        }),
        json(
            r#"{"jsonrpc":"2.0","id":3,"method":"repository/comparison",
                "params":{"repository":"r","snapshot":"s","paths":["a","b"]}}"#
        )
    );
    assert_eq!(
        body(Request::ReadContent { repository: "r".into(), content: "c".into() })["params"],
        json(r#"{"repository":"r","content":"c"}"#)
    );
    assert_eq!(
        body(Request::History {
            repository: "r".into(),
            revision: "v".into(),
            path: None,
            limit: 5,
        }),
        json(
            r#"{"jsonrpc":"2.0","id":3,"method":"repository/history",
                "params":{"repository":"r","revision":"v","path":null,"limit":5}}"#
        )
    );
    assert_eq!(
        body(Request::CommitDetails { repository: "r".into(), revision: "v".into() })["params"],
        json(r#"{"repository":"r","revision":"v"}"#)
    );
    assert_eq!(
        body(Request::CommitChanges { repository: "r".into(), revision: "v".into() })["method"],
        "repository/commitChanges"
    );
}

#[test]
fn only_complete_errors_leave_the_connection_usable() {
    let mut transport = ProcessTransport::new();
    let error = json(r#"{"jsonrpc":"2.0","id":1,"error":{"code":-32000,"message":"m"}}"#);
    assert!(matches!(transport.receive(1, Ok(error)), Received::Error(_)));
    assert!(!transport.failed);
    let hint = json(r#"{"jsonrpc":"2.0","method":"repository/changed"}"#);
    assert!(matches!(transport.receive(1, Ok(hint)), Received::Again));
    let other = json(r#"{"jsonrpc":"2.0","id":2,"result":1}"#);
    assert!(matches!(
        transport.receive(1, Ok(other)),
        Received::Failed(VcsError::UnexpectedId)
    ));
    assert!(transport.failed);
    assert_eq!(
        transport.send(&Request::Initialize).err(),
        Some(VcsError::Disconnected)
    );
}

#[test]
fn what_failed_is_reported_with_what_happened_to_the_process() {
    let refused = after_kill(VcsError::TimedOut, Kill::Refused("denied".into()));
    assert!(matches!(
        refused,
        AfterKill::Report(VcsError::Terminating { detail, source })
            if detail == "denied" && *source == VcsError::TimedOut
    ));
    for kill in [Kill::Done, Kill::NotRunning] {
        assert!(matches!(after_kill(VcsError::TimedOut, kill), AfterKill::Reap(VcsError::TimedOut)));
    }
    assert_eq!(after_reap(VcsError::TimedOut, None), VcsError::TimedOut);
    assert_eq!(
        after_reap(VcsError::TimedOut, Some("gone".into())),
        VcsError::Reaping { detail: "gone".into() }
    );
}

#[test]
fn headers_that_are_not_utf8_are_reported_as_the_standard_library_does() {
    for line in [
        b"\xff\r\n".as_slice(),
        b"ab\xe2\x82\r\n",
        b"a\xf0\x9f\x92\n",
        b"ok\xe2\x82",
        b"\xc0\x80",
        b"\xe0\x80\x80",
        b"\xed\xa0\x80",
        b"\xf4\x90\x80\x80",
        b"\xf5",
        b"\x80",
        b"\xf0",
    ] {
        let error = FrameHeader::new().accept(line).unwrap_err();
        assert_eq!(error.message(), std::str::from_utf8(line).unwrap_err().to_string());
    }
}

#[test]
fn requests_end_as_their_exchange_does() {
    let mut transport = ProcessTransport::new();
    let done = transport.settle(Ok(Reply::Result(Some(5u8))));
    assert!(matches!(done, Settled::Done(Ok(5))));
    let wrong = transport.settle::<u8>(Ok(Reply::Result(None)));
    assert!(matches!(wrong, Settled::Done(Err(VcsError::InvalidResult))));
    let error = ProviderError { code: -32000, message: "down".into() };
    let failed = transport.settle::<u8>(Ok(Reply::Error(Ok(error))));
    assert!(matches!(failed, Settled::Done(Err(VcsError::Provider(error))) if error.code == -32000));
    let unread = transport.settle::<u8>(Ok(Reply::Error(Err("no error".into()))));
    assert!(matches!(unread, Settled::Done(Err(VcsError::InvalidJson(_)))));
    assert!(!transport.failed);
    let late = transport.settle::<u8>(Err(VcsError::TimedOut));
    assert!(matches!(late, Settled::Kill(VcsError::TimedOut)));
    assert!(transport.failed);
}
