//! Requests: what is asked of a provider, and how it is put in JSON-RPC.

use crate::json::{
    distinct_keys, json_array, json_content, json_document, json_null, json_object, json_text,
    json_to_vec, json_unsigned, law_objects_hold_each_member, members_of, nested_at_most, object_of,
    JsonView,
};
use vstd::prelude::*;

verus! {

/// The version of the protocol; the provider's must be the same.
pub const PROTOCOL_VERSION: &'static str = "0.1";

/// What a provider can be asked.
#[derive(Debug, PartialEq, Eq)]
pub enum Request {
    /// To begin a session.
    Initialize,
    /// For the repository of a workspace.
    Discover { workspace_root: String },
    /// For a status snapshot.
    Status { repository: String },
    /// For the content references of some paths, as of a snapshot.
    Comparison { repository: String, snapshot: String, paths: Vec<String> },
    /// For the bytes behind a content reference.
    ReadContent { repository: String, content: String },
    /// For commits that lead to a revision, of one path or of all.
    History { repository: String, revision: String, path: Option<String>, limit: usize },
    /// For one commit.
    CommitDetails { repository: String, revision: String },
    /// For the files that a commit changes.
    CommitChanges { repository: String, revision: String },
}

/// What a request says.
#[verifier::ext_equal]
pub enum RequestView {
    Initialize,
    Discover { workspace_root: Seq<char> },
    Status { repository: Seq<char> },
    Comparison { repository: Seq<char>, snapshot: Seq<char>, paths: Seq<Seq<char>> },
    ReadContent { repository: Seq<char>, content: Seq<char> },
    History {
        repository: Seq<char>,
        revision: Seq<char>,
        path: Option<Seq<char>>,
        limit: usize,
    },
    CommitDetails { repository: Seq<char>, revision: Seq<char> },
    CommitChanges { repository: Seq<char>, revision: Seq<char> },
}

/// What some texts hold.
pub open spec fn views(texts: Seq<String>) -> Seq<Seq<char>> {
    texts.map_values(|text: String| text@)
}

/// What a text holds, if there is one.
pub open spec fn optional_view(text: Option<String>) -> Option<Seq<char>> {
    match text {
        Some(text) => Some(text@),
        None => None,
    }
}

impl View for Request {
    type V = RequestView;

    open spec fn view(&self) -> RequestView {
        match *self {
            Request::Initialize => RequestView::Initialize,
            Request::Discover { workspace_root } => RequestView::Discover {
                workspace_root: workspace_root@,
            },
            Request::Status { repository } => RequestView::Status { repository: repository@ },
            Request::Comparison { repository, snapshot, paths } => RequestView::Comparison {
                repository: repository@,
                snapshot: snapshot@,
                paths: views(paths@),
            },
            Request::ReadContent { repository, content } => RequestView::ReadContent {
                repository: repository@,
                content: content@,
            },
            Request::History { repository, revision, path, limit } => RequestView::History {
                repository: repository@,
                revision: revision@,
                path: optional_view(path),
                limit,
            },
            Request::CommitDetails { repository, revision } => RequestView::CommitDetails {
                repository: repository@,
                revision: revision@,
            },
            Request::CommitChanges { repository, revision } => RequestView::CommitChanges {
                repository: repository@,
                revision: revision@,
            },
        }
    }
}

/// The name of the method that answers a request.
pub open spec fn method_of(request: RequestView) -> Seq<char> {
    match request {
        RequestView::Initialize => "initialize"@,
        RequestView::Discover { .. } => "repository/discover"@,
        RequestView::Status { .. } => "repository/status"@,
        RequestView::Comparison { .. } => "repository/comparison"@,
        RequestView::ReadContent { .. } => "repository/readContent"@,
        RequestView::History { .. } => "repository/history"@,
        RequestView::CommitDetails { .. } => "repository/commitDetails"@,
        RequestView::CommitChanges { .. } => "repository/commitChanges"@,
    }
}

/// The parameters of a request.
pub open spec fn params_of(request: RequestView) -> Seq<(Seq<char>, JsonView)> {
    match request {
        RequestView::Initialize => seq![
            ("protocolVersion"@, JsonView::Text("0.1"@)),
            ("client"@, object_of(seq![("name"@, JsonView::Text("Zed"@))])),
        ],
        RequestView::Discover { workspace_root } => seq![
            ("workspaceRoot"@, JsonView::Text(workspace_root)),
        ],
        RequestView::Status { repository } => seq![("repository"@, JsonView::Text(repository))],
        RequestView::Comparison { repository, snapshot, paths } => seq![
            ("repository"@, JsonView::Text(repository)),
            ("snapshot"@, JsonView::Text(snapshot)),
            ("paths"@, JsonView::Array(paths.map_values(|path: Seq<char>| JsonView::Text(path)))),
        ],
        RequestView::ReadContent { repository, content } => seq![
            ("repository"@, JsonView::Text(repository)),
            ("content"@, JsonView::Text(content)),
        ],
        RequestView::History { repository, revision, path, limit } => seq![
            ("repository"@, JsonView::Text(repository)),
            ("revision"@, JsonView::Text(revision)),
            (
                "path"@,
                match path {
                    Some(path) => JsonView::Text(path),
                    None => JsonView::Null,
                },
            ),
            ("limit"@, JsonView::Unsigned(limit as u64)),
        ],
        RequestView::CommitDetails { repository, revision } => seq![
            ("repository"@, JsonView::Text(repository)),
            ("revision"@, JsonView::Text(revision)),
        ],
        RequestView::CommitChanges { repository, revision } => seq![
            ("repository"@, JsonView::Text(repository)),
            ("revision"@, JsonView::Text(revision)),
        ],
    }
}

/// The JSON-RPC request with the given number.
pub open spec fn request_json(id: u64, request: RequestView) -> JsonView {
    object_of(
        seq![
            ("jsonrpc"@, JsonView::Text("2.0"@)),
            ("id"@, JsonView::Unsigned(id)),
            ("method"@, JsonView::Text(method_of(request))),
            ("params"@, object_of(params_of(request))),
        ],
    )
}

type Member = (String, serde_json::Value);

/// What a member holds.
spec fn member_view(member: Member) -> (Seq<char>, JsonView) {
    (member.0@, json_content(member.1))
}

fn text_member(key: &str, text: &str) -> (member: Member)
    ensures
        member_view(member) == (key@, JsonView::Text(text@)),
{
    (key.to_owned(), json_text(text))
}

/// Makes an object of some members.
fn object(members: Vec<Member>) -> (value: serde_json::Value)
    requires
        distinct_keys(members@),
    ensures
        json_content(value) == object_of(
            members@.map_values(|member: Member| member_view(member)),
        ),
{
    let ghost held = members@.map_values(|member: Member| member_view(member));
    assert(held == members@.map_values(|member: Member| (member.0@, json_content(member.1))));
    json_object(members)
}

/// Makes an array of some texts.
fn text_array(texts: &Vec<String>) -> (value: serde_json::Value)
    ensures
        json_content(value) == JsonView::Array(
            views(texts@).map_values(|text: Seq<char>| JsonView::Text(text)),
        ),
{
    let mut items: Vec<serde_json::Value> = Vec::new();
    let mut i: usize = 0;
    while i < texts.len()
        invariant
            i <= texts@.len(),
            items@.len() == i,
            forall|j: int|
                0 <= j < i ==> json_content(#[trigger] items@[j]) == JsonView::Text(texts@[j]@),
        decreases texts@.len() - i,
    {
        items.push(json_text(&texts[i]));
        i += 1;
    }
    assert(items@.map_values(|item: serde_json::Value| json_content(item)) == views(
        texts@,
    ).map_values(|text: Seq<char>| JsonView::Text(text)));
    json_array(items)
}

impl Request {
    /// The name of the method that answers this request.
    pub fn method(&self) -> (method: &'static str)
        ensures
            method@ == method_of(self@),
    {
        match self {
            Request::Initialize => "initialize",
            Request::Discover { .. } => "repository/discover",
            Request::Status { .. } => "repository/status",
            Request::Comparison { .. } => "repository/comparison",
            Request::ReadContent { .. } => "repository/readContent",
            Request::History { .. } => "repository/history",
            Request::CommitDetails { .. } => "repository/commitDetails",
            Request::CommitChanges { .. } => "repository/commitChanges",
        }
    }

    /// The parameters of this request.
    pub fn params(&self) -> (value: serde_json::Value)
        ensures
            json_content(value) == object_of(params_of(self@)),
    {
        proof {
            reveal_strlit("protocolVersion");
            reveal_strlit("client");
            reveal_strlit("repository");
            reveal_strlit("snapshot");
            reveal_strlit("paths");
            reveal_strlit("content");
            reveal_strlit("revision");
            reveal_strlit("path");
            reveal_strlit("limit");
        }
        let mut members: Vec<Member> = Vec::new();
        match self {
            Request::Initialize => {
                let mut client: Vec<Member> = Vec::new();
                client.push(text_member("name", "Zed"));
                assert(client@.map_values(|member: Member| member_view(member)) == seq![
                    ("name"@, JsonView::Text("Zed"@)),
                ]);
                members.push(text_member("protocolVersion", PROTOCOL_VERSION));
                members.push(("client".to_owned(), object(client)));
            },
            Request::Discover { workspace_root } => {
                members.push(text_member("workspaceRoot", workspace_root));
            },
            Request::Status { repository } => {
                members.push(text_member("repository", repository));
            },
            Request::Comparison { repository, snapshot, paths } => {
                members.push(text_member("repository", repository));
                members.push(text_member("snapshot", snapshot));
                members.push(("paths".to_owned(), text_array(paths)));
            },
            Request::ReadContent { repository, content } => {
                members.push(text_member("repository", repository));
                members.push(text_member("content", content));
            },
            Request::History { repository, revision, path, limit } => {
                members.push(text_member("repository", repository));
                members.push(text_member("revision", revision));
                let path: serde_json::Value = match path {
                    Some(path) => json_text(path),
                    None => json_null(),
                };
                members.push(("path".to_owned(), path));
                members.push(("limit".to_owned(), json_unsigned(*limit as u64)));
            },
            Request::CommitDetails { repository, revision } => {
                members.push(text_member("repository", repository));
                members.push(text_member("revision", revision));
            },
            Request::CommitChanges { repository, revision } => {
                members.push(text_member("repository", repository));
                members.push(text_member("revision", revision));
            },
        }
        let ghost held = members@.map_values(|member: Member| member_view(member));
        assert(held == params_of(self@));
        assert forall|i: int, j: int| 0 <= i < j < members@.len() implies #[trigger] members@[i].0@
            != #[trigger] members@[j].0@ by {
            assert(members@[i].0@ == held[i].0 && members@[j].0@ == held[j].0);
            assert(held[i].0.len() != held[j].0.len());
        }
        object(members)
    }
}

/// Members nested at most `depth` deep make an object nested one deeper.
proof fn lemma_object_depth(members: Seq<(Seq<char>, JsonView)>, depth: nat)
    requires
        forall|i: int| 0 <= i < members.len() ==> nested_at_most((#[trigger] members[i]).1, depth),
    ensures
        forall|key: Seq<char>|
            members_of(members).contains_key(key) ==> nested_at_most(
                #[trigger] members_of(members)[key],
                depth,
            ),
        nested_at_most(object_of(members), depth + 1),
    decreases members.len(),
{
    if members.len() > 0 {
        assert(nested_at_most(members.last().1, depth));
        assert forall|i: int| 0 <= i < members.drop_last().len() implies nested_at_most(
            (#[trigger] members.drop_last()[i]).1,
            depth,
        ) by {
            assert(members.drop_last()[i] == members[i]);
        }
        lemma_object_depth(members.drop_last(), depth);
    }
}

/// A request is not nested deeply.
proof fn lemma_request_depth(id: u64, request: RequestView)
    ensures
        nested_at_most(request_json(id, request), 127),
{
    lemma_object_depth(seq![("name"@, JsonView::Text("Zed"@))], 124);
    let params = params_of(request);
    if let RequestView::Comparison { paths, .. } = request {
        let items = paths.map_values(|path: Seq<char>| JsonView::Text(path));
        assert forall|i: int| 0 <= i < items.len() implies nested_at_most(
            #[trigger] items[i],
            124,
        ) by {}
        assert(nested_at_most(JsonView::Array(items), 125));
    }
    assert forall|i: int| 0 <= i < params.len() implies nested_at_most(
        (#[trigger] params[i]).1,
        125,
    ) by {}
    lemma_object_depth(params, 125);
    let members = seq![
        ("jsonrpc"@, JsonView::Text("2.0"@)),
        ("id"@, JsonView::Unsigned(id)),
        ("method"@, JsonView::Text(method_of(request))),
        ("params"@, object_of(params)),
    ];
    assert forall|i: int| 0 <= i < members.len() implies nested_at_most(
        (#[trigger] members[i]).1,
        126,
    ) by {}
    lemma_object_depth(members, 126);
}

/// The body of the request with the given number: a JSON document that says exactly that.
pub fn request_body(id: u64, request: &Request) -> (body: Vec<u8>)
    ensures
        json_document(body@) == Some(request_json(id, request@)),
{
    proof {
        reveal_strlit("jsonrpc");
        reveal_strlit("id");
        reveal_strlit("method");
        reveal_strlit("params");
        lemma_request_depth(id, request@);
    }
    let mut members: Vec<Member> = Vec::new();
    members.push(text_member("jsonrpc", "2.0"));
    members.push(("id".to_owned(), json_unsigned(id)));
    members.push(text_member("method", request.method()));
    members.push(("params".to_owned(), request.params()));
    let ghost held = members@.map_values(|member: Member| member_view(member));
    assert(held == seq![
        ("jsonrpc"@, JsonView::Text("2.0"@)),
        ("id"@, JsonView::Unsigned(id)),
        ("method"@, JsonView::Text(method_of(request@))),
        ("params"@, object_of(params_of(request@))),
    ]);
    assert forall|i: int, j: int| 0 <= i < j < members@.len() implies #[trigger] members@[i].0@
        != #[trigger] members@[j].0@ by {
        assert(members@[i].0@ == held[i].0 && members@[j].0@ == held[j].0);
        assert(held[i].0.len() != held[j].0.len() || held[i].0[0] != held[j].0[0]);
    }
    json_to_vec(&object(members)).unwrap()
}

/// Whether an object holds a value under a key.
pub open spec fn holds_member(json: JsonView, key: Seq<char>, value: JsonView) -> bool {
    json matches JsonView::Object(members) && members.contains_key(key) && members[key] == value
}

/// Whether an object holds these members and no others.
pub open spec fn holds_just(json: JsonView, members: Seq<(Seq<char>, JsonView)>) -> bool {
    &&& json is Object
    &&& forall|i: int|
        0 <= i < members.len() ==> holds_member(json, (#[trigger] members[i]).0, members[i].1)
    &&& forall|key: Seq<char>|
        (#[trigger] json->Object_0.contains_key(key)) ==> exists|i: int|
            0 <= i < members.len() && (#[trigger] members[i]).0 == key
}

proof fn lemma_holds_just(members: Seq<(Seq<char>, JsonView)>)
    requires
        forall|i: int, j: int|
            0 <= i < j < members.len() ==> (#[trigger] members[i]).0 != (#[trigger] members[j]).0,
    ensures
        holds_just(object_of(members), members),
{
    law_objects_hold_each_member(members);
}

proof fn lemma_keys_differ()
    ensures
        "repository"@ != "snapshot"@,
        "repository"@ != "paths"@,
        "repository"@ != "content"@,
        "repository"@ != "revision"@,
        "repository"@ != "path"@,
        "repository"@ != "limit"@,
        "snapshot"@ != "paths"@,
        "revision"@ != "path"@,
        "revision"@ != "limit"@,
        "path"@ != "limit"@,
        "protocolVersion"@ != "client"@,
        "jsonrpc"@ != "id"@,
        "jsonrpc"@ != "method"@,
        "jsonrpc"@ != "params"@,
        "id"@ != "method"@,
        "id"@ != "params"@,
        "method"@ != "params"@,
{
    reveal_strlit("protocolVersion");
    reveal_strlit("client");
    reveal_strlit("repository");
    reveal_strlit("snapshot");
    reveal_strlit("paths");
    reveal_strlit("content");
    reveal_strlit("revision");
    reveal_strlit("path");
    reveal_strlit("limit");
    reveal_strlit("jsonrpc");
    reveal_strlit("id");
    reveal_strlit("method");
    reveal_strlit("params");
    assert("method"@[0] != "params"@[0]);
    assert("repository"@.len() == 10 && "snapshot"@.len() == 8 && "revision"@.len() == 8);
    assert("paths"@.len() == 5 && "limit"@.len() == 5 && "path"@.len() == 4);
    assert("content"@.len() == 7 && "jsonrpc"@.len() == 7 && "id"@.len() == 2);
    assert("protocolVersion"@.len() == 15 && "client"@.len() == 6);
}

/// Every request is a JSON-RPC 2.0 request with its own number, the method for what it asks and
/// parameters, and with nothing else.
pub proof fn law_requests_are_numbered_calls(id: u64, request: RequestView)
    ensures
        holds_just(
            request_json(id, request),
            seq![
                ("jsonrpc"@, JsonView::Text("2.0"@)),
                ("id"@, JsonView::Unsigned(id)),
                (
                    "method"@,
                    JsonView::Text(
                        match request {
                            RequestView::Initialize => "initialize"@,
                            RequestView::Discover { .. } => "repository/discover"@,
                            RequestView::Status { .. } => "repository/status"@,
                            RequestView::Comparison { .. } => "repository/comparison"@,
                            RequestView::ReadContent { .. } => "repository/readContent"@,
                            RequestView::History { .. } => "repository/history"@,
                            RequestView::CommitDetails { .. } => "repository/commitDetails"@,
                            RequestView::CommitChanges { .. } => "repository/commitChanges"@,
                        },
                    ),
                ),
                ("params"@, object_of(params_of(request))),
            ],
        ),
{
    lemma_keys_differ();
    lemma_holds_just(
        seq![
            ("jsonrpc"@, JsonView::Text("2.0"@)),
            ("id"@, JsonView::Unsigned(id)),
            ("method"@, JsonView::Text(method_of(request))),
            ("params"@, object_of(params_of(request))),
        ],
    );
}

/// The parameters of a request are what it says and nothing else: each text as it stands, the paths
/// of a comparison in their order, and no path of a history as null.
pub proof fn law_requests_say_what_they_ask(
    repository: Seq<char>,
    revision: Seq<char>,
    path: Option<Seq<char>>,
    limit: usize,
    paths: Seq<Seq<char>>,
    text: Seq<char>,
)
    ensures
        ({
            let params = |request: RequestView| object_of(params_of(request));
            let initialize = params(RequestView::Initialize);
            let history = params(RequestView::History { repository, revision, path, limit });
            let comparison = params(
                RequestView::Comparison { repository, snapshot: text, paths },
            );
            let listed = comparison->Object_0["paths"@];
            &&& initialize->Object_0.dom() =~= set!["protocolVersion"@, "client"@]
            &&& holds_member(initialize, "protocolVersion"@, JsonView::Text("0.1"@))
            &&& holds_just(
                initialize->Object_0["client"@],
                seq![("name"@, JsonView::Text("Zed"@))],
            )
            &&& holds_just(
                params(RequestView::Discover { workspace_root: text }),
                seq![("workspaceRoot"@, JsonView::Text(text))],
            )
            &&& holds_just(
                params(RequestView::Status { repository }),
                seq![("repository"@, JsonView::Text(repository))],
            )
            &&& comparison->Object_0.dom() =~= set!["repository"@, "snapshot"@, "paths"@]
            &&& holds_member(comparison, "repository"@, JsonView::Text(repository))
            &&& holds_member(comparison, "snapshot"@, JsonView::Text(text))
            &&& listed is Array
            &&& listed->Array_0.len() == paths.len()
            &&& forall|i: int|
                0 <= i < paths.len() ==> listed->Array_0[i] == JsonView::Text(#[trigger] paths[i])
            &&& holds_just(
                params(RequestView::ReadContent { repository, content: text }),
                seq![
                    ("repository"@, JsonView::Text(repository)),
                    ("content"@, JsonView::Text(text)),
                ],
            )
            &&& history->Object_0.dom() =~= set!["repository"@, "revision"@, "path"@, "limit"@]
            &&& holds_member(history, "repository"@, JsonView::Text(repository))
            &&& holds_member(history, "revision"@, JsonView::Text(revision))
            &&& path matches Some(path) ==> holds_member(history, "path"@, JsonView::Text(path))
            &&& path is None ==> holds_member(history, "path"@, JsonView::Null)
            &&& holds_member(history, "limit"@, JsonView::Unsigned(limit as u64))
            &&& holds_just(
                params(RequestView::CommitDetails { repository, revision }),
                seq![
                    ("repository"@, JsonView::Text(repository)),
                    ("revision"@, JsonView::Text(revision)),
                ],
            )
            &&& holds_just(
                params(RequestView::CommitChanges { repository, revision }),
                seq![
                    ("repository"@, JsonView::Text(repository)),
                    ("revision"@, JsonView::Text(revision)),
                ],
            )
        }),
{
    lemma_keys_differ();
    let name = seq![("name"@, JsonView::Text("Zed"@))];
    let initialize = params_of(RequestView::Initialize);
    let history = params_of(RequestView::History { repository, revision, path, limit });
    let comparison = params_of(RequestView::Comparison { repository, snapshot: text, paths });
    lemma_holds_just(name);
    lemma_holds_just(initialize);
    lemma_holds_just(history);
    lemma_holds_just(comparison);
    lemma_holds_just(params_of(RequestView::Discover { workspace_root: text }));
    lemma_holds_just(params_of(RequestView::Status { repository }));
    lemma_holds_just(params_of(RequestView::ReadContent { repository, content: text }));
    lemma_holds_just(params_of(RequestView::CommitDetails { repository, revision }));
    lemma_holds_just(params_of(RequestView::CommitChanges { repository, revision }));
    assert(holds_member(object_of(initialize), initialize[0].0, initialize[0].1));
    assert(holds_member(object_of(initialize), initialize[1].0, initialize[1].1));
    assert(holds_member(object_of(comparison), comparison[0].0, comparison[0].1));
    assert(holds_member(object_of(comparison), comparison[1].0, comparison[1].1));
    assert(holds_member(object_of(comparison), comparison[2].0, comparison[2].1));
    assert(holds_member(object_of(history), history[0].0, history[0].1));
    assert(holds_member(object_of(history), history[1].0, history[1].1));
    assert(holds_member(object_of(history), history[2].0, history[2].1));
    assert(holds_member(object_of(history), history[3].0, history[3].1));
}

} // verus!
