//! The frames that the daemon sends.

use crate::json::{
    copy_json, drop_member, jv, opt_jv, without, Json, JsonView, ObjectBuilder,
};
use crate::saga::plan::Reject;
use vstd::prelude::*;

verus! {

/// The version of the wire schema.
pub const SCHEMA_VERSION: u32 = 29;

/// The reply to a read. A reply that is not ready carries neither a version nor a
/// result.
#[derive(Debug)]
pub struct Response {
    pub kind: &'static str,
    pub schema_version: u32,
    pub id: Option<Json>,
    pub ready: bool,
    pub version: Option<u64>,
    pub result: Option<Json>,
    pub error: Option<String>,
}

impl Response {
    /// The reply while the knowledge base is being derived.
    pub fn not_ready() -> (r: Self)
        ensures
            r.kind@ == "response"@,
            r.schema_version == SCHEMA_VERSION,
            !r.ready,
            r.id is None && r.version is None && r.result is None && r.error is None,
    {
        Response {
            kind: "response",
            schema_version: SCHEMA_VERSION,
            id: None,
            ready: false,
            version: None,
            result: None,
            error: None,
        }
    }

    /// The reply with a result.
    pub fn ready(version: u64, result: Json) -> (r: Self)
        ensures
            r.kind@ == "response"@,
            r.schema_version == SCHEMA_VERSION,
            r.ready,
            r.version == Some(version),
            r.result == Some(result),
            r.id is None && r.error is None,
    {
        Response {
            kind: "response",
            schema_version: SCHEMA_VERSION,
            id: None,
            ready: true,
            version: Some(version),
            result: Some(result),
            error: None,
        }
    }

    /// The reply to a read whose arguments break a rule.
    pub fn invalid(message: String) -> (r: Self)
        ensures
            r.kind@ == "error"@,
            r.schema_version == SCHEMA_VERSION,
            !r.ready,
            r.error == Some(message),
            r.id is None && r.version is None && r.result is None,
    {
        Response {
            kind: "error",
            schema_version: SCHEMA_VERSION,
            id: None,
            ready: false,
            version: None,
            result: None,
            error: Some(message),
        }
    }

    /// The reply with the id of its request.
    pub fn with_id(self, id: Option<Json>) -> (r: Self)
        ensures
            r == (Response { id, ..self }),
    {
        Response {
            kind: self.kind,
            schema_version: self.schema_version,
            id,
            ready: self.ready,
            version: self.version,
            result: self.result,
            error: self.error,
        }
    }

    /// The members of the frame: those without a value are left out.
    pub open spec fn members(self) -> Seq<(Seq<char>, JsonView)> {
        let head = seq![
            ("type"@, JsonView::Text(self.kind@)),
            ("schema_version"@, JsonView::Int(self.schema_version as nat)),
        ];
        let with_id = match self.id {
            Some(id) => head.push(("id"@, jv(id))),
            None => head,
        };
        let with_ready = with_id.push(("ready"@, JsonView::Bool(self.ready)));
        let with_version = match self.version {
            Some(v) => with_ready.push(("version"@, JsonView::Int(v as nat))),
            None => with_ready,
        };
        let with_result = match self.result {
            Some(r) => with_version.push(("result"@, jv(r))),
            None => with_version,
        };
        match self.error {
            Some(e) => with_result.push(("error"@, JsonView::Text(e@))),
            None => with_result,
        }
    }

    /// The reply as a frame.
    pub fn into_frame(self) -> (r: Json)
        ensures
            jv(r) == JsonView::Object(self.members()),
    {
        let mut b = ObjectBuilder::new();
        b.put_text("type", self.kind);
        b.put("schema_version", Json::Int(self.schema_version as u64));
        assert(b@ =~= seq![
            ("type"@, JsonView::Text(self.kind@)),
            ("schema_version"@, JsonView::Int(self.schema_version as nat)),
        ]);
        if let Some(id) = self.id {
            b.put("id", id);
        }
        b.put("ready", Json::Bool(self.ready));
        if let Some(v) = self.version {
            b.put("version", Json::Int(v));
        }
        if let Some(result) = self.result {
            b.put("result", result);
        }
        if let Some(e) = self.error {
            b.put("error", Json::Text(e));
        }
        b.done()
    }
}

/// Whether a reply says that the knowledge base is not ready.
pub open spec fn says_not_ready(r: Response) -> bool {
    &&& r.kind@ == "response"@
    &&& r.schema_version == SCHEMA_VERSION
    &&& !r.ready
    &&& r.id is None && r.version is None && r.result is None && r.error is None
}

/// Whether a reply refuses the arguments with this message.
pub open spec fn says_invalid(r: Response, message: Seq<char>) -> bool {
    &&& r.kind@ == "error"@
    &&& r.schema_version == SCHEMA_VERSION
    &&& !r.ready
    &&& r.error is Some && r.error->0@ == message
    &&& r.id is None && r.version is None && r.result is None
}

/// Whether a reply carries this result at this version.
pub open spec fn says_ready(r: Response, version: u64, result: JsonView) -> bool {
    &&& r.kind@ == "response"@
    &&& r.schema_version == SCHEMA_VERSION
    &&& r.ready
    &&& r.version == Some(version)
    &&& r.result is Some && jv(r.result->0) == result
    &&& r.id is None && r.error is None
}

/// The frame of a reply that is not ready.
pub open spec fn not_ready_frame() -> JsonView {
    JsonView::Object(
        seq![
            ("type"@, JsonView::Text("response"@)),
            ("schema_version"@, JsonView::Int(SCHEMA_VERSION as nat)),
            ("ready"@, JsonView::Bool(false)),
        ],
    )
}

/// The frame of a reply with a result.
pub open spec fn ready_frame(version: nat, result: JsonView) -> JsonView {
    JsonView::Object(
        seq![
            ("type"@, JsonView::Text("response"@)),
            ("schema_version"@, JsonView::Int(SCHEMA_VERSION as nat)),
            ("ready"@, JsonView::Bool(true)),
            ("version"@, JsonView::Int(version)),
            ("result"@, result),
        ],
    )
}

pub fn make_not_ready_frame() -> (r: Json)
    ensures
        jv(r) == not_ready_frame(),
{
    let response = Response::not_ready();
    proof {
        assert(response.members() =~= seq![
            ("type"@, JsonView::Text("response"@)),
            ("schema_version"@, JsonView::Int(SCHEMA_VERSION as nat)),
            ("ready"@, JsonView::Bool(false)),
        ]);
    }
    response.into_frame()
}

pub fn make_ready_frame(version: u64, result: Json) -> (r: Json)
    ensures
        jv(r) == ready_frame(version as nat, jv(result)),
{
    let response = Response::ready(version, result);
    proof {
        assert(response.members() =~= seq![
            ("type"@, JsonView::Text("response"@)),
            ("schema_version"@, JsonView::Int(SCHEMA_VERSION as nat)),
            ("ready"@, JsonView::Bool(true)),
            ("version"@, JsonView::Int(version as nat)),
            ("result"@, jv(result)),
        ]);
    }
    response.into_frame()
}

/// A frame with the id of its request, in place of any other.
pub open spec fn stamped(frame: JsonView, id: Option<JsonView>) -> JsonView {
    match (frame, id) {
        (JsonView::Object(m), Some(i)) => JsonView::Object(without(m, "id"@).push(("id"@, i))),
        _ => frame,
    }
}

/// Gives a frame the id of its request.
pub fn stamp_frame_id(frame: Json, id: &Option<Json>) -> (r: Json)
    ensures
        jv(r) == stamped(jv(frame), opt_jv(*id)),
{
    match id {
        Some(i) => {
            let rest = drop_member(frame, "id");
            match rest {
                Json::Object(members) => {
                    let mut b = ObjectBuilder::new();
                    let ghost all = members;
                    b.put_all(members);
                    b.put("id", copy_json(i));
                    proof {
                        let m = crate::json::members_view(all, all.len() as int);
                        assert(Seq::<(Seq<char>, JsonView)>::empty() + m =~= m);
                    }
                    b.done()
                },
                other => other,
            }
        },
        None => frame,
    }
}

/// The frame for a request that the daemon could not handle.
pub open spec fn error_members(message: Seq<char>, for_kind: Seq<char>) -> Seq<(
    Seq<char>,
    JsonView,
)> {
    seq![
        ("type"@, JsonView::Text("error"@)),
        ("schema_version"@, JsonView::Int(SCHEMA_VERSION as nat)),
        ("error"@, JsonView::Text(message)),
        ("for"@, JsonView::Text(for_kind)),
    ]
}

/// The frame for a request that the daemon could not handle: why, and which kind
/// of request it was.
pub fn error_frame(message: &str, id: &Option<Json>, for_kind: &str) -> (r: Json)
    ensures
        jv(r) == stamped(JsonView::Object(error_members(message@, for_kind@)), opt_jv(*id)),
{
    let mut b = ObjectBuilder::new();
    b.put_text("type", "error");
    b.put("schema_version", Json::Int(SCHEMA_VERSION as u64));
    b.put_text("error", message);
    b.put_text("for", for_kind);
    assert(b@ =~= error_members(message@, for_kind@));
    stamp_frame_id(b.done(), id)
}

pub open spec fn ack_members(subscription_id: nat, channel: Seq<char>) -> Seq<(
    Seq<char>,
    JsonView,
)> {
    seq![
        ("type"@, JsonView::Text("ack"@)),
        ("schema_version"@, JsonView::Int(SCHEMA_VERSION as nat)),
        ("subscription_id"@, JsonView::Int(subscription_id)),
        ("channel"@, JsonView::Text(channel)),
        ("accepted"@, JsonView::Bool(true)),
    ]
}

/// The immediate reply to a `subscribe`.
pub fn ack_frame(subscription_id: u64, channel: &str, request_id: &Option<Json>) -> (r: Json)
    ensures
        jv(r) == stamped(
            JsonView::Object(ack_members(subscription_id as nat, channel@)),
            opt_jv(*request_id),
        ),
{
    let mut b = ObjectBuilder::new();
    b.put_text("type", "ack");
    b.put("schema_version", Json::Int(SCHEMA_VERSION as u64));
    b.put("subscription_id", Json::Int(subscription_id));
    b.put_text("channel", channel);
    b.put("accepted", Json::Bool(true));
    assert(b@ =~= ack_members(subscription_id as nat, channel@));
    stamp_frame_id(b.done(), request_id)
}

pub open spec fn initial_members(subscription_id: nat, at_version: nat, result: JsonView) -> Seq<(
    Seq<char>,
    JsonView,
)> {
    seq![
        ("type"@, JsonView::Text("initial_value"@)),
        ("schema_version"@, JsonView::Int(SCHEMA_VERSION as nat)),
        ("subscription_id"@, JsonView::Int(subscription_id)),
        ("at_version"@, JsonView::Int(at_version)),
        ("result"@, result),
    ]
}

/// The state of a channel, sent once after the acknowledgement.
pub fn initial_value_frame(subscription_id: u64, at_version: u64, result: Json) -> (r: Json)
    ensures
        jv(r) == JsonView::Object(
            initial_members(subscription_id as nat, at_version as nat, jv(result)),
        ),
{
    let mut b = ObjectBuilder::new();
    b.put_text("type", "initial_value");
    b.put("schema_version", Json::Int(SCHEMA_VERSION as u64));
    b.put("subscription_id", Json::Int(subscription_id));
    b.put("at_version", Json::Int(at_version));
    b.put("result", result);
    assert(b@ =~= initial_members(subscription_id as nat, at_version as nat, jv(result)));
    b.done()
}

pub open spec fn change_members(
    subscription_id: nat,
    kind: Seq<char>,
    at_version: nat,
    hint: JsonView,
) -> Seq<(Seq<char>, JsonView)> {
    seq![
        ("type"@, JsonView::Text("change_event"@)),
        ("schema_version"@, JsonView::Int(SCHEMA_VERSION as nat)),
        ("subscription_id"@, JsonView::Int(subscription_id)),
        ("kind"@, JsonView::Text(kind)),
        ("at_version"@, JsonView::Int(at_version)),
        ("scope_hint"@, hint),
    ]
}

/// A change on a channel, with what it covers.
pub fn change_frame(subscription_id: u64, kind: &str, at_version: u64, hint: Json) -> (r: Json)
    ensures
        jv(r) == JsonView::Object(
            change_members(subscription_id as nat, kind@, at_version as nat, jv(hint)),
        ),
{
    let mut b = ObjectBuilder::new();
    b.put_text("type", "change_event");
    b.put("schema_version", Json::Int(SCHEMA_VERSION as u64));
    b.put("subscription_id", Json::Int(subscription_id));
    b.put_text("kind", kind);
    b.put("at_version", Json::Int(at_version));
    b.put("scope_hint", hint);
    assert(b@ =~= change_members(subscription_id as nat, kind@, at_version as nat, jv(hint)));
    b.done()
}

/// What a change of the whole knowledge base covers.
pub open spec fn whole_base() -> JsonView {
    JsonView::Object(seq![("scope"@, JsonView::Text("knowledge-base"@))])
}

/// A change that covers the whole knowledge base.
pub fn change_event_frame(subscription_id: u64, kind: &str, at_version: u64) -> (r: Json)
    ensures
        jv(r) == JsonView::Object(
            change_members(subscription_id as nat, kind@, at_version as nat, whole_base()),
        ),
{
    let mut b = ObjectBuilder::new();
    b.put_text("scope", "knowledge-base");
    assert(b@ =~= seq![("scope"@, JsonView::Text("knowledge-base"@))]);
    change_frame(subscription_id, kind, at_version, b.done())
}

/// The members of the frame for a refused mutation.
pub open spec fn reject_members(message: Seq<char>, detail: Option<JsonView>) -> Seq<(
    Seq<char>,
    JsonView,
)> {
    let head = seq![
        ("type"@, JsonView::Text("error"@)),
        ("schema_version"@, JsonView::Int(SCHEMA_VERSION as nat)),
        ("error"@, JsonView::Text(message)),
    ];
    match detail {
        Some(d) => head.push(("detail"@, d)),
        None => head,
    }
}

/// The frame for a refused mutation.
pub fn mutation_reject_frame(reject: Reject) -> (r: Json)
    ensures
        jv(r) == JsonView::Object(reject_members(reject.message@, opt_jv(reject.detail))),
{
    let mut b = ObjectBuilder::new();
    b.put_text("type", "error");
    b.put("schema_version", Json::Int(SCHEMA_VERSION as u64));
    b.put_text("error", reject.message.as_str());
    assert(b@ =~= reject_members(reject.message@, None));
    if let Some(d) = reject.detail {
        b.put("detail", d);
    }
    b.done()
}

} // verus!
