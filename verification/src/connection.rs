//! One connection: what to do with each frame that arrives.

use crate::encoding::{parse_json, parsed_json};
use crate::frames::{error_frame, error_members, stamped};
use crate::json::{
    copy_json, drop_member, get_member, jv, member, member_from, opt_jv, without, without_member, Json,
    JsonView,
};
use crate::text::joined;
use vstd::prelude::*;

verus! {

/// The kinds of requests.
#[derive(Debug, Clone, Copy, PartialEq, Eq, Structural)]
pub enum RequestKind {
    Read,
    Subscribe,
    Mutate,
    Resolve,
    Unknown,
}

impl RequestKind {
    /// The name by which an error frame tells the kind.
    pub open spec fn label_spec(self) -> Seq<char> {
        match self {
            RequestKind::Read => "read"@,
            RequestKind::Subscribe => "subscribe"@,
            RequestKind::Mutate => "mutate"@,
            RequestKind::Resolve => "resolve"@,
            RequestKind::Unknown => "unknown"@,
        }
    }

    pub fn label(self) -> (r: &'static str)
        ensures
            r@ == self.label_spec(),
    {
        match self {
            RequestKind::Read => "read",
            RequestKind::Subscribe => "subscribe",
            RequestKind::Mutate => "mutate",
            RequestKind::Resolve => "resolve",
            RequestKind::Unknown => "unknown",
        }
    }
}

/// The kind of a request: the first of the four names that it has a member of.
pub open spec fn kind_of(request: JsonView) -> RequestKind {
    if member(request, "read"@) is Some {
        RequestKind::Read
    } else if member(request, "subscribe"@) is Some {
        RequestKind::Subscribe
    } else if member(request, "mutate"@) is Some {
        RequestKind::Mutate
    } else if member(request, "resolve"@) is Some {
        RequestKind::Resolve
    } else {
        RequestKind::Unknown
    }
}

/// What the request asks for, by name: the text of its member, or the kind where
/// that is no text.
pub open spec fn verb_of(request: JsonView, kind: Seq<char>) -> Seq<char> {
    match member(request, kind) {
        Some(JsonView::Text(s)) => s,
        _ => kind,
    }
}

/// What to do with a request. Its id is set apart, and the rest of it is what the
/// kind takes as its arguments.
pub enum Action {
    /// Answer a read.
    Read { id: Option<Json>, verb: String, payload: Json },
    /// Open the subscription with this number.
    Subscribe { id: Option<Json>, subscription_id: u64, payload: Json },
    /// Run a mutation.
    Mutate { id: Option<Json>, verb: String, payload: Json },
    /// Bring the dependencies in.
    Resolve { id: Option<Json> },
    /// Send a frame.
    Send(Json),
}

/// The contents of an [`Action`].
pub enum ActionView {
    Read { id: Option<JsonView>, verb: Seq<char>, payload: JsonView },
    Subscribe { id: Option<JsonView>, subscription_id: u64, payload: JsonView },
    Mutate { id: Option<JsonView>, verb: Seq<char>, payload: JsonView },
    Resolve { id: Option<JsonView> },
    Send(JsonView),
}

impl View for Action {
    type V = ActionView;

    open spec fn view(&self) -> ActionView {
        match self {
            Action::Read { id, verb, payload } => ActionView::Read {
                id: opt_jv(*id),
                verb: verb@,
                payload: jv(*payload),
            },
            Action::Subscribe { id, subscription_id, payload } => ActionView::Subscribe {
                id: opt_jv(*id),
                subscription_id: *subscription_id,
                payload: jv(*payload),
            },
            Action::Mutate { id, verb, payload } => ActionView::Mutate {
                id: opt_jv(*id),
                verb: verb@,
                payload: jv(*payload),
            },
            Action::Resolve { id } => ActionView::Resolve { id: opt_jv(*id) },
            Action::Send(frame) => ActionView::Send(jv(*frame)),
        }
    }
}

/// What to do with a request that was read as JSON.
pub open spec fn action_for(request: JsonView, next_subscription_id: u64) -> ActionView {
    let id = member(request, "id"@);
    let payload = without_member(request, "id"@);
    match kind_of(payload) {
        RequestKind::Read => ActionView::Read { id, verb: verb_of(payload, "read"@), payload },
        RequestKind::Subscribe => ActionView::Subscribe {
            id,
            subscription_id: next_subscription_id,
            payload,
        },
        RequestKind::Mutate => ActionView::Mutate {
            id,
            verb: verb_of(payload, "mutate"@),
            payload,
        },
        RequestKind::Resolve => ActionView::Resolve { id },
        RequestKind::Unknown => ActionView::Send(
            stamped(
                JsonView::Object(
                    error_members(
                        "request names neither a read, a subscribe, a mutate, nor a resolve"@,
                        "unknown"@,
                    ),
                ),
                id,
            ),
        ),
    }
}

/// A connection: the number that its next subscription gets.
#[derive(Debug)]
pub struct Connection {
    pub next_subscription_id: u64,
}

fn verb_text(payload: &Json, kind: &str) -> (r: String)
    ensures
        r@ == verb_of(jv(*payload), kind@),
{
    match get_member(payload, kind) {
        Some(Json::Text(s)) => s.clone(),
        Some(_) => kind.to_owned(),
        None => kind.to_owned(),
    }
}

impl Connection {
    pub fn new() -> (r: Self)
        ensures
            r.next_subscription_id == 0,
    {
        Connection { next_subscription_id: 0 }
    }

    /// What to do with a frame: `request` is its JSON value, or why it is none.
    pub fn on_frame(&self, request: Result<Json, String>) -> (r: Action)
        ensures
            match request {
                Ok(value) => r@ == action_for(jv(value), self.next_subscription_id),
                Err(e) => r@ == ActionView::Send(
                    JsonView::Object(error_members("malformed request: "@ + e@, "unknown"@)),
                ),
            },
    {
        let value = match request {
            Ok(v) => v,
            Err(e) => {
                let message = joined("malformed request: ", e.as_str());
                return Action::Send(error_frame(message.as_str(), &None, "unknown"));
            },
        };
        let id: Option<Json> = match get_member(&value, "id") {
            Some(i) => Some(copy_json(i)),
            None => None,
        };
        let payload = drop_member(value, "id");
        if get_member(&payload, "read").is_some() {
            let verb = verb_text(&payload, "read");
            Action::Read { id, verb, payload }
        } else if get_member(&payload, "subscribe").is_some() {
            Action::Subscribe { id, subscription_id: self.next_subscription_id, payload }
        } else if get_member(&payload, "mutate").is_some() {
            let verb = verb_text(&payload, "mutate");
            Action::Mutate { id, verb, payload }
        } else if get_member(&payload, "resolve").is_some() {
            Action::Resolve { id }
        } else {
            Action::Send(
                error_frame(
                    "request names neither a read, a subscribe, a mutate, nor a resolve",
                    &id,
                    "unknown",
                ),
            )
        }
    }

    /// What to do with the bytes of a frame.
    pub fn on_bytes(&self, bytes: &Vec<u8>) -> (r: Action)
        ensures
            match parsed_json(bytes@) {
                Ok(value) => r@ == action_for(value, self.next_subscription_id),
                Err(e) => r@ == ActionView::Send(
                    JsonView::Object(error_members("malformed request: "@ + e.0, "unknown"@)),
                ),
            },
    {
        match parse_json(bytes) {
            Ok(value) => self.on_frame(Ok(value)),
            Err(e) => self.on_frame(Err(e.message)),
        }
    }

    /// Counts a subscription whose arguments were understood.
    pub fn subscribed(&mut self)
        requires
            old(self).next_subscription_id < u64::MAX,
        ensures
            final(self).next_subscription_id == old(self).next_subscription_id + 1,
    {
        self.next_subscription_id = self.next_subscription_id + 1;
    }
}

/// The frame for a request whose arguments were not understood.
pub fn malformed_frame(kind: RequestKind, e: &str, id: &Option<Json>) -> (r: Json)
    ensures
        jv(r) == stamped(
            JsonView::Object(
                error_members("malformed "@ + kind.label_spec() + ": "@ + e@, kind.label_spec()),
            ),
            opt_jv(*id),
        ),
{
    let mut message = joined("malformed ", kind.label());
    message.append(": ");
    message.append(e);
    error_frame(message.as_str(), id, kind.label())
}

/// Every frame that answers a request with an id carries that id.
pub proof fn an_error_frame_carries_the_id(message: Seq<char>, for_kind: Seq<char>, id: JsonView)
    ensures
        member(stamped(JsonView::Object(error_members(message, for_kind)), Some(id)), "id"@)
            == Some(id),
{
    let m = error_members(message, for_kind);
    lemma_stamped_id(m, id);
}

/// A frame that is stamped with an id has it as its member.
pub proof fn lemma_stamped_id(m: Seq<(Seq<char>, JsonView)>, id: JsonView)
    ensures
        member(stamped(JsonView::Object(m), Some(id)), "id"@) == Some(id),
{
    let rest = without(m, "id"@);
    lemma_without(m, "id"@);
    let all = rest.push(("id"@, id));
    lemma_member_skips(all, "id"@, 0, rest.len() as int);
}

proof fn lemma_without(m: Seq<(Seq<char>, JsonView)>, key: Seq<char>)
    ensures
        forall|k: int|
            #![trigger without(m, key)[k]]
            0 <= k < without(m, key).len() ==> without(m, key)[k].0
                != key,
    decreases m.len(),
{
    if m.len() > 0 {
        lemma_without(m.drop_last(), key);
        let before = without(m.drop_last(), key);
        let all = without(m, key);
        assert forall|k: int| #![trigger all[k]] 0 <= k < all.len() implies all[k].0 != key by {
            if k < before.len() {
                assert(all[k] == before[k]);
            }
        }
    }
}

proof fn lemma_member_skips(m: Seq<(Seq<char>, JsonView)>, key: Seq<char>, from: int, to: int)
    requires
        0 <= from <= to < m.len(),
        forall|k: int| #![trigger m[k]] from <= k < to ==> m[k].0 != key,
        m[to].0 == key,
    ensures
        member_from(m, key, from) == Some(m[to].1),
    decreases to - from,
{
    if from < to {
        lemma_member_skips(m, key, from + 1, to);
    }
}

} // verus!
