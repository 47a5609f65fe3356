//! The names of the channels, and the channel of the lifecycle itself.

use crate::frames::{
    change_event_frame, change_members, initial_members, initial_value_frame, whole_base,
};
use crate::json::{jv, Json, JsonView, ObjectBuilder};
use crate::text::{lower, lower_text};
use vstd::prelude::*;

verus! {

/// The channels that a client can subscribe to.
#[derive(Debug, Clone, Copy, PartialEq, Eq, Structural)]
pub enum Channel {
    Lifecycle,
    Types,
    Files,
    Changes,
    Diagnostics,
    LinkGraph,
    TypeGraph,
    RecentCommits,
}

impl Channel {
    pub open spec fn label_spec(self) -> Seq<char> {
        match self {
            Channel::Lifecycle => "lifecycle"@,
            Channel::Types => "types"@,
            Channel::Files => "files"@,
            Channel::Changes => "changes"@,
            Channel::Diagnostics => "diagnostics"@,
            Channel::LinkGraph => "link_graph"@,
            Channel::TypeGraph => "type_graph"@,
            Channel::RecentCommits => "recent_commits"@,
        }
    }

    /// The name on the wire, which the acknowledgement repeats.
    pub fn channel(self) -> (r: &'static str)
        ensures
            r@ == self.label_spec(),
    {
        match self {
            Channel::Lifecycle => "lifecycle",
            Channel::Types => "types",
            Channel::Files => "files",
            Channel::Changes => "changes",
            Channel::Diagnostics => "diagnostics",
            Channel::LinkGraph => "link_graph",
            Channel::TypeGraph => "type_graph",
            Channel::RecentCommits => "recent_commits",
        }
    }
}

/// The state of the engine and of its knowledge base on the wire, by the names of
/// the two states in lower case.
pub open spec fn lifecycle_view(engine: Seq<char>, base: Seq<char>) -> JsonView {
    JsonView::Object(
        seq![("engine"@, JsonView::Text(lower(engine))), ("ref"@, JsonView::Text(lower(base)))],
    )
}

pub fn lifecycle_json(engine: &str, base: &str) -> (r: Json)
    ensures
        jv(r) == lifecycle_view(engine@, base@),
{
    let mut b = ObjectBuilder::new();
    b.put_text("engine", lower_text(engine).as_str());
    b.put_text("ref", lower_text(base).as_str());
    assert(b@ =~= seq![
        ("engine"@, JsonView::Text(lower(engine@))),
        ("ref"@, JsonView::Text(lower(base@))),
    ]);
    b.done()
}

/// The result of the `lifecycle` read and the first value of its channel.
pub open spec fn lifecycle_result(engine: Seq<char>, base: Seq<char>) -> JsonView {
    JsonView::Object(seq![("lifecycle"@, lifecycle_view(engine, base))])
}

pub fn make_lifecycle_result(engine: &str, base: &str) -> (r: Json)
    ensures
        jv(r) == lifecycle_result(engine@, base@),
{
    let mut b = ObjectBuilder::new();
    b.put("lifecycle", lifecycle_json(engine, base));
    assert(b@ =~= seq![("lifecycle"@, lifecycle_view(engine@, base@))]);
    b.done()
}

/// The version, or 0 before the first.
pub open spec fn version_or_zero(version: Option<u64>) -> nat {
    match version {
        Some(v) => v as nat,
        None => 0,
    }
}

/// The `lifecycle` channel.
#[derive(Debug)]
pub struct LifecycleWatch {
    pub id: u64,
    pub was_ready: bool,
}

impl LifecycleWatch {
    pub fn new(id: u64, ready: bool) -> (r: Self)
        ensures
            r == (LifecycleWatch { id, was_ready: ready }),
    {
        LifecycleWatch { id, was_ready: ready }
    }

    /// The state at the time of the subscription, whether ready or not.
    pub fn initial_frame(&self, version: Option<u64>, engine: &str, base: &str) -> (r: Json)
        ensures
            jv(r) == JsonView::Object(
                initial_members(
                    self.id as nat,
                    version_or_zero(version),
                    lifecycle_result(engine@, base@),
                ),
            ),
    {
        let at: u64 = match version {
            Some(v) => v,
            None => 0,
        };
        initial_value_frame(self.id, at, make_lifecycle_result(engine, base))
    }

    /// Tells that the knowledge base became ready, and nothing else.
    pub fn wake(&mut self, ready: bool, version: Option<u64>, signalled: u64) -> (r: Option<Json>)
        ensures
            r is Some <==> ready && !old(self).was_ready,
            r matches Some(frame) ==> jv(frame) == JsonView::Object(
                change_members(
                    old(self).id as nat,
                    "lifecycle-changed"@,
                    (match version {
                        Some(v) => v,
                        None => signalled,
                    }) as nat,
                    whole_base(),
                ),
            ),
            *final(self) == (LifecycleWatch { id: old(self).id, was_ready: ready }),
    {
        let became = ready && !self.was_ready;
        self.was_ready = ready;
        if became {
            let at: u64 = match version {
                Some(v) => v,
                None => signalled,
            };
            Some(change_event_frame(self.id, "lifecycle-changed", at))
        } else {
            None
        }
    }
}

} // verus!
