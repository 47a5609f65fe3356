//! The channels of the two graphs.

use crate::frames::{change_frame, change_members, initial_members, initial_value_frame};
use crate::graph::delta::{
    changed_spec, edge_bag, gone_spec, held, lemma_latest, link_graph_delta,
    unchanged_list_has_no_delta, what_is_not_told_is_as_it_was, what_left_is_told, LinkGraphDelta,
};
use crate::graph::links::{edge_views, GraphNodeView, LinkGraphView};
use crate::graph::nodes::{chosen, lemma_chosen};
use crate::graph::types::{type_graph_delta, TypeGraphDelta, TypeGraphNodeView, TypeGraphView};
use crate::json::{
    json_texts, jv, render_list, rendered_list, text_list, Json, JsonView, ObjectBuilder, Rendered,
};
use crate::sorting::sorted;
use crate::tally::Keyed;
use crate::text::views;
use vstd::multiset::Multiset;
use vstd::prelude::*;

verus! {

/// Whether this is the change from one payload of the reference graph to another.
pub open spec fn link_delta_leads(d: LinkGraphDelta, last: LinkGraphView, cur: LinkGraphView) -> bool {
    &&& d.nodes_added@ == changed_spec(last.nodes@, cur.nodes@)
    &&& d.nodes_removed@ == gone_spec(last.nodes@, cur.nodes@).map_values(|n: GraphNodeView| n.path)
    &&& edge_bag(last.edges@).add(edge_bag(d.edges_added@)) == edge_bag(cur.edges@).add(
        edge_bag(d.edges_removed@),
    )
    &&& sorted(last.edges@) && sorted(cur.edges@) ==> {
        &&& edge_bag(d.edges_added@) == edge_bag(cur.edges@).sub(edge_bag(last.edges@))
        &&& edge_bag(d.edges_removed@) == edge_bag(last.edges@).sub(edge_bag(cur.edges@))
        &&& sorted(d.edges_added@)
        &&& sorted(d.edges_removed@)
    }
}

pub open spec fn link_delta_empty(d: LinkGraphDelta) -> bool {
    d.nodes_added@.len() == 0 && d.nodes_removed@.len() == 0 && d.edges_added@.len() == 0
        && d.edges_removed@.len() == 0
}

/// What an event of the `link_graph` channel covers.
pub open spec fn link_hint(d: LinkGraphDelta) -> JsonView {
    JsonView::Object(
        seq![
            ("scope"@, JsonView::Text("link_graph"@)),
            ("nodes_added"@, rendered_list(d.nodes_added@)),
            ("nodes_removed"@, text_list(views(d.nodes_removed@))),
            ("edges_added"@, rendered_list(d.edges_added@)),
            ("edges_removed"@, rendered_list(d.edges_removed@)),
        ],
    )
}

/// The `link_graph` channel.
pub struct LinkGraphWatch {
    pub id: u64,
    pub last: LinkGraphView,
}

impl LinkGraphWatch {
    pub fn new(id: u64, graph: LinkGraphView) -> (r: Self)
        ensures
            r.id == id,
            r.last == graph,
    {
        LinkGraphWatch { id, last: graph }
    }

    /// The whole graph at the time of the subscription.
    pub fn initial_frame(&self, version: u64) -> (r: Json)
        ensures
            jv(r) == JsonView::Object(
                initial_members(self.id as nat, version as nat, self.last.rendered()),
            ),
    {
        initial_value_frame(self.id, version, self.last.render())
    }

    /// Tells the nodes and edges that changed since the last event, unless none did.
    pub fn wake(&mut self, version: u64, cur: LinkGraphView) -> (r: Option<Json>)
        ensures
            final(self).id == old(self).id,
            exists|d: LinkGraphDelta|
                {
                    &&& #[trigger] link_delta_leads(d, old(self).last, cur)
                    &&& match r {
                        Some(frame) => {
                            &&& !link_delta_empty(d)
                            &&& jv(frame) == JsonView::Object(
                                change_members(
                                    old(self).id as nat,
                                    "link-graph-changed"@,
                                    version as nat,
                                    link_hint(d),
                                ),
                            )
                            &&& final(self).last == cur
                        },
                        None => link_delta_empty(d) && final(self).last == old(self).last,
                    }
                },
    {
        let d = link_graph_delta(&self.last, &cur);
        assert(link_delta_leads(d, self.last, cur));
        if d.is_empty() {
            return None;
        }
        let mut b = ObjectBuilder::new();
        b.put_text("scope", "link_graph");
        b.put("nodes_added", render_list(&d.nodes_added));
        b.put("nodes_removed", json_texts(&d.nodes_removed));
        b.put("edges_added", render_list(&d.edges_added));
        b.put("edges_removed", render_list(&d.edges_removed));
        let ghost want = link_hint(d);
        assert(b@ =~= want->Object_0);
        self.last = cur;
        Some(change_frame(self.id, "link-graph-changed", version, b.done()))
    }
}

/// Whether a payload lists each file once.
pub open spec fn lists_each_once(v: Seq<GraphNodeView>) -> bool {
    forall|i: int, j: int| #![trigger v[i], v[j]] 0 <= i < j < v.len() ==> v[i].path@ != v[j].path@
}

/// A rebuild that leaves the graph as it was is not told.
pub proof fn an_unchanged_graph_is_not_told(d: LinkGraphDelta, g: LinkGraphView)
    requires
        link_delta_leads(d, g, g),
        sorted(g.edges@),
        lists_each_once(g.nodes@),
    ensures
        link_delta_empty(d),
{
    unchanged_list_has_no_delta(g.nodes@);
    let bag = edge_bag(g.edges@);
    assert(bag.sub(bag) =~= Multiset::empty());
    assert(edge_bag(d.edges_added@).len() == 0);
    assert(edge_bag(d.edges_removed@).len() == 0);
    edge_views(d.edges_added@).to_multiset_ensures();
    edge_views(d.edges_removed@).to_multiset_ensures();
    assert(edge_views(d.edges_added@).len() == d.edges_added@.len());
    assert(edge_views(d.edges_removed@).len() == d.edges_removed@.len());
    assert(gone_spec(g.nodes@, g.nodes@).map_values(|n: GraphNodeView| n.path).len() == 0);
}

/// A subscriber that takes the removed edges from those that it holds and puts the
/// added ones to them holds the edges of today. A file of today that is not among the
/// added ones is held as it is, and the removed ones are those that are gone.
pub proof fn a_delta_leads_to_the_graph_of_today(
    d: LinkGraphDelta,
    last: LinkGraphView,
    cur: LinkGraphView,
)
    requires
        link_delta_leads(d, last, cur),
        sorted(last.edges@),
        sorted(cur.edges@),
    ensures
        edge_bag(last.edges@).sub(edge_bag(d.edges_removed@)).add(edge_bag(d.edges_added@))
            == edge_bag(cur.edges@),
        forall|i: int|
            #![trigger cur.nodes@[i]]
            0 <= i < cur.nodes@.len() ==> d.nodes_added@.contains(cur.nodes@[i]) || exists|j: int|
                #![trigger last.nodes@[j]]
                0 <= j < last.nodes@.len() && last.nodes@[j]@ == cur.nodes@[i]@,
        forall|j: int|
            #![trigger last.nodes@[j]]
            0 <= j < last.nodes@.len() ==> views(d.nodes_removed@).contains(last.nodes@[j].path@)
                == forall|i: int|
                #![trigger cur.nodes@[i]]
                0 <= i < cur.nodes@.len() ==> cur.nodes@[i].path@ != last.nodes@[j].path@,
{
    let l = edge_bag(last.edges@);
    let c = edge_bag(cur.edges@);
    assert(l.sub(l.sub(c)).add(c.sub(l)) =~= c);
    assert forall|i: int| #![trigger cur.nodes@[i]] 0 <= i < cur.nodes@.len() implies d.nodes_added@.contains(
        cur.nodes@[i],
    ) || exists|j: int|
        #![trigger last.nodes@[j]]
        0 <= j < last.nodes@.len() && last.nodes@[j]@ == cur.nodes@[i]@ by {
        what_is_not_told_is_as_it_was(last.nodes@, cur.nodes@, i);
    }
    assert forall|j: int|
        #![trigger last.nodes@[j]]
        0 <= j < last.nodes@.len() implies views(d.nodes_removed@).contains(last.nodes@[j].path@)
        == forall|i: int|
        #![trigger cur.nodes@[i]]
        0 <= i < cur.nodes@.len() ==> cur.nodes@[i].path@ != last.nodes@[j].path@ by {
        lemma_paths_removed(d, last, cur, j);
    }
}

proof fn lemma_paths_removed(d: LinkGraphDelta, last: LinkGraphView, cur: LinkGraphView, j: int)
    requires
        link_delta_leads(d, last, cur),
        0 <= j < last.nodes@.len(),
    ensures
        views(d.nodes_removed@).contains(last.nodes@[j].path@) == forall|i: int|
            #![trigger cur.nodes@[i]]
            0 <= i < cur.nodes@.len() ==> cur.nodes@[i].path@ != last.nodes@[j].path@,
{
    let told = gone_spec(last.nodes@, cur.nodes@);
    let removed = views(d.nodes_removed@);
    let path = last.nodes@[j].path@;
    what_left_is_told(last.nodes@, cur.nodes@, j);
    if told.contains(last.nodes@[j]) {
        let k = choose|k: int| 0 <= k < told.len() && told[k] == last.nodes@[j];
        assert(removed[k] == path);
    }
    if removed.contains(path) {
        let k = choose|k: int| 0 <= k < removed.len() && removed[k] == path;
        assert(told[k].path@ == path);
        lemma_gone_is_absent(last.nodes@, cur.nodes@, k);
    }
}

/// An item that is told as removed is not listed.
proof fn lemma_gone_is_absent(last: Seq<GraphNodeView>, cur: Seq<GraphNodeView>, k: int)
    requires
        0 <= k < gone_spec(last, cur).len(),
    ensures
        forall|i: int|
            #![trigger cur[i]]
            0 <= i < cur.len() ==> cur[i].path@ != gone_spec(last, cur)[k].path@,
{
    let p = |i: int| held(cur, last[i]) is None;
    lemma_chosen(p, last.len() as int);
    let j = chosen(p, last.len() as int)[k];
    assert(p(j));
    lemma_latest(cur, last[j], cur.len() as int);
}

/// Whether this is the change from one payload of the type graph to another.
pub open spec fn type_delta_leads(d: TypeGraphDelta, last: TypeGraphView, cur: TypeGraphView) -> bool {
    &&& d.nodes_added@ == changed_spec(last.nodes@, cur.nodes@)
    &&& d.nodes_removed@ == gone_spec(last.nodes@, cur.nodes@).map_values(
        |n: TypeGraphNodeView| n.path,
    )
    &&& d.edges_added@ == changed_spec(last.edges@, cur.edges@)
    &&& d.edges_removed@ == gone_spec(last.edges@, cur.edges@)
}

pub open spec fn type_delta_empty(d: TypeGraphDelta) -> bool {
    d.nodes_added@.len() == 0 && d.nodes_removed@.len() == 0 && d.edges_added@.len() == 0
        && d.edges_removed@.len() == 0
}

/// What an event of the `type_graph` channel covers.
pub open spec fn type_hint(d: TypeGraphDelta) -> JsonView {
    JsonView::Object(
        seq![
            ("scope"@, JsonView::Text("type_graph"@)),
            ("nodes_added"@, rendered_list(d.nodes_added@)),
            ("nodes_removed"@, text_list(views(d.nodes_removed@))),
            ("edges_added"@, rendered_list(d.edges_added@)),
            ("edges_removed"@, rendered_list(d.edges_removed@)),
        ],
    )
}

/// The `type_graph` channel.
pub struct TypeGraphWatch {
    pub id: u64,
    pub last: TypeGraphView,
}

impl TypeGraphWatch {
    pub fn new(id: u64, graph: TypeGraphView) -> (r: Self)
        ensures
            r.id == id,
            r.last == graph,
    {
        TypeGraphWatch { id, last: graph }
    }

    /// The whole graph at the time of the subscription.
    pub fn initial_frame(&self, version: u64) -> (r: Json)
        ensures
            jv(r) == JsonView::Object(
                initial_members(self.id as nat, version as nat, self.last.rendered()),
            ),
    {
        initial_value_frame(self.id, version, self.last.render())
    }

    /// Tells the nodes and edges that changed since the last event, unless none did.
    pub fn wake(&mut self, version: u64, cur: TypeGraphView) -> (r: Option<Json>)
        ensures
            final(self).id == old(self).id,
            exists|d: TypeGraphDelta|
                {
                    &&& #[trigger] type_delta_leads(d, old(self).last, cur)
                    &&& match r {
                        Some(frame) => {
                            &&& !type_delta_empty(d)
                            &&& jv(frame) == JsonView::Object(
                                change_members(
                                    old(self).id as nat,
                                    "type-graph-changed"@,
                                    version as nat,
                                    type_hint(d),
                                ),
                            )
                            &&& final(self).last == cur
                        },
                        None => type_delta_empty(d) && final(self).last == old(self).last,
                    }
                },
    {
        let d = type_graph_delta(&self.last, &cur);
        assert(type_delta_leads(d, self.last, cur));
        if d.is_empty() {
            return None;
        }
        let mut b = ObjectBuilder::new();
        b.put_text("scope", "type_graph");
        b.put("nodes_added", render_list(&d.nodes_added));
        b.put("nodes_removed", json_texts(&d.nodes_removed));
        b.put("edges_added", render_list(&d.edges_added));
        b.put("edges_removed", render_list(&d.edges_removed));
        let ghost want = type_hint(d);
        assert(b@ =~= want->Object_0);
        self.last = cur;
        Some(change_frame(self.id, "type-graph-changed", version, b.done()))
    }
}

/// Whether a payload of the type graph lists each file and each edge once.
pub open spec fn lists_types_once(g: TypeGraphView) -> bool {
    &&& forall|i: int, j: int|
        #![trigger g.nodes@[i], g.nodes@[j]]
        0 <= i < j < g.nodes@.len() ==> g.nodes@[i].path@ != g.nodes@[j].path@
    &&& forall|i: int, j: int|
        #![trigger g.edges@[i], g.edges@[j]]
        0 <= i < j < g.edges@.len() ==> g.edges@[i].key() != g.edges@[j].key()
}

/// A rebuild that leaves the type graph as it was is not told.
pub proof fn an_unchanged_type_graph_is_not_told(d: TypeGraphDelta, g: TypeGraphView)
    requires
        type_delta_leads(d, g, g),
        lists_types_once(g),
    ensures
        type_delta_empty(d),
{
    unchanged_list_has_no_delta(g.nodes@);
    unchanged_list_has_no_delta(g.edges@);
    assert(gone_spec(g.nodes@, g.nodes@).map_values(|n: TypeGraphNodeView| n.path).len() == 0);
}

} // verus!
