//! The graph of who waits for whom: from a thread to the resource it waits for, and from a
//! resource to the thread that owns it.

use crate::deadlock::cycles::{
    contents, found_cycles, leads_back, node_path, thread_cycles, Node, Visit, RESOURCE, THREAD,
};
use crate::lot::bucket::{Bucket, ThreadData};
use petgraph::graphmap::GraphMap;
use petgraph::visit::DfsEvent;
use std::collections::hash_map::RandomState;
use vstd::prelude::*;

verus! {

/// `petgraph::graphmap::GraphMap`: a graph whose nodes are their own names.
#[verifier::external_type_specification]
#[verifier::external_body]
#[verifier::reject_recursive_types(N)]
#[verifier::reject_recursive_types(E)]
#[verifier::reject_recursive_types(Ty)]
#[verifier::reject_recursive_types(S)]
pub struct ExGraphMap<N, E, Ty, S: std::hash::BuildHasher>(GraphMap<N, E, Ty, S>);

/// `petgraph::Directed`: the mark of a graph whose edges have a direction.
#[verifier::external_type_specification]
#[verifier::external_body]
pub struct ExDirected(petgraph::Directed);

/// The edges of a graph, in the order in which they were added.
pub uninterp spec fn graph_edges(
    graph: GraphMap<Node, (), petgraph::Directed, RandomState>,
) -> Seq<(Node, Node)>;

/// The events of a depth-first search in a graph with the given edges, from the given nodes on.
pub uninterp spec fn search_events(
    edges: Seq<(Node, Node)>,
    starts: Seq<Node>,
) -> Seq<Visit>;

/// Edges with one more, unless they contain it already.
pub open spec fn with_edge(edges: Seq<(Node, Node)>, edge: (Node, Node)) -> Seq<(Node, Node)> {
    if edges.contains(edge) {
        edges
    } else {
        edges.push(edge)
    }
}

/// Nodes with one more, unless they contain it already.
pub open spec fn with_node(nodes: Seq<Node>, node: Node) -> Seq<Node> {
    if nodes.contains(node) {
        nodes
    } else {
        nodes.push(node)
    }
}

/// The nodes of a graph with the given edges, in the order in which they were first named.
pub open spec fn nodes_of(edges: Seq<(Node, Node)>) -> Seq<Node>
    decreases edges.len(),
{
    if edges.len() == 0 {
        seq![]
    } else {
        let edge = edges.last();
        with_node(with_node(nodes_of(edges.drop_last()), edge.0), edge.1)
    }
}

/// Whether the step from the node at `i` to the next one follows an edge.
pub open spec fn is_step(edges: Seq<(Node, Node)>, walk: Seq<Node>, i: int) -> bool {
    edges.contains((walk[i], walk[i + 1]))
}

/// Whether every step of a walk follows an edge.
pub open spec fn is_walk(edges: Seq<(Node, Node)>, walk: Seq<Node>) -> bool {
    forall|i: int| 0 <= i < walk.len() - 1 ==> #[trigger] is_step(edges, walk, i)
}

/// Whether some walk of at least one step ends where it began.
pub open spec fn has_cycle(edges: Seq<(Node, Node)>) -> bool {
    exists|walk: Seq<Node>| #[trigger]
        is_walk(edges, walk) && walk.len() >= 2 && walk.first() == walk.last()
}

/// Whether `visit` can be the next event of a search whose visits have led along `path`: a new
/// node is a start or the end of an edge from the end of the path, a visit that comes to its end
/// is the last of the path, and an edge back leads from the end of the path to a node on it.
pub open spec fn follows(
    edges: Seq<(Node, Node)>,
    starts: Seq<Node>,
    path: Seq<Node>,
    visit: Visit,
) -> bool {
    match visit {
        Visit::Discover(node) => if path.len() == 0 {
            starts.contains(node)
        } else {
            edges.contains((path.last(), node))
        },
        Visit::Finish(node) => path.len() > 0 && path.last() == node,
        Visit::BackEdge(from, to) => {
            &&& path.len() > 0
            &&& path.last() == from
            &&& path.contains(to)
            &&& edges.contains((from, to))
        },
        _ => true,
    }
}

/// Whether the visit of a node has come to its end before event `n`.
pub open spec fn finished_before(visits: Seq<Visit>, n: int, node: Node) -> bool {
    exists|k: int| 0 <= k < n && #[trigger] visits[k] == Visit::Finish(node)
}

/// Whether an edge has been reported as leading back before event `n`.
pub open spec fn led_back_before(visits: Seq<Visit>, n: int, from: Node, to: Node) -> bool {
    exists|k: int| 0 <= k < n && #[trigger] visits[k] == Visit::BackEdge(from, to)
}

/// Whether an edge has been dealt with before event `n`: it leads back, or the visit of the node
/// that it leads to has come to its end.
pub open spec fn is_settled(visits: Seq<Visit>, n: int, from: Node, to: Node) -> bool {
    led_back_before(visits, n, from, to) || finished_before(visits, n, to)
}

/// Whether no node is discovered twice.
pub open spec fn discovers_once(visits: Seq<Visit>) -> bool {
    forall|i: int, j: int|
        0 <= i < j < visits.len() && #[trigger] visits[i] is Discover && #[trigger] visits[j]
            is Discover ==> visits[i] != visits[j]
}

/// Whether the events are those of a search that goes along edges and keeps to its path,
/// discovers no node twice, visits all starts, and deals with all edges of a node before the
/// visit of that node comes to its end.
pub open spec fn is_search(
    edges: Seq<(Node, Node)>,
    starts: Seq<Node>,
    visits: Seq<Visit>,
) -> bool {
    &&& forall|i: int|
        0 <= i < visits.len() ==> follows(
            edges,
            starts,
            node_path(visits.take(i)),
            #[trigger] visits[i],
        )
    &&& discovers_once(visits)
    &&& forall|start: Node| #[trigger]
        starts.contains(start) ==> finished_before(visits, visits.len() as int, start)
    &&& forall|i: int, from: Node, to: Node|
        0 <= i < visits.len() && #[trigger] visits[i] == Visit::Finish(from)
            && #[trigger] edges.contains((from, to)) ==> is_settled(visits, i, from, to)
}

/// `GraphMap::with_capacity`: a graph without edges. The capacity is only a hint; one that
/// cannot be allocated at all is left out.
#[verifier::external_body]
fn new_graph(capacity: usize) -> (r: GraphMap<Node, (), petgraph::Directed, RandomState>)
    requires
        capacity <= usize::MAX / 4096,
    ensures
        graph_edges(r) == Seq::<(Node, Node)>::empty(),
{
    GraphMap::with_capacity(capacity, capacity)
}

/// `GraphMap::add_edge`: adds an edge, and its nodes where they are new. An edge that is there
/// already stays where it is.
#[verifier::external_body]
fn add_edge(
    graph: &mut GraphMap<Node, (), petgraph::Directed, RandomState>,
    from: Node,
    to: Node,
)
    ensures
        graph_edges(*final(graph)) == with_edge(graph_edges(*old(graph)), (from, to)),
{
    graph.add_edge(from, to, ());
}

/// `GraphMap::nodes`: all nodes, in the order in which they came into the graph.
#[verifier::external_body]
fn graph_nodes(graph: &GraphMap<Node, (), petgraph::Directed, RandomState>) -> (r: Vec<Node>)
    ensures
        r@ == nodes_of(graph_edges(*graph)),
{
    graph.nodes().collect()
}

/// `petgraph::algo::is_cyclic_directed`: whether the graph contains a cycle.
#[verifier::external_body]
fn is_cyclic(graph: &GraphMap<Node, (), petgraph::Directed, RandomState>) -> (r: bool)
    ensures
        r == has_cycle(graph_edges(*graph)),
{
    petgraph::algo::is_cyclic_directed(graph)
}

/// Writes an event down.
fn record(visits: &mut Vec<Visit>, visit: Visit)
    ensures
        final(visits)@ == old(visits)@.push(visit),
{
    visits.push(visit);
}

/// `petgraph::visit::depth_first_search`: the events of a search from the given nodes on. They
/// depend on the edges in their order and on the starts alone. Each event follows from the path
/// of the visits under way, no node is discovered twice, and every start is visited. Before the
/// visit of a node comes to its end, each of its edges has been reported as leading back, or has
/// led to a node whose own visit has come to its end.
#[verifier::external_body]
fn search(
    graph: &GraphMap<Node, (), petgraph::Directed, RandomState>,
    starts: Vec<Node>,
) -> (r: Vec<Visit>)
    ensures
        r@ == search_events(graph_edges(*graph), starts@),
        is_search(graph_edges(*graph), starts@, r@),
{
    let mut visits: Vec<Visit> = Vec::new();
    petgraph::visit::depth_first_search(graph, starts, |event| {
        record(&mut visits, match event {
            DfsEvent::Discover(node, _) => Visit::Discover(node),
            DfsEvent::TreeEdge(from, to) => Visit::TreeEdge(from, to),
            DfsEvent::BackEdge(from, to) => Visit::BackEdge(from, to),
            DfsEvent::CrossForwardEdge(from, to) => Visit::CrossForwardEdge(from, to),
            DfsEvent::Finish(node, _) => Visit::Finish(node),
        })
    });
    visits
}

/// Whether a parked thread can be part of a deadlock that was not reported before: it sleeps
/// until it is unparked.
pub open spec fn is_watched(t: ThreadData) -> bool {
    !t.parked_with_timeout && !t.deadlock_data.deadlocked
}

/// Edges with those from the first `n` resources of a thread to the thread, where `kind` is the
/// kind of the nodes that stand for resources.
pub open spec fn with_resources(
    edges: Seq<(Node, Node)>,
    t: ThreadData,
    kind: u8,
    n: int,
) -> Seq<(Node, Node)>
    decreases n,
{
    if n <= 0 {
        edges
    } else {
        with_edge(
            with_resources(edges, t, kind, n - 1),
            ((kind, t.deadlock_data.resources@[n - 1]), (THREAD, t.thread)),
        )
    }
}

/// Edges with those of one parked thread: its resources wait for it, and it waits for its key.
pub open spec fn with_thread(
    edges: Seq<(Node, Node)>,
    t: ThreadData,
    kind: u8,
) -> Seq<(Node, Node)> {
    if is_watched(t) {
        with_edge(
            with_resources(edges, t, kind, t.deadlock_data.resources@.len() as int),
            ((THREAD, t.thread), (kind, t.key)),
        )
    } else {
        edges
    }
}

/// Edges with those of all threads of a queue.
pub open spec fn with_queue(
    edges: Seq<(Node, Node)>,
    queue: Seq<ThreadData>,
    kind: u8,
) -> Seq<(Node, Node)>
    decreases queue.len(),
{
    if queue.len() == 0 {
        edges
    } else {
        with_thread(with_queue(edges, queue.drop_last(), kind), queue.last(), kind)
    }
}

/// The nodes that stand for threads.
pub open spec fn thread_nodes(nodes: Seq<Node>) -> Seq<Node> {
    nodes.filter(|node: Node| node.0 == THREAD)
}

/// The cycles of threads that a search from all threads of a graph comes across.
pub open spec fn cycles_in(edges: Seq<(Node, Node)>) -> Seq<Seq<usize>> {
    found_cycles(search_events(edges, thread_nodes(nodes_of(edges))))
}

/// A graph of who waits for whom.
pub struct WaitGraph {
    graph: GraphMap<Node, (), petgraph::Directed, RandomState>,
}

impl View for WaitGraph {
    type V = Seq<(Node, Node)>;

    closed spec fn view(&self) -> Seq<(Node, Node)> {
        graph_edges(self.graph)
    }
}

impl WaitGraph {
    /// A graph of nobody, with room for the given number of threads.
    pub fn new(thread_count: usize) -> (r: WaitGraph)
        requires
            thread_count <= usize::MAX / 8192,
        ensures
            r@ == Seq::<(Node, Node)>::empty(),
    {
        WaitGraph { graph: new_graph(thread_count * 2) }
    }

    /// Adds the threads that are parked in a bucket.
    fn add_bucket(&mut self, bucket: &Bucket, kind: u8)
        ensures
            final(self)@ == with_queue(old(self)@, bucket@, kind),
    {
        let ghost edges = self@;
        let mut current: usize = 0;
        assert(bucket@.take(0) =~= Seq::empty());
        while current < bucket.len()
            invariant
                current <= bucket@.len(),
                edges == old(self)@,
                self@ == with_queue(edges, bucket@.take(current as int), kind),
            decreases bucket@.len() - current,
        {
            assert(bucket@.take(current + 1).drop_last() =~= bucket@.take(current as int));
            let thread_data = bucket.get(current);
            if !thread_data.parked_with_timeout && !thread_data.deadlock_data.deadlocked {
                let thread = thread_data.thread;
                let ghost before = self@;
                let mut i: usize = 0;
                // .resources are waiting for their owner
                while i < thread_data.deadlock_data.resources.len()
                    invariant
                        i <= thread_data.deadlock_data.resources@.len(),
                        thread == thread_data.thread,
                        self@ == with_resources(before, *thread_data, kind, i as int),
                    decreases thread_data.deadlock_data.resources@.len() - i,
                {
                    let resource = thread_data.deadlock_data.resources[i];
                    add_edge(&mut self.graph, (kind, resource), (THREAD, thread));
                    i += 1;
                }
                // owner waits for resource .key
                add_edge(&mut self.graph, (THREAD, thread), (kind, thread_data.key));
            }
            current += 1;
        }
        assert(bucket@.take(current as int) =~= bucket@);
    }

    /// Adds the threads that are parked in a bucket to a graph that does not tell threads and
    /// resources apart.
    pub fn add_bucket_fast(&mut self, bucket: &Bucket)
        ensures
            final(self)@ == with_queue(old(self)@, bucket@, THREAD),
    {
        self.add_bucket(bucket, THREAD);
    }

    /// Adds the threads that are parked in a bucket to a graph that tells threads and resources
    /// apart.
    pub fn add_bucket_slow(&mut self, bucket: &Bucket)
        ensures
            final(self)@ == with_queue(old(self)@, bucket@, RESOURCE),
    {
        self.add_bucket(bucket, RESOURCE);
    }

    /// Whether anybody waits in a circle.
    pub fn check_wait_graph_fast(&self) -> (r: bool)
        ensures
            r == has_cycle(self@),
    {
        is_cyclic(&self.graph)
    }

    /// The cycles of threads that a search from all threads comes across. These are all cycles
    /// where each resource has one owner. Where resources have several owners there may be more,
    /// each of which has a thread in common with one of these.
    pub fn graph_cycles(&self) -> (r: Vec<Vec<usize>>)
        ensures
            contents(r@) == cycles_in(self@),
            ({
                let starts = thread_nodes(nodes_of(self@));
                let found = found_cycles(search_events(self@, starts));
                &&& is_search(self@, starts, search_events(self@, starts))
                &&& r@.len() == found.len()
                &&& forall|i: int| 0 <= i < r@.len() ==> (#[trigger] r@[i])@ == found[i]
            }),
    {
        // start from threads to get the correct threads cycle
        let nodes = graph_nodes(&self.graph);
        let mut starts: Vec<Node> = Vec::new();
        let mut i: usize = 0;
        proof {
            reveal(Seq::filter);
            assert(nodes@.take(0) =~= Seq::empty());
            assert(thread_nodes(nodes@.take(0)) =~= starts@);
        }
        while i < nodes.len()
            invariant
                i <= nodes@.len(),
                starts@ == thread_nodes(nodes@.take(i as int)),
            decreases nodes@.len() - i,
        {
            proof {
                reveal(Seq::filter);
                assert(nodes@.take(i + 1).drop_last() =~= nodes@.take(i as int));
            }
            if nodes[i].0 == THREAD {
                starts.push(nodes[i]);
            }
            i += 1;
        }
        assert(nodes@.take(i as int) =~= nodes@);
        let ghost from = starts@;
        let visits = search(&self.graph, starts);
        proof {
            lemma_search_leads_back(self@, from, visits@);
        }
        let cycles = thread_cycles(&visits);
        assert forall|i: int| 0 <= i < cycles@.len() implies (#[trigger] cycles@[i])@
            == found_cycles(visits@)[i] by {
            assert(contents(cycles@)[i] == cycles@[i]@);
        }
        cycles
    }
}

/// Looks for deadlocks: a fast check of a graph that was gathered bucket by bucket, and only if
/// that finds a circle, a search of the graph that `slow` gathers while all buckets are locked.
///
/// Each cycle consists of the threads that wait for each other.
pub fn check_deadlock<S>(fast: &WaitGraph, slow: S) -> (r: Vec<Vec<usize>>)
    where S: FnOnce() -> WaitGraph
    requires
        has_cycle(fast@) ==> call_requires(slow, ()),
    ensures
        !has_cycle(fast@) ==> r@ == Seq::<Vec<usize>>::empty(),
        has_cycle(fast@) ==> exists|graph: WaitGraph| #[trigger]
            call_ensures(slow, (), graph) && contents(r@) == cycles_in(graph@) && {
                let starts = thread_nodes(nodes_of(graph@));
                let found = found_cycles(search_events(graph@, starts));
                &&& is_search(graph@, starts, search_events(graph@, starts))
                &&& r@.len() == found.len()
                &&& forall|i: int| 0 <= i < r@.len() ==> (#[trigger] r@[i])@ == found[i]
            },
{
    // fast pass
    if fast.check_wait_graph_fast() {
        // double check
        let graph = slow();
        graph.graph_cycles()
    } else {
        Vec::new()
    }
}

/// An edge back leads to a node on the path.
proof fn lemma_search_leads_back(
    edges: Seq<(Node, Node)>,
    starts: Seq<Node>,
    visits: Seq<Visit>,
)
    requires
        is_search(edges, starts, visits),
    ensures
        leads_back(visits),
{
    assert forall|i: int| 0 <= i < visits.len() implies match #[trigger] visits[i] {
        Visit::BackEdge(_, node) => node_path(visits.take(i)).contains(node),
        _ => true,
    } by {
        assert(follows(edges, starts, node_path(visits.take(i)), visits[i]));
    }
}

} // verus!
