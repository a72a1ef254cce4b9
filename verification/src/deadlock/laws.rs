//! What a reported deadlock means, and which deadlocks are reported.

use crate::deadlock::cycles::{
    closed_cycle, found_cycles, is_in, law_normalized_starts_smallest,
    law_normalized_wherever_entered, lemma_min_position, lemma_node_position, min_position,
    node_path, node_position, normalized, rotated, threads_on, Node, Visit, RESOURCE, THREAD,
};
use crate::deadlock::wait_graph::{
    cycles_in, discovers_once, finished_before, follows, has_cycle, is_search, is_settled, is_step,
    is_walk, nodes_of, search_events, thread_nodes, with_edge, with_node, with_queue,
    with_resources,
};
use crate::lot::bucket::{is_marked, marked, parked_once, ThreadData};
use vstd::prelude::*;

verus! {

/// Whether every edge joins a thread and a resource.
pub open spec fn joins(edges: Seq<(Node, Node)>) -> bool {
    forall|edge: (Node, Node)| #[trigger]
        edges.contains(edge) ==> (edge.0.0 == THREAD && edge.1.0 == RESOURCE) || (edge.0.0
            == RESOURCE && edge.1.0 == THREAD)
}

/// Whether thread `a` waits for a resource, and that for thread `b`, where `kind` is the kind of
/// the nodes that stand for resources.
pub open spec fn links_by(
    edges: Seq<(Node, Node)>,
    kind: u8,
    key: usize,
    a: usize,
    b: usize,
) -> bool {
    edges.contains(((THREAD, a), (kind, key))) && edges.contains(((kind, key), (THREAD, b)))
}

/// Whether a resource leads from thread `a` to thread `b`.
pub open spec fn links(edges: Seq<(Node, Node)>, kind: u8, a: usize, b: usize) -> bool {
    exists|key: usize| #[trigger] links_by(edges, kind, key, a, b)
}

/// The place in a cycle that comes after `i`.
pub open spec fn next_in(cycle: Seq<usize>, i: int) -> int {
    if i + 1 < cycle.len() {
        i + 1
    } else {
        0
    }
}

/// Whether a resource leads from the thread at `i` to the next one in the cycle.
pub open spec fn links_next(
    edges: Seq<(Node, Node)>,
    kind: u8,
    cycle: Seq<usize>,
    i: int,
) -> bool {
    links(edges, kind, cycle[i], cycle[next_in(cycle, i)])
}

/// Whether resources lead from each thread of the cycle to the next one, and from the last one to
/// the first.
pub open spec fn is_cycle(edges: Seq<(Node, Node)>, kind: u8, cycle: Seq<usize>) -> bool {
    &&& cycle.len() > 0
    &&& forall|i: int| 0 <= i < cycle.len() ==> #[trigger] links_next(edges, kind, cycle, i)
}

/// Whether a cycle is one of a graph, names no thread twice, and starts with its smallest thread.
pub open spec fn is_proper_cycle(edges: Seq<(Node, Node)>, cycle: Seq<usize>) -> bool {
    &&& is_cycle(edges, RESOURCE, cycle)
    &&& cycle.no_duplicates()
    &&& forall|i: int| 0 <= i < cycle.len() ==> cycle[0] <= #[trigger] cycle[i]
}

/// The path of a search goes along edges, names no node twice, and consists of nodes that have
/// been discovered.
#[verifier::rlimit(40)]
proof fn lemma_path(edges: Seq<(Node, Node)>, starts: Seq<Node>, visits: Seq<Visit>, n: int)
    requires
        is_search(edges, starts, visits),
        0 <= n <= visits.len(),
    ensures
        is_walk(edges, node_path(visits.take(n))),
        node_path(visits.take(n)).no_duplicates(),
        forall|i: int|
            0 <= i < node_path(visits.take(n)).len() ==> was_discovered(
                visits,
                n,
                #[trigger] node_path(visits.take(n))[i],
            ),
    decreases n,
{
    if n > 0 {
        lemma_path(edges, starts, visits, n - 1);
        assert(visits.take(n).drop_last() =~= visits.take(n - 1));
        let path = node_path(visits.take(n - 1));
        let next = node_path(visits.take(n));
        assert(follows(edges, starts, path, visits[n - 1]));
        assert forall|i: int| 0 <= i < path.len() implies was_discovered(
            visits,
            n,
            #[trigger] path[i],
        ) by {
            assert(was_discovered(visits, n - 1, path[i]));
        }
        match visits[n - 1] {
            Visit::Discover(node) => {
                assert(next == path.push(node));
                assert forall|i: int| 0 <= i < next.len() - 1 implies #[trigger] is_step(
                    edges,
                    next,
                    i,
                ) by {
                    if i < path.len() - 1 {
                        assert(is_step(edges, path, i));
                    }
                }
                assert forall|i: int| 0 <= i < path.len() implies #[trigger] path[i] != node by {
                    assert(was_discovered(visits, n - 1, path[i]));
                    let k = choose|k: int|
                        0 <= k < n - 1 && #[trigger] visits[k] == Visit::Discover(path[i]);
                    assert(discovers_once(visits));
                    assert(visits[k] is Discover && visits[n - 1] is Discover);
                }
                assert forall|i: int| 0 <= i < next.len() implies was_discovered(
                    visits,
                    n,
                    #[trigger] next[i],
                ) by {
                    if i < path.len() {
                        assert(next[i] == path[i]);
                    } else {
                        assert(visits[n - 1] == Visit::Discover(next[i]));
                    }
                }
            },
            Visit::Finish(_) => {
                assert(next == path.drop_last());
                assert forall|i: int| 0 <= i < next.len() - 1 implies #[trigger] is_step(
                    edges,
                    next,
                    i,
                ) by {
                    assert(is_step(edges, path, i));
                }
                assert forall|i: int| 0 <= i < next.len() implies was_discovered(
                    visits,
                    n,
                    #[trigger] next[i],
                ) by {
                    assert(next[i] == path[i]);
                }
            },
            _ => {
                assert(next == path);
            },
        }
    }
}

/// Whether a node has been discovered before event `n`.
spec fn was_discovered(visits: Seq<Visit>, n: int, node: Node) -> bool {
    exists|k: int| 0 <= k < n && #[trigger] visits[k] == Visit::Discover(node)
}

/// Threads and resources alternate on a walk. The first thread on it is the node at `first`.
proof fn lemma_alternates(edges: Seq<(Node, Node)>, path: Seq<Node>, first: int, n: int)
    requires
        joins(edges),
        is_walk(edges, path),
        path.len() >= 2,
        first == if path[0].0 == THREAD {
            0int
        } else {
            1int
        },
        0 <= n <= path.len(),
    ensures
        forall|i: int| 0 <= i < n ==> ((#[trigger] path[i]).0 == THREAD || path[i].0 == RESOURCE),
        forall|i: int|
            0 <= i < n ==> ((#[trigger] path[i]).0 == THREAD <==> i % 2 == first % 2),
        threads_on(path.take(n)).len() == (n + 1 - first) / 2,
        forall|j: int|
            0 <= j < (n + 1 - first) / 2 ==> #[trigger] threads_on(path.take(n))[j] == path[2 * j
                + first].1,
    decreases n,
{
    assert(is_step(edges, path, 0));
    if n > 0 {
        lemma_alternates(edges, path, first, n - 1);
        assert(path.take(n).drop_last() =~= path.take(n - 1));
        assert(path.take(n).last() == path[n - 1]);
        if n > 1 {
            assert(is_step(edges, path, n - 2));
            assert(edges.contains((path[n - 2], path[n - 1])));
        } else {
            assert(edges.contains((path[0], path[1])));
        }
    }
}

/// The threads on a path that names no node twice are named once.
proof fn lemma_threads_once(path: Seq<Node>)
    requires
        path.no_duplicates(),
    ensures
        threads_on(path).no_duplicates(),
        forall|i: int|
            0 <= i < threads_on(path).len() ==> path.contains(
                (THREAD, #[trigger] threads_on(path)[i]),
            ),
    decreases path.len(),
{
    if path.len() > 0 {
        let before = path.drop_last();
        let rest = threads_on(before);
        lemma_threads_once(before);
        assert forall|i: int| 0 <= i < threads_on(path).len() implies path.contains(
            (THREAD, #[trigger] threads_on(path)[i]),
        ) by {
            if i < rest.len() {
                assert(before.contains((THREAD, rest[i])));
                let k = choose|k: int| 0 <= k < before.len() && before[k] == (THREAD, rest[i]);
                assert(path[k] == (THREAD, rest[i]));
            } else {
                assert(path[path.len() - 1] == (THREAD, threads_on(path)[i]));
            }
        }
        if path.last().0 == THREAD {
            assert forall|i: int| 0 <= i < rest.len() implies #[trigger] rest[i]
                != path.last().1 by {
                assert(before.contains((THREAD, rest[i])));
                let k = choose|k: int| 0 <= k < before.len() && before[k] == (THREAD, rest[i]);
                assert(path[k] != path[path.len() - 1]);
            }
        }
    }
}

/// The node of a closed path that comes after `q`.
spec fn after(path: Seq<Node>, q: int) -> int {
    if q + 1 < path.len() {
        q + 1
    } else {
        0
    }
}

/// The threads on a path that an edge from its end to its beginning closes are a cycle.
#[verifier::rlimit(40)]
proof fn lemma_closed_path(edges: Seq<(Node, Node)>, path: Seq<Node>)
    requires
        joins(edges),
        is_walk(edges, path),
        path.len() > 0,
        edges.contains((path.last(), path[0])),
    ensures
        is_cycle(edges, RESOURCE, threads_on(path)),
{
    let m = path.len() as int;
    if m == 1 {
        assert(edges.contains((path[0], path[0])));
    }
    let first = if path[0].0 == THREAD {
        0int
    } else {
        1int
    };
    lemma_alternates(edges, path, first, m);
    assert(path.take(m) =~= path);
    assert(edges.contains((path[m - 1], path[0])));
    assert(path[m - 1].0 != path[0].0);
    assert(m % 2 == 0);
    let on = threads_on(path);
    assert(on.len() == m / 2);
    assert forall|i: int| 0 <= i < on.len() implies #[trigger] links_next(
        edges,
        RESOURCE,
        on,
        i,
    ) by {
        let p = 2 * i + first;
        let q = after(path, p);
        let r = after(path, q);
        assert(on[i] == path[p].1);
        assert(edges.contains((path[p], path[q]))) by {
            if p + 1 < m {
                assert(is_step(edges, path, p));
            }
        }
        assert(edges.contains((path[q], path[r]))) by {
            if q + 1 < m {
                assert(is_step(edges, path, q));
            }
        }
        let next = next_in(on, i);
        assert(r == 2 * next + first);
        assert(on[next] == path[2 * next + first].1);
        assert(path[p].0 == THREAD && path[q].0 == RESOURCE && path[r].0 == THREAD);
        assert(links_by(edges, RESOURCE, path[q].1, on[i], on[next]));
    }
}

/// A cycle is one wherever one begins.
proof fn lemma_rotated_cycle(edges: Seq<(Node, Node)>, cycle: Seq<usize>, start: int)
    requires
        is_cycle(edges, RESOURCE, cycle),
        cycle.no_duplicates(),
        0 <= start < cycle.len(),
    ensures
        is_cycle(edges, RESOURCE, rotated(cycle, start)),
        rotated(cycle, start).no_duplicates(),
{
    let turned = rotated(cycle, start);
    let n = cycle.len() as int;
    assert forall|i: int| 0 <= i < turned.len() implies #[trigger] links_next(
        edges,
        RESOURCE,
        turned,
        i,
    ) by {
        let j = if i < n - start { start + i } else { i - (n - start) };
        assert(turned[i] == cycle[j]);
        let k = next_in(turned, i);
        let l = if k < n - start { start + k } else { k - (n - start) };
        assert(turned[k] == cycle[l]);
        assert(l == next_in(cycle, j));
        assert(links_next(edges, RESOURCE, cycle, j));
    }
}

/// What an edge back closes is a proper cycle.
proof fn lemma_closed_cycle(edges: Seq<(Node, Node)>, path: Seq<Node>, node: Node)
    requires
        joins(edges),
        is_walk(edges, path),
        path.no_duplicates(),
        path.contains(node),
        edges.contains((path.last(), node)),
    ensures
        ({
            let from = node_position(path, node, path.len() as int);
            is_proper_cycle(edges, normalized(threads_on(path.skip(from))))
        }),
{
    let from = node_position(path, node, path.len() as int);
    lemma_node_position(path, node, path.len() as int);
    let k = choose|k: int| 0 <= k < path.len() && path[k] == node;
    assert(from >= k);
    let part = path.skip(from);
    assert forall|i: int| 0 <= i < part.len() - 1 implies #[trigger] is_step(edges, part, i) by {
        assert(is_step(edges, path, from + i));
    }
    assert(part.last() == path.last());
    lemma_closed_path(edges, part);
    lemma_threads_once(part);
    let cycle = threads_on(part);
    lemma_min_position(cycle, cycle.len() as int);
    lemma_rotated_cycle(edges, cycle, min_position(cycle, cycle.len() as int));
    law_normalized_starts_smallest(cycle);
}

/// The path at an edge back goes along edges, names no node twice, and leads from somewhere on it
/// to the beginning of the edge.
proof fn lemma_back_path(edges: Seq<(Node, Node)>, starts: Seq<Node>, visits: Seq<Visit>, j: int)
    requires
        is_search(edges, starts, visits),
        0 <= j < visits.len(),
        visits[j] is BackEdge,
    ensures
        visits[j] matches Visit::BackEdge(from, to) && {
            let path = node_path(visits.take(j));
            &&& is_walk(edges, path)
            &&& path.no_duplicates()
            &&& path.len() > 0
            &&& path.last() == from
            &&& path.contains(to)
            &&& edges.contains((from, to))
        },
{
    lemma_path(edges, starts, visits, j);
    assert(follows(edges, starts, node_path(visits.take(j)), visits[j]));
}

/// Whether what an edge back closes, if event `j` is one, is a proper cycle.
spec fn closes_cycle(edges: Seq<(Node, Node)>, visits: Seq<Visit>, j: int) -> bool {
    visits[j] matches Visit::BackEdge(_, to) ==> is_proper_cycle(
        edges,
        closed_cycle(node_path(visits.take(j)), to),
    )
}

/// What a search finds is what its edges back close.
proof fn lemma_found(edges: Seq<(Node, Node)>, visits: Seq<Visit>, n: int)
    requires
        forall|j: int| 0 <= j < visits.len() ==> #[trigger] closes_cycle(edges, visits, j),
        0 <= n <= visits.len(),
    ensures
        forall|i: int|
            0 <= i < found_cycles(visits.take(n)).len() ==> is_proper_cycle(
                edges,
                #[trigger] found_cycles(visits.take(n))[i],
            ),
        found_cycles(visits.take(n)).no_duplicates(),
        (exists|j: int| 0 <= j < n && #[trigger] visits[j] is BackEdge) ==> found_cycles(
            visits.take(n),
        ).len() > 0,
    decreases n,
{
    if n > 0 {
        lemma_found(edges, visits, n - 1);
        let before = found_cycles(visits.take(n - 1));
        let found = found_cycles(visits.take(n));
        assert(visits.take(n).drop_last() =~= visits.take(n - 1));
        assert(visits.take(n).last() == visits[n - 1]);
        assert(closes_cycle(edges, visits, n - 1));
        match visits[n - 1] {
            Visit::BackEdge(_, node) => {
                assert forall|i: int| 0 <= i < found.len() implies is_proper_cycle(
                    edges,
                    #[trigger] found[i],
                ) by {
                    if i < before.len() {
                        assert(found[i] == before[i]);
                    }
                }
            },
            _ => {
                assert(found == before);
                if exists|j: int| 0 <= j < n && #[trigger] visits[j] is BackEdge {
                    let j = choose|j: int| 0 <= j < n && #[trigger] visits[j] is BackEdge;
                    assert(j < n - 1);
                }
            },
        }
    }
}

/// A search does not go round in circles: on a walk that ends where it began, some edge is
/// reported as leading back, the event being at the first of the places that are returned, and
/// the edge at the second.
proof fn lemma_no_way_round(
    edges: Seq<(Node, Node)>,
    starts: Seq<Node>,
    visits: Seq<Visit>,
    walk: Seq<Node>,
    k: int,
    i: int,
) -> (at: (int, int))
    requires
        is_search(edges, starts, visits),
        is_walk(edges, walk),
        walk.len() >= 2,
        walk.first() == walk.last(),
        0 <= k < walk.len(),
        0 <= i < visits.len(),
        visits[i] == Visit::Finish(walk[k]),
    ensures
        0 <= at.0 < visits.len(),
        0 <= at.1 < walk.len() - 1,
        visits[at.0] == Visit::BackEdge(walk[at.1], walk[at.1 + 1]),
    decreases i,
{
    let m = if k == walk.len() - 1 {
        0
    } else {
        k
    };
    assert(walk[m] == walk[k]);
    assert(is_step(edges, walk, m));
    assert(edges.contains((walk[k], walk[m + 1])));
    assert(is_settled(visits, i, walk[k], walk[m + 1]));
    if finished_before(visits, i, walk[m + 1]) {
        let j = choose|j: int| 0 <= j < i && #[trigger] visits[j] == Visit::Finish(walk[m + 1]);
        lemma_no_way_round(edges, starts, visits, walk, m + 1, j)
    } else {
        let j = choose|j: int|
            0 <= j < i && #[trigger] visits[j] == Visit::BackEdge(walk[k], walk[m + 1]);
        (j, m)
    }
}

/// An edge names nodes of the graph.
proof fn lemma_named(edges: Seq<(Node, Node)>, edge: (Node, Node))
    requires
        edges.contains(edge),
    ensures
        nodes_of(edges).contains(edge.0),
        nodes_of(edges).contains(edge.1),
    decreases edges.len(),
{
    let last = edges.last();
    let nodes = nodes_of(edges.drop_last());
    let more = with_node(nodes, last.0);
    if edge != last {
        let i = choose|i: int| 0 <= i < edges.len() && edges[i] == edge;
        assert(edges.drop_last()[i] == edge);
        lemma_named(edges.drop_last(), edge);
        lemma_with_node(nodes, last.0, edge.0);
        lemma_with_node(nodes, last.0, edge.1);
        lemma_with_node(more, last.1, edge.0);
        lemma_with_node(more, last.1, edge.1);
    } else {
        lemma_with_node(nodes, last.0, last.0);
        lemma_with_node(more, last.1, last.0);
        lemma_with_node(more, last.1, last.1);
    }
}

proof fn lemma_with_node(nodes: Seq<Node>, node: Node, x: Node)
    requires
        nodes.contains(x) || x == node,
    ensures
        with_node(nodes, node).contains(x),
{
    if !nodes.contains(node) {
        let more = nodes.push(node);
        if x == node {
            assert(more[nodes.len() as int] == x);
        } else {
            let i = choose|i: int| 0 <= i < nodes.len() && nodes[i] == x;
            assert(more[i] == x);
        }
    }
}

/// A search from all threads meets an edge back on any walk that ends where it began.
proof fn lemma_back_edge(edges: Seq<(Node, Node)>, visits: Seq<Visit>, walk: Seq<Node>) -> (at: (
    int,
    int,
))
    requires
        joins(edges),
        is_search(edges, thread_nodes(nodes_of(edges)), visits),
        is_walk(edges, walk),
        walk.len() >= 2,
        walk.first() == walk.last(),
    ensures
        0 <= at.0 < visits.len(),
        0 <= at.1 < walk.len() - 1,
        visits[at.0] == Visit::BackEdge(walk[at.1], walk[at.1 + 1]),
{
    let starts = thread_nodes(nodes_of(edges));
    assert(is_step(edges, walk, 0));
    assert(edges.contains((walk[0], walk[1])));
    let k = if walk[0].0 == THREAD {
        0int
    } else {
        1int
    };
    lemma_named(edges, (walk[0], walk[1]));
    let nodes = nodes_of(edges);
    let p = |node: Node| node.0 == THREAD;
    let n = choose|n: int| 0 <= n < nodes.len() && nodes[n] == walk[k];
    nodes.lemma_filter_contains(p, n);
    assert(starts.contains(walk[k]));
    assert(finished_before(visits, visits.len() as int, walk[k]));
    let i = choose|i: int| 0 <= i < visits.len() && #[trigger] visits[i] == Visit::Finish(walk[k]);
    lemma_no_way_round(edges, starts, visits, walk, k, i)
}

/// Resources that lead from thread to thread in a circle make a walk that ends where it began,
/// and meets no other threads.
proof fn lemma_cycle_is_walk(edges: Seq<(Node, Node)>, kind: u8, cycle: Seq<usize>) -> (walk: Seq<
    Node,
>)
    requires
        is_cycle(edges, kind, cycle),
    ensures
        is_walk(edges, walk),
        walk.len() >= 2,
        walk.first() == walk.last(),
        has_cycle(edges),
        walk.len() == 2 * cycle.len() + 1,
        forall|i: int| 0 <= i < cycle.len() ==> walk[2 * i] == (THREAD, #[trigger] cycle[i]),
        kind != THREAD ==> forall|m: int|
            0 <= m < walk.len() && (#[trigger] walk[m]).0 == THREAD ==> cycle.contains(walk[m].1),
{
    let n = cycle.len() as int;
    let key = |i: int|
        choose|key: usize| links_by(edges, kind, key, cycle[i], cycle[next_in(cycle, i)]);
    let walk = Seq::new(
        (2 * n + 1) as nat,
        |m: int|
            if m % 2 == 1 {
                (kind, key(m / 2))
            } else if m == 2 * n {
                (THREAD, cycle[0])
            } else {
                (THREAD, cycle[m / 2])
            },
    );
    assert forall|m: int| 0 <= m < walk.len() - 1 implies #[trigger] is_step(edges, walk, m) by {
        let i = m / 2;
        assert(links_next(edges, kind, cycle, i));
        assert(links_by(edges, kind, key(i), cycle[i], cycle[next_in(cycle, i)]));
        if m % 2 == 0 {
            assert(walk[m] == (THREAD, cycle[i]));
            assert(walk[m + 1] == (kind, key(i)));
        } else {
            assert(walk[m] == (kind, key(i)));
            assert(walk[m + 1] == (THREAD, cycle[next_in(cycle, i)]));
        }
    }
    assert(is_walk(edges, walk));
    assert(walk.first() == walk.last());
    walk
}

/// What an edge back closes is among the cycles that are found.
proof fn lemma_found_contains(visits: Seq<Visit>, n: int, j: int, from: Node, to: Node)
    requires
        0 <= j < n <= visits.len(),
        visits[j] == Visit::BackEdge(from, to),
    ensures
        found_cycles(visits.take(n)).contains(closed_cycle(node_path(visits.take(j)), to)),
    decreases n,
{
    let cycle = closed_cycle(node_path(visits.take(j)), to);
    let before = found_cycles(visits.take(n - 1));
    let found = found_cycles(visits.take(n));
    assert(visits.take(n).drop_last() =~= visits.take(n - 1));
    assert(visits.take(n).last() == visits[n - 1]);
    if j == n - 1 {
        if !before.contains(cycle) {
            assert(found[before.len() as int] == cycle);
        }
    } else {
        lemma_found_contains(visits, n - 1, j, from, to);
        let i = choose|i: int| 0 <= i < before.len() && before[i] == cycle;
        assert(found[i] == cycle);
    }
}

/// A thread on a path is among its threads.
proof fn lemma_threads_on_has(path: Seq<Node>, thread: usize)
    requires
        path.contains((THREAD, thread)),
    ensures
        threads_on(path).contains(thread),
    decreases path.len(),
{
    let before = path.drop_last();
    let rest = threads_on(before);
    if path.last() == (THREAD, thread) {
        assert(threads_on(path)[rest.len() as int] == thread);
    } else {
        let i = choose|i: int| 0 <= i < path.len() && path[i] == (THREAD, thread);
        assert(before[i] == (THREAD, thread));
        lemma_threads_on_has(before, thread);
        let j = choose|j: int| 0 <= j < rest.len() && rest[j] == thread;
        assert(threads_on(path)[j] == thread);
    }
}

/// A normalized cycle has the same members.
proof fn lemma_normalized_has(cycle: Seq<usize>, thread: usize)
    requires
        cycle.contains(thread),
    ensures
        normalized(cycle).contains(thread),
{
    let n = cycle.len() as int;
    lemma_min_position(cycle, n);
    let p = min_position(cycle, n);
    let i = choose|i: int| 0 <= i < n && cycle[i] == thread;
    let j = if i >= p { i - p } else { i + n - p };
    assert(normalized(cycle)[j] == thread);
}

/// The cycle that an edge back closes has the threads at both ends of the edge.
proof fn lemma_closed_has(path: Seq<Node>, node: Node, thread: usize)
    requires
        path.contains(node),
        node == (THREAD, thread) || path.last() == (THREAD, thread),
    ensures
        closed_cycle(path, node).contains(thread),
{
    let from = node_position(path, node, path.len() as int);
    lemma_node_position(path, node, path.len() as int);
    let k = choose|k: int| 0 <= k < path.len() && path[k] == node;
    assert(from >= k);
    let part = path.skip(from);
    assert(part[0] == node);
    assert(part[part.len() - 1] == path.last());
    lemma_threads_on_has(part, thread);
    lemma_normalized_has(threads_on(part), thread);
}

/// What is found in any graph of threads and resources: each cycle is one of the graph, names no
/// thread twice and starts with its smallest thread; no cycle is found twice; and something is
/// found exactly if there is a cycle.
///
/// `visits` are the events of a search from all threads on.
pub proof fn law_cycles_found(edges: Seq<(Node, Node)>, visits: Seq<Visit>)
    requires
        joins(edges),
        is_search(edges, thread_nodes(nodes_of(edges)), visits),
    ensures
        forall|i: int|
            0 <= i < found_cycles(visits).len() ==> is_proper_cycle(
                edges,
                #[trigger] found_cycles(visits)[i],
            ),
        found_cycles(visits).no_duplicates(),
        found_cycles(visits).len() > 0 <==> has_cycle(edges),
{
    let n = visits.len() as int;
    assert forall|j: int| 0 <= j < visits.len() implies #[trigger] closes_cycle(
        edges,
        visits,
        j,
    ) by {
        if let Visit::BackEdge(_, to) = visits[j] {
            lemma_back_path(edges, thread_nodes(nodes_of(edges)), visits, j);
            lemma_closed_cycle(edges, node_path(visits.take(j)), to);
        }
    }
    lemma_found(edges, visits, n);
    assert(visits.take(n) =~= visits);
    if has_cycle(edges) {
        let walk = choose|walk: Seq<Node>| #[trigger]
            is_walk(edges, walk) && walk.len() >= 2 && walk.first() == walk.last();
        let (j, _) = lemma_back_edge(edges, visits, walk);
        assert(visits[j] is BackEdge);
    }
    if found_cycles(visits).len() > 0 {
        assert(is_proper_cycle(edges, found_cycles(visits)[0]));
        lemma_cycle_is_walk(edges, RESOURCE, found_cycles(visits)[0]);
    }
}

/// No cycle of a graph of threads and resources is passed over: one of its threads is in a cycle
/// that is found.
pub proof fn law_every_cycle_is_met(
    edges: Seq<(Node, Node)>,
    visits: Seq<Visit>,
    cycle: Seq<usize>,
)
    requires
        joins(edges),
        is_search(edges, thread_nodes(nodes_of(edges)), visits),
        is_cycle(edges, RESOURCE, cycle),
    ensures
        exists|k: int| 0 <= k < cycle.len() && is_in(found_cycles(visits), #[trigger] cycle[k]),
{
    let n = visits.len() as int;
    let starts = thread_nodes(nodes_of(edges));
    let walk = lemma_cycle_is_walk(edges, RESOURCE, cycle);
    let (j, m) = lemma_back_edge(edges, visits, walk);
    let path = node_path(visits.take(j));
    let from = walk[m];
    let to = walk[m + 1];
    assert(follows(edges, starts, path, visits[j]));
    assert(edges.contains((from, to)));
    let thread = if to.0 == THREAD {
        to.1
    } else {
        from.1
    };
    lemma_closed_has(path, to, thread);
    lemma_found_contains(visits, n, j, from, to);
    assert(visits.take(n) =~= visits);
    let found = found_cycles(visits);
    let i = choose|i: int| 0 <= i < found.len() && found[i] == closed_cycle(path, to);
    assert(found[i].contains(thread));
    assert(is_in(found, thread));
    assert(cycle.contains(thread));
}

/// Whether nobody waits for two: from no node there are edges to two others, so that no thread
/// waits for two resources, and no resource has two owners.
pub open spec fn is_unbranched(edges: Seq<(Node, Node)>) -> bool {
    forall|from: Node, a: Node, b: Node|
        #[trigger] edges.contains((from, a)) && #[trigger] edges.contains((from, b)) ==> a == b
}

/// The node at place `k` of a walk that ends where it began, on the first or the second round.
spec fn round(walk: Seq<Node>, k: int) -> Node {
    if k < walk.len() - 1 {
        walk[k]
    } else {
        walk[k - (walk.len() - 1)]
    }
}

/// Where nobody waits for two, a walk through the threads of a cycle that names none twice meets
/// no node twice on its round.
proof fn lemma_round_once(
    edges: Seq<(Node, Node)>,
    cycle: Seq<usize>,
    walk: Seq<Node>,
    a: int,
    b: int,
)
    requires
        joins(edges),
        is_unbranched(edges),
        cycle.no_duplicates(),
        cycle.len() > 0,
        is_walk(edges, walk),
        walk.first() == walk.last(),
        walk.len() == 2 * cycle.len() + 1,
        forall|i: int| 0 <= i < cycle.len() ==> walk[2 * i] == (THREAD, #[trigger] cycle[i]),
        0 <= a < b < walk.len() - 1,
    ensures
        walk[a] != walk[b],
{
    let n = cycle.len() as int;
    assert(is_step(edges, walk, a));
    assert(is_step(edges, walk, b));
    assert(edges.contains((walk[a], walk[a + 1])));
    assert(edges.contains((walk[b], walk[b + 1])));
    let i = a / 2;
    let j = b / 2;
    assert(walk[2 * i] == (THREAD, cycle[i]));
    assert(walk[2 * j] == (THREAD, cycle[j]));
    if walk[a] == walk[b] {
        assert(walk[a + 1] == walk[b + 1]);
        if a % 2 == 1 {
            assert(is_step(edges, walk, 2 * i));
            assert(edges.contains((walk[2 * i], walk[2 * i + 1])));
            assert(walk[a].0 == RESOURCE);
        } else {
            assert(a == 2 * i);
        }
        if b % 2 == 1 {
            assert(is_step(edges, walk, 2 * j));
            assert(edges.contains((walk[2 * j], walk[2 * j + 1])));
            assert(walk[b].0 == RESOURCE);
        } else {
            assert(b == 2 * j);
        }
        assert(a % 2 == b % 2);
        if a % 2 == 0 {
            assert(cycle[i] == cycle[j]);
        } else {
            // both have the same owner, which is the next thread of both
            let k = i + 1;
            let l = next_in(cycle, j);
            assert(walk[2 * k] == (THREAD, cycle[k]));
            assert(walk[2 * l] == (THREAD, cycle[l]));
            assert(walk[b + 1] == walk[2 * l]);
            assert(cycle[k] == cycle[l]);
        }
    }
}

/// Where nobody waits for two, a path leads along the round of a walk that it has come to.
proof fn lemma_path_goes_round(
    edges: Seq<(Node, Node)>,
    walk: Seq<Node>,
    path: Seq<Node>,
    m: int,
    q: int,
)
    requires
        is_unbranched(edges),
        is_walk(edges, walk),
        walk.len() >= 2,
        walk.first() == walk.last(),
        is_walk(edges, path),
        path.len() > 0,
        0 <= m <= walk.len() - 1,
        path[0] == walk[m],
        0 <= q < path.len(),
        q < walk.len() - 1,
    ensures
        path[q] == round(walk, m + q),
    decreases q,
{
    let n = walk.len() - 1;
    if q > 0 {
        lemma_path_goes_round(edges, walk, path, m, q - 1);
        let k = if m + q - 1 < n {
            m + q - 1
        } else {
            m + q - 1 - n
        };
        assert(is_step(edges, path, q - 1));
        assert(is_step(edges, walk, k));
        assert(edges.contains((path[q - 1], path[q])));
        assert(edges.contains((walk[k], walk[k + 1])));
        assert(path[q] == walk[k + 1]);
    }
}

/// Where nobody waits for two, the path that an edge back closes is the round of the walk that
/// the edge is on.
proof fn lemma_closed_round(
    edges: Seq<(Node, Node)>,
    cycle: Seq<usize>,
    walk: Seq<Node>,
    part: Seq<Node>,
    m: int,
)
    requires
        joins(edges),
        is_unbranched(edges),
        cycle.no_duplicates(),
        cycle.len() > 0,
        is_walk(edges, walk),
        walk.first() == walk.last(),
        walk.len() == 2 * cycle.len() + 1,
        forall|i: int| 0 <= i < cycle.len() ==> walk[2 * i] == (THREAD, #[trigger] cycle[i]),
        is_walk(edges, part),
        part.no_duplicates(),
        part.len() > 0,
        0 <= m < walk.len() - 1,
        part[0] == walk[m + 1],
        part.last() == walk[m],
    ensures
        normalized(threads_on(part)) == normalized(cycle),
{
    let n = cycle.len() as int;
    let around = 2 * n;
    let size = part.len() as int;
    if size > around {
        // it would come back to its first node
        lemma_path_goes_round(edges, walk, part, m + 1, around - 1);
        assert(part[around - 1] == walk[m]);
        assert(is_step(edges, part, around - 1));
        assert(is_step(edges, walk, m));
        assert(edges.contains((part[around - 1], part[around])));
        assert(edges.contains((walk[m], walk[m + 1])));
        assert(part[around] == part[0]);
    } else {
        lemma_path_goes_round(edges, walk, part, m + 1, size - 1);
        if size < around {
            if m + size < around {
                lemma_round_once(edges, cycle, walk, m, m + size);
            } else {
                lemma_round_once(edges, cycle, walk, m + size - around, m);
            }
        }
    }
    assert(size == around);
    let first = if part[0].0 == THREAD {
        0int
    } else {
        1int
    };
    lemma_alternates(edges, part, first, size);
    assert(part.take(size) =~= part);
    let on = threads_on(part);
    assert(on.len() == n);
    // the walk has its threads at the even places
    lemma_alternates(edges, walk, 0, walk.len() as int);
    assert(walk[m + 1].0 == THREAD <==> (m + 1) % 2 == 0) by {
        assert(walk[0] == (THREAD, cycle[0]));
    }
    let begin = (m + 1 + first) / 2;
    let start = if begin < n {
        begin
    } else {
        begin - n
    };
    assert(m + 1 + first == 2 * begin);
    assert forall|j: int| 0 <= j < n implies on[j] == rotated(cycle, start)[j] by {
        lemma_path_goes_round(edges, walk, part, m + 1, 2 * j + first);
        assert(on[j] == part[2 * j + first].1);
        let k = if start + j < n {
            start + j
        } else {
            start + j - n
        };
        assert(walk[2 * k] == (THREAD, cycle[k]));
        assert(rotated(cycle, start)[j] == cycle[k]);
        assert(round(walk, m + 1 + 2 * j + first) == walk[2 * k]);
    }
    assert(on =~= rotated(cycle, start));
    law_normalized_wherever_entered(cycle, start);
}

/// Where nobody waits for two, the cycle that an edge back closes is that of the walk that the
/// edge is on.
proof fn lemma_closed_part(
    edges: Seq<(Node, Node)>,
    cycle: Seq<usize>,
    walk: Seq<Node>,
    path: Seq<Node>,
    m: int,
)
    requires
        joins(edges),
        is_unbranched(edges),
        cycle.no_duplicates(),
        cycle.len() > 0,
        is_walk(edges, walk),
        walk.first() == walk.last(),
        walk.len() == 2 * cycle.len() + 1,
        forall|i: int| 0 <= i < cycle.len() ==> walk[2 * i] == (THREAD, #[trigger] cycle[i]),
        is_walk(edges, path),
        path.no_duplicates(),
        path.len() > 0,
        0 <= m < walk.len() - 1,
        path.contains(walk[m + 1]),
        path.last() == walk[m],
    ensures
        closed_cycle(path, walk[m + 1]) == normalized(cycle),
{
    let to = walk[m + 1];
    let from = node_position(path, to, path.len() as int);
    lemma_node_position(path, to, path.len() as int);
    let k = choose|k: int| 0 <= k < path.len() && path[k] == to;
    assert(from >= k);
    let part = path.skip(from);
    assert forall|i: int| 0 <= i < part.len() - 1 implies #[trigger] is_step(edges, part, i) by {
        assert(is_step(edges, path, from + i));
    }
    assert(part[0] == to);
    assert(part.last() == path.last());
    lemma_closed_round(edges, cycle, walk, part, m);
}

/// Where nobody waits for two, no cycle is left out: all of those that name no thread twice are
/// found.
pub proof fn law_every_cycle_is_found(
    edges: Seq<(Node, Node)>,
    visits: Seq<Visit>,
    cycle: Seq<usize>,
)
    requires
        joins(edges),
        is_unbranched(edges),
        is_search(edges, thread_nodes(nodes_of(edges)), visits),
        is_cycle(edges, RESOURCE, cycle),
        cycle.no_duplicates(),
    ensures
        found_cycles(visits).contains(normalized(cycle)),
{
    let n = visits.len() as int;
    let walk = lemma_cycle_is_walk(edges, RESOURCE, cycle);
    let (j, m) = lemma_back_edge(edges, visits, walk);
    let to = walk[m + 1];
    lemma_back_path(edges, thread_nodes(nodes_of(edges)), visits, j);
    lemma_closed_part(edges, cycle, walk, node_path(visits.take(j)), m);
    lemma_found_contains(visits, n, j, walk[m], to);
    assert(visits.take(n) =~= visits);
}

/// Whether `parked[i]`, which sleeps until it is unparked, waits for something that `parked[j]`
/// owns, which sleeps until it is unparked as well.
pub open spec fn waits_for_at(parked: Seq<ThreadData>, i: int, j: int) -> bool {
    &&& 0 <= i < parked.len()
    &&& 0 <= j < parked.len()
    &&& !parked[i].parked_with_timeout
    &&& !parked[i].deadlock_data.deadlocked
    &&& !parked[j].parked_with_timeout
    &&& !parked[j].deadlock_data.deadlocked
    &&& parked[j].deadlock_data.resources@.contains(parked[i].key)
}

/// Whether thread `a` waits for something that thread `b` owns, and both sleep until they are
/// unparked.
pub open spec fn waits_for(parked: Seq<ThreadData>, a: usize, b: usize) -> bool {
    exists|i: int, j: int| #[trigger]
        waits_for_at(parked, i, j) && parked[i].thread == a && parked[j].thread == b
}

/// Whether the thread at `i` waits for the next one in the cycle.
pub open spec fn waits_for_next(parked: Seq<ThreadData>, cycle: Seq<usize>, i: int) -> bool {
    waits_for(parked, cycle[i], cycle[next_in(cycle, i)])
}

/// Whether each thread of the cycle waits for the next one, and the last one for the first.
pub open spec fn is_deadlock(parked: Seq<ThreadData>, cycle: Seq<usize>) -> bool {
    &&& cycle.len() > 0
    &&& forall|i: int| 0 <= i < cycle.len() ==> #[trigger] waits_for_next(parked, cycle, i)
}

/// Whether `visits` are the events of a search of the graph of some parked threads, from all of
/// them on.
pub open spec fn is_check(parked: Seq<ThreadData>, visits: Seq<Visit>) -> bool {
    let edges = with_queue(seq![], parked, RESOURCE);
    is_search(edges, thread_nodes(nodes_of(edges)), visits)
}

/// Whether an edge says what a parked thread waits for, or what it owns.
spec fn stems_from(t: ThreadData, kind: u8, edge: (Node, Node)) -> bool {
    !t.parked_with_timeout && !t.deadlock_data.deadlocked && (edge == ((THREAD, t.thread), (kind, t.key)) || owned_by(t, kind, edge))
}

/// Whether an edge says what a thread owns.
spec fn owned_by(t: ThreadData, kind: u8, edge: (Node, Node)) -> bool {
    edge.0.0 == kind && edge.1 == (THREAD, t.thread) && t.deadlock_data.resources@.contains(
        edge.0.1,
    )
}

/// Whether an edge stems from one of the parked threads.
spec fn is_wait_edge(parked: Seq<ThreadData>, kind: u8, edge: (Node, Node)) -> bool {
    exists|i: int| 0 <= i < parked.len() && stems_from(#[trigger] parked[i], kind, edge)
}

proof fn lemma_with_edge(edges: Seq<(Node, Node)>, edge: (Node, Node), x: (Node, Node))
    ensures
        with_edge(edges, edge).contains(x) <==> edges.contains(x) || x == edge,
{
    if !edges.contains(edge) {
        let more = edges.push(edge);
        if edges.contains(x) {
            let i = choose|i: int| 0 <= i < edges.len() && edges[i] == x;
            assert(more[i] == x);
        }
        assert(more[edges.len() as int] == edge);
        if more.contains(x) && x != edge {
            let i = choose|i: int| 0 <= i < more.len() && more[i] == x;
            assert(edges[i] == x);
        }
    }
}

proof fn lemma_with_resources(
    edges: Seq<(Node, Node)>,
    t: ThreadData,
    kind: u8,
    n: int,
    x: (Node, Node),
)
    requires
        0 <= n <= t.deadlock_data.resources@.len(),
    ensures
        with_resources(edges, t, kind, n).contains(x) <==> edges.contains(x) || (x.0.0 == kind
            && x.1 == (THREAD, t.thread) && t.deadlock_data.resources@.take(n).contains(x.0.1)),
    decreases n,
{
    let owned = t.deadlock_data.resources@;
    if n > 0 {
        let edge = ((kind, owned[n - 1]), (THREAD, t.thread));
        lemma_with_resources(edges, t, kind, n - 1, x);
        lemma_with_edge(with_resources(edges, t, kind, n - 1), edge, x);
        let fewer = owned.take(n - 1);
        let more = owned.take(n);
        assert(more =~= fewer.push(owned[n - 1]));
        if fewer.contains(x.0.1) {
            let i = choose|i: int| 0 <= i < fewer.len() && fewer[i] == x.0.1;
            assert(more[i] == x.0.1);
        }
        assert(more[n - 1] == owned[n - 1]);
        if more.contains(x.0.1) && x.0.1 != owned[n - 1] {
            let i = choose|i: int| 0 <= i < more.len() && more[i] == x.0.1;
            assert(fewer[i] == x.0.1);
        }
    }
}

/// The edges of the graph are those that stem from the parked threads.
proof fn lemma_edges(parked: Seq<ThreadData>, kind: u8, x: (Node, Node))
    ensures
        with_queue(seq![], parked, kind).contains(x) <==> is_wait_edge(parked, kind, x),
    decreases parked.len(),
{
    if parked.len() > 0 {
        let before = parked.drop_last();
        let t = parked.last();
        let edges = with_queue(seq![], before, kind);
        lemma_edges(before, kind, x);
        let n = t.deadlock_data.resources@.len() as int;
        assert(t.deadlock_data.resources@.take(n) =~= t.deadlock_data.resources@);
        lemma_with_resources(edges, t, kind, n, x);
        lemma_with_edge(
            with_resources(edges, t, kind, n),
            ((THREAD, t.thread), (kind, t.key)),
            x,
        );
        if is_wait_edge(before, kind, x) {
            let i = choose|i: int|
                0 <= i < before.len() && stems_from(#[trigger] before[i], kind, x);
            assert(stems_from(parked[i], kind, x));
        }
        if stems_from(t, kind, x) {
            assert(stems_from(parked[parked.len() - 1], kind, x));
        }
        if is_wait_edge(parked, kind, x) && !stems_from(t, kind, x) {
            let i = choose|i: int|
                0 <= i < parked.len() && stems_from(#[trigger] parked[i], kind, x);
            assert(stems_from(before[i], kind, x));
        }
    }
}

/// The graph of parked threads joins threads and resources.
proof fn lemma_graph_joins(parked: Seq<ThreadData>)
    ensures
        joins(with_queue(seq![], parked, RESOURCE)),
{
    let edges = with_queue(seq![], parked, RESOURCE);
    assert forall|edge: (Node, Node)| #[trigger] edges.contains(edge) implies (edge.0.0 == THREAD
        && edge.1.0 == RESOURCE) || (edge.0.0 == RESOURCE && edge.1.0 == THREAD) by {
        lemma_edges(parked, RESOURCE, edge);
    }
}

/// A resource leads from thread to thread where one waits for the other.
proof fn lemma_links(parked: Seq<ThreadData>, kind: u8, a: usize, b: usize)
    ensures
        waits_for(parked, a, b) ==> links(with_queue(seq![], parked, kind), kind, a, b),
        kind == RESOURCE && links(with_queue(seq![], parked, kind), kind, a, b) ==> waits_for(
            parked,
            a,
            b,
        ),
{
    let edges = with_queue(seq![], parked, kind);
    if waits_for(parked, a, b) {
        let (i, j) = choose|i: int, j: int| #[trigger]
            waits_for_at(parked, i, j) && parked[i].thread == a && parked[j].thread == b;
        let key = parked[i].key;
        assert(stems_from(parked[i], kind, ((THREAD, a), (kind, key))));
        assert(stems_from(parked[j], kind, ((kind, key), (THREAD, b))));
        lemma_edges(parked, kind, ((THREAD, a), (kind, key)));
        lemma_edges(parked, kind, ((kind, key), (THREAD, b)));
        assert(links_by(edges, kind, key, a, b));
    }
    if kind == RESOURCE && links(edges, kind, a, b) {
        let key = choose|key: usize| #[trigger] links_by(edges, kind, key, a, b);
        let out = ((THREAD, a), (kind, key));
        let back = ((kind, key), (THREAD, b));
        lemma_edges(parked, kind, out);
        lemma_edges(parked, kind, back);
        let i = choose|i: int| 0 <= i < parked.len() && stems_from(#[trigger] parked[i], kind, out);
        let j = choose|j: int| 0 <= j < parked.len() && stems_from(#[trigger] parked[j], kind, back);
        assert(waits_for_at(parked, i, j));
    }
}

/// A circle of threads that wait for each other is a cycle of the graph of the parked threads.
proof fn lemma_deadlock_is_cycle(parked: Seq<ThreadData>, kind: u8, cycle: Seq<usize>)
    requires
        is_deadlock(parked, cycle),
    ensures
        is_cycle(with_queue(seq![], parked, kind), kind, cycle),
{
    let edges = with_queue(seq![], parked, kind);
    assert forall|i: int| 0 <= i < cycle.len() implies #[trigger] links_next(
        edges,
        kind,
        cycle,
        i,
    ) by {
        assert(waits_for_next(parked, cycle, i));
        lemma_links(parked, kind, cycle[i], cycle[next_in(cycle, i)]);
    }
}

/// Every cycle that is reported is a deadlock: each of its threads waits for something that the
/// next one owns, the last one for something that the first one owns, and all of them sleep
/// until they are unparked. It names no thread twice, and is reported once.
pub proof fn law_reported_cycles_are_deadlocks(parked: Seq<ThreadData>, visits: Seq<Visit>)
    requires
        is_check(parked, visits),
    ensures
        forall|i: int|
            0 <= i < found_cycles(visits).len() ==> is_deadlock(
                parked,
                #[trigger] found_cycles(visits)[i],
            ),
        forall|i: int|
            0 <= i < found_cycles(visits).len() ==> (
            #[trigger] found_cycles(visits)[i]).no_duplicates(),
        found_cycles(visits).no_duplicates(),
{
    let edges = with_queue(seq![], parked, RESOURCE);
    lemma_graph_joins(parked);
    law_cycles_found(edges, visits);
    assert forall|i: int| 0 <= i < found_cycles(visits).len() implies is_deadlock(
        parked,
        #[trigger] found_cycles(visits)[i],
    ) by {
        let cycle = found_cycles(visits)[i];
        assert(is_proper_cycle(edges, cycle));
        assert forall|k: int| 0 <= k < cycle.len() implies #[trigger] waits_for_next(
            parked,
            cycle,
            k,
        ) by {
            assert(links_next(edges, RESOURCE, cycle, k));
            lemma_links(parked, RESOURCE, cycle[k], cycle[next_in(cycle, k)]);
        }
    }
    assert forall|i: int| 0 <= i < found_cycles(visits).len() implies (
    #[trigger] found_cycles(visits)[i]).no_duplicates() by {
        assert(is_proper_cycle(edges, found_cycles(visits)[i]));
    }
}

/// No deadlock goes unnoticed: where threads wait for each other in a circle, the graph of the
/// parked threads has a cycle, whether it tells threads and resources apart or not.
pub proof fn law_deadlocks_are_noticed(parked: Seq<ThreadData>, cycle: Seq<usize>, kind: u8)
    requires
        is_deadlock(parked, cycle),
    ensures
        has_cycle(with_queue(seq![], parked, kind)),
{
    lemma_deadlock_is_cycle(parked, kind, cycle);
    lemma_cycle_is_walk(with_queue(seq![], parked, kind), kind, cycle);
}

/// Where the graph of the parked threads has a cycle, one is found.
pub proof fn law_found_if_there(parked: Seq<ThreadData>, visits: Seq<Visit>)
    requires
        is_check(parked, visits),
        has_cycle(with_queue(seq![], parked, RESOURCE)),
    ensures
        found_cycles(visits).len() > 0,
{
    lemma_graph_joins(parked);
    law_cycles_found(with_queue(seq![], parked, RESOURCE), visits);
}

/// Every deadlock is met: one of its threads is in a cycle that is found, however many deadlocks
/// there are.
pub proof fn law_every_deadlock_is_met(
    parked: Seq<ThreadData>,
    visits: Seq<Visit>,
    cycle: Seq<usize>,
)
    requires
        is_check(parked, visits),
        is_deadlock(parked, cycle),
    ensures
        exists|k: int| 0 <= k < cycle.len() && is_in(found_cycles(visits), #[trigger] cycle[k]),
{
    let edges = with_queue(seq![], parked, RESOURCE);
    lemma_graph_joins(parked);
    lemma_deadlock_is_cycle(parked, RESOURCE, cycle);
    law_every_cycle_is_met(edges, visits, cycle);
}

/// Whether two of the parked threads own a resource, and both sleep until they are unparked.
pub open spec fn both_own(parked: Seq<ThreadData>, i: int, j: int, key: usize) -> bool {
    &&& 0 <= i < parked.len()
    &&& 0 <= j < parked.len()
    &&& !parked[i].parked_with_timeout
    &&& !parked[i].deadlock_data.deadlocked
    &&& !parked[j].parked_with_timeout
    &&& !parked[j].deadlock_data.deadlocked
    &&& parked[i].deadlock_data.resources@.contains(key)
    &&& parked[j].deadlock_data.resources@.contains(key)
}

/// Whether no resource is owned by two of the parked threads.
pub open spec fn owned_once(parked: Seq<ThreadData>) -> bool {
    forall|i: int, j: int, key: usize| #[trigger] both_own(parked, i, j, key) ==> i == j
}

/// No deadlock goes unreported where each resource has one owner: every circle of threads that
/// wait for each other is among the cycles that are found.
pub proof fn law_every_deadlock_is_reported(
    parked: Seq<ThreadData>,
    visits: Seq<Visit>,
    cycle: Seq<usize>,
)
    requires
        is_check(parked, visits),
        parked_once(parked),
        owned_once(parked),
        is_deadlock(parked, cycle),
        cycle.no_duplicates(),
    ensures
        found_cycles(visits).contains(normalized(cycle)),
{
    let edges = with_queue(seq![], parked, RESOURCE);
    lemma_graph_joins(parked);
    lemma_deadlock_is_cycle(parked, RESOURCE, cycle);
    assert forall|from: Node, a: Node, b: Node|
        #[trigger] edges.contains((from, a)) && #[trigger] edges.contains((from, b)) implies a
        == b by {
        lemma_edges(parked, RESOURCE, (from, a));
        lemma_edges(parked, RESOURCE, (from, b));
        let i = choose|i: int|
            0 <= i < parked.len() && stems_from(#[trigger] parked[i], RESOURCE, (from, a));
        let j = choose|j: int|
            0 <= j < parked.len() && stems_from(#[trigger] parked[j], RESOURCE, (from, b));
        if from.0 == RESOURCE {
            assert(both_own(parked, i, j, from.1));
        }
        assert(i == j);
    }
    law_every_cycle_is_found(edges, visits, cycle);
}

/// Whether the thread at place `from` of the parked threads sleeps until it is unparked, was not
/// reported, and waits on a key that is among the resources of the thread at place `to`.
pub open spec fn sleeps_for(parked: Seq<ThreadData>, from: int, to: int) -> bool {
    &&& 0 <= from < parked.len()
    &&& !parked[from].parked_with_timeout
    &&& !parked[from].deadlock_data.deadlocked
    &&& exists|r: int|
        0 <= r < parked[to].deadlock_data.resources@.len()
            && #[trigger] parked[to].deadlock_data.resources@[r] == parked[from].key
}

/// Whoever sleeps in a circle is told of: where each of some parked threads, none of them with a
/// timeout and none of them reported before, waits on a key that the next one owns among
/// whatever else it owns, and the last one on a key that the first one owns, one of them is in a
/// cycle that a check finds.
///
/// The threads are given by their places among all that are parked.
pub proof fn law_circles_are_told_of(parked: Seq<ThreadData>, visits: Seq<Visit>, circle: Seq<int>)
    requires
        is_check(parked, visits),
        circle.len() > 0,
        forall|i: int|
            0 <= i < circle.len() - 1 ==> sleeps_for(parked, #[trigger] circle[i], circle[i + 1]),
        sleeps_for(parked, circle.last(), circle.first()),
    ensures
        exists|i: int, c: int|
            0 <= i < circle.len() && 0 <= c < found_cycles(visits).len()
                && #[trigger] found_cycles(visits)[c].contains(parked[#[trigger] circle[i]].thread),
{
    let cycle = Seq::new(circle.len(), |i: int| parked[circle[i]].thread);
    assert forall|i: int| 0 <= i < cycle.len() implies #[trigger] waits_for_next(
        parked,
        cycle,
        i,
    ) by {
        let next = next_in(cycle, i);
        assert(sleeps_for(parked, circle[i], circle[next])) by {
            if i + 1 == circle.len() {
                assert(circle[i] == circle.last());
            }
        }
        assert(sleeps_for(parked, circle[next], circle[next_in(cycle, next)])) by {
            if next + 1 == circle.len() {
                assert(circle[next] == circle.last());
            }
        }
        assert(waits_for_at(parked, circle[i], circle[next]));
    }
    assert(is_deadlock(parked, cycle));
    law_every_deadlock_is_met(parked, visits, cycle);
    let k = choose|k: int|
        0 <= k < cycle.len() && is_in(found_cycles(visits), #[trigger] cycle[k]);
    let c = choose|c: int|
        0 <= c < found_cycles(visits).len() && (#[trigger] found_cycles(visits)[c]).contains(
            cycle[k],
        );
    assert(found_cycles(visits)[c].contains(parked[circle[k]].thread));
}

/// What a check reports of the parked threads: cycles of which each is a circle of threads that
/// wait for each other, and where there is such a circle, of any length, a cycle with one of them.
/// If no resource has two owners, it is that circle itself.
pub proof fn law_check_reports_circles(parked: Seq<ThreadData>, circle: Seq<usize>)
    requires
        ({
            let edges = with_queue(seq![], parked, RESOURCE);
            is_check(parked, search_events(edges, thread_nodes(nodes_of(edges))))
        }),
    ensures
        ({
            let reported = cycles_in(with_queue(seq![], parked, RESOURCE));
            &&& forall|i: int|
                0 <= i < reported.len() ==> is_deadlock(parked, #[trigger] reported[i])
                    && reported[i].no_duplicates()
            &&& reported.no_duplicates()
            &&& is_deadlock(parked, circle) ==> exists|k: int|
                0 <= k < circle.len() && is_in(reported, #[trigger] circle[k])
            &&& is_deadlock(parked, circle) && circle.no_duplicates() && parked_once(parked)
                && owned_once(parked) ==> reported.contains(normalized(circle))
        }),
{
    let edges = with_queue(seq![], parked, RESOURCE);
    let visits = search_events(edges, thread_nodes(nodes_of(edges)));
    law_reported_cycles_are_deadlocks(parked, visits);
    if is_deadlock(parked, circle) {
        law_every_deadlock_is_met(parked, visits, circle);
        if circle.no_duplicates() && parked_once(parked) && owned_once(parked) {
            law_every_deadlock_is_reported(parked, visits, circle);
        }
    }
}

/// What the graph of parked threads is: there is an edge from a thread to a resource exactly if
/// it waits on that key, and one from a resource to a thread exactly if the thread owns it,
/// whatever else it owns. A parked thread takes part exactly if it has no timeout and was not
/// reported before.
pub proof fn law_who_takes_part(parked: Seq<ThreadData>, thread: usize, key: usize)
    ensures
        with_queue(seq![], parked, RESOURCE).contains(((THREAD, thread), (RESOURCE, key)))
            <==> exists|i: int|
            0 <= i < parked.len() && (#[trigger] parked[i]).thread == thread && parked[i].key == key
                && !parked[i].parked_with_timeout && !parked[i].deadlock_data.deadlocked,
        with_queue(seq![], parked, RESOURCE).contains(((RESOURCE, key), (THREAD, thread)))
            <==> exists|i: int|
            0 <= i < parked.len() && (#[trigger] parked[i]).thread == thread
                && parked[i].deadlock_data.resources@.contains(key)
                && !parked[i].parked_with_timeout && !parked[i].deadlock_data.deadlocked,
{
    let out = ((THREAD, thread), (RESOURCE, key));
    let back = ((RESOURCE, key), (THREAD, thread));
    lemma_edges(parked, RESOURCE, out);
    lemma_edges(parked, RESOURCE, back);
    if is_wait_edge(parked, RESOURCE, out) {
        let i = choose|i: int|
            0 <= i < parked.len() && stems_from(#[trigger] parked[i], RESOURCE, out);
        assert(parked[i].thread == thread && parked[i].key == key);
    }
    if is_wait_edge(parked, RESOURCE, back) {
        let i = choose|i: int|
            0 <= i < parked.len() && stems_from(#[trigger] parked[i], RESOURCE, back);
        assert(parked[i].thread == thread);
    }
    if exists|i: int|
        0 <= i < parked.len() && (#[trigger] parked[i]).thread == thread && parked[i].key == key
            && !parked[i].parked_with_timeout && !parked[i].deadlock_data.deadlocked {
        let i = choose|i: int|
            0 <= i < parked.len() && (#[trigger] parked[i]).thread == thread && parked[i].key == key
                && !parked[i].parked_with_timeout && !parked[i].deadlock_data.deadlocked;
        assert(stems_from(parked[i], RESOURCE, out));
    }
    if exists|i: int|
        0 <= i < parked.len() && (#[trigger] parked[i]).thread == thread
            && parked[i].deadlock_data.resources@.contains(key) && !parked[i].parked_with_timeout
            && !parked[i].deadlock_data.deadlocked {
        let i = choose|i: int|
            0 <= i < parked.len() && (#[trigger] parked[i]).thread == thread
                && parked[i].deadlock_data.resources@.contains(key)
                && !parked[i].parked_with_timeout && !parked[i].deadlock_data.deadlocked;
        assert(stems_from(parked[i], RESOURCE, back));
    }
}

/// Nothing is reported exactly if no threads wait for each other in a circle.
pub proof fn law_reports_iff_deadlocked(parked: Seq<ThreadData>, visits: Seq<Visit>)
    requires
        is_check(parked, visits),
    ensures
        found_cycles(visits).len() > 0 <==> exists|cycle: Seq<usize>| #[trigger]
            is_deadlock(parked, cycle),
{
    if found_cycles(visits).len() > 0 {
        law_reported_cycles_are_deadlocks(parked, visits);
        assert(is_deadlock(parked, found_cycles(visits)[0]));
    }
    if exists|cycle: Seq<usize>| #[trigger] is_deadlock(parked, cycle) {
        let cycle = choose|cycle: Seq<usize>| #[trigger] is_deadlock(parked, cycle);
        law_deadlocks_are_noticed(parked, cycle, RESOURCE);
        law_found_if_there(parked, visits);
    }
}

/// Marking the threads of some cycles leaves no entry of them without the note that they were
/// reported, and changes nothing else.
pub proof fn law_marking_marks(parked: Seq<ThreadData>, cycles: Seq<Seq<usize>>, thread: usize)
    ensures
        is_in(cycles, thread) ==> is_marked(marked(parked, cycles), thread),
        marked(parked, cycles).len() == parked.len(),
        forall|i: int|
            0 <= i < parked.len() && !is_in(cycles, (#[trigger] parked[i]).thread) ==> marked(
                parked,
                cycles,
            )[i] == parked[i],
{
}

/// No cycle is reported by two checks: when all threads of the cycles of an earlier one bear the
/// note that they were reported, as they do since they were marked, none of them is in a cycle
/// that a later one finds, so that no cycle is found again.
pub proof fn law_no_cycle_reported_twice(
    cycles: Seq<Seq<usize>>,
    later: Seq<ThreadData>,
    visits: Seq<Visit>,
)
    requires
        forall|thread: usize| #[trigger] is_in(cycles, thread) ==> is_marked(later, thread),
        is_check(later, visits),
    ensures
        forall|i: int, thread: usize|
            0 <= i < found_cycles(visits).len() && #[trigger] is_in(cycles, thread) ==> !(
            #[trigger] found_cycles(visits)[i]).contains(thread),
        forall|i: int|
            0 <= i < found_cycles(visits).len() ==> !cycles.contains(
                #[trigger] found_cycles(visits)[i],
            ),
{
    assert forall|i: int, thread: usize|
        0 <= i < found_cycles(visits).len() && #[trigger] is_in(cycles, thread) implies !(
    #[trigger] found_cycles(visits)[i]).contains(thread) by {
        law_reported_once(later, visits, thread);
    }
    law_reported_cycles_are_deadlocks(later, visits);
    assert forall|i: int| 0 <= i < found_cycles(visits).len() implies !cycles.contains(
        #[trigger] found_cycles(visits)[i],
    ) by {
        let cycle = found_cycles(visits)[i];
        assert(is_deadlock(later, cycle));
        let thread = cycle[0];
        if cycles.contains(cycle) {
            let k = choose|k: int| 0 <= k < cycles.len() && cycles[k] == cycle;
            assert(cycles[k].contains(thread));
            assert(is_in(cycles, thread));
        }
    }
}

/// A thread whose entries all bear the note that it was reported is in no cycle that is found.
pub proof fn law_reported_once(parked: Seq<ThreadData>, visits: Seq<Visit>, thread: usize)
    requires
        is_check(parked, visits),
        is_marked(parked, thread),
    ensures
        forall|i: int|
            0 <= i < found_cycles(visits).len() ==> !(
            #[trigger] found_cycles(visits)[i]).contains(thread),
{
    law_reported_cycles_are_deadlocks(parked, visits);
    assert forall|i: int| 0 <= i < found_cycles(visits).len() implies !(
    #[trigger] found_cycles(visits)[i]).contains(thread) by {
        let cycle = found_cycles(visits)[i];
        assert(is_deadlock(parked, cycle));
        if cycle.contains(thread) {
            let k = choose|k: int| 0 <= k < cycle.len() && cycle[k] == thread;
            assert(waits_for_next(parked, cycle, k));
            let (a, b) = choose|a: int, b: int| #[trigger]
                waits_for_at(parked, a, b) && parked[a].thread == cycle[k] && parked[b].thread
                    == cycle[next_in(cycle, k)];
            assert(!parked[a].deadlock_data.deadlocked);
        }
    }
}

/// A graph gathered bucket by bucket is the graph of all threads parked in the buckets.
pub proof fn law_buckets_add_up(
    edges: Seq<(Node, Node)>,
    a: Seq<ThreadData>,
    b: Seq<ThreadData>,
    kind: u8,
)
    ensures
        with_queue(with_queue(edges, a, kind), b, kind) == with_queue(edges, a + b, kind),
    decreases b.len(),
{
    if b.len() == 0 {
        assert(a + b =~= a);
    } else {
        law_buckets_add_up(edges, a, b.drop_last(), kind);
        assert((a + b).drop_last() =~= a + b.drop_last());
    }
}

} // verus!
