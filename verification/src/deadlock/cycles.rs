//! Cycles of threads, as a depth-first search of the wait graph comes across them.

use vstd::prelude::*;

verus! {

/// Where the smallest of the first `n` members stands; the first of several.
pub open spec fn min_position(cycle: Seq<usize>, n: int) -> int
    decreases n,
{
    if n <= 1 {
        0
    } else {
        let p = min_position(cycle, n - 1);
        if cycle[n - 1] < cycle[p] {
            n - 1
        } else {
            p
        }
    }
}

/// The cycle as seen from the member at `start`.
pub open spec fn rotated(cycle: Seq<usize>, start: int) -> Seq<usize> {
    cycle.skip(start) + cycle.take(start)
}

/// The cycle as seen from its smallest member.
pub open spec fn normalized(cycle: Seq<usize>) -> Seq<usize> {
    rotated(cycle, min_position(cycle, cycle.len() as int))
}

/// The smallest member stands among those looked at, and none before it is as small.
pub proof fn lemma_min_position(cycle: Seq<usize>, n: int)
    requires
        1 <= n <= cycle.len(),
    ensures
        0 <= min_position(cycle, n) < n,
        forall|i: int| 0 <= i < n ==> cycle[min_position(cycle, n)] <= #[trigger] cycle[i],
        forall|i: int|
            0 <= i < min_position(cycle, n) ==> cycle[min_position(cycle, n)] < #[trigger] cycle[i],
    decreases n,
{
    if n > 1 {
        lemma_min_position(cycle, n - 1);
    }
}

/// Normalize a cycle to start with the "smallest" node.
pub fn normalize_cycle(input: &[usize]) -> (r: Vec<usize>)
    ensures
        r@ == normalized(input@),
{
    let mut min_pos: usize = 0;
    let mut i: usize = 1;
    while i < input.len()
        invariant
            1 <= i,
            input@.len() > 0 ==> i <= input@.len() && min_pos < i && min_pos == min_position(
                input@,
                i as int,
            ),
            input@.len() == 0 ==> min_pos == 0 && i == 1,
        decreases input@.len() - i,
    {
        if input[i] < input[min_pos] {
            min_pos = i;
        }
        i += 1;
    }
    let mut result: Vec<usize> = Vec::new();
    let mut k: usize = min_pos;
    while k < input.len()
        invariant
            min_pos <= k <= input@.len(),
            result@ == input@.subrange(min_pos as int, k as int),
        decreases input@.len() - k,
    {
        result.push(input[k]);
        k += 1;
        assert(result@ =~= input@.subrange(min_pos as int, k as int));
    }
    let mut k: usize = 0;
    while k < min_pos
        invariant
            k <= min_pos <= input@.len(),
            result@ == input@.skip(min_pos as int) + input@.take(k as int),
        decreases min_pos - k,
    {
        result.push(input[k]);
        k += 1;
        assert(result@ =~= input@.skip(min_pos as int) + input@.take(k as int));
    }
    result
}

/// A normalized cycle starts with its smallest member.
pub proof fn law_normalized_starts_smallest(cycle: Seq<usize>)
    requires
        cycle.len() > 0,
    ensures
        normalized(cycle).len() == cycle.len(),
        forall|i: int|
            0 <= i < cycle.len() ==> normalized(cycle)[0] <= #[trigger] normalized(cycle)[i],
{
    lemma_min_position(cycle, cycle.len() as int);
    let p = min_position(cycle, cycle.len() as int);
    assert forall|i: int| 0 <= i < cycle.len() implies normalized(cycle)[0]
        <= #[trigger] normalized(cycle)[i] by {
        let j = if i < cycle.len() - p { p + i } else { i - (cycle.len() - p) };
        assert(normalized(cycle)[i] == cycle[j]);
        assert(normalized(cycle)[0] == cycle[p]);
    }
}

/// A cycle looks the same once it is normalized, wherever it was entered.
pub proof fn law_normalized_wherever_entered(cycle: Seq<usize>, start: int)
    requires
        cycle.no_duplicates(),
        0 <= start < cycle.len(),
    ensures
        normalized(rotated(cycle, start)) == normalized(cycle),
{
    let n = cycle.len() as int;
    let turned = rotated(cycle, start);
    let p = min_position(cycle, n);
    let q = min_position(turned, n);
    lemma_min_position(cycle, n);
    lemma_min_position(turned, n);
    let expected = if start <= p { p - start } else { p + n - start };
    assert(turned[expected] == cycle[p]);
    let back = if q < n - start { start + q } else { q - (n - start) };
    assert(turned[q] == cycle[back]);
    assert(cycle[back] <= cycle[p]) by {
        assert(turned[q] <= turned[expected]);
    }
    assert(back == p);
    assert(q == expected);
    assert(normalized(turned) =~= normalized(cycle));
}

/// A node of the wait graph: its kind, and the thread or the key.
pub type Node = (u8, usize);

/// The kind of a node that stands for a thread.
pub const THREAD: u8 = 0;

/// The kind of a node that stands for a resource.
pub const RESOURCE: u8 = 1;

/// An event of a depth-first search.
#[derive(Copy, Clone, Debug)]
pub enum Visit {
    /// A node is visited for the first time.
    Discover(Node),
    /// An edge of the tree formed by the traversal.
    TreeEdge(Node, Node),
    /// An edge to a node whose visit has not come to its end yet.
    BackEdge(Node, Node),
    /// A cross or forward edge.
    CrossForwardEdge(Node, Node),
    /// All edges from a node have been reported.
    Finish(Node),
}

/// The nodes whose visits have begun and not come to their ends, in the order in which they were
/// discovered.
pub open spec fn node_path(visits: Seq<Visit>) -> Seq<Node>
    decreases visits.len(),
{
    if visits.len() == 0 {
        seq![]
    } else {
        let path = node_path(visits.drop_last());
        match visits.last() {
            Visit::Discover(node) => path.push(node),
            Visit::Finish(_) => if path.len() > 0 {
                path.drop_last()
            } else {
                path
            },
            _ => path,
        }
    }
}

/// The threads among the nodes of a path.
pub open spec fn threads_on(path: Seq<Node>) -> Seq<usize>
    decreases path.len(),
{
    if path.len() == 0 {
        seq![]
    } else if path.last().0 == THREAD {
        threads_on(path.drop_last()).push(path.last().1)
    } else {
        threads_on(path.drop_last())
    }
}

/// Where a node occurs last among the first `n` of a path; -1 if it does not occur.
pub open spec fn node_position(path: Seq<Node>, node: Node, n: int) -> int
    decreases n,
{
    if n <= 0 {
        -1
    } else if path[n - 1] == node {
        n - 1
    } else {
        node_position(path, node, n - 1)
    }
}

/// The position of a node is one where it occurs, and there is one unless it occurs nowhere.
pub proof fn lemma_node_position(path: Seq<Node>, node: Node, n: int)
    requires
        0 <= n <= path.len(),
    ensures
        ({
            let p = node_position(path, node, n);
            &&& -1 <= p < n
            &&& p >= 0 ==> path[p] == node
            &&& forall|j: int| p < j < n ==> path[j] != node
        }),
    decreases n,
{
    if n > 0 && path[n - 1] != node {
        lemma_node_position(path, node, n - 1);
    }
}

/// The cycle that an edge back to `node` closes: the threads on the path from that node on.
pub open spec fn closed_cycle(path: Seq<Node>, node: Node) -> Seq<usize> {
    normalized(threads_on(path.skip(node_position(path, node, path.len() as int))))
}

/// The cycles of threads that a search comes across, each of them once.
pub open spec fn found_cycles(visits: Seq<Visit>) -> Seq<Seq<usize>>
    decreases visits.len(),
{
    if visits.len() == 0 {
        seq![]
    } else {
        let cycles = found_cycles(visits.drop_last());
        match visits.last() {
            Visit::BackEdge(_, node) => {
                let cycle = closed_cycle(node_path(visits.drop_last()), node);
                if cycles.contains(cycle) {
                    cycles
                } else {
                    cycles.push(cycle)
                }
            },
            _ => cycles,
        }
    }
}

/// Whether every edge back leads to a node on the path.
pub open spec fn leads_back(visits: Seq<Visit>) -> bool {
    forall|i: int|
        0 <= i < visits.len() ==> match #[trigger] visits[i] {
            Visit::BackEdge(_, node) => node_path(visits.take(i)).contains(node),
            _ => true,
        }
}

/// The contents of vectors in a vector.
pub open spec fn contents(vectors: Seq<Vec<usize>>) -> Seq<Seq<usize>> {
    vectors.map_values(|v: Vec<usize>| v@)
}

/// Whether a thread is in one of some cycles.
pub open spec fn is_in(cycles: Seq<Seq<usize>>, thread: usize) -> bool {
    exists|i: int| 0 <= i < cycles.len() && (#[trigger] cycles[i]).contains(thread)
}

/// Whether a thread is in one of some cycles.
pub fn is_in_cycles(cycles: &Vec<Vec<usize>>, thread: usize) -> (r: bool)
    ensures
        r == is_in(contents(cycles@), thread),
{
    let mut i: usize = 0;
    while i < cycles.len()
        invariant
            i <= cycles@.len(),
            forall|j: int| 0 <= j < i ==> !(#[trigger] contents(cycles@)[j]).contains(thread),
        decreases cycles@.len() - i,
    {
        assert(contents(cycles@)[i as int] == cycles@[i as int]@);
        let mut k: usize = 0;
        while k < cycles[i].len()
            invariant
                i < cycles@.len(),
                k <= cycles@[i as int]@.len(),
                contents(cycles@)[i as int] == cycles@[i as int]@,
                forall|j: int| 0 <= j < k ==> cycles@[i as int]@[j] != thread,
            decreases cycles@[i as int]@.len() - k,
        {
            if cycles[i][k] == thread {
                assert(contents(cycles@)[i as int].contains(thread));
                return true;
            }
            k += 1;
        }
        i += 1;
    }
    false
}

/// Whether two vectors hold the same.
fn same(a: &Vec<usize>, b: &Vec<usize>) -> (r: bool)
    ensures
        r == (a@ == b@),
{
    if a.len() != b.len() {
        return false;
    }
    let mut i: usize = 0;
    while i < a.len()
        invariant
            i <= a@.len(),
            a@.len() == b@.len(),
            forall|j: int| 0 <= j < i ==> a@[j] == b@[j],
        decreases a@.len() - i,
    {
        if a[i] != b[i] {
            return false;
        }
        i += 1;
    }
    assert(a@ =~= b@);
    true
}

/// Whether a cycle is among those found already.
fn is_known(cycles: &Vec<Vec<usize>>, cycle: &Vec<usize>) -> (r: bool)
    ensures
        r == contents(cycles@).contains(cycle@),
{
    let mut i: usize = 0;
    while i < cycles.len()
        invariant
            i <= cycles@.len(),
            forall|j: int| 0 <= j < i ==> contents(cycles@)[j] != cycle@,
        decreases cycles@.len() - i,
    {
        if same(&cycles[i], cycle) {
            assert(contents(cycles@)[i as int] == cycle@);
            return true;
        }
        assert(contents(cycles@)[i as int] == cycles@[i as int]@);
        i += 1;
    }
    false
}

/// The threads on a path from the given place on.
fn threads_from(path: &Vec<Node>, from: usize) -> (r: Vec<usize>)
    requires
        from <= path@.len(),
    ensures
        r@ == threads_on(path@.skip(from as int)),
{
    let mut threads: Vec<usize> = Vec::new();
    let mut i: usize = from;
    let ghost rest = path@.skip(from as int);
    assert(rest.take(0) =~= Seq::empty());
    while i < path.len()
        invariant
            from <= i <= path@.len(),
            rest == path@.skip(from as int),
            threads@ == threads_on(rest.take(i - from)),
        decreases path@.len() - i,
    {
        assert(rest.take(i + 1 - from).drop_last() =~= rest.take(i - from));
        assert(rest.take(i + 1 - from).last() == path@[i as int]);
        if path[i].0 == THREAD {
            threads.push(path[i].1);
        }
        i += 1;
    }
    assert(rest.take(i - from) =~= rest);
    threads
}

/// The cycles of threads that a depth-first search came across.
pub fn thread_cycles(visits: &Vec<Visit>) -> (r: Vec<Vec<usize>>)
    requires
        leads_back(visits@),
    ensures
        contents(r@) == found_cycles(visits@),
{
    let mut cycles: Vec<Vec<usize>> = Vec::new();
    let mut path: Vec<Node> = Vec::new();
    let mut i: usize = 0;
    proof {
        assert(visits@.take(0) =~= Seq::empty());
        assert(contents(cycles@) =~= Seq::empty());
    }
    while i < visits.len()
        invariant
            i <= visits@.len(),
            leads_back(visits@),
            path@ == node_path(visits@.take(i as int)),
            contents(cycles@) == found_cycles(visits@.take(i as int)),
        decreases visits@.len() - i,
    {
        assert(visits@.take(i + 1).drop_last() =~= visits@.take(i as int));
        match visits[i] {
            Visit::Discover(node) => {
                path.push(node);
            },
            Visit::Finish(_) => {
                path.pop();
            },
            Visit::BackEdge(_, node) => {
                proof {
                    lemma_node_position(path@, node, path@.len() as int);
                    assert(visits@[i as int] is BackEdge);
                    assert(path@.contains(node));
                }
                let ghost at = node_position(path@, node, path@.len() as int);
                let mut from: usize = path.len() - 1;
                while path[from].0 != node.0 || path[from].1 != node.1
                    invariant
                        0 <= at <= from < path@.len(),
                        path@[at] == node,
                        forall|j: int| at < j < path@.len() ==> path@[j] != node,
                    decreases from,
                {
                    from -= 1;
                }
                let threads = threads_from(&path, from);
                let cycle = normalize_cycle(threads.as_slice());
                let ghost before = cycles@;
                if !is_known(&cycles, &cycle) {
                    cycles.push(cycle);
                    assert(contents(cycles@) =~= contents(before).push(cycle@));
                }
            },
            _ => {},
        }
        i += 1;
    }
    assert(visits@.take(i as int) =~= visits@);
    cycles
}

/// A normalized cycle is the same cycle, entered elsewhere: at the first of its smallest members,
/// the place of which is returned, and from there on in the same order all around.
pub proof fn law_normalized_goes_round(cycle: Seq<usize>) -> (start: int)
    requires
        cycle.len() > 0,
    ensures
        0 <= start < cycle.len(),
        forall|i: int| 0 <= i < start ==> cycle[start] < #[trigger] cycle[i],
        forall|i: int| 0 <= i < cycle.len() ==> cycle[start] <= #[trigger] cycle[i],
        normalized(cycle).len() == cycle.len(),
        forall|i: int|
            0 <= i < cycle.len() ==> #[trigger] normalized(cycle)[i] == cycle[if i + start
                < cycle.len() {
                i + start
            } else {
                i + start - cycle.len()
            }],
{
    lemma_min_position(cycle, cycle.len() as int);
    min_position(cycle, cycle.len() as int)
}

} // verus!
