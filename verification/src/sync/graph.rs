//! Cycle detection over the dependency graph of the intermediate representation.
use vstd::prelude::*;

verus! {

/// `v` is one of the successors of node `u`.
pub open spec fn is_edge(adj: Seq<Seq<usize>>, u: int, v: int) -> bool {
    &&& 0 <= u < adj.len()
    &&& exists|e: int| 0 <= e < adj[u].len() && adj[u][e] as int == v
}

/// `p` is a non-empty walk along edges of the graph.
pub open spec fn is_path(adj: Seq<Seq<usize>>, p: Seq<int>) -> bool {
    &&& p.len() >= 1
    &&& forall|k: int| 0 <= k < p.len() - 1 ==> #[trigger] is_edge(adj, p[k], p[k + 1])
}

/// A closed walk of at least one edge through `x`.
pub open spec fn is_cycle_through(adj: Seq<Seq<usize>>, p: Seq<int>, x: int) -> bool {
    &&& p.len() >= 2
    &&& p[0] == x
    &&& p[p.len() - 1] == x
    &&& is_path(adj, p)
}

/// Node `x` lies on some cycle of the graph.
pub open spec fn on_cycle(adj: Seq<Seq<usize>>, x: int) -> bool {
    exists|p: Seq<int>| is_cycle_through(adj, p, x)
}

/// Every successor index names a node of the graph.
pub open spec fn graph_wf(adj: Seq<Seq<usize>>) -> bool {
    forall|u: int, e: int| 0 <= u < adj.len() && 0 <= e < adj[u].len() ==> (#[trigger] adj[u][e]) < adj.len()
}

/// The graph as sequences of successors.
pub open spec fn graph_of(adj: Seq<Vec<usize>>) -> Seq<Seq<usize>> {
    adj.map_values(|v: Vec<usize>| v@)
}

proof fn lemma_walk_concat(adj: Seq<Seq<usize>>, a: Seq<int>, b: Seq<int>)
    requires
        is_path(adj, a),
        is_path(adj, b),
        is_edge(adj, a[a.len() - 1], b[0]),
    ensures
        is_path(adj, a + b),
{
    let c = a + b;
    assert forall|k: int| 0 <= k < c.len() - 1 implies #[trigger] is_edge(adj, c[k], c[k + 1]) by {
        if k < a.len() - 1 {
            assert(c[k] == a[k] && c[k + 1] == a[k + 1]);
        } else if k == a.len() - 1 {
            assert(c[k] == a[a.len() - 1] && c[k + 1] == b[0]);
        } else {
            assert(c[k] == b[k - a.len()] && c[k + 1] == b[k - a.len() + 1]);
        }
    }
}

/// A walk whose last node has an edge back to its node at position `p` closes a cycle
/// through every node from position `p` on.
proof fn lemma_walk_back_cycle(adj: Seq<Seq<usize>>, nodes: Seq<int>, p: int, q: int)
    requires
        0 <= p <= q < nodes.len(),
        forall|k: int| 0 <= k < nodes.len() - 1 ==> #[trigger] is_edge(adj, nodes[k], nodes[k + 1]),
        is_edge(adj, nodes[nodes.len() - 1], nodes[p]),
    ensures
        on_cycle(adj, nodes[q]),
{
    let a = nodes.subrange(q, nodes.len() as int);
    let b = nodes.subrange(p, q + 1);
    assert forall|k: int| 0 <= k < a.len() - 1 implies #[trigger] is_edge(adj, a[k], a[k + 1]) by {
        assert(a[k] == nodes[q + k] && a[k + 1] == nodes[q + k + 1]);
    }
    assert forall|k: int| 0 <= k < b.len() - 1 implies #[trigger] is_edge(adj, b[k], b[k + 1]) by {
        assert(b[k] == nodes[p + k] && b[k + 1] == nodes[p + k + 1]);
    }
    assert(a[a.len() - 1] == nodes[nodes.len() - 1]);
    assert(b[0] == nodes[p]);
    lemma_walk_concat(adj, a, b);
    let c = a + b;
    assert(c[0] == nodes[q]);
    assert(c[c.len() - 1] == b[b.len() - 1]);
    assert(b[b.len() - 1] == nodes[q]);
    assert(is_cycle_through(adj, c, nodes[q]));
}

/// `p` is a walk of at least one edge from `x` to `y`.
pub open spec fn walk_between(adj: Seq<Seq<usize>>, p: Seq<int>, x: int, y: int) -> bool {
    &&& p.len() >= 2
    &&& p[0] == x
    &&& p[p.len() - 1] == y
    &&& is_path(adj, p)
}

/// `y` can be reached from `x` by following at least one edge.
pub open spec fn reaches(adj: Seq<Seq<usize>>, x: int, y: int) -> bool {
    exists|p: Seq<int>| walk_between(adj, p, x, y)
}

/// A walk to `u` extended by an edge out of `u` reaches the edge's target.
proof fn lemma_reach_step(adj: Seq<Seq<usize>>, x: int, u: int, v: int)
    requires
        reaches(adj, x, u) || u == x,
        is_edge(adj, u, v),
    ensures
        reaches(adj, x, v),
{
    if reaches(adj, x, u) {
        let p = choose|p: Seq<int>| walk_between(adj, p, x, u);
        let q = p.push(v);
        assert forall|k: int| 0 <= k < q.len() - 1 implies #[trigger] is_edge(adj, q[k], q[k + 1]) by {
            if k < p.len() - 1 {
                assert(q[k] == p[k] && q[k + 1] == p[k + 1]);
            } else {
                assert(q[k] == u && q[k + 1] == v);
            }
        }
        assert(walk_between(adj, q, x, v));
    } else {
        let q = seq![x, v];
        assert(is_edge(adj, q[0], q[1]));
        assert(walk_between(adj, q, x, v));
    }
}

/// A set of nodes that holds every successor of `x` and every successor of its own
/// members holds the end of every walk that starts at `x`.
proof fn lemma_closed_holds_walk(adj: Seq<Seq<usize>>, seen: Seq<bool>, x: int, p: Seq<int>)
    requires
        seen.len() == adj.len(),
        p.len() >= 2,
        p[0] == x,
        is_path(adj, p),
        forall|e: int| 0 <= e < adj[x].len() ==> #[trigger] seen[adj[x][e] as int],
        forall|y: int, e: int| 0 <= y < adj.len() && seen[y] && 0 <= e < adj[y].len() ==> #[trigger] seen[adj[y][e] as int],
    ensures
        seen[p[p.len() - 1]],
    decreases p.len(),
{
    let k = p.len() - 2;
    assert(is_edge(adj, p[k], p[k + 1]));
    let e = choose|e: int| 0 <= e < adj[p[k]].len() && adj[p[k]][e] as int == p[k + 1];
    if p.len() > 2 {
        let q = p.drop_last();
        assert forall|j: int| 0 <= j < q.len() - 1 implies #[trigger] is_edge(adj, q[j], q[j + 1]) by {
            assert(is_edge(adj, p[j], p[j + 1]));
        }
        lemma_closed_holds_walk(adj, seen, x, q);
        assert(seen[adj[p[k]][e] as int]);
    } else {
        assert(seen[adj[x][e] as int]);
    }
}

/// Whether node `x` lies on a cycle: a search from the successors of `x` that returns
/// whether it comes back to `x`.
fn lies_on_cycle(adj: &Vec<Vec<usize>>, x: usize) -> (r: bool)
    requires
        graph_wf(graph_of(adj@)),
        x < adj.len(),
    ensures
        r == on_cycle(graph_of(adj@), x as int),
{
    let ghost g = graph_of(adj@);
    let n = adj.len();
    let mut seen: Vec<bool> = Vec::new();
    let mut i: usize = 0;
    while i < n
        invariant
            i <= n,
            seen.len() == i,
            forall|y: int| 0 <= y < i ==> !seen@[y],
        decreases n - i,
    {
        seen.push(false);
        i += 1;
    }
    let ghost mut visited: Set<int> = Set::empty();
    let mut stack: Vec<usize> = Vec::new();
    // Seed the search with the successors of `x`.
    assert(adj@[x as int]@ == g[x as int]);
    let mut e: usize = 0;
    while e < adj[x].len()
        invariant
            n == adj.len(),
            g == graph_of(adj@),
            graph_wf(g),
            x < n,
            adj@[x as int]@ == g[x as int],
            e <= g[x as int].len(),
            seen.len() == n,
            visited.finite(),
            forall|y: int| visited.contains(y) <==> 0 <= y < n && seen@[y],
            forall|k: int| 0 <= k < stack.len() ==> (#[trigger] stack@[k]) < n && seen@[stack@[k] as int],
            forall|y: int| 0 <= y < n && #[trigger] seen@[y] ==> reaches(g, x as int, y),
            forall|y: int| 0 <= y < n && #[trigger] seen@[y] ==> stack@.contains(y as usize),
            forall|f: int| 0 <= f < e ==> #[trigger] seen@[g[x as int][f] as int],
        decreases g[x as int].len() - e,
    {
        let v = adj[x][e];
        assert(v == g[x as int][e as int]);
        proof {
            assert(is_edge(g, x as int, v as int));
            lemma_reach_step(g, x as int, x as int, v as int);
        }
        if !seen[v] {
            let ghost before = stack@;
            seen.set(v, true);
            stack.push(v);
            proof {
                visited = visited.insert(v as int);
            }
            assert(stack@[stack.len() - 1] == v);
            assert forall|y: int| 0 <= y < n && #[trigger] seen@[y] implies stack@.contains(y as usize) by {
                if y != v {
                    let k = choose|k: int| 0 <= k < before.len() && before[k] == y as usize;
                    assert(stack@[k] == y as usize);
                } else {
                    assert(stack@[stack.len() - 1] == y as usize);
                }
            }
        }
        e += 1;
    }
    proof {
        vstd::set_lib::lemma_int_range(0, n as int);
        vstd::set_lib::lemma_len_subset(visited, vstd::set_lib::set_int_range(0, n as int));
    }
    // Expand nodes until nothing is pending; a node leaves the stack once all of its
    // successors are seen.
    while stack.len() > 0
        invariant
            n == adj.len(),
            g == graph_of(adj@),
            graph_wf(g),
            x < n,
            seen.len() == n,
            visited.finite(),
            visited.len() <= n,
            forall|y: int| visited.contains(y) <==> 0 <= y < n && seen@[y],
            forall|k: int| 0 <= k < stack.len() ==> (#[trigger] stack@[k]) < n && seen@[stack@[k] as int],
            forall|y: int| 0 <= y < n && #[trigger] seen@[y] ==> reaches(g, x as int, y),
            forall|f: int| 0 <= f < g[x as int].len() ==> #[trigger] seen@[g[x as int][f] as int],
            forall|y: int, f: int|
                0 <= y < n && seen@[y] && !stack@.contains(y as usize) && 0 <= f < g[y].len()
                    ==> #[trigger] seen@[g[y][f] as int],
        decreases n - visited.len(), stack.len(),
    {
        let ghost pre_seen = seen@;
        let ghost vis0 = visited;
        let ghost old_stack = stack@;
        let u = stack.pop().unwrap();
        let ghost rest = stack@;
        assert(old_stack == rest.push(u));
        assert(adj@[u as int]@ == g[u as int]);
        let mut e: usize = 0;
        while e < adj[u].len()
            invariant
                n == adj.len(),
                g == graph_of(adj@),
                graph_wf(g),
                x < n,
                u < n,
                seen@[u as int],
                adj@[u as int]@ == g[u as int],
                e <= g[u as int].len(),
                seen.len() == n,
                pre_seen.len() == n,
                visited.finite(),
                visited.len() <= n,
                forall|y: int| visited.contains(y) <==> 0 <= y < n && seen@[y],
                (visited.len() == vis0.len() && stack@ == rest) || visited.len() > vis0.len(),
                stack.len() >= rest.len(),
                forall|k: int| 0 <= k < rest.len() ==> #[trigger] stack@[k] == rest[k],
                old_stack == rest.push(u),
                forall|k: int| 0 <= k < stack.len() ==> (#[trigger] stack@[k]) < n && seen@[stack@[k] as int],
                forall|y: int| 0 <= y < n && #[trigger] seen@[y] ==> reaches(g, x as int, y),
                forall|f: int| 0 <= f < g[x as int].len() ==> #[trigger] seen@[g[x as int][f] as int],
                forall|f: int| 0 <= f < e ==> #[trigger] seen@[g[u as int][f] as int],
                forall|y: int| 0 <= y < n && pre_seen[y] ==> #[trigger] seen@[y],
                forall|y: int| 0 <= y < n && #[trigger] seen@[y] && !pre_seen[y] ==> stack@.contains(y as usize),
                forall|y: int, f: int|
                    0 <= y < n && pre_seen[y] && !old_stack.contains(y as usize) && 0 <= f < g[y].len()
                        ==> #[trigger] pre_seen[g[y][f] as int],
            decreases g[u as int].len() - e,
        {
            let v = adj[u][e];
            assert(v == g[u as int][e as int]);
            proof {
                assert(is_edge(g, u as int, v as int));
                lemma_reach_step(g, x as int, u as int, v as int);
            }
            if !seen[v] {
                let ghost before = stack@;
                seen.set(v, true);
                stack.push(v);
                proof {
                    assert(!visited.contains(v as int));
                    visited = visited.insert(v as int);
                    assert(visited.subset_of(vstd::set_lib::set_int_range(0, n as int)));
                    vstd::set_lib::lemma_int_range(0, n as int);
                    vstd::set_lib::lemma_len_subset(visited, vstd::set_lib::set_int_range(0, n as int));
                }
                assert(stack@[stack.len() - 1] == v);
                assert forall|y: int| 0 <= y < n && #[trigger] seen@[y] && !pre_seen[y] implies stack@.contains(y as usize) by {
                    if y != v {
                        let k = choose|k: int| 0 <= k < before.len() && before[k] == y as usize;
                        assert(stack@[k] == y as usize);
                    } else {
                        assert(stack@[stack.len() - 1] == y as usize);
                    }
                }
            }
            e += 1;
        }
        assert forall|y: int, f: int|
            0 <= y < n && seen@[y] && !stack@.contains(y as usize) && 0 <= f < g[y].len()
                implies #[trigger] seen@[g[y][f] as int] by {
            if y != u {
                if pre_seen[y] {
                    if old_stack.contains(y as usize) {
                        let k = choose|k: int| 0 <= k < old_stack.len() && old_stack[k] == y as usize;
                        assert(k < rest.len());
                        assert(stack@[k] == y as usize);
                    }
                    assert(pre_seen[g[y][f] as int]);
                }
            }
        }
    }
    let r = seen[x];
    proof {
        if on_cycle(g, x as int) {
            let p = choose|p: Seq<int>| is_cycle_through(g, p, x as int);
            lemma_closed_holds_walk(g, seen@, x as int, p);
        }
        if r {
            let p = choose|p: Seq<int>| walk_between(g, p, x as int, x as int);
            assert(is_cycle_through(g, p, x as int));
        }
    }
    r
}

/// Flags, per node, whether it lies on a cycle of the graph.
pub fn detect_cycles(adj: &Vec<Vec<usize>>) -> (marked: Vec<bool>)
    requires
        graph_wf(graph_of(adj@)),
    ensures
        marked.len() == adj.len(),
        forall|x: int| 0 <= x < adj.len() ==> (#[trigger] marked@[x] <==> on_cycle(graph_of(adj@), x)),
{
    let n = adj.len();
    let mut marked: Vec<bool> = Vec::new();
    let mut x: usize = 0;
    while x < n
        invariant
            n == adj.len(),
            graph_wf(graph_of(adj@)),
            x <= n,
            marked.len() == x,
            forall|y: int| 0 <= y < x ==> (#[trigger] marked@[y] <==> on_cycle(graph_of(adj@), y)),
        decreases n - x,
    {
        let b = lies_on_cycle(adj, x);
        marked.push(b);
        x += 1;
    }
    marked
}

/// Every node of a cycle lies on a cycle of its own: the cycle read from that node on.
pub proof fn lemma_cycle_members_on_cycle(adj: Seq<Seq<usize>>, p: Seq<int>, x: int, k: int)
    requires
        is_cycle_through(adj, p, x),
        0 <= k < p.len(),
    ensures
        on_cycle(adj, p[k]),
{
    let nodes = p.drop_last();
    assert forall|j: int| 0 <= j < nodes.len() - 1 implies #[trigger] is_edge(adj, nodes[j], nodes[j + 1]) by {
        assert(is_edge(adj, p[j], p[j + 1]));
    }
    let last = p.len() - 2;
    assert(is_edge(adj, p[last], p[last + 1]));
    assert(nodes[nodes.len() - 1] == p[last]);
    assert(nodes[0] == p[p.len() - 1]);
    if k < nodes.len() {
        lemma_walk_back_cycle(adj, nodes, 0, k);
        assert(nodes[k] == p[k]);
    } else {
        lemma_walk_back_cycle(adj, nodes, 0, 0);
    }
}

} // verus!
