//! Cycle search by depth-first traversal over a graph whose nodes are
//! numbered `0..n` and given by their successor lists.
use vstd::prelude::*;
use crate::lint::{findings, push_finding, LintLevel, LintWarning};
use crate::text::{concat2, join_strings, join_with, str_eq, string_views};

verus! {

/// Every successor is a node of the graph.
pub open spec fn graph_ok(adj: Seq<Vec<usize>>) -> bool {
    forall|u: int, k: int| 0 <= u < adj.len() && 0 <= k < adj[u]@.len() ==> adj[u]@[k] < adj.len()
}

/// There is an edge from `u` to `v`.
pub open spec fn edge(adj: Seq<Vec<usize>>, u: int, v: int) -> bool {
    0 <= u < adj.len() && adj[u]@.contains(v as usize) && 0 <= v
}

/// `p` follows edges of the graph from its first node to its last.
pub open spec fn is_path(adj: Seq<Vec<usize>>, p: Seq<usize>) -> bool {
    &&& p.len() >= 1
    &&& forall|i: int| 0 <= i < p.len() ==> p[i] < adj.len()
    &&& forall|i: int| 1 <= i < p.len() ==> #[trigger] edge(adj, p[i - 1] as int, p[i] as int)
}

/// `p` is a path that ends at a node it already passed through: it closes a cycle.
pub open spec fn closes_cycle(adj: Seq<Vec<usize>>, p: Seq<usize>) -> bool {
    &&& is_path(adj, p)
    &&& p.len() >= 2
    &&& p.subrange(0, p.len() - 1).contains(p.last())
}

/// The graph has a cycle.
pub open spec fn has_cycle(adj: Seq<Vec<usize>>) -> bool {
    exists|p: Seq<usize>| closes_cycle(adj, p)
}

/// The number of nodes not yet visited.
pub open spec fn unvisited(s: Seq<bool>) -> nat
    decreases s.len(),
{
    if s.len() == 0 {
        0
    } else {
        unvisited(s.drop_last()) + (if s.last() { 0nat } else { 1nat })
    }
}

proof fn lemma_unvisited_shrinks(a: Seq<bool>, b: Seq<bool>, w: int)
    requires
        a.len() == b.len(),
        forall|i: int| 0 <= i < a.len() && a[i] ==> b[i],
        0 <= w < a.len(),
        !a[w],
        b[w],
    ensures
        unvisited(b) < unvisited(a),
    decreases a.len(),
{
    lemma_unvisited_mono(a.drop_last(), b.drop_last());
    if w < a.len() - 1 {
        lemma_unvisited_shrinks(a.drop_last(), b.drop_last(), w);
    }
}

proof fn lemma_unvisited_mono(a: Seq<bool>, b: Seq<bool>)
    requires
        a.len() == b.len(),
        forall|i: int| 0 <= i < a.len() && a[i] ==> b[i],
    ensures
        unvisited(b) <= unvisited(a),
    decreases a.len(),
{
    if a.len() > 0 {
        lemma_unvisited_mono(a.drop_last(), b.drop_last());
    }
}

/// A node whose traversal is complete.
pub open spec fn black(visited: Seq<bool>, on_stack: Seq<bool>, u: int) -> bool {
    visited[u] && !on_stack[u]
}

/// The state of a traversal that has found no cycle: every node on the stack
/// is visited, and every completed node has a finishing rank below `next`
/// and only completed successors, of smaller rank.
pub open spec fn rank_inv(
    adj: Seq<Vec<usize>>,
    visited: Seq<bool>,
    on_stack: Seq<bool>,
    rank: Seq<int>,
    next: int,
) -> bool {
    &&& rank.len() == adj.len()
    &&& forall|u: int| 0 <= u < adj.len() && #[trigger] on_stack[u] ==> visited[u]
    &&& forall|u: int|
        0 <= u < adj.len() && #[trigger] black(visited, on_stack, u) ==> rank[u] < next
    &&& forall|u: int, k: int|
        0 <= u < adj.len() && black(visited, on_stack, u) && 0 <= k < adj[u]@.len() ==> {
            let v = #[trigger] adj[u]@[k] as int;
            black(visited, on_stack, v) && rank[v] < rank[u]
        }
}

/// Completed nodes stay completed, with the same rank.
pub open spec fn keeps_black(
    n: int,
    v0: Seq<bool>,
    s0: Seq<bool>,
    r0: Seq<int>,
    v1: Seq<bool>,
    s1: Seq<bool>,
    r1: Seq<int>,
) -> bool {
    forall|i: int|
        0 <= i < n && #[trigger] black(v0, s0, i) ==> black(v1, s1, i) && r1[i] == r0[i]
}

/// Ranks decrease strictly along a path of completed nodes.
proof fn lemma_ranks_decrease(
    adj: Seq<Vec<usize>>,
    visited: Seq<bool>,
    on_stack: Seq<bool>,
    rank: Seq<int>,
    next: int,
    p: Seq<usize>,
    i: int,
    j: int,
)
    requires
        rank_inv(adj, visited, on_stack, rank, next),
        is_path(adj, p),
        black(visited, on_stack, p[0] as int),
        0 <= i < j < p.len(),
    ensures
        black(visited, on_stack, p[j] as int),
        rank[p[j] as int] < rank[p[i] as int],
    decreases j,
{
    lemma_path_black(adj, visited, on_stack, rank, next, p, j - 1);
    assert(edge(adj, p[j - 1] as int, p[j] as int));
    let s = adj[p[j - 1] as int]@;
    let k = choose|k: int| 0 <= k < s.len() && #[trigger] s[k] == p[j];
    assert(adj[p[j - 1] as int]@[k] == p[j]);
    if i < j - 1 {
        lemma_ranks_decrease(adj, visited, on_stack, rank, next, p, i, j - 1);
    }
}

/// Every node of a path that starts at a completed node is completed.
proof fn lemma_path_black(
    adj: Seq<Vec<usize>>,
    visited: Seq<bool>,
    on_stack: Seq<bool>,
    rank: Seq<int>,
    next: int,
    p: Seq<usize>,
    j: int,
)
    requires
        rank_inv(adj, visited, on_stack, rank, next),
        is_path(adj, p),
        black(visited, on_stack, p[0] as int),
        0 <= j < p.len(),
    ensures
        black(visited, on_stack, p[j] as int),
    decreases j,
{
    if j > 0 {
        lemma_path_black(adj, visited, on_stack, rank, next, p, j - 1);
        assert(edge(adj, p[j - 1] as int, p[j] as int));
        let s = adj[p[j - 1] as int]@;
        let k = choose|k: int| 0 <= k < s.len() && #[trigger] s[k] == p[j];
        assert(adj[p[j - 1] as int]@[k] == p[j]);
    }
}

/// When every node is completed, no path closes a cycle.
proof fn lemma_all_black_acyclic(
    adj: Seq<Vec<usize>>,
    visited: Seq<bool>,
    on_stack: Seq<bool>,
    rank: Seq<int>,
    next: int,
)
    requires
        rank_inv(adj, visited, on_stack, rank, next),
        visited.len() == adj.len(),
        on_stack.len() == adj.len(),
        forall|u: int| 0 <= u < adj.len() ==> black(visited, on_stack, u),
    ensures
        !has_cycle(adj),
{
    if has_cycle(adj) {
        let p = choose|p: Seq<usize>| closes_cycle(adj, p);
        let pre = p.subrange(0, p.len() - 1);
        let j = choose|j: int| 0 <= j < pre.len() && pre[j] == p.last();
        assert(p[j] == p[p.len() - 1]);
        lemma_ranks_decrease(adj, visited, on_stack, rank, next, p, j, p.len() - 1);
    }
}

/// The stack flags mark exactly the nodes of `branch`.
pub open spec fn stack_is(on_stack: Seq<bool>, branch: Seq<usize>) -> bool {
    forall|i: usize| i < on_stack.len() ==> (on_stack[i as int] <==> branch.contains(i))
}

proof fn lemma_rank_inv_same_black(
    adj: Seq<Vec<usize>>,
    v0: Seq<bool>,
    s0: Seq<bool>,
    v1: Seq<bool>,
    s1: Seq<bool>,
    rank: Seq<int>,
    next: int,
)
    requires
        graph_ok(adj),
        rank_inv(adj, v0, s0, rank, next),
        v0.len() == adj.len(),
        s0.len() == adj.len(),
        v1.len() == adj.len(),
        s1.len() == adj.len(),
        forall|i: int| 0 <= i < adj.len() ==> black(v1, s1, i) == black(v0, s0, i),
        forall|i: int| 0 <= i < adj.len() && s1[i] ==> v1[i],
    ensures
        rank_inv(adj, v1, s1, rank, next),
{
    assert forall|w: int, k: int|
        0 <= w < adj.len() && black(v1, s1, w) && 0 <= k < adj[w]@.len() implies {
        let v = #[trigger] adj[w]@[k] as int;
        black(v1, s1, v) && rank[v] < rank[w]
    } by {
        assert(black(v0, s0, w));
        let v = adj[w]@[k] as int;
        assert(0 <= v < adj.len());
        assert(black(v0, s0, v) && rank[v] < rank[w]);
    }
}

/// Pushing `u` onto a stack that holds `branch` gives a stack holding `branch` then `u`.
proof fn lemma_push_stack(s0: Seq<bool>, branch: Seq<usize>, u: usize)
    requires
        stack_is(s0, branch),
        u < s0.len(),
    ensures
        stack_is(s0.update(u as int, true), branch.push(u)),
{
    let s1 = s0.update(u as int, true);
    let nb = branch.push(u);
    assert forall|i: usize| i < s1.len() implies (s1[i as int] <==> nb.contains(i)) by {
        if i == u {
            assert(nb[branch.len() as int] == u);
        } else {
            if s1[i as int] {
                assert(branch.contains(i));
                let j = choose|j: int| 0 <= j < branch.len() && branch[j] == i;
                assert(nb[j] == i);
            }
            if nb.contains(i) {
                let j = choose|j: int| 0 <= j < nb.len() && nb[j] == i;
                assert(j < branch.len());
                assert(branch[j] == i);
            }
        }
    }
}

/// Depth-first search from `u`, which is not yet visited. `branch` is the
/// path of nodes on the stack, in order, ending with a node that has an
/// edge to `u`. A returned path starts at `u`, follows edges, and ends at
/// a node that is on `branch` or earlier on the path itself.
fn search_from(
    adj: &Vec<Vec<usize>>,
    u: usize,
    visited: &mut Vec<bool>,
    on_stack: &mut Vec<bool>,
    Ghost(branch): Ghost<Seq<usize>>,
    Ghost(ok): Ghost<bool>,
    Ghost(rank0): Ghost<Seq<int>>,
    Ghost(next0): Ghost<int>,
) -> (res: (Option<Vec<usize>>, Ghost<Seq<int>>, Ghost<int>))
    requires
        graph_ok(adj@),
        old(visited)@.len() == adj@.len(),
        old(on_stack)@.len() == adj@.len(),
        u < adj@.len(),
        !old(visited)@[u as int],
        stack_is(old(on_stack)@, branch),
        forall|i: int| 0 <= i < adj@.len() && old(on_stack)@[i] ==> old(visited)@[i],
        branch.len() > 0 ==> is_path(adj@, branch) && edge(adj@, branch.last() as int, u as int),
        ok ==> rank_inv(adj@, old(visited)@, old(on_stack)@, rank0, next0),
    ensures
        final(visited)@.len() == adj@.len(),
        final(on_stack)@.len() == adj@.len(),
        forall|i: int| 0 <= i < adj@.len() && old(visited)@[i] ==> final(visited)@[i],
        final(visited)@[u as int],
        res.0 is Some ==> {
            let p = res.0->0@;
            &&& is_path(adj@, p)
            &&& p.len() >= 2
            &&& p[0] == u
            &&& (branch + p.subrange(0, p.len() - 1)).contains(p.last())
        },
        res.0 is None ==> final(on_stack)@ == old(on_stack)@ && next0 <= res.2@,
        res.0 is None && ok ==> {
            &&& rank_inv(adj@, final(visited)@, final(on_stack)@, res.1@, res.2@)
            &&& black(final(visited)@, final(on_stack)@, u as int)
            &&& keeps_black(
                adj@.len() as int,
                old(visited)@,
                old(on_stack)@,
                rank0,
                final(visited)@,
                final(on_stack)@,
                res.1@,
            )
        },
    decreases unvisited(old(visited)@),
{
    let ghost v0 = visited@;
    let ghost s0 = on_stack@;
    visited.set(u, true);
    on_stack.set(u, true);
    let ghost mut rank = rank0;
    let ghost mut next = next0;
    proof {
        assert(!s0[u as int]);
        assert forall|i: int| 0 <= i < adj@.len() implies black(visited@, on_stack@, i) == black(
            v0,
            s0,
            i,
        ) by {}
        if ok {
            lemma_rank_inv_same_black(adj@, v0, s0, visited@, on_stack@, rank, next);
        }
        lemma_push_stack(s0, branch, u);
    }
    let succ = &adj[u];
    let mut k: usize = 0;
    while k < succ.len()
        invariant
            graph_ok(adj@),
            succ@ == adj@[u as int]@,
            u < adj@.len(),
            k <= succ@.len(),
            v0 == old(visited)@,
            s0 == old(on_stack)@,
            v0.len() == adj@.len(),
            s0.len() == adj@.len(),
            visited@.len() == adj@.len(),
            on_stack@ == s0.update(u as int, true),
            visited@[u as int],
            !v0[u as int],
            !s0[u as int],
            forall|i: int| 0 <= i < adj@.len() && v0[i] ==> visited@[i],
            stack_is(s0, branch),
            stack_is(on_stack@, branch.push(u)),
            forall|i: int| 0 <= i < adj@.len() && s0[i] ==> v0[i],
            branch.len() > 0 ==> is_path(adj@, branch) && edge(
                adj@,
                branch.last() as int,
                u as int,
            ),
            next0 <= next,
            ok ==> rank_inv(adj@, visited@, on_stack@, rank, next),
            ok ==> forall|j: int|
                0 <= j < k ==> black(visited@, on_stack@, #[trigger] succ@[j] as int)
                    && rank[succ@[j] as int] < next,
            ok ==> keeps_black(adj@.len() as int, v0, s0, rank0, visited@, on_stack@, rank),
        decreases succ@.len() - k,
    {
        let v = succ[k];
        assert(succ@[k as int] == v);
        assert(edge(adj@, u as int, v as int));
        if on_stack[v] {
            let mut p: Vec<usize> = Vec::new();
            p.push(u);
            p.push(v);
            proof {
                assert(p@[0] == u && p@[1] == v);
                assert(edge(adj@, p@[0] as int, p@[1] as int));
                assert(branch.push(u).contains(v));
                let j = choose|j: int| 0 <= j < branch.push(u).len() && branch.push(u)[j] == v;
                assert(p@.subrange(0, 1) =~= seq![u]);
                assert(branch + p@.subrange(0, 1) =~= branch.push(u));
                assert((branch + p@.subrange(0, 1))[j] == v);
            }
            return (Some(p), Ghost(rank), Ghost(next));
        }
        if !visited[v] {
            let ghost rb = rank;
            let ghost vb = visited@;
            proof {
                lemma_unvisited_shrinks(v0, visited@, u as int);
                let nb = branch.push(u);
                assert(nb.last() == u);
                assert forall|i: int| 1 <= i < nb.len() implies #[trigger] edge(
                    adj@,
                    nb[i - 1] as int,
                    nb[i] as int,
                ) by {
                    if i < branch.len() {
                        assert(edge(adj@, branch[i - 1] as int, branch[i] as int));
                    }
                }
                assert(is_path(adj@, nb));
            }
            let (r, Ghost(rank2), Ghost(next2)) = search_from(
                adj,
                v,
                visited,
                on_stack,
                Ghost(branch.push(u)),
                Ghost(ok),
                Ghost(rank),
                Ghost(next),
            );
            match r {
                Some(rest) => {
                    let mut p: Vec<usize> = Vec::new();
                    p.push(u);
                    let mut rest = rest;
                    let ghost rv = rest@;
                    p.append(&mut rest);
                    proof {
                        assert(p@ =~= seq![u] + rv);
                        assert forall|i: int| 1 <= i < p@.len() implies #[trigger] edge(
                            adj@,
                            p@[i - 1] as int,
                            p@[i] as int,
                        ) by {
                            if i > 1 {
                                let j = i - 1;
                                assert(edge(adj@, rv[j - 1] as int, rv[j] as int));
                            }
                        }
                        let nb = branch.push(u);
                        assert(p@.last() == rv.last());
                        assert((branch + p@.subrange(0, p@.len() - 1)) =~= (nb + rv.subrange(
                            0,
                            rv.len() - 1,
                        )));
                    }
                    return (Some(p), Ghost(rank2), Ghost(next2));
                },
                None => {
                    proof {
                        if ok {
                            assert forall|j: int| 0 <= j <= k implies black(
                                visited@,
                                on_stack@,
                                #[trigger] succ@[j] as int,
                            ) && rank2[succ@[j] as int] < next2 by {
                                if j < k {
                                    assert(black(vb, on_stack@, succ@[j] as int));
                                }
                            }
                            assert forall|i: int|
                                0 <= i < adj@.len() && #[trigger] black(v0, s0, i) implies black(
                                visited@,
                                on_stack@,
                                i,
                            ) && rank2[i] == rank0[i] by {
                                assert(black(vb, on_stack@, i));
                            }
                        }
                        rank = rank2;
                        next = next2;
                    }
                },
            }
        } else {
            proof {
                if ok {
                    assert(black(visited@, on_stack@, v as int));
                }
            }
        }
        k = k + 1;
    }
    on_stack.set(u, false);
    proof {
        assert(on_stack@ =~= s0);
        if ok {
            let vf = visited@;
            let sf = on_stack@;
            let r1 = rank.update(u as int, next);
            let s_in = s0.update(u as int, true);
            assert forall|i: int| 0 <= i < adj@.len() && i != u implies black(vf, sf, i) == black(
                vf,
                s_in,
                i,
            ) by {}
            assert forall|w: int, j: int|
                0 <= w < adj@.len() && black(vf, sf, w) && 0 <= j < adj[w as int]@.len() implies {
                let x = #[trigger] adj@[w]@[j] as int;
                black(vf, sf, x) && r1[x] < r1[w]
            } by {
                let x = adj@[w]@[j] as int;
                if w == u {
                    assert(succ@[j] as int == x);
                    assert(black(vf, s_in, x));
                } else {
                    assert(black(vf, s_in, w));
                    assert(black(vf, s_in, x));
                }
            }
            rank = r1;
            next = next + 1;
        }
    }
    (None, Ghost(rank), Ghost(next))
}

/// Searches the graph from each node in turn that no earlier search has
/// reached. For each search that meets a node already on its stack, the
/// path it followed up to that node is returned; such a path closes a
/// cycle, and none is returned exactly when the graph has no cycle.
pub fn find_cycles(adj: &Vec<Vec<usize>>) -> (r: Vec<Vec<usize>>)
    requires
        graph_ok(adj@),
    ensures
        forall|i: int| 0 <= i < r@.len() ==> closes_cycle(adj@, #[trigger] r@[i]@),
        r@.len() == 0 <==> !has_cycle(adj@),
{
    let n = adj.len();
    let mut visited: Vec<bool> = vec![false; n];
    let mut on_stack: Vec<bool> = vec![false; n];
    let ghost mut rank: Seq<int> = Seq::new(n as nat, |i: int| 0int);
    let ghost mut next: int = 0;
    let mut cycles: Vec<Vec<usize>> = Vec::new();
    let mut u: usize = 0;
    while u < n
        invariant
            n == adj@.len(),
            graph_ok(adj@),
            u <= n,
            visited@.len() == n,
            on_stack@.len() == n,
            forall|i: int| 0 <= i < n ==> !#[trigger] on_stack@[i],
            forall|i: int| 0 <= i < u ==> #[trigger] visited@[i],
            forall|i: int| 0 <= i < cycles@.len() ==> closes_cycle(adj@, #[trigger] cycles@[i]@),
            cycles@.len() == 0 ==> rank_inv(adj@, visited@, on_stack@, rank, next),
        decreases n - u,
    {
        if !visited[u] {
            let ghost ok = cycles.len() == 0;
            proof {
                assert(stack_is(on_stack@, Seq::<usize>::empty()));
            }
            let (found, Ghost(rank2), Ghost(next2)) = search_from(
                adj,
                u,
                &mut visited,
                &mut on_stack,
                Ghost(Seq::<usize>::empty()),
                Ghost(ok),
                Ghost(rank),
                Ghost(next),
            );
            match found {
                Some(p) => {
                    proof {
                        assert(Seq::<usize>::empty() + p@.subrange(0, p@.len() - 1) =~= p@.subrange(
                            0,
                            p@.len() - 1,
                        ));
                    }
                    cycles.push(p);
                    on_stack = vec![false; n];
                },
                None => {
                    proof {
                        rank = rank2;
                        next = next2;
                    }
                },
            }
        }
        u = u + 1;
    }
    proof {
        if cycles@.len() == 0 {
            assert forall|i: int| 0 <= i < adj@.len() implies black(visited@, on_stack@, i) by {
                assert(visited@[i]);
                assert(!on_stack@[i]);
            }
            lemma_all_black_acyclic(adj@, visited@, on_stack@, rank, next);
        } else {
            assert(closes_cycle(adj@, cycles@[0]@));
        }
    }
    cycles
}

// ── Graphs over names ──────────────────────────────────────────────

/// No name occurs twice.
pub open spec fn distinct(keys: Seq<Seq<char>>) -> bool {
    forall|i: int, j: int| 0 <= i < keys.len() && 0 <= j < keys.len() && i != j ==> keys[i] != keys[j]
}

/// The dependency lists as character sequences.
pub open spec fn deps_views(deps: Seq<Vec<String>>) -> Seq<Seq<Seq<char>>> {
    deps.map_values(|v: Vec<String>| string_views(v@))
}

/// In the graph where the name `keys[i]` depends on the names `deps[i]`,
/// `a` depends on `b`.
pub open spec fn name_edge(keys: Seq<Seq<char>>, deps: Seq<Seq<Seq<char>>>, a: Seq<char>, b: Seq<char>) -> bool {
    exists|i: int| 0 <= i < keys.len() && keys[i] == a && #[trigger] deps[i].contains(b)
}

/// `p` follows dependencies from its first name to its last.
pub open spec fn name_path(keys: Seq<Seq<char>>, deps: Seq<Seq<Seq<char>>>, p: Seq<Seq<char>>) -> bool {
    &&& p.len() >= 1
    &&& forall|i: int| 1 <= i < p.len() ==> #[trigger] name_edge(keys, deps, p[i - 1], p[i])
}

/// `p` follows dependencies and ends at a name it already passed through.
pub open spec fn name_closes_cycle(
    keys: Seq<Seq<char>>,
    deps: Seq<Seq<Seq<char>>>,
    p: Seq<Seq<char>>,
) -> bool {
    &&& name_path(keys, deps, p)
    &&& p.len() >= 2
    &&& p.subrange(0, p.len() - 1).contains(p.last())
}

/// The dependencies form a cycle.
pub open spec fn name_has_cycle(keys: Seq<Seq<char>>, deps: Seq<Seq<Seq<char>>>) -> bool {
    exists|p: Seq<Seq<char>>| name_closes_cycle(keys, deps, p)
}

/// The position of a name among the keys.
pub open spec fn key_pos(keys: Seq<Seq<char>>, x: Seq<char>) -> int {
    choose|i: int| 0 <= i < keys.len() && keys[i] == x
}

/// The successor lists of the graph on key positions: `adj[u]` holds, for
/// each dependency of `keys[u]` that is a key, its position.
pub open spec fn adjacency_of(
    keys: Seq<Seq<char>>,
    deps: Seq<Seq<Seq<char>>>,
    adj: Seq<Vec<usize>>,
) -> bool {
    &&& adj.len() == keys.len()
    &&& graph_ok(adj)
    &&& forall|u: int, k: int|
        0 <= u < adj.len() && 0 <= k < adj[u]@.len() ==> deps[u].contains(
            keys[#[trigger] adj[u]@[k] as int],
        )
    &&& forall|u: int, d: Seq<char>|
        0 <= u < adj.len() && #[trigger] deps[u].contains(d) && keys.contains(d) ==> exists|k: int|
            0 <= k < adj[u]@.len() && keys[adj[u]@[k] as int] == d
}

/// The position of `d` among `keys`, if it is one of them.
fn key_index(keys: &Vec<String>, d: &str) -> (r: Option<usize>)
    ensures
        match r {
            Some(j) => j < keys@.len() && keys@[j as int]@ == d@,
            None => !string_views(keys@).contains(d@),
        },
{
    let mut j: usize = 0;
    while j < keys.len()
        invariant
            j <= keys@.len(),
            forall|m: int| 0 <= m < j ==> keys@[m]@ != d@,
        decreases keys@.len() - j,
    {
        if str_eq(keys[j].as_str(), d) {
            return Some(j);
        }
        j = j + 1;
    }
    assert forall|m: int| 0 <= m < keys@.len() implies string_views(keys@)[m] != d@ by {}
    None
}

/// The graph on key positions (see `adjacency_of`).
fn build_adjacency(keys: &Vec<String>, deps: &Vec<Vec<String>>) -> (adj: Vec<Vec<usize>>)
    requires
        keys@.len() == deps@.len(),
    ensures
        adjacency_of(string_views(keys@), deps_views(deps@), adj@),
{
    let ghost kv = string_views(keys@);
    let ghost dv = deps_views(deps@);
    let mut adj: Vec<Vec<usize>> = Vec::new();
    let mut u: usize = 0;
    while u < deps.len()
        invariant
            u <= deps@.len(),
            keys@.len() == deps@.len(),
            kv == string_views(keys@),
            dv == deps_views(deps@),
            adj@.len() == u,
            forall|w: int, k: int|
                0 <= w < u && 0 <= k < adj@[w]@.len() ==> #[trigger] adj@[w]@[k] < keys@.len(),
            forall|w: int, k: int|
                0 <= w < u && 0 <= k < adj@[w]@.len() ==> dv[w].contains(
                    kv[#[trigger] adj@[w]@[k] as int],
                ),
            forall|w: int, d: Seq<char>|
                0 <= w < u && #[trigger] dv[w].contains(d) && kv.contains(d) ==> exists|k: int|
                    0 <= k < adj@[w]@.len() && kv[adj@[w]@[k] as int] == d,
        decreases deps@.len() - u,
    {
        let ds = &deps[u];
        assert(dv[u as int] == string_views(ds@));
        let mut row: Vec<usize> = Vec::new();
        let mut k: usize = 0;
        while k < ds.len()
            invariant
                k <= ds@.len(),
                kv == string_views(keys@),
                dv[u as int] == string_views(ds@),
                forall|m: int| 0 <= m < row@.len() ==> #[trigger] row@[m] < keys@.len(),
                forall|m: int| 0 <= m < row@.len() ==> dv[u as int].contains(kv[#[trigger] row@[m] as int]),
                forall|m: int|
                    0 <= m < k && kv.contains(#[trigger] string_views(ds@)[m]) ==> exists|t: int|
                        0 <= t < row@.len() && kv[row@[t] as int] == string_views(ds@)[m],
            decreases ds@.len() - k,
        {
            let ghost before = row@;
            match key_index(keys, ds[k].as_str()) {
                Some(j) => {
                    row.push(j);
                    proof {
                        assert(string_views(ds@)[k as int] == ds@[k as int]@);
                        assert(kv[j as int] == string_views(ds@)[k as int]);
                        assert(row@[before.len() as int] == j);
                        assert forall|m: int|
                            0 <= m < k + 1 && kv.contains(#[trigger] string_views(ds@)[m]) implies exists|t: int|
                                0 <= t < row@.len() && kv[row@[t] as int] == string_views(ds@)[m] by {
                            if m < k {
                                let t = choose|t: int|
                                    0 <= t < before.len() && kv[before[t] as int] == string_views(ds@)[m];
                                assert(row@[t] == before[t]);
                            } else {
                                assert(kv[row@[before.len() as int] as int] == string_views(ds@)[m]);
                            }
                        }
                    }
                },
                None => {
                    assert(string_views(ds@)[k as int] == ds@[k as int]@);
                },
            }
            k = k + 1;
        }
        let ghost rowv = row@;
        let ghost adj_before = adj@;
        adj.push(row);
        proof {
            assert(adj@[u as int]@ == rowv);
            assert forall|w: int, d: Seq<char>|
                0 <= w < u + 1 && #[trigger] dv[w].contains(d) && kv.contains(d) implies exists|k: int|
                    0 <= k < adj@[w]@.len() && kv[adj@[w]@[k] as int] == d by {
                if w == u {
                    let m = choose|m: int| 0 <= m < dv[w].len() && dv[w][m] == d;
                    assert(string_views(ds@)[m] == d);
                    let t = choose|t: int| 0 <= t < rowv.len() && kv[rowv[t] as int] == string_views(ds@)[m];
                    assert(kv[adj@[w]@[t] as int] == d);
                } else {
                    assert(adj@[w] == adj_before[w]);
                }
            }
        }
        u = u + 1;
    }
    adj
}

/// An index path that closes a cycle, read as names.
proof fn lemma_index_cycle_names(
    keys: Seq<Seq<char>>,
    deps: Seq<Seq<Seq<char>>>,
    adj: Seq<Vec<usize>>,
    p: Seq<usize>,
    q: Seq<Seq<char>>,
)
    requires
        adjacency_of(keys, deps, adj),
        closes_cycle(adj, p),
        q.len() == p.len(),
        forall|t: int| 0 <= t < p.len() ==> q[t] == keys[p[t] as int],
    ensures
        name_closes_cycle(keys, deps, q),
{
    assert forall|i: int| 1 <= i < q.len() implies #[trigger] name_edge(keys, deps, q[i - 1], q[i]) by {
        assert(edge(adj, p[i - 1] as int, p[i] as int));
        let u = p[i - 1] as int;
        let k = choose|k: int| 0 <= k < adj[u]@.len() && adj[u]@[k] == p[i];
        assert(deps[u].contains(keys[adj[u]@[k] as int]));
    }
    let pre = p.subrange(0, p.len() - 1);
    let j = choose|j: int| 0 <= j < pre.len() && pre[j] == p.last();
    assert(q.subrange(0, q.len() - 1)[j] == q.last());
}

/// A cycle of names gives a cycle of key positions.
proof fn lemma_name_cycle_index(
    keys: Seq<Seq<char>>,
    deps: Seq<Seq<Seq<char>>>,
    adj: Seq<Vec<usize>>,
    p: Seq<Seq<char>>,
)
    requires
        adjacency_of(keys, deps, adj),
        distinct(keys),
        keys.len() <= usize::MAX,
        name_closes_cycle(keys, deps, p),
    ensures
        has_cycle(adj),
{
    let pre = p.subrange(0, p.len() - 1);
    let j0 = choose|j: int| 0 <= j < pre.len() && pre[j] == p.last();
    let q = p.subrange(j0, p.len() as int);
    assert(q[0] == q.last());
    // every name on the cycle part has a dependency, so it is a key
    assert forall|t: int| 0 <= t < q.len() implies keys.contains(#[trigger] q[t]) by {
        let t2 = if t == q.len() - 1 { 0 } else { t };
        assert(q[t2] == q[t]);
        let i1 = j0 + t2 + 1;
        assert(name_edge(keys, deps, p[i1 - 1], p[i1]));
        let i = choose|i: int| 0 <= i < keys.len() && keys[i] == p[i1 - 1] && #[trigger] deps[i].contains(p[i1]);
        assert(keys[i] == q[t]);
    }
    let ip = Seq::new(q.len(), |t: int| key_pos(keys, q[t]) as usize);
    assert forall|t: int| 0 <= t < q.len() implies 0 <= key_pos(keys, #[trigger] q[t]) < keys.len()
        && keys[key_pos(keys, q[t])] == q[t] by {
        assert(keys.contains(q[t]));
    }
    assert forall|t: int| 1 <= t < ip.len() implies #[trigger] edge(adj, ip[t - 1] as int, ip[t] as int) by {
        assert(keys.contains(q[t - 1]));
        assert(keys.contains(q[t]));
        let i1 = j0 + t;
        assert(name_edge(keys, deps, p[i1 - 1], p[i1]));
        let i = choose|i: int| 0 <= i < keys.len() && keys[i] == p[i1 - 1] && #[trigger] deps[i].contains(p[i1]);
        assert(keys[i] == q[t - 1]);
        let kp = key_pos(keys, q[t - 1]);
        assert(0 <= kp < keys.len() && keys[kp] == q[t - 1]);
        assert(i == kp);
        assert(ip[t - 1] as int == kp);
        assert(i == ip[t - 1] as int);
        assert(deps[i].contains(q[t]));
        let k = choose|k: int| 0 <= k < adj[i]@.len() && keys[adj[i]@[k] as int] == q[t];
        assert(adj[i]@[k] < adj.len());
        assert(adj[i]@[k] == ip[t]);
    }
    assert(ip.subrange(0, ip.len() - 1)[0] == ip.last());
    assert(closes_cycle(adj, ip));
}

/// Cycle search over named dependencies: `keys[i]` depends on the names
/// in `deps[i]`; a name that is no key depends on nothing. Each returned
/// path of names follows dependencies and closes a cycle, and none is
/// returned exactly when the dependencies have no cycle.
pub fn find_name_cycles(keys: &Vec<String>, deps: &Vec<Vec<String>>) -> (r: Vec<Vec<String>>)
    requires
        keys@.len() == deps@.len(),
        distinct(string_views(keys@)),
    ensures
        forall|i: int|
            0 <= i < r@.len() ==> name_closes_cycle(
                string_views(keys@),
                deps_views(deps@),
                string_views(#[trigger] r@[i]@),
            ),
        r@.len() == 0 <==> !name_has_cycle(string_views(keys@), deps_views(deps@)),
{
    let ghost kv = string_views(keys@);
    let ghost dv = deps_views(deps@);
    let adj = build_adjacency(keys, deps);
    let cycles = find_cycles(&adj);
    let mut out: Vec<Vec<String>> = Vec::new();
    let mut c: usize = 0;
    while c < cycles.len()
        invariant
            c <= cycles@.len(),
            kv == string_views(keys@),
            dv == deps_views(deps@),
            adjacency_of(kv, dv, adj@),
            forall|i: int| 0 <= i < cycles@.len() ==> closes_cycle(adj@, #[trigger] cycles@[i]@),
            out@.len() == c,
            forall|i: int| 0 <= i < c ==> name_closes_cycle(kv, dv, string_views(#[trigger] out@[i]@)),
        decreases cycles@.len() - c,
    {
        let p = &cycles[c];
        assert(closes_cycle(adj@, p@));
        let mut names: Vec<String> = Vec::new();
        let mut t: usize = 0;
        while t < p.len()
            invariant
                t <= p@.len(),
                closes_cycle(adj@, p@),
                adjacency_of(kv, dv, adj@),
                kv == string_views(keys@),
                names@.len() == t,
                forall|m: int| 0 <= m < t ==> (#[trigger] names@[m])@ == kv[p@[m] as int],
            decreases p@.len() - t,
        {
            assert(p@[t as int] < adj@.len());
            names.push(keys[p[t]].clone());
            t = t + 1;
        }
        proof {
            lemma_index_cycle_names(kv, dv, adj@, p@, string_views(names@));
        }
        out.push(names);
        c = c + 1;
    }
    let nkeys = keys.len();
    proof {
        if cycles@.len() > 0 {
            assert(has_cycle(adj@));
            let p = cycles@[0]@;
            assert(closes_cycle(adj@, p));
        }
        if name_has_cycle(kv, dv) {
            let p = choose|p: Seq<Seq<char>>| name_closes_cycle(kv, dv, p);
            assert(kv.len() == keys@.len());
            lemma_name_cycle_index(kv, dv, adj@, p);
        }
        if out@.len() > 0 {
            assert(name_closes_cycle(kv, dv, string_views(out@[0]@)));
        }
    }
    out
}

/// A dependency graph over names, built by inserting `(name, deps)` in
/// turn: a name not yet present is added at the end, a name already present
/// has its dependencies replaced.
pub open spec fn keyed(pairs: Seq<(Seq<char>, Seq<Seq<char>>)>) -> (Seq<Seq<char>>, Seq<Seq<Seq<char>>>)
    decreases pairs.len(),
{
    if pairs.len() == 0 {
        (Seq::empty(), Seq::empty())
    } else {
        let g = keyed(pairs.drop_last());
        let (name, ds) = pairs.last();
        if g.0.contains(name) {
            (g.0, g.1.update(key_pos(g.0, name), ds))
        } else {
            (g.0.push(name), g.1.push(ds))
        }
    }
}

/// The keyed graph of `keyed`, as lists of strings.
pub struct KeyedGraph {
    pub keys: Vec<String>,
    pub deps: Vec<Vec<String>>,
}

impl KeyedGraph {
    /// The empty graph.
    pub fn new() -> (g: Self)
        ensures
            string_views(g.keys@) == Seq::<Seq<char>>::empty(),
            deps_views(g.deps@) == Seq::<Seq<Seq<char>>>::empty(),
            g.wf(),
    {
        let g = KeyedGraph { keys: Vec::new(), deps: Vec::new() };
        assert(string_views(g.keys@) =~= Seq::<Seq<char>>::empty());
        assert(deps_views(g.deps@) =~= Seq::<Seq<Seq<char>>>::empty());
        g
    }

    /// As many dependency lists as keys, and no key twice.
    pub open spec fn wf(&self) -> bool {
        &&& self.keys@.len() == self.deps@.len()
        &&& distinct(string_views(self.keys@))
    }

    /// Insert `name` with its dependencies (see `keyed`).
    pub fn insert(&mut self, name: &str, ds: Vec<String>)
        requires
            old(self).wf(),
        ensures
            final(self).wf(),
            ({
                let g = (string_views(old(self).keys@), deps_views(old(self).deps@));
                (string_views(final(self).keys@), deps_views(final(self).deps@)) == if g.0.contains(
                    name@,
                ) {
                    (g.0, g.1.update(key_pos(g.0, name@), string_views(ds@)))
                } else {
                    (g.0.push(name@), g.1.push(string_views(ds@)))
                }
            }),
    {
        let ghost k0 = string_views(self.keys@);
        let ghost d0 = deps_views(self.deps@);
        let ghost dsv = string_views(ds@);
        match key_index(&self.keys, name) {
            Some(j) => {
                proof {
                    assert(k0[j as int] == name@);
                    assert(k0.contains(name@));
                    let kp = key_pos(k0, name@);
                    assert(k0[kp] == name@);
                    assert(kp == j as int);
                }
                self.deps.set(j, ds);
                assert(deps_views(self.deps@) =~= d0.update(j as int, dsv));
            },
            None => {
                let ghost kb = self.keys@;
                self.keys.push(name.to_owned());
                self.deps.push(ds);
                proof {
                    assert(string_views(self.keys@) =~= k0.push(name@));
                    assert(deps_views(self.deps@) =~= d0.push(dsv));
                    assert forall|i: int, j: int|
                        0 <= i < self.keys@.len() && 0 <= j < self.keys@.len() && i != j implies string_views(
                        self.keys@,
                    )[i] != string_views(self.keys@)[j] by {
                        if i < kb.len() && j < kb.len() {
                            assert(k0[i] != k0[j]);
                        } else if i == kb.len() {
                            assert(k0[j] != name@);
                        } else {
                            assert(k0[i] != name@);
                        }
                    }
                }
            },
        }
    }
}

/// The findings for the cycles of a keyed graph: an error per cycle that
/// the search meets, giving the path that closes it.
pub open spec fn is_cycle_report(
    keys: Seq<Seq<char>>,
    deps: Seq<Seq<Seq<char>>>,
    prefix: Seq<char>,
    f: (LintLevel, Seq<char>),
) -> bool {
    exists|p: Seq<Seq<char>>|
        name_closes_cycle(keys, deps, p) && f == (LintLevel::Error, prefix + join_with(p, " -> "@))
}

/// Errors for the cycles of a keyed graph, each giving the names of the
/// path that closes it joined by ` -> ` after `prefix`; none exactly when
/// the graph has no cycle.
pub fn report_cycles(g: &KeyedGraph, prefix: &str) -> (r: Vec<LintWarning>)
    requires
        g.wf(),
    ensures
        r@.len() == 0 <==> !name_has_cycle(string_views(g.keys@), deps_views(g.deps@)),
        forall|i: int|
            0 <= i < r@.len() ==> is_cycle_report(
                string_views(g.keys@),
                deps_views(g.deps@),
                prefix@,
                #[trigger] findings(r@)[i],
            ),
{
    let cycles = find_name_cycles(&g.keys, &g.deps);
    let mut warnings: Vec<LintWarning> = Vec::new();
    let mut c: usize = 0;
    while c < cycles.len()
        invariant
            c <= cycles@.len(),
            warnings@.len() == c,
            forall|i: int|
                0 <= i < cycles@.len() ==> name_closes_cycle(
                    string_views(g.keys@),
                    deps_views(g.deps@),
                    string_views(#[trigger] cycles@[i]@),
                ),
            forall|i: int|
                0 <= i < c ==> is_cycle_report(
                    string_views(g.keys@),
                    deps_views(g.deps@),
                    prefix@,
                    #[trigger] findings(warnings@)[i],
                ),
        decreases cycles@.len() - c,
    {
        let path = join_strings(&cycles[c], " -> ");
        let ghost before = warnings@;
        push_finding(&mut warnings, LintWarning::error(concat2(prefix, path.as_str())));
        proof {
            let p = string_views(cycles@[c as int]@);
            assert(name_closes_cycle(string_views(g.keys@), deps_views(g.deps@), p));
            assert(findings(warnings@)[c as int] == (LintLevel::Error, prefix@ + join_with(p, " -> "@)));
            assert forall|i: int| 0 <= i < c + 1 implies is_cycle_report(
                string_views(g.keys@),
                deps_views(g.deps@),
                prefix@,
                #[trigger] findings(warnings@)[i],
            ) by {
                if i < c {
                    assert(findings(warnings@)[i] == findings(before)[i]);
                }
            }
        }
        c = c + 1;
    }
    warnings
}

} // verus!
