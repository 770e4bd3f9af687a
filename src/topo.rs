use crate::nmat::{Matrix, RowMajor};
use std::collections::VecDeque;
use vstd::prelude::*;
use vstd::seq_lib::lemma_no_dup_in_concat;

verus! {

/// `adj.at(i, j)` holds when node `i` has an edge to node `j`.
pub type AdjacencyMatrix = Matrix<bool, RowMajor>;

/// A well-formed matrix with as many rows as columns.
pub open spec fn is_square(adj: AdjacencyMatrix) -> bool {
    adj.wf() && adj.rows() == adj.cols()
}

/// Every edge leads from a lower rank to a higher one.
pub open spec fn ranked_by(adj: AdjacencyMatrix, rank: Seq<nat>) -> bool {
    &&& rank.len() == adj.rows()
    &&& forall|i: int, j: int|
        0 <= i < adj.rows() && 0 <= j < adj.rows() && #[trigger] adj.at(i, j) ==> rank[i] < rank[j]
}

/// The graph has no directed cycle: its nodes can be numbered so that every edge
/// goes from a lower number to a higher one.
pub open spec fn is_acyclic(adj: AdjacencyMatrix) -> bool {
    exists|rank: Seq<nat>| ranked_by(adj, rank)
}

/// Key (a1, b1) comes before key (a2, b2) in lexicographic order.
pub open spec fn key_lt(a1: int, b1: int, a2: int, b2: int) -> bool {
    a1 < a2 || (a1 == a2 && b1 < b2)
}

/// `p` is the node that discovered `v`: the visited node with an edge to `v`
/// that was visited first.
pub open spec fn discovered_by(
    before: AdjacencyMatrix,
    visited: Set<int>,
    rank: Seq<nat>,
    v: int,
    p: int,
) -> bool {
    &&& visited.contains(p)
    &&& rank[p] < rank[v]
    &&& before.at(p, v)
    &&& forall|u: int| visited.contains(u) && rank[u] < rank[p] ==> !#[trigger] before.at(u, v)
}

/// `after` is what a breadth-first traversal of `before` from node 0 leaves,
/// where `visited` holds the nodes it reached, `rank[k]` gives when node `k` was
/// visited and `parent[k]` the node that discovered it. The traversal visits
/// node 0 first, and then the nodes in the order of their discoverer's visit
/// and, among those of one discoverer, of their index. Of the edges out of a
/// visited node, those to a node visited at the same time or earlier are gone
/// and the others stay; the edges out of the other nodes stay.
pub open spec fn removal_by(
    before: AdjacencyMatrix,
    after: AdjacencyMatrix,
    visited: Set<int>,
    rank: Seq<nat>,
    parent: Seq<int>,
) -> bool {
    let n = before.rows() as int;
    &&& rank.len() == n
    &&& parent.len() == n
    &&& n > 0 ==> visited.contains(0) && rank[0] == 0
    &&& forall|k: int| visited.contains(k) ==> 0 <= k < n
    &&& forall|i: int, j: int|
        visited.contains(i) && visited.contains(j) && i != j ==> rank[i] != rank[j]
    &&& forall|i: int, j: int|
        visited.contains(i) && 0 <= j < n && #[trigger] before.at(i, j) ==> visited.contains(j)
    &&& forall|v: int|
        visited.contains(v) && v != 0 ==> discovered_by(before, visited, rank, v, #[trigger] parent[v])
    &&& forall|v: int, w: int|
        visited.contains(v) && visited.contains(w) && v != 0 && w != 0 && #[trigger] rank[v]
            < #[trigger] rank[w] ==> key_lt(rank[parent[v]] as int, v, rank[parent[w]] as int, w)
    &&& forall|i: int, j: int|
        visited.contains(i) && 0 <= j < n ==> #[trigger] after.at(i, j) == (before.at(i, j)
            && rank[i] < rank[j])
    &&& forall|i: int, j: int|
        0 <= i < n && !visited.contains(i) && 0 <= j < n ==> #[trigger] after.at(i, j)
            == before.at(i, j)
}

/// `after` is `before` with its back edges removed by a traversal from node 0.
pub open spec fn back_edges_removed(before: AdjacencyMatrix, after: AdjacencyMatrix) -> bool {
    &&& is_square(before)
    &&& is_square(after)
    &&& after.rows() == before.rows()
    &&& exists|visited: Set<int>, rank: Seq<nat>, parent: Seq<int>|
        removal_by(before, after, visited, rank, parent)
}

spec fn count_false(s: Seq<bool>) -> nat
    decreases s.len(),
{
    if s.len() == 0 {
        0
    } else {
        count_false(s.drop_last()) + if s.last() {
            0nat
        } else {
            1nat
        }
    }
}

proof fn lemma_count_false_set(s: Seq<bool>, i: int)
    requires
        0 <= i < s.len(),
        !s[i],
    ensures
        count_false(s.update(i, true)) + 1 == count_false(s),
    decreases s.len(),
{
    let t = s.update(i, true);
    if i == s.len() - 1 {
        assert(t.drop_last() =~= s.drop_last());
    } else {
        assert(t.drop_last() =~= s.drop_last().update(i, true));
        lemma_count_false_set(s.drop_last(), i);
    }
}

/// The nodes marked in `visited`.
pub open spec fn visited_set(visited: Seq<bool>) -> Set<int> {
    Set::new(|k: int| 0 <= k < visited.len() && visited[k])
}

/// The rank of the node that queued an entry; the first entry, queued by
/// nobody, comes before all others.
pub open spec fn pusher_rank(rank: Seq<nat>, p: int) -> int {
    if p < 0 {
        -1
    } else {
        rank[p] as int
    }
}

/// Removes, in place, every edge that a breadth-first traversal from node 0 finds
/// leading to a node it has already visited (self-loops included). Each reachable
/// node is visited once, its successors queued in increasing order; edges out of
/// nodes that the traversal does not reach are left as they are.
pub fn remove_back_edges(adj: &mut AdjacencyMatrix)
    requires
        is_square(*old(adj)),
    ensures
        back_edges_removed(*old(adj), *final(adj)),
{
    let ghost orig = *adj;
    let n = adj.dim().0;
    let mut visited: Vec<bool> = Vec::new();
    let mut k: usize = 0;
    while k < n
        invariant
            k <= n,
            visited@.len() == k,
            forall|x: int| 0 <= x < k ==> !visited@[x],
        decreases n - k,
    {
        visited.push(false);
        k = k + 1;
    }
    let ghost mut rank: Seq<nat> = Seq::new(n as nat, |x: int| 0nat);
    let ghost mut parent: Seq<int> = Seq::new(n as nat, |x: int| 0int);
    let ghost mut count: nat = 0;
    let ghost mut pushers: Seq<int> = Seq::empty();
    let mut next: VecDeque<usize> = VecDeque::new();
    if n > 0 {
        next.push_back(0);
        proof {
            pushers = seq![-1int];
        }
        assert(next@[0] == 0);
    }
    while next.len() > 0
        invariant
            is_square(orig),
            is_square(*adj),
            orig.rows() == n,
            adj.rows() == n,
            visited@.len() == n,
            rank.len() == n,
            parent.len() == n,
            pushers.len() == next@.len(),
            forall|x: int| 0 <= x < next@.len() ==> #[trigger] next@[x] < n,
            forall|x: int|
                0 <= x < next@.len() ==> (#[trigger] pushers[x] == -1 ==> next@[x] == 0) && (
                pushers[x] != -1 ==> 0 <= pushers[x] < n && visited@[pushers[x]] && orig.at(
                    pushers[x],
                    next@[x] as int,
                )),
            forall|x: int, y: int|
                0 <= x < y < next@.len() ==> key_lt(
                    pusher_rank(rank, #[trigger] pushers[x]),
                    next@[x] as int,
                    pusher_rank(rank, #[trigger] pushers[y]),
                    next@[y] as int,
                ),
            forall|x: int| 0 <= x < n && visited@[x] ==> rank[x] < count,
            forall|x: int, y: int|
                0 <= x < n && 0 <= y < n && visited@[x] && visited@[y] && x != y ==> rank[x]
                    != rank[y],
            forall|x: int| 0 <= x < n && #[trigger] visited@[x] ==> visited@[0],
            n > 0 && visited@[0] ==> rank[0] == 0,
            n > 0 && !visited@[0] ==> count == 0 && next@.len() > 0 && next@[0] == 0,
            forall|u: int, j: int|
                0 <= u < n && visited@[u] && 0 <= j < n && !visited@[j] && #[trigger] orig.at(u, j)
                    ==> exists|x: int|
                    0 <= x < next@.len() && pushers[x] == u && #[trigger] next@[x] == j,
            forall|v: int|
                0 <= v < n && visited@[v] && v != 0 ==> discovered_by(
                    orig,
                    visited_set(visited@),
                    rank,
                    v,
                    #[trigger] parent[v],
                ),
            forall|v: int, w: int|
                0 <= v < n && 0 <= w < n && visited@[v] && visited@[w] && v != 0 && w != 0
                    && #[trigger] rank[v] < #[trigger] rank[w] ==> key_lt(
                    rank[parent[v]] as int,
                    v,
                    rank[parent[w]] as int,
                    w,
                ),
            forall|w: int, x: int|
                0 <= w < n && visited@[w] && w != 0 && 0 <= x < next@.len() ==> key_lt(
                    rank[#[trigger] parent[w]] as int,
                    w,
                    pusher_rank(rank, #[trigger] pushers[x]),
                    next@[x] as int,
                ),
            forall|x: int, y: int|
                0 <= x < n && visited@[x] && 0 <= y < n ==> #[trigger] adj.at(x, y) == (orig.at(
                    x,
                    y,
                ) && !(visited@[y] && rank[y] <= rank[x])),
            forall|x: int, y: int|
                0 <= x < n && !visited@[x] && 0 <= y < n ==> #[trigger] adj.at(x, y) == orig.at(
                    x,
                    y,
                ),
        decreases count_false(visited@), next@.len(),
    {
        let ghost before_pop = next@;
        let ghost old_pushers = pushers;
        let i = match next.pop_front() {
            Some(i) => i,
            None => 0,
        };
        proof {
            pushers = pushers.drop_first();
            assert(i == before_pop[0]);
            assert(next@ =~= before_pop.drop_first());
        }
        let ghost p = old_pushers[0];
        if !visited[i] {
            proof {
                lemma_count_false_set(visited@, i as int);
            }
            let ghost old_visited = visited@;
            let ghost old_rank = rank;
            visited.set(i, true);
            proof {
                if i != 0 {
                    assert(p != -1);
                    parent = parent.update(i as int, p);
                }
                rank = rank.update(i as int, count);
                count = count + 1;
                assert forall|u: int| 0 <= u < n && visited@[u] && u != i && rank[u] < rank[p]
                    && i != 0 implies !orig.at(u, i as int) by {
                    if orig.at(u, i as int) {
                        assert(old_visited[u] && !old_visited[i as int]);
                        let x = choose|x: int|
                            0 <= x < before_pop.len() && old_pushers[x] == u && #[trigger] before_pop[x]
                                == i;
                        assert(x != 0);
                        assert(key_lt(
                            pusher_rank(old_rank, old_pushers[0]),
                            before_pop[0] as int,
                            pusher_rank(old_rank, old_pushers[x]),
                            before_pop[x] as int,
                        ));
                    }
                }
                assert forall|v: int|
                    0 <= v < n && visited@[v] && v != 0 implies discovered_by(
                    orig,
                    visited_set(visited@),
                    rank,
                    v,
                    #[trigger] parent[v],
                ) by {
                    if v != i {
                        assert(discovered_by(orig, visited_set(old_visited), old_rank, v, parent[v]));
                    }
                }
                assert forall|w: int, x: int|
                    0 <= w < n && visited@[w] && w != 0 && 0 <= x < next@.len() implies key_lt(
                    rank[#[trigger] parent[w]] as int,
                    w,
                    pusher_rank(rank, #[trigger] pushers[x]),
                    next@[x] as int,
                ) by {
                    assert(old_pushers[x + 1] == pushers[x]);
                    assert(before_pop[x + 1] == next@[x]);
                    if w == i {
                        assert(key_lt(
                            pusher_rank(old_rank, old_pushers[0]),
                            before_pop[0] as int,
                            pusher_rank(old_rank, old_pushers[x + 1]),
                            before_pop[x + 1] as int,
                        ));
                    } else {
                        assert(key_lt(
                            old_rank[parent[w]] as int,
                            w,
                            pusher_rank(old_rank, old_pushers[x + 1]),
                            before_pop[x + 1] as int,
                        ));
                    }
                }
                assert forall|v: int, w: int|
                    0 <= v < n && 0 <= w < n && visited@[v] && visited@[w] && v != 0 && w != 0
                        && #[trigger] rank[v] < #[trigger] rank[w] implies key_lt(
                    rank[parent[v]] as int,
                    v,
                    rank[parent[w]] as int,
                    w,
                ) by {
                    if w == i {
                        assert(key_lt(
                            old_rank[parent[v]] as int,
                            v,
                            pusher_rank(old_rank, old_pushers[0]),
                            before_pop[0] as int,
                        ));
                    }
                }
            }
            proof {
                assert forall|u: int, y: int|
                    0 <= u < n && visited@[u] && u != i && 0 <= y < n && !visited@[y]
                        && #[trigger] orig.at(u, y) implies exists|x: int|
                    0 <= x < next@.len() && pushers[x] == u && #[trigger] next@[x] == y by {
                    assert(old_visited[u] && !old_visited[y]);
                    let x = choose|x: int|
                        0 <= x < before_pop.len() && old_pushers[x] == u && #[trigger] before_pop[x]
                            == y;
                    assert(x != 0);
                    assert(next@[x - 1] == y);
                    assert(pushers[x - 1] == u);
                }
            }
            let mut j: usize = 0;
            while j < n
                invariant
                    is_square(orig),
                    is_square(*adj),
                    orig.rows() == n,
                    adj.rows() == n,
                    i < n,
                    j <= n,
                    visited@.len() == n,
                    visited@[i as int],
                    visited@[0],
                    rank.len() == n,
                    parent.len() == n,
                    rank[i as int] + 1 == count,
                    n > 0 ==> rank[0] == 0,
                    pushers.len() == next@.len(),
                    forall|x: int| 0 <= x < next@.len() ==> #[trigger] next@[x] < n,
                    forall|x: int|
                        0 <= x < next@.len() ==> (#[trigger] pushers[x] == -1 ==> next@[x] == 0) && (
                        pushers[x] != -1 ==> 0 <= pushers[x] < n && visited@[pushers[x]] && orig.at(
                            pushers[x],
                            next@[x] as int,
                        )),
                    forall|x: int, y: int|
                        0 <= x < y < next@.len() ==> key_lt(
                            pusher_rank(rank, #[trigger] pushers[x]),
                            next@[x] as int,
                            pusher_rank(rank, #[trigger] pushers[y]),
                            next@[y] as int,
                        ),
                    forall|x: int|
                        0 <= x < next@.len() ==> pusher_rank(rank, #[trigger] pushers[x]) < rank[i as int]
                            || (pushers[x] == i && next@[x] < j),
                    forall|x: int| 0 <= x < n && visited@[x] ==> rank[x] < count,
                    forall|x: int, y: int|
                        0 <= x < n && 0 <= y < n && visited@[x] && visited@[y] && x != y
                            ==> rank[x] != rank[y],
                    forall|u: int, y: int|
                        0 <= u < n && visited@[u] && u != i && 0 <= y < n && !visited@[y]
                            && #[trigger] orig.at(u, y) ==> exists|x: int|
                            0 <= x < next@.len() && pushers[x] == u && #[trigger] next@[x] == y,
                    forall|y: int|
                        0 <= y < j && !visited@[y] && #[trigger] orig.at(i as int, y) ==> exists|
                            x: int,
                        |
                            0 <= x < next@.len() && pushers[x] == i && #[trigger] next@[x] == y,
                    forall|v: int|
                        0 <= v < n && visited@[v] && v != 0 ==> discovered_by(
                            orig,
                            visited_set(visited@),
                            rank,
                            v,
                            #[trigger] parent[v],
                        ),
                    forall|v: int, w: int|
                        0 <= v < n && 0 <= w < n && visited@[v] && visited@[w] && v != 0 && w != 0
                            && #[trigger] rank[v] < #[trigger] rank[w] ==> key_lt(
                            rank[parent[v]] as int,
                            v,
                            rank[parent[w]] as int,
                            w,
                        ),
                    forall|w: int, x: int|
                        0 <= w < n && visited@[w] && w != 0 && 0 <= x < next@.len() ==> key_lt(
                            rank[#[trigger] parent[w]] as int,
                            w,
                            pusher_rank(rank, #[trigger] pushers[x]),
                            next@[x] as int,
                        ),
                    forall|x: int, y: int|
                        0 <= x < n && visited@[x] && x != i && 0 <= y < n ==> #[trigger] adj.at(
                            x,
                            y,
                        ) == (orig.at(x, y) && !(visited@[y] && rank[y] <= rank[x])),
                    forall|y: int|
                        0 <= y < j ==> #[trigger] adj.at(i as int, y) == (orig.at(i as int, y)
                            && !(visited@[y] && rank[y] <= rank[i as int])),
                    forall|y: int| j <= y < n ==> #[trigger] adj.at(i as int, y) == orig.at(i as int, y),
                    forall|x: int, y: int|
                        0 <= x < n && !visited@[x] && 0 <= y < n ==> #[trigger] adj.at(x, y)
                            == orig.at(x, y),
                decreases n - j,
            {
                let ghost q = next@;
                let ghost qp = pushers;
                if *adj.get((i, j)) {
                    if visited[j] {
                        adj.set((i, j), false);
                    } else {
                        next.push_back(j);
                        proof {
                            pushers = pushers.push(i as int);
                            assert(next@ =~= q.push(j));
                            assert(forall|x: int| 0 <= x < q.len() ==> next@[x] == q[x]);
                            assert(forall|x: int| 0 <= x < qp.len() ==> pushers[x] == qp[x]);
                            assert(next@[q.len() as int] == j);
                            assert(pushers[q.len() as int] == i);
                            assert forall|w: int, x: int|
                                0 <= w < n && visited@[w] && w != 0 && 0 <= x < next@.len()
                                    implies key_lt(
                                rank[#[trigger] parent[w]] as int,
                                w,
                                pusher_rank(rank, #[trigger] pushers[x]),
                                next@[x] as int,
                            ) by {
                                if x == q.len() {
                                    assert(discovered_by(
                                        orig,
                                        visited_set(visited@),
                                        rank,
                                        w,
                                        parent[w],
                                    ));
                                }
                            }
                            assert forall|u: int, y: int|
                                0 <= u < n && visited@[u] && u != i && 0 <= y < n && !visited@[y]
                                    && #[trigger] orig.at(u, y) implies exists|x: int|
                                0 <= x < next@.len() && pushers[x] == u && #[trigger] next@[x]
                                    == y by {
                                let x = choose|x: int|
                                    0 <= x < q.len() && qp[x] == u && #[trigger] q[x] == y;
                                assert(next@[x] == y);
                            }
                            assert forall|y: int|
                                0 <= y < j + 1 && !visited@[y] && #[trigger] orig.at(i as int, y)
                                    implies exists|x: int|
                                0 <= x < next@.len() && pushers[x] == i && #[trigger] next@[x]
                                    == y by {
                                if y == j {
                                    assert(next@[q.len() as int] == y);
                                } else {
                                    let x = choose|x: int|
                                        0 <= x < q.len() && qp[x] == i && #[trigger] q[x] == y;
                                    assert(next@[x] == y);
                                }
                            }
                        }
                    }
                }
                j = j + 1;
            }
        } else {
            proof {
                assert forall|u: int, y: int|
                    0 <= u < n && visited@[u] && 0 <= y < n && !visited@[y] && #[trigger] orig.at(
                        u,
                        y,
                    ) implies exists|x: int|
                    0 <= x < next@.len() && pushers[x] == u && #[trigger] next@[x] == y by {
                    let x = choose|x: int|
                        0 <= x < before_pop.len() && old_pushers[x] == u && #[trigger] before_pop[x]
                            == y;
                    assert(x != 0);
                    assert(next@[x - 1] == y);
                }
            }
        }
    }
    proof {
        let vis = visited_set(visited@);
        assert forall|u: int, y: int|
            vis.contains(u) && 0 <= y < n && #[trigger] orig.at(u, y) implies vis.contains(y) by {
            if !visited@[y] {
                let x = choose|x: int| 0 <= x < next@.len() && pushers[x] == u && #[trigger] next@[x] == y;
            }
        }
        assert(removal_by(orig, *adj, vis, rank, parent));
    }
}

/// Some node has an edge into node `k`.
pub open spec fn has_pred(adj: AdjacencyMatrix, k: int) -> bool {
    exists|u: int| 0 <= u < adj.rows() && #[trigger] adj.at(u, k)
}

/// The nodes below `upto` that are neither inserted nor the target of an edge,
/// in increasing order.
spec fn ready_upto(adj: AdjacencyMatrix, inserted: Seq<bool>, upto: int) -> Seq<usize>
    decreases upto,
{
    if upto <= 0 {
        Seq::empty()
    } else {
        let prev = ready_upto(adj, inserted, upto - 1);
        if !inserted[upto - 1] && !has_pred(adj, upto - 1) {
            prev.push((upto - 1) as usize)
        } else {
            prev
        }
    }
}

proof fn lemma_ready_upto(adj: AdjacencyMatrix, inserted: Seq<bool>, upto: int)
    requires
        0 <= upto <= usize::MAX,
    ensures
        ready_upto(adj, inserted, upto).no_duplicates(),
        forall|a: int, b: int|
            0 <= a < b < ready_upto(adj, inserted, upto).len() ==> ready_upto(adj, inserted, upto)[a]
                < ready_upto(adj, inserted, upto)[b],
        forall|x: int|
            0 <= x < ready_upto(adj, inserted, upto).len() ==> {
                let k = #[trigger] ready_upto(adj, inserted, upto)[x];
                &&& k < upto
                &&& !inserted[k as int]
                &&& !has_pred(adj, k as int)
            },
        forall|k: usize|
            k < upto && !inserted[k as int] && !has_pred(adj, k as int) ==> ready_upto(
                adj,
                inserted,
                upto,
            ).contains(k),
    decreases upto,
{
    if upto > 0 {
        lemma_ready_upto(adj, inserted, upto - 1);
        let prev = ready_upto(adj, inserted, upto - 1);
        if !inserted[upto - 1] && !has_pred(adj, upto - 1) {
            let cur = prev.push((upto - 1) as usize);
            assert(cur[prev.len() as int] == (upto - 1) as usize);
            assert forall|a: int, b: int| 0 <= a < b < cur.len() implies cur[a] < cur[b] by {
                if b == prev.len() {
                    assert(prev[a] < upto - 1);
                } else {
                    assert(cur[a] == prev[a] && cur[b] == prev[b]);
                }
            }
            assert forall|k: usize|
                k < upto && !inserted[k as int] && !has_pred(adj, k as int) implies cur.contains(
                k,
            ) by {
                if k < upto - 1 {
                    let w = choose|w: int| 0 <= w < prev.len() && prev[w] == k;
                    assert(cur[w] == k);
                }
            }
        }
    }
}

/// Appends to `next`, in increasing order, every node that is not inserted yet
/// and has no predecessor, and marks it inserted.
fn insert_all_with_no_preds(
    adj: &AdjacencyMatrix,
    next: &mut VecDeque<usize>,
    inserted: &mut Vec<bool>,
)
    requires
        is_square(*adj),
        old(inserted)@.len() == adj.rows(),
    ensures
        final(inserted)@.len() == adj.rows(),
        forall|k: int|
            0 <= k < adj.rows() ==> #[trigger] final(inserted)@[k] == (old(inserted)@[k]
                || !has_pred(*adj, k)),
        final(next)@ == old(next)@ + ready_upto(*adj, old(inserted)@, adj.rows() as int),
        count_false(final(inserted)@) + final(next)@.len() == count_false(old(inserted)@)
            + old(next)@.len(),
{
    let ghost start = inserted@;
    let ghost start_next = next@;
    let n = adj.dim().0;
    let mut i: usize = 0;
    while i < n
        invariant
            is_square(*adj),
            n == adj.rows(),
            i <= n,
            start.len() == n,
            inserted@.len() == n,
            forall|k: int| 0 <= k < i ==> #[trigger] inserted@[k] == (start[k] || !has_pred(*adj, k)),
            forall|k: int| i <= k < n ==> #[trigger] inserted@[k] == start[k],
            next@ == start_next + ready_upto(*adj, start, i as int),
            count_false(inserted@) + next@.len() == count_false(start) + start_next.len(),
        decreases n - i,
    {
        let mut preds = false;
        let mut j: usize = 0;
        while j < n
            invariant
                is_square(*adj),
                n == adj.rows(),
                i < n,
                j <= n,
                preds == exists|u: int| 0 <= u < j && #[trigger] adj.at(u, i as int),
            decreases n - j,
        {
            preds = preds || *adj.get((j, i));
            j = j + 1;
        }
        if !preds && !inserted[i] {
            proof {
                lemma_count_false_set(inserted@, i as int);
            }
            inserted.set(i, true);
            next.push_back(i);
        }
        proof {
            assert(next@ =~= start_next + ready_upto(*adj, start, i + 1));
        }
        i = i + 1;
    }
}

proof fn lemma_all_inserted(
    orig: AdjacencyMatrix,
    adj: AdjacencyMatrix,
    inserted: Seq<bool>,
    ordering: Seq<usize>,
    rank: Seq<nat>,
    m: nat,
)
    requires
        is_square(orig),
        is_square(adj),
        orig.rows() <= usize::MAX,
        adj.rows() == orig.rows(),
        inserted.len() == orig.rows(),
        ranked_by(orig, rank),
        forall|k: int| 0 <= k < orig.rows() && !inserted[k] ==> has_pred(adj, k),
        forall|x: int, y: int|
            0 <= x < orig.rows() && 0 <= y < orig.rows() ==> #[trigger] adj.at(x, y) == (
            !ordering.contains(x as usize) && orig.at(x, y)),
        forall|k: int| 0 <= k < orig.rows() ==> inserted[k] == ordering.contains(k as usize),
    ensures
        forall|k: int| 0 <= k < orig.rows() && rank[k] < m ==> inserted[k],
    decreases m,
{
    if m > 0 {
        lemma_all_inserted(orig, adj, inserted, ordering, rank, (m - 1) as nat);
        assert forall|k: int| 0 <= k < orig.rows() && rank[k] < m implies inserted[k] by {
            if !inserted[k] {
                let u = choose|u: int| 0 <= u < adj.rows() && #[trigger] adj.at(u, k);
                assert(orig.at(u, k));
                assert(!ordering.contains(u as usize));
                assert(rank[u] < rank[k]);
                assert(inserted[u]);
            }
        }
    }
}

/// `order` lists distinct nodes of `adj`, and every edge of `adj` between two
/// listed nodes leads from an earlier one to a later one.
pub open spec fn ordered_by(adj: AdjacencyMatrix, order: Seq<usize>) -> bool {
    &&& order.no_duplicates()
    &&& forall|a: int| 0 <= a < order.len() ==> #[trigger] order[a] < adj.rows()
    &&& forall|a: int, b: int|
        0 <= a < order.len() && 0 <= b < order.len() && #[trigger] adj.at(
            order[a] as int,
            order[b] as int,
        ) ==> a < b
}

/// Node `k` lost its last predecessor once the first `t` nodes of `order` were
/// taken: all its predecessors are among them and, where `t > 0`, the last of
/// them is one.
pub open spec fn freed_at(adj: AdjacencyMatrix, order: Seq<usize>, k: int, t: int) -> bool {
    &&& 0 <= t <= order.len()
    &&& forall|u: int|
        0 <= u < adj.rows() && #[trigger] adj.at(u, k) ==> order.take(t).contains(u as usize)
    &&& t >= 1 ==> adj.at(order[t - 1] as int, k)
}

/// `order` lists its nodes by when they lost their last predecessor and, among
/// nodes freed at one time, by index.
pub open spec fn sorted_by_release(adj: AdjacencyMatrix, order: Seq<usize>) -> bool {
    exists|freed: Seq<int>|
        {
            &&& freed.len() == order.len()
            &&& forall|a: int|
                0 <= a < order.len() ==> freed_at(adj, order, order[a] as int, #[trigger] freed[a])
            &&& forall|a: int, b: int|
                0 <= a < b < order.len() ==> key_lt(
                    #[trigger] freed[a],
                    order[a] as int,
                    #[trigger] freed[b],
                    order[b] as int,
                )
        }
}

/// `order` holds each node of a graph with `n` nodes exactly once.
pub open spec fn is_permutation(order: Seq<usize>, n: nat) -> bool {
    &&& order.no_duplicates()
    &&& forall|a: int| 0 <= a < order.len() ==> #[trigger] order[a] < n
    &&& forall|k: usize| k < n ==> order.contains(k)
}

/// Orders the nodes of `adj` so that every edge leads forward: repeatedly queues
/// every node with no remaining predecessor, in increasing order, and on taking
/// a node from the queue appends it to the result and clears its outgoing edges.
/// On an acyclic graph every node is listed; on others, the nodes on or behind a
/// cycle are left out. The rows of the listed nodes are left cleared in `adj`.
pub fn topological_sort(adj: &mut AdjacencyMatrix) -> (r: Vec<usize>)
    requires
        is_square(*old(adj)),
    ensures
        is_square(*final(adj)),
        final(adj).rows() == old(adj).rows(),
        ordered_by(*old(adj), r@),
        sorted_by_release(*old(adj), r@),
        is_acyclic(*old(adj)) ==> is_permutation(r@, old(adj).rows()),
        forall|x: int, y: int|
            0 <= x < old(adj).rows() && 0 <= y < old(adj).rows() ==> #[trigger] final(adj).at(x, y)
                == (!r@.contains(x as usize) && old(adj).at(x, y)),
{
    let ghost orig = *adj;
    let n = adj.dim().0;
    let mut inserted: Vec<bool> = Vec::new();
    let mut k: usize = 0;
    while k < n
        invariant
            k <= n,
            inserted@.len() == k,
            forall|x: int| 0 <= x < k ==> !inserted@[x],
        decreases n - k,
    {
        inserted.push(false);
        k = k + 1;
    }
    let mut next: VecDeque<usize> = VecDeque::new();
    let mut ordering: Vec<usize> = Vec::new();
    let ghost first = inserted@;
    insert_all_with_no_preds(adj, &mut next, &mut inserted);
    let ghost mut freed_o: Seq<int> = Seq::empty();
    let ghost mut freed_q: Seq<int> = Seq::new(next@.len(), |x: int| 0int);
    proof {
        lemma_ready_upto(*adj, first, n as int);
        assert(next@ =~= ready_upto(*adj, first, n as int));
        assert forall|x: int| 0 <= x < next@.len() implies freed_at(
            orig,
            ordering@,
            next@[x] as int,
            #[trigger] freed_q[x],
        ) by {
            assert(!has_pred(orig, next@[x] as int));
        }
    }
    while next.len() > 0
        invariant
            is_square(orig),
            is_square(*adj),
            orig.rows() == n,
            adj.rows() == n,
            inserted@.len() == n,
            ordering@.no_duplicates(),
            next@.no_duplicates(),
            forall|a: int| 0 <= a < ordering@.len() ==> #[trigger] ordering@[a] < n,
            forall|a: int| 0 <= a < next@.len() ==> #[trigger] next@[a] < n,
            forall|k: usize| !(ordering@.contains(k) && next@.contains(k)),
            forall|k: int|
                0 <= k < n ==> #[trigger] inserted@[k] == (ordering@.contains(k as usize)
                    || next@.contains(k as usize)),
            forall|u: int, v: int|
                0 <= u < n && 0 <= v < n && inserted@[v] && #[trigger] orig.at(u, v)
                    ==> ordering@.contains(u as usize),
            forall|x: int, y: int|
                0 <= x < n && 0 <= y < n ==> #[trigger] adj.at(x, y) == (!ordering@.contains(
                    x as usize,
                ) && orig.at(x, y)),
            forall|a: int, b: int|
                0 <= a < ordering@.len() && 0 <= b < ordering@.len() && #[trigger] orig.at(
                    ordering@[a] as int,
                    ordering@[b] as int,
                ) ==> a < b,
            forall|k: int| 0 <= k < n && !inserted@[k] ==> has_pred(*adj, k),
            freed_o.len() == ordering@.len(),
            freed_q.len() == next@.len(),
            forall|a: int|
                0 <= a < ordering@.len() ==> freed_at(
                    orig,
                    ordering@,
                    ordering@[a] as int,
                    #[trigger] freed_o[a],
                ),
            forall|x: int|
                0 <= x < next@.len() ==> freed_at(orig, ordering@, next@[x] as int, #[trigger] freed_q[x]),
            forall|a: int, b: int|
                0 <= a < b < ordering@.len() ==> key_lt(
                    #[trigger] freed_o[a],
                    ordering@[a] as int,
                    #[trigger] freed_o[b],
                    ordering@[b] as int,
                ),
            forall|x: int, y: int|
                0 <= x < y < next@.len() ==> key_lt(
                    #[trigger] freed_q[x],
                    next@[x] as int,
                    #[trigger] freed_q[y],
                    next@[y] as int,
                ),
            forall|a: int, x: int|
                0 <= a < ordering@.len() && 0 <= x < next@.len() ==> key_lt(
                    #[trigger] freed_o[a],
                    ordering@[a] as int,
                    #[trigger] freed_q[x],
                    next@[x] as int,
                ),
            forall|x: int| 0 <= x < next@.len() ==> #[trigger] freed_q[x] <= ordering@.len(),
            forall|a: int| 0 <= a < ordering@.len() ==> #[trigger] freed_o[a] <= ordering@.len(),
        decreases count_false(inserted@) + next@.len(),
    {
        let ghost before_pop = next@;
        let ghost adj_at_head = *adj;
        let i = match next.pop_front() {
            Some(i) => i,
            None => 0,
        };
        assert(i == before_pop[0]);
        assert(next@ =~= before_pop.drop_first());
        let ghost old_ordering = ordering@;
        let ghost old_freed_q = freed_q;
        ordering.push(i);
        proof {
            assert(ordering@ == old_ordering.push(i));
            freed_o = freed_o.push(old_freed_q[0]);
            freed_q = old_freed_q.drop_first();
            assert forall|t: int| 0 <= t <= old_ordering.len() implies #[trigger] ordering@.take(t)
                == old_ordering.take(t) by {
                assert(ordering@.take(t) =~= old_ordering.take(t));
            }
            assert forall|a: int|
                0 <= a < ordering@.len() implies freed_at(
                orig,
                ordering@,
                ordering@[a] as int,
                #[trigger] freed_o[a],
            ) by {
                if a < old_ordering.len() {
                    assert(freed_at(orig, old_ordering, old_ordering[a] as int, freed_o[a]));
                    assert(ordering@.take(freed_o[a]) == old_ordering.take(freed_o[a]));
                } else {
                    assert(freed_at(orig, old_ordering, before_pop[0] as int, old_freed_q[0]));
                    assert(ordering@.take(freed_o[a]) == old_ordering.take(freed_o[a]));
                }
            }
            assert forall|x: int|
                0 <= x < next@.len() implies freed_at(
                orig,
                ordering@,
                next@[x] as int,
                #[trigger] freed_q[x],
            ) by {
                assert(freed_q[x] == old_freed_q[x + 1]);
                assert(next@[x] == before_pop[x + 1]);
                assert(freed_at(orig, old_ordering, before_pop[x + 1] as int, old_freed_q[x + 1]));
                assert(ordering@.take(freed_q[x]) == old_ordering.take(freed_q[x]));
            }
            assert forall|a: int, b: int|
                0 <= a < b < ordering@.len() implies key_lt(
                #[trigger] freed_o[a],
                ordering@[a] as int,
                #[trigger] freed_o[b],
                ordering@[b] as int,
            ) by {
                if b == old_ordering.len() {
                    assert(key_lt(
                        freed_o[a],
                        old_ordering[a] as int,
                        old_freed_q[0],
                        before_pop[0] as int,
                    ));
                }
            }
            assert forall|a: int, x: int|
                0 <= a < ordering@.len() && 0 <= x < next@.len() implies key_lt(
                #[trigger] freed_o[a],
                ordering@[a] as int,
                #[trigger] freed_q[x],
                next@[x] as int,
            ) by {
                assert(freed_q[x] == old_freed_q[x + 1]);
                assert(next@[x] == before_pop[x + 1]);
                if a == old_ordering.len() {
                    assert(key_lt(
                        old_freed_q[0],
                        before_pop[0] as int,
                        old_freed_q[x + 1],
                        before_pop[x + 1] as int,
                    ));
                } else {
                    assert(key_lt(
                        freed_o[a],
                        old_ordering[a] as int,
                        old_freed_q[x + 1],
                        before_pop[x + 1] as int,
                    ));
                }
            }
            assert forall|x: int, y: int|
                0 <= x < y < next@.len() implies key_lt(
                #[trigger] freed_q[x],
                next@[x] as int,
                #[trigger] freed_q[y],
                next@[y] as int,
            ) by {
                assert(key_lt(
                    old_freed_q[x + 1],
                    before_pop[x + 1] as int,
                    old_freed_q[y + 1],
                    before_pop[y + 1] as int,
                ));
            }
            assert(forall|k: usize| ordering@.contains(k) <==> (old_ordering.contains(k) || k == i))
                by {
                assert forall|k: usize| ordering@.contains(k) implies (old_ordering.contains(k)
                    || k == i) by {
                    let w = choose|w: int| 0 <= w < ordering@.len() && ordering@[w] == k;
                    if w < old_ordering.len() {
                        assert(old_ordering[w] == k);
                    }
                }
                assert forall|k: usize| old_ordering.contains(k) || k == i implies ordering@.contains(
                    k,
                ) by {
                    if k == i {
                        assert(ordering@[old_ordering.len() as int] == k);
                    } else {
                        let w = choose|w: int| 0 <= w < old_ordering.len() && old_ordering[w] == k;
                        assert(ordering@[w] == k);
                    }
                }
            }
            assert(forall|k: usize| before_pop.contains(k) <==> (next@.contains(k) || k == i)) by {
                assert forall|k: usize| before_pop.contains(k) implies (next@.contains(k) || k
                    == i) by {
                    let w = choose|w: int| 0 <= w < before_pop.len() && before_pop[w] == k;
                    if w > 0 {
                        assert(next@[w - 1] == k);
                    }
                }
                assert forall|k: usize| next@.contains(k) implies before_pop.contains(k) by {
                    let w = choose|w: int| 0 <= w < next@.len() && next@[w] == k;
                    assert(before_pop[w + 1] == k);
                }
            }
            assert(!old_ordering.contains(i));
            assert(!next@.contains(i)) by {
                if next@.contains(i) {
                    let w = choose|w: int| 0 <= w < next@.len() && next@[w] == i;
                    assert(before_pop[w + 1] == i);
                    assert(before_pop[0] == i);
                }
            }
            assert forall|a: int, b: int|
                0 <= a < ordering@.len() && 0 <= b < ordering@.len() && #[trigger] orig.at(
                    ordering@[a] as int,
                    ordering@[b] as int,
                ) implies a < b by {
                let last = old_ordering.len() as int;
                if a == last {
                    let w = ordering@[b];
                    assert(inserted@[w as int]);
                    assert(old_ordering.contains(i));
                } else if b < last {
                    assert(old_ordering[a] == ordering@[a]);
                    assert(old_ordering[b] == ordering@[b]);
                }
            }
        }
        let mut j: usize = 0;
        while j < n
            invariant
                is_square(orig),
                is_square(*adj),
                orig.rows() == n,
                adj.rows() == n,
                i < n,
                j <= n,
                ordering@.contains(i),
                forall|x: int, y: int|
                    0 <= x < n && 0 <= y < n && x != i ==> #[trigger] adj.at(x, y) == (
                    !ordering@.contains(x as usize) && orig.at(x, y)),
                forall|y: int| 0 <= y < j ==> !#[trigger] adj.at(i as int, y),
                forall|y: int|
                    j <= y < n ==> #[trigger] adj.at(i as int, y) == (!old_ordering.contains(i)
                        && orig.at(i as int, y)),
            decreases n - j,
        {
            adj.set((i, j), false);
            j = j + 1;
        }
        let ghost before_insert = inserted@;
        let ghost queue_before = next@;
        let ghost adj_before_pop = adj_at_head;
        insert_all_with_no_preds(adj, &mut next, &mut inserted);
        proof {
            let ready = ready_upto(*adj, before_insert, n as int);
            let t = ordering@.len() as int;
            let fq = freed_q;
            freed_q = fq + Seq::new(ready.len(), |x: int| t);
            lemma_ready_upto(*adj, before_insert, n as int);
            assert(next@ == queue_before + ready);
            assert forall|x: int|
                0 <= x < next@.len() implies freed_at(
                orig,
                ordering@,
                next@[x] as int,
                #[trigger] freed_q[x],
            ) by {
                if x < queue_before.len() {
                    assert(freed_q[x] == fq[x]);
                    assert(next@[x] == queue_before[x]);
                } else {
                    let k = ready[x - queue_before.len()];
                    assert(next@[x] == k);
                    assert(freed_q[x] == t);
                    assert(!before_insert[k as int] && !has_pred(*adj, k as int));
                    assert forall|u: int| 0 <= u < orig.rows() && #[trigger] orig.at(u, k as int)
                        implies ordering@.take(t).contains(u as usize) by {
                        assert(ordering@.take(t) =~= ordering@);
                        if !ordering@.contains(u as usize) {
                            assert(adj.at(u, k as int));
                        }
                    }
                    assert(has_pred(adj_before_pop, k as int));
                    let u = choose|u: int| 0 <= u < adj_before_pop.rows() && #[trigger] adj_before_pop.at(u, k as int);
                    assert(!old_ordering.contains(u as usize) && orig.at(u, k as int));
                    assert(ordering@.take(t).contains(u as usize));
                    assert(ordering@.contains(u as usize));
                    assert(u as usize == i);
                    assert(ordering@[t - 1] == i);
                }
            }
            assert forall|x: int, y: int|
                0 <= x < y < next@.len() implies key_lt(
                #[trigger] freed_q[x],
                next@[x] as int,
                #[trigger] freed_q[y],
                next@[y] as int,
            ) by {
                if y >= queue_before.len() && x < queue_before.len() {
                    assert(freed_q[x] == fq[x]);
                } else if x >= queue_before.len() {
                    assert(next@[x] == ready[x - queue_before.len()]);
                    assert(next@[y] == ready[y - queue_before.len()]);
                } else {
                    assert(freed_q[x] == fq[x] && freed_q[y] == fq[y]);
                }
            }
            assert forall|a: int, x: int|
                0 <= a < ordering@.len() && 0 <= x < next@.len() implies key_lt(
                #[trigger] freed_o[a],
                ordering@[a] as int,
                #[trigger] freed_q[x],
                next@[x] as int,
            ) by {
                if x < queue_before.len() {
                    assert(freed_q[x] == fq[x]);
                }
            }
            lemma_ready_upto(*adj, before_insert, n as int);
            assert forall|k: usize| next@.contains(k) <==> (queue_before.contains(k)
                || ready.contains(k)) by {
                if next@.contains(k) {
                    let w = choose|w: int| 0 <= w < next@.len() && next@[w] == k;
                    if w < queue_before.len() {
                        assert(queue_before[w] == k);
                    } else {
                        assert(ready[w - queue_before.len()] == k);
                    }
                }
                if queue_before.contains(k) {
                    let w = choose|w: int| 0 <= w < queue_before.len() && queue_before[w] == k;
                    assert(next@[w] == k);
                }
                if ready.contains(k) {
                    let w = choose|w: int| 0 <= w < ready.len() && ready[w] == k;
                    assert(next@[queue_before.len() + w] == k);
                }
            }
            assert forall|x: int| 0 <= x < ready.len() implies !queue_before.contains(
                #[trigger] ready[x],
            ) by {
                let k = ready[x];
                assert(!before_insert[k as int]);
            }
            lemma_no_dup_in_concat(queue_before, ready);
            assert forall|u: int, v: int|
                0 <= u < n && 0 <= v < n && inserted@[v] && #[trigger] orig.at(u, v)
                    implies ordering@.contains(u as usize) by {
                if !before_insert[v] {
                    assert(!has_pred(*adj, v));
                    if !ordering@.contains(u as usize) {
                        assert(adj.at(u, v));
                    }
                }
            }
            assert forall|k: usize| !(ordering@.contains(k) && next@.contains(k)) by {
                if ordering@.contains(k) && ready.contains(k) {
                    let w = choose|w: int| 0 <= w < ready.len() && ready[w] == k;
                    assert(!before_insert[ready[w] as int]);
                    if k == i {
                        assert(before_pop.contains(k));
                    } else {
                        assert(old_ordering.contains(k));
                    }
                    assert(before_insert[k as int]);
                }
                if ordering@.contains(k) && queue_before.contains(k) {
                    if k != i {
                        assert(old_ordering.contains(k));
                        assert(before_pop.contains(k));
                    }
                }
            }
        }
    }
    proof {
        assert forall|k: int| 0 <= k < n implies #[trigger] inserted@[k] == ordering@.contains(
            k as usize,
        ) by {
            assert(!next@.contains(k as usize));
        }
        assert(sorted_by_release(orig, ordering@));
        if is_acyclic(orig) {
            let rank = choose|rank: Seq<nat>| ranked_by(orig, rank);
            assert forall|k: usize| k < n implies ordering@.contains(k) by {
                lemma_all_inserted(orig, *adj, inserted@, ordering@, rank, rank[k as int] + 1);
                assert(inserted@[k as int]);
            }
        }
    }
    ordering
}

/// `p` is a walk along the edges of `adj`.
pub open spec fn is_path(adj: AdjacencyMatrix, p: Seq<int>) -> bool {
    &&& p.len() >= 1
    &&& forall|x: int| 0 <= x < p.len() ==> 0 <= #[trigger] p[x] < adj.rows()
    &&& forall|x: int| 0 <= x < p.len() - 1 ==> adj.at(#[trigger] p[x], p[x + 1])
}

/// A walk leads from node 0 to node `k`.
pub open spec fn reachable_from_zero(adj: AdjacencyMatrix, k: int) -> bool {
    exists|p: Seq<int>| #[trigger] is_path(adj, p) && p[0] == 0 && p.last() == k
}

/// The nodes that node 0 does not reach have no cycle among themselves.
pub open spec fn acyclic_beyond_reach(adj: AdjacencyMatrix) -> bool {
    exists|rank: Seq<nat>|
        {
            &&& rank.len() == adj.rows()
            &&& forall|i: int, j: int|
                0 <= i < adj.rows() && 0 <= j < adj.rows() && !reachable_from_zero(adj, i)
                    && !reachable_from_zero(adj, j) && #[trigger] adj.at(i, j) ==> rank[i] < rank[j]
        }
}

proof fn lemma_path_stays_in(adj: AdjacencyMatrix, p: Seq<int>, visited: Set<int>)
    requires
        is_path(adj, p),
        visited.contains(p[0]),
        forall|i: int, j: int|
            visited.contains(i) && 0 <= j < adj.rows() && #[trigger] adj.at(i, j) ==> visited.contains(
                j,
            ),
    ensures
        visited.contains(p.last()),
    decreases p.len(),
{
    if p.len() > 1 {
        let q = p.drop_last();
        assert(is_path(adj, q));
        lemma_path_stays_in(adj, q, visited);
        assert(adj.at(p[p.len() - 2], p[p.len() - 1]));
    }
}

spec fn seq_max(s: Seq<nat>) -> nat
    decreases s.len(),
{
    if s.len() == 0 {
        0
    } else {
        let m = seq_max(s.drop_last());
        if s.last() > m {
            s.last()
        } else {
            m
        }
    }
}

proof fn lemma_seq_max(s: Seq<nat>)
    ensures
        forall|x: int| 0 <= x < s.len() ==> s[x] <= seq_max(s),
    decreases s.len(),
{
    if s.len() > 0 {
        lemma_seq_max(s.drop_last());
        assert(forall|x: int| 0 <= x < s.len() - 1 ==> s.drop_last()[x] == s[x]);
    }
}

/// Removing back edges leaves a graph without cycles. It holds wherever the nodes
/// that node 0 does not reach have no cycle among themselves, since the traversal
/// from node 0 leaves their edges as they are.
pub proof fn lemma_back_edge_removal_acyclic(before: AdjacencyMatrix, after: AdjacencyMatrix)
    requires
        back_edges_removed(before, after),
        acyclic_beyond_reach(before),
    ensures
        is_acyclic(after),
{
    let n = before.rows() as int;
    let (visited, bfs, parent) = choose|visited: Set<int>, rank: Seq<nat>, parent: Seq<int>|
        removal_by(before, after, visited, rank, parent);
    let sub = choose|rank: Seq<nat>|
        {
            &&& rank.len() == before.rows()
            &&& forall|i: int, j: int|
                0 <= i < before.rows() && 0 <= j < before.rows() && !reachable_from_zero(before, i)
                    && !reachable_from_zero(before, j) && #[trigger] before.at(i, j) ==> rank[i]
                    < rank[j]
        };
    lemma_seq_max(sub);
    let bound = seq_max(sub) + 1;
    let rank = Seq::new(
        n as nat,
        |k: int|
            if visited.contains(k) {
                (bound + bfs[k]) as nat
            } else {
                sub[k]
            },
    );
    assert forall|k: int| 0 <= k < n && reachable_from_zero(before, k) implies visited.contains(
        k,
    ) by {
        let p = choose|p: Seq<int>| #[trigger] is_path(before, p) && p[0] == 0 && p.last() == k;
        lemma_path_stays_in(before, p, visited);
    }
    assert(ranked_by(after, rank));
}

/// Back-edge removal followed by the topological sort lists every node exactly
/// once, and every edge that survived the removal leads from an earlier node in
/// the list to a later one. It holds under the same condition as the acyclicity
/// of the removal.
pub proof fn lemma_schedule_is_permutation(
    before: AdjacencyMatrix,
    after: AdjacencyMatrix,
    order: Seq<usize>,
)
    requires
        back_edges_removed(before, after),
        acyclic_beyond_reach(before),
        ordered_by(after, order),
        is_acyclic(after) ==> is_permutation(order, after.rows()),
    ensures
        is_permutation(order, before.rows()),
        forall|a: int, b: int|
            0 <= a < order.len() && 0 <= b < order.len() && #[trigger] after.at(
                order[a] as int,
                order[b] as int,
            ) ==> a < b,
{
    lemma_back_edge_removal_acyclic(before, after);
}

/// `order` is what scheduling `adj` gives: the order of the topological sort of
/// what back-edge removal leaves of `adj`, which lists every node where the
/// nodes that node 0 does not reach have no cycle among themselves.
pub open spec fn scheduled(adj: AdjacencyMatrix, order: Seq<usize>) -> bool {
    &&& exists|after: AdjacencyMatrix|
        #[trigger] back_edges_removed(adj, after) && ordered_by(after, order) && sorted_by_release(
            after,
            order,
        ) && (is_acyclic(after) ==> is_permutation(order, after.rows()))
    &&& acyclic_beyond_reach(adj) ==> is_permutation(order, adj.rows())
}

/// The evaluation order of a graph of components: its back edges are removed from
/// `adj` and the rest is sorted topologically.
pub fn schedule(adj: &mut AdjacencyMatrix) -> (r: Vec<usize>)
    requires
        is_square(*old(adj)),
    ensures
        scheduled(*old(adj), r@),
{
    let ghost before = *adj;
    remove_back_edges(adj);
    let ghost after = *adj;
    let r = topological_sort(adj);
    proof {
        if acyclic_beyond_reach(before) {
            lemma_schedule_is_permutation(before, after, r@);
        }
        assert(back_edges_removed(before, after) && ordered_by(after, r@) && sorted_by_release(
            after,
            r@,
        ) && (is_acyclic(after) ==> is_permutation(r@, after.rows())));
    }
    r
}

} // verus!
