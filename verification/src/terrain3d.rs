//! The integer skeleton of the first floor's terrain: room node identities,
//! the node grid of a neighborhood, the links between neighborhoods, and the
//! weighted Kruskal selection (a union-find forest with path compression)
//! that connects a neighborhood's rooms.
use vstd::prelude::*;

verus! {

/// Cells along one side of the first floor.
pub const FLOOR_ONE_WIDTH_CELLS: usize = 3;

/// Cells along the other side of the first floor.
pub const FLOOR_ONE_HEIGHT_CELLS: usize = 3;

/// Whether a room node of the first floor is a plain room or a restroom.
#[derive(Debug, Clone, Copy, PartialEq, Eq, Hash, Structural)]
pub enum TerrainRoomType {
    Room,
    Restroom,
}

/// A room node of the first floor: its cell, its neighborhood in the cell,
/// and its place in the neighborhood.
#[derive(Debug, Clone, Copy, PartialEq, Eq, Hash, Structural)]
pub struct TerrainNodeId {
    pub cell_x: usize,
    pub cell_y: usize,
    pub neighborhood: usize,
    pub node: usize,
}

// ---------------------------------------------------------------------------
// Union-find forest
// ---------------------------------------------------------------------------

/// A parent array is a forest ordered by `height`: every parent is in range,
/// and a node that is not a root has a parent of strictly smaller height.
pub open spec fn forest_ok(parent: Seq<usize>, height: Seq<nat>) -> bool {
    &&& parent.len() == height.len()
    &&& forall|i: int| 0 <= i < parent.len() ==> (#[trigger] parent[i] as int) < parent.len()
    &&& forall|i: int|
        0 <= i < parent.len() && parent[i] as int != i ==> #[trigger] height[parent[i] as int]
            < height[i]
}

/// The root reached from `i` by following parents.
pub open spec fn root(parent: Seq<usize>, height: Seq<nat>, i: int) -> int
    decreases height[i],
    when forest_ok(parent, height) && 0 <= i < parent.len()
{
    if parent[i] as int == i {
        i
    } else {
        root(parent, height, parent[i] as int)
    }
}

/// Lemma: the root is in range, is a root, and is no higher than the start,
/// strictly lower when the start is not a root.
pub proof fn lemma_root_facts(parent: Seq<usize>, height: Seq<nat>, i: int)
    requires
        forest_ok(parent, height),
        0 <= i < parent.len(),
    ensures
        0 <= root(parent, height, i) < parent.len(),
        parent[root(parent, height, i)] as int == root(parent, height, i),
        height[root(parent, height, i)] <= height[i],
        parent[i] as int != i ==> height[root(parent, height, i)] < height[i],
        root(parent, height, root(parent, height, i)) == root(parent, height, i),
    decreases height[i],
{
    if parent[i] as int != i {
        lemma_root_facts(parent, height, parent[i] as int);
    }
}

/// Lemma: pointing one node straight at its own root keeps the forest and
/// every node's root.
proof fn lemma_redirect(parent: Seq<usize>, height: Seq<nat>, x: int)
    requires
        forest_ok(parent, height),
        0 <= x < parent.len(),
    ensures
        forest_ok(parent.update(x, root(parent, height, x) as usize), height),
        forall|j: int|
            0 <= j < parent.len() ==> #[trigger] root(
                parent.update(x, root(parent, height, x) as usize),
                height,
                j,
            ) == root(parent, height, j),
{
    lemma_root_facts(parent, height, x);
    let t = root(parent, height, x);
    let p2 = parent.update(x, t as usize);
    assert(forest_ok(p2, height));
    assert forall|j: int| 0 <= j < parent.len() implies #[trigger] root(p2, height, j) == root(
        parent,
        height,
        j,
    ) by {
        lemma_redirect_root(parent, height, x, j);
    }
}

proof fn lemma_redirect_root(parent: Seq<usize>, height: Seq<nat>, x: int, j: int)
    requires
        forest_ok(parent, height),
        0 <= x < parent.len(),
        0 <= j < parent.len(),
        forest_ok(parent.update(x, root(parent, height, x) as usize), height),
    ensures
        root(parent.update(x, root(parent, height, x) as usize), height, j) == root(
            parent,
            height,
            j,
        ),
    decreases height[j],
{
    lemma_root_facts(parent, height, x);
    let t = root(parent, height, x);
    let p2 = parent.update(x, t as usize);
    if j == x {
        if t != x {
            assert(p2[t] == parent[t]);
            assert(root(p2, height, t) == t);
        }
    } else if parent[j] as int != j {
        lemma_redirect_root(parent, height, x, parent[j] as int);
    }
}

/// Lemma: the roots do not depend on which admissible heights are used.
proof fn lemma_root_heights(parent: Seq<usize>, h1: Seq<nat>, h2: Seq<nat>, i: int)
    requires
        forest_ok(parent, h1),
        forest_ok(parent, h2),
        0 <= i < parent.len(),
    ensures
        root(parent, h1, i) == root(parent, h2, i),
    decreases h1[i],
{
    if parent[i] as int != i {
        lemma_root_heights(parent, h1, h2, parent[i] as int);
    }
}

/// Finds the root of `index`, pointing every node on the way straight at it.
fn find(parent: &mut Vec<usize>, index: usize, Ghost(height): Ghost<Seq<nat>>) -> (r: usize)
    requires
        forest_ok(old(parent)@, height),
        index < old(parent)@.len(),
    ensures
        final(parent)@.len() == old(parent)@.len(),
        forest_ok(final(parent)@, height),
        r as int == root(old(parent)@, height, index as int),
        forall|j: int|
            0 <= j < old(parent)@.len() ==> #[trigger] root(final(parent)@, height, j) == root(
                old(parent)@,
                height,
                j,
            ),
    decreases height[index as int],
{
    proof {
        lemma_root_facts(parent@, height, index as int);
    }
    if parent[index] != index {
        let p = parent[index];
        let ghost p0 = parent@;
        let r = find(parent, p, Ghost(height));
        let ghost p1 = parent@;
        proof {
            assert(root(p1, height, index as int) == root(p0, height, index as int));
            assert(root(p0, height, index as int) == root(p0, height, p as int));
            lemma_redirect(p1, height, index as int);
        }
        parent.set(index, r);
    }
    parent[index]
}

/// The component labels after merging the component of `a` into that of `b`.
pub open spec fn merge(labels: Seq<int>, a: int, b: int) -> Seq<int> {
    labels.map_values(|x: int| if x == labels[a] { labels[b] } else { x })
}

/// Joins the sets of `left` and `right`: the root of `left` is pointed at
/// the root of `right`. Returns the heights that order the new forest.
fn union(
    parent: &mut Vec<usize>,
    left: usize,
    right: usize,
    Ghost(height): Ghost<Seq<nat>>,
) -> (h: Ghost<Seq<nat>>)
    requires
        forest_ok(old(parent)@, height),
        left < old(parent)@.len(),
        right < old(parent)@.len(),
    ensures
        final(parent)@.len() == old(parent)@.len(),
        forest_ok(final(parent)@, h@),
        forall|j: int|
            0 <= j < old(parent)@.len() ==> #[trigger] root(final(parent)@, h@, j) == (if root(
                old(parent)@,
                height,
                j,
            ) == root(old(parent)@, height, left as int) {
                root(old(parent)@, height, right as int)
            } else {
                root(old(parent)@, height, j)
            }),
{
    let ghost p0 = parent@;
    let left_root = find(parent, left, Ghost(height));
    let right_root = find(parent, right, Ghost(height));
    let ghost p1 = parent@;
    proof {
        lemma_root_facts(p1, height, left as int);
        lemma_root_facts(p1, height, right as int);
    }
    if left_root != right_root {
        parent.set(left_root, right_root);
        let ghost p2 = parent@;
        let ghost lr = left_root as int;
        let ghost rr = right_root as int;
        let ghost h1 = height.map_values(|x: nat| x + 1);
        let ghost low: nat = if h1[rr] <= h1[lr] - 1 {
            h1[rr]
        } else {
            (h1[lr] - 1) as nat
        };
        let ghost h2 = h1.update(rr, low);
        proof {
            assert(p1[lr] as int == lr);
            assert(p1[rr] as int == rr);
            assert forall|i: int| 0 <= i < p2.len() && p2[i] as int != i implies #[trigger] h2[p2[i]
                as int] < h2[i] by {
                if i != lr {
                    assert(p2[i] == p1[i]);
                }
            }
            assert(forest_ok(p2, h2));
            assert forall|j: int| 0 <= j < p0.len() implies #[trigger] root(p2, h2, j) == (if root(
                p0,
                height,
                j,
            ) == root(p0, height, left as int) {
                root(p0, height, right as int)
            } else {
                root(p0, height, j)
            }) by {
                lemma_union_root(p1, height, p2, h2, lr, rr, j);
            }
        }
        Ghost(h2)
    } else {
        proof {
            assert forall|j: int| 0 <= j < p0.len() implies #[trigger] root(p1, height, j) == (if root(
                p0,
                height,
                j,
            ) == root(p0, height, left as int) {
                root(p0, height, right as int)
            } else {
                root(p0, height, j)
            }) by {}
        }
        Ghost(height)
    }
}

proof fn lemma_union_root(
    p1: Seq<usize>,
    h: Seq<nat>,
    p2: Seq<usize>,
    h2: Seq<nat>,
    lr: int,
    rr: int,
    j: int,
)
    requires
        forest_ok(p1, h),
        forest_ok(p2, h2),
        0 <= lr < p1.len(),
        0 <= rr < p1.len(),
        lr != rr,
        p1[lr] as int == lr,
        p1[rr] as int == rr,
        p2 == p1.update(lr, rr as usize),
        0 <= j < p1.len(),
    ensures
        root(p2, h2, j) == (if root(p1, h, j) == lr {
            rr
        } else {
            root(p1, h, j)
        }),
    decreases h[j],
{
    if p1[j] as int == j {
        if j == lr {
            assert(p2[rr] == p1[rr]);
            assert(root(p2, h2, rr) == rr);
        }
    } else {
        assert(j != lr);
        lemma_union_root(p1, h, p2, h2, lr, rr, p1[j] as int);
    }
}

// ---------------------------------------------------------------------------
// Kruskal selection
// ---------------------------------------------------------------------------

/// Greedy selection over candidate edges in the given order: an edge is taken
/// when its ends are in different components (and fewer than `n - 1` edges are
/// taken), and its first end's component is merged into its second's. The
/// state is the component label of each node and the indices taken.
pub open spec fn kruskal_run(n: nat, edges: Seq<(usize, usize)>) -> (Seq<int>, Seq<int>)
    decreases edges.len(),
{
    if edges.len() == 0 {
        (Seq::new(n, |i: int| i), Seq::empty())
    } else {
        let (labels, taken) = kruskal_run(n, edges.drop_last());
        let k = edges.len() - 1;
        let (a, b) = edges[k];
        if taken.len() + 1 >= n || labels[a as int] == labels[b as int] {
            (labels, taken)
        } else {
            (merge(labels, a as int, b as int), taken.push(k))
        }
    }
}

/// The candidate edges taken by Kruskal's selection, as indices in order.
pub open spec fn kruskal_taken(n: nat, edges: Seq<(usize, usize)>) -> Seq<int> {
    if n < 2 {
        Seq::empty()
    } else {
        kruskal_run(n, edges).1
    }
}

/// Every candidate edge joins two nodes in range.
pub open spec fn edges_in_range(n: nat, edges: Seq<(usize, usize)>) -> bool {
    forall|k: int| 0 <= k < edges.len() ==> (#[trigger] edges[k]).0 < n && edges[k].1 < n
}

/// Kruskal's selection over candidate edges already sorted by weight: returns
/// the indices of the edges that join two different components, stopping once
/// `node_count - 1` edges are taken.
pub fn kruskal_select(node_count: usize, candidates: &Vec<(usize, usize)>) -> (r: Vec<usize>)
    requires
        edges_in_range(node_count as nat, candidates@),
    ensures
        r@.map_values(|k: usize| k as int) == kruskal_taken(node_count as nat, candidates@),
{
    if node_count < 2 {
        let r: Vec<usize> = Vec::new();
        assert(r@.map_values(|k: usize| k as int) =~= Seq::<int>::empty());
        return r;
    }
    let mut parent: Vec<usize> = Vec::new();
    let mut i: usize = 0;
    while i < node_count
        invariant
            i <= node_count,
            parent@.len() == i,
            forall|j: int| 0 <= j < i ==> parent@[j] as int == j,
        decreases node_count - i,
    {
        parent.push(i);
        i += 1;
    }
    let ghost mut height: Seq<nat> = Seq::new(node_count as nat, |j: int| 0nat);
    let mut taken: Vec<usize> = Vec::new();
    let mut k: usize = 0;
    proof {
        assert(forest_ok(parent@, height));
        assert(candidates@.take(0) =~= Seq::<(usize, usize)>::empty());
        let (labels, t) = kruskal_run(node_count as nat, candidates@.take(0));
        assert forall|j: int| 0 <= j < node_count implies #[trigger] root(parent@, height, j) == labels[j] by {}
        assert(taken@.map_values(|x: usize| x as int) =~= t);
    }
    while k < candidates.len() && taken.len() < node_count - 1
        invariant
            2 <= node_count,
            k <= candidates.len(),
            parent@.len() == node_count,
            edges_in_range(node_count as nat, candidates@),
            forest_ok(parent@, height),
            ({
                let (labels, t) = kruskal_run(node_count as nat, candidates@.take(k as int));
                &&& labels.len() == node_count
                &&& forall|j: int| 0 <= j < node_count ==> #[trigger] root(parent@, height, j) == labels[j]
                &&& taken@.map_values(|x: usize| x as int) == t
                &&& forall|x: int| 0 <= x < t.len() ==> 0 <= #[trigger] t[x] < k
            }),
        decreases candidates.len() - k,
    {
        let (from, to) = candidates[k];
        let ghost pre = kruskal_run(node_count as nat, candidates@.take(k as int));
        proof {
            assert(candidates@.take(k + 1).drop_last() =~= candidates@.take(k as int));
            assert(candidates@.take(k + 1)[k as int] == candidates@[k as int]);
        }
        let ghost p0 = parent@;
        let a = find(&mut parent, from, Ghost(height));
        let b = find(&mut parent, to, Ghost(height));
        let ghost p1 = parent@;
        if a != b {
            let h = union(&mut parent, from, to, Ghost(height));
            proof {
                let labels = pre.0;
                let merged = merge(labels, from as int, to as int);
                assert forall|j: int| 0 <= j < node_count implies #[trigger] root(parent@, h@, j)
                    == merged[j] by {
                    assert(root(p1, height, j) == root(p0, height, j));
                }
                height = h@;
            }
            taken.push(k);
            proof {
                let t = pre.1;
                assert(taken@.map_values(|x: usize| x as int) =~= t.push(k as int));
            }
        }
        k += 1;
    }
    proof {
        let n = node_count as nat;
        lemma_kruskal_stops(n, candidates@, k as int);
    }
    taken
}

/// Lemma: once `n - 1` edges are taken, later candidates change nothing.
proof fn lemma_kruskal_stops(n: nat, edges: Seq<(usize, usize)>, k: int)
    requires
        n >= 2,
        0 <= k <= edges.len(),
        k == edges.len() || kruskal_run(n, edges.take(k)).1.len() + 1 >= n,
    ensures
        kruskal_run(n, edges) == kruskal_run(n, edges.take(k)),
    decreases edges.len() - k,
{
    if k == edges.len() {
        assert(edges.take(k) =~= edges);
    } else {
        assert(edges.drop_last().take(k) =~= edges.take(k));
        if k < edges.len() - 1 {
            lemma_kruskal_stops(n, edges.drop_last(), k);
        } else {
            assert(edges.drop_last() =~= edges.take(k));
        }
    }
}

/// The number of distinct component labels.
pub open spec fn component_count(labels: Seq<int>) -> nat {
    labels.to_set().len()
}

proof fn lemma_merge_set(labels: Seq<int>, a: int, b: int)
    requires
        0 <= a < labels.len(),
        0 <= b < labels.len(),
        labels[a] != labels[b],
    ensures
        merge(labels, a, b).to_set() == labels.to_set().remove(labels[a]),
        component_count(merge(labels, a, b)) + 1 == component_count(labels),
{
    broadcast use vstd::set::group_set_axioms, vstd::seq_lib::seq_to_set_is_finite;

    let m = merge(labels, a, b);
    assert forall|x: int| #[trigger] m.to_set().contains(x) == labels.to_set().remove(
        labels[a],
    ).contains(x) by {
        if m.to_set().contains(x) {
            let i = choose|i: int| 0 <= i < m.len() && m[i] == x;
            if labels[i] == labels[a] {
                assert(labels[b] == x);
                assert(labels.to_set().contains(labels[b]));
            } else {
                assert(labels.to_set().contains(labels[i]));
            }
        }
        if labels.to_set().remove(labels[a]).contains(x) {
            let i = choose|i: int| 0 <= i < labels.len() && labels[i] == x;
            assert(m[i] == x);
            assert(m.to_set().contains(m[i]));
        }
    }
    assert(m.to_set() =~= labels.to_set().remove(labels[a]));
    assert(labels.to_set().contains(labels[a]));
}

/// Lemma: the labels keep one entry per node, and every taken edge joined
/// two components, so components and taken edges always add up to `n`.
pub proof fn lemma_kruskal_forest(n: nat, edges: Seq<(usize, usize)>)
    requires
        edges_in_range(n, edges),
    ensures
        kruskal_run(n, edges).0.len() == n,
        component_count(kruskal_run(n, edges).0) + kruskal_run(n, edges).1.len() == n,
    decreases edges.len(),
{
    if edges.len() == 0 {
        let init = Seq::new(n, |i: int| i);
        assert(init.no_duplicates());
        init.unique_seq_to_set();
    } else {
        let k = edges.len() - 1;
        assert(edges_in_range(n, edges.drop_last())) by {
            assert forall|j: int| 0 <= j < edges.drop_last().len() implies (#[trigger] edges.drop_last()[j]).0 < n
                && edges.drop_last()[j].1 < n by {
                assert(edges.drop_last()[j] == edges[j]);
            }
        }
        lemma_kruskal_forest(n, edges.drop_last());
        let (labels, taken) = kruskal_run(n, edges.drop_last());
        let (a, b) = edges[k];
        if !(taken.len() + 1 >= n || labels[a as int] == labels[b as int]) {
            lemma_merge_set(labels, a as int, b as int);
        }
    }
}

/// Kruskal's selection yields a spanning forest: the taken edges and the
/// remaining components always number `node_count` together, so no taken
/// edge closes a cycle and at most `node_count - 1` edges are taken.
pub proof fn lemma_kruskal_spanning_forest(n: nat, edges: Seq<(usize, usize)>)
    requires
        n >= 1,
        edges_in_range(n, edges),
    ensures
        kruskal_taken(n, edges).len() <= n - 1,
        n >= 2 ==> component_count(kruskal_run(n, edges).0) + kruskal_taken(n, edges).len() == n,
{
    lemma_kruskal_forest(n, edges);
    let labels = kruskal_run(n, edges).0;
    if n >= 2 && labels.len() > 0 {
        broadcast use vstd::set::group_set_axioms, vstd::seq_lib::seq_to_set_is_finite;
        assert(labels.to_set().contains(labels[0]));
        assert(labels.to_set().len() >= 1) by {
            if labels.to_set().len() == 0 {
                assert(labels.to_set() =~= Set::<int>::empty());
            }
        }
    }
}

/// Lemma: along the candidates, labels only ever merge and taken edges only
/// accumulate.
proof fn lemma_kruskal_monotone(n: nat, edges: Seq<(usize, usize)>, k: int, x: int, y: int)
    requires
        0 <= k <= edges.len(),
        edges_in_range(n, edges),
        0 <= x < n,
        0 <= y < n,
    ensures
        kruskal_run(n, edges.take(k)).1.len() <= kruskal_run(n, edges).1.len(),
        kruskal_run(n, edges.take(k)).0[x] == kruskal_run(n, edges.take(k)).0[y]
            ==> kruskal_run(n, edges).0[x] == kruskal_run(n, edges).0[y],
    decreases edges.len() - k,
{
    if k == edges.len() {
        assert(edges.take(k) =~= edges);
    } else {
        let p = edges.drop_last();
        assert(p.take(k) =~= edges.take(k));
        assert(edges_in_range(n, p)) by {
            assert forall|j: int| 0 <= j < p.len() implies (#[trigger] p[j]).0 < n && p[j].1 < n by {
                assert(p[j] == edges[j]);
            }
        }
        lemma_kruskal_monotone(n, p, k, x, y);
        lemma_kruskal_forest(n, p);
    }
}

/// Whether the edge from `i` to `j` is among the candidates.
pub open spec fn is_candidate(edges: Seq<(usize, usize)>, i: int, j: int) -> bool {
    exists|k: int| 0 <= k < edges.len() && #[trigger] edges[k] == (i as usize, j as usize)
}

/// When every pair of nodes is a candidate, Kruskal's selection takes exactly
/// `node_count - 1` edges: the selection is a spanning tree.
pub proof fn lemma_kruskal_spanning_tree(n: nat, edges: Seq<(usize, usize)>)
    requires
        1 <= n <= usize::MAX,
        edges_in_range(n, edges),
        forall|i: int, j: int| 0 <= i < j < n ==> #[trigger] is_candidate(edges, i, j),
    ensures
        kruskal_taken(n, edges).len() == n - 1,
{
    lemma_kruskal_spanning_forest(n, edges);
    if n >= 2 && kruskal_taken(n, edges).len() < n - 1 {
        broadcast use vstd::set::group_set_axioms, vstd::seq_lib::seq_to_set_is_finite;
        let (labels, taken) = kruskal_run(n, edges);
        lemma_kruskal_forest(n, edges);
        assert(component_count(labels) >= 2);
        assert(exists|x: int| 0 <= x < n && #[trigger] labels[x] != labels[0]) by {
            if forall|x: int| 0 <= x < n ==> #[trigger] labels[x] == labels[0] {
                assert(labels.to_set() =~= set![labels[0]]);
                assert(set![labels[0]].len() == 1);
            }
        }
        let other = choose|x: int| 0 <= x < n && #[trigger] labels[x] != labels[0];
        let (a, b) = if 0 < other {
            (0int, other)
        } else {
            (other, 0int)
        };
        assert(is_candidate(edges, a, b));
        let k = choose|k: int| 0 <= k < edges.len() && #[trigger] edges[k] == (a as usize, b as usize);
        lemma_kruskal_monotone(n, edges, k + 1, a, b);
        lemma_kruskal_monotone(n, edges, k, a, b);
        let pre = kruskal_run(n, edges.take(k));
        assert(edges.take(k + 1).drop_last() =~= edges.take(k));
        assert(edges.take(k + 1)[k] == edges[k]);
        assert(edges_in_range(n, edges.take(k))) by {
            assert forall|j: int| 0 <= j < edges.take(k).len() implies (#[trigger] edges.take(k)[j]).0 < n
                && edges.take(k)[j].1 < n by {
                assert(edges.take(k)[j] == edges[j]);
            }
        }
        lemma_kruskal_forest(n, edges.take(k));
        let post = kruskal_run(n, edges.take(k + 1));
        assert(pre.1.len() + 1 < n);
        assert(pre.0[a] != pre.0[b]);
        assert(edges.take(k + 1).len() == k + 1);
        assert((a as usize) as int == a && (b as usize) as int == b);
        assert(post == (merge(pre.0, a, b), pre.1.push(k)));
        assert(merge(pre.0, a, b)[a] == pre.0[b]);
        assert(merge(pre.0, a, b)[b] == pre.0[b]);
        assert(post.0[a] == post.0[b]);
        assert(false);
    }
}

// ---------------------------------------------------------------------------
// Node grid and candidate edges
// ---------------------------------------------------------------------------

/// Room nodes along one side of a neighborhood: a neighborhood of 1609 m
/// with a room every 185 m, rounded up.
pub const ROOMS_PER_SIDE: usize = 9;

/// Room nodes in one neighborhood.
pub const NODES_PER_NEIGHBORHOOD: usize = 81;

/// The grid row and column of a room node within its neighborhood.
pub fn node_grid_position(node: usize) -> (r: (usize, usize))
    ensures
        r.0 == node / ROOMS_PER_SIDE,
        r.1 == node % ROOMS_PER_SIDE,
        r.0 * ROOMS_PER_SIDE + r.1 == node,
{
    (node / ROOMS_PER_SIDE, node % ROOMS_PER_SIDE)
}

/// The identities of the room nodes of one neighborhood, in node order.
pub fn neighborhood_node_ids(cell_x: usize, cell_y: usize, neighborhood: usize) -> (r: Vec<
    TerrainNodeId,
>)
    ensures
        r@.len() == NODES_PER_NEIGHBORHOOD,
        forall|i: int|
            0 <= i < r@.len() ==> #[trigger] r@[i] == (TerrainNodeId {
                cell_x,
                cell_y,
                neighborhood,
                node: i as usize,
            }),
{
    let mut r: Vec<TerrainNodeId> = Vec::new();
    let mut node: usize = 0;
    while node < NODES_PER_NEIGHBORHOOD
        invariant
            node <= NODES_PER_NEIGHBORHOOD,
            r@.len() == node,
            forall|i: int|
                0 <= i < node ==> #[trigger] r@[i] == (TerrainNodeId {
                    cell_x,
                    cell_y,
                    neighborhood,
                    node: i as usize,
                }),
        decreases NODES_PER_NEIGHBORHOOD - node,
    {
        r.push(TerrainNodeId { cell_x, cell_y, neighborhood, node });
        node += 1;
    }
    r
}

/// Every pair `(from, to)` with `from < to < node_count`, row by row: the
/// candidate edges of a neighborhood before they are ordered by length.
pub fn candidate_pairs(node_count: usize) -> (r: Vec<(usize, usize)>)
    requires
        node_count * (node_count - 1) <= 2 * usize::MAX,
    ensures
        edges_in_range(node_count as nat, r@),
        forall|i: int, j: int| 0 <= i < j < node_count ==> #[trigger] is_candidate(r@, i, j),
        2 * r@.len() == node_count * (node_count - 1),
{
    let mut r: Vec<(usize, usize)> = Vec::new();
    let mut from: usize = 0;
    while from < node_count
        invariant
            from <= node_count,
            node_count * (node_count - 1) <= 2 * usize::MAX,
            edges_in_range(node_count as nat, r@),
            forall|i: int, j: int| 0 <= i < from && i < j < node_count ==> #[trigger] is_candidate(r@, i, j),
            2 * r@.len() == from * (2 * node_count - from - 1),
        decreases node_count - from,
    {
        let mut to: usize = from + 1;
        let ghost before = r@.len();
        proof {
            let n = node_count as int;
            let f = from as int;
            assert(2 * (before + (n - f - 1)) <= n * (n - 1)) by (nonlinear_arith)
                requires
                    2 * before == f * (2 * n - f - 1),
                    0 <= f < n,
            ;
        }
        while to < node_count
            invariant
                from < node_count,
                node_count * (node_count - 1) <= 2 * usize::MAX,
                2 * (before + (node_count - from - 1)) <= node_count * (node_count - 1),
                from + 1 <= to <= node_count,
                edges_in_range(node_count as nat, r@),
                forall|i: int, j: int| 0 <= i < from && i < j < node_count ==> #[trigger] is_candidate(r@, i, j),
                forall|j: int| from < j < to ==> #[trigger] is_candidate(r@, from as int, j),
                r@.len() == before + (to - from - 1),
            decreases node_count - to,
        {
            let ghost prev = r@;
            r.push((from, to));
            proof {
                assert(r@[r@.len() - 1] == (from, to));
                assert forall|i: int, j: int| 0 <= i < from && i < j < node_count implies #[trigger] is_candidate(r@, i, j) by {
                    assert(is_candidate(prev, i, j));
                    let k = choose|k: int| 0 <= k < prev.len() && #[trigger] prev[k] == (i as usize, j as usize);
                    assert(r@[k] == prev[k]);
                }
                assert forall|j: int| from < j < to + 1 implies #[trigger] is_candidate(r@, from as int, j) by {
                    if j < to {
                        assert(is_candidate(prev, from as int, j));
                        let k = choose|k: int| 0 <= k < prev.len() && #[trigger] prev[k] == (from as usize, j as usize);
                        assert(r@[k] == prev[k]);
                    } else {
                        assert(r@[r@.len() - 1] == (from as usize, j as usize));
                    }
                }
                assert forall|k: int| 0 <= k < r@.len() implies (#[trigger] r@[k]).0 < node_count && r@[k].1 < node_count by {
                    if k < prev.len() {
                        assert(r@[k] == prev[k]);
                    }
                }
            }
            to += 1;
        }
        proof {
            assert(2 * r@.len() == (from + 1) * (2 * node_count - (from + 1) - 1)) by (nonlinear_arith)
                requires
                    2 * before == from * (2 * node_count - from - 1),
                    r@.len() == before + (node_count - from - 1),
            ;
        }
        from += 1;
    }
    proof {
        assert(2 * r@.len() == node_count * (node_count - 1)) by (nonlinear_arith)
            requires
                2 * r@.len() == node_count * (2 * node_count - node_count - 1),
        ;
    }
    r
}

/// The neighborhood pairs of a cell joined by a connector: left to right and
/// top to bottom in the two-by-two layout.
pub fn neighborhood_links() -> (r: Vec<(usize, usize)>)
    ensures
        r@ == seq![(0usize, 1usize), (0usize, 2usize), (1usize, 3usize), (2usize, 3usize)],
{
    let r = vec![(0, 1), (0, 2), (1, 3), (2, 3)];
    assert(r@ =~= seq![(0usize, 1usize), (0usize, 2usize), (1usize, 3usize), (2usize, 3usize)]);
    r
}

} // verus!
