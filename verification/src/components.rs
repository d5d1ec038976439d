//! Connected components of the reference graph, by union and find.

use vstd::prelude::*;

verus! {

/// The targets of a node, as numbers.
pub open spec fn targets(v: Vec<usize>) -> Seq<int> {
    Seq::new(v@.len(), |k: int| v@[k] as int)
}

/// The edges of a graph given by the targets of each node.
pub open spec fn graph(refs: Seq<Vec<usize>>) -> Seq<Seq<int>> {
    Seq::new(refs.len(), |i: int| targets(refs[i]))
}

/// Every target is one of `n` nodes.
pub open spec fn in_bounds(g: Seq<Seq<int>>, n: int) -> bool {
    forall|i: int, k: int|
        0 <= i < g.len() && 0 <= k < g[i].len() ==> 0 <= #[trigger] g[i][k] < n
}

/// Every node on its own.
pub open spec fn own_labels(n: nat) -> Seq<int> {
    Seq::new(n, |i: int| i)
}

/// The labels after the component of `i` has joined that of `j`.
pub open spec fn joined_labels(labels: Seq<int>, i: int, j: int) -> Seq<int> {
    labels.map_values(
        |l: int|
            if l == labels[i] {
                labels[j]
            } else {
                l
            },
    )
}

/// The labels after the edges from `i` to each of `js`.
pub open spec fn joined_all(labels: Seq<int>, i: int, js: Seq<int>) -> Seq<int>
    decreases js.len(),
{
    if js.len() == 0 {
        labels
    } else {
        joined_labels(joined_all(labels, i, js.drop_last()), i, js.last())
    }
}

/// The labels after all edges of the first nodes of a graph.
pub open spec fn labels_of(n: nat, g: Seq<Seq<int>>) -> Seq<int>
    decreases g.len(),
{
    if g.len() == 0 {
        own_labels(n)
    } else {
        joined_all(labels_of(n, g.drop_last()), g.len() - 1, g.last())
    }
}

/// The forest `parent` has the given labels as its roots; `height` falls along
/// no edge to a parent but grows from the root.
spec fn forest(parent: Seq<usize>, labels: Seq<int>, height: Seq<nat>) -> bool {
    &&& labels.len() == parent.len()
    &&& height.len() == parent.len()
    &&& forall|x: int|
        0 <= x < parent.len() ==> {
            &&& 0 <= #[trigger] labels[x] < parent.len()
            &&& parent[x] < parent.len()
            &&& labels[parent[x] as int] == labels[x]
            &&& parent[x] == x ==> labels[x] == x
            &&& parent[x] != x ==> height[parent[x] as int] < height[x]
        }
}

/// The root of `x`, whose path is then compressed.
fn find(parent: &mut Vec<usize>, x: usize, Ghost(labels): Ghost<Seq<int>>, Ghost(height): Ghost<
    Seq<nat>,
>) -> (root: usize)
    requires
        x < old(parent)@.len(),
        forest(old(parent)@, labels, height),
    ensures
        final(parent)@.len() == old(parent)@.len(),
        forest(final(parent)@, labels, height),
        root == labels[x as int],
        root < final(parent)@.len(),
        final(parent)@[root as int] == root,
{
    let mut root: usize = x;
    assert(labels[x as int] == labels[root as int]);
    while parent[root] != root
        invariant
            x < parent@.len(),
            root < parent@.len(),
            parent@ == old(parent)@,
            forest(parent@, labels, height),
            labels[root as int] == labels[x as int],
            height[root as int] <= height[x as int],
        decreases height[root as int],
    {
        assert(labels[root as int] == labels[x as int]);
        root = parent[root];
        assert(labels[root as int] == labels[x as int]);
    }
    assert(labels[root as int] == root);
    let mut cur: usize = x;
    while parent[cur] != root
        invariant
            cur < parent@.len(),
            root < parent@.len(),
            parent@.len() == old(parent)@.len(),
            forest(parent@, labels, height),
            parent@[root as int] == root,
            labels[root as int] == root,
            labels[cur as int] == root,
        decreases height[cur as int],
    {
        let next: usize = parent[cur];
        assert(labels[cur as int] == root);
        assert(labels[next as int] == root);
        assert(parent@[cur as int] != cur);
        proof {
            lemma_root_is_lowest(parent@, labels, height, cur as int);
        }
        let ghost before = parent@;
        parent.set(cur, root);
        assert forall|y: int| 0 <= y < parent@.len() implies {
            &&& 0 <= #[trigger] labels[y] < parent@.len()
            &&& parent@[y] < parent@.len()
            &&& labels[parent@[y] as int] == labels[y]
            &&& parent@[y] == y ==> labels[y] == y
            &&& parent@[y] != y ==> height[parent@[y] as int] < height[y]
        } by {
            assert(0 <= labels[y] < before.len());
        }
        cur = next;
    }
    root
}

/// The root of a node stands lower than the node, unless it is the node.
proof fn lemma_root_is_lowest(
    parent: Seq<usize>,
    labels: Seq<int>,
    height: Seq<nat>,
    x: int,
)
    requires
        forest(parent, labels, height),
        0 <= x < parent.len(),
    ensures
        parent[labels[x]] == labels[x],
        labels[labels[x]] == labels[x],
        x != labels[x] ==> height[labels[x]] < height[x],
    decreases height[x],
{
    assert(0 <= labels[x] < parent.len());
    if parent[x] == x {
    } else {
        assert(labels[parent[x] as int] == labels[x]);
        lemma_root_is_lowest(parent, labels, height, parent[x] as int);
    }
}

/// The heights after the root of `i` has been put under that of `j`.
spec fn raised(labels: Seq<int>, height: Seq<nat>, i: int, j: int) -> Seq<nat> {
    Seq::new(
        height.len(),
        |x: int|
            if labels[x] == labels[i] {
                height[x] + height[labels[j]] + 1
            } else {
                height[x]
            },
    )
}

/// Putting one root under another joins their components.
proof fn lemma_link(parent: Seq<usize>, labels: Seq<int>, height: Seq<nat>, i: int, j: int)
    requires
        forest(parent, labels, height),
        0 <= i < parent.len(),
        0 <= j < parent.len(),
        parent.len() <= usize::MAX,
    ensures
        labels[i] == labels[j] ==> joined_labels(labels, i, j) == labels,
        labels[i] != labels[j] ==> forest(
            parent.update(labels[i], labels[j] as usize),
            joined_labels(labels, i, j),
            raised(labels, height, i, j),
        ),
{
    let ri = labels[i];
    let rj = labels[j];
    lemma_root_is_lowest(parent, labels, height, i);
    lemma_root_is_lowest(parent, labels, height, j);
    let joined = joined_labels(labels, i, j);
    if ri == rj {
        assert(joined =~= labels);
    } else {
        let linked = parent.update(ri, rj as usize);
        let high = raised(labels, height, i, j);
        assert forall|x: int| 0 <= x < linked.len() implies {
            &&& 0 <= #[trigger] joined[x] < linked.len()
            &&& linked[x] < linked.len()
            &&& joined[linked[x] as int] == joined[x]
            &&& linked[x] == x ==> joined[x] == x
            &&& linked[x] != x ==> high[linked[x] as int] < high[x]
        } by {
            assert(0 <= labels[x] < parent.len());
            assert(labels[parent[x] as int] == labels[x]);
        }
    }
}

/// Labels the nodes of the undirected graph so that two nodes bear the same
/// label exactly if they are connected; the label is a node of the component.
pub fn anon_dict_ref_components(n: usize, field_refs: &Vec<Vec<usize>>) -> (r: Vec<usize>)
    requires
        field_refs@.len() <= n,
        in_bounds(graph(field_refs@), n as int),
    ensures
        targets(r) == labels_of(n as nat, graph(field_refs@)),
{
    let mut parent: Vec<usize> = Vec::new();
    let mut i: usize = 0;
    while i < n
        invariant
            i <= n,
            parent@.len() == i,
            forall|x: int| 0 <= x < i ==> parent@[x] == x,
        decreases n - i,
    {
        parent.push(i);
        i += 1;
    }
    let ghost mut labels = own_labels(n as nat);
    let ghost mut height: Seq<nat> = Seq::new(n as nat, |x: int| 0nat);
    let ghost g = graph(field_refs@);
    assert(g.take(0) =~= Seq::empty());
    i = 0;
    while i < field_refs.len()
        invariant
            i <= field_refs.len(),
            field_refs@.len() <= n,
            parent@.len() == n,
            g == graph(field_refs@),
            in_bounds(g, n as int),
            forest(parent@, labels, height),
            labels == labels_of(n as nat, g.take(i as int)),
        decreases field_refs.len() - i,
    {
        let refs = &field_refs[i];
        let ghost first = labels;
        let ghost js = g[i as int];
        let mut k: usize = 0;
        assert(js.take(0) =~= Seq::empty());
        while k < refs.len()
            invariant
                i < field_refs.len(),
                field_refs@.len() <= n,
                k <= refs.len(),
                *refs == field_refs@[i as int],
                parent@.len() == n,
                g == graph(field_refs@),
                in_bounds(g, n as int),
                js == g[i as int],
                js.len() == refs@.len(),
                forest(parent@, labels, height),
                labels == joined_all(first, i as int, js.take(k as int)),
            decreases refs.len() - k,
        {
            let j: usize = refs[k];
            assert(g[i as int][k as int] == j);
            let ri: usize = find(&mut parent, i, Ghost(labels), Ghost(height));
            let rj: usize = find(&mut parent, j, Ghost(labels), Ghost(height));
            assert(js.take(k + 1).drop_last() =~= js.take(k as int));
            assert(js.take(k + 1).last() == j);
            proof {
                lemma_link(parent@, labels, height, i as int, j as int);
                height = if ri != rj {
                    raised(labels, height, i as int, j as int)
                } else {
                    height
                };
                labels = joined_labels(labels, i as int, j as int);
            }
            if ri != rj {
                parent.set(ri, rj);
            }
            k += 1;
        }
        assert(js.take(js.len() as int) =~= js);
        assert(g.take(i + 1).drop_last() =~= g.take(i as int));
        assert(g.take(i + 1).last() == js);
        i += 1;
    }
    assert(g.take(g.len() as int) =~= g);
    let mut out: Vec<usize> = Vec::new();
    i = 0;
    while i < n
        invariant
            i <= n,
            parent@.len() == n,
            forest(parent@, labels, height),
            out@.len() == i,
            forall|x: int| 0 <= x < i ==> (#[trigger] out@[x]) == labels[x],
        decreases n - i,
    {
        let root: usize = find(&mut parent, i, Ghost(labels), Ghost(height));
        out.push(root);
        i += 1;
    }
    assert(targets(out) =~= labels);
    out
}

// ---------------------------------------------------------------------------
// Labels and connection.
// ---------------------------------------------------------------------------

/// The nodes are joined by an edge, in either direction.
pub open spec fn adjacent(g: Seq<Seq<int>>, a: int, b: int) -> bool {
    (0 <= a < g.len() && g[a].contains(b)) || (0 <= b < g.len() && g[b].contains(a))
}

/// A walk along edges.
pub open spec fn walk(g: Seq<Seq<int>>, p: Seq<int>) -> bool {
    &&& p.len() > 0
    &&& forall|k: int| 0 <= k < p.len() - 1 ==> #[trigger] adjacent(g, p[k], p[k + 1])
}

/// There is a walk between the nodes.
pub open spec fn connected(g: Seq<Seq<int>>, a: int, b: int) -> bool {
    exists|p: Seq<int>| #[trigger] walk(g, p) && p[0] == a && p.last() == b
}

/// The edges of the first `i` nodes and the first `k` edges of node `i`.
spec fn part(g: Seq<Seq<int>>, i: int, k: int) -> Seq<Seq<int>> {
    g.take(i).push(g[i].take(k))
}

proof fn lemma_walk_join(g: Seq<Seq<int>>, p: Seq<int>, q: Seq<int>)
    requires
        walk(g, p),
        walk(g, q),
        p.last() == q[0],
    ensures
        walk(g, p + q.drop_first()),
        (p + q.drop_first())[0] == p[0],
        (p + q.drop_first()).last() == q.last(),
{
    let r = p + q.drop_first();
    assert forall|k: int| 0 <= k < r.len() - 1 implies #[trigger] adjacent(g, r[k], r[k + 1]) by {
        if k < p.len() - 1 {
            assert(adjacent(g, p[k], p[k + 1]));
        } else {
            let m = k - (p.len() - 1);
            assert(adjacent(g, q[m], q[m + 1]));
            assert(r[k] == q[m]);
        }
    }
    if q.len() > 1 {
        assert(r.last() == q.last());
    }
}

proof fn lemma_walk_reverse(g: Seq<Seq<int>>, p: Seq<int>)
    requires
        walk(g, p),
    ensures
        walk(g, p.reverse()),
        p.reverse()[0] == p.last(),
        p.reverse().last() == p[0],
{
    let r = p.reverse();
    assert forall|k: int| 0 <= k < r.len() - 1 implies #[trigger] adjacent(g, r[k], r[k + 1]) by {
        let m = p.len() - 2 - k;
        assert(adjacent(g, p[m], p[m + 1]));
    }
}

proof fn lemma_connected_grows(g: Seq<Seq<int>>, h: Seq<Seq<int>>, a: int, b: int)
    requires
        connected(g, a, b),
        forall|x: int, y: int| #[trigger] adjacent(g, x, y) ==> adjacent(h, x, y),
    ensures
        connected(h, a, b),
{
    let p = choose|p: Seq<int>| #[trigger] walk(g, p) && p[0] == a && p.last() == b;
    assert forall|k: int| 0 <= k < p.len() - 1 implies #[trigger] adjacent(h, p[k], p[k + 1]) by {
        assert(adjacent(g, p[k], p[k + 1]));
    }
    assert(walk(h, p));
}

/// Labels of equal nodes follow a walk whose edges keep the label.
proof fn lemma_walk_keeps(g: Seq<Seq<int>>, labels: Seq<int>, p: Seq<int>)
    requires
        walk(g, p),
        forall|x: int, y: int| #[trigger] adjacent(g, x, y) ==> labels[x] == labels[y],
    ensures
        labels[p[0]] == labels[p.last()],
    decreases p.len(),
{
    if p.len() > 1 {
        let q = p.drop_last();
        assert forall|k: int| 0 <= k < q.len() - 1 implies #[trigger] adjacent(
            g,
            q[k],
            q[k + 1],
        ) by {
            assert(adjacent(g, p[k], p[k + 1]));
        }
        lemma_walk_keeps(g, labels, q);
        assert(adjacent(g, p[p.len() - 2], p[p.len() - 2 + 1]));
    }
}

/// What holds of the labels of the graph `h` on `n` nodes.
spec fn labelled(n: nat, h: Seq<Seq<int>>, labels: Seq<int>) -> bool {
    &&& labels.len() == n
    &&& forall|a: int, b: int| #[trigger] adjacent(h, a, b) ==> labels[a] == labels[b]
    &&& forall|a: int|
        0 <= a < n ==> 0 <= #[trigger] labels[a] < n && connected(h, a, labels[a])
}

proof fn lemma_labelled_step(n: nat, g: Seq<Seq<int>>, labels: Seq<int>, i: int, k: int)
    requires
        in_bounds(g, n as int),
        0 <= i < g.len() <= n,
        0 <= k < g[i].len(),
        labelled(n, part(g, i, k), labels),
    ensures
        labelled(n, part(g, i, k + 1), joined_labels(labels, i, g[i][k])),
{
    let j = g[i][k];
    let h = part(g, i, k);
    let h2 = part(g, i, k + 1);
    let after = joined_labels(labels, i, j);
    assert forall|x: int, y: int| #[trigger] adjacent(h, x, y) implies adjacent(h2, x, y) by {
        if 0 <= x < h.len() && h[x].contains(y) {
            let m = choose|m: int| 0 <= m < h[x].len() && h[x][m] == y;
            assert(h2[x][m] == y);
        } else {
            let m = choose|m: int| 0 <= m < h[y].len() && h[y][m] == x;
            assert(h2[y][m] == x);
        }
    }
    assert(h2[i][k] == j);
    assert(h2[i].contains(j));
    assert(adjacent(h2, i, j));
    assert forall|a: int, b: int| #[trigger] adjacent(h2, a, b) implies after[a] == after[b] by {
        lemma_edge_of_step(g, i, k, a, b);
        assert(0 <= labels[i] < n && 0 <= labels[j] < n);
        if adjacent(h, a, b) {
            lemma_ends_in_bounds(g, n, i, k, a, b);
        }
    }
    assert forall|a: int| 0 <= a < n implies 0 <= #[trigger] after[a] < n && connected(
        h2,
        a,
        after[a],
    ) by {
        assert(0 <= labels[a] < n && connected(h, a, labels[a]));
        assert(0 <= labels[j] < n && connected(h, j, labels[j]));
        assert(0 <= labels[i] < n && connected(h, i, labels[i]));
        lemma_connected_grows(h, h2, a, labels[a]);
        if labels[a] == labels[i] {
            lemma_connected_grows(h, h2, i, labels[i]);
            lemma_connected_grows(h, h2, j, labels[j]);
            let p = choose|p: Seq<int>|
                #[trigger] walk(h2, p) && p[0] == a && p.last() == labels[a];
            let q = choose|p: Seq<int>|
                #[trigger] walk(h2, p) && p[0] == i && p.last() == labels[i];
            let s = choose|p: Seq<int>|
                #[trigger] walk(h2, p) && p[0] == j && p.last() == labels[j];
            lemma_walk_reverse(h2, q);
            let one = p + q.reverse().drop_first();
            lemma_walk_join(h2, p, q.reverse());
            let edge = seq![i, j];
            assert(walk(h2, edge));
            lemma_walk_join(h2, one, edge);
            let two = one + edge.drop_first();
            lemma_walk_join(h2, two, s);
        }
    }
}

/// An edge of the longer part is one of the shorter part, or the new one.
proof fn lemma_edge_of_step(g: Seq<Seq<int>>, i: int, k: int, a: int, b: int)
    requires
        0 <= i < g.len(),
        0 <= k < g[i].len(),
        adjacent(part(g, i, k + 1), a, b),
    ensures
        adjacent(part(g, i, k), a, b) || (a == i && b == g[i][k]) || (b == i && a == g[i][k]),
{
    let h = part(g, i, k);
    let h2 = part(g, i, k + 1);
    if 0 <= a < h2.len() && h2[a].contains(b) {
        let m = choose|m: int| 0 <= m < h2[a].len() && h2[a][m] == b;
        if a < i || m < k {
            assert(h[a][m] == b);
            assert(h[a].contains(b));
        }
    } else {
        let m = choose|m: int| 0 <= m < h2[b].len() && h2[b][m] == a;
        if b < i || m < k {
            assert(h[b][m] == a);
            assert(h[b].contains(a));
        }
    }
}

proof fn lemma_ends_in_bounds(g: Seq<Seq<int>>, n: nat, i: int, k: int, a: int, b: int)
    requires
        in_bounds(g, n as int),
        0 <= i < g.len() <= n,
        0 <= k < g[i].len(),
        adjacent(part(g, i, k), a, b),
    ensures
        0 <= a < n,
        0 <= b < n,
{
    let h = part(g, i, k);
    if 0 <= a < h.len() && h[a].contains(b) {
        let m = choose|m: int| 0 <= m < h[a].len() && h[a][m] == b;
        assert(h[a][m] == g[a][m]);
    } else {
        let m = choose|m: int| 0 <= m < h[b].len() && h[b][m] == a;
        assert(h[b][m] == g[b][m]);
    }
}

proof fn lemma_labelled_node(n: nat, g: Seq<Seq<int>>, labels: Seq<int>, i: int, k: int)
    requires
        in_bounds(g, n as int),
        0 <= i < g.len() <= n,
        0 <= k <= g[i].len(),
        labelled(n, part(g, i, 0), labels),
    ensures
        labelled(n, part(g, i, k), joined_all(labels, i, g[i].take(k))),
    decreases k,
{
    if k == 0 {
        assert(g[i].take(0) =~= Seq::empty());
    } else {
        lemma_labelled_node(n, g, labels, i, k - 1);
        assert(g[i].take(k).drop_last() =~= g[i].take(k - 1));
        assert(g[i].take(k).last() == g[i][k - 1]);
        lemma_labelled_step(n, g, joined_all(labels, i, g[i].take(k - 1)), i, k - 1);
    }
}

proof fn lemma_same_edges(n: nat, h: Seq<Seq<int>>, h2: Seq<Seq<int>>, labels: Seq<int>)
    requires
        labelled(n, h, labels),
        forall|x: int, y: int| #![auto] adjacent(h, x, y) <==> adjacent(h2, x, y),
    ensures
        labelled(n, h2, labels),
{
    assert forall|a: int| 0 <= a < n implies 0 <= #[trigger] labels[a] < n && connected(
        h2,
        a,
        labels[a],
    ) by {
        lemma_connected_grows(h, h2, a, labels[a]);
    }
}

proof fn lemma_labelled(n: nat, g: Seq<Seq<int>>, i: int)
    requires
        in_bounds(g, n as int),
        0 <= i <= g.len() <= n,
    ensures
        labelled(n, g.take(i), labels_of(n, g.take(i))),
    decreases i,
{
    if i == 0 {
        let h = g.take(0);
        assert(h =~= Seq::empty());
        let own = own_labels(n);
        assert forall|a: int| 0 <= a < n implies 0 <= #[trigger] own[a] < n && connected(
            h,
            a,
            own[a],
        ) by {
            assert(walk(h, seq![a]));
        }
    } else {
        lemma_labelled(n, g, i - 1);
        let before = labels_of(n, g.take(i - 1));
        assert(g.take(i).drop_last() =~= g.take(i - 1));
        assert(g.take(i).last() == g[i - 1]);
        let h = g.take(i - 1);
        let h2 = part(g, i - 1, 0);
        assert forall|x: int, y: int| #![auto] adjacent(h, x, y) <==> adjacent(h2, x, y) by {
            assert forall|z: int| 0 <= z < h.len() implies h[z] == h2[z] by {}
            assert(h2[i - 1].len() == 0);
        }
        lemma_same_edges(n, h, h2, before);
        lemma_labelled_node(n, g, before, i - 1, g[i - 1].len() as int);
        assert(g[i - 1].take(g[i - 1].len() as int) =~= g[i - 1]);
        assert(part(g, i - 1, g[i - 1].len() as int) =~= g.take(i));
    }
}

/// Two nodes bear the same label exactly if they are connected, and the label
/// of a node is a node that it is connected to.
pub proof fn law_components(n: nat, g: Seq<Seq<int>>, a: int, b: int)
    requires
        g.len() <= n,
        in_bounds(g, n as int),
        0 <= a < n,
        0 <= b < n,
    ensures
        labels_of(n, g).len() == n,
        labels_of(n, g)[a] == labels_of(n, g)[b] <==> connected(g, a, b),
        0 <= labels_of(n, g)[a] < n,
        connected(g, a, labels_of(n, g)[a]),
{
    lemma_labelled(n, g, g.len() as int);
    assert(g.take(g.len() as int) =~= g);
    let labels = labels_of(n, g);
    assert(0 <= labels[a] < n && connected(g, a, labels[a]));
    assert(0 <= labels[b] < n && connected(g, b, labels[b]));
    if labels[a] == labels[b] {
        let p = choose|p: Seq<int>| #[trigger] walk(g, p) && p[0] == a && p.last() == labels[a];
        let q = choose|p: Seq<int>| #[trigger] walk(g, p) && p[0] == b && p.last() == labels[b];
        lemma_walk_reverse(g, q);
        lemma_walk_join(g, p, q.reverse());
    }
    if connected(g, a, b) {
        let p = choose|p: Seq<int>| #[trigger] walk(g, p) && p[0] == a && p.last() == b;
        lemma_walk_keeps(g, labels, p);
    }
}

} // verus!
