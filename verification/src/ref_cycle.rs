//! Finding a cycle by depth-first search.

use vstd::prelude::*;

use crate::components::{graph, in_bounds, targets};
use crate::schedule::{cycle, steps};

verus! {

/// How many nodes have not been visited.
spec fn unvisited(visited: Seq<bool>) -> nat
    decreases visited.len(),
{
    if visited.len() == 0 {
        0
    } else {
        unvisited(visited.drop_last()) + if visited.last() {
            0nat
        } else {
            1nat
        }
    }
}

proof fn lemma_unvisited(before: Seq<bool>, after: Seq<bool>)
    requires
        before.len() == after.len(),
        forall|x: int| 0 <= x < before.len() && #[trigger] before[x] ==> after[x],
    ensures
        unvisited(after) <= unvisited(before),
        forall|x: int|
            0 <= x < before.len() && !before[x] && #[trigger] after[x] ==> unvisited(after)
                < unvisited(before),
    decreases before.len(),
{
    if before.len() > 0 {
        let b = before.drop_last();
        let a = after.drop_last();
        assert forall|x: int| 0 <= x < b.len() && #[trigger] b[x] implies a[x] by {
            assert(before[x]);
        }
        lemma_unvisited(b, a);
        assert forall|x: int|
            0 <= x < before.len() && !before[x] && #[trigger] after[x] implies unvisited(after)
            < unvisited(before) by {
            if x < b.len() {
                assert(!b[x] && a[x]);
            }
        }
    }
}

/// The state of a search: `stack` is the walk to the node at hand, and `left`
/// the nodes left for good, each behind all nodes that its edges lead to.
pub open spec fn searching(
    h: Seq<Seq<int>>,
    visited: Seq<bool>,
    on_stack: Seq<bool>,
    stack: Seq<int>,
    left: Seq<int>,
) -> bool {
    &&& visited.len() == h.len()
    &&& on_stack.len() == h.len()
    &&& in_bounds(h, h.len() as int)
    &&& forall|k: int| 0 <= k < stack.len() ==> 0 <= #[trigger] stack[k] < h.len()
    &&& forall|x: int| 0 <= x < h.len() ==> #[trigger] on_stack[x] == stack.contains(x)
    &&& forall|k: int| 0 <= k < stack.len() - 1 ==> #[trigger] steps(h, stack[k], stack[k + 1])
    &&& forall|x: int|
        0 <= x < h.len() ==> #[trigger] visited[x] == (stack.contains(x) || left.contains(x))
    &&& stack.no_duplicates()
    &&& forall|x: int| stack.contains(x) ==> !#[trigger] left.contains(x)
    &&& closed_behind(h, left)
}

/// Each node stands behind all nodes that its edges lead to.
pub open spec fn closed_behind(h: Seq<Seq<int>>, left: Seq<int>) -> bool {
    &&& left.no_duplicates()
    &&& forall|p: int| 0 <= p < left.len() ==> 0 <= #[trigger] left[p] < h.len()
    &&& forall|p: int, k: int|
        0 <= p < left.len() && 0 <= k < h[left[p]].len() ==> left.take(p).contains(
            #[trigger] h[left[p]][k],
        )
}

/// The nodes of `stack` from `node` on, and then `node` again.
fn close_cycle(stack: &Vec<usize>, node: usize, Ghost(h): Ghost<Seq<Seq<int>>>) -> (r: Vec<usize>)
    requires
        targets(*stack).contains(node as int),
        forall|k: int| 0 <= k < stack@.len() ==> 0 <= #[trigger] targets(*stack)[k] < h.len(),
        forall|k: int|
            0 <= k < stack@.len() - 1 ==> #[trigger] steps(
                h,
                targets(*stack)[k],
                targets(*stack)[k + 1],
            ),
        steps(h, targets(*stack).last(), node as int),
    ensures
        cycle(h, targets(r)),
{
    let ghost s = targets(*stack);
    let mut at: usize = 0;
    proof {
        let k = choose|k: int| 0 <= k < s.len() && s[k] == node;
        assert(stack@[k] == node);
    }
    while at < stack.len() && stack[at] != node
        invariant
            at <= stack@.len(),
            s == targets(*stack),
            exists|k: int| at <= k < stack@.len() && #[trigger] stack@[k] == node,
        decreases stack@.len() - at,
    {
        at += 1;
    }
    let ghost start = at as int;
    let mut r: Vec<usize> = Vec::new();
    while at < stack.len()
        invariant
            0 <= start <= at <= stack@.len(),
            s == targets(*stack),
            r@ =~= stack@.subrange(start, at as int),
        decreases stack@.len() - at,
    {
        r.push(stack[at]);
        at += 1;
    }
    r.push(node);
    let ghost c = targets(r);
    proof {
        assert(c.len() == s.len() - start + 1);
        assert forall|k: int| 0 <= k < c.len() implies 0 <= #[trigger] c[k] < h.len() by {
            if k < c.len() - 1 {
                assert(c[k] == s[start + k]);
            } else {
                assert(c[k] == s[start]);
            }
        }
        assert forall|k: int| 0 <= k < c.len() - 1 implies #[trigger] steps(
            h,
            c[k],
            c[k + 1],
        ) by {
            assert(c[k] == s[start + k]);
            if k < c.len() - 2 {
                assert(steps(h, s[start + k], s[start + k + 1]));
                assert(c[k + 1] == s[start + k + 1]);
            }
        }
    }
    r
}

/// Searches from `node`. Without a cycle, the node and all that it leads to
/// have been left when the search returns.
fn dfs_find_cycle(
    node: usize,
    outgoing: &Vec<Vec<usize>>,
    visited: &mut Vec<bool>,
    on_stack: &mut Vec<bool>,
    stack: &mut Vec<usize>,
    Ghost(left): Ghost<Seq<int>>,
) -> (r: (Option<Vec<usize>>, Ghost<Seq<int>>))
    requires
        searching(graph(outgoing@), old(visited)@, old(on_stack)@, targets(*old(stack)), left),
        node < outgoing@.len(),
        !old(visited)@[node as int],
        old(stack)@.len() > 0 ==> steps(
            graph(outgoing@),
            targets(*old(stack)).last(),
            node as int,
        ),
    ensures
        match r.0 {
            Some(c) => cycle(graph(outgoing@), targets(c)),
            None => {
                &&& targets(*final(stack)) == targets(*old(stack))
                &&& searching(
                    graph(outgoing@),
                    final(visited)@,
                    final(on_stack)@,
                    targets(*final(stack)),
                    r.1@,
                )
                &&& final(visited)@[node as int]
                &&& forall|x: int|
                    0 <= x < old(visited)@.len() && #[trigger] old(visited)@[x]
                        ==> final(visited)@[x]
            },
        },
    decreases unvisited(old(visited)@),
{
    let ghost h = graph(outgoing@);
    let ghost before = visited@;
    let ghost path = targets(*stack);
    let mut gone: Ghost<Seq<int>> = Ghost(left);
    visited.set(node, true);
    on_stack.set(node, true);
    stack.push(node);
    let ghost here = targets(*stack);
    proof {
        assert(here =~= path.push(node as int));
        lemma_enter(h, before, old(on_stack)@, path, left, node as int);
        assert(visited@ =~= before.update(node as int, true));
        assert(visited@[node as int]);
        lemma_unvisited(before, visited@);
    }
    let mut k: usize = 0;
    while k < outgoing[node].len()
        invariant
            node < outgoing@.len(),
            h == graph(outgoing@),
            k <= outgoing@[node as int]@.len(),
            here == path.push(node as int),
            targets(*stack) == here,
            searching(h, visited@, on_stack@, here, gone@),
            before.len() == visited@.len(),
            visited@[node as int],
            forall|x: int| 0 <= x < before.len() && #[trigger] before[x] ==> visited@[x],
            unvisited(visited@) < unvisited(before),
            before == old(visited)@,
            forall|m: int| 0 <= m < k ==> gone@.contains(#[trigger] h[node as int][m]),
        decreases outgoing@[node as int]@.len() - k,
    {
        let next: usize = outgoing[node][k];
        assert(h[node as int][k as int] == next);
        assert(h[node as int].contains(next as int));
        assert(steps(h, here.last(), next as int));
        if on_stack[next] {
            return (Some(close_cycle(stack, next, Ghost(h))), gone);
        }
        if !visited[next] {
            let ghost seen = visited@;
            let ghost past = gone@;
            let (found, after) = dfs_find_cycle(
                next,
                outgoing,
                visited,
                on_stack,
                stack,
                Ghost(gone@),
            );
            match found {
                Some(c) => {
                    return (Some(c), gone);
                },
                None => {},
            }
            gone = after;
            proof {
                lemma_unvisited(seen, visited@);
                assert(on_stack@[next as int] == here.contains(next as int));
                assert forall|m: int| 0 <= m < k implies gone@.contains(
                    #[trigger] h[node as int][m],
                ) by {
                    let y = h[node as int][m];
                    assert(past.contains(y));
                    assert(0 <= y < h.len());
                    assert(seen[y]);
                    assert(visited@[y]);
                    assert(!here.contains(y));
                }
                assert forall|x: int| 0 <= x < before.len() && #[trigger] before[x] implies
                    visited@[x] by {
                    assert(seen[x]);
                }
                assert(seen[node as int]);
            }
        }
        assert(visited@[next as int] && !here.contains(next as int)) by {
            assert(on_stack@[next as int] == here.contains(next as int));
        }
        k += 1;
    }
    on_stack.set(node, false);
    let ghost full = stack@;
    assert(targets(*stack).len() == full.len());
    stack.pop();
    proof {
        assert forall|m: int| 0 <= m < path.len() implies targets(*stack)[m] == path[m] by {
            assert(here[m] == full[m]);
        }
        assert(targets(*stack) =~= path);
        assert forall|m: int| 0 <= m < h[node as int].len() implies gone@.contains(
            #[trigger] h[node as int][m],
        ) by {}
        lemma_leave(h, visited@, path, gone@, node as int, on_stack@);
        gone@ = gone@.push(node as int);
    }
    (None, gone)
}

/// Entering an unvisited node keeps the state.
proof fn lemma_enter(
    h: Seq<Seq<int>>,
    visited: Seq<bool>,
    on_stack: Seq<bool>,
    path: Seq<int>,
    left: Seq<int>,
    node: int,
)
    requires
        searching(h, visited, on_stack, path, left),
        0 <= node < h.len(),
        !visited[node],
        path.len() > 0 ==> steps(h, path.last(), node),
    ensures
        searching(
            h,
            visited.update(node, true),
            on_stack.update(node, true),
            path.push(node),
            left,
        ),
{
    let here = path.push(node);
    assert(here[path.len() as int] == node);
    assert forall|x: int| here.contains(x) <==> path.contains(x) || x == node by {
        if path.contains(x) {
            let k = choose|k: int| 0 <= k < path.len() && path[k] == x;
            assert(here[k] == x);
        }
    }
    assert forall|k: int| 0 <= k < here.len() - 1 implies #[trigger] steps(
        h,
        here[k],
        here[k + 1],
    ) by {
        if k < path.len() - 1 {
            assert(steps(h, path[k], path[k + 1]));
        }
    }
    assert(visited[node] == (path.contains(node) || left.contains(node)));
    assert forall|a: int, b: int| 0 <= a < here.len() && 0 <= b < here.len() && a != b implies
        here[a] != here[b] by {
        if a == path.len() {
            assert(path[b] == here[b]);
        } else if b == path.len() {
            assert(path[a] == here[a]);
        }
    }
    let v2 = visited.update(node, true);
    let o2 = on_stack.update(node, true);
    assert forall|x: int| 0 <= x < h.len() implies #[trigger] o2[x] == here.contains(x) by {
        assert(on_stack[x] == path.contains(x));
    }
    assert forall|x: int| 0 <= x < h.len() implies #[trigger] v2[x] == (here.contains(x)
        || left.contains(x)) by {
        assert(visited[x] == (path.contains(x) || left.contains(x)));
    }
}

/// Leaving a node whose targets have all been left keeps the state.
proof fn lemma_leave(
    h: Seq<Seq<int>>,
    visited: Seq<bool>,
    path: Seq<int>,
    left: Seq<int>,
    node: int,
    on_stack: Seq<bool>,
)
    requires
        searching(h, visited, on_stack.update(node, true), path.push(node), left),
        on_stack.len() == h.len(),
        !on_stack[node],
        0 <= node < h.len(),
        forall|m: int| 0 <= m < h[node].len() ==> left.contains(#[trigger] h[node][m]),
    ensures
        searching(h, visited, on_stack, path, left.push(node)),
{
    let here = path.push(node);
    let more = left.push(node);
    let o1 = on_stack.update(node, true);
    assert(here[path.len() as int] == node);
    assert forall|x: int| here.contains(x) <==> path.contains(x) || x == node by {
        if path.contains(x) {
            let k = choose|k: int| 0 <= k < path.len() && path[k] == x;
            assert(here[k] == x);
        }
    }
    assert(!path.contains(node)) by {
        if path.contains(node) {
            let k = choose|k: int| 0 <= k < path.len() && path[k] == node;
            assert(here[k] == here[path.len() as int]);
        }
    }
    assert forall|x: int| more.contains(x) <==> left.contains(x) || x == node by {
        if left.contains(x) {
            let k = choose|k: int| 0 <= k < left.len() && left[k] == x;
            assert(more[k] == x);
        }
        if x == node {
            assert(more[left.len() as int] == node);
        }
    }
    assert forall|k: int| 0 <= k < path.len() implies 0 <= #[trigger] path[k] < h.len() by {
        assert(here[k] == path[k]);
    }
    assert forall|x: int| 0 <= x < h.len() implies #[trigger] on_stack[x] == path.contains(x) by {
        assert(o1[x] == here.contains(x));
    }
    assert forall|k: int| 0 <= k < path.len() - 1 implies #[trigger] steps(
        h,
        path[k],
        path[k + 1],
    ) by {
        assert(steps(h, here[k], here[k + 1]));
    }
    assert forall|a: int, b: int| 0 <= a < path.len() && 0 <= b < path.len() && a != b implies
        path[a] != path[b] by {
        assert(here[a] != here[b]);
    }
    assert(!left.contains(node)) by {
        assert(here.contains(node));
    }
    assert forall|a: int, b: int| 0 <= a < more.len() && 0 <= b < more.len() && a != b implies
        more[a] != more[b] by {
        if a == left.len() {
            assert(left[b] == more[b]);
        } else if b == left.len() {
            assert(left[a] == more[a]);
        } else {
            assert(left[a] != left[b]);
        }
    }
    assert forall|p: int, k: int| 0 <= p < more.len() && 0 <= k < h[more[p]].len() implies more.take(
        p,
    ).contains(#[trigger] h[more[p]][k]) by {
        assert(more.take(p) =~= left.take(p));
        if p == left.len() {
            assert(left.take(p) =~= left);
            assert(left.contains(h[node][k]));
        } else {
            assert(left.take(p).contains(h[left[p]][k]));
        }
    }
    assert forall|p: int| 0 <= p < more.len() implies 0 <= #[trigger] more[p] < h.len() by {
        if p < left.len() {
            assert(0 <= left[p] < h.len());
        }
    }
    assert forall|x: int| path.contains(x) implies !#[trigger] more.contains(x) by {
        assert(here.contains(x));
        assert(!left.contains(x));
    }
}

/// A cycle never lies among nodes that have all been left.
proof fn lemma_left_has_no_cycle(h: Seq<Seq<int>>, left: Seq<int>, p: Seq<int>, k: int) -> (r: int)
    requires
        closed_behind(h, left),
        cycle(h, p),
        left.contains(p[0]),
        0 <= k < p.len(),
    ensures
        0 <= r < left.len(),
        left[r] == p[k],
        k > 0 ==> r < left.index_of(p[0]),
        k == 0 ==> r == left.index_of(p[0]),
    decreases k,
{
    if k == 0 {
        left.index_of(p[0])
    } else {
        let before = lemma_left_has_no_cycle(h, left, p, k - 1);
        assert(steps(h, p[k - 1], p[k - 1 + 1]));
        let out = h[p[k - 1]];
        let m = choose|m: int| 0 <= m < out.len() && out[m] == p[k];
        assert(left.take(before).contains(h[left[before]][m]));
        choose|r: int| 0 <= r < left.take(before).len() && left.take(before)[r] == p[k]
    }
}

/// Searches for a cycle from every node that still waits for another one.
pub fn find_ref_cycle(outgoing: &Vec<Vec<usize>>, incoming: &Vec<usize>) -> (r: Option<Vec<usize>>)
    requires
        in_bounds(graph(outgoing@), outgoing@.len() as int),
        incoming@.len() == outgoing@.len(),
    ensures
        match r {
            Some(c) => cycle(graph(outgoing@), targets(c)),
            None => forall|p: Seq<int>| #[trigger]
                cycle(graph(outgoing@), p) ==> incoming@[p[0]] == 0,
        },
{
    let n: usize = outgoing.len();
    let ghost h = graph(outgoing@);
    let mut visited: Vec<bool> = Vec::new();
    let mut on_stack: Vec<bool> = Vec::new();
    let mut stack: Vec<usize> = Vec::new();
    let mut i: usize = 0;
    while i < n
        invariant
            i <= n,
            visited@.len() == i,
            on_stack@.len() == i,
            forall|x: int| 0 <= x < i ==> !#[trigger] visited@[x],
            forall|x: int| 0 <= x < i ==> !#[trigger] on_stack@[x],
        decreases n - i,
    {
        visited.push(false);
        on_stack.push(false);
        i += 1;
    }
    let mut left: Ghost<Seq<int>> = Ghost(Seq::empty());
    assert(targets(stack) =~= Seq::empty());
    i = 0;
    while i < n
        invariant
            i <= n,
            n == outgoing@.len(),
            h == graph(outgoing@),
            incoming@.len() == n,
            targets(stack) == Seq::<int>::empty(),
            searching(h, visited@, on_stack@, targets(stack), left@),
            forall|x: int|
                0 <= x < i && #[trigger] incoming@[x] != 0 ==> visited@[x],
        decreases n - i,
    {
        if !visited[i] && incoming[i] != 0 {
            let ghost seen = visited@;
            assert(stack@.len() == targets(stack).len());
            let (found, after) = dfs_find_cycle(
                i,
                outgoing,
                &mut visited,
                &mut on_stack,
                &mut stack,
                Ghost(left@),
            );
            match found {
                Some(c) => {
                    return Some(c);
                },
                None => {},
            }
            left = after;
            assert forall|x: int| 0 <= x < i + 1 && #[trigger] incoming@[x] != 0 implies
                visited@[x] by {
                if x < i {
                    assert(seen[x]);
                }
            }
        }
        i += 1;
    }
    assert forall|p: Seq<int>| #[trigger] cycle(h, p) implies incoming@[p[0]] == 0 by {
        if incoming@[p[0]] != 0 {
            assert(0 <= p[0] < h.len());
            assert(visited@[p[0]] == (targets(stack).contains(p[0]) || left@.contains(p[0])));
            let r = lemma_left_has_no_cycle(h, left@, p, p.len() - 1);
            assert(left@[r] == left@[left@.index_of(p[0])]);
        }
    }
    None
}

} // verus!
