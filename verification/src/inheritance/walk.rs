//! The breadth-first walk over the edges of an inheritance graph, as a
//! function of the edges alone, and what holds of it.
//!
//! Nodes are numbers, an edge leads from a node to a node with a kind, and
//! the edges stand in the order in which they were added.

use crate::inheritance::{Edge, InheritKind};
use vstd::prelude::*;

verus! {

/// The edges that leave a node, each as its target and its kind, in the
/// order in which they were added.
pub open spec fn outgoing(edges: Seq<Edge>, from: int) -> Seq<(int, InheritKind)>
    decreases edges.len(),
{
    if edges.len() == 0 {
        Seq::empty()
    } else {
        let before = outgoing(edges.drop_last(), from);
        if edges.last().0 == from {
            before.push((edges.last().1, edges.last().2))
        } else {
            before
        }
    }
}

/// Whether a node was discovered already: it is the start, or among what was
/// found.
pub open spec fn known(start: int, found: Seq<(int, InheritKind)>, node: int) -> bool {
    node == start || exists|i: int| 0 <= i < found.len() && found[i].0 == node
}

/// A node is known once more was found exactly where it was known before or
/// is what was found last.
pub proof fn lemma_known_push(start: int, found: Seq<(int, InheritKind)>, last: (int, InheritKind))
    ensures
        forall|node: int| #[trigger]
            known(start, found.push(last), node) <==> known(start, found, node) || node == last.0,
{
    let more = found.push(last);
    assert forall|node: int| #[trigger]
        known(start, more, node) <==> known(start, found, node) || node == last.0 by {
        if known(start, more, node) && node != start {
            let i = choose|i: int| 0 <= i < more.len() && more[i].0 == node;
            if i < found.len() {
                assert(found[i].0 == node);
            }
        }
        if known(start, found, node) && node != start {
            let i = choose|i: int| 0 <= i < found.len() && found[i].0 == node;
            assert(more[i].0 == node);
        }
        if node == last.0 {
            assert(more[found.len() as int].0 == node);
        }
    }
}

/// What is found once the edges `out` of one node, from the `j`-th on, were
/// looked at in order: each target that was not known before is found, with
/// the kind of the edge that led to it first.
pub open spec fn discover(
    start: int,
    found: Seq<(int, InheritKind)>,
    out: Seq<(int, InheritKind)>,
    j: int,
) -> Seq<(int, InheritKind)>
    decreases out.len() - j,
{
    if j < 0 || j >= out.len() {
        found
    } else if known(start, found, out[j].0) {
        discover(start, found, out, j + 1)
    } else {
        discover(start, found.push(out[j]), out, j + 1)
    }
}

/// The breadth-first walk. The nodes are expanded in the order in which they
/// were discovered: the start first, then what was found, from the `i`-th
/// on. At most `budget` nodes are expanded.
pub open spec fn walk(
    edges: Seq<Edge>,
    start: int,
    found: Seq<(int, InheritKind)>,
    i: int,
    budget: nat,
) -> Seq<(int, InheritKind)>
    decreases budget,
{
    if budget == 0 || i < 0 || i > found.len() {
        found
    } else {
        let node = if i == 0 {
            start
        } else {
            found[i - 1].0
        };
        walk(
            edges,
            start,
            discover(start, found, outgoing(edges, node), 0),
            i + 1,
            (budget - 1) as nat,
        )
    }
}

/// The ancestors of a node in the order in which a breadth-first walk over
/// the edges discovers them, each with the kind of the edge that led to it
/// first. The nearest come first; those of one node come in the order in
/// which their edges were added. No node comes twice, and the start does not
/// come at all. Each of the `count` nodes of the graph is expanded at most
/// once.
pub open spec fn ancestors(edges: Seq<Edge>, count: nat, start: int) -> Seq<(int, InheritKind)> {
    walk(edges, start, Seq::empty(), 0, count)
}

/// Whether every edge joins two of the first `count` nodes.
pub open spec fn edges_in_range(edges: Seq<Edge>, count: int) -> bool {
    forall|i: int|
        0 <= i < edges.len() ==> 0 <= (#[trigger] edges[i]).0 < count && 0 <= edges[i].1 < count
}

/// Whether no edge stands twice: at most one of a kind from one node to
/// another.
pub open spec fn edges_distinct(edges: Seq<Edge>) -> bool {
    forall|i: int, j: int| 0 <= i < j < edges.len() ==> edges[i] != edges[j]
}

/// Whether no name stands twice.
pub open spec fn names_distinct(names: Seq<Seq<char>>) -> bool {
    forall|i: int, j: int| 0 <= i < j < names.len() ==> names[i] != names[j]
}

/// The edges that leave a node are the edges of the graph that start there.
pub proof fn lemma_outgoing(edges: Seq<Edge>, from: int)
    ensures
        forall|to: int, kind: InheritKind|
            outgoing(edges, from).contains((to, kind)) <==> edges.contains((from, to, kind)),
        forall|i: int|
            0 <= i < outgoing(edges, from).len() ==> edges.contains(
                (from, (#[trigger] outgoing(edges, from)[i]).0, outgoing(edges, from)[i].1),
            ),
    decreases edges.len(),
{
    let out = outgoing(edges, from);
    if edges.len() > 0 {
        let before = edges.drop_last();
        lemma_outgoing(before, from);
        let last = edges.last();
        assert forall|to: int, kind: InheritKind|
            out.contains((to, kind)) <==> edges.contains((from, to, kind)) by {
            if out.contains((to, kind)) {
                let i = choose|i: int| 0 <= i < out.len() && out[i] == (to, kind);
                if i < outgoing(before, from).len() {
                    assert(outgoing(before, from)[i] == (to, kind));
                    assert(outgoing(before, from).contains((to, kind)));
                    let k = choose|k: int| 0 <= k < before.len() && before[k] == (from, to, kind);
                    assert(edges[k] == (from, to, kind));
                } else {
                    assert(edges[edges.len() - 1] == (from, to, kind));
                }
            }
            if edges.contains((from, to, kind)) {
                let k = choose|k: int| 0 <= k < edges.len() && edges[k] == (from, to, kind);
                if k < before.len() {
                    assert(before[k] == (from, to, kind));
                    assert(before.contains((from, to, kind)));
                    let i = choose|i: int|
                        0 <= i < outgoing(before, from).len() && outgoing(before, from)[i] == (
                            to,
                            kind,
                        );
                    assert(out[i] == (to, kind));
                } else {
                    assert(out[out.len() - 1] == (to, kind));
                }
            }
        }
        assert forall|i: int| 0 <= i < out.len() implies edges.contains(
            (from, (#[trigger] out[i]).0, out[i].1),
        ) by {
            assert(out.contains((out[i].0, out[i].1)));
        }
    }
}

/// Whether what was found is sound: no node comes twice, the start does not
/// come at all, and each is one of the first `count` nodes.
pub open spec fn sound(start: int, found: Seq<(int, InheritKind)>, count: int) -> bool {
    &&& forall|i: int| 0 <= i < found.len() ==> (#[trigger] found[i]).0 != start
    &&& forall|i: int, j: int|
        0 <= i < j < found.len() ==> (#[trigger] found[i]).0 != (#[trigger] found[j]).0
    &&& forall|i: int| 0 <= i < found.len() ==> 0 <= (#[trigger] found[i]).0 < count
}

/// Looking at the edges of a node keeps what was found sound.
proof fn lemma_discover_sound(
    start: int,
    found: Seq<(int, InheritKind)>,
    out: Seq<(int, InheritKind)>,
    j: int,
    count: int,
)
    requires
        sound(start, found, count),
        forall|k: int| 0 <= k < out.len() ==> 0 <= (#[trigger] out[k]).0 < count,
    ensures
        sound(start, discover(start, found, out, j), count),
        discover(start, found, out, j).len() >= found.len(),
    decreases out.len() - j,
{
    if 0 <= j < out.len() {
        if known(start, found, out[j].0) {
            lemma_discover_sound(start, found, out, j + 1, count);
        } else {
            let more = found.push(out[j]);
            assert forall|a: int, b: int| 0 <= a < b < more.len() implies (#[trigger] more[a]).0
                != (#[trigger] more[b]).0 by {
                if b == found.len() {
                    assert(found[a].0 != out[j].0);
                }
            }
            lemma_discover_sound(start, more, out, j + 1, count);
        }
    }
}

/// The targets of the edges that leave a node are nodes of the graph.
proof fn lemma_outgoing_in_range(edges: Seq<Edge>, from: int, count: int)
    requires
        edges_in_range(edges, count),
    ensures
        forall|k: int|
            0 <= k < outgoing(edges, from).len() ==> 0 <= (#[trigger] outgoing(edges, from)[k]).0
                < count,
{
    lemma_outgoing(edges, from);
    let out = outgoing(edges, from);
    assert forall|k: int| 0 <= k < out.len() implies 0 <= (#[trigger] out[k]).0 < count by {
        assert(edges.contains((from, out[k].0, out[k].1)));
        let at = choose|at: int| 0 <= at < edges.len() && edges[at] == (from, out[k].0, out[k].1);
        assert(0 <= edges[at].1 < count);
    }
}

/// Sound findings are fewer than the nodes of the graph: they are distinct
/// nodes, and the start is none of them.
proof fn lemma_sound_is_short(start: int, found: Seq<(int, InheritKind)>, count: int)
    requires
        sound(start, found, count),
        0 <= start < count,
    ensures
        found.len() + 1 <= count,
{
    let nodes = seq![start] + found.map_values(|e: (int, InheritKind)| e.0);
    assert forall|i: int, j: int|
        0 <= i < nodes.len() && 0 <= j < nodes.len() && i != j implies nodes[i] != nodes[j] by {
        if i > 0 {
            assert(nodes[i] == found[i - 1].0);
        }
        if j > 0 {
            assert(nodes[j] == found[j - 1].0);
        }
    }
    nodes.unique_seq_to_set();
    vstd::set_lib::lemma_int_range(0, count);
    assert forall|n: int| nodes.to_set().contains(n) implies vstd::set_lib::set_int_range(
        0,
        count,
    ).contains(n) by {
        let i = choose|i: int| 0 <= i < nodes.len() && nodes[i] == n;
        if i > 0 {
            assert(nodes[i] == found[i - 1].0);
        }
    }
    vstd::set_lib::lemma_len_subset(nodes.to_set(), vstd::set_lib::set_int_range(0, count));
}

/// The walk keeps what was found sound, and a budget of one expansion for
/// each node of the graph is never used up before the walk is over: a greater
/// budget finds the same.
proof fn lemma_walk_sound(
    edges: Seq<Edge>,
    start: int,
    found: Seq<(int, InheritKind)>,
    i: int,
    budget: nat,
    extra: nat,
    count: int,
)
    requires
        edges_in_range(edges, count),
        0 <= start < count,
        sound(start, found, count),
        0 <= i,
        i + budget >= count,
    ensures
        sound(start, walk(edges, start, found, i, budget), count),
        walk(edges, start, found, i, budget + extra) == walk(edges, start, found, i, budget),
    decreases budget + extra,
{
    lemma_sound_is_short(start, found, count);
    if i <= found.len() {
        let node = if i == 0 {
            start
        } else {
            found[i - 1].0
        };
        let next = discover(start, found, outgoing(edges, node), 0);
        lemma_outgoing_in_range(edges, node, count);
        lemma_discover_sound(start, found, outgoing(edges, node), 0, count);
        if budget > 0 {
            lemma_walk_sound(edges, start, next, i + 1, (budget - 1) as nat, extra, count);
        } else if extra > 0 {
            assert(i >= count);
            assert(false);
        }
    } else if budget == 0 && extra > 0 {
    }
}

/// No ancestor is listed twice, the node itself is not listed, and every
/// ancestor that is listed is a node of the graph.
pub proof fn lemma_ancestors_are_sound(edges: Seq<Edge>, count: nat, start: int)
    requires
        edges_in_range(edges, count as int),
        0 <= start < count,
    ensures
        sound(start, ancestors(edges, count, start), count as int),
{
    lemma_walk_sound(edges, start, Seq::empty(), 0, count, 0, count as int);
}

/// The walk is complete: expanding each node of the graph at most once is
/// enough, for no greater budget finds anything else.
pub proof fn lemma_ancestors_are_complete(edges: Seq<Edge>, count: nat, start: int, extra: nat)
    requires
        edges_in_range(edges, count as int),
        0 <= start < count,
    ensures
        walk(edges, start, Seq::empty(), 0, count + extra) == ancestors(edges, count, start),
{
    lemma_walk_sound(edges, start, Seq::empty(), 0, count, extra, count as int);
}

/// The node at a position of the walk: the start at position 0, then what
/// was found, in order.
pub open spec fn node_at(start: int, found: Seq<(int, InheritKind)>, p: int) -> int {
    if p == 0 {
        start
    } else {
        found[p - 1].0
    }
}

/// Whether every edge that leaves one of the first `i` positions of the walk
/// leads to a node that is known.
pub open spec fn closed_up_to(
    edges: Seq<Edge>,
    start: int,
    found: Seq<(int, InheritKind)>,
    i: int,
) -> bool {
    forall|p: int, to: int, kind: InheritKind|
        0 <= p < i && p <= found.len() && #[trigger] edges.contains(
            (node_at(start, found, p), to, kind),
        ) ==> known(start, found, to)
}

/// Whether every edge that leaves the start or a node that was found leads
/// to a node that is known.
pub open spec fn closed(edges: Seq<Edge>, start: int, found: Seq<(int, InheritKind)>) -> bool {
    closed_up_to(edges, start, found, (found.len() + 1) as int)
}

/// Whether each node that was found was reached over an edge of its kind
/// from the start or from a node that was found before it.
pub open spec fn led_to(edges: Seq<Edge>, start: int, found: Seq<(int, InheritKind)>) -> bool {
    forall|m: int| 0 <= m < found.len() ==> #[trigger] reached(edges, start, found, m)
}

/// Whether the `m`-th node that was found was reached over an edge of its
/// kind from the start or from a node that was found before it.
pub open spec fn reached(
    edges: Seq<Edge>,
    start: int,
    found: Seq<(int, InheritKind)>,
    m: int,
) -> bool {
    exists|p: int|
        0 <= p <= m && #[trigger] edges.contains(
            (node_at(start, found, p), found[m].0, found[m].1),
        )
}

/// Looking at the edges of a node only adds to what was found, and makes
/// every target of these edges known.
proof fn lemma_discover_grows(
    start: int,
    found: Seq<(int, InheritKind)>,
    out: Seq<(int, InheritKind)>,
    j: int,
)
    requires
        0 <= j,
    ensures
        discover(start, found, out, j).len() >= found.len(),
        forall|m: int| 0 <= m < found.len() ==> discover(start, found, out, j)[m] == found[m],
        forall|to: int|
            known(start, found, to) ==> known(start, discover(start, found, out, j), to),
        forall|q: int|
            j <= q < out.len() ==> known(start, discover(start, found, out, j), out[q].0),
    decreases out.len() - j,
{
    let r = discover(start, found, out, j);
    if j < out.len() {
        let more = if known(start, found, out[j].0) {
            found
        } else {
            found.push(out[j])
        };
        lemma_discover_grows(start, more, out, j + 1);
        assert forall|m: int| 0 <= m < found.len() implies r[m] == found[m] by {
            assert(more[m] == found[m]);
        }
        assert forall|to: int| known(start, found, to) implies known(start, r, to) by {
            if to != start {
                let i = choose|i: int| 0 <= i < found.len() && found[i].0 == to;
                assert(more[i].0 == to);
                assert(known(start, more, to));
            }
        }
        assert(known(start, more, out[j].0)) by {
            if !known(start, found, out[j].0) {
                assert(more[found.len() as int].0 == out[j].0);
            }
        }
    }
}

/// Looking at the edges of a node finds only what these edges lead to.
proof fn lemma_discover_led(
    edges: Seq<Edge>,
    start: int,
    found: Seq<(int, InheritKind)>,
    i: int,
    out: Seq<(int, InheritKind)>,
    j: int,
)
    requires
        0 <= j,
        0 <= i <= found.len(),
        led_to(edges, start, found),
        forall|q: int|
            0 <= q < out.len() ==> edges.contains(
                (node_at(start, found, i), (#[trigger] out[q]).0, out[q].1),
            ),
    ensures
        led_to(edges, start, discover(start, found, out, j)),
    decreases out.len() - j,
{
    if j < out.len() {
        if known(start, found, out[j].0) {
            lemma_discover_led(edges, start, found, i, out, j + 1);
        } else {
            let more = found.push(out[j]);
            assert forall|m: int| 0 <= m < more.len() implies #[trigger] reached(
                edges,
                start,
                more,
                m,
            ) by {
                if m < found.len() {
                    assert(reached(edges, start, found, m));
                    let p = choose|p: int|
                        0 <= p <= m && #[trigger] edges.contains(
                            (node_at(start, found, p), found[m].0, found[m].1),
                        );
                    assert(node_at(start, more, p) == node_at(start, found, p));
                    assert(more[m] == found[m]);
                    assert(edges.contains((node_at(start, more, p), more[m].0, more[m].1)));
                } else {
                    assert(node_at(start, more, i) == node_at(start, found, i));
                    assert(more[m] == out[j]);
                    assert(edges.contains((node_at(start, more, i), more[m].0, more[m].1)));
                }
            }
            assert(node_at(start, more, i) == node_at(start, found, i));
            lemma_discover_led(edges, start, more, i, out, j + 1);
        }
    }
}

/// The walk ends with every edge of every node that it holds followed, and
/// with nothing that no edge led to.
proof fn lemma_walk_closed(
    edges: Seq<Edge>,
    start: int,
    found: Seq<(int, InheritKind)>,
    i: int,
    budget: nat,
    count: int,
)
    requires
        edges_in_range(edges, count),
        0 <= start < count,
        sound(start, found, count),
        0 <= i,
        i + budget >= count,
        closed_up_to(edges, start, found, i),
        led_to(edges, start, found),
    ensures
        closed(edges, start, walk(edges, start, found, i, budget)),
        led_to(edges, start, walk(edges, start, found, i, budget)),
    decreases budget,
{
    lemma_sound_is_short(start, found, count);
    if i <= found.len() {
        let node = node_at(start, found, i);
        let out = outgoing(edges, node);
        let next = discover(start, found, out, 0);
        lemma_outgoing(edges, node);
        lemma_outgoing_in_range(edges, node, count);
        lemma_discover_sound(start, found, out, 0, count);
        lemma_discover_grows(start, found, out, 0);
        lemma_discover_led(edges, start, found, i, out, 0);
        assert forall|p: int, to: int, kind: InheritKind|
            0 <= p < i + 1 && p <= next.len() && #[trigger] edges.contains(
                (node_at(start, next, p), to, kind),
            ) implies known(start, next, to) by {
            assert(node_at(start, next, p) == node_at(start, found, p));
            if p < i {
                assert(edges.contains((node_at(start, found, p), to, kind)));
                assert(known(start, found, to));
            } else {
                assert(out.contains((to, kind)));
                let q = choose|q: int| 0 <= q < out.len() && out[q] == (to, kind);
                assert(known(start, next, out[q].0));
            }
        }
        lemma_walk_closed(edges, start, next, i + 1, (budget - 1) as nat, count);
    }
}

/// What the walk lists is what the edges lead to, and nothing else: every
/// edge that leaves the node or one of its ancestors leads to the node itself
/// or to an ancestor that is listed, and each ancestor that is listed was
/// reached over an edge of its kind from the node or from an ancestor that is
/// listed before it.
pub proof fn lemma_ancestors_follow_edges(edges: Seq<Edge>, count: nat, start: int)
    requires
        edges_in_range(edges, count as int),
        0 <= start < count,
    ensures
        closed(edges, start, ancestors(edges, count, start)),
        led_to(edges, start, ancestors(edges, count, start)),
{
    lemma_walk_closed(edges, start, Seq::empty(), 0, count, count as int);
}

/// Whether an edge, of whatever kind, leads from the node at the position
/// `p` of the walk to a node.
pub open spec fn leads(
    edges: Seq<Edge>,
    start: int,
    found: Seq<(int, InheritKind)>,
    p: int,
    to: int,
) -> bool {
    exists|kind: InheritKind| #[trigger] edges.contains((node_at(start, found, p), to, kind))
}

/// Whether an edge leads to a node from a position of the walk that is not
/// behind `p`.
pub open spec fn led_from_up_to(
    edges: Seq<Edge>,
    start: int,
    found: Seq<(int, InheritKind)>,
    to: int,
    p: int,
) -> bool {
    exists|q: int| 0 <= q <= p && q <= found.len() && #[trigger] leads(edges, start, found, q, to)
}

/// Whether an edge leads to each node that was found from a position that is
/// not behind `i`.
pub open spec fn sourced(
    edges: Seq<Edge>,
    start: int,
    found: Seq<(int, InheritKind)>,
    i: int,
) -> bool {
    forall|m: int|
        0 <= m < found.len() ==> led_from_up_to(edges, start, found, (#[trigger] found[m]).0, i)
}

/// Whether the nearest come first: wherever an edge leads to a node that was
/// found from some position of the walk, an edge leads to each node that was
/// found before it from that position or from one before it. So a node that
/// is listed earlier is reached over no more edges than a node that is listed
/// later.
pub open spec fn nearest_first(
    edges: Seq<Edge>,
    start: int,
    found: Seq<(int, InheritKind)>,
) -> bool {
    forall|m: int, n: int, p: int|
        0 <= m < n < found.len() && 0 <= p <= found.len() && #[trigger] leads(
            edges,
            start,
            found,
            p,
            found[n].0,
        ) ==> #[trigger] led_from_up_to(edges, start, found, found[m].0, p)
}

/// What leads where does not change at the positions that are there already
/// when more is found.
proof fn lemma_leads_stays(
    edges: Seq<Edge>,
    start: int,
    found: Seq<(int, InheritKind)>,
    last: (int, InheritKind),
    p: int,
    to: int,
)
    requires
        0 <= p <= found.len(),
    ensures
        leads(edges, start, found.push(last), p, to) == leads(edges, start, found, p, to),
{
    let more = found.push(last);
    assert(node_at(start, more, p) == node_at(start, found, p)) by {
        if p > 0 {
            assert(more[p - 1] == found[p - 1]);
        }
    }
}

/// Looking at the edges of the node at the position `i` keeps the nearest
/// first.
proof fn lemma_discover_ordered(
    edges: Seq<Edge>,
    start: int,
    found: Seq<(int, InheritKind)>,
    i: int,
    out: Seq<(int, InheritKind)>,
    j: int,
)
    requires
        0 <= j,
        0 <= i <= found.len(),
        closed_up_to(edges, start, found, i),
        sourced(edges, start, found, i),
        nearest_first(edges, start, found),
        forall|q: int|
            0 <= q < out.len() ==> edges.contains(
                (node_at(start, found, i), (#[trigger] out[q]).0, out[q].1),
            ),
    ensures
        closed_up_to(edges, start, discover(start, found, out, j), i),
        sourced(edges, start, discover(start, found, out, j), i),
        nearest_first(edges, start, discover(start, found, out, j)),
    decreases out.len() - j,
{
    if j < out.len() {
        if known(start, found, out[j].0) {
            lemma_discover_ordered(edges, start, found, i, out, j + 1);
        } else {
            let last = out[j];
            let more = found.push(last);
            lemma_known_push(start, found, last);
            assert(node_at(start, more, i) == node_at(start, found, i)) by {
                lemma_leads_stays(edges, start, found, last, i, 0);
                if i > 0 {
                    assert(more[i - 1] == found[i - 1]);
                }
            }
            assert(leads(edges, start, more, i, last.0)) by {
                assert(edges.contains((node_at(start, more, i), last.0, last.1)));
            }
            assert forall|p: int, to: int, kind: InheritKind|
                0 <= p < i && p <= more.len() && #[trigger] edges.contains(
                    (node_at(start, more, p), to, kind),
                ) implies known(start, more, to) by {
                if p > 0 {
                    assert(more[p - 1] == found[p - 1]);
                }
                assert(edges.contains((node_at(start, found, p), to, kind)));
                assert(known(start, found, to));
            }
            assert forall|m: int| 0 <= m < more.len() implies led_from_up_to(
                edges,
                start,
                more,
                (#[trigger] more[m]).0,
                i,
            ) by {
                if m < found.len() {
                    assert(more[m] == found[m]);
                    assert(led_from_up_to(edges, start, found, found[m].0, i));
                    let q = choose|q: int|
                        0 <= q <= i && q <= found.len() && #[trigger] leads(
                            edges,
                            start,
                            found,
                            q,
                            found[m].0,
                        );
                    lemma_leads_stays(edges, start, found, last, q, found[m].0);
                    assert(leads(edges, start, more, q, more[m].0));
                } else {
                    assert(more[m] == last);
                    assert(leads(edges, start, more, i, more[m].0));
                }
            }
            assert forall|m: int, n: int, p: int|
                0 <= m < n < more.len() && 0 <= p <= more.len() && #[trigger] leads(
                    edges,
                    start,
                    more,
                    p,
                    more[n].0,
                ) implies #[trigger] led_from_up_to(edges, start, more, more[m].0, p) by {
                assert(more[m] == found[m]);
                assert(led_from_up_to(edges, start, found, found[m].0, i));
                let near = choose|q: int|
                    0 <= q <= i && q <= found.len() && #[trigger] leads(
                        edges,
                        start,
                        found,
                        q,
                        found[m].0,
                    );
                lemma_leads_stays(edges, start, found, last, near, found[m].0);
                assert(leads(edges, start, more, near, more[m].0));
                if p < i {
                    lemma_leads_stays(edges, start, found, last, p, more[n].0);
                    let kind = choose|kind: InheritKind| #[trigger]
                        edges.contains((node_at(start, found, p), more[n].0, kind));
                    assert(known(start, found, more[n].0));
                    if n < found.len() {
                        assert(more[n] == found[n]);
                        assert(leads(edges, start, found, p, found[n].0));
                        assert(led_from_up_to(edges, start, found, found[m].0, p));
                        let q = choose|q: int|
                            0 <= q <= p && q <= found.len() && #[trigger] leads(
                                edges,
                                start,
                                found,
                                q,
                                found[m].0,
                            );
                        lemma_leads_stays(edges, start, found, last, q, found[m].0);
                        assert(leads(edges, start, more, q, more[m].0));
                    } else {
                        assert(more[n] == last);
                        assert(false);
                    }
                }
            }
            lemma_discover_ordered(edges, start, more, i, out, j + 1);
        }
    }
}

/// The walk keeps the nearest first.
proof fn lemma_walk_ordered(
    edges: Seq<Edge>,
    start: int,
    found: Seq<(int, InheritKind)>,
    i: int,
    budget: nat,
    count: int,
)
    requires
        edges_in_range(edges, count),
        0 <= start < count,
        sound(start, found, count),
        0 <= i,
        closed_up_to(edges, start, found, i),
        sourced(edges, start, found, i),
        nearest_first(edges, start, found),
    ensures
        nearest_first(edges, start, walk(edges, start, found, i, budget)),
    decreases budget,
{
    if budget > 0 && i <= found.len() {
        let node = node_at(start, found, i);
        let out = outgoing(edges, node);
        let next = discover(start, found, out, 0);
        lemma_outgoing(edges, node);
        lemma_outgoing_in_range(edges, node, count);
        lemma_discover_sound(start, found, out, 0, count);
        lemma_discover_grows(start, found, out, 0);
        lemma_discover_ordered(edges, start, found, i, out, 0);
        assert forall|p: int, to: int, kind: InheritKind|
            0 <= p < i + 1 && p <= next.len() && #[trigger] edges.contains(
                (node_at(start, next, p), to, kind),
            ) implies known(start, next, to) by {
            if p == i {
                assert(node_at(start, next, p) == node_at(start, found, p)) by {
                    if p > 0 {
                        assert(next[p - 1] == found[p - 1]);
                    }
                }
                assert(out.contains((to, kind)));
                let q = choose|q: int| 0 <= q < out.len() && out[q] == (to, kind);
                assert(known(start, next, out[q].0));
            }
        }
        assert forall|m: int| 0 <= m < next.len() implies led_from_up_to(
            edges,
            start,
            next,
            (#[trigger] next[m]).0,
            i + 1,
        ) by {
            assert(led_from_up_to(edges, start, next, next[m].0, i));
            let q = choose|q: int|
                0 <= q <= i && q <= next.len() && #[trigger] leads(edges, start, next, q, next[m].0);
            assert(leads(edges, start, next, q, next[m].0));
        }
        lemma_walk_ordered(edges, start, next, i + 1, (budget - 1) as nat, count);
    }
}

/// The nearest ancestors are listed first: wherever an edge leads to an
/// ancestor from the node or from an ancestor that is listed, an edge leads
/// to each ancestor that is listed before it from there or from nearer the
/// node.
pub proof fn lemma_ancestors_nearest_first(edges: Seq<Edge>, count: nat, start: int)
    requires
        edges_in_range(edges, count as int),
        0 <= start < count,
    ensures
        nearest_first(edges, start, ancestors(edges, count, start)),
{
    lemma_walk_ordered(edges, start, Seq::empty(), 0, count, count as int);
}

} // verus!
