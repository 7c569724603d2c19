//! The inheritance graph of a class: the classes that it extends and the
//! interfaces that it implements, as far as they are on the class path.
//!
//! The graph is kept in a `petgraph` graph. Its nodes are numbered in the
//! order in which they were added, which is also the order of the classes
//! that the library keeps beside it.

pub mod walk;

use crate::bytes::{lemma_views_empty, lemma_views_push, views};
use crate::error::{Error, ErrorKind};
use crate::structures::class::{class_name_at, JavaClass};
use crate::structures::fully_qualified_name::{FQName, FQNameBuf};
use crate::text::str_eq;
use petgraph::graph::{Graph, NodeIndex};
use std::collections::{HashSet, VecDeque};
use petgraph::visit::EdgeRef;
use petgraph::Directed;
use vstd::prelude::*;
use walk::{
    ancestors, discover, edges_distinct, edges_in_range, known, lemma_known_push, lemma_outgoing,
    names_distinct, node_at, outgoing, walk,
};

verus! {

/// `petgraph`'s `Graph`, taken as it is: the library reads it only through
/// the functions below.
#[verifier::external_type_specification]
#[verifier::external_body]
#[verifier::reject_recursive_types(N)]
#[verifier::reject_recursive_types(E)]
#[verifier::reject_recursive_types(Ty)]
#[verifier::reject_recursive_types(Ix)]
pub struct ExGraph<N, E, Ty, Ix>(Graph<N, E, Ty, Ix>);

/// `petgraph`'s marker of graphs with directed edges.
#[verifier::external_type_specification]
#[verifier::external_body]
pub struct ExDirected(Directed);

/// How a type inherits another type.
#[derive(Debug, Eq, PartialEq, Copy, Clone, Structural)]
pub enum InheritKind {
    /// From a class to the class that it extends.
    Extends,
    /// From a type to an interface that it implements.
    Implements,
}

/// An edge of the graph: from a node to a node, with its kind.
pub type Edge = (int, int, InheritKind);

/// The names that the nodes of a graph hold, by the number of the node.
pub uninterp spec fn graph_nodes(g: Graph<FQNameBuf, InheritKind, Directed, u32>) -> Seq<Seq<char>>;

/// The edges of a graph, in the order in which they were added.
pub uninterp spec fn graph_edges(g: Graph<FQNameBuf, InheritKind, Directed, u32>) -> Seq<Edge>;

/// Targets and kinds as the graph hands them out, with the targets as
/// numbers of the model.
pub open spec fn targets(out: Seq<(usize, InheritKind)>) -> Seq<(int, InheritKind)> {
    out.map_values(|e: (usize, InheritKind)| (e.0 as int, e.1))
}

/// Whether `out` holds the entries of `order` from the last to the first.
pub open spec fn newest_first(out: Seq<(usize, InheritKind)>, order: Seq<(int, InheritKind)>) -> bool {
    &&& out.len() == order.len()
    &&& forall|i: int|
        0 <= i < out.len() ==> (#[trigger] out[i]).0 as int == order[order.len() - 1 - i].0
            && out[i].1 == order[order.len() - 1 - i].1
}

/// Makes an empty directed graph with `petgraph`'s `Graph::new`.
#[verifier::external_body]
fn graph_new() -> (g: Graph<FQNameBuf, InheritKind, Directed, u32>)
    ensures
        graph_nodes(g) == Seq::<Seq<char>>::empty(),
        graph_edges(g) == Seq::<Edge>::empty(),
{
    Graph::new()
}

/// Adds a node with `petgraph`'s `Graph::add_node`: the node gets the next
/// number, and nothing else changes. The outside function panics once the
/// numbers of its 32-bit index type are used up.
#[verifier::external_body]
fn graph_add_node(g: &mut Graph<FQNameBuf, InheritKind, Directed, u32>, name: FQNameBuf) -> (index:
    usize)
    requires
        graph_nodes(*old(g)).len() < u32::MAX,
    ensures
        index == graph_nodes(*old(g)).len(),
        graph_nodes(*final(g)) == graph_nodes(*old(g)).push(name@),
        graph_edges(*final(g)) == graph_edges(*old(g)),
{
    g.add_node(name).index()
}

/// Adds an edge with `petgraph`'s `Graph::add_edge`: the edge comes behind
/// all others, and nothing else changes. The outside function panics where
/// one of the nodes does not exist and once the numbers of its 32-bit index
/// type are used up.
#[verifier::external_body]
fn graph_add_edge(
    g: &mut Graph<FQNameBuf, InheritKind, Directed, u32>,
    from: usize,
    to: usize,
    kind: InheritKind,
)
    requires
        from < graph_nodes(*old(g)).len(),
        to < graph_nodes(*old(g)).len(),
        graph_edges(*old(g)).len() < u32::MAX,
    ensures
        graph_nodes(*final(g)) == graph_nodes(*old(g)),
        graph_edges(*final(g)) == graph_edges(*old(g)).push((from as int, to as int, kind)),
{
    g.add_edge(NodeIndex::new(from), NodeIndex::new(to), kind);
}

/// Lists the edges that leave a node with `petgraph`'s `Graph::edges`, each
/// as the number of its target and its kind. The outside iterator walks the
/// edges of a node from the one that was added last to the one that was
/// added first.
#[verifier::external_body]
fn graph_outgoing(g: &Graph<FQNameBuf, InheritKind, Directed, u32>, from: usize) -> (out: Vec<
    (usize, InheritKind),
>)
    requires
        from < graph_nodes(*g).len(),
    ensures
        newest_first(out@, outgoing(graph_edges(*g), from as int)),
{
    g.edges(NodeIndex::new(from)).map(|e| (e.target().index(), *e.weight())).collect()
}

/// The number of the first node of a name, if there is one.
pub open spec fn index_of(names: Seq<Seq<char>>, name: Seq<char>) -> Option<int>
    decreases names.len(),
{
    if names.len() == 0 {
        None
    } else {
        match index_of(names.drop_last(), name) {
            Some(i) => Some(i),
            None => if names.last() == name {
                Some(names.len() - 1)
            } else {
                None
            },
        }
    }
}

/// The number that is found for a name is that of the first node of the
/// name; none is found only where no node has the name.
pub proof fn lemma_index_of(names: Seq<Seq<char>>, name: Seq<char>)
    ensures
        match index_of(names, name) {
            Some(i) => 0 <= i < names.len() && names[i] == name && forall|j: int|
                0 <= j < i ==> names[j] != name,
            None => forall|j: int| 0 <= j < names.len() ==> names[j] != name,
        },
    decreases names.len(),
{
    if names.len() > 0 {
        let before = names.drop_last();
        lemma_index_of(before, name);
        assert(forall|j: int| 0 <= j < before.len() ==> before[j] == names[j]);
    }
}

/// Finds the number of the first node of a name.
fn position(names: &Vec<FQNameBuf>, name: FQName) -> (r: Option<usize>)
    ensures
        match r {
            Some(i) => index_of(views(names@), name@) == Some(i as int) && i < names@.len(),
            None => index_of(views(names@), name@) is None,
        },
{
    let ghost all = views(names@);
    let mut i: usize = 0;
    while i < names.len()
        invariant
            i <= names@.len(),
            all == views(names@),
            forall|j: int| 0 <= j < i ==> all[j] != name@,
        decreases names@.len() - i,
    {
        if str_eq(names[i].as_str(), name.as_str()) {
            proof {
                lemma_index_of(all, name@);
                assert(all[i as int] == name@);
            }
            return Some(i);
        }
        i += 1;
    }
    proof {
        lemma_index_of(all, name@);
    }
    None
}

/// A graph of the super classes and the interfaces of a root class.
pub struct InheritanceGraph {
    graph: Graph<FQNameBuf, InheritKind, Directed, u32>,
    classes: Vec<JavaClass>,
    names: Vec<FQNameBuf>,
}

impl InheritanceGraph {
    /// The names of the nodes, by their numbers. The root is node 0.
    pub closed spec fn names(&self) -> Seq<Seq<char>> {
        views(self.names@)
    }

    /// The classes of the nodes, by their numbers.
    pub closed spec fn classes(&self) -> Seq<JavaClass> {
        self.classes@
    }

    /// The edges, in the order in which they were added.
    pub closed spec fn edges(&self) -> Seq<Edge> {
        graph_edges(self.graph)
    }

    /// Whether the graph is well formed: it has its root; each node holds
    /// its class under the name of that class; no name stands twice; each
    /// edge joins two nodes; and between two nodes there is at most one edge
    /// of a kind.
    pub closed spec fn wf(&self) -> bool {
        &&& graph_nodes(self.graph) == views(self.names@)
        &&& self.names@.len() == self.classes@.len()
        &&& self.names@.len() >= 1
        &&& forall|i: int|
            0 <= i < self.classes@.len() ==> class_name_at(
                (#[trigger] self.classes@[i])@.constant_pool,
                self.classes@[i]@.this_class,
            ) == Some(self.names@[i]@)
        &&& names_distinct(views(self.names@))
        &&& edges_in_range(graph_edges(self.graph), self.names@.len() as int)
        &&& edges_distinct(graph_edges(self.graph))
    }

    /// What well-formedness means for the model of the graph.
    pub proof fn lemma_wf(&self)
        requires
            self.wf(),
        ensures
            self.names().len() == self.classes().len(),
            self.names().len() >= 1,
            forall|i: int|
                0 <= i < self.classes().len() ==> class_name_at(
                    (#[trigger] self.classes()[i])@.constant_pool,
                    self.classes()[i]@.this_class,
                ) == Some(self.names()[i]),
            names_distinct(self.names()),
            edges_in_range(self.edges(), self.names().len() as int),
            edges_distinct(self.edges()),
    {
    }

    /// Creates the graph of a root class: the class is its only node, and it
    /// has no edge.
    ///
    /// Fails with [`ErrorKind::InvalidReference`] where the class does not
    /// resolve its own name.
    pub fn new(class: JavaClass) -> (r: Result<InheritanceGraph, Error>)
        ensures
            match r {
                Ok(graph) => graph.wf() && graph.classes() == seq![class] && graph.edges()
                    == Seq::<Edge>::empty() && class_name_at(
                    class@.constant_pool,
                    class@.this_class,
                ) == Some(graph.names()[0]) && graph.names().len() == 1,
                Err(e) => class_name_at(class@.constant_pool, class@.this_class) is None && e@
                    == ErrorKind::InvalidReference(class@.this_class),
            },
    {
        let name = match class.this() {
            Ok(name) => name.to_fqname_buf(),
            Err(e) => {
                return Err(e);
            },
        };
        let mut graph = graph_new();
        graph_add_node(&mut graph, name.duplicate());
        let mut classes: Vec<JavaClass> = Vec::new();
        classes.push(class);
        let mut names: Vec<FQNameBuf> = Vec::new();
        proof {
            lemma_views_empty::<FQNameBuf>();
            lemma_views_push(names@, name);
        }
        names.push(name);
        Ok(InheritanceGraph { graph, classes, names })
    }

    /// The number of nodes.
    pub fn len(&self) -> (r: usize)
        ensures
            r == self.names().len(),
    {
        self.names.len()
    }

    /// The name of the root class.
    pub fn root(&self) -> (r: FQName<'_>)
        requires
            self.wf(),
        ensures
            r@ == self.names()[0],
    {
        self.names[0].as_fq_name()
    }

    /// Gets the name of a node.
    pub fn get_name(&self, node_index: usize) -> (r: Option<FQName<'_>>)
        ensures
            match r {
                Some(name) => node_index < self.names().len() && name@
                    == self.names()[node_index as int],
                None => node_index >= self.names().len(),
            },
    {
        if node_index < self.names.len() {
            Some(self.names[node_index].as_fq_name())
        } else {
            None
        }
    }

    /// Finds the number of the node of a name.
    pub fn node_of(&self, name: FQName) -> (r: Option<usize>)
        ensures
            match r {
                Some(i) => index_of(self.names(), name@) == Some(i as int) && i
                    < self.names().len(),
                None => index_of(self.names(), name@) is None,
            },
    {
        position(&self.names, name)
    }

    /// Gets the class of a node.
    pub fn get_class(&self, node_index: usize) -> (r: Option<&JavaClass>)
        ensures
            match r {
                Some(class) => node_index < self.classes().len() && *class
                    == self.classes()[node_index as int],
                None => node_index >= self.classes().len(),
            },
    {
        if node_index < self.classes.len() {
            Some(&self.classes[node_index])
        } else {
            None
        }
    }

    /// Adds a class as a new node. Returns true only if no node has the name
    /// of the class yet; a class whose name is taken is left out and the
    /// graph stays as it is.
    ///
    /// Fails with [`ErrorKind::InvalidReference`] where the class does not
    /// resolve its own name, and with [`ErrorKind::AddingInheritanceFailed`]
    /// where the graph cannot number another node.
    pub fn add_class(&mut self, class: JavaClass) -> (r: Result<bool, Error>)
        requires
            old(self).wf(),
        ensures
            final(self).wf(),
            final(self).edges() == old(self).edges(),
            match r {
                Ok(added) => {
                    &&& class_name_at(class@.constant_pool, class@.this_class) matches Some(name)
                    &&& added == (index_of(old(self).names(), name) is None)
                    &&& if added {
                        &&& final(self).names() == old(self).names().push(name)
                        &&& final(self).classes() == old(self).classes().push(class)
                        &&& old(self).names().len() < u32::MAX
                    } else {
                        &&& final(self).names() == old(self).names()
                        &&& final(self).classes() == old(self).classes()
                    }
                },
                Err(e) => {
                    &&& final(self).names() == old(self).names()
                    &&& final(self).classes() == old(self).classes()
                    &&& match class_name_at(class@.constant_pool, class@.this_class) {
                        None => e@ == ErrorKind::InvalidReference(class@.this_class),
                        Some(name) => {
                            &&& index_of(old(self).names(), name) is None
                            &&& old(self).names().len() >= u32::MAX
                            &&& e@ matches ErrorKind::AddingInheritanceFailed(n) && n@ == name
                        },
                    }
                },
            },
    {
        let name = match class.this() {
            Ok(name) => name.to_fqname_buf(),
            Err(e) => {
                return Err(e);
            },
        };
        if position(&self.names, name.as_fq_name()).is_some() {
            return Ok(false);
        }
        if self.names.len() >= u32::MAX as usize {
            return Err(Error::new(ErrorKind::AddingInheritanceFailed(name)));
        }
        proof {
            lemma_views_push(self.names@, name);
            lemma_index_of(views(self.names@), name@);
        }
        graph_add_node(&mut self.graph, name.duplicate());
        self.classes.push(class);
        self.names.push(name);
        Ok(true)
    }

    /// Adds an edge between two nodes that are given by their names.
    /// Returns true only if both names have a node and there is no edge of
    /// this kind between the two yet; else the graph stays as it is.
    pub fn add_inheritance(&mut self, class: FQName, inherits: FQName, ty: InheritKind) -> (r:
        bool)
        requires
            old(self).wf(),
        ensures
            final(self).wf(),
            final(self).names() == old(self).names(),
            final(self).classes() == old(self).classes(),
            match (index_of(old(self).names(), class@), index_of(old(self).names(), inherits@)) {
                (Some(from), Some(to)) => if r {
                    &&& !old(self).edges().contains((from, to, ty))
                    &&& final(self).edges() == old(self).edges().push((from, to, ty))
                } else {
                    &&& final(self).edges() == old(self).edges()
                    &&& old(self).edges().contains((from, to, ty)) || old(self).edges().len()
                        >= u32::MAX
                },
                _ => !r && final(self).edges() == old(self).edges(),
            },
    {
        let from = match position(&self.names, class) {
            Some(i) => i,
            None => {
                return false;
            },
        };
        let to = match position(&self.names, inherits) {
            Some(i) => i,
            None => {
                return false;
            },
        };
        self.add_edge(from, to, ty)
    }

    /// Adds an edge between two nodes that are given by their numbers.
    /// Returns true only if both nodes exist and there is no edge of this
    /// kind between the two yet; else the graph stays as it is.
    #[verifier::loop_isolation(false)]
    pub fn add_edge(&mut self, from: usize, to: usize, ty: InheritKind) -> (r: bool)
        requires
            old(self).wf(),
        ensures
            final(self).wf(),
            final(self).names() == old(self).names(),
            final(self).classes() == old(self).classes(),
            if r {
                &&& from < old(self).names().len()
                &&& to < old(self).names().len()
                &&& !old(self).edges().contains((from as int, to as int, ty))
                &&& final(self).edges() == old(self).edges().push((from as int, to as int, ty))
            } else {
                &&& final(self).edges() == old(self).edges()
                &&& {
                    ||| from >= old(self).names().len()
                    ||| to >= old(self).names().len()
                    ||| old(self).edges().contains((from as int, to as int, ty))
                    ||| old(self).edges().len() >= u32::MAX
                }
            },
    {
        if from >= self.names.len() || to >= self.names.len() {
            return false;
        }
        let out = graph_outgoing(&self.graph, from);
        let ghost edges = graph_edges(self.graph);
        let ghost order = outgoing(edges, from as int);
        proof {
            lemma_outgoing(edges, from as int);
        }
        let mut i: usize = 0;
        while i < out.len()
            invariant
                i <= out@.len(),
                newest_first(out@, order),
                forall|j: int| 0 <= j < i ==> !((#[trigger] out@[j]).0 == to && out@[j].1 == ty),
            decreases out@.len() - i,
        {
            if out[i].0 == to && out[i].1 == ty {
                proof {
                    assert(out@[i as int].0 == to);
                    assert(order[order.len() - 1 - i] == (to as int, ty));
                    assert(order.contains((to as int, ty)));
                }
                return false;
            }
            i += 1;
        }
        proof {
            assert(!order.contains((to as int, ty))) by {
                if order.contains((to as int, ty)) {
                    let k = choose|k: int| 0 <= k < order.len() && order[k] == (to as int, ty);
                    let j = order.len() - 1 - k;
                    assert(out@[j].0 as int == order[order.len() - 1 - j].0);
                }
            }
        }
        if graph_edge_count(&self.graph) >= u32::MAX as usize {
            return false;
        }
        graph_add_edge(&mut self.graph, from, to, ty);
        proof {
            let after = graph_edges(self.graph);
            assert forall|a: int, b: int| 0 <= a < b < after.len() implies after[a] != after[b] by {
                if b == after.len() - 1 {
                    assert(edges[a] == after[a]);
                    assert(edges.contains(after[a]));
                } else {
                    assert(edges[a] == after[a] && edges[b] == after[b]);
                }
            }
        }
        true
    }
}

/// Whether a list of classes with kinds is what was found, class for node.
pub open spec fn listed(
    list: Seq<(&JavaClass, InheritKind)>,
    classes: Seq<JavaClass>,
    found: Seq<(int, InheritKind)>,
) -> bool {
    &&& list.len() == found.len()
    &&& forall|k: int|
        0 <= k < list.len() ==> 0 <= found[k].0 < classes.len() && *(#[trigger] list[k]).0
            == classes[found[k].0] && list[k].1 == found[k].1
}

impl InheritanceGraph {
    /// Gets the classes that a class extends and the interfaces that it
    /// implements, directly or through others, as far as the graph holds
    /// them: its ancestors in breadth-first order, each with the kind of the
    /// edge that led to it first.
    ///
    /// Fails with [`ErrorKind::NoClassFound`] and the name where the graph
    /// has no node of that name.
    ///
    /// The walk keeps the nodes that are still to be expanded in a queue and
    /// the nodes that it has seen in a set, so that each node is expanded
    /// once, whatever the edges are.
    #[verifier::loop_isolation(false)]
    pub fn inherits(&self, fqn: FQName) -> (r: Result<Vec<(&JavaClass, InheritKind)>, Error>)
        requires
            self.wf(),
        ensures
            match r {
                Ok(list) => index_of(self.names(), fqn@) matches Some(start) && listed(
                    list@,
                    self.classes(),
                    ancestors(self.edges(), self.names().len(), start),
                ),
                Err(e) => index_of(self.names(), fqn@) is None && (e@ matches ErrorKind::NoClassFound(
                    n,
                ) && n@ == fqn@),
            },
    {
        broadcast use vstd::std_specs::hash::group_hash_axioms;

        let start = match position(&self.names, fqn) {
            Some(i) => i,
            None => {
                return Err(Error::new(ErrorKind::NoClassFound(fqn.to_fqname_buf())));
            },
        };
        let count: usize = self.names.len();
        let ghost edges = graph_edges(self.graph);
        let ghost first = start as int;
        let mut found: Vec<(usize, InheritKind)> = Vec::new();
        let mut seen: HashSet<usize> = HashSet::new();
        let mut queue: VecDeque<usize> = VecDeque::new();
        seen.insert(start);
        queue.push_back(start);
        let ghost mut i: int = 0;
        let mut budget: usize = count;
        proof {
            assert(targets(found@) =~= Seq::<(int, InheritKind)>::empty());
        }
        while budget > 0
            invariant
                0 <= i,
                i + budget == count,
                walk(edges, first, targets(found@), i, budget as nat) == ancestors(
                    edges,
                    count as nat,
                    first,
                ),
                forall|k: int| 0 <= k < found@.len() ==> (#[trigger] found@[k]).0 < count,
                queue@.len() + i == found@.len() + 1,
                forall|k: int|
                    0 <= k < queue@.len() ==> #[trigger] queue@[k] == node_at(
                        first,
                        targets(found@),
                        i + k,
                    ),
                forall|x: usize| seen@.contains(x) <==> known(first, targets(found@), x as int),
            decreases budget,
        {
            let node: usize = match queue.pop_front() {
                Some(node) => node,
                None => {
                    break ;
                },
            };
            let out = graph_outgoing(&self.graph, node);
            let ghost order = outgoing(edges, node as int);
            let ghost before = targets(found@);
            let total: usize = out.len();
            let mut j: usize = 0;
            proof {
                assert(node as int == node_at(first, before, i));
                if i > 0 {
                    assert(before[i - 1].0 == found@[i - 1].0);
                }
                lemma_outgoing(edges, node as int);
            }
            while j < total
                invariant
                    j <= total,
                    total == out@.len(),
                    newest_first(out@, order),
                    discover(first, targets(found@), order, j as int) == discover(
                        first,
                        before,
                        order,
                        0,
                    ),
                    forall|k: int| 0 <= k < found@.len() ==> (#[trigger] found@[k]).0 < count,
                    queue@.len() + i == found@.len(),
                    forall|k: int|
                        0 <= k < queue@.len() ==> #[trigger] queue@[k] == node_at(
                            first,
                            targets(found@),
                            i + 1 + k,
                        ),
                    forall|x: usize|
                        seen@.contains(x) <==> known(first, targets(found@), x as int),
                decreases total - j,
            {
                let next: (usize, InheritKind) = out[total - 1 - j];
                proof {
                    assert(out@[total - 1 - j].0 as int == order[j as int].0);
                    assert(next.0 as int == order[j as int].0 && next.1 == order[j as int].1);
                    assert(edges.contains((node as int, order[j as int].0, order[j as int].1)));
                    let at = choose|at: int|
                        0 <= at < edges.len() && edges[at] == (
                            node as int,
                            order[j as int].0,
                            order[j as int].1,
                        );
                    assert(edges[at].1 < count);
                }
                if !seen.contains(&next.0) {
                    let ghost old_found = targets(found@);
                    let ghost old_queue = queue@;
                    proof {
                        assert(targets(found@.push(next)) =~= old_found.push(order[j as int]));
                        lemma_known_push(first, old_found, order[j as int]);
                    }
                    seen.insert(next.0);
                    found.push(next);
                    queue.push_back(next.0);
                    proof {
                        let now = targets(found@);
                        assert forall|k: int| 0 <= k < queue@.len() implies #[trigger] queue@[k]
                            == node_at(first, now, i + 1 + k) by {
                            if k < old_queue.len() {
                                assert(queue@[k] == old_queue[k]);
                                assert(now[i + k] == old_found[i + k]);
                            } else {
                                assert(now[now.len() - 1] == order[j as int]);
                            }
                        }
                    }
                }
                j += 1;
            }
            proof {
                i = i + 1;
            }
            budget -= 1;
        }
        let mut list: Vec<(&JavaClass, InheritKind)> = Vec::new();
        let mut k: usize = 0;
        while k < found.len()
            invariant
                k <= found@.len(),
                list@.len() == k,
                forall|m: int|
                    0 <= m < k ==> *(#[trigger] list@[m]).0 == self.classes@[found@[m].0 as int]
                        && list@[m].1 == found@[m].1,
            decreases found@.len() - k,
        {
            list.push((&self.classes[found[k].0], found[k].1));
            k += 1;
        }
        proof {
            let wanted = ancestors(self.edges(), self.names().len(), start as int);
            assert(wanted == targets(found@));
            assert forall|m: int| 0 <= m < list@.len() implies 0 <= wanted[m].0
                < self.classes().len() && *(#[trigger] list@[m]).0 == self.classes()[wanted[m].0]
                && list@[m].1 == wanted[m].1 by {
                assert(found@[m].0 < count);
            }
        }
        Ok(list)
    }
}

/// What the same graph holds for the same name is the same list: the
/// ancestors of a node depend on nothing but the edges, the number of nodes
/// and the node.
pub proof fn lemma_inherits_is_determined(
    first: InheritanceGraph,
    second: InheritanceGraph,
    name: Seq<char>,
)
    requires
        first.names() == second.names(),
        first.edges() == second.edges(),
    ensures
        index_of(first.names(), name) == index_of(second.names(), name),
        index_of(first.names(), name) matches Some(start) ==> ancestors(
            first.edges(),
            first.names().len(),
            start,
        ) == ancestors(second.edges(), second.names().len(), start),
{
}

/// The building of an inheritance graph, one step at a time.
///
/// The graph grows from its root over a stack of nodes that are still to be
/// expanded. Looking a class up is the part of the caller: the inspection
/// hands out the next node, the caller looks up the super class and the
/// interfaces of its class, and the inspection records what was found.
pub struct Inspection {
    graph: InheritanceGraph,
    stack: Vec<usize>,
}

impl Inspection {
    /// The graph as far as it is built.
    pub closed spec fn graph(&self) -> InheritanceGraph {
        self.graph
    }

    /// The nodes that are still to be expanded; the last is expanded next.
    pub closed spec fn pending(&self) -> Seq<usize> {
        self.stack@
    }

    /// Whether the inspection is well formed: its graph is, and every node
    /// that is still to be expanded is one of its nodes.
    pub closed spec fn wf(&self) -> bool {
        &&& self.graph.wf()
        &&& forall|i: int| 0 <= i < self.stack@.len() ==> self.stack@[i] < self.graph.names().len()
    }

    /// What well-formedness means for the model of the inspection.
    pub proof fn lemma_wf(&self)
        requires
            self.wf(),
        ensures
            self.graph().wf(),
            forall|i: int|
                0 <= i < self.pending().len() ==> self.pending()[i] < self.graph().names().len(),
    {
    }

    /// Starts the inspection of a class: the class is the root of the graph
    /// and the only node that is to be expanded.
    ///
    /// Fails with [`ErrorKind::InvalidReference`] where the class does not
    /// resolve its own name.
    pub fn start(class: JavaClass) -> (r: Result<Inspection, Error>)
        ensures
            match r {
                Ok(inspection) => inspection.wf() && inspection.pending() == seq![0usize]
                    && inspection.graph().classes() == seq![class] && inspection.graph().edges()
                    == Seq::<Edge>::empty() && inspection.graph().names().len() == 1
                    && class_name_at(class@.constant_pool, class@.this_class) == Some(
                    inspection.graph().names()[0],
                ),
                Err(e) => class_name_at(class@.constant_pool, class@.this_class) is None && e@
                    == ErrorKind::InvalidReference(class@.this_class),
            },
    {
        let graph = InheritanceGraph::new(class)?;
        let mut stack: Vec<usize> = Vec::new();
        stack.push(0);
        Ok(Inspection { graph, stack })
    }

    /// Takes the node that is to be expanded next, if one is left.
    pub fn next(&mut self) -> (r: Option<usize>)
        requires
            old(self).wf(),
        ensures
            final(self).wf(),
            final(self).graph() == old(self).graph(),
            match r {
                Some(node) => old(self).pending().len() > 0 && node == old(self).pending().last()
                    && final(self).pending() == old(self).pending().drop_last() && node
                    < final(self).graph().names().len(),
                None => old(self).pending().len() == 0 && final(self).pending().len() == 0,
            },
    {
        let r = self.stack.pop();
        proof {
            if r is Some {
                assert(self.stack@ =~= old(self).stack@.drop_last());
            }
        }
        r
    }

    /// Gets the class of a node of the graph.
    pub fn class(&self, node: usize) -> (r: Option<&JavaClass>)
        ensures
            match r {
                Some(class) => node < self.graph().classes().len() && *class
                    == self.graph().classes()[node as int],
                None => node >= self.graph().classes().len(),
            },
    {
        self.graph.get_class(node)
    }

    /// Records a class that the class of `node` inherits in the way `kind`:
    /// the class becomes a node that is still to be expanded, unless the
    /// graph holds it already, and an edge of the kind leads from `node` to
    /// it.
    ///
    /// Fails with [`ErrorKind::InvalidReference`] where the class does not
    /// resolve its own name, and with
    /// [`ErrorKind::AddingInheritanceFailed`] and the name of the class of
    /// `node` where the edge cannot be added, above all where it is there
    /// already.
    pub fn record(&mut self, node: usize, class: JavaClass, kind: InheritKind) -> (r: Result<
        (),
        Error,
    >)
        requires
            old(self).wf(),
            node < old(self).graph().names().len(),
        ensures
            final(self).wf(),
            match r {
                Ok(()) => linked(
                    old(self).graph(),
                    old(self).pending(),
                    final(self).graph(),
                    final(self).pending(),
                    node as int,
                    class,
                    kind,
                ),
                Err(e) => final(self).graph().edges() == old(self).graph().edges() && not_linked(
                    old(self).graph(),
                    final(self).graph(),
                    node as int,
                    class,
                    kind,
                    e@,
                ),
            },
    {
        let name = match class.this() {
            Ok(name) => name.to_fqname_buf(),
            Err(e) => {
                return Err(e);
            },
        };
        let ghost names = self.graph.names();
        let added = match self.graph.add_class(class) {
            Ok(added) => added,
            Err(e) => {
                return Err(e);
            },
        };
        let target = match self.graph.node_of(name.as_fq_name()) {
            Some(i) => i,
            None => {
                proof {
                    lemma_index_of(names, name@);
                    lemma_index_of(self.graph.names(), name@);
                    if added {
                        assert(self.graph.names()[names.len() as int] == name@);
                    }
                }
                return Err(Error::new(ErrorKind::AddingInheritanceFailed(name)));
            },
        };
        if added {
            proof {
                lemma_index_of(names, name@);
                lemma_index_of(self.graph.names(), name@);
            }
            self.stack.push(target);
        }
        let ghost edges = self.graph.edges();
        if !self.graph.add_edge(node, target, kind) {
            let from = match self.graph.get_name(node) {
                Some(from) => from.to_fqname_buf(),
                None => name,
            };
            proof {
                lemma_index_of(names, name@);
                lemma_index_of(self.graph.names(), name@);
                if added {
                    assert(!edges.contains((node as int, target as int, kind))) by {
                        if edges.contains((node as int, target as int, kind)) {
                            let at = choose|at: int|
                                0 <= at < edges.len() && edges[at] == (
                                    node as int,
                                    target as int,
                                    kind,
                                );
                            assert(edges[at].1 < names.len());
                        }
                    }
                }
            }
            return Err(Error::new(ErrorKind::AddingInheritanceFailed(from)));
        }
        proof {
            lemma_index_of(names, name@);
            lemma_index_of(self.graph.names(), name@);
        }
        Ok(())
    }

    /// Records what the lookup of the super class of the class of `node`
    /// gave. A super class that is not on the class path is no error: the
    /// class then simply has no further ancestor in the graph. Any other
    /// error ends the inspection.
    pub fn record_super(&mut self, node: usize, found: Result<JavaClass, Error>) -> (r: Result<
        (),
        Error,
    >)
        requires
            old(self).wf(),
            node < old(self).graph().names().len(),
        ensures
            final(self).wf(),
            match found {
                Ok(class) => match r {
                    Ok(()) => linked(
                        old(self).graph(),
                        old(self).pending(),
                        final(self).graph(),
                        final(self).pending(),
                        node as int,
                        class,
                        InheritKind::Extends,
                    ),
                    Err(e) => final(self).graph().edges() == old(self).graph().edges()
                        && not_linked(
                        old(self).graph(),
                        final(self).graph(),
                        node as int,
                        class,
                        InheritKind::Extends,
                        e@,
                    ),
                },
                Err(e) => {
                    &&& final(self).graph() == old(self).graph()
                    &&& final(self).pending() == old(self).pending()
                    &&& if e@ is NoClassFound {
                        r is Ok
                    } else {
                        r == Err::<(), Error>(e)
                    }
                },
            },
    {
        match found {
            Ok(class) => self.record(node, class, InheritKind::Extends),
            Err(e) => if e.is_not_found() {
                Ok(())
            } else {
                Err(e)
            },
        }
    }

    /// Records an interface that the class of `node` implements and that was
    /// found on the class path.
    pub fn record_interface(&mut self, node: usize, interface: JavaClass) -> (r: Result<(), Error>)
        requires
            old(self).wf(),
            node < old(self).graph().names().len(),
        ensures
            final(self).wf(),
            match r {
                Ok(()) => linked(
                    old(self).graph(),
                    old(self).pending(),
                    final(self).graph(),
                    final(self).pending(),
                    node as int,
                    interface,
                    InheritKind::Implements,
                ),
                Err(e) => final(self).graph().edges() == old(self).graph().edges() && not_linked(
                    old(self).graph(),
                    final(self).graph(),
                    node as int,
                    interface,
                    InheritKind::Implements,
                    e@,
                ),
            },
    {
        self.record(node, interface, InheritKind::Implements)
    }

    /// Ends the inspection and hands the graph out.
    pub fn finish(self) -> (r: InheritanceGraph)
        requires
            self.wf(),
        ensures
            r == self.graph(),
            r.wf(),
    {
        self.graph
    }
}

/// Whether an error is the one with which linking the node `from` to a class
/// fails, and the graph is left as such a failure leaves it. A class that
/// does not resolve its own name fails with the index of that name, and a
/// graph that cannot number another node with the name of the class; both
/// leave the graph as it was. An edge that is there already, or that the
/// graph cannot number, fails with the name of the class of `from`, and
/// leaves the graph with the class as a node where it was new.
pub open spec fn not_linked(
    before: InheritanceGraph,
    after: InheritanceGraph,
    from: int,
    class: JavaClass,
    kind: InheritKind,
    e: ErrorKind,
) -> bool {
    match class_name_at(class@.constant_pool, class@.this_class) {
        None => e == ErrorKind::InvalidReference(class@.this_class) && after.names()
            == before.names() && after.classes() == before.classes(),
        Some(name) => match index_of(before.names(), name) {
            Some(to) => {
                &&& after.names() == before.names()
                &&& after.classes() == before.classes()
                &&& before.edges().contains((from, to, kind)) || before.edges().len() >= u32::MAX
                &&& e matches ErrorKind::AddingInheritanceFailed(n) && n@ == before.names()[from]
            },
            None => if before.names().len() >= u32::MAX {
                &&& after.names() == before.names()
                &&& after.classes() == before.classes()
                &&& e matches ErrorKind::AddingInheritanceFailed(n) && n@ == name
            } else {
                &&& after.names() == before.names().push(name)
                &&& after.classes() == before.classes().push(class)
                &&& before.edges().len() >= u32::MAX
                &&& e matches ErrorKind::AddingInheritanceFailed(n) && n@ == before.names()[from]
            },
        },
    }
}

/// Whether a graph and its stack went from `before` to `after` by linking
/// the node `from` to a class: the class is a new node that is still to be
/// expanded, unless a node had its name already, and a new edge of the kind
/// leads from `from` to the node of that name.
pub open spec fn linked(
    before: InheritanceGraph,
    pending_before: Seq<usize>,
    after: InheritanceGraph,
    pending_after: Seq<usize>,
    from: int,
    class: JavaClass,
    kind: InheritKind,
) -> bool {
    match class_name_at(class@.constant_pool, class@.this_class) {
        None => false,
        Some(name) => match index_of(before.names(), name) {
            Some(to) => {
                &&& after.names() == before.names()
                &&& after.classes() == before.classes()
                &&& pending_after == pending_before
                &&& !before.edges().contains((from, to, kind))
                &&& after.edges() == before.edges().push((from, to, kind))
            },
            None => {
                &&& after.names() == before.names().push(name)
                &&& after.classes() == before.classes().push(class)
                &&& pending_after == pending_before.push(before.names().len() as usize)
                &&& after.edges() == before.edges().push((from, before.names().len() as int, kind))
            },
        },
    }
}

/// Counts the edges of a graph with `petgraph`'s `Graph::edge_count`.
#[verifier::external_body]
fn graph_edge_count(g: &Graph<FQNameBuf, InheritKind, Directed, u32>) -> (count: usize)
    ensures
        count == graph_edges(*g).len(),
{
    g.edge_count()
}

} // verus!
