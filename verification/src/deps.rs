//! The dependency walk of a recursive build: which recipe to load next, the graph
//! of "is needed by" edges between packages, and the order that cooks every
//! dependency before the packages that need it.
use vstd::prelude::*;

verus! {

#[verifier::external_type_specification]
#[verifier::external_body]
#[verifier::reject_recursive_types(N)]
#[verifier::reject_recursive_types(E)]
#[verifier::reject_recursive_types(Ty)]
#[verifier::reject_recursive_types(Ix)]
pub struct ExGraph<N, E, Ty, Ix>(petgraph::graph::Graph<N, E, Ty, Ix>);

#[verifier::external_type_specification]
#[verifier::external_body]
pub struct ExDirected(petgraph::Directed);

/// The node weights (in index order) and the edges (source, target) of a graph.
pub uninterp spec fn graph_contents(g: petgraph::graph::DiGraph<usize, ()>) -> (Seq<usize>, Seq<(usize, usize)>);

/// Calls `petgraph::graph::DiGraph::new`: a graph without nodes or edges.
#[verifier::external_body]
fn graph_new() -> (g: petgraph::graph::DiGraph<usize, ()>)
    ensures
        graph_contents(g).0.len() == 0,
        graph_contents(g).1.len() == 0,
{
    petgraph::graph::DiGraph::new()
}

/// Calls `Graph::add_node`: the node gets the next index and the weight. The graph
/// panics when its 32-bit index space is full, which `requires` leaves out.
#[verifier::external_body]
fn graph_add_node(g: &mut petgraph::graph::DiGraph<usize, ()>, w: usize) -> (i: usize)
    requires
        graph_contents(*old(g)).0.len() < u32::MAX,
    ensures
        i == graph_contents(*old(g)).0.len(),
        graph_contents(*final(g)).0 == graph_contents(*old(g)).0.push(w),
        graph_contents(*final(g)).1 == graph_contents(*old(g)).1,
{
    g.add_node(w).index()
}

/// Calls `Graph::edge_count`, the number of edges the graph holds.
#[verifier::external_body]
fn graph_edge_count(g: &petgraph::graph::DiGraph<usize, ()>) -> (n: usize)
    ensures
        n == graph_contents(*g).1.len(),
{
    g.edge_count()
}

/// Calls `Graph::add_edge` from node `a` to node `b`, which must exist.
#[verifier::external_body]
fn graph_add_edge(g: &mut petgraph::graph::DiGraph<usize, ()>, a: usize, b: usize)
    requires
        a < graph_contents(*old(g)).0.len(),
        b < graph_contents(*old(g)).0.len(),
        graph_contents(*old(g)).1.len() < u32::MAX,
    ensures
        graph_contents(*final(g)).0 == graph_contents(*old(g)).0,
        graph_contents(*final(g)).1 == graph_contents(*old(g)).1.push((a, b)),
{
    g.add_edge(petgraph::graph::NodeIndex::new(a), petgraph::graph::NodeIndex::new(b), ());
}

/// `order` lists each of the `n` nodes once, every edge's source before its target.
pub open spec fn is_topological(order: Seq<usize>, n: nat, edges: Seq<(usize, usize)>) -> bool {
    &&& order.len() == n
    &&& order.no_duplicates()
    &&& forall|i: int| 0 <= i < order.len() ==> #[trigger] order[i] < n
    &&& forall|e: int, i: int, j: int|
        #![trigger edges[e], order[i], order[j]]
        0 <= e < edges.len() && 0 <= i < order.len() && 0 <= j < order.len() && order[i] == edges[e].0
            && order[j] == edges[e].1 ==> i < j
}

/// The order `petgraph::algo::toposort` gives the nodes of a graph with `n` nodes and
/// the edges `edges`, or none when it finds a cycle.
pub uninterp spec fn toposort_order(n: nat, edges: Seq<(usize, usize)>) -> Option<Seq<usize>>;

/// Calls `petgraph::algo::toposort` and hands back node indices. As its
/// documentation says, an acyclic graph gets an order with every node before its
/// successors, and a graph with a cycle (a self loop too) gets an error; an acyclic
/// graph is exactly one that has such an order. The order itself is named
/// `toposort_order`.
#[verifier::external_body]
fn graph_toposort(g: &petgraph::graph::DiGraph<usize, ()>) -> (r: Option<Vec<usize>>)
    ensures
        match r {
            Some(o) => is_topological(o@, graph_contents(*g).0.len(), graph_contents(*g).1)
                && toposort_order(graph_contents(*g).0.len(), graph_contents(*g).1) == Some(o@),
            None => !(exists|o: Seq<usize>| is_topological(o, graph_contents(*g).0.len(), graph_contents(*g).1))
                && toposort_order(graph_contents(*g).0.len(), graph_contents(*g).1) is None,
        },
{
    match petgraph::algo::toposort(&*g, None) {
        Ok(order) => Some(order.into_iter().map(|n| n.index()).collect()),
        Err(_) => None,
    }
}

/// The index of the first name equal to `s`, else `names.len()`.
pub open spec fn name_index(names: Seq<Seq<char>>, s: Seq<char>) -> int
    decreases names.len(),
{
    if names.len() == 0 {
        0
    } else if name_index(names.drop_last(), s) < names.len() - 1 {
        name_index(names.drop_last(), s)
    } else if names.last() == s {
        names.len() - 1
    } else {
        names.len() as int
    }
}

proof fn lemma_name_index(names: Seq<Seq<char>>, s: Seq<char>)
    ensures
        0 <= name_index(names, s) <= names.len(),
        name_index(names, s) < names.len() ==> names[name_index(names, s)] == s,
        name_index(names, s) == names.len() ==> forall|k: int| 0 <= k < names.len() ==> names[k] != s,
        forall|k: int| 0 <= k < name_index(names, s) ==> names[k] != s,
    decreases names.len(),
{
    if names.len() > 0 {
        let pre = names.drop_last();
        lemma_name_index(pre, s);
        assert forall|k: int| 0 <= k < names.len() - 1 implies names[k] == pre[k] by {}
    }
}

/// The walk over a package's dependencies: recipes still to load, recipes loaded,
/// the packages met (a graph node each, by index) and the graph.
pub struct DepWalk {
    pending: Vec<String>,
    visited: Vec<String>,
    names: Vec<String>,
    graph: petgraph::graph::DiGraph<usize, ()>,
}

/// The views of a list of strings.
pub open spec fn views(v: Seq<String>) -> Seq<Seq<char>> {
    v.map_values(|s: String| s@)
}

/// Taking packages off the end of the queue `p`, skipping those already in
/// `v`: the queue left and the package taken, if any.
pub open spec fn pop_unvisited(p: Seq<Seq<char>>, v: Seq<Seq<char>>) -> (Seq<Seq<char>>, Option<Seq<char>>)
    decreases p.len(),
{
    if p.len() == 0 {
        (p, None)
    } else if v.contains(p.last()) {
        pop_unvisited(p.drop_last(), v)
    } else {
        (p.drop_last(), Some(p.last()))
    }
}

impl DepWalk {
    pub closed spec fn spec_pending(&self) -> Seq<Seq<char>> {
        views(self.pending@)
    }

    pub closed spec fn spec_visited(&self) -> Seq<Seq<char>> {
        views(self.visited@)
    }

    pub closed spec fn spec_names(&self) -> Seq<Seq<char>> {
        views(self.names@)
    }

    pub closed spec fn spec_edges(&self) -> Seq<(usize, usize)> {
        graph_contents(self.graph).1
    }

    /// Node `i` of the graph is package `i`, and each edge joins two packages.
    pub closed spec fn wf(&self) -> bool {
        &&& graph_contents(self.graph).0 == Seq::new(self.names@.len(), |i: int| i as usize)
        &&& forall|e: int| 0 <= e < self.spec_edges().len() ==> (#[trigger] self.spec_edges()[e]).0
            < self.names@.len() && self.spec_edges()[e].1 < self.names@.len()
    }

    /// A walk from package `root`.
    pub fn new(root: &str) -> (w: Self)
        ensures
            w.wf(),
            w.spec_pending() == seq![root@],
            w.spec_visited().len() == 0,
            w.spec_names().len() == 0,
            w.spec_edges().len() == 0,
    {
        let mut pending: Vec<String> = Vec::new();
        pending.push(root.to_owned());
        let w = DepWalk { pending, visited: Vec::new(), names: Vec::new(), graph: graph_new() };
        proof {
            assert(graph_contents(w.graph).0 =~= Seq::new(0, |i: int| i as usize));
            assert(views(w.pending@) =~= seq![root@]);
            assert(views(w.visited@) =~= Seq::<Seq<char>>::empty());
            assert(views(w.names@) =~= Seq::<Seq<char>>::empty());
        }
        w
    }

    /// The next recipe to load: the newest pending package not loaded yet, which is
    /// now marked loaded; none when no package is left.
    pub fn next_recipe(&mut self) -> (r: Option<String>)
        requires
            old(self).wf(),
        ensures
            final(self).wf(),
            final(self).spec_names() == old(self).spec_names(),
            final(self).spec_edges() == old(self).spec_edges(),
            final(self).spec_pending() == pop_unvisited(old(self).spec_pending(), old(self).spec_visited()).0,
            match r {
                Some(s) => pop_unvisited(old(self).spec_pending(), old(self).spec_visited()).1 == Some(s@)
                    && !old(self).spec_visited().contains(s@) && final(self).spec_visited()
                    == old(self).spec_visited().push(s@) && final(self).spec_pending().len() < old(
                    self,
                ).spec_pending().len(),
                None => pop_unvisited(old(self).spec_pending(), old(self).spec_visited()).1 is None
                    && final(self).spec_pending().len() == 0 && final(self).spec_visited() == old(
                    self,
                ).spec_visited(),
            },
    {
        loop
            invariant
                self.wf(),
                self.spec_names() == old(self).spec_names(),
                self.spec_edges() == old(self).spec_edges(),
                self.spec_visited() == old(self).spec_visited(),
                self.spec_pending().len() <= old(self).spec_pending().len(),
                pop_unvisited(self.spec_pending(), self.spec_visited()) == pop_unvisited(
                    old(self).spec_pending(),
                    old(self).spec_visited(),
                ),
            decreases self.pending@.len(),
        {
            let ghost before = views(self.pending@);
            match self.pending.pop() {
                None => {
                    proof {
                        assert(views(self.pending@).len() == 0);
                    }
                    return None;
                },
                Some(cur) => {
                    proof {
                        assert(views(self.pending@) =~= before.drop_last());
                    }
                    if !contains_string(&self.visited, &cur) {
                        let kept = cur.clone();
                        let ghost vis = views(self.visited@);
                        self.visited.push(kept);
                        proof {
                            assert(views(self.visited@) =~= vis.push(cur@));
                        }
                        return Some(cur);
                    }
                },
            }
        }
    }

    /// The node of package `s`, added when it is new.
    fn node_of(&mut self, s: &String) -> (i: usize)
        requires
            old(self).wf(),
            old(self).names@.len() + 1 < u32::MAX,
        ensures
            final(self).wf(),
            i == name_index(old(self).spec_names(), s@),
            final(self).spec_names() == (if name_index(old(self).spec_names(), s@) < old(
                self,
            ).spec_names().len() {
                old(self).spec_names()
            } else {
                old(self).spec_names().push(s@)
            }),
            i < final(self).spec_names().len(),
            final(self).spec_edges() == old(self).spec_edges(),
            final(self).spec_pending() == old(self).spec_pending(),
            final(self).spec_visited() == old(self).spec_visited(),
    {
        let ghost names0 = views(self.names@);
        proof {
            lemma_name_index(names0, s@);
        }
        let mut k: usize = 0;
        while k < self.names.len()
            invariant
                k <= self.names@.len(),
                *self == *old(self),
                self.wf(),
                names0 == views(self.names@),
                forall|j: int| 0 <= j < k ==> names0[j] != s@,
                0 <= name_index(names0, s@) <= names0.len(),
                name_index(names0, s@) < names0.len() ==> names0[name_index(names0, s@)] == s@,
                forall|j: int| 0 <= j < name_index(names0, s@) ==> names0[j] != s@,
            decreases self.names@.len() - k,
        {
            if self.names[k] == *s {
                proof {
                    assert(names0[k as int] == s@);
                    let m = name_index(names0, s@);
                    if m < k {
                        assert(names0[m] != s@);
                    }
                    if m > k {
                        assert(names0[k as int] != s@);
                    }
                }
                return k;
            }
            k += 1;
        }
        let i = graph_add_node(&mut self.graph, self.names.len());
        self.names.push(s.clone());
        proof {
            assert(views(self.names@) =~= names0.push(s@));
            assert(graph_contents(self.graph).0 =~= Seq::new(self.names@.len(), |j: int| j as usize));
            assert(self.spec_edges() == old(self).spec_edges());
            assert forall|e: int| 0 <= e < self.spec_edges().len() implies (#[trigger] self.spec_edges()[e]).0
                < self.names@.len() && self.spec_edges()[e].1 < self.names@.len() by {
                assert(old(self).spec_edges()[e].0 < old(self).names@.len());
            }
        }
        i
    }

    /// Whether the graph's 32-bit indices leave room for a recipe with `n_deps`
    /// dependencies, as `add_recipe` needs.
    pub fn has_room(&self, n_deps: usize) -> (b: bool)
        requires
            self.wf(),
        ensures
            b == (self.spec_names().len() + n_deps + 2 < u32::MAX && self.spec_edges().len() + n_deps + 1
                < u32::MAX),
    {
        let nodes = self.names.len();
        let edges = graph_edge_count(&self.graph);
        nodes < 0xFFFF_FFFF && n_deps < 0xFFFF_FFFF - nodes && 0xFFFF_FFFF - nodes - n_deps > 2 && edges
            < 0xFFFF_FFFF && n_deps < 0xFFFF_FFFF - edges && 0xFFFF_FFFF - edges - n_deps > 1
    }

    /// Records the loaded recipe of `current` with its dependencies `deps`: each
    /// dependency gets an edge to `current` (it is needed by it) and is queued.
    pub fn add_recipe(&mut self, current: &String, deps: Vec<String>)
        requires
            old(self).wf(),
            old(self).spec_names().len() + deps@.len() + 2 < u32::MAX,
            old(self).spec_edges().len() + deps@.len() + 1 < u32::MAX,
        ensures
            final(self).wf(),
            final(self).spec_pending() == old(self).spec_pending() + views(deps@),
            final(self).spec_visited() == old(self).spec_visited(),
            final(self).spec_edges().len() == old(self).spec_edges().len() + deps@.len(),
            final(self).spec_edges().take(old(self).spec_edges().len() as int) == old(self).spec_edges(),
            forall|k: int| 0 <= k < deps@.len() ==> {
                let e = #[trigger] final(self).spec_edges()[old(self).spec_edges().len() + k];
                &&& final(self).spec_names()[e.0 as int] == deps@[k]@
                &&& final(self).spec_names()[e.1 as int] == current@
            },
            old(self).spec_names().is_prefix_of(final(self).spec_names()),
    {
        let u = self.node_of(current);
        proof {
            lemma_name_index(old(self).spec_names(), current@);
        }
        let ghost e0 = self.spec_edges();
        let ghost p0 = self.spec_pending();
        let ghost names_u = self.spec_names();
        let mut i: usize = 0;
        while i < deps.len()
            invariant
                self.wf(),
                i <= deps@.len(),
                u < self.spec_names().len(),
                self.spec_names()[u as int] == current@,
                self.names@.len() <= old(self).names@.len() + 1 + i,
                old(self).names@.len() + deps@.len() + 2 < u32::MAX,
                old(self).spec_edges().len() + deps@.len() + 1 < u32::MAX,
                e0 == old(self).spec_edges(),
                p0 == old(self).spec_pending(),
                self.spec_visited() == old(self).spec_visited(),
                self.spec_edges().len() == e0.len() + i,
                self.spec_edges().take(e0.len() as int) == e0,
                self.spec_pending() == p0 + views(deps@.take(i as int)),
                old(self).spec_names().is_prefix_of(self.spec_names()),
                forall|k: int| 0 <= k < i ==> {
                    let e = #[trigger] self.spec_edges()[e0.len() + k];
                    &&& self.spec_names()[e.0 as int] == deps@[k]@
                    &&& self.spec_names()[e.1 as int] == current@
                },
            decreases deps@.len() - i,
        {
            let dep = &deps[i];
            let ghost before = *self;
            let v = self.node_of(dep);
            proof {
                lemma_name_index(views(before.names@), dep@);
            }
            graph_add_edge(&mut self.graph, v, u);
            let ghost pend = views(self.pending@);
            self.pending.push(dep.clone());
            proof {
                assert(views(self.pending@) =~= pend.push(dep@));
                assert(deps@.take(i + 1) == deps@.take(i as int).push(deps@[i as int]));
                assert(views(deps@.take(i + 1)) =~= views(deps@.take(i as int)).push(deps@[i as int]@));
                assert(self.spec_edges().take(e0.len() as int) =~= e0);
                assert forall|k: int| 0 <= k < i + 1 implies {
                    let e = #[trigger] self.spec_edges()[e0.len() + k];
                    &&& self.spec_names()[e.0 as int] == deps@[k]@
                    &&& self.spec_names()[e.1 as int] == current@
                } by {
                    if k < i {
                        assert(self.spec_edges()[e0.len() + k] == before.spec_edges()[e0.len() + k]);
                        let e = before.spec_edges()[e0.len() + k];
                        assert(before.spec_names()[e.0 as int] == deps@[k]@);
                        assert(before.spec_names().is_prefix_of(self.spec_names()));
                    }
                }
            }
            i += 1;
        }
        proof {
            assert(deps@.take(deps@.len() as int) == deps@);
        }
    }

    /// The packages in an order that cooks every dependency before the packages
    /// that need it, or none when the dependencies form a cycle.
    pub fn build_order(&self) -> (r: Option<Vec<String>>)
        requires
            self.wf(),
        ensures
            match r {
                Some(o) => toposort_order(self.spec_names().len(), self.spec_edges()) matches Some(idx)
                    && is_topological(idx, self.spec_names().len(), self.spec_edges()) && views(o@)
                    == idx.map_values(|i: usize| self.spec_names()[i as int]),
                None => toposort_order(self.spec_names().len(), self.spec_edges()) is None && !(exists|
                    idx: Seq<usize>,
                | is_topological(idx, self.spec_names().len(), self.spec_edges())),
            },
    {
        match graph_toposort(&self.graph) {
            None => None,
            Some(order) => {
                let mut out: Vec<String> = Vec::new();
                let mut k: usize = 0;
                while k < order.len()
                    invariant
                        k <= order@.len(),
                        self.wf(),
                        is_topological(order@, self.spec_names().len(), self.spec_edges()),
                        views(out@) == order@.take(k as int).map_values(|i: usize| self.spec_names()[i as int]),
                    decreases order@.len() - k,
                {
                    let idx = order[k];
                    proof {
                        assert(order@[k as int] < self.spec_names().len());
                    }
                    let ghost before = views(out@);
                    out.push(self.names[idx].clone());
                    proof {
                        assert(views(out@) =~= before.push(self.spec_names()[idx as int]));
                        assert(order@.take(k + 1) == order@.take(k as int).push(idx));
                        assert(order@.take(k + 1).map_values(|i: usize| self.spec_names()[i as int]) =~= order@.take(
                            k as int,
                        ).map_values(|i: usize| self.spec_names()[i as int]).push(self.spec_names()[idx as int]));
                    }
                    k += 1;
                }
                proof {
                    assert(order@.take(order@.len() as int) == order@);
                }
                Some(out)
            },
        }
    }
}

/// Whether `v` holds a string equal to `s`.
fn contains_string(v: &Vec<String>, s: &String) -> (b: bool)
    ensures
        b == views(v@).contains(s@),
{
    let mut i: usize = 0;
    while i < v.len()
        invariant
            i <= v@.len(),
            forall|k: int| 0 <= k < i ==> v@[k]@ != s@,
        decreases v@.len() - i,
    {
        if v[i] == *s {
            proof {
                assert(views(v@)[i as int] == s@);
            }
            return true;
        }
        i += 1;
    }
    proof {
        if views(v@).contains(s@) {
            let k = choose|k: int| 0 <= k < views(v@).len() && views(v@)[k] == s@;
            assert(v@[k]@ == s@);
        }
    }
    false
}

} // verus!
