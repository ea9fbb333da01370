//! Transition graph over the declared states, held in a `petgraph::Graph`.
//!
//! Nodes are state indices in declaration order. State `i` has an edge to
//! state `i + 1`; a self-looping state also has an edge to itself; the last
//! declared state is terminal and has no outgoing edge.
use vstd::prelude::*;

verus! {

#[verifier::external_type_specification]
#[verifier::external_body]
#[verifier::reject_recursive_types(N)]
#[verifier::reject_recursive_types(E)]
#[verifier::reject_recursive_types(Ty)]
#[verifier::reject_recursive_types(Ix)]
pub struct ExGraph<N, E, Ty, Ix>(petgraph::Graph<N, E, Ty, Ix>);

#[verifier::external_type_specification]
#[verifier::external_body]
pub struct ExDirected(petgraph::Directed);

/// The node weights of a graph, in order of node index.
pub uninterp spec fn graph_nodes(g: petgraph::Graph<usize, ()>) -> Seq<usize>;

/// The edges of a graph as (source, target) node indices, in order of addition.
pub uninterp spec fn graph_edges(g: petgraph::Graph<usize, ()>) -> Seq<(usize, usize)>;

/// Targets of the edges leaving `a`, most recently added first.
pub open spec fn out_rev(edges: Seq<(usize, usize)>, a: usize) -> Seq<usize>
    decreases edges.len(),
{
    if edges.len() == 0 {
        Seq::empty()
    } else {
        let e = edges.last();
        let rest = out_rev(edges.drop_last(), a);
        if e.0 == a {
            seq![e.1] + rest
        } else {
            rest
        }
    }
}

/// Relies on `petgraph::Graph::new`: a directed graph with no nodes and no edges.
#[verifier::external_body]
fn graph_new() -> (g: petgraph::Graph<usize, ()>)
    ensures
        graph_nodes(g) == Seq::<usize>::empty(),
        graph_edges(g) == Seq::<(usize, usize)>::empty(),
{
    petgraph::Graph::new()
}

/// Relies on `petgraph::Graph::add_node`: appends a node and returns its index,
/// the former node count. It panics once the `u32` index space is full.
#[verifier::external_body]
fn graph_add_node(g: &mut petgraph::Graph<usize, ()>, w: usize) -> (r: usize)
    requires
        graph_nodes(*old(g)).len() < u32::MAX,
    ensures
        graph_nodes(*final(g)) == graph_nodes(*old(g)).push(w),
        graph_edges(*final(g)) == graph_edges(*old(g)),
        r == graph_nodes(*old(g)).len(),
{
    g.add_node(w).index()
}

/// Relies on `petgraph::Graph::add_edge`: appends the edge `a -> b`. It panics
/// when a node does not exist or the `u32` edge index space is full.
#[verifier::external_body]
fn graph_add_edge(g: &mut petgraph::Graph<usize, ()>, a: usize, b: usize)
    requires
        a < graph_nodes(*old(g)).len(),
        b < graph_nodes(*old(g)).len(),
        graph_nodes(*old(g)).len() < u32::MAX,
        graph_edges(*old(g)).len() < u32::MAX,
    ensures
        graph_nodes(*final(g)) == graph_nodes(*old(g)),
        graph_edges(*final(g)) == graph_edges(*old(g)).push((a, b)),
{
    g.add_edge(petgraph::graph::NodeIndex::new(a), petgraph::graph::NodeIndex::new(b), ());
}

/// Relies on `petgraph::Graph::neighbors_directed` with `Outgoing`: in a
/// directed graph the targets of the edges leaving `a`, most recently added
/// edge first.
#[verifier::external_body]
fn graph_outgoing(g: &petgraph::Graph<usize, ()>, a: usize) -> (r: Vec<usize>)
    requires
        a < graph_nodes(*g).len(),
        graph_nodes(*g).len() < u32::MAX,
    ensures
        r@ == out_rev(graph_edges(*g), a),
{
    g.neighbors_directed(petgraph::graph::NodeIndex::new(a), petgraph::Direction::Outgoing)
        .map(|n| n.index())
        .collect()
}


/// Successors of state `i` among `n` states, in graph order: the state itself
/// first when it loops, then the next declared state. The last state has none.
pub open spec fn spec_successors(n: int, looping: Seq<bool>, i: int) -> Seq<usize> {
    if 0 <= i && i + 1 < n {
        if looping[i] {
            seq![i as usize, (i + 1) as usize]
        } else {
            seq![(i + 1) as usize]
        }
    } else {
        Seq::empty()
    }
}

/// Whether the state named `name` is listed among the self-looping states.
pub open spec fn is_listed(markers: Seq<String>, name: Seq<char>) -> bool {
    exists|j: int| 0 <= j < markers.len() && #[trigger] markers[j]@ == name
}

/// Errors of graph construction.
#[derive(Debug, PartialEq, Eq)]
pub enum GraphError {
    /// No state has out-degree zero: the declaration holds no state.
    NoTerminalState,
}

/// The largest number of states a graph may hold: node and edge indices are `u32`.
pub const MAX_STATES: usize = 0x7fff_fff0;

/// The transition graph of one machine.
#[derive(Debug)]
pub struct TransitionGraph {
    graph: petgraph::Graph<usize, ()>,
    looping: Vec<bool>,
}

impl TransitionGraph {
    /// Number of states.
    pub closed spec fn count(&self) -> nat {
        self.looping@.len()
    }

    /// Which states carry a self-loop edge (the terminal state never does).
    pub closed spec fn looping(&self) -> Seq<bool> {
        self.looping@
    }

    /// Index of the terminal state.
    pub open spec fn terminal(&self) -> int {
        self.count() - 1
    }

    /// Outgoing edges of state `i`, in graph order.
    pub open spec fn succ(&self, i: int) -> Seq<usize> {
        spec_successors(self.count() as int, self.looping(), i)
    }

    pub closed spec fn wf(&self) -> bool {
        &&& 0 < self.looping@.len() <= MAX_STATES
        &&& graph_nodes(self.graph).len() == self.looping@.len()
        &&& !self.looping@[self.looping@.len() - 1]
        &&& forall|a: usize|
            a < self.looping@.len() ==> #[trigger] out_rev(graph_edges(self.graph), a)
                == spec_successors(self.looping@.len() as int, self.looping@, a as int)
    }

    /// Builds the graph of the states `names`, in declaration order, giving a
    /// self-loop to each non-terminal state whose name is in `self_looping`.
    pub fn build(names: &Vec<String>, self_looping: &Vec<String>) -> (r: Result<
        TransitionGraph,
        GraphError,
    >)
        requires
            names@.len() <= MAX_STATES,
        ensures
            names@.len() == 0 <==> r is Err,
            r is Err ==> r->Err_0 == GraphError::NoTerminalState,
            r is Ok ==> {
                let g = r->Ok_0;
                &&& g.wf()
                &&& g.count() == names@.len()
                &&& forall|i: int|
                    0 <= i < names@.len() ==> #[trigger] g.looping()[i] == (i + 1 < names@.len()
                        && is_listed(self_looping@, names@[i]@))
            },
    {
        let n = names.len();
        if n == 0 {
            return Err(GraphError::NoTerminalState);
        }
        let mut looping: Vec<bool> = Vec::new();
        let mut i: usize = 0;
        while i < n
            invariant
                n == names@.len(),
                i <= n,
                looping@.len() == i,
                forall|k: int|
                    0 <= k < i ==> #[trigger] looping@[k] == (k + 1 < n && is_listed(
                        self_looping@,
                        names@[k]@,
                    )),
            decreases n - i,
        {
            let mut listed = false;
            if i + 1 < n {
                let mut j: usize = 0;
                while j < self_looping.len()
                    invariant
                        j <= self_looping@.len(),
                        i < names@.len(),
                        listed <==> exists|m: int|
                            0 <= m < j && #[trigger] self_looping@[m]@ == names@[i as int]@,
                    decreases self_looping@.len() - j,
                {
                    if self_looping[j] == names[i] {
                        listed = true;
                    }
                    j = j + 1;
                }
            }
            looping.push(listed);
            i = i + 1;
        }
        let mut graph = graph_new();
        let mut k: usize = 0;
        while k < n
            invariant
                k <= n,
                n <= MAX_STATES,
                graph_nodes(graph).len() == k,
                graph_edges(graph).len() == 0,
            decreases n - k,
        {
            graph_add_node(&mut graph, k);
            k = k + 1;
        }
        let mut s: usize = 0;
        while s < n
            invariant
                s <= n,
                n == looping@.len(),
                n <= MAX_STATES,
                graph_nodes(graph).len() == n,
                graph_edges(graph).len() <= 2 * s,
                !looping@[n - 1],
                forall|a: usize|
                    a < n ==> #[trigger] out_rev(graph_edges(graph), a) == if a < s {
                        spec_successors(n as int, looping@, a as int)
                    } else {
                        Seq::empty()
                    },
            decreases n - s,
        {
            if s + 1 < n {
                let ghost before = graph_edges(graph);
                graph_add_edge(&mut graph, s, s + 1);
                if looping[s] {
                    graph_add_edge(&mut graph, s, s);
                }
                assert forall|a: usize| a < n implies #[trigger] out_rev(graph_edges(graph), a)
                    == if a < s + 1 {
                    spec_successors(n as int, looping@, a as int)
                } else {
                    Seq::empty()
                } by {
                    let e1 = before.push((s, (s + 1) as usize));
                    assert(e1.drop_last() == before);
                    assert(e1.last() == (s, (s + 1) as usize));
                    if a == s {
                        assert(out_rev(e1, a) == seq![(s + 1) as usize] + out_rev(before, a));
                    } else {
                        assert(out_rev(e1, a) == out_rev(before, a));
                    }
                    if looping@[s as int] {
                        let e2 = graph_edges(graph);
                        assert(e2 == e1.push((s, s)));
                        assert(e2.drop_last() == e1);
                        assert(e2.last() == (s, s));
                        if a == s {
                            assert(out_rev(e2, a) == seq![s] + out_rev(e1, a));
                            assert(seq![s] + (seq![(s + 1) as usize] + Seq::<usize>::empty())
                                =~= seq![s, (s + 1) as usize]);
                        } else {
                            assert(out_rev(e2, a) == out_rev(e1, a));
                        }
                    } else {
                        assert(graph_edges(graph) == e1);
                        if a == s {
                            assert(seq![(s + 1) as usize] + Seq::<usize>::empty() =~= seq![
                                (s + 1) as usize,
                            ]);
                        }
                    }
                }
            }
            s = s + 1;
        }
        Ok(TransitionGraph { graph, looping })
    }

    /// Index of the terminal state: the last declared one.
    pub fn terminal_state(&self) -> (r: usize)
        requires
            self.wf(),
        ensures
            r == self.terminal(),
    {
        self.looping.len() - 1
    }

    /// Whether state `i` carries a self-loop edge.
    pub fn is_self_looping(&self, i: usize) -> (r: bool)
        requires
            self.wf(),
            i < self.count(),
        ensures
            r == self.looping()[i as int],
    {
        self.looping[i]
    }

    /// The outgoing edges of state `i`, in graph order.
    pub fn successors(&self, i: usize) -> (r: Vec<usize>)
        requires
            self.wf(),
            i < self.count(),
        ensures
            r@ == self.succ(i as int),
    {
        graph_outgoing(&self.graph, i)
    }
}

/// A well-formed graph holds at least one state.
pub proof fn lemma_nonempty(g: &TransitionGraph)
    requires
        g.wf(),
    ensures
        g.count() > 0,
{
}

/// A well-formed graph has one terminal state, without outgoing edges, and
/// every other state has at least one outgoing edge, all to declared states.
pub proof fn lemma_single_terminal(g: &TransitionGraph, i: int)
    requires
        g.wf(),
        0 <= i < g.count(),
    ensures
        g.succ(i).len() == 0 <==> i == g.terminal(),
        forall|k: int| 0 <= k < g.succ(i).len() ==> #[trigger] g.succ(i)[k] < g.count(),
{
}

/// A self-looping state appears exactly once among its own successors; a
/// state that does not loop never appears among its own successors.
pub proof fn lemma_self_loop_once(g: &TransitionGraph, i: int)
    requires
        g.wf(),
        0 <= i < g.count(),
    ensures
        g.looping()[i] ==> g.succ(i).filter(|t: usize| t == i).len() == 1,
        !g.looping()[i] ==> !g.succ(i).contains(i as usize),
{
    reveal_with_fuel(Seq::filter, 3);
    if g.looping()[i] {
        assert(g.succ(i) == seq![i as usize, (i + 1) as usize]);
        assert(g.succ(i).filter(|t: usize| t == i) =~= seq![i as usize]);
    }
}

} // verus!
