//! A directed graph with data on nodes and edges and per-node adjacency
//! lists. Nodes and edges are numbered in the order they were added.
use vstd::prelude::*;

verus! {

/// Identifies a node: its position in the order nodes were added.
#[derive(Debug, Clone, Copy, PartialEq, Eq, Hash, Structural)]
pub struct NodeId(pub usize);

/// Identifies an edge: its position in the order edges were added.
#[derive(Debug, Clone, Copy, PartialEq, Eq, Hash, Structural)]
pub struct EdgeId(pub usize);

#[derive(Debug, Clone)]
pub struct Node<N> {
    pub data: N,
    pub outgoing_edges: Vec<EdgeId>,
    pub incoming_edges: Vec<EdgeId>,
}

#[derive(Debug, Clone)]
pub struct Edge<E> {
    pub data: E,
    pub from: NodeId,
    pub to: NodeId,
}

#[derive(Debug, Clone)]
pub struct Graph<N, E> {
    pub nodes: Vec<Node<N>>,
    pub edges: Vec<Edge<E>>,
}

/// The ids of the edges in `edges` that leave node `n`, in increasing order.
pub open spec fn out_ids<E>(edges: Seq<Edge<E>>, n: int) -> Seq<EdgeId>
    decreases edges.len(),
{
    if edges.len() == 0 {
        Seq::empty()
    } else {
        let rest = out_ids(edges.drop_last(), n);
        if edges.last().from.0 == n {
            rest.push(EdgeId((edges.len() - 1) as usize))
        } else {
            rest
        }
    }
}

/// The ids of the edges in `edges` that enter node `n`, in increasing order.
pub open spec fn in_ids<E>(edges: Seq<Edge<E>>, n: int) -> Seq<EdgeId>
    decreases edges.len(),
{
    if edges.len() == 0 {
        Seq::empty()
    } else {
        let rest = in_ids(edges.drop_last(), n);
        if edges.last().to.0 == n {
            rest.push(EdgeId((edges.len() - 1) as usize))
        } else {
            rest
        }
    }
}

/// Every edge id listed by `out_ids` or `in_ids` names an edge of the list
/// with the right endpoint.
proof fn lemma_ids_name_edges<E>(edges: Seq<Edge<E>>, n: int)
    requires
        edges.len() <= usize::MAX,
    ensures
        forall|k: int|
            0 <= k < out_ids(edges, n).len() ==> {
                let e = #[trigger] out_ids(edges, n)[k].0;
                0 <= e < edges.len() && edges[e as int].from.0 == n
            },
        forall|k: int|
            0 <= k < in_ids(edges, n).len() ==> {
                let e = #[trigger] in_ids(edges, n)[k].0;
                0 <= e < edges.len() && edges[e as int].to.0 == n
            },
    decreases edges.len(),
{
    if edges.len() > 0 {
        let prefix = edges.drop_last();
        lemma_ids_name_edges(prefix, n);
        let outs = out_ids(edges, n);
        let ins = in_ids(edges, n);
        assert forall|k: int| 0 <= k < outs.len() implies {
            let e = #[trigger] outs[k].0;
            0 <= e < edges.len() && edges[e as int].from.0 == n
        } by {
            if k < out_ids(prefix, n).len() {
                assert(outs[k] == out_ids(prefix, n)[k]);
                assert(prefix[outs[k].0 as int] == edges[outs[k].0 as int]);
            }
        }
        assert forall|k: int| 0 <= k < ins.len() implies {
            let e = #[trigger] ins[k].0;
            0 <= e < edges.len() && edges[e as int].to.0 == n
        } by {
            if k < in_ids(prefix, n).len() {
                assert(ins[k] == in_ids(prefix, n)[k]);
                assert(prefix[ins[k].0 as int] == edges[ins[k].0 as int]);
            }
        }
    }
}

/// A node that no edge touches has no edge ids listed.
proof fn lemma_untouched_node<E>(edges: Seq<Edge<E>>, n: int)
    requires
        forall|e: int| 0 <= e < edges.len() ==> (#[trigger] edges[e]).from.0 != n && edges[e].to.0 != n,
    ensures
        out_ids(edges, n).len() == 0,
        in_ids(edges, n).len() == 0,
    decreases edges.len(),
{
    if edges.len() > 0 {
        lemma_untouched_node(edges.drop_last(), n);
    }
}

impl<N, E> Graph<N, E> {
    /// Every edge joins two nodes of the graph, and each node lists exactly
    /// the edges that leave and enter it, in the order they were added.
    pub open spec fn wf(&self) -> bool {
        &&& forall|e: int|
            0 <= e < self.edges@.len() ==> (#[trigger] self.edges@[e]).from.0 < self.nodes@.len()
                && self.edges@[e].to.0 < self.nodes@.len()
        &&& forall|n: int|
            0 <= n < self.nodes@.len() ==> (#[trigger] self.nodes@[n]).outgoing_edges@ == out_ids(
                self.edges@,
                n,
            ) && self.nodes@[n].incoming_edges@ == in_ids(self.edges@, n)
    }

    /// The data of every node, by id.
    pub open spec fn node_data(&self) -> Seq<N> {
        self.nodes@.map_values(|n: Node<N>| n.data)
    }

    pub fn new() -> (r: Self)
        ensures
            r.wf(),
            r.nodes@.len() == 0,
            r.edges@.len() == 0,
    {
        Graph { nodes: Vec::new(), edges: Vec::new() }
    }

    /// Adds a node with no edges; its id is the number of nodes before.
    pub fn add_node(&mut self, data: N) -> (r: NodeId)
        requires
            old(self).wf(),
        ensures
            final(self).wf(),
            r.0 == old(self).nodes@.len(),
            final(self).node_data() == old(self).node_data().push(data),
            final(self).nodes@[r.0 as int].outgoing_edges@.len() == 0,
            final(self).nodes@[r.0 as int].incoming_edges@.len() == 0,
            forall|n: int|
                0 <= n < old(self).nodes@.len() ==> #[trigger] final(self).nodes@[n] == old(
                    self,
                ).nodes@[n],
            final(self).edges@ == old(self).edges@,
    {
        let id = NodeId(self.nodes.len());
        let ghost edges = self.edges@;
        self.nodes.push(Node { data, outgoing_edges: Vec::new(), incoming_edges: Vec::new() });
        proof {
            lemma_untouched_node(edges, id.0 as int);
            assert(out_ids(edges, id.0 as int) =~= self.nodes@[id.0 as int].outgoing_edges@);
            assert(in_ids(edges, id.0 as int) =~= self.nodes@[id.0 as int].incoming_edges@);
            assert forall|n: int| 0 <= n < self.nodes@.len() implies (#[trigger] self.nodes@[n]).outgoing_edges@
                == out_ids(self.edges@, n) && self.nodes@[n].incoming_edges@ == in_ids(self.edges@, n) by {
                if n < id.0 {
                    assert(self.nodes@[n] == old(self).nodes@[n]);
                }
            }
        }
        assert(self.node_data() =~= old(self).node_data().push(data));
        id
    }
    /// Adds an edge from `from` to `to` and lists it on both endpoints; its
    /// id is the number of edges before. Fails, changing nothing, when either
    /// endpoint is not a node of the graph.
    pub fn add_edge(&mut self, from: NodeId, to: NodeId, data: E) -> (r: Result<EdgeId, String>)
        requires
            old(self).wf(),
        ensures
            final(self).wf(),
            match r {
                Ok(id) => {
                    &&& from.0 < old(self).nodes@.len()
                    &&& to.0 < old(self).nodes@.len()
                    &&& id.0 == old(self).edges@.len()
                    &&& final(self).edges@ == old(self).edges@.push(Edge { data, from, to })
                    &&& final(self).nodes@.len() == old(self).nodes@.len()
                    &&& forall|n: int|
                        0 <= n < old(self).nodes@.len() ==> {
                            let before = old(self).nodes@[n];
                            let after = #[trigger] final(self).nodes@[n];
                            &&& after.data == before.data
                            &&& after.outgoing_edges@ == if n == from.0 {
                                before.outgoing_edges@.push(id)
                            } else {
                                before.outgoing_edges@
                            }
                            &&& after.incoming_edges@ == if n == to.0 {
                                before.incoming_edges@.push(id)
                            } else {
                                before.incoming_edges@
                            }
                        }
                },
                Err(msg) => {
                    &&& from.0 >= old(self).nodes@.len() || to.0 >= old(self).nodes@.len()
                    &&& msg@ == "Node index out of bounds"@
                    &&& final(self).nodes@ == old(self).nodes@
                    &&& final(self).edges@ == old(self).edges@
                },
            },
    {
        if from.0 >= self.nodes.len() || to.0 >= self.nodes.len() {
            return Err("Node index out of bounds".to_string());
        }
        let id = EdgeId(self.edges.len());
        self.edges.push(Edge { data, from, to });
        self.nodes[from.0].outgoing_edges.push(id);
        self.nodes[to.0].incoming_edges.push(id);
        proof {
            let before = old(self).edges@;
            assert(self.edges@.drop_last() =~= before);
            assert forall|n: int| 0 <= n < self.nodes@.len() implies (#[trigger] self.nodes@[n]).outgoing_edges@
                == out_ids(self.edges@, n) && self.nodes@[n].incoming_edges@ == in_ids(self.edges@, n) by {
                assert(old(self).nodes@[n].outgoing_edges@ == out_ids(before, n));
            }
            assert forall|e: int| 0 <= e < self.edges@.len() implies (#[trigger] self.edges@[e]).from.0
                < self.nodes@.len() && self.edges@[e].to.0 < self.nodes@.len() by {
                if e < before.len() {
                    assert(self.edges@[e] == before[e]);
                }
            }
        }
        Ok(id)
    }
    /// The data of node `id`, if the graph has that node.
    pub fn get_node(&self, id: NodeId) -> (r: Option<&N>)
        ensures
            match r {
                Some(d) => id.0 < self.nodes@.len() && *d == self.nodes@[id.0 as int].data,
                None => id.0 >= self.nodes@.len(),
            },
    {
        if id.0 < self.nodes.len() {
            Some(&self.nodes[id.0].data)
        } else {
            None
        }
    }

    /// Mutable access to the data of node `id`, if the graph has that node.
    /// Nothing but that node's data can change through it.
    pub fn get_node_mut(&mut self, id: NodeId) -> (r: Option<&mut N>)
        ensures
            match r {
                Some(d) => {
                    &&& id.0 < old(self).nodes@.len()
                    &&& *d == old(self).nodes@[id.0 as int].data
                    &&& final(self).nodes@ == old(self).nodes@.update(
                        id.0 as int,
                        Node { data: *final(d), ..old(self).nodes@[id.0 as int] },
                    )
                    &&& final(self).edges@ == old(self).edges@
                },
                None => {
                    &&& id.0 >= old(self).nodes@.len()
                    &&& final(self).nodes@ == old(self).nodes@
                    &&& final(self).edges@ == old(self).edges@
                },
            },
    {
        if id.0 < self.nodes.len() {
            Some(&mut self.nodes[id.0].data)
        } else {
            None
        }
    }

    /// The data of edge `id`, if the graph has that edge.
    pub fn get_edge(&self, id: EdgeId) -> (r: Option<&E>)
        ensures
            match r {
                Some(d) => id.0 < self.edges@.len() && *d == self.edges@[id.0 as int].data,
                None => id.0 >= self.edges@.len(),
            },
    {
        if id.0 < self.edges.len() {
            Some(&self.edges[id.0].data)
        } else {
            None
        }
    }

    /// The heads of the edges leaving node `id`, one per edge, in the order
    /// the edges were added; `None` if the graph has no such node.
    pub fn neighbors(&self, id: NodeId) -> (r: Option<Vec<NodeId>>)
        requires
            self.wf(),
        ensures
            match r {
                Some(v) => {
                    &&& id.0 < self.nodes@.len()
                    &&& v@ == out_ids(self.edges@, id.0 as int).map_values(
                        |e: EdgeId| self.edges@[e.0 as int].to,
                    )
                },
                None => id.0 >= self.nodes@.len(),
            },
    {
        if id.0 >= self.nodes.len() {
            return None;
        }
        let outgoing = &self.nodes[id.0].outgoing_edges;
        let ghost ids = out_ids(self.edges@, id.0 as int);
        let edge_count = self.edges.len();
        proof {
            assert(self.edges@.len() == edge_count);
            lemma_ids_name_edges(self.edges@, id.0 as int);
        }
        let mut heads: Vec<NodeId> = Vec::new();
        let mut k: usize = 0;
        while k < outgoing.len()
            invariant
                self.wf(),
                id.0 < self.nodes@.len(),
                outgoing@ == ids,
                ids == out_ids(self.edges@, id.0 as int),
                forall|j: int|
                    0 <= j < ids.len() ==> 0 <= (#[trigger] ids[j]).0 < self.edges@.len(),
                0 <= k <= ids.len(),
                heads@ == ids.take(k as int).map_values(|e: EdgeId| self.edges@[e.0 as int].to),
            decreases ids.len() - k,
        {
            let eid = outgoing[k];
            heads.push(self.edges[eid.0].to);
            k += 1;
            assert(heads@ =~= ids.take(k as int).map_values(|e: EdgeId| self.edges@[e.0 as int].to));
        }
        assert(ids.take(k as int) =~= ids);
        Some(heads)
    }
}

impl<N, E> Default for Graph<N, E> {
    fn default() -> (r: Self)
        ensures
            r.wf(),
            r.nodes@.len() == 0,
            r.edges@.len() == 0,
    {
        Graph::new()
    }
}

} // verus!
