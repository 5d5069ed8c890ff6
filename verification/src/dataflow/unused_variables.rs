use vstd::prelude::*;

use std::collections::VecDeque;

verus! {

/// What a node of the data-flow graph stands for, as far as the unused
/// variable check tells nodes apart.
#[derive(Clone, Copy, Debug, PartialEq, Eq, Structural)]
pub enum DataFlowNodeKind {
    Vertex,
    VariableUseSource { pure: bool },
    VariableUseSink,
    ForLoopInit,
}

/// A node of the data-flow graph: its label and its kind.
#[derive(Clone, Debug)]
pub struct DataFlowNode {
    pub label: String,
    pub kind: DataFlowNodeKind,
}

/// A data-flow graph whose nodes are numbered by their place in `nodes`.
/// `backward_edges[n]` lists the nodes whose data flows into node `n`.
pub struct DataFlowGraph {
    pub nodes: Vec<DataFlowNode>,
    pub sources: Vec<usize>,
    pub sinks: Vec<usize>,
    pub backward_edges: Vec<Vec<usize>>,
}

impl DataFlowGraph {
    /// Every node number in the graph names a node, and every node has its
    /// list of predecessors.
    pub open spec fn well_formed(&self) -> bool {
        let n = self.nodes@.len();
        &&& self.backward_edges@.len() == n
        &&& forall|i: int| 0 <= i < self.sources@.len() ==> #[trigger] self.sources@[i] < n
        &&& forall|i: int| 0 <= i < self.sinks@.len() ==> #[trigger] self.sinks@[i] < n
        &&& forall|i: int, j: int|
            0 <= i < n && 0 <= j < self.backward_edges@[i]@.len() ==> #[trigger] self.backward_edges@[i]@[j]
                < n
    }

    /// The predecessors of a node.
    pub open spec fn preds(&self, x: usize) -> Seq<usize> {
        self.backward_edges@[x as int]@
    }

    /// `p` starts at a sink and each later node is a predecessor of the one
    /// before it.
    pub open spec fn is_backward_path(&self, p: Seq<usize>) -> bool {
        &&& p.len() > 0
        &&& self.sinks@.contains(p[0])
        &&& forall|k: int| 0 <= k < p.len() - 1 ==> self.preds(#[trigger] p[k]).contains(p[k + 1])
    }

    /// A node is used when data flows from it to some sink.
    pub open spec fn is_used(&self, x: usize) -> bool {
        exists|p: Seq<usize>| #[trigger] self.is_backward_path(p) && p.last() == x
    }
}

/// The nodes of the listed sources that no sink uses and that are variable
/// use sources of purity `pure`, in order.
pub open spec fn unused_sources(g: DataFlowGraph, sources: Seq<usize>, pure: bool) -> Seq<DataFlowNode>
    decreases sources.len(),
{
    if sources.len() == 0 {
        seq![]
    } else {
        let rest = unused_sources(g, sources.drop_last(), pure);
        let s = sources.last();
        if !g.is_used(s) && g.nodes@[s as int].kind == (DataFlowNodeKind::VariableUseSource { pure }) {
            rest.push(g.nodes@[s as int])
        } else {
            rest
        }
    }
}

/// The number of `false` entries.
pub open spec fn count_unmarked(s: Seq<bool>) -> nat
    decreases s.len(),
{
    if s.len() == 0 {
        0
    } else {
        count_unmarked(s.drop_last()) + if s.last() {
            0nat
        } else {
            1nat
        }
    }
}

proof fn lemma_count_unmarked_mark(s: Seq<bool>, i: int)
    requires
        0 <= i < s.len(),
        !s[i],
    ensures
        count_unmarked(s.update(i, true)) + 1 == count_unmarked(s),
    decreases s.len(),
{
    let t = s.update(i, true);
    if i == s.len() - 1 {
        assert(t.drop_last() =~= s.drop_last());
    } else {
        assert(t.drop_last() =~= s.drop_last().update(i, true));
        lemma_count_unmarked_mark(s.drop_last(), i);
    }
}

/// Every node on a path from a sink is marked when the sinks are marked and
/// the marking is closed under predecessors.
proof fn lemma_closed_marking_covers_paths(g: DataFlowGraph, used: Seq<bool>, p: Seq<usize>)
    requires
        g.well_formed(),
        used.len() == g.nodes@.len(),
        g.is_backward_path(p),
        forall|i: int| 0 <= i < g.sinks@.len() ==> used[#[trigger] g.sinks@[i] as int],
        forall|x: usize, j: int|
            0 <= x < used.len() && used[x as int] && 0 <= j < g.preds(x).len() ==> used[#[trigger] g.preds(
                x,
            )[j] as int],
    ensures
        p.last() < used.len() && used[p.last() as int],
    decreases p.len(),
{
    if p.len() == 1 {
        let i = choose|i: int| 0 <= i < g.sinks@.len() && g.sinks@[i] == p[0];
        assert(used[g.sinks@[i] as int]);
    } else {
        let q = p.drop_last();
        assert forall|k: int| 0 <= k < q.len() - 1 implies g.preds(#[trigger] q[k]).contains(q[k + 1]) by {
            assert(q[k] == p[k]);
            assert(q[k + 1] == p[k + 1]);
        }
        assert(g.is_backward_path(q));
        lemma_closed_marking_covers_paths(g, used, q);
        let x = q.last();
        assert(g.preds(p[p.len() - 2]).contains(p[p.len() - 1]));
        let j = choose|j: int| 0 <= j < g.preds(x).len() && g.preds(x)[j] == p.last();
        assert(used[g.preds(x)[j] as int]);
    }
}

/// Identifies unused variable source nodes: a backward breadth-first walk
/// from every sink marks the nodes whose data reaches a sink, and the source
/// nodes left unmarked are unused. Returns the unused variable use sources
/// declared pure, then those not declared pure, each in the order of
/// `graph.sources`; unused sources of other kinds are in neither list.
pub fn check_variables_used(graph: &DataFlowGraph) -> (r: (Vec<&DataFlowNode>, Vec<&DataFlowNode>))
    requires
        graph.well_formed(),
    ensures
        r.0@.map_values(|n: &DataFlowNode| *n) == unused_sources(*graph, graph.sources@, true),
        r.1@.map_values(|n: &DataFlowNode| *n) == unused_sources(*graph, graph.sources@, false),
{
    let n = graph.nodes.len();
    let mut used: Vec<bool> = Vec::new();
    for i in 0..n
        invariant
            used@.len() == i,
            forall|j: int| 0 <= j < i ==> !used@[j],
    {
        used.push(false);
    }
    let mut queue: VecDeque<usize> = VecDeque::new();
    let ns = graph.sinks.len();
    for i in 0..ns
        invariant
            graph.well_formed(),
            n == graph.nodes@.len(),
            used@.len() == n,
            ns == graph.sinks@.len(),
            forall|j: int| 0 <= j < i ==> used@[#[trigger] graph.sinks@[j] as int],
            forall|x: int| 0 <= x < n && used@[x] ==> graph.is_used(x as usize),
            forall|k: int| 0 <= k < queue@.len() ==> #[trigger] queue@[k] < n && used@[queue@[k] as int],
            forall|x: int| 0 <= x < n && used@[x] ==> queue@.contains(x as usize),
    {
        let sink_id = graph.sinks[i];
        if !used[sink_id] {
            let ghost qb = queue@;
            let ghost ub = used@;
            used.set(sink_id, true);
            queue.push_back(sink_id);
            proof {
                let p = seq![sink_id];
                assert(graph.sinks@[i as int] == sink_id);
                assert(graph.is_backward_path(p));
                assert(queue@.last() == sink_id);
                assert forall|x: int| 0 <= x < n && used@[x] implies queue@.contains(x as usize) by {
                    if x != sink_id {
                        assert(ub[x]);
                        let k = choose|k: int| 0 <= k < qb.len() && qb[k] == x as usize;
                        assert(queue@[k] == qb[k]);
                    } else {
                        assert(queue@[queue@.len() - 1] == x as usize);
                    }
                }
            }
        }
    }
    while queue.len() > 0
        invariant
            graph.well_formed(),
            n == graph.nodes@.len(),
            used@.len() == n,
            forall|j: int| 0 <= j < graph.sinks@.len() ==> used@[#[trigger] graph.sinks@[j] as int],
            forall|x: int| 0 <= x < n && used@[x] ==> graph.is_used(x as usize),
            forall|k: int| 0 <= k < queue@.len() ==> #[trigger] queue@[k] < n && used@[queue@[k] as int],
            forall|x: usize, j: int|
                0 <= x < n && used@[x as int] && !queue@.contains(x) && 0 <= j < graph.preds(x).len()
                    ==> used@[#[trigger] graph.preds(x)[j] as int],
        decreases count_unmarked(used@), queue@.len(),
    {
        let ghost q0 = queue@;
        let ghost count0 = count_unmarked(used@);
        let current_id = queue.pop_front().unwrap();
        assert(q0[0] == current_id);
        let preds = &graph.backward_edges[current_id];
        let np = preds.len();
        let ghost mid = queue@;
        proof {
            assert forall|x: usize, t: int|
                0 <= x < n && used@[x as int] && !queue@.contains(x) && x != current_id && 0 <= t
                    < graph.preds(x).len() implies used@[#[trigger] graph.preds(x)[t] as int] by {
                if q0.contains(x) {
                    let k = choose|k: int| 0 <= k < q0.len() && q0[k] == x;
                    if k > 0 {
                        assert(queue@[k - 1] == x);
                    }
                }
            }
        }
        for j in 0..np
            invariant
                graph.well_formed(),
                n == graph.nodes@.len(),
                used@.len() == n,
                current_id < n,
                used@[current_id as int],
                preds@ == graph.preds(current_id),
                np == preds@.len(),
                mid == q0.subrange(1, q0.len() as int),
                forall|t: int| 0 <= t < graph.sinks@.len() ==> used@[#[trigger] graph.sinks@[t] as int],
                forall|x: int| 0 <= x < n && used@[x] ==> graph.is_used(x as usize),
                forall|k: int| 0 <= k < queue@.len() ==> #[trigger] queue@[k] < n && used@[queue@[k] as int],
                forall|t: int| 0 <= t < j ==> used@[#[trigger] preds@[t] as int],
                queue@.len() >= mid.len(),
                queue@.subrange(0, mid.len() as int) == mid,
                forall|x: usize, t: int|
                    0 <= x < n && used@[x as int] && !queue@.contains(x) && x != current_id && 0 <= t
                        < graph.preds(x).len() ==> used@[#[trigger] graph.preds(x)[t] as int],
                count_unmarked(used@) <= count0,
                queue@.len() > mid.len() ==> count_unmarked(used@) < count0,
        {
            let pred_id = preds[j];
            assert(graph.backward_edges@[current_id as int]@[j as int] == pred_id);
            if !used[pred_id] {
                proof {
                    lemma_count_unmarked_mark(used@, pred_id as int);
                    let p = choose|p: Seq<usize>| #[trigger] graph.is_backward_path(p) && p.last()
                        == current_id;
                    let p2 = p.push(pred_id);
                    assert forall|k: int| 0 <= k < p2.len() - 1 implies graph.preds(#[trigger] p2[k]).contains(
                        p2[k + 1],
                    ) by {
                        if k < p.len() - 1 {
                            assert(p2[k] == p[k]);
                            assert(p2[k + 1] == p[k + 1]);
                        } else {
                            assert(p2[k] == current_id);
                            assert(preds@[j as int] == pred_id);
                        }
                    }
                    assert(p2[0] == p[0]);
                    assert(graph.is_backward_path(p2));
                }
                let ghost qb = queue@;
                used.set(pred_id, true);
                queue.push_back(pred_id);
                proof {
                    assert(queue@.subrange(0, mid.len() as int) =~= qb.subrange(0, mid.len() as int));
                    assert forall|x: usize, t: int|
                        0 <= x < n && used@[x as int] && !queue@.contains(x) && x != current_id && 0
                            <= t < graph.preds(x).len() implies used@[#[trigger] graph.preds(x)[t] as int] by {
                        assert(queue@[queue@.len() - 1] == pred_id);
                        if !qb.contains(x) {
                        } else {
                            let k = choose|k: int| 0 <= k < qb.len() && qb[k] == x;
                            assert(queue@[k] == x);
                        }
                    }
                }
            }
        }
        proof {
            assert forall|x: usize, t: int|
                0 <= x < n && used@[x as int] && !queue@.contains(x) && 0 <= t < graph.preds(x).len()
                    implies used@[#[trigger] graph.preds(x)[t] as int] by {
                if x == current_id {
                    assert(preds@[t] == graph.preds(x)[t]);
                }
            }
            if queue@.len() == mid.len() {
                assert(queue@.len() < q0.len());
            }
        }
    }
    proof {
        assert forall|x: usize| 0 <= x < n && graph.is_used(x) implies used@[x as int] by {
            let p = choose|p: Seq<usize>| #[trigger] graph.is_backward_path(p) && p.last() == x;
            lemma_closed_marking_covers_paths(*graph, used@, p);
        }
    }
    let mut unused_pure_nodes: Vec<&DataFlowNode> = Vec::new();
    let mut unused_impure_nodes: Vec<&DataFlowNode> = Vec::new();
    let nsrc = graph.sources.len();
    for i in 0..nsrc
        invariant
            graph.well_formed(),
            n == graph.nodes@.len(),
            used@.len() == n,
            nsrc == graph.sources@.len(),
            forall|x: usize| 0 <= x < n ==> (used@[x as int] <==> graph.is_used(x)),
            unused_pure_nodes@.map_values(|n: &DataFlowNode| *n) == unused_sources(
                *graph,
                graph.sources@.take(i as int),
                true,
            ),
            unused_impure_nodes@.map_values(|n: &DataFlowNode| *n) == unused_sources(
                *graph,
                graph.sources@.take(i as int),
                false,
            ),
    {
        let source_id = graph.sources[i];
        proof {
            let t = graph.sources@.take(i + 1);
            assert(t.drop_last() =~= graph.sources@.take(i as int));
            assert(t.last() == source_id);
        }
        if !used[source_id] {
            let source_node = &graph.nodes[source_id];
            let ghost before_pure = unused_pure_nodes@;
            let ghost before_impure = unused_impure_nodes@;
            match source_node.kind {
                DataFlowNodeKind::VariableUseSource { pure: true } => {
                    unused_pure_nodes.push(source_node);
                    assert(unused_pure_nodes@.map_values(|n: &DataFlowNode| *n) =~= before_pure.map_values(
                        |n: &DataFlowNode| *n,
                    ).push(*source_node));
                },
                DataFlowNodeKind::VariableUseSource { pure: false } => {
                    unused_impure_nodes.push(source_node);
                    assert(unused_impure_nodes@.map_values(|n: &DataFlowNode| *n) =~= before_impure.map_values(
                        |n: &DataFlowNode| *n,
                    ).push(*source_node));
                },
                _ => {},
            }
        }
    }
    assert(graph.sources@.take(nsrc as int) =~= graph.sources@);
    (unused_pure_nodes, unused_impure_nodes)
}

} // verus!
