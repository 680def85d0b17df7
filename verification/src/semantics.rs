use crate::neural_net::{Arithmetic, NodeType};
use crate::neural_net_consecutive::{Connection, Node, NodeValue};
use vstd::prelude::*;

verus! {

/// The nodes at some moment of a round, and the outputs collected up to
/// then.
pub struct Round<T> {
    pub nodes: Seq<Node<T>>,
    pub outputs: Seq<T>,
}

/// The value that reading the node gives: the activation of its sum, or
/// the value it has settled on before.
pub open spec fn value_read<T>(n: Node<T>, ar: Arithmetic<T>) -> T {
    match n.value {
        NodeValue::Accumulator(sum) => (ar.apply)(n.func, sum),
        NodeValue::Activated(v) => v,
    }
}

/// The node settled on the value `v`.
pub open spec fn settled<T>(n: Node<T>, v: T) -> Node<T> {
    Node { value: NodeValue::Activated(v), node_type: n.node_type, func: n.func }
}

/// The node after it was read: settled on the value read.
pub open spec fn after_read<T>(n: Node<T>, ar: Arithmetic<T>) -> Node<T> {
    settled(n, value_read(n, ar))
}

/// The node after it received the contribution `x`: a settled value is
/// dropped and `x` starts a new sum, a growing sum takes `x` in.
pub open spec fn after_contribution<T>(n: Node<T>, x: T, ar: Arithmetic<T>) -> Node<T> {
    Node {
        value: match n.value {
            NodeValue::Activated(_) => NodeValue::Accumulator(x),
            NodeValue::Accumulator(sum) => NodeValue::Accumulator((ar.plus)(x, sum)),
        },
        node_type: n.node_type,
        func: n.func,
    }
}

/// Firing one connection: its origin is read, and the value read, times the
/// weight, is contributed to its destination.
pub open spec fn fire<T>(nodes: Seq<Node<T>>, c: Connection<T>, ar: Arithmetic<T>) -> Seq<
    Node<T>,
> {
    let o = c.origin as int;
    let d = c.dest as int;
    let x = (ar.scale)(value_read(nodes[o], ar), c.weight);
    let read = nodes.update(o, after_read(nodes[o], ar));
    read.update(d, after_contribution(read[d], x, ar))
}

/// Firing the first `k` connections in order.
pub open spec fn fire_all<T>(
    nodes: Seq<Node<T>>,
    connections: Seq<Connection<T>>,
    k: nat,
    ar: Arithmetic<T>,
) -> Seq<Node<T>>
    decreases k,
{
    if k == 0 {
        nodes
    } else {
        fire(fire_all(nodes, connections, (k - 1) as nat, ar), connections[k - 1], ar)
    }
}

/// The number of input nodes among the first `k` nodes.
pub open spec fn input_rank<T>(nodes: Seq<Node<T>>, k: nat) -> nat
    decreases k,
{
    if k == 0 {
        0
    } else {
        input_rank(nodes, (k - 1) as nat) + if nodes[k - 1].node_type == NodeType::Input {
            1nat
        } else {
            0nat
        }
    }
}

/// The number of output nodes among the first `k` nodes.
pub open spec fn output_rank<T>(nodes: Seq<Node<T>>, k: nat) -> nat
    decreases k,
{
    if k == 0 {
        0
    } else {
        output_rank(nodes, (k - 1) as nat) + if nodes[k - 1].node_type == NodeType::Output {
            1nat
        } else {
            0nat
        }
    }
}

/// Loading the inputs into the first `k` nodes: the input nodes settle on
/// the input values, one each in order, while there are values left. An
/// input node for which no value is left stays as it is.
pub open spec fn load_inputs<T>(nodes: Seq<Node<T>>, inputs: Seq<T>, k: nat) -> Seq<Node<T>>
    decreases k,
{
    if k == 0 {
        nodes
    } else {
        let p = load_inputs(nodes, inputs, (k - 1) as nat);
        let rank = input_rank(nodes, (k - 1) as nat);
        if nodes[k - 1].node_type == NodeType::Input && rank < inputs.len() {
            p.update(k - 1, settled(nodes[k - 1], inputs[rank as int]))
        } else {
            p
        }
    }
}

/// Collecting the outputs among the first `k` nodes: each output node is
/// read, and the value read is the next output.
pub open spec fn collect_outputs<T>(r: Round<T>, k: nat, ar: Arithmetic<T>) -> Round<T>
    decreases k,
{
    if k == 0 {
        r
    } else {
        let p = collect_outputs(r, (k - 1) as nat, ar);
        let n = p.nodes[k - 1];
        if n.node_type == NodeType::Output {
            Round {
                nodes: p.nodes.update(k - 1, after_read(n, ar)),
                outputs: p.outputs.push(value_read(n, ar)),
            }
        } else {
            p
        }
    }
}

/// What one round makes of the nodes, and the outputs it gives: the inputs
/// are loaded, every connection fires in order, the outputs are collected.
pub open spec fn round<T>(
    nodes: Seq<Node<T>>,
    connections: Seq<Connection<T>>,
    inputs: Seq<T>,
    ar: Arithmetic<T>,
) -> Round<T> {
    let loaded = load_inputs(nodes, inputs, nodes.len());
    let fired = fire_all(loaded, connections, connections.len(), ar);
    collect_outputs(Round { nodes: fired, outputs: Seq::<T>::empty() }, nodes.len(), ar)
}

/// Whether two node lists differ at most in what the nodes hold.
pub open spec fn same_shape<T>(a: Seq<Node<T>>, b: Seq<Node<T>>) -> bool {
    a.len() == b.len() && forall|k: int|
        0 <= k < a.len() ==> (#[trigger] a[k]).node_type == b[k].node_type && a[k].func
            == b[k].func
}

/// Whether both ends of every connection are among the first `nodes` nodes.
pub open spec fn connections_fit<T>(connections: Seq<Connection<T>>, nodes: nat) -> bool {
    forall|k: int|
        0 <= k < connections.len() ==> (#[trigger] connections[k]).origin < nodes
            && connections[k].dest < nodes
}

/// A node that was read gives the same value when it is read again, and is
/// not changed by that: its activation function is applied once.
pub proof fn lemma_read_twice<T>(n: Node<T>, ar: Arithmetic<T>)
    ensures
        value_read(after_read(n, ar), ar) == value_read(n, ar),
        after_read(after_read(n, ar), ar) == after_read(n, ar),
{
}

/// How many output nodes there are depends on the kinds of the nodes alone.
pub proof fn lemma_output_rank_shape<T>(a: Seq<Node<T>>, b: Seq<Node<T>>, k: nat)
    requires
        same_shape(a, b),
        k <= a.len(),
    ensures
        output_rank(a, k) == output_rank(b, k),
    decreases k,
{
    if k > 0 {
        lemma_output_rank_shape(a, b, (k - 1) as nat);
    }
}

proof fn lemma_load_shape<T>(nodes: Seq<Node<T>>, inputs: Seq<T>, k: nat)
    requires
        k <= nodes.len(),
    ensures
        same_shape(load_inputs(nodes, inputs, k), nodes),
    decreases k,
{
    if k > 0 {
        lemma_load_shape(nodes, inputs, (k - 1) as nat);
    }
}

proof fn lemma_fire_all_shape<T>(
    nodes: Seq<Node<T>>,
    connections: Seq<Connection<T>>,
    k: nat,
    ar: Arithmetic<T>,
)
    requires
        k <= connections.len(),
        connections_fit(connections, nodes.len()),
    ensures
        same_shape(fire_all(nodes, connections, k, ar), nodes),
    decreases k,
{
    if k > 0 {
        lemma_fire_all_shape(nodes, connections, (k - 1) as nat, ar);
        let c = connections[k - 1];
        assert(c.origin < nodes.len() && c.dest < nodes.len());
    }
}

proof fn lemma_collect_shape<T>(r: Round<T>, k: nat, ar: Arithmetic<T>)
    requires
        k <= r.nodes.len(),
    ensures
        same_shape(collect_outputs(r, k, ar).nodes, r.nodes),
        collect_outputs(r, k, ar).outputs.len() == r.outputs.len() + output_rank(r.nodes, k),
        forall|i: int|
            0 <= i < k && r.nodes[i].node_type == NodeType::Output ==> (#[trigger] collect_outputs(
                r,
                k,
                ar,
            ).nodes[i]).value is Activated,
    decreases k,
{
    if k > 0 {
        lemma_collect_shape(r, (k - 1) as nat, ar);
    }
}

/// A round leaves the nodes what they are and changes only what they hold;
/// it gives one output for each output node, and leaves every output node
/// settled.
pub proof fn lemma_round_shape<T>(
    nodes: Seq<Node<T>>,
    connections: Seq<Connection<T>>,
    inputs: Seq<T>,
    ar: Arithmetic<T>,
)
    requires
        connections_fit(connections, nodes.len()),
    ensures
        same_shape(round(nodes, connections, inputs, ar).nodes, nodes),
        round(nodes, connections, inputs, ar).outputs.len() == output_rank(nodes, nodes.len()),
        forall|i: int|
            0 <= i < nodes.len() && nodes[i].node_type == NodeType::Output ==> (#[trigger] round(
                nodes,
                connections,
                inputs,
                ar,
            ).nodes[i]).value is Activated,
{
    lemma_load_shape(nodes, inputs, nodes.len());
    let loaded = load_inputs(nodes, inputs, nodes.len());
    lemma_fire_all_shape(loaded, connections, connections.len(), ar);
    let fired = fire_all(loaded, connections, connections.len(), ar);
    let r = Round { nodes: fired, outputs: Seq::<T>::empty() };
    lemma_collect_shape(r, nodes.len(), ar);
    lemma_output_rank_shape(fired, nodes, nodes.len());
}

} // verus!
