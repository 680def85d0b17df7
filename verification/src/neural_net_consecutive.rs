use crate::neural_net::{
    computes, indices_in_range, is_arithmetic, ActivationFunction, Arithmetic, ConnectionTemplate, ConnectionType,
    Error, NeuralNet, NeuralNetBuilder, NodeTemplate, NodeType,
};
use crate::schedule::{
    connection_order, has_loop, is_valid_order, lemma_loop_unschedulable, must_precede,
    schedulable,
};
use crate::semantics::{
    after_read, collect_outputs, connections_fit, fire, fire_all, input_rank, load_inputs,
    output_rank, round, same_shape, settled, value_read, Round,
};
use vstd::prelude::*;

verus! {

/// What a node holds: the sum of the contributions it has received since it
/// was last read, or the value it was found to have when it was read.
#[derive(Debug, PartialEq)]
pub enum NodeValue<T> {
    Accumulator(T),
    Activated(T),
}

/// A node of a realized network, with what it holds.
#[derive(Debug, PartialEq)]
pub struct Node<T> {
    pub value: NodeValue<T>,
    pub node_type: NodeType,
    pub func: ActivationFunction,
}

/// A connection of a realized network.
#[derive(Debug, PartialEq)]
pub struct Connection<T> {
    pub origin: u32,
    pub dest: u32,
    pub weight: T,
    pub connection_type: ConnectionType,
}

/// A network whose connections are kept in the order in which they fire.
pub struct ConsecutiveNeuralNet<T> {
    nodes: Vec<Node<T>>,
    connections: Vec<Connection<T>>,
}

/// A node as it is before its first round: it holds the sum `zero`.
pub open spec fn fresh_node<T>(t: NodeTemplate, zero: T) -> Node<T> {
    Node { value: NodeValue::Accumulator(zero), node_type: t.node_type, func: t.func }
}

/// The template that a node was made from.
pub open spec fn template_of<T>(n: Node<T>) -> NodeTemplate {
    NodeTemplate { node_type: n.node_type, func: n.func }
}

/// The connection that a template stands for.
pub open spec fn realize<T>(t: ConnectionTemplate<T>) -> Connection<T> {
    Connection {
        origin: t.origin,
        dest: t.dest,
        weight: t.weight,
        connection_type: t.connection_type,
    }
}

/// The templates' connections, taken in the given order.
pub open spec fn realized<T>(
    connections: Seq<ConnectionTemplate<T>>,
    order: Seq<usize>,
) -> Seq<Connection<T>> {
    Seq::new(order.len(), |k: int| realize(connections[order[k] as int]))
}

/// Whether connection `a` has to fire before connection `b`: `a` feeds the
/// node that the normal connection `b` reads, or the recurrent connection
/// `a` reads the node that `b` feeds.
pub open spec fn fires_first<T>(a: Connection<T>, b: Connection<T>) -> bool {
    (a.dest == b.origin && b.connection_type == ConnectionType::Normal) || (a.origin == b.dest
        && a.connection_type == ConnectionType::Recurrent)
}

/// Templates taken in a valid order fire in order: of two different
/// connections, the one that has to fire first stands first. So a normal
/// connection reads a node when its sum is complete, and a recurrent one
/// reads a node before this round's contributions reach it.
pub proof fn lemma_realized_in_order<T>(
    connections: Seq<ConnectionTemplate<T>>,
    order: Seq<usize>,
    a: int,
    b: int,
)
    requires
        is_valid_order(connections, order),
        0 <= a < order.len(),
        0 <= b < order.len(),
        a != b,
        fires_first(realized(connections, order)[a], realized(connections, order)[b]),
    ensures
        a < b,
{
    if a < b {
        assert(order[a] != order[b]);
    } else {
        assert(order[b] != order[a]);
    }
    assert(must_precede(connections, order[a] as int, order[b] as int));
}

impl<T: Copy> Node<T> {
    /// Reads the node's value and leaves the node settled on it. A sum is
    /// passed through the node's activation function for that; a value that
    /// the node has settled on before is returned as it is.
    pub fn get_val<A>(&mut self, apply: &A) -> (v: T) where A: Fn(ActivationFunction, T) -> T
        requires
            forall|f: ActivationFunction, x: T| call_requires(*apply, (f, x)),
        ensures
            *final(self) == settled(*old(self), v),
            match old(self).value {
                NodeValue::Activated(x) => v == x,
                NodeValue::Accumulator(x) => call_ensures(*apply, (old(self).func, x), v),
            },
    {
        match self.value {
            NodeValue::Activated(x) => x,
            NodeValue::Accumulator(x) => {
                let output = apply(self.func, x);
                self.value = NodeValue::Activated(output);
                output
            },
        }
    }

    /// Takes the contribution `x` and leaves the node accumulating: `x`
    /// starts a new sum where the node had settled on a value, and is added
    /// to the sum otherwise.
    pub fn add_to_val<P>(&mut self, x: T, plus: &P) where P: Fn(T, T) -> T
        requires
            forall|a: T, b: T| call_requires(*plus, (a, b)),
        ensures
            final(self).node_type == old(self).node_type,
            final(self).func == old(self).func,
            match old(self).value {
                NodeValue::Activated(_) => final(self).value == NodeValue::Accumulator(x),
                NodeValue::Accumulator(y) => final(self).value matches NodeValue::Accumulator(z)
                    && call_ensures(*plus, (x, y), z),
            },
    {
        self.value = match self.value {
            NodeValue::Activated(_) => NodeValue::Accumulator(x),
            NodeValue::Accumulator(y) => NodeValue::Accumulator(plus(x, y)),
        };
    }
}

impl<T: Copy> ConsecutiveNeuralNet<T> {
    /// The nodes with what they hold, in declaration order.
    pub closed spec fn nodes(&self) -> Seq<Node<T>> {
        self.nodes@
    }

    /// The connections, in firing order.
    pub closed spec fn connections(&self) -> Seq<Connection<T>> {
        self.connections@
    }

    /// The templates of the nodes, in declaration order.
    pub open spec fn node_templates(&self) -> Seq<NodeTemplate> {
        Seq::new(self.nodes().len(), |k: int| template_of(self.nodes()[k]))
    }

    /// A network without nodes or connections.
    pub fn new() -> (r: ConsecutiveNeuralNet<T>)
        ensures
            r.well_formed(),
            r.nodes() == Seq::<Node<T>>::empty(),
            r.connections() == Seq::<Connection<T>>::empty(),
    {
        Self { nodes: Vec::new(), connections: Vec::new() }
    }

    /// Settles the input nodes on the input values, one each in order, as
    /// long as both last.
    fn load_input_values(&mut self, inputs: &[T])
        ensures
            final(self).connections@ == old(self).connections@,
            final(self).nodes@ == load_inputs(old(self).nodes@, inputs@, old(self).nodes@.len()),
            same_shape(final(self).nodes@, old(self).nodes@),
    {
        let ghost start = self.nodes@;
        let n = self.nodes.len();
        let mut used: usize = 0;
        let mut i: usize = 0;
        while i < n
            invariant
                i <= n,
                n == start.len(),
                used <= i,
                used == input_rank(start, i as nat),
                self.connections@ == old(self).connections@,
                same_shape(self.nodes@, start),
                self.nodes@ == load_inputs(start, inputs@, i as nat),
                forall|j: int| i <= j < n ==> self.nodes@[j] == start[j],
            decreases n - i,
        {
            if self.nodes[i].node_type == NodeType::Input {
                if used < inputs.len() {
                    self.nodes[i].value = NodeValue::Activated(inputs[used]);
                }
                used = used + 1;
            }
            i = i + 1;
        }
    }
}

impl<T: Copy> NeuralNet<T> for ConsecutiveNeuralNet<T> {
    /// Every connection joins two nodes of the network.
    open spec fn well_formed(&self) -> bool {
        connections_fit(self.connections(), self.nodes().len())
    }

    /// The nodes are those of the templates, and the connections are those
    /// of the templates in an order in which they can fire.
    open spec fn realizes(
        &self,
        nodes: Seq<NodeTemplate>,
        connections: Seq<ConnectionTemplate<T>>,
    ) -> bool {
        &&& self.node_templates() == nodes
        &&& exists|order: Seq<usize>| #[trigger]
            is_valid_order(connections, order) && self.connections() == realized(
                connections,
                order,
            )
    }

    /// Templates are refused for a connection to or from a node that is not
    /// there, and otherwise for having no order in which they can fire.
    open spec fn rejects(
        nodes: Seq<NodeTemplate>,
        connections: Seq<ConnectionTemplate<T>>,
        e: Error,
    ) -> bool {
        match e {
            Error::InvalidConnectionIndex => !indices_in_range(connections, nodes.len()),
            Error::ConnectionLoop => indices_in_range(connections, nodes.len()) && !schedulable(
                connections,
            ),
        }
    }

    open spec fn round_outputs(&self, inputs: Seq<T>, ar: Arithmetic<T>) -> Seq<T> {
        round(self.nodes(), self.connections(), inputs, ar).outputs
    }

    /// Realizes the builder's templates: every node starts with the sum
    /// `zero`, and the connections are put in firing order once and for all.
    /// Succeeds exactly when every connection joins two declared nodes and
    /// the connections can be ordered; a loop of normal connections, or of
    /// recurrent ones, among connections that all join declared nodes is
    /// answered with `ConnectionLoop`.
    fn build_from(builder: &NeuralNetBuilder<T>, zero: T) -> (r: Result<Self, Error>)
        ensures
            r matches Ok(net) ==> net.nodes() == Seq::new(
                builder.nodes@.len(),
                |k: int| fresh_node(builder.nodes@[k], zero),
            ),
            builder.well_connected() && has_loop(builder.connections@) ==> r matches Err(
                Error::ConnectionLoop,
            ),
    {
        proof {
            lemma_loop_unschedulable(builder.connections@);
        }
        let n_nodes = builder.nodes.len();
        let n_conns = builder.connections.len();
        let mut k: usize = 0;
        while k < n_conns
            invariant
                k <= n_conns,
                n_conns == builder.connections@.len(),
                n_nodes == builder.nodes@.len(),
                indices_in_range(builder.connections@.take(k as int), n_nodes as nat),
            decreases n_conns - k,
        {
            let t = &builder.connections[k];
            if t.origin as usize >= n_nodes || t.dest as usize >= n_nodes {
                proof {
                    if builder.well_connected() {
                        assert(builder.connections@[k as int].origin < n_nodes);
                    }
                }
                return Err(Error::InvalidConnectionIndex);
            }
            proof {
                let a = builder.connections@.take(k as int);
                let b = builder.connections@.take(k + 1);
                assert forall|j: int| 0 <= j < b.len() implies (#[trigger] b[j]).origin < n_nodes
                    && b[j].dest < n_nodes by {
                    if j < k {
                        assert(b[j] == a[j]);
                    }
                }
            }
            k = k + 1;
        }
        assert(builder.connections@.take(n_conns as int) =~= builder.connections@);

        let order = match connection_order(builder.connections.as_slice()) {
            Ok(order) => order,
            Err(e) => {
                return Err(Error::ConnectionLoop);
            },
        };

        let mut nodes: Vec<Node<T>> = Vec::new();
        let mut i: usize = 0;
        while i < n_nodes
            invariant
                i <= n_nodes,
                n_nodes == builder.nodes@.len(),
                nodes@ == Seq::new(i as nat, |k: int| fresh_node(builder.nodes@[k], zero)),
            decreases n_nodes - i,
        {
            let t = &builder.nodes[i];
            nodes.push(
                Node { value: NodeValue::Accumulator(zero), node_type: t.node_type, func: t.func },
            );
            assert(nodes@ =~= Seq::new(
                (i + 1) as nat,
                |k: int| fresh_node(builder.nodes@[k], zero),
            ));
            i = i + 1;
        }

        let mut connections: Vec<Connection<T>> = Vec::new();
        let mut j: usize = 0;
        while j < n_conns
            invariant
                j <= n_conns,
                n_conns == builder.connections@.len(),
                is_valid_order(builder.connections@, order@),
                connections@ == realized(builder.connections@, order@.take(j as int)),
            decreases n_conns - j,
        {
            let t = &builder.connections[order[j]];
            connections.push(
                Connection {
                    origin: t.origin,
                    dest: t.dest,
                    weight: t.weight,
                    connection_type: t.connection_type,
                },
            );
            assert(connections@ =~= realized(builder.connections@, order@.take(j + 1)));
            j = j + 1;
        }
        assert(order@.take(n_conns as int) =~= order@);

        let net = Self { nodes, connections };
        proof {
            assert(net.node_templates() =~= builder.nodes@);
            assert forall|k: int| 0 <= k < net.connections@.len() implies (#[trigger] net.connections@[k]).origin
                < net.nodes@.len() && net.connections@[k].dest < net.nodes@.len() by {
                let t = builder.connections@[order@[k] as int];
                assert(t.origin < n_nodes && t.dest < n_nodes);
            }
        }
        Ok(net)
    }

    /// Runs one round: the input nodes take the input values, one each in
    /// order while both last; every connection fires in order; the output
    /// nodes are read in declaration order, and their values returned. The
    /// nodes keep what the round left in them. Whatever arithmetic the three
    /// functions compute, nodes and outputs are those of a round under it.
    fn evaluate<A, S, P>(&mut self, inputs: &[T], apply: A, scale: S, plus: P) -> (outputs: Vec<
        T,
    >) where A: Fn(ActivationFunction, T) -> T, S: Fn(T, T) -> T, P: Fn(T, T) -> T
        ensures
            final(self).connections() == old(self).connections(),
            same_shape(final(self).nodes(), old(self).nodes()),
            outputs@.len() == output_rank(old(self).nodes(), old(self).nodes().len()),
            forall|ar: Arithmetic<T>| #[trigger]
                computes(apply, scale, plus, ar) ==> (Round {
                    nodes: final(self).nodes(),
                    outputs: outputs@,
                }) == round(old(self).nodes(), old(self).connections(), inputs@, ar),
    {
        self.load_input_values(inputs);
        let ghost loaded = self.nodes@;

        let n_nodes = self.nodes.len();
        let n_conns = self.connections.len();
        let mut k: usize = 0;
        while k < n_conns
            invariant
                k <= n_conns,
                n_conns == self.connections@.len(),
                n_nodes == self.nodes@.len(),
                self.connections@ == old(self).connections@,
                old(self).well_formed(),
                is_arithmetic(apply, scale, plus),
                same_shape(self.nodes@, old(self).nodes@),
                forall|ar: Arithmetic<T>| #[trigger]
                    computes(apply, scale, plus, ar) ==> self.nodes@ == fire_all(
                        loaded,
                        self.connections@,
                        k as nat,
                        ar,
                    ),
            decreases n_conns - k,
        {
            let conn = &self.connections[k];
            let origin = conn.origin as usize;
            let dest = conn.dest as usize;
            let weight = conn.weight;
            assert(old(self).connections()[k as int].origin < n_nodes);
            let ghost before = self.nodes@;

            let v = self.nodes[origin].get_val(&apply);
            let ghost read = self.nodes@;
            let x = scale(v, weight);
            self.nodes[dest].add_to_val(x, &plus);
            proof {
                assert forall|ar: Arithmetic<T>| #[trigger]
                    computes(apply, scale, plus, ar) implies self.nodes@ == fire_all(
                    loaded,
                    self.connections@,
                    (k + 1) as nat,
                    ar,
                ) by {
                    assert(before == fire_all(loaded, self.connections@, k as nat, ar));
                    assert(v == value_read(before[origin as int], ar));
                    assert(read =~= before.update(
                        origin as int,
                        after_read(before[origin as int], ar),
                    ));
                    assert(self.nodes@ =~= fire(before, self.connections@[k as int], ar));
                }
            }
            k = k + 1;
        }
        let ghost fired = self.nodes@;

        let mut outputs: Vec<T> = Vec::new();
        let mut i: usize = 0;
        while i < n_nodes
            invariant
                i <= n_nodes,
                n_nodes == self.nodes@.len(),
                self.connections@ == old(self).connections@,
                is_arithmetic(apply, scale, plus),
                same_shape(self.nodes@, old(self).nodes@),
                outputs@.len() == output_rank(old(self).nodes@, i as nat),
                forall|ar: Arithmetic<T>| #[trigger]
                    computes(apply, scale, plus, ar) ==> (Round {
                        nodes: self.nodes@,
                        outputs: outputs@,
                    }) == collect_outputs(
                        Round { nodes: fired, outputs: Seq::<T>::empty() },
                        i as nat,
                        ar,
                    ),
            decreases n_nodes - i,
        {
            if self.nodes[i].node_type == NodeType::Output {
                let v = self.nodes[i].get_val(&apply);
                outputs.push(v);
            }
            i = i + 1;
        }
        proof {
            assert(self.node_templates() =~= old(self).node_templates());
        }
        outputs
    }
}

} // verus!
