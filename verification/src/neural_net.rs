use vstd::prelude::*;

verus! {

/// The role a node plays in a network.
#[derive(Debug, PartialEq, Eq, Structural, Clone, Copy)]
pub enum NodeType {
    Bias,
    Input,
    Output,
    Hidden,
}

impl NodeType {
    /// Whether the node's value is supplied from outside the network.
    pub fn _is_sensor(&self) -> (r: bool)
        ensures
            r == (*self == NodeType::Bias || *self == NodeType::Input),
    {
        match self {
            NodeType::Bias | NodeType::Input => true,
            NodeType::Output | NodeType::Hidden => false,
        }
    }
}

/// How a connection reads its origin: `Normal` waits for the origin's
/// complete sum of this round, `Recurrent` reads what the origin held before
/// this round's contributions reach it.
#[derive(Debug, PartialEq, Eq, Structural, Clone, Copy)]
pub enum ConnectionType {
    Normal,
    Recurrent,
}

/// The catalogue of scalar functions a node can pass its sum through.
/// The library only names them; whoever carries out the arithmetic of a
/// round gives them their meaning.
#[derive(Debug, PartialEq, Eq, Structural, Clone, Copy)]
pub enum ActivationFunction {
    Sigmoid,
    Identity,
    Tanh,
    Relu,
    Gaussian,
    Sin,
    Cos,
    Abs,
    Square,
}

/// Description of one node. A node is identified by its position in the
/// builder's node list.
#[derive(Debug, PartialEq, Clone, Copy)]
pub struct NodeTemplate {
    pub node_type: NodeType,
    pub func: ActivationFunction,
}

/// Description of one weighted connection between two node positions.
/// `T` is the type of the network's scalars, weights and values alike; the
/// library stores and hands them on, and computes with them only through the
/// arithmetic that an evaluation is given.
#[derive(Debug, PartialEq)]
pub struct ConnectionTemplate<T> {
    pub origin: u32,
    pub dest: u32,
    pub weight: T,
    pub connection_type: ConnectionType,
}

/// Why a network could not be realized.
#[derive(Debug, PartialEq, Eq, Structural, Clone, Copy)]
pub enum Error {
    ConnectionLoop,
    InvalidConnectionIndex,
}

/// The node and connection templates of a network under construction.
pub struct NeuralNetBuilder<T> {
    pub nodes: Vec<NodeTemplate>,
    pub connections: Vec<ConnectionTemplate<T>>,
    pub default_func: ActivationFunction,
}

/// The template of an input node: inputs enter the network untransformed.
pub open spec fn input_template() -> NodeTemplate {
    NodeTemplate { node_type: NodeType::Input, func: ActivationFunction::Identity }
}

/// Whether both ends of every connection name one of the first `nodes` node
/// positions.
pub open spec fn indices_in_range<T>(connections: Seq<ConnectionTemplate<T>>, nodes: nat) -> bool {
    forall|k: int|
        0 <= k < connections.len() ==> (#[trigger] connections[k]).origin < nodes
            && connections[k].dest < nodes
}

impl<T: Copy> NeuralNetBuilder<T> {
    /// The activation function that `add_nodes` gives to the nodes it appends.
    pub open spec fn default_activation(&self) -> ActivationFunction {
        self.default_func
    }

    /// Whether every connection joins two declared nodes.
    pub open spec fn well_connected(&self) -> bool {
        indices_in_range(self.connections@, self.nodes@.len())
    }

    /// A builder without templates, whose default activation is the sigmoid.
    pub fn new() -> (r: Self)
        ensures
            r.nodes@ == Seq::<NodeTemplate>::empty(),
            r.connections@ == Seq::<ConnectionTemplate<T>>::empty(),
            r.default_activation() == ActivationFunction::Sigmoid,
    {
        Self {
            nodes: Vec::new(),
            connections: Vec::new(),
            default_func: ActivationFunction::Sigmoid,
        }
    }

    /// Sets the activation function that later calls of `add_nodes` give to
    /// their nodes. The nodes that are there already keep theirs.
    pub fn set_default_activation(&mut self, func: ActivationFunction) -> (r: &mut Self)
        ensures
            r.default_activation() == func,
            r.nodes@ == old(self).nodes@,
            r.connections@ == old(self).connections@,
            *final(self) == *final(r),
    {
        self.default_func = func;
        self
    }

    /// Appends one input node. Inputs enter the network untransformed,
    /// whatever the default activation is.
    pub fn add_input(&mut self) -> (r: &mut Self)
        ensures
            r.nodes@ == old(self).nodes@.push(input_template()),
            r.connections@ == old(self).connections@,
            r.default_activation() == old(self).default_activation(),
            *final(self) == *final(r),
    {
        self.nodes.push(
            NodeTemplate { node_type: NodeType::Input, func: ActivationFunction::Identity },
        );
        self
    }

    /// Appends `n` input nodes.
    pub fn add_inputs(&mut self, n: u32) -> (r: &mut Self)
        ensures
            r.nodes@ == old(self).nodes@ + Seq::new(n as nat, |i: int| input_template()),
            r.connections@ == old(self).connections@,
            r.default_activation() == old(self).default_activation(),
            *final(self) == *final(r),
    {
        let mut i: u32 = 0;
        while i < n
            invariant
                i <= n,
                self.nodes@ == old(self).nodes@ + Seq::new(i as nat, |i: int| input_template()),
                self.connections@ == old(self).connections@,
                self.default_activation() == old(self).default_activation(),
            decreases n - i,
        {
            self.nodes.push(
                NodeTemplate { node_type: NodeType::Input, func: ActivationFunction::Identity },
            );
            i = i + 1;
        }
        self
    }

    /// Appends one node of the given kind and activation.
    pub fn add_node(&mut self, node_type: NodeType, func: ActivationFunction) -> (r: &mut Self)
        ensures
            r.nodes@ == old(self).nodes@.push(NodeTemplate { node_type, func }),
            r.connections@ == old(self).connections@,
            r.default_activation() == old(self).default_activation(),
            *final(self) == *final(r),
    {
        self.nodes.push(NodeTemplate { node_type, func });
        self
    }

    /// Appends `n` nodes of the given kind, with the default activation.
    pub fn add_nodes(&mut self, node_type: NodeType, n: u32) -> (r: &mut Self)
        ensures
            r.nodes@ == old(self).nodes@ + Seq::new(
                n as nat,
                |i: int| NodeTemplate { node_type, func: old(self).default_activation() },
            ),
            r.connections@ == old(self).connections@,
            r.default_activation() == old(self).default_activation(),
            *final(self) == *final(r),
    {
        let func = self.default_func;
        let mut i: u32 = 0;
        while i < n
            invariant
                i <= n,
                func == old(self).default_activation(),
                self.nodes@ == old(self).nodes@ + Seq::new(
                    i as nat,
                    |i: int| NodeTemplate { node_type, func },
                ),
                self.connections@ == old(self).connections@,
                self.default_activation() == old(self).default_activation(),
            decreases n - i,
        {
            self.nodes.push(NodeTemplate { node_type, func });
            i = i + 1;
        }
        self
    }

    /// Appends a connection. Its ends need not be declared yet: they are
    /// looked at when the network is built.
    pub fn add_connection(
        &mut self,
        origin: u32,
        dest: u32,
        weight: T,
        connection_type: ConnectionType,
    ) -> (r: &mut Self)
        ensures
            r.connections@ == old(self).connections@.push(
                ConnectionTemplate { origin, dest, weight, connection_type },
            ),
            r.nodes@ == old(self).nodes@,
            r.default_activation() == old(self).default_activation(),
            *final(self) == *final(r),
    {
        self.connections.push(ConnectionTemplate { origin, dest, weight, connection_type });
        self
    }

    /// Appends a normal connection.
    pub fn add_normal_connection(&mut self, origin: u32, dest: u32, weight: T) -> (r: &mut Self)
        ensures
            r.connections@ == old(self).connections@.push(
                ConnectionTemplate {
                    origin,
                    dest,
                    weight,
                    connection_type: ConnectionType::Normal,
                },
            ),
            r.nodes@ == old(self).nodes@,
            r.default_activation() == old(self).default_activation(),
            *final(self) == *final(r),
    {
        self.connections.push(
            ConnectionTemplate { origin, dest, weight, connection_type: ConnectionType::Normal },
        );
        self
    }

    /// Appends a recurrent connection.
    pub fn add_recurrent_connection(&mut self, origin: u32, dest: u32, weight: T) -> (r:
        &mut Self)
        ensures
            r.connections@ == old(self).connections@.push(
                ConnectionTemplate {
                    origin,
                    dest,
                    weight,
                    connection_type: ConnectionType::Recurrent,
                },
            ),
            r.nodes@ == old(self).nodes@,
            r.default_activation() == old(self).default_activation(),
            *final(self) == *final(r),
    {
        self.connections.push(
            ConnectionTemplate { origin, dest, weight, connection_type: ConnectionType::Recurrent },
        );
        self
    }

    /// Realizes the templates as a network of representation `N`, in which
    /// every node starts with the sum `zero`. The builder is left as it was
    /// and can go on growing.
    pub fn build<N: NeuralNet<T>>(&mut self, zero: T) -> (r: Result<N, Error>)
        ensures
            *final(self) == *old(self),
            !old(self).well_connected() ==> r == Err::<N, Error>(Error::InvalidConnectionIndex),
            r matches Ok(net) ==> old(self).well_connected() && net.well_formed() && net.realizes(
                old(self).nodes@,
                old(self).connections@,
            ),
            r matches Err(e) ==> N::rejects(old(self).nodes@, old(self).connections@, e),
    {
        N::build_from(self, zero)
    }
}

/// The arithmetic that gives a round its values: what an activation
/// function makes of a sum, what a weight makes of a value, and how a
/// contribution joins a sum.
#[verifier::reject_recursive_types(T)]
pub struct Arithmetic<T> {
    pub apply: spec_fn(ActivationFunction, T) -> T,
    pub scale: spec_fn(T, T) -> T,
    pub plus: spec_fn(T, T) -> T,
}

/// Whether the three functions accept every argument.
pub open spec fn is_arithmetic<T, A, S, P>(apply: A, scale: S, plus: P) -> bool where
    A: Fn(ActivationFunction, T) -> T,
    S: Fn(T, T) -> T,
    P: Fn(T, T) -> T,
 {
    &&& forall|f: ActivationFunction, x: T| call_requires(apply, (f, x))
    &&& forall|x: T, w: T| call_requires(scale, (x, w))
    &&& forall|x: T, y: T| call_requires(plus, (x, y))
}

/// Whether the three functions compute the arithmetic `ar`: whatever one of
/// them returns is what `ar` gives for the same arguments.
pub open spec fn computes<T, A, S, P>(apply: A, scale: S, plus: P, ar: Arithmetic<T>) -> bool where
    A: Fn(ActivationFunction, T) -> T,
    S: Fn(T, T) -> T,
    P: Fn(T, T) -> T,
 {
    &&& forall|f: ActivationFunction, x: T, y: T|
        call_ensures(apply, (f, x), y) ==> y == (ar.apply)(f, x)
    &&& forall|x: T, w: T, y: T| call_ensures(scale, (x, w), y) ==> y == (ar.scale)(x, w)
    &&& forall|x: T, y: T, z: T| call_ensures(plus, (x, y), z) ==> z == (ar.plus)(x, y)
}

/// A representation of a network that can be realized from templates and
/// evaluated round by round.
pub trait NeuralNet<T: Copy>: Sized {
    /// The representation's own invariant.
    spec fn well_formed(&self) -> bool;

    /// Whether the network has exactly these nodes and connections.
    spec fn realizes(
        &self,
        nodes: Seq<NodeTemplate>,
        connections: Seq<ConnectionTemplate<T>>,
    ) -> bool;

    /// What it means for this representation to refuse the templates with `e`.
    spec fn rejects(
        nodes: Seq<NodeTemplate>,
        connections: Seq<ConnectionTemplate<T>>,
        e: Error,
    ) -> bool;

    /// The outputs that the next round gives on these inputs under the
    /// arithmetic `ar`.
    spec fn round_outputs(&self, inputs: Seq<T>, ar: Arithmetic<T>) -> Seq<T>;

    /// Validates the templates and realizes them, every node starting with
    /// the sum `zero`. A connection to or from a node that was never declared
    /// is refused with `InvalidConnectionIndex`.
    fn build_from(builder: &NeuralNetBuilder<T>, zero: T) -> (r: Result<Self, Error>)
        ensures
            !builder.well_connected() ==> r == Err::<Self, Error>(Error::InvalidConnectionIndex),
            r matches Ok(net) ==> builder.well_connected() && net.well_formed() && net.realizes(
                builder.nodes@,
                builder.connections@,
            ),
            r matches Err(e) ==> Self::rejects(builder.nodes@, builder.connections@, e),
    ;

    /// Runs one round on the input values, with the three functions for
    /// arithmetic, and returns the values of the output nodes: whatever
    /// arithmetic the functions compute, the outputs are those of a round
    /// under it. What each node holds at the end of the round stays for the
    /// next.
    fn evaluate<A, S, P>(&mut self, inputs: &[T], apply: A, scale: S, plus: P) -> (outputs: Vec<
        T,
    >) where A: Fn(ActivationFunction, T) -> T, S: Fn(T, T) -> T, P: Fn(T, T) -> T
        requires
            old(self).well_formed(),
            is_arithmetic(apply, scale, plus),
        ensures
            final(self).well_formed(),
            forall|nodes: Seq<NodeTemplate>, connections: Seq<ConnectionTemplate<T>>| #[trigger]
                old(self).realizes(nodes, connections) ==> final(self).realizes(nodes, connections),
            forall|ar: Arithmetic<T>| #[trigger]
                computes(apply, scale, plus, ar) ==> outputs@ == old(self).round_outputs(
                    inputs@,
                    ar,
                ),
    ;
}

} // verus!
