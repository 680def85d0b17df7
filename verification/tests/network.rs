use entendre::neural_net::{
    ActivationFunction, ConnectionTemplate, ConnectionType, Error, NeuralNet, NeuralNetBuilder,
    NodeTemplate, NodeType,
};
use entendre::neural_net_consecutive::{ConsecutiveNeuralNet, Node, NodeValue};
use entendre::schedule::connection_order;
use std::cell::Cell;

fn apply(func: ActivationFunction, x: f32) -> f32 {
    match func {
        ActivationFunction::Sigmoid => 1.0 / (1.0 + (-x).exp()),
        ActivationFunction::Identity => x,
        ActivationFunction::Tanh => x.tanh(),
        ActivationFunction::Relu => x.max(0.0),
        ActivationFunction::Gaussian => (-x * x / 2.0).exp(),
        ActivationFunction::Sin => x.sin(),
        ActivationFunction::Cos => x.cos(),
        ActivationFunction::Abs => x.abs(),
        ActivationFunction::Square => x * x,
    }
}

fn times(x: f32, w: f32) -> f32 {
    x * w
}

fn plus(x: f32, y: f32) -> f32 {
    x + y
}

fn eval(net: &mut ConsecutiveNeuralNet<f32>, inputs: &[f32]) -> Vec<f32> {
    net.evaluate(inputs, apply, times, plus)
}

fn conn(origin: u32, dest: u32, connection_type: ConnectionType) -> ConnectionTemplate<f32> {
    ConnectionTemplate { origin, dest, weight: 1.0, connection_type }
}

/// The value that a node with activation `func` gives for the sum `x`.
fn activated(func: ActivationFunction, x: f32) -> f32 {
    let mut net = NeuralNetBuilder::<f32>::new()
        .add_inputs(1)
        .add_node(NodeType::Output, func)
        .add_normal_connection(0, 1, 1.0)
        .build::<ConsecutiveNeuralNet<f32>>(0.0)
        .unwrap();
    eval(&mut net, &[x])[0]
}

#[test]
fn test_activation_function() {
    let func = ActivationFunction::Sigmoid;
    assert!((activated(func, -1.0) - 0.26894).abs() < 1e-4);
    assert!((activated(func, 1.0) - 0.73105).abs() < 1e-4);
}

#[test]
fn test_simple_net() {
    let mut net = NeuralNetBuilder::<f32>::new()
        .set_default_activation(ActivationFunction::Identity)
        .add_nodes(NodeType::Input, 2)
        .add_nodes(NodeType::Output, 1)
        .add_normal_connection(0, 2, 1.0)
        .add_normal_connection(1, 2, -1.0)
        .build::<ConsecutiveNeuralNet<f32>>(0.0)
        .unwrap();

    let res = eval(&mut net, &[0.5, 1.5]);
    assert_eq!(res.len(), 1);
    assert_eq!(res[0], -1.0);
}

#[test]
fn test_multilayered_net() {
    let func = ActivationFunction::Sigmoid;
    let mut net = NeuralNetBuilder::<f32>::new()
        .set_default_activation(func)
        .add_nodes(NodeType::Input, 1)
        .add_nodes(NodeType::Hidden, 1)
        .add_nodes(NodeType::Output, 1)
        .add_normal_connection(0, 1, 1.0)
        .add_normal_connection(1, 2, 1.0)
        .build::<ConsecutiveNeuralNet<f32>>(0.0)
        .unwrap();

    let res = eval(&mut net, &[0.0]);
    assert_eq!(res.len(), 1);
    assert_eq!(res[0], apply(func, apply(func, 0.0)));

    let mut net = NeuralNetBuilder::<f32>::new()
        .set_default_activation(func)
        .add_nodes(NodeType::Input, 1)
        .add_nodes(NodeType::Hidden, 1)
        .add_nodes(NodeType::Output, 1)
        .add_normal_connection(1, 2, 1.0)
        .add_normal_connection(0, 1, 1.0)
        .build::<ConsecutiveNeuralNet<f32>>(0.0)
        .unwrap();

    let res = eval(&mut net, &[0.0]);
    assert_eq!(res.len(), 1);
    assert_eq!(res[0], apply(func, apply(func, 0.0)));
}

#[test]
fn repeated_rounds_give_the_same_outputs_without_feedback() {
    let mut net = NeuralNetBuilder::<f32>::new()
        .add_inputs(2)
        .add_node(NodeType::Output, ActivationFunction::Identity)
        .add_normal_connection(0, 2, 1.0)
        .add_normal_connection(1, 2, -1.0)
        .build::<ConsecutiveNeuralNet<f32>>(0.0)
        .unwrap();
    assert_eq!(eval(&mut net, &[0.5, 1.5]), vec![-1.0]);
    assert_eq!(eval(&mut net, &[0.5, 1.5]), vec![-1.0]);
    assert_eq!(eval(&mut net, &[2.0, 0.5]), vec![1.5]);
}

#[test]
fn connection_order_sorts_a_reversed_chain() {
    let conns = [conn(1, 2, ConnectionType::Normal), conn(0, 1, ConnectionType::Normal)];
    assert_eq!(connection_order(&conns).unwrap(), vec![1, 0]);
    let conns = [conn(0, 1, ConnectionType::Normal), conn(1, 2, ConnectionType::Normal)];
    assert_eq!(connection_order(&conns).unwrap(), vec![0, 1]);
}

#[test]
fn connection_order_of_nothing_is_empty() {
    let conns: [ConnectionTemplate<f32>; 0] = [];
    assert_eq!(connection_order(&conns).unwrap(), Vec::<usize>::new());
}

#[test]
fn recurrent_connection_reads_before_its_origin_is_fed() {
    // 0 -> 1 normal, 1 -> 0 recurrent: the recurrent connection has to read
    // node 1 before the normal connection feeds it.
    let conns = [conn(0, 1, ConnectionType::Normal), conn(1, 0, ConnectionType::Recurrent)];
    assert_eq!(connection_order(&conns).unwrap(), vec![1, 0]);
}

#[test]
fn unrelated_connections_are_all_placed_once() {
    let conns = [
        conn(0, 3, ConnectionType::Normal),
        conn(1, 4, ConnectionType::Normal),
        conn(2, 5, ConnectionType::Recurrent),
    ];
    let mut order = connection_order(&conns).unwrap();
    order.sort();
    assert_eq!(order, vec![0, 1, 2]);
}

#[test]
fn normal_loop_is_refused() {
    let conns = [conn(0, 1, ConnectionType::Normal), conn(1, 0, ConnectionType::Normal)];
    assert_eq!(connection_order(&conns), Err(Error::ConnectionLoop));

    let r = NeuralNetBuilder::<f32>::new()
        .add_nodes(NodeType::Hidden, 2)
        .add_normal_connection(0, 1, 1.0)
        .add_normal_connection(1, 0, 1.0)
        .build::<ConsecutiveNeuralNet<f32>>(0.0);
    assert!(matches!(r, Err(Error::ConnectionLoop)));
}

#[test]
fn longer_normal_loop_is_refused() {
    let conns = [
        conn(0, 1, ConnectionType::Normal),
        conn(1, 2, ConnectionType::Normal),
        conn(2, 0, ConnectionType::Normal),
        conn(3, 0, ConnectionType::Normal),
    ];
    assert_eq!(connection_order(&conns), Err(Error::ConnectionLoop));
}

#[test]
fn recurrent_loop_is_refused() {
    let r = NeuralNetBuilder::<f32>::new()
        .add_nodes(NodeType::Hidden, 2)
        .add_recurrent_connection(0, 1, 1.0)
        .add_recurrent_connection(1, 0, 1.0)
        .build::<ConsecutiveNeuralNet<f32>>(0.0);
    assert!(matches!(r, Err(Error::ConnectionLoop)));
}

#[test]
fn loop_beside_other_connections_is_refused() {
    let conns = [
        conn(5, 6, ConnectionType::Normal),
        conn(0, 1, ConnectionType::Recurrent),
        conn(1, 2, ConnectionType::Recurrent),
        conn(2, 0, ConnectionType::Recurrent),
    ];
    assert_eq!(connection_order(&conns), Err(Error::ConnectionLoop));
}

#[test]
fn mixed_circle_can_fire() {
    // 0 -> 1 normal and 1 -> 0 recurrent close a circle that is no loop of
    // one kind: the recurrent connection reads first.
    let mut net = NeuralNetBuilder::<f32>::new()
        .add_node(NodeType::Output, ActivationFunction::Identity)
        .add_node(NodeType::Output, ActivationFunction::Identity)
        .add_normal_connection(0, 1, 1.0)
        .add_recurrent_connection(1, 0, 1.0)
        .build::<ConsecutiveNeuralNet<f32>>(1.0)
        .unwrap();
    // Node 1 is read as 1 and feeds node 0, which then holds 1 + 1; node 0
    // is read as 2 and feeds node 1, which starts anew with 2.
    assert_eq!(eval(&mut net, &[]), vec![2.0, 2.0]);
}

#[test]
fn single_self_connection_is_no_loop() {
    assert_eq!(connection_order(&[conn(0, 0, ConnectionType::Normal)]).unwrap(), vec![0]);
    assert_eq!(connection_order(&[conn(0, 0, ConnectionType::Recurrent)]).unwrap(), vec![0]);
}

#[test]
fn out_of_range_connection_is_refused() {
    let r = NeuralNetBuilder::<f32>::new()
        .add_inputs(1)
        .add_nodes(NodeType::Output, 1)
        .add_normal_connection(0, 2, 1.0)
        .build::<ConsecutiveNeuralNet<f32>>(0.0);
    assert!(matches!(r, Err(Error::InvalidConnectionIndex)));

    let r = NeuralNetBuilder::<f32>::new()
        .add_inputs(1)
        .add_nodes(NodeType::Output, 1)
        .add_normal_connection(7, 1, 1.0)
        .build::<ConsecutiveNeuralNet<f32>>(0.0);
    assert!(matches!(r, Err(Error::InvalidConnectionIndex)));
}

#[test]
fn out_of_range_is_reported_before_a_loop() {
    let r = NeuralNetBuilder::<f32>::new()
        .add_nodes(NodeType::Hidden, 2)
        .add_normal_connection(0, 1, 1.0)
        .add_normal_connection(1, 0, 1.0)
        .add_normal_connection(0, 9, 1.0)
        .build::<ConsecutiveNeuralNet<f32>>(0.0);
    assert!(matches!(r, Err(Error::InvalidConnectionIndex)));
}

#[test]
fn connection_may_be_declared_before_its_nodes() {
    let mut builder = NeuralNetBuilder::<f32>::new();
    builder.add_normal_connection(0, 1, 2.0);
    assert!(matches!(
        builder.build::<ConsecutiveNeuralNet<f32>>(0.0),
        Err(Error::InvalidConnectionIndex)
    ));
    builder.add_inputs(1).add_node(NodeType::Output, ActivationFunction::Identity);
    let mut net = builder.build::<ConsecutiveNeuralNet<f32>>(0.0).unwrap();
    assert_eq!(eval(&mut net, &[3.0]), vec![6.0]);
}

#[test]
fn reading_twice_activates_once() {
    let calls = Cell::new(0);
    let counted = |f, x| {
        calls.set(calls.get() + 1);
        apply(f, x)
    };
    let mut node = Node {
        value: NodeValue::Accumulator(3.0),
        node_type: NodeType::Output,
        func: ActivationFunction::Square,
    };
    assert_eq!(node.get_val(&counted), 9.0);
    assert_eq!(node.value, NodeValue::Activated(9.0));
    assert_eq!(node.get_val(&counted), 9.0);
    assert_eq!(node.value, NodeValue::Activated(9.0));
    assert_eq!(calls.get(), 1);
}

#[test]
fn contribution_starts_or_joins_a_sum() {
    let mut node = Node {
        value: NodeValue::Activated(9.0),
        node_type: NodeType::Hidden,
        func: ActivationFunction::Identity,
    };
    node.add_to_val(2.0, &plus);
    assert_eq!(node.value, NodeValue::Accumulator(2.0));
    node.add_to_val(0.5, &plus);
    assert_eq!(node.value, NodeValue::Accumulator(2.5));
    assert_eq!(node.get_val(&apply), 2.5);
    assert_eq!(node.node_type, NodeType::Hidden);
    assert_eq!(node.func, ActivationFunction::Identity);
}

#[test]
fn output_read_by_a_connection_is_not_activated_again() {
    // The output feeds a hidden node through a recurrent connection, which
    // reads it first. In round two it holds 2, is read as 2 by the
    // connection, and is then fed 1 again.
    let calls = Cell::new(0);
    let counted = |f, x| {
        calls.set(calls.get() + 1);
        apply(f, x)
    };
    let mut net = NeuralNetBuilder::<f32>::new()
        .add_inputs(1)
        .add_node(NodeType::Output, ActivationFunction::Square)
        .add_node(NodeType::Output, ActivationFunction::Identity)
        .add_normal_connection(0, 1, 1.0)
        .add_recurrent_connection(1, 2, 1.0)
        .build::<ConsecutiveNeuralNet<f32>>(0.0)
        .unwrap();
    assert_eq!(net.evaluate(&[2.0], &counted, times, plus), vec![4.0, 0.0]);
    // Round one: node 1 read as a sum of 0, then fed and read again; node 2
    // read once.
    assert_eq!(calls.get(), 3);
    assert_eq!(net.evaluate(&[3.0], &counted, times, plus), vec![9.0, 4.0]);
    // Round two: node 1 is read settled by the connection, fed, and
    // activated once when collected; node 2 once.
    assert_eq!(calls.get(), 5);
}

#[test]
fn node_read_by_two_connections_is_activated_once() {
    // With Square applied twice to the hidden node the outputs would be
    // 81^2 and (2 * 81)^2.
    let mut net = NeuralNetBuilder::<f32>::new()
        .set_default_activation(ActivationFunction::Square)
        .add_inputs(1)
        .add_nodes(NodeType::Hidden, 1)
        .add_nodes(NodeType::Output, 2)
        .add_normal_connection(0, 1, 3.0)
        .add_normal_connection(1, 2, 1.0)
        .add_normal_connection(1, 3, 2.0)
        .build::<ConsecutiveNeuralNet<f32>>(0.0)
        .unwrap();
    assert_eq!(eval(&mut net, &[1.0]), vec![81.0, 324.0]);
}

#[test]
fn self_recurrent_node_carries_its_value_over() {
    let mut net = NeuralNetBuilder::<f32>::new()
        .add_node(NodeType::Output, ActivationFunction::Sigmoid)
        .add_recurrent_connection(0, 0, 1.0)
        .build::<ConsecutiveNeuralNet<f32>>(0.0)
        .unwrap();
    let s = |x| apply(ActivationFunction::Sigmoid, x);
    let first = eval(&mut net, &[]);
    assert_eq!(first, vec![s(s(0.0))]);
    let second = eval(&mut net, &[]);
    assert_eq!(second, vec![s(first[0])]);
    assert_ne!(second, first);
}

#[test]
fn nodes_start_from_the_given_zero() {
    let mut net = NeuralNetBuilder::<f32>::new()
        .add_node(NodeType::Output, ActivationFunction::Identity)
        .add_node(NodeType::Output, ActivationFunction::Square)
        .build::<ConsecutiveNeuralNet<f32>>(3.0)
        .unwrap();
    assert_eq!(eval(&mut net, &[]), vec![3.0, 9.0]);
    assert_eq!(eval(&mut net, &[]), vec![3.0, 9.0]);
}

#[test]
fn contribution_replaces_a_settled_value_and_joins_a_sum() {
    // Round one: the output holds the sum 0 and takes 1 + 2. Round two: it
    // holds the settled 3, which the first contribution replaces.
    let mut net = NeuralNetBuilder::<f32>::new()
        .add_inputs(2)
        .add_node(NodeType::Output, ActivationFunction::Identity)
        .add_normal_connection(0, 2, 1.0)
        .add_normal_connection(1, 2, 1.0)
        .build::<ConsecutiveNeuralNet<f32>>(100.0)
        .unwrap();
    assert_eq!(eval(&mut net, &[1.0, 2.0]), vec![103.0]);
    assert_eq!(eval(&mut net, &[1.0, 2.0]), vec![3.0]);
}

#[test]
fn activation_functions_are_applied_as_named() {
    let mut builder = NeuralNetBuilder::<f32>::new();
    builder.add_inputs(1);
    let funcs = [
        ActivationFunction::Sigmoid,
        ActivationFunction::Identity,
        ActivationFunction::Tanh,
        ActivationFunction::Relu,
        ActivationFunction::Gaussian,
        ActivationFunction::Sin,
        ActivationFunction::Cos,
        ActivationFunction::Abs,
        ActivationFunction::Square,
    ];
    for (k, f) in funcs.iter().enumerate() {
        builder.add_node(NodeType::Output, *f).add_normal_connection(0, 1 + k as u32, 1.0);
    }
    let mut net = builder.build::<ConsecutiveNeuralNet<f32>>(0.0).unwrap();
    let out = eval(&mut net, &[-2.0]);
    let expected: Vec<f32> = funcs.iter().map(|f| apply(*f, -2.0)).collect();
    assert_eq!(out, expected);
    assert_eq!(out[1], -2.0);
    assert_eq!(out[3], 0.0);
    assert_eq!(out[7], 2.0);
    assert_eq!(out[8], 4.0);
}

#[test]
fn self_recurrent_sum_grows_from_round_to_round() {
    // A bias-like input of 1 and a self connection of weight 2 on the
    // output: each round the output is 1 + 2 * (its last value).
    let mut net = NeuralNetBuilder::<f32>::new()
        .add_inputs(1)
        .add_node(NodeType::Output, ActivationFunction::Identity)
        .add_normal_connection(0, 1, 1.0)
        .add_recurrent_connection(1, 1, 2.0)
        .build::<ConsecutiveNeuralNet<f32>>(0.0)
        .unwrap();
    assert_eq!(eval(&mut net, &[1.0]), vec![1.0]);
    assert_eq!(eval(&mut net, &[1.0]), vec![3.0]);
    assert_eq!(eval(&mut net, &[1.0]), vec![7.0]);
}

#[test]
fn excess_inputs_are_ignored_and_excess_input_nodes_left_alone() {
    let mut net = NeuralNetBuilder::<f32>::new()
        .add_inputs(2)
        .add_node(NodeType::Output, ActivationFunction::Identity)
        .add_normal_connection(0, 2, 1.0)
        .add_normal_connection(1, 2, 1.0)
        .build::<ConsecutiveNeuralNet<f32>>(0.0)
        .unwrap();
    assert_eq!(eval(&mut net, &[1.0, 2.0, 4.0]), vec![3.0]);
    // Node 1 keeps the 2.0 of the round before.
    assert_eq!(eval(&mut net, &[10.0]), vec![12.0]);
}

#[test]
fn outputs_come_in_declaration_order() {
    let mut net = NeuralNetBuilder::<f32>::new()
        .add_node(NodeType::Output, ActivationFunction::Identity)
        .add_inputs(1)
        .add_node(NodeType::Output, ActivationFunction::Abs)
        .add_normal_connection(1, 2, -2.0)
        .add_normal_connection(1, 0, 5.0)
        .build::<ConsecutiveNeuralNet<f32>>(0.0)
        .unwrap();
    assert_eq!(eval(&mut net, &[1.0]), vec![5.0, 2.0]);
}

#[test]
fn empty_net_has_no_outputs() {
    let mut net = ConsecutiveNeuralNet::<f32>::new();
    assert_eq!(eval(&mut net, &[1.0, 2.0]), Vec::<f32>::new());
}

#[test]
fn builder_appends_templates() {
    let mut builder = NeuralNetBuilder::<f32>::new();
    builder.add_nodes(NodeType::Hidden, 1);
    builder.set_default_activation(ActivationFunction::Tanh);
    builder.add_nodes(NodeType::Output, 2).add_inputs(2).add_input();
    builder.add_node(NodeType::Bias, ActivationFunction::Cos);
    let hidden = |func| NodeTemplate { node_type: NodeType::Hidden, func };
    let output = |func| NodeTemplate { node_type: NodeType::Output, func };
    let input = NodeTemplate { node_type: NodeType::Input, func: ActivationFunction::Identity };
    assert_eq!(
        builder.nodes,
        vec![
            hidden(ActivationFunction::Sigmoid),
            output(ActivationFunction::Tanh),
            output(ActivationFunction::Tanh),
            input,
            input,
            input,
            NodeTemplate { node_type: NodeType::Bias, func: ActivationFunction::Cos },
        ]
    );
    builder
        .add_connection(3, 0, 0.5, ConnectionType::Recurrent)
        .add_normal_connection(4, 1, 1.5)
        .add_recurrent_connection(5, 2, 2.5);
    assert_eq!(
        builder.connections,
        vec![
            ConnectionTemplate {
                origin: 3,
                dest: 0,
                weight: 0.5,
                connection_type: ConnectionType::Recurrent
            },
            ConnectionTemplate {
                origin: 4,
                dest: 1,
                weight: 1.5,
                connection_type: ConnectionType::Normal
            },
            ConnectionTemplate {
                origin: 5,
                dest: 2,
                weight: 2.5,
                connection_type: ConnectionType::Recurrent
            },
        ]
    );
}

#[test]
fn sensors_are_bias_and_input() {
    assert!(NodeType::Bias._is_sensor());
    assert!(NodeType::Input._is_sensor());
    assert!(!NodeType::Output._is_sensor());
    assert!(!NodeType::Hidden._is_sensor());
}
