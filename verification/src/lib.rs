// Small networks of weighted connections between nodes: built from
// templates, put in firing order once, and evaluated round by round with
// arithmetic that the caller supplies.
pub mod neural_net;
pub mod neural_net_consecutive;
pub mod schedule;
pub mod semantics;
