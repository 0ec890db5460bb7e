//! Small exact mathematical building blocks: a dense state-vector register
//! for a quantum circuit simulator, a directed graph with adjacency lists,
//! and integers modulo a fixed modulus.
pub mod basis;
pub mod graph;
pub mod modular;
pub mod quantum_state;

pub use basis::MAX_QUBITS;
pub use graph::{Edge, EdgeId, Graph, Node, NodeId};
pub use modular::Modular;
pub use quantum_state::{QuantumState, QubitError};
