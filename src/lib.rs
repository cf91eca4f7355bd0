//! Cluster membership for loosely coupled nodes: a peer registry with an
//! idempotent, order-insensitive merge rule, a failure detector that ages
//! silent peers out, and the local node's own lifecycle.
pub mod stats;
pub mod registry;
pub mod convergence;
pub mod node;
