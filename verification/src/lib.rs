//! Decisions and text of a four-node consensus reconnection harness: the
//! command line a node is started with, the node's event loop, and the
//! verdicts of the orchestrator.

pub mod decimal;
pub mod text;
pub mod harness;
pub mod cli;
pub mod node;
