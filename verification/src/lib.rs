//! A verified commit-graph layout engine.
//!
//! The library walks a read-only commit DAG (each commit has zero, one or two
//! parents) and turns it into an ordered sequence of display rows, each row
//! carrying the box-drawing connector text needed to render branch splits,
//! joins and parallel lanes in a terminal. Around the engine stand the
//! supporting pieces: a store of plain commit data, branch data with a
//! cyclable set of stop conditions, and the key-event state machines of the
//! interactive views.

pub mod branch;
pub mod commit;
pub mod connector;
pub mod graph_node;
pub mod input;
pub mod lanes;
pub mod kernel;
pub mod laws;
pub mod layout;
