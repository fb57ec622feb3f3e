//! Execution core of a small ownership-aware language.
//!
//! Every value is held through a permission that records whether it is
//! uniquely owned, shared, leased or sublet.  The crate holds the abstract
//! machine (stack, heap, permission graph), the single-step interpreter of the
//! block-structured intermediate representation, the collector that runs between
//! steps, and the heap-graph snapshot with its renderer.
//!
//! The mutable machine state has a mathematical model, [`model::MachineModel`],
//! and every operation on the machine is specified as a function on that model.
pub mod marks;
pub mod word;
pub mod span;
pub mod class;
pub mod function;
pub mod bir;
pub mod db;
pub mod model;
pub mod machine;
pub mod fault;
pub mod step;
pub mod text;
pub mod heap_graph;
pub mod kernel;
pub mod validate;
