//! Device-specialization core for a lazy tensor computation engine.
//!
//! A front end builds a directed acyclic graph of primitive tensor
//! operations over host-resident tensors.  The optimizer pass in this
//! crate rewrites that graph into a GPU-executable one: it inserts
//! host-to-device transfer nodes at the input frontier, device-to-host
//! transfer nodes at the retrieval frontier, and substitutes every host
//! primitive with its CUDA counterpart.  Each CUDA operator carries a
//! verified planner that resolves the output shape and emits the kernel
//! source whose indexing arithmetic comes from the shape tracker.

pub mod shape;
pub mod graph;
pub mod ops;
pub mod optim;
pub mod kernel;
