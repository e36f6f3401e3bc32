//! A verified engine for reading and writing memory-mapped hardware
//! registers, driven by a hierarchical register map.
//!
//! The crate covers the bit-field mask engine, the per-register access
//! model (read/write/shadow semantics), and the batch orchestration that
//! validates a whole set of register operations before mutating any
//! memory.  Device mapping and document loading live outside the library;
//! the resolver consumes a plain node table built by the caller.

pub mod bits;
pub mod errors;
pub mod memory;
pub mod register_op;
pub mod register_tool;
pub mod resolver;
pub mod text;
