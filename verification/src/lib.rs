//! Reuse-distance analysis for abstract loop-nest programs.
//!
//! A statement tree of array references, loops, blocks and branches is
//! replayed into the exact sequence of linear memory addresses it touches.
//! Every address is fed through a stack-distance oracle, and the resulting
//! reuse distances are accumulated into a histogram together with ordered
//! logs of the address stream and the (address, distance) pairs.

pub mod ast;
pub mod distance;
pub mod histogram;
pub mod laws;
pub mod log;
pub mod oracle;
pub mod resolve;
pub mod selector;
pub mod semantics;
pub mod trace;
