//! Warp-level programming abstractions for ternary GPU kernels, simulated on the CPU.
//!
//! A warp is a row of lanes, each holding a trit (`-1`, `0` or `+1`). The modules
//! below give the cooperative operations that the lanes of a warp perform together:
//! reductions, prefix scans, shuffles and votes. Every operation is verified against
//! a specification over `Seq<Trit>`.

pub mod trit;
pub mod warp;
pub mod reduce;
pub mod scan;
pub mod shuffle;
pub mod vote;
pub mod laws;

pub use trit::Trit;
pub use warp::WarpConfig;
pub use reduce::WarpReduce;
pub use scan::WarpScan;
pub use shuffle::WarpShuffle;
pub use vote::WarpVote;
