//! Message-chain scoring and trimming for block-template construction.
//!
//! Pending messages of one sender are grouped into gas-contiguous segments
//! (`MsgChainNode`), each carrying an exact cumulative reward, a total gas
//! limit and fixed-point performance scores.  A `MsgChain` owns the ordered
//! segments of one sender together with a cursor and index-based neighbour
//! links.  The selection loop ranks chains by their current segment, commits
//! the best segment while it fits in the remaining block gas budget, trims a
//! segment that does not fit, and drops chains whose current segment has been
//! invalidated.
//!
//! Monetary amounts (`gas_reward`) are exact integers; performance scores are
//! fixed-point integers and are used for ranking only.

pub mod chain;
pub mod msg;
pub mod node;
pub mod paych;
pub mod perf;
pub mod select;
