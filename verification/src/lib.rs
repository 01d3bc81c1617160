//! An in-process message bus.
//!
//! Producers submit messages addressed to a logical target; a dispatcher
//! delivers each message to every receiver registered for that target,
//! optionally after an ordered list of transformation stages has been applied
//! by a worker that drains a pending queue and fills a done queue.
//!
//! The crate verifies the sequential core of the bus: the FIFO queue that
//! serves as the transport primitive, the transformer chain, the worker's
//! drain loop, the two channel variants, and the dispatch loop with its
//! receiver registry.  Threads, locks and the real bounded waiting are the
//! embedding program's concern; every state change those loops perform is a
//! call into the contracts proved here.

pub mod channel;
pub mod endpoint;
pub mod message;
pub mod non_block_deque;
pub mod transformer;
pub mod worker;
