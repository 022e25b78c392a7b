//! The coordination core of a small request server: a fixed pool of workers
//! fed from one ordered queue, a route table, and the accept loop's decisions.
//!
//! Nothing here owns a thread or a socket. The pool is a state machine that
//! says who gets which job and when a worker may leave; the caller supplies the
//! threads and reports what happened to them.

pub mod pool_model;
pub mod thread_pool;
pub mod router;
pub mod server;
