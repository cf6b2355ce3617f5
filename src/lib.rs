//! A fixed-size worker pool whose dispatch rules are verified, together with
//! the small computations that its callers run as jobs.

pub mod fib;
pub mod guess;
pub mod largest;
pub mod model;
pub mod pool;
pub mod queue;

pub use fib::fib;
pub use largest::tlargest;
pub use pool::Dispatcher;
pub use queue::JobQueue;
