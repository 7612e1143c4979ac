//! A fixed-capacity worker pool: a bounded set of workers drains a shared
//! unbounded job queue until the producer side is closed, then every worker
//! terminates and the pool joins them.
//!
//! The pool is modelled as a state machine over plain values: jobs are the
//! integers handed out at submission time, and each worker is its slot index
//! together with its lifecycle state. The contracts pin down the pool's
//! bookkeeping — exactly `size` workers, each job claimed and completed at
//! most once, a drained pool has completed every submitted job — while the
//! thread spawning, channel traffic and joining that carry the state machine
//! out live in the surrounding (unverified) runtime layer.

pub mod model;
pub mod pool;

pub use model::WorkerState;
pub use model::ids_upto;
pub use model::running_jobs;
pub use pool::MAX_THREAD_POOL_SIZE;
pub use pool::PoolCreationError;
pub use pool::StepEvent;
pub use pool::ThreadPool;
