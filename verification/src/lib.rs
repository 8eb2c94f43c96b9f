//! Dense matrices over machine integers, their product computed cell by
//! cell on one thread or handed out as tasks to a pool of workers, and two
//! kinds of named counters.

pub mod channel;
pub mod error;
pub mod matrix;
pub mod metrics;
pub mod pool;
pub mod scalar;
pub mod text;
pub mod vector;

pub use error::Error;
pub use matrix::{check_product_fits, sequential_multiply, Matrix};
pub use metrics::amap::AmapMetrics;
pub use metrics::cmap::Metrics;
pub use pool::{
    parallel_multiply, place, task_for, worker_for, Pending, Reply, Task, TaskEnvelope, Worker,
    WORKERS,
};
pub use scalar::Scalar;
pub use vector::{check_dot_fits, dot_product, Vector};
