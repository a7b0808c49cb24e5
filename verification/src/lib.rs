//! Dense matrices over a generic numeric element and their product, with the
//! product also laid out as a request/response exchange between a caller and
//! a fixed set of workers; and two small registries of named counters.
//!
//! The library itself starts no thread. [`multiply`] computes a product on
//! the spot. [`dispatch`], [`WorkerPool`], [`serve`] and [`collect`] are the
//! parts of the same computation as it is spread over workers: what a caller
//! hands out, what a worker does with one message, and how the replies come
//! together, in whatever order they arrive.

pub mod engine;
pub mod error;
pub mod matrix;
pub mod metrics;
pub mod product;
pub mod text;
pub mod vector;

pub use engine::{
    collect, dispatch, queue_took, serve, worker_of, Dispatch, Msg, Served, WorkerPool,
    NUM_THREADS,
};
pub use error::MatrixError;
pub use matrix::Matrix;
pub use metrics::amap::{unknown_key_message, AmapMetrics, MetricsError};
pub use metrics::Metrics;
pub use product::{multiply, MsgInput, MsgOutput};
pub use vector::{dot_product, Vector};
