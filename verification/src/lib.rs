//! A chunked, concurrent HTTP download manager: the planning, reassembly,
//! retry and validation logic, with its contracts.
pub mod builder;
pub mod cli;
pub mod client;
pub mod consumers;
pub mod error;
pub mod external;
pub mod hashing;
pub mod headers;
pub mod planner;
pub mod reorder;
pub mod server;
pub mod task;
pub mod urlset;
pub mod validate;
pub mod worker;

pub use builder::{ConcurrencyBehaviour, DownloadTaskBuilder};
pub use task::{DownloadTask, ProgressProvider};
