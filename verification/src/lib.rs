//! Building blocks of a small batch-job scheduler: a server that queues job
//! scripts and hands them to workers, and workers that run them.

pub mod ip;
pub mod job;
pub mod message;
pub mod protocol;
pub mod queue;
pub mod size;
pub mod text;
pub mod worker_config;
pub mod worker_status;
pub mod yaml;
