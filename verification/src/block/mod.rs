pub mod bio_core;
pub mod bio_request;
pub mod block_core;
pub mod block_error;
pub mod partitions;
pub mod schedulers;
