pub mod aggregate;
pub mod error;
pub mod pipeline;
pub mod scoring;
