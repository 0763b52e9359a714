//! Storage on S3.

pub mod copy;
pub mod laws;
pub mod s3;
