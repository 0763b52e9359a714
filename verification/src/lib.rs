//! Backups of ClickHouse tables to S3-compatible storage: the rules behind the
//! HTTP API, the uploader, the S3 client and the watch loop.

pub mod list;
pub mod manifest;
pub mod path_encoding;
pub mod server;
pub mod sort;
pub mod storage;
pub mod table_filter;
pub mod text;
pub mod time;
pub mod upload;
pub mod watch;
