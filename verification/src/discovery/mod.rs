//! Discovery: which models there are, and where they come from.

pub mod catalog;
pub mod fastflowlm;
pub mod fetch;
pub mod gguf;
pub mod gguf_format;
pub mod hf;
pub mod manifest;
pub mod models;
pub mod online;
pub mod pairing;
pub mod runtimes;
pub mod scan;
pub mod shards;
pub mod sources;
