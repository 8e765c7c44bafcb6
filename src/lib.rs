//! Finds marker comments (TODO, FIXME, ...) in source text and tracks them across scans.

pub mod blame;
pub mod cache;
pub mod ci;
pub mod cli;
pub mod comment;
pub mod config;
pub mod coverage;
pub mod database;
pub mod dispatch;
pub mod extractor;
pub mod grammar;
pub mod greeting;
pub mod order;
pub mod priority;
pub mod report;
pub mod source;
pub mod text;
pub mod todo;
pub mod walker;
