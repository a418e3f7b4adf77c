//! CyberScope: the verified core of a private FOFA asset-search console.
//!
//! The crate holds the logic of the console: query validation, batch-file
//! parsing, result normalisation, export encoding, retry and job bookkeeping.
//! Network, database and file-system plumbing live outside this crate.

pub mod text;
pub mod urls;
pub mod web;
pub mod auth;
pub mod batch;
pub mod config;
pub mod export;
pub mod fofa;
pub mod jobs;
pub mod searches;
pub mod state;
