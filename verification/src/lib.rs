//! Kondi: a proxy that aggregates the tools of several MCP servers behind a
//! small set of meta-tools (keyword search, catalog filtering, execution).
//!
//! This crate holds the logic of the proxy with its contracts: text
//! tokenization, the BM25 index, the tool catalog and its TypeScript
//! declarations, the configuration model, importing server definitions,
//! and the decisions of the admin API.

pub mod text;
pub mod json;
pub mod order;
pub mod catalog;
pub mod bm25;
pub mod config;
pub mod import;
pub mod cli;
pub mod admin;
pub mod server;
pub mod sandbox;
