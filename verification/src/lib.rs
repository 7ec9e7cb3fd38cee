//! Indexing and search core of a file-list walker: a query language over
//! path text, a ranking engine, manifest handling and the request
//! bookkeeping that keeps a live consumer free of stale results.

pub mod actions;
pub mod cache;
pub mod coordinator;
pub mod icon;
pub mod indexer;
pub mod manifest;
pub mod paths;
pub mod preview;
pub mod query;
pub mod requests;
pub mod search;
pub mod text;
pub mod ui_model;
pub mod worker;
