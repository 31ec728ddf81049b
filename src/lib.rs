//! Recovers the list of recently opened editor projects from several local
//! sources, reconciles the records that name the same project, and undoes
//! that reconciliation against each source on deletion.

pub mod text;
pub mod paths;
pub mod json;
pub mod error;
pub mod parser;
pub mod models;
pub mod database;
pub mod storage;
pub mod zed;
pub mod api;
pub mod deletion;
pub mod utils;
pub mod filter;
pub mod session;
