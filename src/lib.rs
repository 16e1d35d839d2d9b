pub mod config;
pub mod error;
pub mod import;
pub mod laws;
pub mod model;
pub mod plan;
pub mod sqlite;
pub mod state;
pub mod store;
