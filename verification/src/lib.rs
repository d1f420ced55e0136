//! Verified core of a single-user note sync server.
pub mod admin_api;
pub mod admin_store;
pub mod admin_web;
pub mod auth;
pub mod config;
pub mod paths;
pub mod protocol;
pub mod session;
pub mod sync_api;
pub mod sync_store;
pub mod text;
pub mod time;
