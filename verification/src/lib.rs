//! Fleet package-update management: configuration, discovery, reporting and daemon decisions.
pub mod text;
pub mod profiles;
pub mod config;
pub mod rest;
pub mod discovery;
pub mod client;
pub mod package_manager;
pub mod daemon;
