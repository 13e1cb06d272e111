//! Lime: the building blocks of a small backend service. Configuration, routing and middleware,
//! tokens and passwords, migrations and queries, background tasks, health and metrics.
//!
//! What the building blocks decide stands here, with its contracts. Sockets, files, the database
//! and the task store are the business of the program that uses them: it hands in what they said,
//! and does what it is told.

pub mod accounts;
pub mod api;
pub mod auth;
pub mod claims;
pub mod clock;
pub mod config;
pub mod database;
pub mod http;
pub mod ids;
pub mod json;
pub mod metrics;
pub mod middleware;
pub mod model;
pub mod pagination;
pub mod prelude;
pub mod server;
pub mod service;
pub mod tasks;
pub mod text;
pub mod text_map;
pub mod window;

pub use crate::api::{Request, Response};
pub use crate::config::Config;
pub use crate::service::{Lime, LimeBuilder};
