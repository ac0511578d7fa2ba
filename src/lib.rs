//! A small static-file server: configuration loading, with its contracts,
//! and a statement of how a request's path text is resolved under the
//! served directory.
pub mod config;
pub mod port;
pub mod request;
