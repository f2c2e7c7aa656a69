//! Path resolution and directory listings for a server that exposes one
//! directory over HTTP.
pub mod config;
pub mod dispatch;
pub mod listing;
pub mod page;
pub mod paths;

pub use config::{Args, GlobalArgs, ServerMode};
