//! The configuration a server starts with.
use vstd::prelude::*;

verus! {

/// Settings of the directory server.
#[derive(Debug)]
pub struct Args {
    /// The directory to serve.
    pub directory: String,
}

/// The server modes.
#[derive(Debug)]
pub enum ServerMode {
    HTTPDir(Args),
}

/// Settings shared by all modes.
#[derive(Debug)]
pub struct GlobalArgs {
    pub port: u16,
    pub ip: String,
    pub mode: ServerMode,
}

} // verus!
