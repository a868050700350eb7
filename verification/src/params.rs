//! The startup parameters of the two roles. Reading them from the console is
//! the caller's business; the library only carries the values.

use vstd::prelude::*;

verus! {

/// What a client needs to start: its own port and where the server is.
#[derive(Clone, Debug)]
pub struct ClientParams {
    pub server_addr: String,
    pub server_port: i32,
    pub client_port: i32,
}

/// What a server needs to start.
#[derive(Clone, Debug)]
pub struct ServerParams {
    pub server_port: i32,
}

} // verus!
