//! The server description the packaging walkthrough builds, with its
//! nested variant.

pub mod sub_server;

use vstd::prelude::*;

verus! {

/// A named server listening on a port at an address.
#[derive(Debug)]
pub struct Server {
    /// Display name of the server.
    pub name: String,
    /// Port it listens on.
    pub port: u16,
    /// Address it binds, empty until one is chosen.
    pub ip: String,
}

impl Server {
    /// The standard description: named `Server`, port 8080, no address yet.
    pub fn new() -> (r: Server)
        ensures
            r.name@ == "Server"@,
            r.port == 8080,
            r.ip@ == ""@,
    {
        Server { name: "Server".to_owned(), port: 8080, ip: "".to_owned() }
    }
}

impl Default for Server {
    /// The same description `new` gives.
    fn default() -> (r: Server)
        ensures
            r.name@ == "Server"@,
            r.port == 8080,
            r.ip@ == ""@,
    {
        Server::new()
    }
}

} // verus!
