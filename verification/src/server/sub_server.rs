//! The nested server description.

use vstd::prelude::*;

verus! {

/// A named sub-server listening on a port at an address.
#[derive(Debug)]
pub struct Server {
    /// Display name of the sub-server.
    pub name: String,
    /// Port it listens on.
    pub port: u16,
    /// Address it binds, empty until one is chosen.
    pub ip: String,
}

impl Server {
    /// The standard description: named `Sub Server`, port 8080, no address.
    pub fn new() -> (r: Server)
        ensures
            r.name@ == "Sub Server"@,
            r.port == 8080,
            r.ip@ == ""@,
    {
        Server { name: "Sub Server".to_owned(), port: 8080, ip: "".to_owned() }
    }
}

impl Default for Server {
    /// The same description `new` gives.
    fn default() -> (r: Server)
        ensures
            r.name@ == "Sub Server"@,
            r.port == 8080,
            r.ip@ == ""@,
    {
        Server::new()
    }
}

} // verus!
