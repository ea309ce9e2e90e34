//! The embedded web front end, as far as the core knows it: the port it
//! listens on.

use vstd::prelude::*;

verus! {

/// The web front end's settings.
pub struct WebServer {
    port: u16,
}

impl WebServer {
    /// The port the front end listens on.
    pub closed spec fn spec_port(&self) -> u16 {
        self.port
    }

    /// A front end for `port`.
    pub fn new(port: u16) -> (server: Self)
        ensures
            server.spec_port() == port,
    {
        WebServer { port }
    }

    /// The port the front end listens on.
    #[verifier::when_used_as_spec(spec_port)]
    pub fn port(&self) -> (port: u16)
        ensures
            port == self.spec_port(),
    {
        self.port
    }
}

} // verus!
