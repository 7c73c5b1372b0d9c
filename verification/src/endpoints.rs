//! The daemon's REST surface: six endpoints at fixed paths under a fixed
//! base URL, each with its HTTP method.

use vstd::prelude::*;

verus! {

/// HTTP method an endpoint is called with.
#[derive(Clone, Copy, Debug, PartialEq, Eq, Structural)]
pub enum HttpMethod {
    Get,
    Put,
    Delete,
}

/// One endpoint of the daemon's REST surface.
#[derive(Clone, Copy, Debug, PartialEq, Eq, Structural)]
pub enum Endpoint {
    /// List existing port forwards.
    List,
    /// Dump the daemon's forwarding state as text.
    Dump,
    /// Add a port forward rule.
    ExposePort,
    /// Remove a port forward rule.
    UnexposePort,
    /// Add a pipe path forward rule.
    ExposePipe,
    /// Remove a pipe path forward rule.
    UnexposePipe,
}

/// The fixed path of each endpoint.
pub open spec fn spec_endpoint_path(e: Endpoint) -> Seq<char> {
    match e {
        Endpoint::List => "/forwards/list"@,
        Endpoint::Dump => "/forwards/dump"@,
        Endpoint::ExposePort => "/forwards/expose/port"@,
        Endpoint::UnexposePort => "/forwards/unexpose/port"@,
        Endpoint::ExposePipe => "/forwards/expose/pipe"@,
        Endpoint::UnexposePipe => "/forwards/unexpose/pipe"@,
    }
}

/// The method each endpoint is called with: listing and dumping read,
/// exposing puts, unexposing deletes.
pub open spec fn spec_endpoint_method(e: Endpoint) -> HttpMethod {
    match e {
        Endpoint::List => HttpMethod::Get,
        Endpoint::Dump => HttpMethod::Get,
        Endpoint::ExposePort => HttpMethod::Put,
        Endpoint::UnexposePort => HttpMethod::Delete,
        Endpoint::ExposePipe => HttpMethod::Put,
        Endpoint::UnexposePipe => HttpMethod::Delete,
    }
}

impl Endpoint {
    /// Path of the endpoint under the base URL.
    pub fn path(&self) -> (r: &'static str)
        ensures
            r@ == spec_endpoint_path(*self),
    {
        match self {
            Endpoint::List => "/forwards/list",
            Endpoint::Dump => "/forwards/dump",
            Endpoint::ExposePort => "/forwards/expose/port",
            Endpoint::UnexposePort => "/forwards/unexpose/port",
            Endpoint::ExposePipe => "/forwards/expose/pipe",
            Endpoint::UnexposePipe => "/forwards/unexpose/pipe",
        }
    }

    /// HTTP method the endpoint is called with.
    pub fn method(&self) -> (r: HttpMethod)
        ensures
            r == spec_endpoint_method(*self),
    {
        match self {
            Endpoint::List => HttpMethod::Get,
            Endpoint::Dump => HttpMethod::Get,
            Endpoint::ExposePort => HttpMethod::Put,
            Endpoint::UnexposePort => HttpMethod::Delete,
            Endpoint::ExposePipe => HttpMethod::Put,
            Endpoint::UnexposePipe => HttpMethod::Delete,
        }
    }

    /// Full request URL: the base URL followed by the endpoint's path.
    pub fn url(&self, base: &str) -> (r: String)
        ensures
            r@ == base@ + spec_endpoint_path(*self),
    {
        let mut u = base.to_owned();
        u.append(self.path());
        u
    }
}

} // verus!
