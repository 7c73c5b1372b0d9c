//! Client-side logic for a VpnKit port-forwarding daemon: the typed records
//! a caller builds, the JSON wire form they take, the fixed REST endpoints,
//! and the rule that turns an HTTP status and body into a typed outcome.
//!
//! Everything here is plain computation on values; the HTTP transport that
//! carries the requests over a unix socket lives outside this crate.

pub mod endpoints;
pub mod json;
pub mod laws;
pub mod parse;
pub mod response;
pub mod rules;
pub mod socket;
mod text;

pub use endpoints::{Endpoint, HttpMethod};
pub use response::{decide_dump_response, decide_list_response, is_api_error, is_error_status};
pub use rules::{RuleView, VpnKitError, VpnKitPort, VpnKitProtocol};
pub use socket::strip_unix_scheme;
