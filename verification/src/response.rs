//! What a daemon response means: a 4xx/5xx status carries the daemon's
//! error payload and fails the operation with its message; any other status
//! lets the operation's own body handling decide.

use vstd::prelude::*;

use crate::parse::{spec_parse_error_msg, spec_parse_rule_list, parse_rule_list};
use crate::rules::{RuleView, VpnKitError, VpnKitPort};

verus! {

/// True exactly for the HTTP status codes the daemon uses to report
/// failure: the client-error range (4xx) and the server-error range (5xx).
pub open spec fn spec_is_error_status(status: u16) -> bool {
    400 <= status < 600
}

/// Decides whether a response status means the daemon rejected the request.
pub fn is_error_status(status: u16) -> (r: bool)
    ensures
        r == spec_is_error_status(status),
{
    400 <= status && status < 600
}

/// Message surfaced when an error response's body is not the daemon's
/// error payload.
pub open spec fn spec_bad_error_body_msg() -> Seq<char> {
    "invalid error body"@
}

/// Message surfaced when a listing response's body is not a rule array.
pub open spec fn spec_bad_list_body_msg() -> Seq<char> {
    "invalid rule list body"@
}

/// Outcome of the shared error check on a response: success on any
/// non-error status; on an error status, the message of the daemon's error
/// payload, or a fixed message when the body is not such a payload.
pub open spec fn spec_api_outcome(status: u16, body: Seq<char>) -> Result<(), Seq<char>> {
    if !spec_is_error_status(status) {
        Ok(())
    } else {
        match spec_parse_error_msg(body) {
            Some(m) => Err(m),
            None => Err(spec_bad_error_body_msg()),
        }
    }
}

/// Outcome of a listing response: the error check first; then the body
/// read as a JSON array of rules, or a fixed message when it is not one.
pub open spec fn spec_list_outcome(status: u16, body: Seq<char>) -> Result<
    Seq<RuleView>,
    Seq<char>,
> {
    if spec_is_error_status(status) {
        match spec_parse_error_msg(body) {
            Some(m) => Err(m),
            None => Err(spec_bad_error_body_msg()),
        }
    } else {
        match spec_parse_rule_list(body) {
            Some(vs) => Ok(vs),
            None => Err(spec_bad_list_body_msg()),
        }
    }
}

/// Outcome of a state-dump response: the error check first; then the body
/// passed through unchanged.
pub open spec fn spec_dump_outcome(status: u16, body: Seq<char>) -> Result<Seq<char>, Seq<char>> {
    if spec_is_error_status(status) {
        match spec_parse_error_msg(body) {
            Some(m) => Err(m),
            None => Err(spec_bad_error_body_msg()),
        }
    } else {
        Ok(body)
    }
}

/// The error check every operation shares: succeeds on any non-error
/// status; on a 4xx/5xx status fails with the message of the daemon's
/// error payload read from the body.
pub fn is_api_error(status: u16, body: &str) -> (r: Result<(), String>)
    ensures
        match r {
            Ok(u) => spec_api_outcome(status, body@) == Ok::<(), Seq<char>>(()),
            Err(m) => spec_api_outcome(status, body@) == Err::<(), Seq<char>>(m@),
        },
{
    if !is_error_status(status) {
        return Ok(());
    }
    match VpnKitError::from_json(body) {
        Some(e) => Err(e.message),
        None => Err("invalid error body".to_owned()),
    }
}

/// Decides a listing response: on success the daemon's rules, read from
/// the body; on failure the surfaced message.
pub fn decide_list_response(status: u16, body: &str) -> (r: Result<Vec<VpnKitPort>, String>)
    ensures
        match r {
            Ok(v) => spec_list_outcome(status, body@) == Ok::<Seq<RuleView>, Seq<char>>(
                v.deep_view(),
            ),
            Err(m) => spec_list_outcome(status, body@) == Err::<Seq<RuleView>, Seq<char>>(m@),
        },
{
    if is_error_status(status) {
        match VpnKitError::from_json(body) {
            Some(e) => Err(e.message),
            None => Err("invalid error body".to_owned()),
        }
    } else {
        match parse_rule_list(body) {
            Some(v) => Ok(v),
            None => Err("invalid rule list body".to_owned()),
        }
    }
}

/// Decides a state-dump response: on success the body text unchanged; on
/// failure the surfaced message.
pub fn decide_dump_response(status: u16, body: &str) -> (r: Result<String, String>)
    ensures
        match r {
            Ok(t) => spec_dump_outcome(status, body@) == Ok::<Seq<char>, Seq<char>>(t@),
            Err(m) => spec_dump_outcome(status, body@) == Err::<Seq<char>, Seq<char>>(m@),
        },
{
    if is_error_status(status) {
        match VpnKitError::from_json(body) {
            Some(e) => Err(e.message),
            None => Err("invalid error body".to_owned()),
        }
    } else {
        Ok(body.to_owned())
    }
}

} // verus!
