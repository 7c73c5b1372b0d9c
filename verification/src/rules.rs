//! The records a caller exchanges with the daemon: a forwarding rule, the
//! protocol it names, and the error payload the daemon returns on failure.

use vstd::prelude::*;

verus! {

/// Transport protocol of a forwarding rule. On the wire it is the lowercase
/// name: `"tcp"`, `"udp"` or `"unix"`.
#[derive(Clone, Copy, Debug, PartialEq, Eq, Structural)]
pub enum VpnKitProtocol {
    TCP,
    UDP,
    UNIX,
}

/// Error payload the daemon returns beside a 4xx/5xx status:
/// a single message string.
#[derive(Clone, Debug, PartialEq)]
pub struct VpnKitError {
    /// Error message
    pub message: String,
}

/// One forwarding rule. Every field is optional: TCP/UDP rules use the
/// port and address fields, unix-socket rules use the path fields, and the
/// daemon (not this client) decides which combinations it accepts. A field
/// that is `None` is omitted from the rule's JSON form entirely.
#[derive(Clone, Debug, PartialEq)]
pub struct VpnKitPort {
    /// Port number to listen on
    pub in_port: Option<usize>,
    /// Port number to forward to
    pub out_port: Option<usize>,
    /// Protocol to use
    pub proto: Option<VpnKitProtocol>,
    /// IP address to listen on
    pub in_ip: Option<String>,
    /// IP address to forward to
    pub out_ip: Option<String>,
    /// Path to a unix socket to listen on
    pub in_path: Option<String>,
    /// Path to a unix socket to forward to
    pub out_path: Option<String>,
}

/// Mathematical value of a rule: the same seven optional fields, with
/// strings taken as character sequences.
#[verifier::ext_equal]
pub struct RuleView {
    pub in_port: Option<usize>,
    pub out_port: Option<usize>,
    pub proto: Option<VpnKitProtocol>,
    pub in_ip: Option<Seq<char>>,
    pub out_ip: Option<Seq<char>>,
    pub in_path: Option<Seq<char>>,
    pub out_path: Option<Seq<char>>,
}

impl View for VpnKitPort {
    type V = RuleView;

    open spec fn view(&self) -> RuleView {
        RuleView {
            in_port: self.in_port,
            out_port: self.out_port,
            proto: self.proto,
            in_ip: self.in_ip.deep_view(),
            out_ip: self.out_ip.deep_view(),
            in_path: self.in_path.deep_view(),
            out_path: self.out_path.deep_view(),
        }
    }
}

impl DeepView for VpnKitPort {
    type V = RuleView;

    open spec fn deep_view(&self) -> RuleView {
        self.view()
    }
}

/// The rule with no field set.
pub open spec fn empty_rule_view() -> RuleView {
    RuleView {
        in_port: None,
        out_port: None,
        proto: None,
        in_ip: None,
        out_ip: None,
        in_path: None,
        out_path: None,
    }
}

impl VpnKitPort {
    /// A rule with no field set; fields are filled in by the caller.
    pub fn empty() -> (r: Self)
        ensures
            r@ == empty_rule_view(),
    {
        let r = VpnKitPort {
            in_port: None,
            out_port: None,
            proto: None,
            in_ip: None,
            out_ip: None,
            in_path: None,
            out_path: None,
        };
        proof {
            assert(r@ =~= empty_rule_view());
        }
        r
    }
}

} // verus!
