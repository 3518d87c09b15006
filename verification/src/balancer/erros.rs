use vstd::prelude::*;
use vstd::string::StringExecFns;

verus! {

/// Why no backend could be picked for a request.
#[derive(Debug, Clone, Copy, PartialEq, Eq, Structural)]
pub enum BalancerError {
    /// The requested route points to an Upstream that is not registered in the system.
    /// (Critical configuration mismatch or synchronization bug).
    UpstreamNotFound,
    /// The Upstream exists, but its backend server list is completely empty.
    /// (Configuration error or all nodes were dynamically removed).
    UpstreamEmpty,
    /// All configured backend servers in the cluster are currently down or failing health checks.
    /// (Dynamic infrastructure failure / All Unhealthy).
    AllServersUnhealthy,
}

/// The message that `BalancerError::format` writes for `err` and an upstream called `name`.
pub open spec fn spec_balancer_error_message(err: BalancerError, name: Seq<char>) -> Seq<char> {
    match err {
        BalancerError::UpstreamNotFound => "Upstream cluster '"@ + name
            + "' not found in router registry"@,
        BalancerError::UpstreamEmpty => "Upstream cluster '"@ + name
            + "' has zero configured backends"@,
        BalancerError::AllServersUnhealthy => "All backends in the upstream cluster '"@ + name
            + "' are unhealthy"@,
    }
}

/// The short description of `err`, without an upstream name.
pub open spec fn spec_balancer_error_text(err: BalancerError) -> Seq<char> {
    match err {
        BalancerError::UpstreamNotFound => "Upstream cluster not found in router registry"@,
        BalancerError::UpstreamEmpty => "Upstream cluster has zero configured backends"@,
        BalancerError::AllServersUnhealthy => "All backends in the upstream cluster are unhealthy"@,
    }
}

impl BalancerError {
    /// The error message for the upstream called `name`.
    pub fn format(&self, name: &str) -> (msg: String)
        ensures
            msg@ == spec_balancer_error_message(*self, name@),
    {
        let (head, tail) = match self {
            BalancerError::UpstreamNotFound => ("Upstream cluster '", "' not found in router registry"),
            BalancerError::UpstreamEmpty => ("Upstream cluster '", "' has zero configured backends"),
            BalancerError::AllServersUnhealthy => (
                "All backends in the upstream cluster '",
                "' are unhealthy",
            ),
        };
        let mut msg = head.to_owned();
        msg.append(name);
        msg.append(tail);
        msg
    }

    /// The short description of the error (what `Display` prints).
    pub fn to_display_string(&self) -> (msg: String)
        ensures
            msg@ == spec_balancer_error_text(*self),
    {
        match self {
            BalancerError::UpstreamNotFound => "Upstream cluster not found in router registry".to_owned(),
            BalancerError::UpstreamEmpty => "Upstream cluster has zero configured backends".to_owned(),
            BalancerError::AllServersUnhealthy => "All backends in the upstream cluster are unhealthy".to_owned(),
        }
    }
}

} // verus!
