//! The health predicate: liveness always holds, readiness needs a running service that still
//! accepts metrics and, where required, is authenticated upstream.
use vstd::prelude::*;

verus! {

/// The two questions a load balancer asks.
#[derive(Clone, Copy, Debug, PartialEq, Eq, Structural)]
pub enum IsHealthy {
    /// Is the service alive at all.
    Liveness,
    /// Should traffic be routed to the service: alive and not too busy.
    Readiness,
}

/// The state the health predicate depends on.
#[derive(Clone, Copy, Debug, PartialEq, Eq, Structural)]
pub struct Healthcheck {
    pub is_shutting_down: bool,
    pub requires_auth: bool,
}

impl Healthcheck {
    /// A running service.
    pub fn new(requires_auth: bool) -> (r: Self)
        ensures
            !r.is_shutting_down,
            r.requires_auth == requires_auth,
    {
        Healthcheck { is_shutting_down: false, requires_auth }
    }

    /// Records that the service is shutting down.
    pub fn shutdown(&mut self)
        ensures
            final(self).is_shutting_down,
            final(self).requires_auth == old(self).requires_auth,
    {
        self.is_shutting_down = true;
    }

    /// Answers a health question, given whether the aggregator accepts metrics and whether
    /// the service is authenticated upstream.
    pub fn is_healthy(&self, message: IsHealthy, accepts_metrics: bool, is_authenticated: bool) -> (r: bool)
        ensures
            r == match message {
                IsHealthy::Liveness => true,
                IsHealthy::Readiness => !self.is_shutting_down && accepts_metrics && (!self.requires_auth
                    || is_authenticated),
            },
    {
        match message {
            IsHealthy::Liveness => true,
            IsHealthy::Readiness => {
                if self.is_shutting_down {
                    return false;
                }
                let authenticated = if self.requires_auth {
                    is_authenticated
                } else {
                    true
                };
                accepts_metrics && authenticated
            },
        }
    }
}

} // verus!
