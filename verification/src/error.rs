//! The failures of the gateway core.

use vstd::prelude::*;
use vstd::string::*;

verus! {

/// Every failure that the core can raise, each with a human-readable cause.
#[derive(Clone, Debug)]
pub enum GatewayError {
    /// An invalid route pattern, found while the table is built.
    Configuration(String),
    /// A pre-request transform rejected the request.
    Middleware(String),
    /// Forwarding failed: a bad rewrite or a failed outbound call.
    Upstream(String),
    /// A local handler failed.
    Handler(String),
}

impl GatewayError {
    /// The cause that the error carries.
    pub open spec fn cause(&self) -> Seq<char> {
        match self {
            GatewayError::Configuration(m) => m@,
            GatewayError::Middleware(m) => m@,
            GatewayError::Upstream(m) => m@,
            GatewayError::Handler(m) => m@,
        }
    }

    /// The cause as text.
    pub fn message(&self) -> (text: String)
        ensures
            text@ == self.cause(),
    {
        match self {
            GatewayError::Configuration(m) => m.clone(),
            GatewayError::Middleware(m) => m.clone(),
            GatewayError::Upstream(m) => m.clone(),
            GatewayError::Handler(m) => m.clone(),
        }
    }
}

} // verus!
