//! Shared, immutable request-scoped context.

use vstd::prelude::*;

verus! {

/// Opaque application state handed to every handler.
#[derive(Clone, Copy, Debug, PartialEq, Eq, Structural)]
pub struct State(pub u64);

/// Startup-constructed context: the fixed upstream origin and the state value.
#[derive(Clone, Debug)]
pub struct Env {
    pub origin: String,
    pub state: State,
}

/// The upstream origin that is used when none is configured.
pub fn default_origin() -> (origin: String)
    ensures
        origin@ == "https://httpbin.org"@,
{
    String::from_str("https://httpbin.org")
}

impl Env {
    /// Builds the context once, before serving begins.
    pub fn new(origin: String, state: State) -> (env: Env)
        ensures
            env.origin@ == origin@,
            env.state == state,
    {
        Env { origin, state }
    }

    /// The fixed upstream origin.
    pub fn origin(&self) -> (origin: &str)
        ensures
            origin@ == self.origin@,
    {
        self.origin.as_str()
    }

    /// The opaque state value.
    pub fn state(&self) -> (state: State)
        ensures
            state == self.state,
    {
        self.state
    }
}

} // verus!
