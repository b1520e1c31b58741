//! The identity an agent publishes under.
use vstd::prelude::*;

verus! {

/// A named, versioned agent.
#[derive(Debug, Clone)]
pub struct Agent {
    pub name: String,
    pub version: String,
}

impl Agent {
    /// The agent `name` at `version`.
    pub fn new(name: &str, version: &str) -> (r: Agent)
        ensures
            r.name@ == name@,
            r.version@ == version@,
    {
        Agent { name: String::from_str(name), version: String::from_str(version) }
    }

    /// The source address of the agent's messages: `agent://local/<name>`.
    pub fn source_address(&self) -> (r: String)
        ensures
            r@ == "agent://local/"@ + self.name@,
    {
        let mut s = String::from_str("agent://local/");
        s.append(self.name.as_str());
        s
    }
}

} // verus!
