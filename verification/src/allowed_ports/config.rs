//! The configuration block of the allowed-ports checker.
use vstd::prelude::*;

verus! {

/// The ports that one process may listen on, each a port (`"22"`) or an
/// inclusive range (`"8000-8100"`).
#[derive(Clone, Debug)]
pub struct PortOwnerInfo {
    pub owner: String,
    pub ports: Vec<String>,
}

/// The configuration block of the allowed-ports checker.
#[derive(Clone, Debug)]
pub struct AllowedPortsConfig {
    pub enabled: bool,
    pub processes: Vec<PortOwnerInfo>,
}

impl DeepView for PortOwnerInfo {
    type V = (Seq<char>, Seq<Seq<char>>);

    open spec fn deep_view(&self) -> (Seq<char>, Seq<Seq<char>>) {
        (self.owner@, self.ports.deep_view())
    }
}

} // verus!
