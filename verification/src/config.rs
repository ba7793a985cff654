//! The proxy's own settings.

use vstd::prelude::*;
use crate::text::owned;

verus! {

/// Where the proxy listens.
#[derive(Debug, Clone)]
pub struct ProxyConfig {
    pub bind_address: String,
}

impl Default for ProxyConfig {
    /// Listen on the local Minecraft port.
    fn default() -> (c: ProxyConfig)
        ensures
            c.bind_address@ == "127.0.0.1:25565"@,
    {
        ProxyConfig { bind_address: owned("127.0.0.1:25565") }
    }
}

} // verus!
