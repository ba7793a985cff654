//! Verified core of a Minecraft transfer proxy: the wire format of the
//! protocol (variable-length integers, strings, frames), the per-connection
//! protocol state machine, the packets that plugins send, and the decision
//! logic of the bundled plugins (MOTD, transfer routing, bans).

pub mod buffer;
pub mod network;
pub mod text;
pub mod test_borrow;
pub mod session;
pub mod packets;
pub mod ip_info;
pub mod string_set;
pub mod plugins;
pub mod random;
pub mod config;
pub mod plugin;
