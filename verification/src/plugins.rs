//! The plugins that come with the proxy: their decision logic.

pub mod bbob;
pub mod motd;
pub mod transfor;
