//! Cross-platform network information: MAC addresses, neighbor caches and
//! routing tables, with the decision logic verified by Verus.
pub mod error;
pub mod iface;
pub mod text;
pub mod ip;
pub mod route;
pub mod neigh;
pub mod rtmsg;

pub use error::Result;
