//! Resolution of network namespaces as host names.
//!
//! A namespace is looked up like a host: its name resolves to the addresses
//! bound to the interfaces inside it, an address resolves back to the
//! namespace that holds it, and all namespaces of the machine can be listed
//! with their addresses. The crate holds the rules of that resolution; it
//! starts no process and reads no file. Its callers run the system's `ip`
//! tool with the arguments that `gateway` builds and hand back what the tool
//! printed.

pub mod address;
pub mod classifier;
pub mod gateway;
pub mod json;
pub mod literal;
pub mod record;
pub mod resolver;
pub mod text;
