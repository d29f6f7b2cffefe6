//! Resolution of a host string into network addresses: a strict test for
//! dotted-decimal IPv4 text, its direct parse, and delegation of every other
//! name to a name-resolution collaborator supplied by the caller.

pub mod address;
pub mod errors;
pub mod literal;
pub mod resolve;

pub use address::IpAddress;
pub use errors::{IpaddrConversionError, LookupFailure};
pub use literal::{is_ipaddrv4, parse_ipv4_literal};
pub use resolve::get_ipaddr;
