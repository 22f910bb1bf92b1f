//! A small library of agent "tools": callable units with typed arguments,
//! a JSON-schema-shaped descriptor, and a deterministic execution function.
//!
//! Two tools are provided: an integer adder and an IP/subnet validator.
//! The IP tool parses IPv4 and IPv6 addresses, renders them in canonical
//! form, and checks containment in a CIDR network.

pub mod adder;
pub mod ip_tool;
pub mod schema;
pub mod ip;
pub mod net;
pub mod render;
