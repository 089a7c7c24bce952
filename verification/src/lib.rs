//! BGP-4 message decoding: header, OPEN and UPDATE bodies, path attributes
//! and unicast NLRI, with the textual renderings of addresses and prefixes.

pub mod wire;
pub mod text;
pub mod prefix;
pub mod routes;
pub mod error;
pub mod header;
pub mod attrs;
pub mod update;
