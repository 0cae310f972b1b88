//! Verified core of ban2bgp: configuration parsing, the route table of
//! banned prefixes, the peer registry and the decisions of the HTTP API.

pub mod text;
pub mod net;
pub mod rib;
pub mod peers;
pub mod config;
pub mod api;
pub mod session;
pub mod open;
pub mod update;
pub mod speaker;
pub mod fltitem;
