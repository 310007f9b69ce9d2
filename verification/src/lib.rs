//! The packet-routing core of a UDP reverse proxy: which upstream endpoints
//! receive a packet, decided from cluster membership, the client's source
//! address, a load-balancing policy and negotiated sessions.
//!
//! - [`net`]: addresses as plain numbers, and their text `host:port`.
//! - [`cluster`]: the upstream endpoints, grouped by locality.
//! - [`filters`]: the packet contexts, the three filters (load balancer,
//!   source-IP router, session router) and the chain that composes them.
//! - [`proto`]: the binary form of the source-IP router's configuration.
//! - [`assoc`]: lists of pairs read as finite maps.
//! - [`bindings`]: the calls into other crates, whose contracts are taken
//!   on trust.
//!
//! Nothing here does I/O, waits or locks: a caller hands in packets and the
//! outcomes of table scans, and gets back destinations and the time of the
//! next scan.

pub mod assoc;
pub mod bindings;
pub mod cluster;
pub mod filters;
pub mod net;
pub mod proto;
