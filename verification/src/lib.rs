//! A user-space IPv4 stack core: zero-copy packet views over byte buffers
//! for IPv4 (options included), ICMPv4 and TCP; datagram construction with
//! internet checksumming; MTU-driven fragmentation; and RFC 815
//! hole-descriptor reassembly keyed per datagram identity.
//!
//! Every function's behaviour is stated against a byte-level model of the
//! wire formats, and the central laws — the checksum's self-verification,
//! round-tripping of built headers, payload preservation under
//! fragmentation, and reassembly inverting fragmentation whatever the
//! arrival order — are proved.
//!
//! The host side (the tun device and the eviction timer) lives outside the
//! library and consumes it through plain values.

pub mod checksum;
pub mod icmpv4;
pub mod ipv4;
pub mod net_device;
pub mod tcp;
