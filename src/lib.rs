//! Peer discovery over multicast DNS and a post-quantum handshake that
//! bootstraps an encrypted channel between peers on a local network.
//!
//! - `names`, `ipv4`: text helpers for names, service ids and addresses.
//! - `dns`, `codec`: DNS messages and their wire form.
//! - `records`: the registry of nodes and services.
//! - `back_off`: the adaptive advertise and query intervals.
//! - `mdns_service`: the discovery service's state and decisions.
//! - `aead`: AES-256-GCM messages and framed streams.
//! - `handshake`: the handshake steps as state machines.
//! - `api`, `errors`: error vocabularies.
pub mod aead;
pub mod api;
pub mod back_off;
pub mod codec;
pub mod dns;
pub mod errors;
pub mod handshake;
pub mod ipv4;
pub mod mdns_service;
pub mod names;
pub mod records;
