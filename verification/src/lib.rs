//! Verified core of a live network watcher: frame decoding through the
//! Ethernet / ARP / IPv4 / IPv6 / TCP / UDP / ICMP chain, an ordered packet
//! store with session semantics, protocol and address-prefix filtering, a
//! snapshot text codec, and the exact-arithmetic part of a clustering-based
//! denial-of-service screen.
pub mod addrs;
pub mod clock;
pub mod codec;
pub mod decode;
pub mod detect;
pub mod errors;
pub mod filter;
pub mod hexdump;
pub mod ifaces;
pub mod record;
pub mod store;
pub mod textfmt;
