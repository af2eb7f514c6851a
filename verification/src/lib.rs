//! Transparent TCP-to-SOCKS5 proxy core.
//!
//! The library holds the verified logic of the proxy: the address model,
//! the inbound SOCKS5 request parser, the TLS ClientHello sniffer, the
//! outbound SOCKS5 handshake state machine, and the duplex relay state
//! machine.  All socket I/O is driven by the surrounding application,
//! which feeds bytes in and carries actions out.

pub mod client;
pub mod config;
pub mod error;
pub mod socks5;
pub mod stream;
pub mod tls;
pub mod wire;

