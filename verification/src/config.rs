//! Startup configuration: the three values the proxy core needs.

use vstd::prelude::*;

use crate::client::{IpAddress, SocketAddress};

verus! {

/// Where to listen and which upstream SOCKS5 server to relay through.
#[derive(Clone, Copy, PartialEq, Eq, Structural, Debug)]
pub struct Config {
    /// The upstream SOCKS5 server.
    pub socks5_server: SocketAddress,
    /// The address to listen on.
    pub host: IpAddress,
    /// The port to listen on.
    pub port: usize,
}

} // verus!
