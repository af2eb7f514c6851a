//! The address model and the inbound resolver.
//!
//! `Address` and `Destination` describe where a connection is headed, in
//! plain wire values: an IPv4 address is its 32-bit big-endian value, an
//! IPv6 address its 128-bit value, a domain name its raw UTF-8 bytes.
//! `Client` carries a connection through its stages: resolved destination,
//! then (possibly) a destination refined by SNI sniffing together with the
//! bytes consumed while sniffing, which must later be replayed upstream.
//!
//! The inbound SOCKS5 parser decides, byte-exactly, what the resolver does
//! with the data a SOCKS5 client sends: how many bytes it needs, when it
//! rejects, and what destination it accepts.

use vstd::prelude::*;

use crate::error::{Error, ErrorKind};
use crate::wire;

verus! {

/// An IP address as its numeric wire value: 32 bits for IPv4, 128 bits
/// for IPv6, both big-endian.
#[derive(Clone, Copy, PartialEq, Eq, Structural, Debug)]
pub enum IpAddress {
    V4(u32),
    V6(u128),
}

/// The host part of a destination: a literal IP address or a domain name
/// held as its raw UTF-8 bytes.
#[derive(Clone, Debug)]
pub enum Address {
    Ip(IpAddress),
    Domain(Vec<u8>),
}

/// The mathematical value of an `Address`.
pub enum AddressView {
    Ip(IpAddress),
    Domain(Seq<u8>),
}

impl View for Address {
    type V = AddressView;

    open spec fn view(&self) -> AddressView {
        match self {
            Address::Ip(ip) => AddressView::Ip(*ip),
            Address::Domain(d) => AddressView::Domain(d@),
        }
    }
}

/// The logical target of a connection: a host and a port.
#[derive(Clone, Debug)]
pub struct Destination {
    pub host: Address,
    pub port: u16,
}

/// The mathematical value of a `Destination`.
pub struct DestinationView {
    pub host: AddressView,
    pub port: u16,
}

impl View for Destination {
    type V = DestinationView;

    open spec fn view(&self) -> DestinationView {
        DestinationView { host: self.host@, port: self.port }
    }
}

/// An IP endpoint, the shape in which the surrounding application reports
/// a socket's local address and the kernel's recorded original
/// destination.
#[derive(Clone, Copy, PartialEq, Eq, Structural, Debug)]
pub struct SocketAddress {
    pub ip: IpAddress,
    pub port: u16,
}

impl Address {
    /// A domain name must be valid UTF-8 and fit the one-byte length
    /// field of a SOCKS5 request.
    pub open spec fn wf(self) -> bool {
        match self {
            Address::Ip(_) => true,
            Address::Domain(d) => vstd::utf8::valid_utf8(d@) && d@.len() <= 255,
        }
    }
}

impl Destination {
    pub open spec fn wf(self) -> bool {
        self.host.wf()
    }

    /// The destination at an IP endpoint, as recovered from the NAT
    /// lookup or taken from the socket's own address.
    pub fn from_addr(s: &SocketAddress) -> (d: Destination)
        ensures
            d@ == (DestinationView { host: AddressView::Ip(s.ip), port: s.port }),
            d.wf(),
    {
        Destination { host: Address::Ip(s.ip), port: s.port }
    }
}

/// The IPv4 address whose octets, first to last, are the four bytes at
/// `data[start ..]`.
pub open spec fn spec_v4_of(bytes: Seq<u8>) -> IpAddress {
    IpAddress::V4(wire::be_value(bytes) as u32)
}

/// The IPv6 address whose octets are the sixteen bytes of `bytes`.
pub open spec fn spec_v6_of(bytes: Seq<u8>) -> IpAddress {
    IpAddress::V6(wire::be_value(bytes) as u128)
}

/// The octets of an IP address, in wire order.
pub open spec fn spec_ip_octets(ip: IpAddress) -> Seq<u8> {
    match ip {
        IpAddress::V4(x) => wire::be_bytes_of(x as nat, 4),
        IpAddress::V6(x) => wire::be_bytes_of(x as nat, 16),
    }
}

impl Address {
    /// Builds an IPv4 address from its four wire octets.
    pub fn from_v4(octets: &[u8]) -> (r: Address)
        requires
            octets@.len() == 4,
        ensures
            r@ == AddressView::Ip(spec_v4_of(octets@)),
    {
        proof {
            wire::lemma_be_value_pow_bound(octets@);
            reveal_with_fuel(wire::pow256, 5);
            assert(octets@.subrange(0, 4) =~= octets@);
        }
        Address::Ip(IpAddress::V4(wire::be_u32(octets, 0)))
    }

    /// Builds an IPv6 address from its sixteen wire octets.
    pub fn from_v6(octets: &[u8]) -> (r: Address)
        requires
            octets@.len() == 16,
        ensures
            r@ == AddressView::Ip(spec_v6_of(octets@)),
    {
        proof {
            assert(octets@.subrange(0, 16) =~= octets@);
        }
        Address::Ip(IpAddress::V6(wire::be_u128(octets, 0, 16)))
    }

    /// Builds a domain-name address from raw bytes.  The bytes must be
    /// valid UTF-8 — a malformed name is a construction error — and must
    /// fit a SOCKS5 length byte.
    pub fn from_domain(name: Vec<u8>) -> (r: Result<Address, Error>)
        ensures
            match r {
                Ok(a) => a@ == AddressView::Domain(name@) && a.wf(),
                Err(e) => e.kind == ErrorKind::InvalidInput && !(vstd::utf8::valid_utf8(
                    name@,
                ) && name@.len() <= 255),
            },
    {
        if name.len() > 255 {
            return crate::error::error_invalid_input("domain name too long");
        }
        if !utf8_check(name.as_slice()) {
            return crate::error::error_invalid_input("invalid domain name");
        }
        Ok(Address::Domain(name))
    }
}

/// Decides UTF-8 validity, scalar by scalar: each leading byte fixes a
/// width, the continuation bytes must follow, and overlong encodings and
/// surrogate codepoints are refused.
pub fn utf8_check(v: &[u8]) -> (r: bool)
    ensures
        r == vstd::utf8::valid_utf8(v@),
{
    let n = v.len();
    let mut i: usize = 0;
    proof {
        assert(v@.skip(0) =~= v@);
    }
    while i < n
        invariant
            i <= n,
            n == v@.len(),
            vstd::utf8::valid_utf8(v@) == vstd::utf8::valid_utf8(v@.skip(i as int)),
        decreases n - i,
    {
        let ghost rest = v@.skip(i as int);
        let b0 = v[i];
        proof {
            assert(rest[0] == v@[i as int]);
        }
        if b0 < 0x80 {
            // One-byte scalar: no overlong form, below the surrogates.
            proof {
                assert((b0 & 0x7f) < 0xd800u32 && (b0 & 0x7f) >= 0) by (bit_vector)
                    requires
                        b0 < 0x80;
                lemma_utf8_step(v@, i as int, 1);
            }
            i = i + 1;
        } else if b0 < 0xc0 {
            // A continuation byte cannot lead a scalar.
            proof {
                lemma_utf8_invalid_here(v@, i as int);
            }
            return false;
        } else if b0 < 0xe0 {
            if n - i < 2 {
                proof {
                    lemma_utf8_invalid_here(v@, i as int);
                }
                return false;
            }
            let b1 = v[i + 1];
            proof {
                assert(rest[1] == v@[i + 1]);
            }
            if !(0x80 <= b1 && b1 < 0xc0) {
                proof {
                    lemma_utf8_invalid_here(v@, i as int);
                }
                return false;
            }
            if b0 < 0xc2 {
                // Two bytes encoding a value below 0x80: overlong.
                proof {
                    assert((((b0 & 0x1f) as u32) << 6) | ((b1 & 0x3f) as u32) < 0x80) by (bit_vector)
                        requires
                            0xc0 <= b0 < 0xc2,
                            0x80 <= b1 < 0xc0;
                    lemma_utf8_invalid_here(v@, i as int);
                }
                return false;
            }
            proof {
                assert(0x80 <= (((b0 & 0x1f) as u32) << 6) | ((b1 & 0x3f) as u32) < 0x800)
                    by (bit_vector)
                    requires
                        0xc2 <= b0 < 0xe0,
                        0x80 <= b1 < 0xc0;
                lemma_utf8_step(v@, i as int, 2);
            }
            i = i + 2;
        } else if b0 < 0xf0 {
            if n - i < 3 {
                proof {
                    lemma_utf8_invalid_here(v@, i as int);
                }
                return false;
            }
            let b1 = v[i + 1];
            let b2 = v[i + 2];
            proof {
                assert(rest[1] == v@[i + 1] && rest[2] == v@[i + 2]);
            }
            if !(0x80 <= b1 && b1 < 0xc0) || !(0x80 <= b2 && b2 < 0xc0) {
                proof {
                    lemma_utf8_invalid_here(v@, i as int);
                }
                return false;
            }
            if b0 == 0xe0 && b1 < 0xa0 {
                // Three bytes encoding a value below 0x800: overlong.
                proof {
                    assert((((b0 & 0x0f) as u32) << 12) | (((b1 & 0x3f) as u32) << 6) | ((b2
                        & 0x3f) as u32) < 0x800) by (bit_vector)
                        requires
                            b0 == 0xe0,
                            0x80 <= b1 < 0xa0,
                            0x80 <= b2 < 0xc0;
                    lemma_utf8_invalid_here(v@, i as int);
                }
                return false;
            }
            if b0 == 0xed && b1 >= 0xa0 {
                // The surrogate range D800..DFFF is not valid Unicode.
                proof {
                    assert(0xd800 <= (((b0 & 0x0f) as u32) << 12) | (((b1 & 0x3f) as u32) << 6) | ((
                    b2 & 0x3f) as u32) <= 0xdfff) by (bit_vector)
                        requires
                            b0 == 0xed,
                            0xa0 <= b1 < 0xc0,
                            0x80 <= b2 < 0xc0;
                    lemma_utf8_invalid_here(v@, i as int);
                }
                return false;
            }
            proof {
                let cp = (((b0 & 0x0f) as u32) << 12) | (((b1 & 0x3f) as u32) << 6) | ((b2
                    & 0x3f) as u32);
                assert(0x800 <= cp && !(0xd800 <= cp <= 0xdfff)) by (bit_vector)
                    requires
                        cp == (((b0 & 0x0f) as u32) << 12) | (((b1 & 0x3f) as u32) << 6) | ((b2
                            & 0x3f) as u32),
                        0xe0 <= b0 < 0xf0,
                        0x80 <= b1 < 0xc0,
                        0x80 <= b2 < 0xc0,
                        !(b0 == 0xe0 && b1 < 0xa0),
                        !(b0 == 0xed && b1 >= 0xa0);
                lemma_utf8_step(v@, i as int, 3);
            }
            i = i + 3;
        } else if b0 < 0xf8 {
            if n - i < 4 {
                proof {
                    lemma_utf8_invalid_here(v@, i as int);
                }
                return false;
            }
            let b1 = v[i + 1];
            let b2 = v[i + 2];
            let b3 = v[i + 3];
            proof {
                assert(rest[1] == v@[i + 1] && rest[2] == v@[i + 2] && rest[3] == v@[i + 3]);
            }
            if !(0x80 <= b1 && b1 < 0xc0) || !(0x80 <= b2 && b2 < 0xc0) || !(0x80 <= b3 && b3
                < 0xc0) {
                proof {
                    lemma_utf8_invalid_here(v@, i as int);
                }
                return false;
            }
            if (b0 == 0xf0 && b1 < 0x90) || b0 > 0xf4 || (b0 == 0xf4 && b1 >= 0x90) {
                // Below 0x10000 it is overlong; above 0x10FFFF it is
                // outside Unicode altogether.
                proof {
                    let cp = (((b0 & 0x07) as u32) << 18) | (((b1 & 0x3f) as u32) << 12) | (((b2
                        & 0x3f) as u32) << 6) | ((b3 & 0x3f) as u32);
                    assert(!(0x10000 <= cp <= 0x10ffff)) by (bit_vector)
                        requires
                            cp == (((b0 & 0x07) as u32) << 18) | (((b1 & 0x3f) as u32) << 12) | (((
                            b2 & 0x3f) as u32) << 6) | ((b3 & 0x3f) as u32),
                            0xf0 <= b0 < 0xf8,
                            0x80 <= b1 < 0xc0,
                            0x80 <= b2 < 0xc0,
                            0x80 <= b3 < 0xc0,
                            (b0 == 0xf0 && b1 < 0x90) || b0 > 0xf4 || (b0 == 0xf4 && b1 >= 0x90);
                    lemma_utf8_invalid_here(v@, i as int);
                }
                return false;
            }
            proof {
                let cp = (((b0 & 0x07) as u32) << 18) | (((b1 & 0x3f) as u32) << 12) | (((b2
                    & 0x3f) as u32) << 6) | ((b3 & 0x3f) as u32);
                assert(0x10000 <= cp <= 0x10ffff) by (bit_vector)
                    requires
                        cp == (((b0 & 0x07) as u32) << 18) | (((b1 & 0x3f) as u32) << 12) | (((b2
                            & 0x3f) as u32) << 6) | ((b3 & 0x3f) as u32),
                        0xf0 <= b0 < 0xf8,
                        0x80 <= b1 < 0xc0,
                        0x80 <= b2 < 0xc0,
                        0x80 <= b3 < 0xc0,
                        !((b0 == 0xf0 && b1 < 0x90) || b0 > 0xf4 || (b0 == 0xf4 && b1 >= 0x90));
                lemma_utf8_step(v@, i as int, 4);
            }
            i = i + 4;
        } else {
            // 0xf8 and above lead no UTF-8 scalar.
            proof {
                lemma_utf8_invalid_here(v@, i as int);
            }
            return false;
        }
    }
    proof {
        assert(v@.skip(n as int) =~= Seq::<u8>::empty());
    }
    true
}

/// The suffix at `i` starts with a well-formed scalar of `len` bytes, so
/// validity of the whole is validity of the suffix at `i + len`.
proof fn lemma_utf8_step(s: Seq<u8>, i: int, len: int)
    requires
        0 <= i,
        i + len <= s.len(),
        1 <= len <= 4,
        vstd::utf8::valid_first_scalar(s.skip(i)),
        vstd::utf8::length_of_first_scalar(s.skip(i)) == len,
    ensures
        vstd::utf8::valid_utf8(s.skip(i)) == vstd::utf8::valid_utf8(s.skip(i + len)),
{
    assert(vstd::utf8::pop_first_scalar(s.skip(i)) =~= s.skip(i + len));
}

/// The suffix at `i` does not start with a well-formed scalar, so the
/// whole sequence is not valid UTF-8.
proof fn lemma_utf8_invalid_here(s: Seq<u8>, i: int)
    requires
        0 <= i < s.len(),
        !vstd::utf8::valid_first_scalar(s.skip(i)),
    ensures
        !vstd::utf8::valid_utf8(s.skip(i)),
{
}

impl IpAddress {
    /// The wire octets of this address: four bytes for IPv4, sixteen for
    /// IPv6, most significant first.
    pub fn octets(&self) -> (r: Vec<u8>)
        ensures
            r@ == spec_ip_octets(*self),
    {
        let mut out: Vec<u8> = Vec::new();
        match self {
            IpAddress::V4(x) => {
                wire::push_be(&mut out, *x as u128, 4);
            }
            IpAddress::V6(x) => {
                wire::push_be(&mut out, *x, 16);
            }
        }
        proof {
            assert(out@ =~= spec_ip_octets(*self));
        }
        out
    }
}

/// Address construction round-trips: decoding four or sixteen wire octets
/// and re-encoding them gives the original octets back, and encoding an
/// address value then decoding the octets gives the value back.
pub proof fn lemma_address_round_trip(bytes: Seq<u8>)
    requires
        bytes.len() == 4 || bytes.len() == 16,
    ensures
        bytes.len() == 4 ==> spec_ip_octets(spec_v4_of(bytes)) == bytes,
        bytes.len() == 16 ==> spec_ip_octets(spec_v6_of(bytes)) == bytes,
{
    wire::lemma_be_value_pow_bound(bytes);
    wire::lemma_pow256_16();
    reveal_with_fuel(wire::pow256, 5);
    wire::lemma_be_round_trip(bytes);
}

/// The IPv6-mapped form of an IPv4 value: `::ffff:a.b.c.d`.
pub open spec fn spec_v6_mapped(x: u32) -> u128 {
    (0xffff00000000u128 + x) as u128
}

/// The common comparable form of an endpoint: IPv4 addresses are mapped
/// into IPv6 space, IPv6 addresses are unchanged.
pub open spec fn spec_normalize(s: SocketAddress) -> SocketAddress {
    match s.ip {
        IpAddress::V4(x) => SocketAddress {
            ip: IpAddress::V6(spec_v6_mapped(x)),
            port: s.port,
        },
        IpAddress::V6(_) => s,
    }
}

/// Normalizes an endpoint so that an un-NATed IPv4 socket compares equal
/// to its own local address even when one side is reported in IPv6 form.
pub fn normalize_socket_addr(s: &SocketAddress) -> (r: SocketAddress)
    ensures
        r == spec_normalize(*s),
{
    match s.ip {
        IpAddress::V4(x) => SocketAddress {
            ip: IpAddress::V6(0xffff00000000u128 + (x as u128)),
            port: s.port,
        },
        IpAddress::V6(_) => *s,
    }
}

/// Chooses the destination recovered before NAT, and decides whether the
/// connection was in fact redirected.
///
/// The IPv4 lookup wins over the IPv6 lookup; if both failed the socket's
/// own local address is the fallback, which marks a direct connection.
/// Redirection holds only when the lookup facility is available on this
/// platform and the recovered destination differs from the local address
/// after both are normalized.
pub fn select_original_dest(
    lookup_v4: Option<SocketAddress>,
    lookup_v6: Option<SocketAddress>,
    local: SocketAddress,
    lookup_available: bool,
) -> (r: (SocketAddress, bool))
    ensures
        r.0 == (match lookup_v4 {
            Some(a) => a,
            None => match lookup_v6 {
                Some(a) => a,
                None => local,
            },
        }),
        r.1 == (lookup_available && spec_normalize(r.0) != spec_normalize(local)),
{
    let dest = match lookup_v4 {
        Some(a) => a,
        None => match lookup_v6 {
            Some(a) => a,
            None => local,
        },
    };
    let is_nated = lookup_available && !(normalize_socket_addr(&dest)
        == normalize_socket_addr(&local));
    (dest, is_nated)
}

/// A connection whose destination has been resolved: the peer's source
/// address, the local port it arrived on, the destination, and any bytes
/// already consumed from the inbound socket that must be replayed
/// upstream.
#[derive(Clone, Debug)]
pub struct Client {
    pub dest: Destination,
    pub src: SocketAddress,
    pub from_port: u16,
    pub pending_data: Option<Vec<u8>>,
}

/// The destination after SNI refinement: when the peeked bytes parse as
/// a ClientHello carrying a usable server name, the host becomes that
/// name and the port is kept; otherwise the destination is unchanged.
pub open spec fn spec_refined_dest(dest: DestinationView, data: Seq<u8>) -> DestinationView {
    match crate::tls::spec_parse_client_hello(data) {
        Some(Some(name)) => if vstd::utf8::valid_utf8(name) && name.len() <= 255 {
            DestinationView { host: AddressView::Domain(name), port: dest.port }
        } else {
            dest
        },
        _ => dest,
    }
}

impl Client {
    /// A freshly resolved connection: no bytes have been consumed beyond
    /// the handshake, so nothing is pending.
    pub fn new(src: SocketAddress, from_port: u16, dest: Destination) -> (c: Client)
        ensures
            c.dest == dest,
            c.src == src,
            c.from_port == from_port,
            c.pending_data is None,
    {
        Client { dest, src, from_port, pending_data: None }
    }

    /// SNI refinement.  `peeked` is what a bounded wait read from the
    /// inbound socket: `None` when nothing arrived in time, otherwise
    /// the exact bytes read.  A parse failure is not fatal and leaves
    /// the destination alone; whatever was read becomes pending data —
    /// real client bytes that must be replayed upstream, never dropped.
    pub fn retrive_dest(self, peeked: Option<Vec<u8>>) -> (c: Client)
        requires
            self.dest.wf(),
        ensures
            c.src == self.src,
            c.from_port == self.from_port,
            c.dest.wf(),
            (match peeked {
                None => c.dest@ == self.dest@ && c.pending_data is None,
                Some(b) => c.dest@ == spec_refined_dest(self.dest@, b@) && (match c.pending_data {
                    Some(p) => p@ == b@,
                    None => false,
                }),
            }),
    {
        match peeked {
            None => Client {
                dest: self.dest,
                src: self.src,
                from_port: self.from_port,
                pending_data: None,
            },
            Some(buf) => {
                let mut dest = self.dest;
                match crate::tls::parse_client_hello(buf.as_slice()) {
                    Err(_) => {
                        // Not a parseable hello: keep the destination,
                        // the bytes are still forwarded verbatim.
                    }
                    Ok(hello) => {
                        match hello.server_name {
                            Some(name) => {
                                if name.len() <= 255 && utf8_check(name.as_slice()) {
                                    dest = Destination {
                                        host: Address::Domain(name),
                                        port: dest.port,
                                    };
                                }
                            }
                            None => {}
                        }
                    }
                }
                Client {
                    dest,
                    src: self.src,
                    from_port: self.from_port,
                    pending_data: Some(buf),
                }
            }
        }
    }
}

/// Outcome of feeding the inbound SOCKS5 greeting (version, method count,
/// method list) to the resolver.
#[derive(Clone, Copy, PartialEq, Eq, Structural, Debug)]
pub enum GreetingStatus {
    /// The bytes so far are a proper prefix; read until `needed` bytes
    /// are at hand and parse again.
    NeedMore { needed: usize },
    /// The greeting violates the protocol; exactly `consumed` bytes of it
    /// were read.
    Reject { consumed: usize },
    /// The client offers the no-auth method; `consumed` bytes were read
    /// and the `[5, 0]` method reply is owed.
    Accept { consumed: usize },
}

/// Whether a method list offers "no authentication" (`0x00`).
pub open spec fn spec_has_no_auth(methods: Seq<u8>) -> bool {
    exists|i: int| 0 <= i < methods.len() && methods[i] == 0
}

/// What the resolver does with an inbound greeting byte sequence.
pub open spec fn spec_parse_greeting(s: Seq<u8>) -> GreetingStatus {
    if s.len() < 1 {
        GreetingStatus::NeedMore { needed: 1 }
    } else if s[0] != 5 {
        GreetingStatus::Reject { consumed: 1 }
    } else if s.len() < 2 {
        GreetingStatus::NeedMore { needed: 2 }
    } else if s.len() < 2 + s[1] {
        GreetingStatus::NeedMore { needed: (2 + s[1]) as usize }
    } else if !spec_has_no_auth(s.subrange(2, 2 + s[1])) {
        GreetingStatus::Reject { consumed: (2 + s[1]) as usize }
    } else {
        GreetingStatus::Accept { consumed: (2 + s[1]) as usize }
    }
}

/// Extending a method list by one byte offers no-auth exactly when the
/// shorter list already did or the new byte is `0x00`.
proof fn lemma_has_no_auth_step(s: Seq<u8>, t: Seq<u8>)
    requires
        t.len() >= 1,
        s == t.drop_last(),
    ensures
        spec_has_no_auth(t) <==> (spec_has_no_auth(s) || t.last() == 0),
{
    if spec_has_no_auth(t) {
        let j = choose|j: int| 0 <= j < t.len() && t[j] == 0;
        if j < t.len() - 1 {
            assert(s[j] == 0);
        }
    }
    if spec_has_no_auth(s) {
        let j = choose|j: int| 0 <= j < s.len() && s[j] == 0;
        assert(t[j] == 0);
    }
    if t.last() == 0 {
        assert(t[t.len() - 1] == 0);
    }
}

/// Parses the greeting a SOCKS5 client opens with: version, method
/// count, then that many method bytes.  The version must be 5 and the
/// no-auth method must be offered.
pub fn parse_greeting(input: &[u8]) -> (r: GreetingStatus)
    ensures
        r == spec_parse_greeting(input@),
{
    let n = input.len();
    if n < 1 {
        return GreetingStatus::NeedMore { needed: 1 };
    }
    if input[0] != 5 {
        return GreetingStatus::Reject { consumed: 1 };
    }
    if n < 2 {
        return GreetingStatus::NeedMore { needed: 2 };
    }
    let n_methods = input[1] as usize;
    if n < 2 + n_methods {
        return GreetingStatus::NeedMore { needed: 2 + n_methods };
    }
    let mut i: usize = 0;
    let mut found = false;
    while i < n_methods
        invariant
            i <= n_methods,
            2 + n_methods <= input@.len(),
            n_methods == input@[1],
            found == spec_has_no_auth(input@.subrange(2, 2 + i)),
        decreases n_methods - i,
    {
        proof {
            let pre = input@.subrange(2, 2 + i);
            let post = input@.subrange(2, 2 + i + 1);
            assert(post.drop_last() =~= pre);
            assert(post.last() == input@[2 + i]);
            lemma_has_no_auth_step(pre, post);
        }
        if input[2 + i] == 0 {
            found = true;
        }
        i = i + 1;
    }
    proof {
        assert(input@.subrange(2, 2 + i) =~= input@.subrange(2, 2 + input@[1]));
    }
    if found {
        GreetingStatus::Accept { consumed: 2 + n_methods }
    } else {
        GreetingStatus::Reject { consumed: 2 + n_methods }
    }
}

/// For every inbound greeting whose method list lacks the no-auth
/// method, resolution rejects the connection, and it consumes exactly
/// the version byte, the count byte, and the method list — no byte
/// beyond them.
pub proof fn lemma_greeting_without_noauth_rejected(s: Seq<u8>)
    requires
        s.len() >= 2,
        s[0] == 5,
        s.len() >= 2 + s[1],
        forall|i: int| 2 <= i < 2 + s[1] ==> s[i] != 0,
    ensures
        spec_parse_greeting(s) == (GreetingStatus::Reject { consumed: (2 + s[1]) as usize }),
{
    let methods = s.subrange(2, 2 + s[1]);
    assert(!spec_has_no_auth(methods)) by {
        if spec_has_no_auth(methods) {
            let j = choose|j: int| 0 <= j < methods.len() && methods[j] == 0;
            assert(s[j + 2] == 0);
        }
    }
}

/// Outcome of feeding the inbound SOCKS5 request (command and
/// destination) to the resolver.
#[derive(Clone, Debug)]
pub enum RequestStatus {
    /// The bytes so far are a proper prefix; read until `needed` bytes
    /// are at hand and parse again.
    NeedMore { needed: usize },
    /// The request violates the protocol; exactly `consumed` bytes of it
    /// were read.
    Reject { consumed: usize },
    /// A CONNECT request for `dest`; `consumed` bytes were read and the
    /// zero-filled success reply is owed.
    Accept { dest: Destination, consumed: usize },
}

/// The mathematical value of a `RequestStatus`.
pub enum SpecRequestStatus {
    NeedMore { needed: int },
    Reject { consumed: int },
    Accept { dest: DestinationView, consumed: int },
}

/// What the resolver does with the inbound request bytes that follow an
/// accepted greeting: 4-byte header, an address in one of three wire
/// forms, then the 2-byte big-endian port.
pub open spec fn spec_parse_request(s: Seq<u8>) -> SpecRequestStatus {
    if s.len() < 4 {
        SpecRequestStatus::NeedMore { needed: 4 }
    } else if !(s[0] == 5 && s[1] == 1) {
        SpecRequestStatus::Reject { consumed: 4 }
    } else if s[3] == 1 {
        if s.len() < 10 {
            SpecRequestStatus::NeedMore { needed: 10 }
        } else {
            SpecRequestStatus::Accept {
                dest: DestinationView {
                    host: AddressView::Ip(spec_v4_of(s.subrange(4, 8))),
                    port: wire::be16(s[8], s[9]),
                },
                consumed: 10,
            }
        }
    } else if s[3] == 3 {
        if s.len() < 5 {
            SpecRequestStatus::NeedMore { needed: 5 }
        } else if s.len() < 5 + s[4] {
            SpecRequestStatus::NeedMore { needed: (5 + s[4]) as usize as int }
        } else if !vstd::utf8::valid_utf8(s.subrange(5, 5 + s[4])) {
            SpecRequestStatus::Reject { consumed: 5 + s[4] }
        } else if s.len() < 7 + s[4] {
            SpecRequestStatus::NeedMore { needed: 7 + s[4] }
        } else {
            SpecRequestStatus::Accept {
                dest: DestinationView {
                    host: AddressView::Domain(s.subrange(5, 5 + s[4])),
                    port: wire::be16(s[5 + s[4]], s[6 + s[4]]),
                },
                consumed: 7 + s[4],
            }
        }
    } else if s[3] == 4 {
        if s.len() < 22 {
            SpecRequestStatus::NeedMore { needed: 22 }
        } else {
            SpecRequestStatus::Accept {
                dest: DestinationView {
                    host: AddressView::Ip(spec_v6_of(s.subrange(4, 20))),
                    port: wire::be16(s[20], s[21]),
                },
                consumed: 22,
            }
        }
    } else {
        SpecRequestStatus::Reject { consumed: 4 }
    }
}

/// Parses the inbound CONNECT request, mirroring `spec_parse_request`.
/// An accepted destination is well formed: a domain name was checked for
/// valid UTF-8 and fits the length byte it came with.
pub fn parse_request(input: &[u8]) -> (r: RequestStatus)
    ensures
        (match r {
            RequestStatus::NeedMore { needed } => spec_parse_request(input@)
                == (SpecRequestStatus::NeedMore { needed: needed as int }),
            RequestStatus::Reject { consumed } => spec_parse_request(input@)
                == (SpecRequestStatus::Reject { consumed: consumed as int }),
            RequestStatus::Accept { dest, consumed } => spec_parse_request(input@)
                == (SpecRequestStatus::Accept { dest: dest@, consumed: consumed as int })
                && dest.wf(),
        }),
{
    let n = input.len();
    if n < 4 {
        return RequestStatus::NeedMore { needed: 4 };
    }
    if !(input[0] == 5 && input[1] == 1) {
        return RequestStatus::Reject { consumed: 4 };
    }
    if input[3] == 1 {
        if n < 10 {
            return RequestStatus::NeedMore { needed: 10 };
        }
        let host = Address::from_v4(vstd::slice::slice_subrange(input, 4, 8));
        let port = wire::read_u16_be(input[8], input[9]);
        RequestStatus::Accept { dest: Destination { host, port }, consumed: 10 }
    } else if input[3] == 3 {
        if n < 5 {
            return RequestStatus::NeedMore { needed: 5 };
        }
        let dlen = input[4] as usize;
        if n < 5 + dlen {
            return RequestStatus::NeedMore { needed: 5 + dlen };
        }
        let name = vstd::slice::slice_to_vec(vstd::slice::slice_subrange(input, 5, 5 + dlen));
        if !utf8_check(name.as_slice()) {
            return RequestStatus::Reject { consumed: 5 + dlen };
        }
        if n < 7 + dlen {
            return RequestStatus::NeedMore { needed: 7 + dlen };
        }
        let port = wire::read_u16_be(input[5 + dlen], input[6 + dlen]);
        RequestStatus::Accept {
            dest: Destination { host: Address::Domain(name), port },
            consumed: 7 + dlen,
        }
    } else if input[3] == 4 {
        if n < 22 {
            return RequestStatus::NeedMore { needed: 22 };
        }
        let host = Address::from_v6(vstd::slice::slice_subrange(input, 4, 20));
        let port = wire::read_u16_be(input[20], input[21]);
        RequestStatus::Accept { dest: Destination { host, port }, consumed: 22 }
    } else {
        RequestStatus::Reject { consumed: 4 }
    }
}

/// The method-selection reply the resolver owes after an accepted
/// greeting: version 5, method 0 (no auth).
pub fn method_reply() -> (r: Vec<u8>)
    ensures
        r@ == seq![5u8, 0u8],
{
    let mut v: Vec<u8> = Vec::new();
    v.push(5);
    v.push(0);
    proof {
        assert(v@ =~= seq![5u8, 0u8]);
    }
    v
}

/// The fixed success reply to an accepted CONNECT request; the
/// bound-address fields carry no meaning and are zero-filled.
pub fn request_success_reply() -> (r: Vec<u8>)
    ensures
        r@ == seq![5u8, 0u8, 0u8, 1u8, 0u8, 0u8, 0u8, 0u8, 0u8, 0u8],
{
    let mut v: Vec<u8> = Vec::new();
    v.push(5);
    v.push(0);
    v.push(0);
    v.push(1);
    let mut i: usize = 0;
    while i < 6
        invariant
            i <= 6,
            v@.len() == 4 + i,
            v@ == seq![5u8, 0u8, 0u8, 1u8] + Seq::<u8>::new(i as nat, |j: int| 0u8),
        decreases 6 - i,
    {
        v.push(0);
        proof {
            assert(v@ =~= seq![5u8, 0u8, 0u8, 1u8] + Seq::<u8>::new(i as nat + 1, |j: int| 0u8));
        }
        i = i + 1;
    }
    proof {
        assert(v@ =~= seq![5u8, 0u8, 0u8, 1u8, 0u8, 0u8, 0u8, 0u8, 0u8, 0u8]);
    }
    v
}

} // verus!
