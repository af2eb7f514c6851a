//! The outbound SOCKS5 handshake, in the client role.
//!
//! The handshake is a fixed exchange: send the greeting, read the
//! two-byte method reply, send the CONNECT request, read the ten-byte
//! reply, and only then flush any pending early data.  The `Handshake`
//! machine makes each step explicit: the surrounding application performs
//! the sends and reads, the machine decides what is sent and when the
//! exchange has failed.  `spec_client_bytes` states, once and for all,
//! everything the client role ever writes given the server's replies.

use vstd::prelude::*;

use crate::client::{Address, AddressView, Destination, DestinationView, IpAddress};
use crate::error::{Error, ErrorKind};
use crate::wire;

verus! {

/// The greeting the client opens with: version 5, one method, no-auth.
pub open spec fn spec_greeting() -> Seq<u8> {
    seq![5u8, 1u8, 0u8]
}

/// Whether the server's method reply selects the no-auth method.
pub open spec fn spec_method_reply_ok(reply: Seq<u8>) -> bool {
    reply == seq![5u8, 0u8]
}

/// Whether the server's CONNECT reply reports success: ten bytes whose
/// first two are `[5, 0]`; the bound-address echo is not validated.
pub open spec fn spec_connect_reply_ok(reply: Seq<u8>) -> bool {
    reply.len() == 10 && reply[0] == 5 && reply[1] == 0
}

/// The wire form of an address in a CONNECT request: an IPv4 address is
/// its four raw octets, an IPv6 address is type byte 4 and sixteen
/// octets, a domain is type byte 3, a length byte, and its UTF-8 bytes.
pub open spec fn spec_addr_bytes(a: AddressView) -> Seq<u8> {
    match a {
        AddressView::Ip(IpAddress::V4(x)) => wire::be_bytes_of(x as nat, 4),
        AddressView::Ip(IpAddress::V6(x)) => seq![4u8] + wire::be_bytes_of(x as nat, 16),
        AddressView::Domain(d) => seq![3u8, d.len() as u8] + d,
    }
}

/// The full CONNECT request for a destination.
pub open spec fn spec_request(d: DestinationView) -> Seq<u8> {
    seq![5u8, 1u8, 0u8] + spec_addr_bytes(d.host) + wire::u16_be_bytes(d.port)
}

/// Everything the client role writes to the upstream server, given the
/// server's two replies: the greeting; then, only if the method reply
/// selects no-auth, the CONNECT request; then, only if the CONNECT
/// reply reports success, the pending early data.
pub open spec fn spec_client_bytes(
    dest: DestinationView,
    pending: Seq<u8>,
    method_reply: Seq<u8>,
    connect_reply: Seq<u8>,
) -> Seq<u8> {
    if !spec_method_reply_ok(method_reply) {
        spec_greeting()
    } else if !spec_connect_reply_ok(connect_reply) {
        spec_greeting() + spec_request(dest)
    } else {
        spec_greeting() + spec_request(dest) + pending
    }
}

/// A method reply other than `[5, 0]` fails the handshake before any
/// request byte is sent: the client's whole output is the greeting.
pub proof fn lemma_bad_method_reply_sends_nothing_more(
    dest: DestinationView,
    pending: Seq<u8>,
    method_reply: Seq<u8>,
    connect_reply: Seq<u8>,
)
    requires
        method_reply != seq![5u8, 0u8],
    ensures
        spec_client_bytes(dest, pending, method_reply, connect_reply) == spec_greeting(),
{
}

/// After a successful handshake the pending early data appears verbatim,
/// in order, directly after the handshake bytes — and never before the
/// CONNECT reply came back good.
pub proof fn lemma_early_data_after_handshake(
    dest: DestinationView,
    pending: Seq<u8>,
    method_reply: Seq<u8>,
    connect_reply: Seq<u8>,
)
    requires
        spec_method_reply_ok(method_reply),
        spec_connect_reply_ok(connect_reply),
    ensures
        spec_client_bytes(dest, pending, method_reply, connect_reply) == spec_greeting()
            + spec_request(dest) + pending,
        spec_client_bytes(dest, pending, method_reply, connect_reply).skip(
            spec_greeting().len() + spec_request(dest).len() as int,
        ) == pending,
{
    let head = spec_greeting() + spec_request(dest);
    assert((head + pending).skip(head.len() as int) =~= pending);
}

/// SNI refinement end to end: when the peeked bytes are a ClientHello
/// carrying a usable hostname, the destination becomes that domain with
/// its port kept, and — the peeked bytes being the pending data — the
/// upstream socket sees, after a successful handshake for the refined
/// destination, exactly those bytes, unmodified and in order.
pub proof fn lemma_refinement_forwards_sniffed_bytes(
    dest: DestinationView,
    data: Seq<u8>,
    name: Seq<u8>,
    connect_reply: Seq<u8>,
)
    requires
        crate::tls::spec_parse_client_hello(data) == Some(Some(name)),
        vstd::utf8::valid_utf8(name),
        name.len() <= 255,
        spec_connect_reply_ok(connect_reply),
    ensures
        crate::client::spec_refined_dest(dest, data) == (DestinationView {
            host: AddressView::Domain(name),
            port: dest.port,
        }),
        spec_client_bytes(
            crate::client::spec_refined_dest(dest, data),
            data,
            seq![5u8, 0u8],
            connect_reply,
        ) == spec_greeting() + spec_request(crate::client::spec_refined_dest(dest, data)) + data,
{
    lemma_early_data_after_handshake(
        crate::client::spec_refined_dest(dest, data),
        data,
        seq![5u8, 0u8],
        connect_reply,
    );
}

/// Appends the CONNECT request for `dest` to `buf`.
pub fn build_request(buf: &mut Vec<u8>, dest: &Destination)
    requires
        dest.wf(),
    ensures
        final(buf)@ == old(buf)@ + spec_request(dest@),
{
    buf.push(5);
    buf.push(1);
    buf.push(0);
    match &dest.host {
        Address::Ip(ip) => {
            match ip {
                IpAddress::V4(x) => {
                    wire::push_be(buf, *x as u128, 4);
                }
                IpAddress::V6(x) => {
                    buf.push(4);
                    wire::push_be(buf, *x, 16);
                }
            }
        }
        Address::Domain(name) => {
            buf.push(3);
            buf.push(name.len() as u8);
            let ghost before = buf@;
            let mut k: usize = 0;
            while k < name.len()
                invariant
                    k <= name@.len(),
                    buf@ == before + name@.subrange(0, k as int),
                decreases name@.len() - k,
            {
                buf.push(name[k]);
                proof {
                    assert(buf@ =~= before + name@.subrange(0, k + 1));
                }
                k = k + 1;
            }
            proof {
                assert(name@.subrange(0, name@.len() as int) =~= name@);
            }
        }
    }
    buf.push((dest.port / 256) as u8);
    buf.push((dest.port % 256) as u8);
    proof {
        assert(final(buf)@ =~= old(buf)@ + spec_request(dest@));
    }
}

/// Where the outbound exchange stands.
#[derive(Clone, Copy, PartialEq, Eq, Structural, Debug)]
pub enum HandshakePhase {
    /// Nothing sent yet; the greeting is owed.
    Greeting,
    /// Greeting sent; the two-byte method reply is awaited.
    AwaitMethodReply,
    /// Request sent; the ten-byte CONNECT reply is awaited.
    AwaitConnectReply,
    /// Handshake complete; the upstream socket is ready for relay.
    Done,
    /// The server's reply violated the protocol; the connection is dead.
    Failed,
}

/// The outbound handshake machine.  The application sends what each step
/// returns, reads the reply the next step asks for, and hands it back.
pub struct Handshake {
    dest: Destination,
    pending: Option<Vec<u8>>,
    phase: HandshakePhase,
}

impl Handshake {
    /// The phase the machine is in.
    pub closed spec fn phase_spec(self) -> HandshakePhase {
        self.phase
    }

    /// The destination the request is built for.
    pub closed spec fn dest_spec(self) -> DestinationView {
        self.dest@
    }

    /// The early data to flush after the handshake; empty when none.
    pub closed spec fn pending_spec(self) -> Seq<u8> {
        match self.pending {
            Some(p) => p@,
            None => Seq::empty(),
        }
    }

    pub closed spec fn wf(self) -> bool {
        self.dest.wf()
    }

    /// Starts a handshake toward `dest`, carrying `pending` early data.
    pub fn new(dest: Destination, pending: Option<Vec<u8>>) -> (h: Handshake)
        requires
            dest.wf(),
        ensures
            h.phase_spec() == HandshakePhase::Greeting,
            h.dest_spec() == dest@,
            h.pending_spec() == (match pending {
                Some(p) => p@,
                None => Seq::<u8>::empty(),
            }),
            h.wf(),
    {
        Handshake { dest, pending, phase: HandshakePhase::Greeting }
    }

    /// The phase, for the driving loop.
    pub fn phase(&self) -> (p: HandshakePhase)
        ensures
            p == self.phase_spec(),
    {
        self.phase
    }

    /// First step: the greeting bytes to send.  The machine then awaits
    /// the server's two-byte method reply.
    pub fn greeting(&mut self) -> (out: Vec<u8>)
        requires
            old(self).phase_spec() == HandshakePhase::Greeting,
        ensures
            out@ == spec_greeting(),
            final(self).phase_spec() == HandshakePhase::AwaitMethodReply,
            final(self).dest_spec() == old(self).dest_spec(),
            final(self).pending_spec() == old(self).pending_spec(),
            final(self).wf() == old(self).wf(),
    {
        self.phase = HandshakePhase::AwaitMethodReply;
        let mut v: Vec<u8> = Vec::new();
        v.push(5);
        v.push(1);
        v.push(0);
        proof {
            assert(v@ =~= spec_greeting());
        }
        v
    }

    /// Second step: checks the method reply.  Exactly when it is
    /// `[5, 0]`, the CONNECT request bytes come back to be sent; any
    /// other reply fails the handshake, and no request is ever produced.
    pub fn on_method_reply(&mut self, reply: &[u8]) -> (r: Result<Vec<u8>, Error>)
        requires
            old(self).phase_spec() == HandshakePhase::AwaitMethodReply,
            old(self).wf(),
        ensures
            r is Ok <==> spec_method_reply_ok(reply@),
            (match r {
                Ok(req) => req@ == spec_request(old(self).dest_spec()) && final(self).phase_spec()
                    == HandshakePhase::AwaitConnectReply,
                Err(e) => e.kind == ErrorKind::Other && final(self).phase_spec()
                    == HandshakePhase::Failed,
            }),
            final(self).dest_spec() == old(self).dest_spec(),
            final(self).pending_spec() == old(self).pending_spec(),
            final(self).wf() == old(self).wf(),
    {
        if reply.len() == 2 && reply[0] == 5 && reply[1] == 0 {
            proof {
                assert(reply@ =~= seq![5u8, 0u8]);
            }
            self.phase = HandshakePhase::AwaitConnectReply;
            let mut req: Vec<u8> = Vec::new();
            build_request(&mut req, &self.dest);
            proof {
                assert(req@ =~= spec_request(self.dest@));
            }
            Ok(req)
        } else {
            proof {
                if reply@ == seq![5u8, 0u8] {
                    assert(reply@.len() == 2 && reply@[0] == 5 && reply@[1] == 0);
                }
            }
            self.phase = HandshakePhase::Failed;
            Err(Error { kind: ErrorKind::Other, message: "unexpected method reply from server" })
        }
    }

    /// Last step: checks the CONNECT reply.  Exactly when it reports
    /// success, the handshake is done and the pending early data comes
    /// back, to be written to the upstream socket now — only after the
    /// handshake, so it is never read as protocol bytes.
    pub fn on_connect_reply(&mut self, reply: &[u8]) -> (r: Result<Option<Vec<u8>>, Error>)
        requires
            old(self).phase_spec() == HandshakePhase::AwaitConnectReply,
        ensures
            r is Ok <==> spec_connect_reply_ok(reply@),
            (match r {
                Ok(p) => final(self).phase_spec() == HandshakePhase::Done && (match p {
                    Some(v) => v@ == old(self).pending_spec(),
                    None => old(self).pending_spec() == Seq::<u8>::empty(),
                }),
                Err(e) => e.kind == ErrorKind::Other && final(self).phase_spec()
                    == HandshakePhase::Failed,
            }),
            final(self).dest_spec() == old(self).dest_spec(),
            final(self).wf() == old(self).wf(),
    {
        if reply.len() == 10 && reply[0] == 5 && reply[1] == 0 {
            self.phase = HandshakePhase::Done;
            let pending = self.pending.take();
            Ok(pending)
        } else {
            self.phase = HandshakePhase::Failed;
            Err(Error { kind: ErrorKind::Other, message: "unexpected reply from server" })
        }
    }
}

} // verus!
