use ooproxy::client::{
    method_reply, parse_greeting, parse_request, request_success_reply, Address, Client,
    Destination, GreetingStatus, IpAddress, RequestStatus, SocketAddress,
};
use ooproxy::config::Config;
use ooproxy::socks5::Handshake;
use ooproxy::stream::{pipe, StreamWithBuffer, SHARED_BUF_SIZE};

#[test]
fn end_to_end_socks_client_to_upstream() {
    // The inbound client speaks SOCKS5 to the proxy: [5,1,0].
    let mut inbound: Vec<u8> = vec![0x05, 0x01, 0x00];
    let mut to_client: Vec<u8> = Vec::new(); // what the proxy sends back

    let consumed = match parse_greeting(&inbound) {
        GreetingStatus::Accept { consumed } => consumed,
        other => panic!("greeting must be accepted, got {:?}", other),
    };
    to_client.extend_from_slice(&method_reply());
    inbound.drain(..consumed);
    assert_eq!(to_client, vec![0x05, 0x00]);

    // The client asks to CONNECT to example.com:443.
    inbound.extend_from_slice(&[0x05, 0x01, 0x00, 0x03, 0x0B]);
    inbound.extend_from_slice(b"example.com");
    inbound.extend_from_slice(&[0x01, 0xBB]);
    let dest = match parse_request(&inbound) {
        RequestStatus::Accept { dest, consumed } => {
            assert_eq!(consumed, inbound.len());
            dest
        }
        other => panic!("request must be accepted, got {:?}", other),
    };
    to_client.extend_from_slice(&request_success_reply());
    assert_eq!(to_client[2..], [0x05, 0x00, 0x00, 0x01, 0, 0, 0, 0, 0, 0]);

    let src = SocketAddress { ip: IpAddress::V4(0x0A000002), port: 39999 };
    let client = Client::new(src, 1080, dest);
    assert!(client.pending_data.is_none());

    // The proxy handshakes with its upstream SOCKS5 server.
    let mut upstream: Vec<u8> = Vec::new();
    let mut h = Handshake::new(client.dest, client.pending_data);
    upstream.extend_from_slice(&h.greeting());
    let req = h.on_method_reply(&[0x05, 0x00]).unwrap();
    upstream.extend_from_slice(&req);
    let flush = h.on_connect_reply(&[0x05, 0x00, 0x00, 0x01, 0, 0, 0, 0, 0, 0]).unwrap();
    assert!(flush.is_none());

    // The greeting, then the CONNECT request rebuilt for the same name.
    let mut expected = vec![0x05, 0x01, 0x00];
    expected.extend_from_slice(&[0x05, 0x01, 0x00, 0x03, 0x0B]);
    expected.extend_from_slice(b"example.com");
    expected.extend_from_slice(&[0x01, 0xBB]);
    assert_eq!(upstream, expected);

    // Bytes the client writes after its handshake appear verbatim, in
    // order, on the upstream connection after the upstream handshake.
    let payload = b"subsequent client bytes, forwarded as they are".to_vec();
    let mut shared = vec![0u8; SHARED_BUF_SIZE];
    let mut p = pipe(StreamWithBuffer::new(), StreamWithBuffer::new());
    shared[..payload.len()].copy_from_slice(&payload);
    p.left.note_shared_read(&shared, payload.len());
    while !p.left.is_empty() {
        let k = 11.min(p.left.cap - p.left.pos);
        upstream.extend_from_slice(&shared[p.left.pos..p.left.pos + k]);
        p.left.note_shared_write(&shared, k).unwrap();
    }
    assert_eq!(upstream[expected.len()..], payload[..]);
}

#[test]
fn destination_from_endpoint() {
    let s = SocketAddress { ip: IpAddress::V4(0x5DB8D822), port: 443 };
    let d = Destination::from_addr(&s);
    assert_eq!(d.port, 443);
    match d.host {
        Address::Ip(ip) => assert_eq!(ip, IpAddress::V4(0x5DB8D822)),
        _ => panic!("expected an IP destination"),
    }
}

#[test]
fn config_holds_the_three_values() {
    let c = Config {
        socks5_server: SocketAddress { ip: IpAddress::V4(0x7F000001), port: 1080 },
        host: IpAddress::V4(0),
        port: 8443,
    };
    assert_eq!(c.socks5_server.port, 1080);
    assert_eq!(c.port, 8443);
}
