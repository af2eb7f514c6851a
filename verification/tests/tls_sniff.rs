use ooproxy::tls::parse_client_hello;

/// Builds a well-formed ClientHello record.  `sni` adds a server_name
/// extension with that hostname; `extra_ext` prepends an unrelated
/// extension so the scan has to skip over it.
fn build_hello(sni: Option<&[u8]>, extra_ext: bool) -> Vec<u8> {
    let mut extensions: Vec<u8> = Vec::new();
    if extra_ext {
        // supported_versions-style filler: type 0x002B, 3 bytes of data.
        extensions.extend_from_slice(&[0x00, 0x2B, 0x00, 0x03, 0x02, 0x03, 0x04]);
    }
    if let Some(name) = sni {
        let nlen = name.len() as u16;
        let list_len = 3 + nlen;
        let ext_len = 2 + list_len;
        extensions.extend_from_slice(&[0x00, 0x00]);
        extensions.extend_from_slice(&ext_len.to_be_bytes());
        extensions.extend_from_slice(&list_len.to_be_bytes());
        extensions.push(0x00);
        extensions.extend_from_slice(&nlen.to_be_bytes());
        extensions.extend_from_slice(name);
    }

    let mut body: Vec<u8> = Vec::new();
    body.extend_from_slice(&[0x03, 0x03]); // client version
    body.extend_from_slice(&[0xAB; 32]); // random
    body.push(0); // empty session id
    body.extend_from_slice(&[0x00, 0x04, 0x13, 0x01, 0x13, 0x02]); // two cipher suites
    body.extend_from_slice(&[0x01, 0x00]); // one compression method: null
    body.extend_from_slice(&(extensions.len() as u16).to_be_bytes());
    body.extend_from_slice(&extensions);

    let mut hello: Vec<u8> = Vec::new();
    hello.push(0x16); // handshake record
    hello.extend_from_slice(&[0x03, 0x01]); // record version
    hello.extend_from_slice(&((body.len() + 4) as u16).to_be_bytes());
    hello.push(0x01); // ClientHello
    hello.push(0);
    hello.extend_from_slice(&(body.len() as u16).to_be_bytes());
    hello.extend_from_slice(&body);
    hello
}

#[test]
fn sni_extracted() {
    let hello = build_hello(Some(b"example.com"), false);
    let p = parse_client_hello(&hello).unwrap();
    assert_eq!(p.server_name, Some(b"example.com".to_vec()));
}

#[test]
fn sni_extracted_after_other_extension() {
    let hello = build_hello(Some(b"proxy.test.example"), true);
    let p = parse_client_hello(&hello).unwrap();
    assert_eq!(p.server_name, Some(b"proxy.test.example".to_vec()));
}

#[test]
fn absent_sni_is_success_without_name() {
    let hello = build_hello(None, true);
    let p = parse_client_hello(&hello).unwrap();
    assert_eq!(p.server_name, None);

    // No extensions block at all is also a well-formed hello.
    let hello = build_hello(None, false);
    let p = parse_client_hello(&hello).unwrap();
    assert_eq!(p.server_name, None);
}

#[test]
fn sni_extracted_with_nonempty_skip_fields() {
    // A hello whose session id, cipher suites, and compression methods
    // all carry data that the sniffer must step over.
    let name = b"host.example";
    let nlen = name.len() as u16;
    let mut extensions: Vec<u8> = Vec::new();
    extensions.extend_from_slice(&[0x00, 0x00]);
    extensions.extend_from_slice(&(nlen + 5).to_be_bytes());
    extensions.extend_from_slice(&(nlen + 3).to_be_bytes());
    extensions.push(0x00);
    extensions.extend_from_slice(&nlen.to_be_bytes());
    extensions.extend_from_slice(name);

    let mut body: Vec<u8> = Vec::new();
    body.extend_from_slice(&[0x03, 0x03]);
    body.extend_from_slice(&[0x42; 32]);
    body.push(8);
    body.extend_from_slice(&[0x11; 8]); // session id
    body.extend_from_slice(&[0x00, 0x06]);
    body.extend_from_slice(&[0x13, 0x01, 0x13, 0x02, 0x13, 0x03]); // cipher suites
    body.push(2);
    body.extend_from_slice(&[0x01, 0x00]); // compression methods
    body.extend_from_slice(&(extensions.len() as u16).to_be_bytes());
    body.extend_from_slice(&extensions);

    let mut hello: Vec<u8> = vec![0x16, 0x03, 0x01];
    hello.extend_from_slice(&((body.len() + 4) as u16).to_be_bytes());
    hello.push(0x01);
    hello.push(0);
    hello.extend_from_slice(&(body.len() as u16).to_be_bytes());
    hello.extend_from_slice(&body);

    let p = parse_client_hello(&hello).unwrap();
    assert_eq!(p.server_name, Some(name.to_vec()));
}

#[test]
fn truncated_extensions_length_is_error() {
    let mut hello = build_hello(Some(b"example.com"), false);
    // Find the extensions-length field: it sits right after the fixed
    // fields (5 record + 4 handshake + 2 version + 32 random + 1 sid +
    // 6 ciphers-with-length + 2 compression) and declare more bytes
    // than the hello holds.
    let ext_len_at = 5 + 4 + 2 + 32 + 1 + 6 + 2;
    hello[ext_len_at] = 0xFF;
    hello[ext_len_at + 1] = 0xFF;
    assert!(parse_client_hello(&hello).is_err());
}

#[test]
fn truncated_extension_entry_is_error() {
    let mut hello = build_hello(Some(b"example.com"), false);
    // Overstate the server_name extension's own length.
    let ext_at = 5 + 4 + 2 + 32 + 1 + 6 + 2 + 2;
    hello[ext_at + 2] = 0xFF;
    hello[ext_at + 3] = 0xFF;
    assert!(parse_client_hello(&hello).is_err());
}

#[test]
fn truncated_buffer_is_error() {
    let hello = build_hello(Some(b"example.com"), false);
    // Every strict prefix that cuts into the declared record is an error.
    for cut in [0, 3, 5, 9, 20, hello.len() - 1] {
        assert!(parse_client_hello(&hello[..cut]).is_err(), "prefix of {} bytes", cut);
    }
}

#[test]
fn non_tls_bytes_are_error() {
    assert!(parse_client_hello(b"GET / HTTP/1.1\r\n").is_err());
    assert!(parse_client_hello(&[]).is_err());
    // Right record type but not a ClientHello handshake.
    let mut hello = build_hello(None, false);
    hello[5] = 0x02;
    assert!(parse_client_hello(&hello).is_err());
}

#[test]
fn entry_list_skips_unknown_entry_types() {
    // A server_name list whose first entry has an unknown type; the
    // hostname entry follows it.
    let name = b"example.org";
    let nlen = name.len() as u16;
    let mut entries: Vec<u8> = Vec::new();
    entries.push(0x07);
    entries.extend_from_slice(&2u16.to_be_bytes());
    entries.extend_from_slice(&[0xAA, 0xBB]);
    entries.push(0x00);
    entries.extend_from_slice(&nlen.to_be_bytes());
    entries.extend_from_slice(name);

    let list_len = entries.len() as u16;
    let ext_len = 2 + list_len;
    let mut extensions: Vec<u8> = Vec::new();
    extensions.extend_from_slice(&[0x00, 0x00]);
    extensions.extend_from_slice(&ext_len.to_be_bytes());
    extensions.extend_from_slice(&list_len.to_be_bytes());
    extensions.extend_from_slice(&entries);

    let mut body: Vec<u8> = Vec::new();
    body.extend_from_slice(&[0x03, 0x03]);
    body.extend_from_slice(&[0x00; 32]);
    body.push(0);
    body.extend_from_slice(&[0x00, 0x02, 0x13, 0x01]);
    body.extend_from_slice(&[0x01, 0x00]);
    body.extend_from_slice(&(extensions.len() as u16).to_be_bytes());
    body.extend_from_slice(&extensions);

    let mut hello: Vec<u8> = Vec::new();
    hello.push(0x16);
    hello.extend_from_slice(&[0x03, 0x01]);
    hello.extend_from_slice(&((body.len() + 4) as u16).to_be_bytes());
    hello.push(0x01);
    hello.push(0);
    hello.extend_from_slice(&(body.len() as u16).to_be_bytes());
    hello.extend_from_slice(&body);

    let p = parse_client_hello(&hello).unwrap();
    assert_eq!(p.server_name, Some(name.to_vec()));
}

#[test]
fn peek_reads_length_prefixed_field() {
    let data = [0x00, 0x03, 0xA, 0xB, 0xC, 0xD];
    let field = ooproxy::tls::peek(&data, 0, 2).unwrap();
    assert_eq!(field, &[0xA, 0xB, 0xC]);
    assert!(ooproxy::tls::peek(&data, 0, 3).is_err()); // 0x0003A0B exceeds the buffer
    assert!(ooproxy::tls::peek(&data, 5, 2).is_err()); // prefix itself truncated
    let rest = ooproxy::tls::truncate_before(&data, 0, 2).unwrap();
    assert_eq!(rest, &[0xD]);
}
