use sexos::dns::dns_source3_try_parse_and_cache;
use sexos::netproto::{
    build_ascii_peek, build_dns_query_frame_source3, build_hex_peek, find_crlf, http_get_build,
    parse_http_status_line,
};
use sexos::sexnet::{pack_chunk, DnsEntry, SexnetServer, VpnState, WifiState};

fn dns_response(txid: u16, flags: u16, ancount: u16) -> Vec<u8> {
    let mut dns = Vec::new();
    dns.extend_from_slice(&txid.to_be_bytes());
    dns.extend_from_slice(&flags.to_be_bytes());
    dns.extend_from_slice(&1u16.to_be_bytes());
    dns.extend_from_slice(&ancount.to_be_bytes());
    dns.extend_from_slice(&[0, 0, 0, 0]);
    for label in ["example", "com"] {
        dns.push(label.len() as u8);
        dns.extend_from_slice(label.as_bytes());
    }
    dns.push(0);
    dns.extend_from_slice(&[0, 1, 0, 1]);
    for _ in 0..ancount {
        dns.extend_from_slice(&[0xC0, 0x0C, 0, 1, 0, 1]);
        dns.extend_from_slice(&300u32.to_be_bytes());
        dns.extend_from_slice(&4u16.to_be_bytes());
        dns.extend_from_slice(&[93, 184, 216, 34]);
    }
    let mut pkt = vec![0u8; 12];
    pkt.extend_from_slice(&[0x08, 0x00]);
    let mut ip = vec![0x45, 0, 0, 0, 0, 0, 0, 0, 64, 17, 0, 0, 10, 0, 2, 3, 10, 0, 2, 15];
    let total = (20 + 8 + dns.len()) as u16;
    ip[2..4].copy_from_slice(&total.to_be_bytes());
    pkt.extend_from_slice(&ip);
    pkt.extend_from_slice(&53u16.to_be_bytes());
    pkt.extend_from_slice(&49152u16.to_be_bytes());
    pkt.extend_from_slice(&((8 + dns.len()) as u16).to_be_bytes());
    pkt.extend_from_slice(&[0, 0]);
    pkt.extend_from_slice(&dns);
    pkt
}

fn empty_cache() -> Vec<DnsEntry> {
    vec![DnsEntry { ip: 0, valid: 0, ttl: 0 }; 4]
}

#[test]
fn dns_response_is_cached() {
    let pkt = dns_response(0x1234, 0x8180, 1);
    let mut cache = empty_cache();
    assert_eq!(dns_source3_try_parse_and_cache(&pkt, pkt.len(), &mut cache), 1);
    assert_eq!(cache[0], DnsEntry { ip: 0x5DB8_D822, valid: 1, ttl: 300 });
    assert_eq!(cache[1].valid, 0);
}

#[test]
fn dns_rejections() {
    let mut cache = empty_cache();
    let pkt = dns_response(0x9999, 0x8180, 1);
    assert_eq!(dns_source3_try_parse_and_cache(&pkt, pkt.len(), &mut cache), 0);
    let pkt = dns_response(0x1234, 0x0100, 1);
    assert_eq!(dns_source3_try_parse_and_cache(&pkt, pkt.len(), &mut cache), 0);
    let pkt = dns_response(0x1234, 0x8183, 1);
    assert_eq!(dns_source3_try_parse_and_cache(&pkt, pkt.len(), &mut cache), 0);
    assert_eq!(dns_source3_try_parse_and_cache(&pkt, 40, &mut cache), 0);
    assert!(cache.iter().all(|e| e.valid == 0));
    // a truncated answer is rejected
    let pkt = dns_response(0x1234, 0x8180, 1);
    assert_eq!(dns_source3_try_parse_and_cache(&pkt, pkt.len() - 3, &mut cache), 0);
}

#[test]
fn dns_query_frame_bytes() {
    let mut out = [0xFFu8; 71];
    assert_eq!(build_dns_query_frame_source3(&mut out), 71);
    assert_eq!(&out[12..14], &[0x08, 0x00]);
    assert_eq!(out[14], 0x45);
    assert_eq!(&out[24..26], &[0x62, 0x9C]);
    assert_eq!(&out[26..30], &[10, 0, 2, 15]);
    assert_eq!(&out[30..34], &[10, 0, 2, 3]);
    assert_eq!(&out[42..44], &[0x12, 0x34]);
    assert_eq!(&out[54..62], b"\x07example");
}

#[test]
fn crlf_and_peeks() {
    let b = b"ab\r\ncd";
    assert_eq!(find_crlf(b, 6), 2);
    assert_eq!(find_crlf(b, 3), 3);
    let mut out = [0u8; 8];
    assert_eq!(build_hex_peek(&[0x0A, 0xFF, 0x10], 3, &mut out), 8);
    assert_eq!(&out, b"0A FF 10");
    let mut small = [0u8; 4];
    assert_eq!(build_hex_peek(&[0x0A, 0xFF, 0x10], 3, &mut small), 3);
    assert_eq!(&small[..3], b"0A ");
    let mut a = [0u8; 5];
    assert_eq!(build_ascii_peek(b"hi\x01\x7f!", 5, &mut a), 5);
    assert_eq!(&a, b"hi..!");
}

#[test]
fn status_line_parsing() {
    let line = b"HTTP/1.1 200 OK\r\n";
    assert_eq!(parse_http_status_line(line, line.len()), (200, 15, "HTTP/1.1", ""));
    let line = b"HTTP/1.0 404\r\n";
    assert_eq!(parse_http_status_line(line, line.len()), (404, 12, "HTTP/1.0", ""));
    assert_eq!(parse_http_status_line(b"", 0).3, "empty");
    assert_eq!(parse_http_status_line(b"HTTP/1.1 200 OK", 15).3, "missing_line_ending");
    assert_eq!(parse_http_status_line(b"HTTP/2.0 200 OK\r\n", 17).3, "bad_http_prefix");
    assert_eq!(parse_http_status_line(b"HTTP/1.2 200 OK\r\n", 17).3, "unsupported_http_version");
    assert_eq!(parse_http_status_line(b"HTTP/1.1 2x0 OK\r\n", 17).3, "status_digits_invalid");
    assert_eq!(parse_http_status_line(b"HTTP/1.1 200XOK\r\n", 17).3, "missing_reason_separator");
    assert_eq!(parse_http_status_line(b"HTTP/1.1\r\n", 10).3, "status_line_too_short");
}

#[test]
fn get_request_text() {
    let r = http_get_build(b"example.com", b"/");
    assert_eq!(
        r,
        b"GET / HTTP/1.1\r\nHost: example.com\r\nConnection: close\r\nUser-Agent: sexnet/phase-i\r\n\r\n".to_vec()
    );
    assert!(http_get_build(&[b'a'; 200], b"/").is_empty());
}

#[test]
fn server_calls() {
    let mut s = SexnetServer::new();
    assert_eq!(s.handle_call(0x204, 0, 0), 2);
    assert_eq!(s.handle_call(0x202, 1, 8), 0);
    assert_eq!(s.state.wifi, WifiState::Connected);
    assert_eq!(s.handle_call(0x206, 0, 0), 0xC0A8_0164);
    assert_eq!(s.handle_call(0x204, 0, 0), 0);
    assert_eq!(s.state.vpn, VpnState::Up);
    assert_eq!(s.handle_call(0x200, 0, 0), (300u64 << 16) | 3);
    assert_eq!(s.handle_call(0x201, 1, 10), 3);
    assert_eq!(s.handle_call(0x201, 0, 10), u64::MAX);
    assert_eq!(s.handle_call(0x202, 1, 33), 1);
    assert_eq!(s.handle_call(0x203, 0, 0), 0);
    assert_eq!(s.handle_call(0x200, 0, 0), 2);
    assert_eq!(s.handle_call(0x999, 0, 0), u64::MAX);
    // the default body is served in little-endian chunks
    assert_eq!(s.handle_call(0x200, 0x209, 0), 19);
    assert_eq!(s.handle_call(0x200, 0x20A, 0), u64::from_le_bytes(*b"Hello Se"));
    assert_eq!(s.handle_call(0x200, 0x20A, 3), u64::MAX);
}

#[test]
fn dns_resolve_uses_cache() {
    let mut s = SexnetServer::new();
    assert_eq!(s.handle_call(0x20B, 1, 0), 0);
    let pkt = dns_response(0x1234, 0x8180, 1);
    assert_eq!(dns_source3_try_parse_and_cache(&pkt, pkt.len(), &mut s.dns), 1);
    assert_eq!(s.handle_call(0x20B, 1, 0), 0x5DB8_D822);
    assert_eq!(s.handle_call(0x20B, 2, 0), 0);
}

#[test]
fn status_text_and_chunks() {
    let mut s = SexnetServer::new();
    s.proof_build(200, 19, 1);
    assert_eq!(s.proof, b"HTTP 200 rx=19b mock".to_vec());
    assert_eq!(s.handle_call(0x200, 0x207, 0), 20);
    assert_eq!(s.handle_call(0x200, 0x208, 2), u64::from_le_bytes([b'm', b'o', b'c', b'k', 0, 0, 0, 0]));
    s.proof_build(4_000_000_000, 65535, 9);
    assert_eq!(s.proof, b"HTTP 4000000000 rx=65535b unset".to_vec());
    s.proof_build(4_000_000_000, 65535, 2);
    assert_eq!(s.proof, b"HTTP 4000000000 rx=65535b real".to_vec());
    assert_eq!(pack_chunk(b"ab", 0), 0x6261);
    assert_eq!(pack_chunk(b"ab", 1), u64::MAX);
}
