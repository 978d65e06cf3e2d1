use sexos::frames::{
    ring_base, ring_programmed, NicOwnership, NIC_OWNER_HAL_DIAG, NIC_OWNER_SEXNET_FULL, NIC_OWNER_SEXNET_RX,
    NIC_OWNER_SEXNET_TX,
};
use sexos::frames::{
    append_response, arp_reply, classify_frame, diag_body, gateway_mac, http_body, l2_probe_frame, nic_mac,
    parse_arp_request, parse_ipv4, ping_reply, response_segment, tx_descriptor, udp_echo_reply,
    udp_selftest_frame, ArpCache, ArpPeer, EtherClass, Ipv4Reject, TcpConn, TcpEvent, TcpReject, TcpState,
    UdpReject,
};

const NIC: [u8; 6] = [0x52, 0x54, 0x00, 0x12, 0x34, 0x56];
const PEER: [u8; 6] = [0x52, 0x55, 0x0A, 0x00, 0x02, 0x02];

fn ones_sum(init: u32, b: &[u8]) -> u16 {
    let mut s = init;
    let mut i = 0;
    while i + 1 < b.len() {
        s += ((b[i] as u32) << 8) | b[i + 1] as u32;
        i += 2;
    }
    if b.len() % 2 == 1 {
        s += (b[b.len() - 1] as u32) << 8;
    }
    while s >> 16 != 0 {
        s = (s & 0xFFFF) + (s >> 16);
    }
    s as u16
}

/// An IPv4 frame from 10.0.2.2 (at PEER) to the guest carrying `payload` under `proto`.
fn ipv4_frame(proto: u8, payload: &[u8]) -> Vec<u8> {
    let mut f = Vec::new();
    f.extend_from_slice(&NIC);
    f.extend_from_slice(&PEER);
    f.extend_from_slice(&[0x08, 0x00]);
    let total = (20 + payload.len()) as u16;
    f.extend_from_slice(&[0x45, 0, (total >> 8) as u8, total as u8, 0, 9, 0x40, 0, 64, proto, 0, 0]);
    f.extend_from_slice(&[10, 0, 2, 2, 10, 0, 2, 15]);
    let ck = !ones_sum(0, &f[14..34]);
    f[24] = (ck >> 8) as u8;
    f[25] = ck as u8;
    f.extend_from_slice(payload);
    f
}

fn pseudo(f: &[u8], proto: u32, len: usize) -> u32 {
    let w = |i: usize| ((f[i] as u32) << 8) | f[i + 1] as u32;
    w(26) + w(28) + w(30) + w(32) + proto + len as u32
}

#[test]
fn mac_and_classes() {
    assert_eq!(nic_mac(0x1200_5452, 0x8000_5634), NIC);
    let mut f = vec![0u8; 60];
    f[12] = 0x08;
    f[13] = 0x06;
    assert_eq!(classify_frame(&f), EtherClass::Arp);
    f[13] = 0x00;
    assert_eq!(classify_frame(&f), EtherClass::Ipv4);
    f[12] = 0x86;
    f[13] = 0xDD;
    assert_eq!(classify_frame(&f), EtherClass::Other(0x86DD));
}

#[test]
fn arp_request_and_reply() {
    let mut req = vec![0xFFu8; 6];
    req.extend_from_slice(&PEER);
    req.extend_from_slice(&[0x08, 0x06, 0, 1, 0x08, 0, 6, 4, 0, 1]);
    req.extend_from_slice(&PEER);
    req.extend_from_slice(&[10, 0, 2, 2]);
    req.extend_from_slice(&[0; 6]);
    req.extend_from_slice(&[10, 0, 2, 15]);
    req.resize(60, 0);
    let peer = parse_arp_request(&req).unwrap();
    assert_eq!(peer, ArpPeer { mac: PEER, ip: [10, 0, 2, 2] });
    let reply = arp_reply(&peer, &NIC);
    assert_eq!(reply.len(), 60);
    assert_eq!(&reply[0..6], &PEER);
    assert_eq!(&reply[6..12], &NIC);
    assert_eq!(&reply[12..22], &[0x08, 0x06, 0, 1, 0x08, 0, 6, 4, 0, 2]);
    assert_eq!(&reply[22..28], &NIC);
    assert_eq!(&reply[28..32], &[10, 0, 2, 15]);
    assert_eq!(&reply[32..38], &PEER);
    assert_eq!(&reply[38..42], &[10, 0, 2, 2]);
    assert!(reply[42..].iter().all(|b| *b == 0));
    let mut other = req.clone();
    other[41] = 16;
    assert!(parse_arp_request(&other).is_none());
    let mut reply_op = req.clone();
    reply_op[21] = 2;
    assert!(parse_arp_request(&reply_op).is_none());
}

#[test]
fn gateway_choice() {
    let mut cache = ArpCache::new();
    assert!(!cache.valid);
    assert_eq!(gateway_mac(&cache, &[10, 0, 2, 2]), PEER);
    assert_eq!(gateway_mac(&cache, &[8, 8, 8, 8]), [0xFF; 6]);
    cache.learn(&ArpPeer { mac: [1, 2, 3, 4, 5, 6], ip: [10, 0, 2, 2] });
    assert_eq!(gateway_mac(&cache, &[8, 8, 8, 8]), [1, 2, 3, 4, 5, 6]);
}

#[test]
fn ipv4_acceptance() {
    let f = ipv4_frame(1, &[8, 0, 0, 0, 0, 1, 0, 1]);
    let p = parse_ipv4(&f, f.len()).unwrap();
    assert_eq!((p.total_len, p.proto, p.ttl, p.src), (28, 1, 64, [10, 0, 2, 2]));
    assert_eq!(parse_ipv4(&f, 33), Err(Ipv4Reject::Short));
    assert_eq!(parse_ipv4(&f, 41), Err(Ipv4Reject::TotalLenMax));
    let mut bad = f.clone();
    bad[14] = 0x46;
    assert_eq!(parse_ipv4(&bad, bad.len()), Err(Ipv4Reject::Ihl));
    bad[14] = 0x65;
    assert_eq!(parse_ipv4(&bad, bad.len()), Err(Ipv4Reject::Version));
    let mut bad = f.clone();
    bad[25] ^= 1;
    assert_eq!(parse_ipv4(&bad, bad.len()), Err(Ipv4Reject::Checksum));
    let mut bad = f.clone();
    bad[33] = 16;
    assert_eq!(parse_ipv4(&bad, bad.len()), Err(Ipv4Reject::Dst));
    let mut bad = f.clone();
    bad[21] = 8;
    assert_eq!(parse_ipv4(&bad, bad.len()), Err(Ipv4Reject::Fragmented));
    let mut bad = f.clone();
    bad[16] = 0;
    bad[17] = 19;
    assert_eq!(parse_ipv4(&bad, bad.len()), Err(Ipv4Reject::TotalLenMin));
}

#[test]
fn ping_echo() {
    let mut msg = vec![8u8, 0, 0, 0, 0x12, 0x34, 0x00, 0x07, b'p', b'i', b'n'];
    let ck = !ones_sum(0, &msg);
    msg[2] = (ck >> 8) as u8;
    msg[3] = ck as u8;
    let f = ipv4_frame(1, &msg);
    let p = parse_ipv4(&f, f.len()).unwrap();
    let r = ping_reply(&f, &p, &NIC).unwrap();
    assert_eq!(r.len(), 60);
    assert_eq!(&r[0..6], &PEER);
    assert_eq!(&r[6..12], &NIC);
    assert_eq!(&r[16..18], &[0, 31]);
    assert_eq!(r[23], 1);
    assert_eq!(&r[26..34], &[10, 0, 2, 15, 10, 0, 2, 2]);
    assert_eq!(ones_sum(0, &r[14..34]), 0xFFFF);
    assert_eq!(r[34], 0);
    assert_eq!(&r[38..45], &[0x12, 0x34, 0x00, 0x07, b'p', b'i', b'n']);
    assert_eq!(ones_sum(0, &r[34..45]), 0xFFFF);
    assert!(r[45..].iter().all(|b| *b == 0));
    let mut not_echo = msg.clone();
    not_echo[0] = 0;
    let g = ipv4_frame(1, &not_echo);
    let q = parse_ipv4(&g, g.len()).unwrap();
    assert!(ping_reply(&g, &q, &NIC).is_none());
}

#[test]
fn udp_echo() {
    let f = udp_selftest_frame();
    assert_eq!(f.len(), 63);
    assert_eq!(&f[42..], b"HELLO_SEXNET_UDP_ECHO");
    let p = parse_ipv4(&f, f.len()).unwrap();
    assert_eq!((p.total_len, p.proto), (49, 17));
    let r = udp_echo_reply(&f, &p, &NIC).unwrap();
    assert_eq!(r.len(), 63);
    assert_eq!(&r[0..6], &[0xFE, 0x56, 0x3A, 0x6C, 0x97, 0x32]);
    assert_eq!(&r[34..36], &7777u16.to_be_bytes());
    assert_eq!(&r[36..38], &12345u16.to_be_bytes());
    assert_eq!(&r[38..42], &[0, 29, 0, 0]);
    assert_eq!(&r[42..], b"HELLO_SEXNET_UDP_ECHO");
    assert_eq!(ones_sum(0, &r[14..34]), 0xFFFF);
    let mut short = f.clone();
    short[39] = 7;
    assert_eq!(udp_echo_reply(&short, &p, &NIC), Err(UdpReject::LenTooSmall));
    let mut long = f.clone();
    long[39] = 30;
    assert_eq!(udp_echo_reply(&long, &p, &NIC), Err(UdpReject::LenExceedsPayload));
    let mut summed = f.clone();
    let ck = !ones_sum(pseudo(&summed, 17, 29), &summed[34..63]);
    summed[40] = (ck >> 8) as u8;
    summed[41] = ck as u8;
    assert!(udp_echo_reply(&summed, &p, &NIC).is_ok());
    summed[41] ^= 0x10;
    assert_eq!(udp_echo_reply(&summed, &p, &NIC), Err(UdpReject::Checksum));
}

fn segment(flags: u8, seq: u32, ack: u32, sport: u16, dport: u16, data: &[u8]) -> Vec<u8> {
    let mut t = Vec::new();
    t.extend_from_slice(&sport.to_be_bytes());
    t.extend_from_slice(&dport.to_be_bytes());
    t.extend_from_slice(&seq.to_be_bytes());
    t.extend_from_slice(&ack.to_be_bytes());
    t.extend_from_slice(&[0x50, flags, 0xFF, 0xFF, 0, 0, 0, 0]);
    t.extend_from_slice(data);
    let mut f = ipv4_frame(6, &t);
    let len = t.len();
    let ck = !ones_sum(pseudo(&f, 6, len), &f[34..34 + len]);
    f[50] = (ck >> 8) as u8;
    f[51] = ck as u8;
    f
}

#[test]
fn tcp_handshake() {
    let mut c = TcpConn::new();
    assert_eq!(c.state, TcpState::Closed);
    let syn = c.syn_frame(&PEER, &NIC);
    assert_eq!(syn.len(), 60);
    assert_eq!(&syn[0..6], &PEER);
    assert_eq!(&syn[30..34], &[10, 0, 2, 2]);
    assert_eq!(&syn[34..38], &[0x1E, 0x61, 0x46, 0xA1]);
    assert_eq!(&syn[38..42], &42u32.to_be_bytes());
    assert_eq!(&syn[46..50], &[0x50, 0x02, 0xFF, 0xFF]);
    assert_eq!(ones_sum(0, &syn[14..34]), 0xFFFF);
    assert_eq!(ones_sum(pseudo(&syn, 6, 20), &syn[34..54]), 0xFFFF);
    let synack = segment(0x12, 1000, 43, 18081, 7777, &[]);
    let p = parse_ipv4(&synack, synack.len()).unwrap();
    assert_eq!(c.on_segment(&synack, &p), TcpEvent::Rejected(TcpReject::NotAwaitingResponse));
    c.syn_sent();
    let wrong_port = segment(0x12, 1000, 43, 18081, 7778, &[]);
    let q = parse_ipv4(&wrong_port, wrong_port.len()).unwrap();
    assert_eq!(c.on_segment(&wrong_port, &q), TcpEvent::Rejected(TcpReject::DstPortMismatch));
    let mut corrupt = synack.clone();
    corrupt[51] ^= 1;
    assert_eq!(c.on_segment(&corrupt, &p), TcpEvent::Rejected(TcpReject::Checksum));
    assert_eq!(c.on_segment(&synack, &p), TcpEvent::SynAck { ack_ok: true });
    assert_eq!(c.state, TcpState::Established);
    assert_eq!(c.remote_seq, 1000);
    let ack = c.ack_frame(&PEER, &NIC, &p.src);
    assert_eq!(&ack[18..20], &[0, 1]);
    assert_eq!(&ack[38..42], &43u32.to_be_bytes());
    assert_eq!(&ack[42..46], &1001u32.to_be_bytes());
    assert_eq!(&ack[46..48], &[0x50, 0x10]);
    assert_eq!(ones_sum(pseudo(&ack, 6, 20), &ack[34..54]), 0xFFFF);
    let get = b"GET / HTTP/1.1\r\nHost: example.com\r\n\r\n";
    let push = c.payload_frame(&PEER, &NIC, get);
    assert_eq!(push.len(), 54 + get.len());
    assert_eq!(&push[46..48], &[0x50, 0x18]);
    assert_eq!(&push[54..], get);
    assert_eq!(ones_sum(pseudo(&push, 6, 20 + get.len()), &push[34..]), 0xFFFF);
    let rst = segment(0x14, 1001, 43, 18081, 7777, &[]);
    let r = parse_ipv4(&rst, rst.len()).unwrap();
    assert_eq!(c.on_segment(&rst, &r), TcpEvent::Reset);
    assert_eq!(c.state, TcpState::FailedRst);
}

#[test]
fn http_reassembly() {
    let c = TcpConn::new();
    let data = b"HTTP/1.1 200 OK\r\nContent-Length: 13\r\n\r\nHello SexOS!\n";
    let mut f = segment(0x18, 1001, 80, 18081, 7777, data);
    f.resize(f.len() + 4, 0);
    let (off, len) = response_segment(&f, f.len(), &c).unwrap();
    assert_eq!((off, len), (54, data.len()));
    let no_ack = segment(0x08, 1001, 80, 18081, 7777, data);
    assert!(response_segment(&no_ack, no_ack.len(), &c).is_none());
    let empty = segment(0x10, 1001, 80, 18081, 7777, &[]);
    assert!(response_segment(&empty, empty.len(), &c).is_none());
    let other = segment(0x18, 1001, 80, 80, 7777, data);
    assert!(response_segment(&other, other.len(), &c).is_none());
    assert!(response_segment(&f, 60, &c).is_none());
    let mut resp = Vec::new();
    assert!(!append_response(&mut resp, &f, off, len));
    assert_eq!(resp, data.to_vec());
    let body = http_body(&resp, 17);
    assert_eq!(body, b"Hello SexOS!\n".to_vec());
    assert_eq!(http_body(b"HTTP/1.1 200 OK\r\n\r\nhi", 0), b"hi".to_vec());
    assert_eq!(http_body(b"HTTP/1.1 200 OK\r\nhi", 17), b"hi".to_vec());
    assert_eq!(http_body(b"HTTP/1.1 200 OK\r\nhi", 0), Vec::<u8>::new());
    let big = vec![b'x'; 600];
    let mut resp = vec![b'y'; 500];
    assert!(append_response(&mut resp, &big, 0, 600));
    assert_eq!(resp.len(), 512);
    let long = [b"A\r\n\r\n".as_slice(), &[b'b'; 300]].concat();
    assert_eq!(http_body(&long, 0).len(), 256);
}

#[test]
fn descriptors_and_probes() {
    let d = tx_descriptor(0x1234_5678_9ABC, 60);
    assert_eq!(d, vec![0xBC, 0x9A, 0x78, 0x56, 0x34, 0x12, 0, 0, 60, 0, 0, 0x0B, 0, 0, 0, 0]);
    let l2 = l2_probe_frame();
    assert_eq!(l2.len(), 60);
    assert_eq!(&l2[0..6], &[0xFF; 6]);
    assert_eq!(&l2[6..14], &[0x52, 0x54, 0x00, 0x12, 0x34, 0x56, 0x88, 0xB5]);
    assert!(l2[14..].iter().all(|b| *b == 0x42));
    let words = [u64::from_le_bytes(*b"Hi\r\nther"), u64::from_le_bytes(*b"e!\n\0\0\0\0\0")];
    assert_eq!(diag_body(&words, 11), b"Hi  there! ".to_vec());
    assert_eq!(diag_body(&words, 2), b"Hi".to_vec());
    let many = vec![0x4141_4141_4141_4141u64; 8];
    assert_eq!(diag_body(&many, 1000).len(), 64);
}

#[test]
fn nic_ownership() {
    assert_eq!(ring_base(0x1_2345_6000), (0x2345_6000, 1));
    assert!(ring_programmed(0x2345_6000, 0x0400_001A, 0x1_2345_6000));
    assert!(!ring_programmed(0x2345_6000, 0x0400_0018, 0x1_2345_6000));
    assert!(!ring_programmed(0x2345_7000, 0x0400_001A, 0x1_2345_6000));
    let mut o = NicOwnership::new();
    assert_eq!((o.rx, o.tx), (NIC_OWNER_HAL_DIAG, NIC_OWNER_HAL_DIAG));
    assert!(!o.full());
    assert!(!o.claim_rx(false));
    assert_eq!(o.rx, NIC_OWNER_HAL_DIAG);
    assert!(o.claim_rx(true));
    assert_eq!(o.rx, NIC_OWNER_SEXNET_RX);
    assert!(!o.claim_tx(true, false));
    assert_eq!(o.tx, NIC_OWNER_HAL_DIAG);
    assert!(o.claim_tx(true, true));
    assert_eq!((o.rx, o.tx), (NIC_OWNER_SEXNET_FULL, NIC_OWNER_SEXNET_FULL));
    assert!(o.full());
    let mut only_tx = NicOwnership::new();
    assert!(only_tx.claim_tx(true, true));
    assert_eq!((only_tx.rx, only_tx.tx), (NIC_OWNER_HAL_DIAG, NIC_OWNER_SEXNET_TX));
    assert!(!only_tx.full());
}
