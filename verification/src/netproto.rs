//! sexnet protocol helpers: the DNS query frame, CRLF search, hex and ASCII peeks of
//! received bytes, the HTTP status-line parser and the GET request builder.
use vstd::prelude::*;
use vstd::string::StringSliceAdditionalSpecFns;

verus! {

pub const SEXNET_GUEST_IPV4: [u8; 4] = [10, 0, 2, 15];
pub const SEXNET_DNS_SERVER_IPV4: [u8; 4] = [10, 0, 2, 3];
pub const SEXNET_DNS_SERVER_PORT: u16 = 53;
pub const SEXNET_DNS_SRC_PORT: u16 = 49152;
pub const SEXNET_DNS_TXID: u16 = 0x1234;
pub const SEXNET_DNS_QUERY_FRAME_LEN: usize = 71;
pub const HTTP_GET_BUF_CAP: usize = 192;
pub const MAX_STATUS_LINE: usize = 128;

/// A CRLF pair starts at `i` within the first `len` bytes.
pub open spec fn crlf_at(b: Seq<u8>, len: int, i: int) -> bool {
    0 <= i && i + 1 < len && b[i] == 13 && b[i + 1] == 10
}

/// Position of the first CRLF within the first `len` bytes, or `len` when there is none.
pub fn find_crlf(buf: &[u8], len: usize) -> (r: usize)
    requires
        len <= buf@.len(),
    ensures
        r <= len,
        r < len ==> crlf_at(buf@, len as int, r as int),
        forall|j: int| 0 <= j < r ==> !crlf_at(buf@, len as int, j),
        r == len ==> forall|j: int| !crlf_at(buf@, len as int, j),
{
    let mut i: usize = 0;
    while len > 0 && i < len - 1
        invariant
            len <= buf@.len(),
            i <= len,
            forall|j: int| 0 <= j < i ==> !crlf_at(buf@, len as int, j),
        decreases len - i,
    {
        if buf[i] == 13u8 && buf[i + 1] == 10u8 {
            return i;
        }
        i += 1;
    }
    len
}

/// Upper-case hexadecimal digit for a nibble.
pub open spec fn hex_digit(n: u8) -> u8 {
    if n < 10 {
        (48 + n) as u8
    } else {
        (55 + n) as u8
    }
}

/// Character `p` of the hex rendering of `bytes`: two digits per byte, a space between
/// bytes ("0A FF 10").
pub open spec fn hex_text_at(bytes: Seq<u8>, p: int) -> u8 {
    let k = p / 3;
    if p % 3 == 0 {
        hex_digit(bytes[k] / 16)
    } else if p % 3 == 1 {
        hex_digit(bytes[k] % 16)
    } else {
        32
    }
}

/// Length of the hex rendering of `n` bytes.
pub open spec fn hex_text_len(n: int) -> int {
    if n == 0 {
        0
    } else {
        3 * n - 1
    }
}

/// How much of the rendering fits in `cap` bytes without splitting a digit pair.
pub open spec fn hex_peek_len(n: int, cap: int) -> int {
    let fit = if cap % 3 == 1 {
        cap - 1
    } else {
        cap
    };
    if hex_text_len(n) <= fit {
        hex_text_len(n)
    } else {
        fit
    }
}

fn hex_char(n: u8) -> (c: u8)
    requires
        n < 16,
    ensures
        c == hex_digit(n),
{
    if n < 10 {
        48u8 + n
    } else {
        65u8 + (n - 10)
    }
}

/// Render the first `len` bytes as spaced hex into `out`, stopping before a digit pair
/// or separator that would not fit. Returns the number of bytes written.
pub fn build_hex_peek(buf: &[u8], len: usize, out: &mut [u8]) -> (o: usize)
    requires
        len <= buf@.len(),
    ensures
        o == hex_peek_len(len as int, old(out)@.len() as int),
        final(out)@.len() == old(out)@.len(),
        forall|p: int| 0 <= p < o ==> #[trigger] final(out)@[p] == hex_text_at(buf@, p),
        forall|p: int| o <= p < old(out)@.len() ==> #[trigger] final(out)@[p] == old(out)@[p],
{
    let cap = out.len();
    let mut o: usize = 0;
    let mut i: usize = 0;
    while i < len
        invariant
            len <= buf@.len(),
            cap == out@.len(),
            out@.len() == old(out)@.len(),
            i <= len,
            i == 0 || i < len,
            o == 3 * i,
            o <= cap,
            i > 0 ==> 3 * i - 1 <= hex_peek_len(len as int, cap as int),
            i < len ==> o <= hex_peek_len(len as int, cap as int),
            forall|p: int| 0 <= p < o ==> #[trigger] out@[p] == hex_text_at(buf@, p),
            forall|p: int| o <= p < cap ==> #[trigger] out@[p] == old(out)@[p],
        decreases len - i,
    {
        if cap - o < 2 {
            assert(hex_peek_len(len as int, cap as int) == o);
            return o;
        }
        let b = buf[i];
        assert(b >> 4u8 == b / 16 && b & 0x0F == b % 16) by (bit_vector);
        out[o] = hex_char(b >> 4u8);
        out[o + 1] = hex_char(b & 0x0F);
        o += 2;
        if i + 1 < len {
            if cap - o < 1 {
                assert(hex_peek_len(len as int, cap as int) == o);
                return o;
            }
            out[o] = 32u8;
            o += 1;
        } else {
            assert(hex_peek_len(len as int, cap as int) == o);
            return o;
        }
        i += 1;
    }
    o
}

/// Printable ASCII stays, everything else becomes '.'.
pub open spec fn ascii_visible(b: u8) -> u8 {
    if 0x20 <= b <= 0x7e {
        b
    } else {
        46
    }
}

/// Render the first `len` bytes as printable ASCII into `out`; returns the count written.
pub fn build_ascii_peek(buf: &[u8], len: usize, out: &mut [u8]) -> (o: usize)
    requires
        len <= buf@.len(),
    ensures
        o as int == if len <= old(out)@.len() { len as int } else { old(out)@.len() as int },
        final(out)@.len() == old(out)@.len(),
        forall|p: int| 0 <= p < o ==> #[trigger] final(out)@[p] == ascii_visible(buf@[p]),
        forall|p: int| o <= p < old(out)@.len() ==> #[trigger] final(out)@[p] == old(out)@[p],
{
    let mut o: usize = 0;
    let mut i: usize = 0;
    while i < len && o < out.len()
        invariant
            len <= buf@.len(),
            out@.len() == old(out)@.len(),
            i <= len,
            o == i,
            o <= out@.len(),
            forall|p: int| 0 <= p < o ==> #[trigger] out@[p] == ascii_visible(buf@[p]),
            forall|p: int| o <= p < out@.len() ==> #[trigger] out@[p] == old(out)@[p],
        decreases len - i,
    {
        let b = buf[i];
        out[o] = if 0x20 <= b && b <= 0x7e {
            b
        } else {
            46u8
        };
        o += 1;
        i += 1;
    }
    o
}


/// Append all of `s` to `v`.
pub fn push_all(v: &mut Vec<u8>, s: &[u8])
    ensures
        final(v)@ == old(v)@ + s@,
{
    let mut i: usize = 0;
    while i < s.len()
        invariant
            i <= s@.len(),
            v@ == old(v)@ + s@.subrange(0, i as int),
        decreases s@.len() - i,
    {
        v.push(s[i]);
        i += 1;
        assert(v@ =~= old(v)@ + s@.subrange(0, i as int));
    }
    assert(s@.subrange(0, s@.len() as int) =~= s@);
}

/// Index of the first CR or LF among the first `cap` bytes at or after `i`, else `cap`.
pub open spec fn first_eol_from(b: Seq<u8>, cap: int, i: int) -> int
    decreases cap - i,
{
    if i < 0 || i >= cap {
        cap
    } else if b[i] == 10 || b[i] == 13 {
        i
    } else {
        first_eol_from(b, cap, i + 1)
    }
}

proof fn lemma_first_eol_bounds(b: Seq<u8>, cap: int, i: int)
    requires
        0 <= i <= cap,
    ensures
        i <= first_eol_from(b, cap, i) <= cap,
    decreases cap - i,
{
    if i < cap && !(b[i] == 10 || b[i] == 13) {
        lemma_first_eol_bounds(b, cap, i + 1);
    }
}

pub open spec fn is_digit(c: u8) -> bool {
    48 <= c <= 57
}

/// Outcome of parsing the status line of the first `len` received bytes:
/// (status code, end of the line, HTTP version, error reason; empty when accepted).
pub open spec fn spec_status_line(b: Seq<u8>, len: int) -> (u16, int, Seq<char>, Seq<char>) {
    if len == 0 {
        (0, 0, ""@, "empty"@)
    } else {
        let cap = if len < 128 {
            len
        } else {
            128
        };
        let le = first_eol_from(b, cap, 0);
        if le == cap {
            if len >= 128 {
                (0, le, ""@, "status_line_too_long"@)
            } else {
                (0, le, ""@, "missing_line_ending"@)
            }
        } else if le < 12 {
            (0, le, ""@, "status_line_too_short"@)
        } else if !(b[0] == 72 && b[1] == 84 && b[2] == 84 && b[3] == 80 && b[4] == 47 && b[5] == 49
            && b[6] == 46) {
            (0, le, ""@, "bad_http_prefix"@)
        } else if b[7] != 48 && b[7] != 49 {
            (0, le, ""@, "unsupported_http_version"@)
        } else if b[8] != 32 {
            (0, le, ""@, "missing_status_space"@)
        } else if !(is_digit(b[9]) && is_digit(b[10]) && is_digit(b[11])) {
            (0, le, ""@, "status_digits_invalid"@)
        } else if le > 12 && b[12] != 32 {
            (0, le, ""@, "missing_reason_separator"@)
        } else {
            (
                ((b[9] - 48) * 100 + (b[10] - 48) * 10 + (b[11] - 48)) as u16,
                le,
                if b[7] == 48 {
                    "HTTP/1.0"@
                } else {
                    "HTTP/1.1"@
                },
                ""@,
            )
        }
    }
}

/// Parse an HTTP/1.x status line from the first `len` received bytes. Returns the
/// status code, the position of the line end, the version and an error reason (empty
/// when the line is accepted).
pub fn parse_http_status_line(buf: &[u8], len: usize) -> (r: (u16, usize, &'static str, &'static str))
    requires
        len <= buf@.len(),
    ensures
        (r.0, r.1 as int, r.2@, r.3@) == spec_status_line(buf@, len as int),
{
    if len == 0 {
        return (0, 0, "", "empty");
    }
    let scan_cap = if len < MAX_STATUS_LINE {
        len
    } else {
        MAX_STATUS_LINE
    };
    let mut line_end = scan_cap;
    let mut i: usize = 0;
    while i < scan_cap
        invariant_except_break
            line_end == scan_cap,
        invariant
            scan_cap <= len <= buf@.len(),
            i <= scan_cap,
            first_eol_from(buf@, scan_cap as int, 0) == first_eol_from(buf@, scan_cap as int, i as int),
        ensures
            line_end == first_eol_from(buf@, scan_cap as int, 0),
        decreases scan_cap - i,
    {
        let b = buf[i];
        if b == 10 || b == 13 {
            line_end = i;
            break;
        }
        i += 1;
    }
    proof {
        lemma_first_eol_bounds(buf@, scan_cap as int, 0);
    }
    if line_end == scan_cap {
        if len >= MAX_STATUS_LINE {
            return (0, line_end, "", "status_line_too_long");
        }
        return (0, line_end, "", "missing_line_ending");
    }
    if line_end < 12 {
        return (0, line_end, "", "status_line_too_short");
    }
    if buf[0] != 72 || buf[1] != 84 || buf[2] != 84 || buf[3] != 80 || buf[4] != 47 || buf[5] != 49
        || buf[6] != 46 {
        return (0, line_end, "", "bad_http_prefix");
    }
    let version = if buf[7] == 48 {
        "HTTP/1.0"
    } else if buf[7] == 49 {
        "HTTP/1.1"
    } else {
        return (0, line_end, "", "unsupported_http_version");
    };
    if buf[8] != 32 {
        return (0, line_end, "", "missing_status_space");
    }
    let d0 = buf[9];
    let d1 = buf[10];
    let d2 = buf[11];
    if !(48 <= d0 && d0 <= 57) || !(48 <= d1 && d1 <= 57) || !(48 <= d2 && d2 <= 57) {
        return (0, line_end, "", "status_digits_invalid");
    }
    if line_end > 12 && buf[12] != 32 {
        return (0, line_end, "", "missing_reason_separator");
    }
    let status = ((d0 - 48) as u16) * 100 + ((d1 - 48) as u16) * 10 + ((d2 - 48) as u16);
    (status, line_end, version, "")
}

/// The GET request sent for `path` on `host`.
pub open spec fn http_get_request(host: Seq<u8>, path: Seq<u8>) -> Seq<u8> {
    "GET ".spec_bytes() + path + " HTTP/1.1\r\nHost: ".spec_bytes() + host
        + "\r\nConnection: close\r\nUser-Agent: sexnet/phase-i\r\n\r\n".spec_bytes()
}

/// Build the GET request for `path` on `host`; empty when it would not fit the
/// 192-byte request buffer.
pub fn http_get_build(host: &[u8], path: &[u8]) -> (r: Vec<u8>)
    ensures
        http_get_request(host@, path@).len() > 192 ==> r@.len() == 0,
        http_get_request(host@, path@).len() <= 192 ==> r@ == http_get_request(host@, path@),
{
    let p0 = "GET ".as_bytes();
    let p1 = " HTTP/1.1\r\nHost: ".as_bytes();
    let p2 = "\r\nConnection: close\r\nUser-Agent: sexnet/phase-i\r\n\r\n".as_bytes();
    let mut out: Vec<u8> = Vec::new();
    if p0.len() > HTTP_GET_BUF_CAP || path.len() > HTTP_GET_BUF_CAP || p1.len() > HTTP_GET_BUF_CAP
        || host.len() > HTTP_GET_BUF_CAP || p2.len() > HTTP_GET_BUF_CAP {
        return out;
    }
    let needed = p0.len() + path.len() + p1.len() + host.len() + p2.len();
    if needed > HTTP_GET_BUF_CAP {
        return out;
    }
    push_all(&mut out, p0);
    push_all(&mut out, path);
    push_all(&mut out, p1);
    push_all(&mut out, host);
    push_all(&mut out, p2);
    out
}


/// The DNS query frame (Ethernet + IPv4 + UDP + DNS "example.com A IN") with its IPv4
/// header checksum still zero.
pub open spec fn dns_query_template() -> Seq<u8> {
    seq![0u8, 0u8, 0u8, 0u8, 0u8, 0u8, 0u8, 0u8, 0u8, 0u8, 0u8, 0u8, 8u8, 0u8, 69u8, 0u8, 0u8, 57u8, 0u8, 7u8, 0u8, 0u8, 64u8, 17u8, 0u8, 0u8, 10u8, 0u8, 2u8, 15u8, 10u8, 0u8, 2u8, 3u8, 192u8, 0u8, 0u8, 53u8, 0u8, 37u8, 0u8, 0u8, 18u8, 52u8, 1u8, 0u8, 0u8, 1u8, 0u8, 0u8, 0u8, 0u8, 0u8, 0u8, 7u8, 101u8, 120u8, 97u8, 109u8, 112u8, 108u8, 101u8, 3u8, 99u8, 111u8, 109u8, 0u8, 0u8, 1u8, 0u8, 1u8]
}

/// Sum of the first `n` big-endian 16-bit words of `h`.
pub open spec fn be_word_sum(h: Seq<u8>, n: nat) -> nat
    decreases n,
{
    if n == 0 {
        0
    } else {
        be_word_sum(h, (n - 1) as nat) + (h[2 * (n - 1)] as nat) * 256 + h[2 * (n - 1) + 1] as nat
    }
}

/// End-around carry folding of a one's-complement sum.
pub open spec fn fold_carries(s: u32) -> u32
    decreases s,
{
    if s >> 16u32 != 0 {
        proof {
            assert(s >> 16u32 != 0 ==> (s & 0xFFFF) + (s >> 16u32) < s) by (bit_vector);
        }
        fold_carries(((s & 0xFFFF) + (s >> 16u32)) as u32)
    } else {
        s
    }
}

/// Internet checksum of a 20-byte IPv4 header.
pub open spec fn ipv4_checksum(h: Seq<u8>) -> u16 {
    !(fold_carries(be_word_sum(h, 10) as u32) as u16)
}

/// The complete DNS query frame with its IPv4 header checksum filled in.
pub open spec fn dns_query_frame() -> Seq<u8> {
    let t = dns_query_template();
    let ck = ipv4_checksum(t.subrange(14, 34));
    t.update(24, ((ck >> 8u16) & 0xFF) as u8).update(25, (ck & 0xFF) as u8)
}

/// Fill `out` with the DNS query frame for "example.com" and return its length.
pub fn build_dns_query_frame_source3(out: &mut [u8]) -> (n: usize)
    requires
        old(out)@.len() == SEXNET_DNS_QUERY_FRAME_LEN,
    ensures
        n == SEXNET_DNS_QUERY_FRAME_LEN,
        final(out)@ == dns_query_frame(),
{
    let mut i: usize = 0;
    while i < SEXNET_DNS_QUERY_FRAME_LEN
        invariant
            out@.len() == 71,
            i <= 71,
            forall|j: int| 0 <= j < i ==> #[trigger] out@[j] == 0,
        decreases 71 - i,
    {
        out[i] = 0;
        i += 1;
    }
    out[12] = 0x08;
    out[13] = 0x00;
    out[14] = 0x45;
    out[15] = 0x00;
    out[16] = 0x00;
    out[17] = 57;
    out[18] = 0x00;
    out[19] = 0x07;
    out[20] = 0x00;
    out[21] = 0x00;
    out[22] = 64;
    out[23] = 17;
    out[26] = 10;
    out[27] = 0;
    out[28] = 2;
    out[29] = 15;
    out[30] = 10;
    out[31] = 0;
    out[32] = 2;
    out[33] = 3;
    out[34] = 0xC0;
    out[35] = 0x00;
    out[36] = 0x00;
    out[37] = 53;
    out[38] = 0x00;
    out[39] = 37;
    out[40] = 0x00;
    out[41] = 0x00;
    out[42] = 0x12;
    out[43] = 0x34;
    out[44] = 0x01;
    out[45] = 0x00;
    out[46] = 0x00;
    out[47] = 0x01;
    out[48] = 0x00;
    out[49] = 0x00;
    out[50] = 0x00;
    out[51] = 0x00;
    out[52] = 0x00;
    out[53] = 0x00;
    out[54] = 0x07;
    out[55] = 101;
    out[56] = 120;
    out[57] = 97;
    out[58] = 109;
    out[59] = 112;
    out[60] = 108;
    out[61] = 101;
    out[62] = 0x03;
    out[63] = 99;
    out[64] = 111;
    out[65] = 109;
    out[66] = 0x00;
    out[67] = 0x00;
    out[68] = 0x01;
    out[69] = 0x00;
    out[70] = 0x01;
    assert(out@ =~= dns_query_template());
    let ghost t = out@;
    let mut ip_sum: u32 = 0;
    let mut w: usize = 0;
    while w < 10
        invariant
            out@ == t,
            t == dns_query_template(),
            w <= 10,
            ip_sum == be_word_sum(t.subrange(14, 34), w as nat),
            ip_sum <= 0xFFFF * w,
        decreases 10 - w,
    {
        let off = 14 + w * 2;
        let hi = out[off] as u16;
        let lo = out[off + 1] as u16;
        assert((hi << 8u16) | lo == hi * 256 + lo) by (bit_vector)
            requires
                hi < 256,
                lo < 256,
        ;
        ip_sum += ((hi << 8u16) | lo) as u32;
        w += 1;
    }
    while (ip_sum >> 16u32) != 0
        invariant
            fold_carries(ip_sum) == fold_carries(be_word_sum(t.subrange(14, 34), 10) as u32),
        decreases ip_sum,
    {
        assert((ip_sum >> 16u32) != 0 ==> (ip_sum & 0xFFFF) + (ip_sum >> 16u32) < ip_sum) by (bit_vector);
        ip_sum = (ip_sum & 0xFFFF) + (ip_sum >> 16u32);
    }
    let ip_ck = !(ip_sum as u16);
    assert(ip_ck == ipv4_checksum(t.subrange(14, 34)));
    out[24] = ((ip_ck >> 8u16) & 0xFF) as u8;
    out[25] = (ip_ck & 0xFF) as u8;
    assert(out@ =~= dns_query_frame());
    SEXNET_DNS_QUERY_FRAME_LEN
}

} // verus!
