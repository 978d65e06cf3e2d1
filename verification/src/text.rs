//! Decimal rendering of unsigned numbers as ASCII text.
use vstd::prelude::*;
use vstd::utf8::{decode_utf8, pop_first_scalar, valid_utf8};

verus! {

/// The decimal digits of `n`, most significant first, without leading zeros.
pub open spec fn dec(n: nat) -> Seq<u8>
    decreases n,
{
    if n < 10 {
        seq![(48 + n) as u8]
    } else {
        dec(n / 10).push((48 + n % 10) as u8)
    }
}

/// Appends the decimal digits of `n` to `out`.
pub fn push_decimal(out: &mut Vec<u8>, n: u64)
    ensures
        final(out)@ == old(out)@ + dec(n as nat),
    decreases n,
{
    if n >= 10 {
        push_decimal(out, n / 10);
    }
    let d: u8 = (n % 10) as u8;
    out.push(48u8 + d);
    proof {
        if n >= 10 {
            assert(old(out)@ + dec(n as nat) == old(out)@ + dec((n / 10) as nat) + seq![
                (48 + n % 10) as u8,
            ]);
        }
    }
}

/// The lowercase hexadecimal digit of `d` (below 16).
pub open spec fn hex_digit(d: nat) -> u8 {
    if d < 10 {
        (48 + d) as u8
    } else {
        (87 + d) as u8
    }
}

/// The lowercase hexadecimal digits of `n`, without leading zeros.
pub open spec fn hex(n: nat) -> Seq<u8>
    decreases n,
{
    if n < 16 {
        seq![hex_digit(n)]
    } else {
        hex(n / 16).push(hex_digit(n % 16))
    }
}

/// Appends the lowercase hexadecimal digits of `n` to `out`.
pub fn push_hex(out: &mut Vec<u8>, n: u64)
    ensures
        final(out)@ == old(out)@ + hex(n as nat),
    decreases n,
{
    if n >= 16 {
        push_hex(out, n / 16);
    }
    let d: u8 = (n % 16) as u8;
    if d < 10 {
        out.push(48u8 + d);
    } else {
        out.push(87u8 + d);
    }
    proof {
        if n >= 16 {
            assert(old(out)@ + hex(n as nat) == old(out)@ + hex((n / 16) as nat) + seq![
                hex_digit((n % 16) as nat),
            ]);
        }
    }
}

/// All bytes of `s` are ASCII.
pub open spec fn is_ascii_bytes(s: Seq<u8>) -> bool {
    forall|i: int| 0 <= i < s.len() ==> s[i] < 0x80
}

/// ASCII bytes are UTF-8, one character per byte.
pub proof fn lemma_ascii_utf8(s: Seq<u8>)
    requires
        is_ascii_bytes(s),
    ensures
        valid_utf8(s),
        decode_utf8(s) == s.map_values(|b: u8| b as char),
    decreases s.len(),
{
    if s.len() > 0 {
        let rest = s.subrange(1, s.len() as int);
        assert(is_ascii_bytes(rest));
        lemma_ascii_utf8(rest);
        let b = s[0];
        assert(b & 0x7f == b) by (bit_vector)
            requires
                b < 0x80,
        ;
        assert(pop_first_scalar(s) == rest);
        assert(decode_utf8(s) =~= s.map_values(|b: u8| b as char));
    }
}

/// Calls `String::from_utf8`, which turns well-formed UTF-8 bytes into the text they
/// encode; the caller guarantees the bytes are UTF-8.
#[verifier::external_body]
pub(crate) fn string_from_utf8(bytes: Vec<u8>) -> (s: String)
    requires
        valid_utf8(bytes@),
    ensures
        s@ == decode_utf8(bytes@),
{
    String::from_utf8(bytes).unwrap_or_default()
}

} // verus!
