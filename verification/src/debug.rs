//! The sex-debug trace tools: protection-key domains, the trace line format, the
//! violation rules and their fixes, anomaly reports, the register dump of the QEMU
//! monitor, symbol names, and the timeline's scrolling.
use vstd::prelude::*;
use vstd::utf8::{decode_utf8, encode_utf8, valid_utf8};
use vstd::string::StringSliceAdditionalSpecFns;
use crate::ion::{trim, trim_bytes};
use crate::text::{hex, is_ascii_bytes, lemma_ascii_utf8, push_hex, string_from_utf8};

verus! {

// ---------------------------------------------------------------------------
// Domains and trace events
// ---------------------------------------------------------------------------

/// The protection domain a PKRU value belongs to.
#[derive(Debug, Clone, Copy, PartialEq, Eq, Structural)]
pub enum Domain {
    Kernel,
    Linen,
    SexDisplay,
    Unknown(u32),
}

/// PKRU of the linen domain.
pub const LINEN_PKRU: u32 = 0x5555_5554;
/// PKRU of the display server.
pub const SEXDISPLAY_PKRU: u32 = 0xAAAA_AAAA;

pub open spec fn spec_domain(pkru: u32) -> Domain {
    if pkru == 0 {
        Domain::Kernel
    } else if pkru == LINEN_PKRU {
        Domain::Linen
    } else if pkru == SEXDISPLAY_PKRU {
        Domain::SexDisplay
    } else {
        Domain::Unknown(pkru)
    }
}

impl Domain {
    /// The domain whose PKRU value is `pkru`.
    pub fn from_pkru(pkru: u32) -> (d: Domain)
        ensures
            d == spec_domain(pkru),
    {
        if pkru == 0 {
            Domain::Kernel
        } else if pkru == LINEN_PKRU {
            Domain::Linen
        } else if pkru == SEXDISPLAY_PKRU {
            Domain::SexDisplay
        } else {
            Domain::Unknown(pkru)
        }
    }
}

/// One sample of a trace.
#[derive(Debug, Clone)]
pub struct TraceEvent {
    pub tsc: u64,
    pub rip: u64,
    pub pkru: u32,
    pub domain: Domain,
    pub symbol: Option<String>,
}

// ---------------------------------------------------------------------------
// Numbers in text
// ---------------------------------------------------------------------------

/// The value of digit byte `b` in radix 10 or 16, if it is one.
pub open spec fn digit_value(b: u8, radix: nat) -> Option<nat> {
    if 48 <= b <= 57 {
        Some((b - 48) as nat)
    } else if radix == 16 && 97 <= b <= 102 {
        Some((b - 87) as nat)
    } else if radix == 16 && 65 <= b <= 70 {
        Some((b - 55) as nat)
    } else {
        None
    }
}

/// Every byte of `s` is a digit of the radix.
pub open spec fn all_digits(s: Seq<u8>, radix: nat) -> bool {
    forall|i: int| 0 <= i < s.len() ==> (#[trigger] digit_value(s[i], radix)) is Some
}

/// The number the digits `s` write in the radix.
pub open spec fn digits_value(s: Seq<u8>, radix: nat) -> nat
    decreases s.len(),
{
    if s.len() == 0 {
        0
    } else {
        digits_value(s.drop_last(), radix) * radix + match digit_value(s.last(), radix) {
            Some(d) => d,
            None => 0,
        }
    }
}

/// An unsigned number below `max + 1` in the radix: an optional `+`, then at least
/// one digit.
pub open spec fn parse_unsigned(s: Seq<u8>, radix: nat, max: nat) -> Option<nat> {
    let d = if s.len() > 0 && s[0] == 43 {
        s.skip(1)
    } else {
        s
    };
    if d.len() == 0 || !all_digits(d, radix) || digits_value(d, radix) > max {
        None
    } else {
        Some(digits_value(d, radix))
    }
}

proof fn lemma_digits_value_prefix(s: Seq<u8>, radix: nat, k: int)
    requires
        0 <= k <= s.len(),
        radix >= 1,
    ensures
        digits_value(s.take(k), radix) <= digits_value(s, radix),
    decreases s.len() - k,
{
    if k < s.len() {
        lemma_digits_value_prefix(s, radix, k + 1);
        assert(s.take(k + 1).drop_last() == s.take(k));
        let v = digits_value(s.take(k), radix);
        assert(v * radix >= v) by (nonlinear_arith)
            requires
                radix >= 1,
        ;
    } else {
        assert(s.take(k) == s);
    }
}

fn digit_of(b: u8, radix: u64) -> (r: Option<u64>)
    requires
        radix == 10 || radix == 16,
    ensures
        match digit_value(b, radix as nat) {
            Some(d) => r == Some(d as u64),
            None => r is None,
        },
{
    if 48 <= b && b <= 57 {
        Some((b - 48) as u64)
    } else if radix == 16 && 97 <= b && b <= 102 {
        Some((b - 87) as u64)
    } else if radix == 16 && 65 <= b && b <= 70 {
        Some((b - 55) as u64)
    } else {
        None
    }
}

/// The unsigned number `s` writes in radix 10 or 16, if it is one at most `max`.
pub fn parse_unsigned_bytes(s: &[u8], radix: u64, max: u64) -> (r: Option<u64>)
    requires
        radix == 10 || radix == 16,
    ensures
        match parse_unsigned(s@, radix as nat, max as nat) {
            Some(v) => r == Some(v as u64),
            None => r is None,
        },
{
    let start: usize = if s.len() > 0 && s[0] == 43 {
        1
    } else {
        0
    };
    let ghost d = if s@.len() > 0 && s@[0] == 43 {
        s@.skip(1)
    } else {
        s@
    };
    proof {
        assert(d == s@.skip(start as int));
    }
    if start >= s.len() {
        return None;
    }
    let mut acc: u64 = 0;
    let mut i: usize = start;
    while i < s.len()
        invariant
            start <= i <= s@.len(),
            radix == 10 || radix == 16,
            d == s@.skip(start as int),
            d == (if s@.len() > 0 && s@[0] == 43 {
                s@.skip(1)
            } else {
                s@
            }),
            all_digits(d.take(i - start), radix as nat),
            acc == digits_value(d.take(i - start), radix as nat),
            acc <= max,
        decreases s@.len() - i,
    {
        let dv = digit_of(s[i], radix);
        proof {
            assert(d[i - start] == s@[i as int]);
        }
        match dv {
            None => {
                proof {
                    assert(digit_value(d[i - start], radix as nat) is None);
                    assert(!all_digits(d, radix as nat));
                }
                return None;
            },
            Some(v) => {
                proof {
                    let pre = d.take(i - start);
                    let post = d.take(i - start + 1);
                    assert(post.drop_last() == pre);
                    assert(post.last() == s@[i as int]);
                    assert(all_digits(post, radix as nat)) by {
                        assert forall|j: int| 0 <= j < post.len() implies (#[trigger] digit_value(post[j], radix as nat)) is Some by {
                            if j < pre.len() {
                                assert(post[j] == pre[j]);
                            }
                        }
                    }
                }
                match acc.checked_mul(radix) {
                    None => {
                        proof {
                            let post = d.take(i - start + 1);
                            assert(digits_value(post, radix as nat) >= acc * radix);
                            lemma_digits_value_prefix(d, radix as nat, i - start + 1);
                        }
                        return None;
                    },
                    Some(m) => {
                        match m.checked_add(v) {
                            None => {
                                proof {
                                    let post = d.take(i - start + 1);
                                    assert(digits_value(post, radix as nat) == acc * radix + v);
                                    lemma_digits_value_prefix(d, radix as nat, i - start + 1);
                                }
                                return None;
                            },
                            Some(n) => {
                                if n > max {
                                    proof {
                                        let post = d.take(i - start + 1);
                                        assert(digits_value(post, radix as nat) == acc * radix + v);
                                        lemma_digits_value_prefix(d, radix as nat, i - start + 1);
                                    }
                                    return None;
                                }
                                acc = n;
                            },
                        }
                    },
                }
            },
        }
        i += 1;
    }
    proof {
        assert(d.take(i - start) == d);
    }
    Some(acc)
}

/// `s` after every leading `0x` is removed.
pub open spec fn strip_0x(s: Seq<u8>) -> Seq<u8>
    decreases s.len(),
{
    if s.len() >= 2 && s[0] == 48 && s[1] == 120 {
        strip_0x(s.skip(2))
    } else {
        s
    }
}

fn strip_0x_bytes(s: &[u8]) -> (r: Vec<u8>)
    ensures
        r@ == strip_0x(s@),
{
    let mut i: usize = 0;
    proof {
        assert(s@.skip(0) == s@);
    }
    while s.len() - i >= 2 && s[i] == 48 && s[i + 1] == 120
        invariant
            i <= s@.len(),
            strip_0x(s@) == strip_0x(s@.skip(i as int)),
        decreases s@.len() - i,
    {
        proof {
            assert(s@.skip(i as int).skip(2) == s@.skip(i + 2));
        }
        i += 2;
    }
    let mut r: Vec<u8> = Vec::new();
    let mut k: usize = i;
    while k < s.len()
        invariant
            i <= k <= s@.len(),
            r@ == s@.subrange(i as int, k as int),
        decreases s@.len() - k,
    {
        r.push(s[k]);
        k += 1;
    }
    proof {
        assert(r@ == s@.skip(i as int));
    }
    r
}

// ---------------------------------------------------------------------------
// Trace lines
// ---------------------------------------------------------------------------

/// Index of the first comma of `s` at or after `i`, else `s.len()`.
pub open spec fn comma_from(s: Seq<u8>, i: int) -> int
    decreases s.len() - i,
{
    if i < 0 || i >= s.len() {
        s.len() as int
    } else if s[i] == 44 {
        i
    } else {
        comma_from(s, i + 1)
    }
}

proof fn lemma_comma_from(s: Seq<u8>, i: int)
    requires
        0 <= i <= s.len(),
    ensures
        i <= comma_from(s, i) <= s.len(),
    decreases s.len() - i,
{
    if i < s.len() && s[i] != 44 {
        lemma_comma_from(s, i + 1);
    }
}

fn find_comma(s: &[u8], from: usize) -> (r: usize)
    requires
        from <= s@.len(),
    ensures
        r == comma_from(s@, from as int),
{
    let mut i: usize = from;
    while i < s.len() && s[i] != 44
        invariant
            from <= i <= s@.len(),
            comma_from(s@, from as int) == comma_from(s@, i as int),
        decreases s@.len() - i,
    {
        i += 1;
    }
    i
}

/// The first three comma-separated fields of a line, if it has them.
pub open spec fn trace_fields(s: Seq<u8>) -> Option<(Seq<u8>, Seq<u8>, Seq<u8>)> {
    let c1 = comma_from(s, 0);
    if c1 >= s.len() {
        None
    } else {
        let c2 = comma_from(s, c1 + 1);
        if c2 >= s.len() {
            None
        } else {
            let c3 = comma_from(s, c2 + 1);
            Some((s.subrange(0, c1), s.subrange(c1 + 1, c2), s.subrange(c2 + 1, c3)))
        }
    }
}

/// The sample a trace line `tsc,rip,pkru` describes: the time stamp in decimal, the
/// instruction pointer and the PKRU in hexadecimal with optional `0x` prefixes,
/// each field without surrounding whitespace.
pub open spec fn spec_trace_sample(s: Seq<u8>) -> Option<(u64, u64, u32)> {
    match trace_fields(s) {
        None => None,
        Some((f0, f1, f2)) => match (
            parse_unsigned(trim(f0), 10, u64::MAX as nat),
            parse_unsigned(strip_0x(trim(f1)), 16, u64::MAX as nat),
            parse_unsigned(strip_0x(trim(f2)), 16, u32::MAX as nat),
        ) {
            (Some(t), Some(r), Some(p)) => Some((t as u64, r as u64, p as u32)),
            _ => None,
        },
    }
}

fn copy_field(s: &[u8], a: usize, b: usize) -> (r: Vec<u8>)
    requires
        a <= b <= s@.len(),
    ensures
        r@ == s@.subrange(a as int, b as int),
{
    let mut r: Vec<u8> = Vec::new();
    let mut k: usize = a;
    while k < b
        invariant
            a <= k <= b,
            b <= s@.len(),
            r@ == s@.subrange(a as int, k as int),
        decreases b - k,
    {
        r.push(s[k]);
        k += 1;
    }
    r
}

/// The trace event a line `tsc,rip,pkru` describes (fields after the third are
/// ignored), with its domain and no symbol; none when a field is missing or is not
/// a number of its type.
pub fn parse_line(line: &str) -> (r: Option<TraceEvent>)
    ensures
        match spec_trace_sample(line.spec_bytes()) {
            None => r is None,
            Some((t, rip, p)) => r matches Some(e) && e.tsc == t && e.rip == rip && e.pkru == p
                && e.domain == spec_domain(p) && e.symbol is None,
        },
{
    let s = line.as_bytes();
    let c1 = find_comma(s, 0);
    if c1 >= s.len() {
        return None;
    }
    let c2 = find_comma(s, c1 + 1);
    if c2 >= s.len() {
        return None;
    }
    let c3 = find_comma(s, c2 + 1);
    proof {
        lemma_comma_from(s@, 0);
        lemma_comma_from(s@, c1 + 1);
        lemma_comma_from(s@, c2 + 1);
    }
    let f0 = copy_field(s, 0, c1);
    let f1 = copy_field(s, c1 + 1, c2);
    let f2 = copy_field(s, c2 + 1, c3);
    let t0 = trim_bytes(f0.as_slice());
    let t1 = trim_bytes(f1.as_slice());
    let t2 = trim_bytes(f2.as_slice());
    let h1 = strip_0x_bytes(t1.as_slice());
    let h2 = strip_0x_bytes(t2.as_slice());
    let tsc = match parse_unsigned_bytes(t0.as_slice(), 10, u64::MAX) {
        Some(v) => v,
        None => return None,
    };
    let rip = match parse_unsigned_bytes(h1.as_slice(), 16, u64::MAX) {
        Some(v) => v,
        None => return None,
    };
    let pkru = match parse_unsigned_bytes(h2.as_slice(), 16, 0xFFFF_FFFF) {
        Some(v) => v,
        None => return None,
    };
    let pkru32: u32 = pkru as u32;
    Some(TraceEvent { tsc, rip, pkru: pkru32, domain: Domain::from_pkru(pkru32), symbol: None })
}

// ---------------------------------------------------------------------------
// Violation rules
// ---------------------------------------------------------------------------

/// Why a trace went wrong, or that it did not.
#[derive(Debug, Clone, Copy, PartialEq, Eq, Structural)]
pub enum RootCause {
    DomainSwitchWithoutPkruUpdate,
    PkruChangedWithoutDomainTransition,
    UnknownPkruValue,
    NullRip,
    KernelUnderRestrictedPkru,
    EmptyTrace,
    NoViolations,
}

impl RootCause {
    /// How sure the diagnosis is, in hundredths.
    pub fn confidence_hundredths(self) -> (c: u8)
        ensures
            c == (match self {
                RootCause::DomainSwitchWithoutPkruUpdate => 95u8,
                RootCause::PkruChangedWithoutDomainTransition => 85u8,
                RootCause::UnknownPkruValue => 80u8,
                RootCause::NullRip => 99u8,
                RootCause::KernelUnderRestrictedPkru => 97u8,
                RootCause::EmptyTrace => 0u8,
                RootCause::NoViolations => 100u8,
            }),
    {
        match self {
            RootCause::DomainSwitchWithoutPkruUpdate => 95,
            RootCause::PkruChangedWithoutDomainTransition => 85,
            RootCause::UnknownPkruValue => 80,
            RootCause::NullRip => 99,
            RootCause::KernelUnderRestrictedPkru => 97,
            RootCause::EmptyTrace => 0,
            RootCause::NoViolations => 100,
        }
    }

    /// The sentence that states the cause.
    pub fn text(self) -> (t: &'static str)
        ensures
            t@ == (match self {
                RootCause::DomainSwitchWithoutPkruUpdate => "Domain switch without PKRU update"@,
                RootCause::PkruChangedWithoutDomainTransition => "PKRU changed without domain transition"@,
                RootCause::UnknownPkruValue => "Unknown PKRU value observed"@,
                RootCause::NullRip => "Execution jumped to null (RIP=0)"@,
                RootCause::KernelUnderRestrictedPkru => "Kernel executing under restricted PKRU"@,
                RootCause::EmptyTrace => "Empty trace"@,
                RootCause::NoViolations => "No violations found"@,
            }),
    {
        match self {
            RootCause::DomainSwitchWithoutPkruUpdate => "Domain switch without PKRU update",
            RootCause::PkruChangedWithoutDomainTransition => "PKRU changed without domain transition",
            RootCause::UnknownPkruValue => "Unknown PKRU value observed",
            RootCause::NullRip => "Execution jumped to null (RIP=0)",
            RootCause::KernelUnderRestrictedPkru => "Kernel executing under restricted PKRU",
            RootCause::EmptyTrace => "Empty trace",
            RootCause::NoViolations => "No violations found",
        }
    }
}

/// A diagnosis: its cause and the index of the first bad sample.
#[derive(Debug, Clone, Copy, PartialEq, Eq, Structural)]
pub struct Finding {
    pub cause: RootCause,
    pub first_bad_index: usize,
}

/// The first rule the step from `prev` to `curr` breaks, if any.
pub open spec fn violation_between(prev: TraceEvent, curr: TraceEvent) -> Option<RootCause> {
    if prev.domain != curr.domain && prev.pkru == curr.pkru {
        Some(RootCause::DomainSwitchWithoutPkruUpdate)
    } else if prev.domain == curr.domain && prev.pkru != curr.pkru {
        Some(RootCause::PkruChangedWithoutDomainTransition)
    } else if curr.domain is Unknown {
        Some(RootCause::UnknownPkruValue)
    } else if curr.rip == 0 {
        Some(RootCause::NullRip)
    } else if curr.domain == Domain::Kernel && curr.pkru != 0 {
        Some(RootCause::KernelUnderRestrictedPkru)
    } else {
        None
    }
}

/// The finding for the window of samples `i` and `i + 1`, if the step breaks a rule.
pub fn detect_violation(i: usize, window: &[TraceEvent]) -> (r: Option<Finding>)
    requires
        i < usize::MAX,
    ensures
        window@.len() < 2 ==> r is None,
        window@.len() >= 2 ==> r == (match violation_between(window@[0], window@[1]) {
            Some(c) => Some(Finding { cause: c, first_bad_index: (i + 1) as usize }),
            None => None::<Finding>,
        }),
{
    if window.len() < 2 {
        return None;
    }
    let prev = &window[0];
    let curr = &window[1];
    let cause = if prev.domain != curr.domain && prev.pkru == curr.pkru {
        Some(RootCause::DomainSwitchWithoutPkruUpdate)
    } else if prev.domain == curr.domain && prev.pkru != curr.pkru {
        Some(RootCause::PkruChangedWithoutDomainTransition)
    } else if matches!(curr.domain, Domain::Unknown(_)) {
        Some(RootCause::UnknownPkruValue)
    } else if curr.rip == 0 {
        Some(RootCause::NullRip)
    } else if curr.domain == Domain::Kernel && curr.pkru != 0 {
        Some(RootCause::KernelUnderRestrictedPkru)
    } else {
        None
    };
    match cause {
        Some(c) => Some(Finding { cause: c, first_bad_index: i + 1 }),
        None => None,
    }
}

/// The first index from `i` whose step to the next sample breaks a rule.
pub open spec fn first_violation_from(e: Seq<TraceEvent>, i: int) -> Option<(int, RootCause)>
    decreases e.len() - i,
{
    if i < 0 || i + 1 >= e.len() {
        None
    } else {
        match violation_between(e[i], e[i + 1]) {
            Some(c) => Some((i, c)),
            None => first_violation_from(e, i + 1),
        }
    }
}

/// The diagnosis of a trace: the first broken rule (its second sample is the first
/// bad one), or, with none broken, the last sample; an empty trace has its own cause.
pub open spec fn spec_analyze(e: Seq<TraceEvent>) -> Finding {
    if e.len() == 0 {
        Finding { cause: RootCause::EmptyTrace, first_bad_index: 0 }
    } else {
        match first_violation_from(e, 0) {
            Some((i, c)) => Finding { cause: c, first_bad_index: (i + 1) as usize },
            None => Finding { cause: RootCause::NoViolations, first_bad_index: (e.len() - 1) as usize },
        }
    }
}

/// Diagnoses a trace.
pub fn analyze(events: &[TraceEvent]) -> (f: Finding)
    ensures
        f == spec_analyze(events@),
{
    if events.len() == 0 {
        return Finding { cause: RootCause::EmptyTrace, first_bad_index: 0 };
    }
    let mut i: usize = 0;
    while i < events.len() - 1
        invariant
            i < events@.len(),
            first_violation_from(events@, 0) == first_violation_from(events@, i as int),
        decreases events@.len() - i,
    {
        let window = slice_pair(events, i);
        match detect_violation(i, window.as_slice()) {
            Some(f) => {
                return f;
            },
            None => {},
        }
        i += 1;
    }
    Finding { cause: RootCause::NoViolations, first_bad_index: events.len() - 1 }
}

/// The samples `i` and `i + 1`.
fn slice_pair(events: &[TraceEvent], i: usize) -> (w: Vec<TraceEvent>)
    requires
        i + 1 < events@.len(),
    ensures
        w@.len() == 2,
        w@[0] == events@[i as int],
        w@[1] == events@[i + 1],
{
    let mut w: Vec<TraceEvent> = Vec::new();
    w.push(clone_event(&events[i]));
    w.push(clone_event(&events[i + 1]));
    w
}

/// A copy of a trace event.
pub fn clone_event(e: &TraceEvent) -> (c: TraceEvent)
    ensures
        c == *e,
{
    let symbol = match &e.symbol {
        Some(s) => Some(s.clone()),
        None => None,
    };
    let c = TraceEvent { tsc: e.tsc, rip: e.rip, pkru: e.pkru, domain: e.domain, symbol };
    proof {
        assert(c.symbol == e.symbol) by {
            match e.symbol {
                Some(s) => {
                    assert(c.symbol->0@ == s@);
                },
                None => {},
            }
        }
    }
    c
}

/// A fix for a diagnosis.
pub struct FixSuggestion {
    pub message: String,
}

/// The fix suggested for each cause.
pub open spec fn fix_text(c: RootCause) -> Seq<char> {
    match c {
        RootCause::DomainSwitchWithoutPkruUpdate => "Insert wrpkru(<linen_pkru>) before entering linen domain"@,
        RootCause::PkruChangedWithoutDomainTransition => "Remove or guard stray wrpkru call"@,
        RootCause::UnknownPkruValue => "Verify PKRU mask and ensure correct pkey bit layout"@,
        RootCause::NullRip => "Check function pointer initialization or ELF mapping"@,
        RootCause::KernelUnderRestrictedPkru => "Restore PKRU to 0x0 before returning to kernel context"@,
        _ => "Further investigation required"@,
    }
}

/// The fix for a diagnosis's cause.
pub fn suggest_fix(cause: RootCause) -> (f: FixSuggestion)
    ensures
        f.message@ == fix_text(cause),
{
    let text: &str = match cause {
        RootCause::DomainSwitchWithoutPkruUpdate => "Insert wrpkru(<linen_pkru>) before entering linen domain",
        RootCause::PkruChangedWithoutDomainTransition => "Remove or guard stray wrpkru call",
        RootCause::UnknownPkruValue => "Verify PKRU mask and ensure correct pkey bit layout",
        RootCause::NullRip => "Check function pointer initialization or ELF mapping",
        RootCause::KernelUnderRestrictedPkru => "Restore PKRU to 0x0 before returning to kernel context",
        _ => "Further investigation required",
    };
    FixSuggestion { message: text.to_owned() }
}

// ---------------------------------------------------------------------------
// Anomalies
// ---------------------------------------------------------------------------

/// An anomaly between two consecutive samples, at the later sample's time stamp.
#[derive(Debug, Clone, Copy, PartialEq, Eq, Structural)]
pub enum Anomaly {
    /// The domain changed but the PKRU did not.
    InvalidTransition { tsc: u64, from: Domain, to: Domain },
    /// The PKRU changed but the domain did not.
    PkruWithoutDomainChange { tsc: u64, domain: Domain, from: u32, to: u32 },
    /// Execution reached address 0.
    NullRip { tsc: u64 },
}

/// The anomalies of the step from `prev` to `curr`, in report order.
pub open spec fn step_anomalies(prev: TraceEvent, curr: TraceEvent) -> Seq<Anomaly> {
    (if prev.domain != curr.domain && prev.pkru == curr.pkru {
        seq![Anomaly::InvalidTransition { tsc: curr.tsc, from: prev.domain, to: curr.domain }]
    } else {
        Seq::empty()
    }) + (if prev.domain == curr.domain && prev.pkru != curr.pkru {
        seq![Anomaly::PkruWithoutDomainChange { tsc: curr.tsc, domain: prev.domain, from: prev.pkru, to: curr.pkru }]
    } else {
        Seq::empty()
    }) + (if curr.rip == 0 {
        seq![Anomaly::NullRip { tsc: curr.tsc }]
    } else {
        Seq::empty()
    })
}

/// The anomalies of the steps between the first `n` samples.
pub open spec fn anomalies_upto(e: Seq<TraceEvent>, n: int) -> Seq<Anomaly>
    decreases n,
{
    if n <= 1 || n > e.len() {
        Seq::empty()
    } else {
        anomalies_upto(e, n - 1) + step_anomalies(e[n - 2], e[n - 1])
    }
}

/// The anomalies of a trace, step by step.
pub fn detect_anomalies(events: &[TraceEvent]) -> (r: Vec<Anomaly>)
    ensures
        r@ == anomalies_upto(events@, events@.len() as int),
{
    let mut r: Vec<Anomaly> = Vec::new();
    if events.len() < 2 {
        return r;
    }
    let mut m: usize = 1;
    while m < events.len()
        invariant
            1 <= m <= events@.len(),
            r@ == anomalies_upto(events@, m as int),
        decreases events@.len() - m,
    {
        let prev = &events[m - 1];
        let curr = &events[m];
        if prev.domain != curr.domain && prev.pkru == curr.pkru {
            r.push(Anomaly::InvalidTransition { tsc: curr.tsc, from: prev.domain, to: curr.domain });
        }
        if prev.domain == curr.domain && prev.pkru != curr.pkru {
            r.push(Anomaly::PkruWithoutDomainChange { tsc: curr.tsc, domain: prev.domain, from: prev.pkru, to: curr.pkru });
        }
        if curr.rip == 0 {
            r.push(Anomaly::NullRip { tsc: curr.tsc });
        }
        proof {
            assert(r@ =~= anomalies_upto(events@, m as int) + step_anomalies(events@[m - 1], events@[m as int]));
        }
        m += 1;
    }
    r
}

// ---------------------------------------------------------------------------
// The monitor's register dump
// ---------------------------------------------------------------------------

/// Index of the first line feed of `s` at or after `i`, else `s.len()`.
pub open spec fn newline_from(s: Seq<u8>, i: int) -> int
    decreases s.len() - i,
{
    if i < 0 || i >= s.len() {
        s.len() as int
    } else if s[i] == 10 {
        i
    } else {
        newline_from(s, i + 1)
    }
}

pub proof fn lemma_newline_from(s: Seq<u8>, i: int)
    requires
        0 <= i <= s.len(),
    ensures
        i <= newline_from(s, i) <= s.len(),
    decreases s.len() - i,
{
    if i < s.len() && s[i] != 10 {
        lemma_newline_from(s, i + 1);
    }
}

/// `s` starts with `p`.
pub open spec fn starts_with(s: Seq<u8>, p: Seq<u8>) -> bool {
    s.len() >= p.len() && s.take(p.len() as int) == p
}

/// `s` after every leading copy of the non-empty `p` is removed.
pub open spec fn strip_all_prefix(s: Seq<u8>, p: Seq<u8>) -> Seq<u8>
    decreases s.len(),
{
    if p.len() > 0 && starts_with(s, p) {
        strip_all_prefix(s.skip(p.len() as int), p)
    } else {
        s
    }
}

/// The bytes of `RIP=`.
pub open spec fn rip_tag() -> Seq<u8> {
    seq![82u8, 73u8, 80u8, 61u8]
}

/// The bytes of `PKRU=`.
pub open spec fn pkru_tag() -> Seq<u8> {
    seq![80u8, 75u8, 82u8, 85u8, 61u8]
}

/// The bytes of `CR3=`.
pub open spec fn cr3_tag() -> Seq<u8> {
    seq![67u8, 82u8, 51u8, 61u8]
}

/// The first whitespace-delimited word of a line that starts with a tag.
pub open spec fn first_word(l: Seq<u8>) -> Seq<u8> {
    l.take(crate::linen::word_end(l, 0))
}

/// The hexadecimal value after the tag `tag` in the word `w`, or 0.
pub open spec fn tagged_value(w: Seq<u8>, tag: Seq<u8>, max: nat) -> nat {
    match parse_unsigned(strip_all_prefix(w, tag), 16, max) {
        Some(v) => v,
        None => 0,
    }
}

/// The registers after reading line `l`: a line starting with `RIP=`, `PKRU=` or
/// `CR3=` sets that register from its first word.
pub open spec fn apply_register_line(l: Seq<u8>, st: (u64, u32, u64)) -> (u64, u32, u64) {
    let st1 = if starts_with(l, rip_tag()) {
        (tagged_value(first_word(l), rip_tag(), u64::MAX as nat) as u64, st.1, st.2)
    } else {
        st
    };
    let st2 = if starts_with(l, pkru_tag()) {
        (st1.0, tagged_value(first_word(l), pkru_tag(), u32::MAX as nat) as u32, st1.2)
    } else {
        st1
    };
    if starts_with(l, cr3_tag()) {
        (st2.0, st2.1, tagged_value(first_word(l), cr3_tag(), u64::MAX as nat) as u64)
    } else {
        st2
    }
}

/// The registers after reading the lines of `s` from position `i` on.
pub open spec fn scan_registers(s: Seq<u8>, i: int, st: (u64, u32, u64)) -> (u64, u32, u64)
    decreases s.len() - i,
{
    if i < 0 || i > s.len() {
        st
    } else {
        let e = newline_from(s, i);
        proof {
            lemma_newline_from(s, i);
        }
        let st2 = apply_register_line(s.subrange(i, e), st);
        if e >= s.len() {
            st2
        } else {
            scan_registers(s, e + 1, st2)
        }
    }
}

fn strip_all_prefix_bytes(s: &[u8], p: &[u8]) -> (r: Vec<u8>)
    requires
        p@.len() > 0,
    ensures
        r@ == strip_all_prefix(s@, p@),
{
    let mut i: usize = 0;
    proof {
        assert(s@.skip(0) == s@);
    }
    while s.len() - i >= p.len() && bytes_start_with(s, i, p)
        invariant
            i <= s@.len(),
            p@.len() > 0,
            strip_all_prefix(s@, p@) == strip_all_prefix(s@.skip(i as int), p@),
        decreases s@.len() - i,
    {
        proof {
            assert(s@.skip(i as int).skip(p@.len() as int) == s@.skip(i + p@.len()));
        }
        i += p.len();
    }
    copy_field(s, i, s.len())
}

/// Whether `s` from index `i` starts with `p` (which fits).
fn bytes_start_with(s: &[u8], i: usize, p: &[u8]) -> (r: bool)
    requires
        i + p@.len() <= s@.len(),
    ensures
        r == starts_with(s@.skip(i as int), p@),
{
    let n: usize = s.len();
    let mut k: usize = 0;
    while k < p.len()
        invariant
            k <= p@.len(),
            n == s@.len(),
            i + p@.len() <= s@.len(),
            forall|j: int| 0 <= j < k ==> s@[i + j] == p@[j],
        decreases p@.len() - k,
    {
        if s[i + k] != p[k] {
            proof {
                assert(s@.skip(i as int).take(p@.len() as int)[k as int] != p@[k as int]);
            }
            return false;
        }
        k += 1;
    }
    proof {
        assert(s@.skip(i as int).take(p@.len() as int) =~= p@);
    }
    true
}

fn tagged_value_of(line: &[u8], tag: &[u8], max: u64) -> (v: u64)
    requires
        tag@.len() > 0,
    ensures
        v == tagged_value(first_word(line@), tag@, max as nat),
{
    let n = line.len();
    let mut e: usize = 0;
    while e < n && crate::linen::ws_len_at(line, e) == 0
        invariant
            n == line@.len(),
            e <= n,
            crate::linen::word_end(line@, 0) == crate::linen::word_end(line@, e as int),
        decreases n - e,
    {
        e += 1;
    }
    let word = copy_field(line, 0, e);
    proof {
        assert(word@ == first_word(line@));
    }
    let stripped = strip_all_prefix_bytes(word.as_slice(), tag);
    match parse_unsigned_bytes(stripped.as_slice(), 16, max) {
        Some(v) => v,
        None => 0,
    }
}

/// The instruction pointer, PKRU and CR3 the monitor's register dump `text` shows
/// (0 for any it does not show, or shows in a form that is not hexadecimal).
pub fn parse_register_dump(text: &str) -> (r: (u64, u32, u64))
    ensures
        r == scan_registers(text.spec_bytes(), 0, (0u64, 0u32, 0u64)),
{
    let s = text.as_bytes();
    let rip_t: [u8; 4] = [82u8, 73u8, 80u8, 61u8];
    let pkru_t: [u8; 5] = [80u8, 75u8, 82u8, 85u8, 61u8];
    let cr3_t: [u8; 4] = [67u8, 82u8, 51u8, 61u8];
    proof {
        assert(rip_t@ == rip_tag());
        assert(pkru_t@ == pkru_tag());
        assert(cr3_t@ == cr3_tag());
    }
    let mut st: (u64, u32, u64) = (0, 0, 0);
    let mut i: usize = 0;
    loop
        invariant
            i <= s@.len(),
            s@ == text.spec_bytes(),
            rip_t@ == rip_tag(),
            pkru_t@ == pkru_tag(),
            cr3_t@ == cr3_tag(),
            scan_registers(s@, 0, (0u64, 0u32, 0u64)) == scan_registers(s@, i as int, st),
        decreases s@.len() - i,
    {
        let mut e: usize = i;
        while e < s.len() && s[e] != 10
            invariant
                i <= e <= s@.len(),
                newline_from(s@, i as int) == newline_from(s@, e as int),
            decreases s@.len() - e,
        {
            e += 1;
        }
        let line = copy_field(s, i, e);
        let mut next = st;
        if line.len() >= 4 && bytes_start_with(line.as_slice(), 0, rip_t.as_slice()) {
            next = (tagged_value_of(line.as_slice(), rip_t.as_slice(), u64::MAX), next.1, next.2);
        }
        if line.len() >= 5 && bytes_start_with(line.as_slice(), 0, pkru_t.as_slice()) {
            let v = tagged_value_of(line.as_slice(), pkru_t.as_slice(), 0xFFFF_FFFF);
            next = (next.0, v as u32, next.2);
        }
        if line.len() >= 4 && bytes_start_with(line.as_slice(), 0, cr3_t.as_slice()) {
            next = (next.0, next.1, tagged_value_of(line.as_slice(), cr3_t.as_slice(), u64::MAX));
        }
        proof {
            assert(line@.skip(0) == line@);
            assert(next == apply_register_line(s@.subrange(i as int, e as int), st));
            assert(newline_from(s@, e as int) == e);
            assert(newline_from(s@, i as int) == e);
            lemma_newline_from(s@, i as int);
            if e >= s@.len() {
                assert(scan_registers(s@, i as int, st) == next);
            } else {
                assert(scan_registers(s@, i as int, st) == scan_registers(s@, e + 1, next));
            }
        }
        st = next;
        if e >= s.len() {
            return st;
        }
        i = e + 1;
    }
}

// ---------------------------------------------------------------------------
// Symbols
// ---------------------------------------------------------------------------

/// `0x` and the lowercase hexadecimal digits of `rip`.
pub open spec fn address_text(rip: u64) -> Seq<u8> {
    seq![48u8, 120u8] + hex(rip as nat)
}

proof fn lemma_hex_ascii(n: nat)
    ensures
        is_ascii_bytes(hex(n)),
    decreases n,
{
    if n >= 16 {
        lemma_hex_ascii(n / 16);
    }
}

/// The name of an address that has no symbol: `0x` and its hexadecimal digits.
pub fn address_name(rip: u64) -> (s: String)
    ensures
        s@ == address_text(rip).map_values(|b: u8| b as char),
{
    let mut t: Vec<u8> = Vec::new();
    t.push(48u8);
    t.push(120u8);
    push_hex(&mut t, rip);
    proof {
        lemma_hex_ascii(rip as nat);
        assert(t@ == address_text(rip));
        assert(is_ascii_bytes(t@));
        lemma_ascii_utf8(t@);
    }
    string_from_utf8(t)
}

/// The name `addr2line` gives, as the resolver reports it: the function name on its
/// first line of output, or the address when it failed or printed `??`.
pub open spec fn symbol_name(rip: u64, found: Option<Seq<char>>) -> Seq<char> {
    match found {
        Some(name) => if name == "??"@ {
            address_text(rip).map_values(|b: u8| b as char)
        } else {
            name
        },
        None => address_text(rip).map_values(|b: u8| b as char),
    }
}

/// Names of code addresses, remembered once resolved.
pub struct SymbolResolver {
    pub binary_path: String,
    pub cache: std::collections::HashMap<u64, String>,
}

impl SymbolResolver {
    pub fn new(binary_path: &str) -> (r: Self)
        ensures
            r.binary_path@ == binary_path@,
            r.cache@.len() == 0,
    {
        SymbolResolver { binary_path: binary_path.to_owned(), cache: std::collections::HashMap::new() }
    }

    /// The remembered name of `rip`, if any.
    pub fn cached(&self, rip: u64) -> (r: Option<String>)
        ensures
            match r {
                Some(s) => self.cache@.contains_key(rip) && s@ == self.cache@[rip]@,
                None => !self.cache@.contains_key(rip),
            },
    {
        match self.cache.get(&rip) {
            Some(s) => Some(s.clone()),
            None => None,
        }
    }

    /// Names `rip` from the first output line of `addr2line` (`None` when it
    /// failed), remembers the name and returns it.
    pub fn record(&mut self, rip: u64, found: Option<String>) -> (s: String)
        ensures
            s@ == symbol_name(rip, match found {
                Some(f) => Some(f@),
                None => None,
            }),
            final(self).cache@.contains_key(rip),
            final(self).cache@[rip]@ == s@,
            forall|k: u64| k != rip ==> (#[trigger] final(self).cache@.contains_key(k)) == old(self).cache@.contains_key(k),
            forall|k: u64| k != rip && old(self).cache@.contains_key(k) ==> #[trigger] final(self).cache@[k] == old(self).cache@[k],
            final(self).binary_path == old(self).binary_path,
    {
        let unknown = "??".to_owned();
        let name = match found {
            Some(f) => {
                if f == unknown {
                    address_name(rip)
                } else {
                    f
                }
            },
            None => address_name(rip),
        };
        let kept = name.clone();
        self.cache.insert(rip, kept);
        name
    }
}

/// The bytes of `0x`.
pub open spec fn hex_prefix() -> Seq<u8> {
    seq![48u8, 120u8]
}

/// The function a diagnosis points at: the symbol, unless it is an address (starts
/// with `0x`) or unknown (`??`).
pub fn function_of(sym: String) -> (r: Option<String>)
    ensures
        (starts_with(encode_utf8(sym@), hex_prefix()) || sym@ == "??"@) ==> r is None,
        !(starts_with(encode_utf8(sym@), hex_prefix()) || sym@ == "??"@) ==> r == Some(sym),
{
    let b = sym.as_str().as_bytes();
    let is_address = b.len() >= 2 && b[0] == 48 && b[1] == 120;
    proof {
        if is_address {
            assert(b@.take(2) =~= hex_prefix());
        } else if b@.len() >= 2 {
            if b@.take(2) == hex_prefix() {
                assert(b@.take(2)[0] == 48u8);
            }
        }
    }
    let unknown = "??".to_owned();
    if is_address || sym == unknown {
        None
    } else {
        Some(sym)
    }
}

// ---------------------------------------------------------------------------
// The timeline view
// ---------------------------------------------------------------------------

/// A key of the timeline view.
#[derive(Debug, Clone, Copy, PartialEq, Eq, Structural)]
pub enum TimelineKey {
    Quit,
    Down,
    Up,
    Other,
}

/// The scroll position of the timeline over a trace of `len` samples.
pub struct Timeline {
    pub offset: usize,
    pub len: usize,
}

impl Timeline {
    /// A timeline that shows the highlighted sample with five samples above it.
    pub fn new(len: usize, highlight: Option<usize>) -> (t: Self)
        ensures
            t.len == len,
            t.offset == (match highlight {
                Some(h) => if h >= 5 { h - 5 } else { 0 },
                None => 0,
            }),
    {
        let h: usize = match highlight {
            Some(h) => h,
            None => 0,
        };
        Timeline { offset: h.saturating_sub(5), len }
    }

    /// Handles a key: `q` quits (true); down and up scroll by one within the trace.
    pub fn on_key(&mut self, key: TimelineKey) -> (quit: bool)
        ensures
            quit == (key == TimelineKey::Quit),
            final(self).len == old(self).len,
            final(self).offset == (match key {
                TimelineKey::Down => if old(self).offset + 1 < old(self).len {
                    old(self).offset + 1
                } else {
                    old(self).offset as int
                },
                TimelineKey::Up => if old(self).offset > 0 {
                    old(self).offset - 1
                } else {
                    0
                },
                _ => old(self).offset as int,
            }),
    {
        match key {
            TimelineKey::Quit => true,
            TimelineKey::Down => {
                if self.offset < self.len && self.offset + 1 < self.len {
                    self.offset = self.offset + 1;
                }
                false
            },
            TimelineKey::Up => {
                if self.offset > 0 {
                    self.offset = self.offset - 1;
                }
                false
            },
            TimelineKey::Other => false,
        }
    }

    /// The samples shown in a frame `height` rows high: from the offset on, as many
    /// as fit in the frame less its border and help rows.
    pub fn visible(&self, height: u16) -> (r: (usize, usize))
        requires
            height >= 4,
        ensures
            r.0 == (if self.offset < self.len { self.offset } else { self.len }),
            r.1 == (if r.0 + (height - 4) < self.len { r.0 + (height - 4) } else { self.len as int }),
    {
        let start = if self.offset < self.len {
            self.offset
        } else {
            self.len
        };
        let rows = (height - 4) as usize;
        let end = if rows < self.len - start {
            start + rows
        } else {
            self.len
        };
        (start, end)
    }
}

} // verus!
