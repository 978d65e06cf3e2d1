//! The linen desktop core: its shell commands, file-system cursor, capability view,
//! focus and session state.
use vstd::prelude::*;
use vstd::string::StringSliceAdditionalSpecFns;
use crate::text::{dec, push_decimal};
use crate::ucgm::ViewModel;

verus! {

// ---------------------------------------------------------------------------
// Whitespace-separated words of UTF-8 text
// ---------------------------------------------------------------------------

/// Byte length of the whitespace character starting at `i` of the UTF-8 text `s`,
/// or 0 when none starts there. Whitespace is Unicode's White_Space set: tab to
/// carriage return, space, U+0085, U+00A0, U+1680, U+2000 to U+200A, U+2028,
/// U+2029, U+202F, U+205F and U+3000.
pub open spec fn ws_len(s: Seq<u8>, i: int) -> int {
    if i < 0 || i >= s.len() {
        0
    } else if s[i] == 32 || (9 <= s[i] && s[i] <= 13) {
        1
    } else if s[i] == 0xC2 && i + 1 < s.len() && (s[i + 1] == 0x85 || s[i + 1] == 0xA0) {
        2
    } else if s[i] == 0xE1 && i + 2 < s.len() && s[i + 1] == 0x9A && s[i + 2] == 0x80 {
        3
    } else if s[i] == 0xE2 && i + 2 < s.len() && s[i + 1] == 0x80 && ((0x80 <= s[i + 2] && s[i + 2]
        <= 0x8A) || s[i + 2] == 0xA8 || s[i + 2] == 0xA9 || s[i + 2] == 0xAF) {
        3
    } else if s[i] == 0xE2 && i + 2 < s.len() && s[i + 1] == 0x81 && s[i + 2] == 0x9F {
        3
    } else if s[i] == 0xE3 && i + 2 < s.len() && s[i + 1] == 0x80 && s[i + 2] == 0x80 {
        3
    } else {
        0
    }
}

/// The first position at or after `i` where no whitespace starts.
pub open spec fn skip_ws(s: Seq<u8>, i: int) -> int
    decreases s.len() - i,
{
    if i < 0 || i >= s.len() {
        i
    } else if ws_len(s, i) > 0 {
        skip_ws(s, i + ws_len(s, i))
    } else {
        i
    }
}

/// The first position at or after `i` where whitespace starts, else the end.
pub open spec fn word_end(s: Seq<u8>, i: int) -> int
    decreases s.len() - i,
{
    if i < 0 || i >= s.len() {
        i
    } else if ws_len(s, i) > 0 {
        i
    } else {
        word_end(s, i + 1)
    }
}

pub proof fn lemma_skip_ws(s: Seq<u8>, i: int)
    requires
        0 <= i <= s.len(),
    ensures
        i <= skip_ws(s, i) <= s.len(),
        skip_ws(s, i) < s.len() ==> ws_len(s, skip_ws(s, i)) == 0,
    decreases s.len() - i,
{
    if i < s.len() && ws_len(s, i) > 0 {
        lemma_skip_ws(s, i + ws_len(s, i));
    }
}

pub proof fn lemma_word_end(s: Seq<u8>, i: int)
    requires
        0 <= i <= s.len(),
    ensures
        i <= word_end(s, i) <= s.len(),
        i < s.len() && ws_len(s, i) == 0 ==> i < word_end(s, i),
    decreases s.len() - i,
{
    if i < s.len() && ws_len(s, i) == 0 {
        lemma_word_end(s, i + 1);
    }
}

/// The whitespace-separated words of `s` from position `i` on.
pub open spec fn words_from(s: Seq<u8>, i: int) -> Seq<Seq<u8>>
    decreases s.len() - i,
{
    if i < 0 || i > s.len() {
        Seq::empty()
    } else {
        let a = skip_ws(s, i);
        proof {
            lemma_skip_ws(s, i);
        }
        if a >= s.len() {
            Seq::empty()
        } else {
            let b = word_end(s, a);
            proof {
                lemma_word_end(s, a);
            }
            seq![s.subrange(a, b)] + words_from(s, b)
        }
    }
}

/// The whitespace-separated words of `s`.
pub open spec fn words(s: Seq<u8>) -> Seq<Seq<u8>> {
    words_from(s, 0)
}

pub(crate) fn ws_len_at(s: &[u8], i: usize) -> (r: usize)
    requires
        i < s@.len(),
    ensures
        r as int == ws_len(s@, i as int),
{
    let n = s.len();
    let c = s[i];
    if c == 32 || (9 <= c && c <= 13) {
        1
    } else if c == 0xC2 && i + 1 < n && (s[i + 1] == 0x85 || s[i + 1] == 0xA0) {
        2
    } else if c == 0xE1 && n - i > 2 && s[i + 1] == 0x9A && s[i + 2] == 0x80 {
        3
    } else if c == 0xE2 && n - i > 2 && s[i + 1] == 0x80 && ((0x80 <= s[i + 2] && s[i + 2] <= 0x8A)
        || s[i + 2] == 0xA8 || s[i + 2] == 0xA9 || s[i + 2] == 0xAF) {
        3
    } else if c == 0xE2 && n - i > 2 && s[i + 1] == 0x81 && s[i + 2] == 0x9F {
        3
    } else if c == 0xE3 && n - i > 2 && s[i + 1] == 0x80 && s[i + 2] == 0x80 {
        3
    } else {
        0
    }
}

/// The whitespace-separated words of the UTF-8 text `s`, in order.
pub fn split_words(s: &[u8]) -> (r: Vec<Vec<u8>>)
    ensures
        r@.map_values(|w: Vec<u8>| w@) == words(s@),
{
    let n = s.len();
    let mut out: Vec<Vec<u8>> = Vec::new();
    let mut i: usize = 0;
    while i < n
        invariant
            n == s@.len(),
            i <= n,
            out@.map_values(|w: Vec<u8>| w@) + words_from(s@, i as int) == words(s@),
        decreases n - i,
    {
        let ghost i0 = i as int;
        let mut a: usize = i;
        while a < n && ws_len_at(s, a) > 0
            invariant
                n == s@.len(),
                i0 <= a <= n,
                skip_ws(s@, i0) == skip_ws(s@, a as int),
            decreases n - a,
        {
            a = a + ws_len_at(s, a);
        }
        if a >= n {
            proof {
                assert(words_from(s@, i0) == Seq::<Seq<u8>>::empty());
                assert(out@.map_values(|w: Vec<u8>| w@) + words_from(s@, n as int) =~= out@.map_values(
                    |w: Vec<u8>| w@,
                ) + words_from(s@, i0));
            }
            i = n;
        } else {
            let mut b: usize = a;
            let mut w: Vec<u8> = Vec::new();
            while b < n && ws_len_at(s, b) == 0
                invariant
                    n == s@.len(),
                    a <= b <= n,
                    word_end(s@, a as int) == word_end(s@, b as int),
                    w@ == s@.subrange(a as int, b as int),
                decreases n - b,
            {
                w.push(s[b]);
                b += 1;
            }
            proof {
                lemma_skip_ws(s@, i0);
                lemma_word_end(s@, a as int);
                assert(words_from(s@, i0) == seq![s@.subrange(a as int, b as int)] + words_from(
                    s@,
                    b as int,
                ));
            }
            let ghost before = out@.map_values(|w: Vec<u8>| w@);
            out.push(w);
            proof {
                assert(out@.map_values(|w: Vec<u8>| w@) =~= before.push(s@.subrange(a as int, b as int)));
                assert(before + words_from(s@, i0) =~= before.push(s@.subrange(a as int, b as int))
                    + words_from(s@, b as int));
            }
            i = b;
        }
    }
    proof {
        assert(words_from(s@, n as int) == Seq::<Seq<u8>>::empty());
        assert(out@.map_values(|w: Vec<u8>| w@) + Seq::<Seq<u8>>::empty() =~= out@.map_values(
            |w: Vec<u8>| w@,
        ));
    }
    out
}

/// Whether two byte strings are equal.
fn bytes_eq(a: &[u8], b: &[u8]) -> (r: bool)
    ensures
        r == (a@ == b@),
{
    if a.len() != b.len() {
        return false;
    }
    let mut i: usize = 0;
    while i < a.len()
        invariant
            a@.len() == b@.len(),
            i <= a@.len(),
            forall|k: int| 0 <= k < i ==> a@[k] == b@[k],
        decreases a@.len() - i,
    {
        if a[i] != b[i] {
            return false;
        }
        i += 1;
    }
    proof {
        assert(a@ == b@);
    }
    true
}

// ---------------------------------------------------------------------------
// File system cursor, capability view, focus and session
// ---------------------------------------------------------------------------

/// The file-system cursor: the UCGM node the shell stands on.
pub struct FileSystem {
    pub current_node: u32,
}

impl FileSystem {
    pub fn new() -> (f: Self)
        ensures
            f.current_node == 1,
    {
        FileSystem { current_node: 1 }
    }

    /// Moves to `path`; graph traversal is not there yet, so the cursor stays.
    pub fn navigate(&mut self, path: &[u8])
        ensures
            final(self).current_node == old(self).current_node,
    {
    }
}

/// The capability projection of the system graph.
pub struct CapabilityView {
    pub projection: ViewModel,
}

impl CapabilityView {
    pub fn new() -> (c: Self)
        ensures
            c.projection.nodes@.len() == 0,
            c.projection.edges@.len() == 0,
    {
        CapabilityView { projection: ViewModel::default() }
    }

    /// Splits the answer of the UCGM query system call into the number of services
    /// (low 16 bits) and of active domains (the bits above).
    pub fn decode_query(raw: u64) -> (r: (u64, u64))
        ensures
            r.0 == raw % 0x10000,
            r.1 == raw / 0x10000,
    {
        assert(raw & 0xFFFF == raw % 0x10000) by (bit_vector);
        assert(raw >> 16u64 == raw / 0x10000) by (bit_vector);
        (raw & 0xFFFF, raw >> 16u64)
    }
}

/// The domain holding the input focus.
pub struct FocusClient {
    pub current_focus: Option<u32>,
}

impl FocusClient {
    pub fn new() -> (f: Self)
        ensures
            f.current_focus is None,
    {
        FocusClient { current_focus: None }
    }

    /// Gives the focus to domain `pd_id`.
    pub fn set_focus(&mut self, pd_id: u32)
        ensures
            final(self).current_focus == Some(pd_id),
    {
        self.current_focus = Some(pd_id);
    }
}

/// The state of a desktop session.
pub struct SessionGraph {
    pub cwd_node: u32,
    pub focus_node: Option<u32>,
    pub active_surfaces: Vec<u32>,
}

/// Owner of the session state.
pub struct SessionManager {
    pub state: SessionGraph,
}

impl SessionManager {
    pub fn new() -> (m: Self)
        ensures
            m.state.cwd_node == 1,
            m.state.focus_node is None,
            m.state.active_surfaces@.len() == 0,
    {
        SessionManager { state: SessionGraph { cwd_node: 1, focus_node: None, active_surfaces: Vec::new() } }
    }
}

// ---------------------------------------------------------------------------
// The shell
// ---------------------------------------------------------------------------

/// The bytes of `ls`.
pub open spec fn word_ls() -> Seq<u8> {
    seq![108u8, 115u8]
}

/// The bytes of `inspect`.
pub open spec fn word_inspect() -> Seq<u8> {
    seq![105u8, 110u8, 115u8, 112u8, 101u8, 99u8, 116u8]
}

/// The bytes of `cd`.
pub open spec fn word_cd() -> Seq<u8> {
    seq![99u8, 100u8]
}

/// `UCGM-Node(1): /root`.
pub open spec fn listing_text() -> Seq<u8> {
    seq![85u8, 67u8, 71u8, 77u8, 45u8, 78u8, 111u8, 100u8, 101u8, 40u8, 49u8, 41u8, 58u8, 32u8, 47u8, 114u8, 111u8, 111u8, 116u8]
}

/// `Navigated to `.
pub open spec fn navigated_prefix() -> Seq<u8> {
    seq![78u8, 97u8, 118u8, 105u8, 103u8, 97u8, 116u8, 101u8, 100u8, 32u8, 116u8, 111u8, 32u8]
}

/// `Unknown command`.
pub open spec fn unknown_text() -> Seq<u8> {
    seq![85u8, 110u8, 107u8, 110u8, 111u8, 119u8, 110u8, 32u8, 99u8, 111u8, 109u8, 109u8, 97u8, 110u8, 100u8]
}

/// `Services: <services>, Active PDs: <active>`.
pub open spec fn inspect_text(services: u64, active: u64) -> Seq<u8> {
    seq![83u8, 101u8, 114u8, 118u8, 105u8, 99u8, 101u8, 115u8, 58u8, 32u8] + dec(services as nat)
        + seq![44u8, 32u8, 65u8, 99u8, 116u8, 105u8, 118u8, 101u8, 32u8, 80u8, 68u8, 115u8, 58u8, 32u8]
        + dec(active as nat)
}

/// The reply to a command line with words `w`, or none for `inspect`, whose reply
/// needs the system's numbers.
pub open spec fn command_reply(w: Seq<Seq<u8>>) -> Option<Seq<u8>> {
    if w.len() == 1 && w[0] == word_ls() {
        Some(listing_text())
    } else if w.len() == 1 && w[0] == word_inspect() {
        None
    } else if w.len() == 2 && w[0] == word_cd() {
        Some(navigated_prefix() + w[1])
    } else {
        Some(unknown_text())
    }
}

/// The outcome of a shell command.
#[derive(Debug)]
pub enum ShellOutcome {
    /// The reply text.
    Reply(Vec<u8>),
    /// `inspect`: query the system and answer with `Shell::inspect_reply`.
    InspectSystem,
}

fn push_seq(out: &mut Vec<u8>, bytes: &[u8])
    ensures
        final(out)@ == old(out)@ + bytes@,
{
    let mut i: usize = 0;
    while i < bytes.len()
        invariant
            i <= bytes@.len(),
            out@ == old(out)@ + bytes@.subrange(0, i as int),
        decreases bytes@.len() - i,
    {
        out.push(bytes[i]);
        proof {
            assert(bytes@.subrange(0, i + 1) == bytes@.subrange(0, i as int).push(bytes@[i as int]));
        }
        i += 1;
    }
    proof {
        assert(bytes@.subrange(0, bytes@.len() as int) == bytes@);
    }
}

/// The linen shell.
pub struct Shell {
    pub fs: FileSystem,
    pub caps: CapabilityView,
    pub input_buffer: String,
}

impl Shell {
    pub fn new() -> (s: Self)
        ensures
            s.fs.current_node == 1,
            s.input_buffer@.len() == 0,
    {
        Shell { fs: FileSystem::new(), caps: CapabilityView::new(), input_buffer: String::new() }
    }

    /// Runs the command line `cmd`: `ls`, `inspect` or `cd <dir>`; anything else is
    /// an unknown command.
    pub fn dispatch(&mut self, cmd: &str) -> (r: ShellOutcome)
        ensures
            final(self).fs.current_node == old(self).fs.current_node,
            match command_reply(words(cmd.spec_bytes())) {
                Some(text) => r matches ShellOutcome::Reply(t) && t@ == text,
                None => r is InspectSystem,
            },
    {
        let w = split_words(cmd.as_bytes());
        proof {
            assert(w@.len() == words(cmd.spec_bytes()).len());
            assert forall|k: int| 0 <= k < w@.len() implies w@[k]@ == words(cmd.spec_bytes())[k] by {
                assert(w@.map_values(|v: Vec<u8>| v@)[k] == w@[k]@);
            }
        }
        let ls: [u8; 2] = [108u8, 115u8];
        let inspect: [u8; 7] = [105u8, 110u8, 115u8, 112u8, 101u8, 99u8, 116u8];
        let cd: [u8; 2] = [99u8, 100u8];
        proof {
            assert(ls@ == word_ls());
            assert(inspect@ == word_inspect());
            assert(cd@ == word_cd());
        }
        if w.len() == 1 && bytes_eq(w[0].as_slice(), ls.as_slice()) {
            let listing: [u8; 19] = [85u8, 67u8, 71u8, 77u8, 45u8, 78u8, 111u8, 100u8, 101u8, 40u8, 49u8, 41u8, 58u8, 32u8, 47u8, 114u8, 111u8, 111u8, 116u8];
            let mut t: Vec<u8> = Vec::new();
            push_seq(&mut t, listing.as_slice());
            proof {
                assert(listing@ == listing_text());
                assert(t@ == listing_text());
            }
            return ShellOutcome::Reply(t);
        }
        if w.len() == 1 && bytes_eq(w[0].as_slice(), inspect.as_slice()) {
            return ShellOutcome::InspectSystem;
        }
        if w.len() == 2 && bytes_eq(w[0].as_slice(), cd.as_slice()) {
            self.fs.navigate(w[1].as_slice());
            let prefix: [u8; 13] = [78u8, 97u8, 118u8, 105u8, 103u8, 97u8, 116u8, 101u8, 100u8, 32u8, 116u8, 111u8, 32u8];
            let mut t: Vec<u8> = Vec::new();
            push_seq(&mut t, prefix.as_slice());
            push_seq(&mut t, w[1].as_slice());
            proof {
                assert(prefix@ == navigated_prefix());
                assert(t@ == navigated_prefix() + words(cmd.spec_bytes())[1]);
            }
            return ShellOutcome::Reply(t);
        }
        let unknown: [u8; 15] = [85u8, 110u8, 107u8, 110u8, 111u8, 119u8, 110u8, 32u8, 99u8, 111u8, 109u8, 109u8, 97u8, 110u8, 100u8];
        let mut t: Vec<u8> = Vec::new();
        push_seq(&mut t, unknown.as_slice());
        proof {
            assert(unknown@ == unknown_text());
            assert(t@ == unknown_text());
        }
        ShellOutcome::Reply(t)
    }

    /// The reply to `inspect` once the UCGM query system call answered `raw`.
    pub fn inspect_reply(&self, raw: u64) -> (t: Vec<u8>)
        ensures
            t@ == inspect_text(raw % 0x10000, raw / 0x10000),
    {
        let (services, active) = CapabilityView::decode_query(raw);
        let mut t: Vec<u8> = Vec::new();
        let head: [u8; 10] = [83u8, 101u8, 114u8, 118u8, 105u8, 99u8, 101u8, 115u8, 58u8, 32u8];
        let mid: [u8; 14] = [44u8, 32u8, 65u8, 99u8, 116u8, 105u8, 118u8, 101u8, 32u8, 80u8, 68u8, 115u8, 58u8, 32u8];
        push_seq(&mut t, head.as_slice());
        push_decimal(&mut t, services);
        push_seq(&mut t, mid.as_slice());
        push_decimal(&mut t, active);
        proof {
            assert(head@ == seq![83u8, 101u8, 114u8, 118u8, 105u8, 99u8, 101u8, 115u8, 58u8, 32u8]);
            assert(mid@ == seq![44u8, 32u8, 65u8, 99u8, 116u8, 105u8, 118u8, 101u8, 32u8, 80u8, 68u8, 115u8, 58u8, 32u8]);
            assert(t@ == inspect_text(raw % 0x10000, raw / 0x10000));
        }
        t
    }
}

/// The linen core: shell, file-system cursor and capability view.
pub struct LinenCore {
    pub shell: Shell,
    pub fs: FileSystem,
    pub cap_view: CapabilityView,
}

impl LinenCore {
    pub fn new() -> (c: Self)
        ensures
            c.shell.fs.current_node == 1,
            c.fs.current_node == 1,
            c.cap_view.projection.nodes@.len() == 0,
    {
        LinenCore { shell: Shell::new(), fs: FileSystem::new(), cap_view: CapabilityView::new() }
    }
}

} // verus!
