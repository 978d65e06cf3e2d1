//! The Ion shell: PDX file handles and their request encoding, terminal events, and
//! the planning of a command line (trimming, redirection, builtins and spawning).
use vstd::prelude::*;
use crate::linen::{lemma_skip_ws, skip_ws, ws_len, ws_len_at};
use crate::sexshop::utf8_accepts;
use vstd::utf8::valid_utf8;

verus! {

// ---------------------------------------------------------------------------
// PDX files
// ---------------------------------------------------------------------------

/// Length of the path buffer of a VFS request.
pub const PATH_BUF_LEN: usize = 512;
/// Largest transfer made by a direct call; larger ones go through a page handover.
pub const DIRECT_IO_MAX: usize = 4096;
/// Domain of the file server.
pub const FILE_SERVER_PD: u32 = 1;

/// An open file of the file server.
#[derive(Debug, Clone, Copy, PartialEq, Eq, Structural)]
pub struct PdxFile {
    pub fd: u64,
    pub server_pd: u32,
}

/// How a read or write reaches the file server.
#[derive(Debug, Clone, Copy, PartialEq, Eq, Structural)]
pub enum Transfer {
    /// A call carrying the buffer's address and length.
    Direct,
    /// A zero-copy handover of the buffer's pages.
    ZeroCopy,
}

/// The first `min(len, 511)` bytes of `path`, NUL-padded to the path buffer.
pub open spec fn open_path(path: Seq<u8>) -> Seq<u8> {
    let n = if path.len() < 511 { path.len() as int } else { 511 };
    path.take(n) + Seq::new((PATH_BUF_LEN - n) as nat, |i: int| 0u8)
}

/// The first `cmd.len()` bytes hold `cmd`, the rest of the path buffer is NUL.
pub open spec fn spawn_path(cmd: Seq<u8>) -> Seq<u8> {
    cmd + Seq::new((PATH_BUF_LEN - cmd.len()) as nat, |i: int| 0u8)
}

/// `bytes` NUL-padded to the path buffer.
fn padded_path(bytes: &[u8], n: usize) -> (r: Vec<u8>)
    requires
        n <= bytes@.len(),
        n <= PATH_BUF_LEN,
    ensures
        r@ == bytes@.take(n as int) + Seq::new((PATH_BUF_LEN - n) as nat, |i: int| 0u8),
{
    let mut r: Vec<u8> = Vec::new();
    let mut i: usize = 0;
    while i < n
        invariant
            i <= n,
            n <= bytes@.len(),
            r@ == bytes@.take(i as int),
        decreases n - i,
    {
        r.push(bytes[i]);
        proof {
            assert(bytes@.take(i + 1) == bytes@.take(i as int).push(bytes@[i as int]));
        }
        i += 1;
    }
    while r.len() < PATH_BUF_LEN
        invariant
            n <= r@.len() <= PATH_BUF_LEN,
            r@.take(n as int) == bytes@.take(n as int),
            forall|k: int| n <= k < r@.len() ==> r@[k] == 0u8,
        decreases PATH_BUF_LEN - r@.len(),
    {
        r.push(0u8);
    }
    proof {
        assert(r@ =~= bytes@.take(n as int) + Seq::new((PATH_BUF_LEN - n) as nat, |i: int| 0u8));
    }
    r
}

/// The result of a file-server call: negative (as a signed number) is an error.
pub open spec fn io_result(res: u64) -> Result<usize, i64> {
    if (res as i64) < 0 {
        Err(res as i64)
    } else {
        Ok(res as usize)
    }
}

impl PdxFile {
    /// The path buffer of the open request for `path`, cut to 511 bytes.
    pub fn open_request(path: &[u8]) -> (r: Vec<u8>)
        ensures
            r@ == open_path(path@),
    {
        let n: usize = if path.len() < 511 {
            path.len()
        } else {
            511
        };
        padded_path(path, n)
    }

    /// The file the file server's answer `res` to an open request gives: a negative
    /// answer is the error.
    pub fn open_reply(res: u64) -> (r: Result<PdxFile, i64>)
        ensures
            (res as i64) < 0 ==> r == Err::<PdxFile, i64>(res as i64),
            (res as i64) >= 0 ==> r == Ok::<PdxFile, i64>(PdxFile { fd: res, server_pd: FILE_SERVER_PD }),
    {
        if (res as i64) < 0 {
            Err(res as i64)
        } else {
            Ok(PdxFile { fd: res, server_pd: FILE_SERVER_PD })
        }
    }

    /// How a transfer of `len` bytes is made.
    pub fn transfer_for(len: usize) -> (t: Transfer)
        ensures
            t == (if len > DIRECT_IO_MAX {
                Transfer::ZeroCopy
            } else {
                Transfer::Direct
            }),
    {
        if len > DIRECT_IO_MAX {
            Transfer::ZeroCopy
        } else {
            Transfer::Direct
        }
    }

    /// The second argument of a direct transfer: the buffer's address with its length
    /// in the upper half.
    pub fn direct_arg(addr: u64, len: usize) -> (a: u64)
        ensures
            a == addr | ((len as u64) << 32u64),
    {
        addr | ((len as u64) << 32u64)
    }

    /// The frame number a zero-copy transfer hands over for a buffer at `addr`.
    pub fn handover_pfn(addr: u64) -> (p: u64)
        ensures
            p == addr / 4096,
    {
        assert(addr >> 12u64 == addr / 4096) by (bit_vector);
        addr >> 12u64
    }

    /// The count of bytes a read or write moved, or its error.
    pub fn io_reply(res: u64) -> (r: Result<usize, i64>)
        ensures
            r == io_result(res),
    {
        if (res as i64) < 0 {
            Err(res as i64)
        } else {
            Ok(res as usize)
        }
    }
}

/// A standard stream of the shell.
#[derive(Debug, Clone, Copy, PartialEq, Eq, Structural)]
pub struct StdStream {
    pub file: PdxFile,
}

impl StdStream {
    pub fn stdin() -> (s: Self)
        ensures
            s.file == (PdxFile { fd: 0, server_pd: FILE_SERVER_PD }),
    {
        StdStream { file: PdxFile { fd: 0, server_pd: FILE_SERVER_PD } }
    }

    pub fn stdout() -> (s: Self)
        ensures
            s.file == (PdxFile { fd: 1, server_pd: FILE_SERVER_PD }),
    {
        StdStream { file: PdxFile { fd: 1, server_pd: FILE_SERVER_PD } }
    }

    pub fn stderr() -> (s: Self)
        ensures
            s.file == (PdxFile { fd: 2, server_pd: FILE_SERVER_PD }),
    {
        StdStream { file: PdxFile { fd: 2, server_pd: FILE_SERVER_PD } }
    }
}

// ---------------------------------------------------------------------------
// Terminal events
// ---------------------------------------------------------------------------

#[derive(Debug, Clone, Copy, PartialEq, Eq, Structural)]
pub enum Key {
    Char(char),
    Backspace,
    Left,
    Right,
    Up,
    Down,
    Ctrl(char),
    Alt(char),
}

#[derive(Debug, Clone, Copy, PartialEq, Eq, Structural)]
pub enum MouseEvent {
    Press(u8, u16, u16),
    Release(u16, u16),
    Hold(u16, u16),
}

#[derive(Debug, Clone, Copy, PartialEq, Eq, Structural)]
pub enum Event {
    Key(Key),
    Mouse(MouseEvent),
}

/// The event of an input message: 1 is a character (its low byte), 2 backspace,
/// 3 an arrow (0 up, 1 down, 2 left, 3 right).
pub open spec fn spec_input_event(num: u64, arg0: u64) -> Option<Event> {
    if num == 1 {
        Some(Event::Key(Key::Char(((arg0 % 256) as u8) as char)))
    } else if num == 2 {
        Some(Event::Key(Key::Backspace))
    } else if num == 3 {
        if arg0 == 0 {
            Some(Event::Key(Key::Up))
        } else if arg0 == 1 {
            Some(Event::Key(Key::Down))
        } else if arg0 == 2 {
            Some(Event::Key(Key::Left))
        } else if arg0 == 3 {
            Some(Event::Key(Key::Right))
        } else {
            None
        }
    } else {
        None
    }
}

/// The event an input message (`num`, `arg0`) carries, if any.
pub fn input_event(num: u64, arg0: u64) -> (e: Option<Event>)
    ensures
        e == spec_input_event(num, arg0),
{
    if num == 1 {
        let b: u8 = (arg0 % 256) as u8;
        Some(Event::Key(Key::Char(b as char)))
    } else if num == 2 {
        Some(Event::Key(Key::Backspace))
    } else if num == 3 {
        if arg0 == 0 {
            Some(Event::Key(Key::Up))
        } else if arg0 == 1 {
            Some(Event::Key(Key::Down))
        } else if arg0 == 2 {
            Some(Event::Key(Key::Left))
        } else if arg0 == 3 {
            Some(Event::Key(Key::Right))
        } else {
            None
        }
    } else {
        None
    }
}

/// Raw terminal mode.
pub struct RawMode {}

impl RawMode {
    /// Raw mode needs no request yet.
    pub fn enable() {
    }

    /// Raw mode needs no request yet.
    pub fn disable() {
    }
}

// ---------------------------------------------------------------------------
// Command lines
// ---------------------------------------------------------------------------

/// One past the last byte of `s` that is not whitespace, scanning from `i` with
/// `last` found so far.
pub open spec fn content_end(s: Seq<u8>, i: int, last: int) -> int
    decreases s.len() - i,
{
    if i < 0 || i >= s.len() {
        last
    } else if ws_len(s, i) > 0 {
        content_end(s, i + ws_len(s, i), last)
    } else {
        content_end(s, i + 1, i + 1)
    }
}

/// `s` without leading and trailing whitespace.
pub open spec fn trim(s: Seq<u8>) -> Seq<u8> {
    let a = skip_ws(s, 0);
    let e = content_end(s, 0, 0);
    if a < e {
        s.subrange(a, e)
    } else {
        Seq::empty()
    }
}

proof fn lemma_content_end(s: Seq<u8>, i: int, last: int)
    requires
        0 <= i <= s.len(),
        0 <= last <= i,
    ensures
        last <= content_end(s, i, last) <= s.len(),
    decreases s.len() - i,
{
    if i < s.len() {
        if ws_len(s, i) > 0 {
            lemma_content_end(s, i + ws_len(s, i), last);
        } else {
            lemma_content_end(s, i + 1, i + 1);
        }
    }
}

/// The text of `s` without leading and trailing whitespace.
pub fn trim_bytes(s: &[u8]) -> (r: Vec<u8>)
    ensures
        r@ == trim(s@),
{
    let n = s.len();
    let mut a: usize = 0;
    while a < n && ws_len_at(s, a) > 0
        invariant
            n == s@.len(),
            a <= n,
            skip_ws(s@, 0) == skip_ws(s@, a as int),
        decreases n - a,
    {
        a = a + ws_len_at(s, a);
    }
    let mut i: usize = 0;
    let mut e: usize = 0;
    while i < n
        invariant
            n == s@.len(),
            e <= i <= n,
            content_end(s@, 0, 0) == content_end(s@, i as int, e as int),
        decreases n - i,
    {
        let w = ws_len_at(s, i);
        if w > 0 {
            i = i + w;
        } else {
            i = i + 1;
            e = i;
        }
    }
    let mut r: Vec<u8> = Vec::new();
    if a < e {
        let mut k: usize = a;
        while k < e
            invariant
                a <= k <= e,
                e <= n,
                n == s@.len(),
                r@ == s@.subrange(a as int, k as int),
            decreases e - k,
        {
            r.push(s[k]);
            k += 1;
        }
    }
    r
}

/// Index of the first `>` of `s`, else `s.len()`.
pub open spec fn redirect_at(s: Seq<u8>, i: int) -> int
    decreases s.len() - i,
{
    if i < 0 || i >= s.len() {
        s.len() as int
    } else if s[i] == 62 {
        i
    } else {
        redirect_at(s, i + 1)
    }
}

proof fn lemma_redirect_at(s: Seq<u8>, i: int)
    requires
        0 <= i <= s.len(),
    ensures
        i <= redirect_at(s, i) <= s.len(),
        redirect_at(s, i) < s.len() ==> s[redirect_at(s, i)] == 62,
    decreases s.len() - i,
{
    if i < s.len() && s[i] != 62 {
        lemma_redirect_at(s, i + 1);
    }
}

/// The bytes of `help`.
pub open spec fn word_help() -> Seq<u8> {
    seq![104u8, 101u8, 108u8, 112u8]
}

/// The bytes of `exit`.
pub open spec fn word_exit() -> Seq<u8> {
    seq![101u8, 120u8, 105u8, 116u8]
}

/// The bytes of `echo `.
pub open spec fn echo_prefix() -> Seq<u8> {
    seq![101u8, 99u8, 104u8, 111u8, 32u8]
}

/// What a command does.
#[derive(Debug)]
pub enum IonCommand {
    /// Print the list of builtins.
    Help,
    /// Ask the kernel to end the shell.
    Exit,
    /// Print the text, then a newline.
    Echo(Vec<u8>),
    /// Spawn the program named by the command.
    External(Vec<u8>),
}

/// The command `cmd` is, as a builtin or a program to spawn.
pub open spec fn command_matches(c: IonCommand, cmd: Seq<u8>) -> bool {
    if cmd == word_help() {
        c is Help
    } else if cmd == word_exit() {
        c is Exit
    } else if cmd.len() >= 5 && cmd.take(5) == echo_prefix() {
        c matches IonCommand::Echo(m) && m@ == cmd.skip(5)
    } else {
        c matches IonCommand::External(p) && p@ == cmd
    }
}

/// What a command line does.
#[derive(Debug)]
pub enum IonPlan {
    /// The line is blank.
    Nothing,
    /// Run the command with output to the shell's output.
    Run(IonCommand),
    /// Open `path` for writing and run the command with output to it.
    Redirect { command: IonCommand, path: Vec<u8> },
}

/// The text of a received line: itself when it is UTF-8, else empty.
pub open spec fn line_text(line: Seq<u8>) -> Seq<u8> {
    if valid_utf8(line) {
        line
    } else {
        Seq::empty()
    }
}

/// Whether `p` is the plan of the line `line`.
pub open spec fn plan_matches(p: IonPlan, line: Seq<u8>) -> bool {
    let t = trim(line_text(line));
    let k = redirect_at(t, 0);
    if t.len() == 0 {
        p is Nothing
    } else if k < t.len() {
        p matches IonPlan::Redirect { command, path } && command_matches(command, trim(t.take(k)))
            && path@ == trim(t.skip(k + 1))
    } else {
        p matches IonPlan::Run(c) && command_matches(c, t)
    }
}

fn starts_with_echo(cmd: &[u8]) -> (r: bool)
    ensures
        r == (cmd@.len() >= 5 && cmd@.take(5) == echo_prefix()),
{
    if cmd.len() < 5 {
        return false;
    }
    let r = cmd[0] == 101 && cmd[1] == 99 && cmd[2] == 104 && cmd[3] == 111 && cmd[4] == 32;
    proof {
        if r {
            assert(cmd@.take(5) =~= echo_prefix());
        } else {
            if cmd@.take(5) == echo_prefix() {
                assert(cmd@.take(5)[0] == 101u8);
                assert(cmd@.take(5)[4] == 32u8);
            }
        }
    }
    r
}

fn copy_range(s: &[u8], a: usize, b: usize) -> (r: Vec<u8>)
    requires
        a <= b <= s@.len(),
    ensures
        r@ == s@.subrange(a as int, b as int),
{
    let mut r: Vec<u8> = Vec::new();
    let mut k: usize = a;
    while k < b
        invariant
            a <= k <= b,
            b <= s@.len(),
            r@ == s@.subrange(a as int, k as int),
        decreases b - k,
    {
        r.push(s[k]);
        k += 1;
    }
    r
}

/// The command `cmd` is.
pub fn classify_command(cmd: &[u8]) -> (c: IonCommand)
    ensures
        command_matches(c, cmd@),
{
    let help: [u8; 4] = [104u8, 101u8, 108u8, 112u8];
    let exit: [u8; 4] = [101u8, 120u8, 105u8, 116u8];
    proof {
        assert(help@ == word_help());
        assert(exit@ == word_exit());
    }
    if bytes_same(cmd, help.as_slice()) {
        IonCommand::Help
    } else if bytes_same(cmd, exit.as_slice()) {
        IonCommand::Exit
    } else if starts_with_echo(cmd) {
        let m = copy_range(cmd, 5, cmd.len());
        proof {
            assert(m@ == cmd@.skip(5));
        }
        IonCommand::Echo(m)
    } else {
        let p = copy_range(cmd, 0, cmd.len());
        proof {
            assert(p@ == cmd@);
        }
        IonCommand::External(p)
    }
}

fn bytes_same(a: &[u8], b: &[u8]) -> (r: bool)
    ensures
        r == (a@ == b@),
{
    if a.len() != b.len() {
        return false;
    }
    let mut i: usize = 0;
    while i < a.len()
        invariant
            a@.len() == b@.len(),
            i <= a@.len(),
            forall|k: int| 0 <= k < i ==> a@[k] == b@[k],
        decreases a@.len() - i,
    {
        if a[i] != b[i] {
            return false;
        }
        i += 1;
    }
    proof {
        assert(a@ == b@);
    }
    true
}

/// The plan of a line the shell read: blank, a command, or a command whose output
/// is redirected to a file (`command > path`).
pub fn handle_command(line: &[u8]) -> (p: IonPlan)
    ensures
        plan_matches(p, line@),
{
    let empty: [u8; 0] = [];
    let text: &[u8] = if utf8_accepts(line) {
        line
    } else {
        empty.as_slice()
    };
    proof {
        assert(text@ == line_text(line@));
    }
    let t = trim_bytes(text);
    if t.len() == 0 {
        return IonPlan::Nothing;
    }
    let mut k: usize = 0;
    while k < t.len() && t[k] != 62
        invariant
            k <= t@.len(),
            redirect_at(t@, 0) == redirect_at(t@, k as int),
        decreases t@.len() - k,
    {
        k += 1;
    }
    if k < t.len() {
        let head = copy_range(t.as_slice(), 0, k);
        let tail = copy_range(t.as_slice(), k + 1, t.len());
        proof {
            assert(head@ == t@.take(k as int));
            assert(tail@ == t@.skip(k + 1));
        }
        let command_text = trim_bytes(head.as_slice());
        let path = trim_bytes(tail.as_slice());
        let command = classify_command(command_text.as_slice());
        IonPlan::Redirect { command, path }
    } else {
        IonPlan::Run(classify_command(t.as_slice()))
    }
}

/// The path buffer that spawns program `cmd`.
pub fn spawn_request(cmd: &[u8]) -> (r: Vec<u8>)
    requires
        cmd@.len() <= PATH_BUF_LEN,
    ensures
        r@ == spawn_path(cmd@),
{
    let r = padded_path(cmd, cmd.len());
    proof {
        assert(cmd@.take(cmd@.len() as int) == cmd@);
    }
    r
}

/// `Builtins: help, exit, ls, cat` and a newline.
pub open spec fn help_text() -> Seq<u8> {
    seq![66u8, 117u8, 105u8, 108u8, 116u8, 105u8, 110u8, 115u8, 58u8, 32u8, 104u8, 101u8, 108u8, 112u8, 44u8, 32u8, 101u8, 120u8, 105u8, 116u8, 44u8, 32u8, 108u8, 115u8, 44u8, 32u8, 99u8, 97u8, 116u8, 10u8]
}

/// The list of builtins the shell prints for `help`.
pub fn help_message() -> (t: Vec<u8>)
    ensures
        t@ == help_text(),
{
    let a: [u8; 30] = [66u8, 117u8, 105u8, 108u8, 116u8, 105u8, 110u8, 115u8, 58u8, 32u8, 104u8, 101u8, 108u8, 112u8, 44u8, 32u8, 101u8, 120u8, 105u8, 116u8, 44u8, 32u8, 108u8, 115u8, 44u8, 32u8, 99u8, 97u8, 116u8, 10u8];
    let t = copy_range(a.as_slice(), 0, 30);
    proof {
        assert(a@ == help_text());
        assert(a@.subrange(0, 30) == a@);
    }
    t
}

} // verus!
