//! The sexshop store service: its storage front, binary cache, transaction stack,
//! service registry and request dispatch. Calls into the VFS are made by the caller,
//! driven by the steps this module hands out.
use vstd::prelude::*;
use vstd::utf8::valid_utf8;

verus! {

/// Byte length of a package name field in a store request.
pub const NAME_FIELD_LEN: usize = 256;
/// Byte length of the VFS path buffer.
pub const VFS_PATH_LEN: usize = 512;
/// Error returned when a path does not fit the VFS path buffer.
pub const E2BIG: i32 = -7;
/// Error returned when the VFS does not know the package.
pub const ENOENT: i32 = -2;
/// Error returned when the VFS read fails.
pub const EIO: i32 = -5;
/// Protection key of the pages the store hands over.
pub const STORE_PKU_KEY: u32 = 7;
/// Frame number answered for an object read.
pub const OBJECT_PFN: u64 = 0x5678;
/// Capacity of the service registry.
pub const REGISTRY_CAPACITY: usize = 16;

/// A run of physical pages handed from one domain to another.
#[derive(Clone, Copy, Debug, PartialEq, Eq, Structural)]
pub struct PageHandover {
    pub pfn: u64,
    pub pku_key: u32,
}

/// A request to the store service.
#[derive(Clone, Copy, Debug)]
pub enum StoreRequest {
    FetchPackage { name: [u8; 256] },
    CacheBinary { name: [u8; 256], image: PageHandover },
    TransactionBegin,
    TransactionCommit,
    TransactionAbort,
    KVGet { key: [u8; 64] },
    KVSet { key: [u8; 64], value_paddr: u64, value_len: u64 },
    KVDelete { key: [u8; 64] },
    ObjectPut { hash: [u8; 32], data_paddr: u64, data_len: u64 },
    ObjectGet { hash: [u8; 32] },
    ObjectExists { hash: [u8; 32] },
    ObjectMove { hash: [u8; 32], target_node: u32 },
    SyncFilesystem,
    Stats,
    /// Any request the store does not serve.
    Unsupported,
}

/// The reply registers of a store request.
#[derive(Clone, Copy, Debug, PartialEq, Eq, Structural)]
pub struct StoreReply {
    pub status: i64,
    pub size: u64,
}

// ---------------------------------------------------------------------------
// Package names
// ---------------------------------------------------------------------------

/// Calls `core::str::from_utf8` and reports whether it accepted `bytes`, which it
/// does exactly when they are well-formed UTF-8 (no overlong forms, no surrogates).
#[verifier::external_body]
pub(crate) fn utf8_accepts(bytes: &[u8]) -> (r: bool)
    ensures
        r == valid_utf8(bytes@),
{
    core::str::from_utf8(bytes).is_ok()
}

/// Index of the first non-NUL byte of `s` at or after `i`, else `s.len()`.
pub open spec fn first_non_nul(s: Seq<u8>, i: int) -> int
    decreases s.len() - i,
{
    if i < 0 || i >= s.len() {
        s.len() as int
    } else if s[i] != 0 {
        i
    } else {
        first_non_nul(s, i + 1)
    }
}

/// One past the last non-NUL byte of `s` before `j`, else 0.
pub open spec fn end_non_nul(s: Seq<u8>, j: int) -> int
    decreases j,
{
    if j <= 0 || j > s.len() {
        0
    } else if s[j - 1] != 0 {
        j
    } else {
        end_non_nul(s, j - 1)
    }
}

/// `s` without its leading and trailing NUL bytes.
pub open spec fn trim_nul(s: Seq<u8>) -> Seq<u8> {
    let a = first_non_nul(s, 0);
    let b = end_non_nul(s, s.len() as int);
    if a < b {
        s.subrange(a, b)
    } else {
        Seq::empty()
    }
}

/// The package name a request field holds: its text without NUL padding, or the empty
/// name when the field is not UTF-8.
pub open spec fn request_name(field: Seq<u8>) -> Seq<u8> {
    if valid_utf8(field) {
        trim_nul(field)
    } else {
        Seq::empty()
    }
}

proof fn lemma_first_non_nul(s: Seq<u8>, i: int)
    requires
        0 <= i <= s.len(),
    ensures
        i <= first_non_nul(s, i) <= s.len(),
        forall|k: int| i <= k < first_non_nul(s, i) ==> s[k] == 0,
    decreases s.len() - i,
{
    if i < s.len() && s[i] == 0 {
        lemma_first_non_nul(s, i + 1);
    }
}

proof fn lemma_end_non_nul(s: Seq<u8>, j: int)
    requires
        0 <= j <= s.len(),
    ensures
        0 <= end_non_nul(s, j) <= j,
        forall|k: int| end_non_nul(s, j) <= k < j ==> s[k] == 0,
        end_non_nul(s, j) > 0 ==> s[end_non_nul(s, j) - 1] != 0,
    decreases j,
{
    if j > 0 && s[j - 1] == 0 {
        lemma_end_non_nul(s, j - 1);
    }
}

/// The package name carried by a request's name field.
pub fn package_name(field: &[u8; 256]) -> (r: Vec<u8>)
    ensures
        r@ == request_name(field@),
{
    let bytes: &[u8] = field.as_slice();
    if !utf8_accepts(bytes) {
        return Vec::new();
    }
    let n: usize = bytes.len();
    let mut a: usize = 0;
    while a < n && bytes[a] == 0
        invariant
            n == bytes@.len(),
            a <= n,
            first_non_nul(bytes@, 0) == first_non_nul(bytes@, a as int),
        decreases n - a,
    {
        a += 1;
    }
    let mut b: usize = n;
    while b > 0 && bytes[b - 1] == 0
        invariant
            n == bytes@.len(),
            b <= n,
            end_non_nul(bytes@, n as int) == end_non_nul(bytes@, b as int),
        decreases b,
    {
        b -= 1;
    }
    let mut out: Vec<u8> = Vec::new();
    if a < b {
        let mut i: usize = a;
        while i < b
            invariant
                a <= i <= b,
                b <= n,
                n == bytes@.len(),
                out@ == bytes@.subrange(a as int, i as int),
            decreases b - i,
        {
            out.push(bytes[i]);
            i += 1;
        }
    }
    proof {
        assert(bytes@ == field@);
        assert(out@ == trim_nul(field@));
    }
    out
}

// ---------------------------------------------------------------------------
// Storage
// ---------------------------------------------------------------------------

/// The bytes of `/pkg/`.
pub open spec fn pkg_prefix() -> Seq<u8> {
    seq![47u8, 112u8, 107u8, 103u8, 47u8]
}

/// The VFS path of package `name`: `/pkg/` then the name, NUL-padded to the buffer.
pub open spec fn package_path(name: Seq<u8>) -> Seq<u8> {
    pkg_prefix() + name + Seq::new((VFS_PATH_LEN - 5 - name.len()) as nat, |i: int| 0u8)
}

/// Where the fetch of a package stands: a VFS call the caller must make, or the
/// outcome.
#[derive(Debug)]
pub enum FetchStep {
    /// Open the file at `path`; its descriptor comes back.
    Open { path: Vec<u8> },
    /// Read the first page of `fd` through a zero-copy handover; its frame comes back.
    Read { fd: u64 },
    Done { result: Result<PageHandover, i32> },
}

/// The storage front of the store: a count of objects written.
pub struct Storage {
    pub object_count: u64,
}

impl Storage {
    pub fn new() -> (s: Self)
        ensures
            s.object_count == 0,
    {
        Storage { object_count: 0 }
    }

    /// First step of fetching package `name`: open `/pkg/<name>`, or `E2BIG` when the
    /// path does not fit.
    pub fn fetch_package_begin(&self, name: &[u8]) -> (r: FetchStep)
        ensures
            5 + name@.len() > VFS_PATH_LEN ==> r == (FetchStep::Done { result: Err(E2BIG) }),
            5 + name@.len() <= VFS_PATH_LEN ==> (r matches FetchStep::Open { path } && path@
                == package_path(name@)),
    {
        if name.len() > VFS_PATH_LEN - 5 {
            return FetchStep::Done { result: Err(E2BIG) };
        }
        let mut path: Vec<u8> = Vec::new();
        path.push(47u8);
        path.push(112u8);
        path.push(107u8);
        path.push(103u8);
        path.push(47u8);
        assert(path@ == pkg_prefix());
        let mut i: usize = 0;
        while i < name.len()
            invariant
                i <= name@.len(),
                name@.len() <= VFS_PATH_LEN - 5,
                path@ == pkg_prefix() + name@.subrange(0, i as int),
            decreases name@.len() - i,
        {
            path.push(name[i]);
            proof {
                assert(name@.subrange(0, i + 1) == name@.subrange(0, i as int).push(name@[i as int]));
            }
            i += 1;
        }
        let ghost filled = path@;
        while path.len() < VFS_PATH_LEN
            invariant
                path@.len() <= VFS_PATH_LEN,
                filled.len() == 5 + name@.len(),
                path@.len() >= filled.len(),
                path@.subrange(0, filled.len() as int) == filled,
                forall|k: int| filled.len() <= k < path@.len() ==> path@[k] == 0u8,
            decreases VFS_PATH_LEN - path@.len(),
        {
            path.push(0u8);
        }
        proof {
            assert(name@.subrange(0, name@.len() as int) == name@);
            assert(path@ == package_path(name@));
        }
        FetchStep::Open { path }
    }

    /// The step after the VFS answered `reply` to `step`: a missing file gives
    /// `ENOENT`, a failed read `EIO`, a read frame the handover.
    pub fn fetch_package_advance(&self, step: FetchStep, reply: u64) -> (r: FetchStep)
        ensures
            match step {
                FetchStep::Open { .. } => if reply == u64::MAX {
                    r == (FetchStep::Done { result: Err(ENOENT) })
                } else {
                    r == (FetchStep::Read { fd: reply })
                },
                FetchStep::Read { .. } => if reply == u64::MAX {
                    r == (FetchStep::Done { result: Err(EIO) })
                } else {
                    r == (FetchStep::Done {
                        result: Ok(PageHandover { pfn: reply, pku_key: STORE_PKU_KEY }),
                    })
                },
                FetchStep::Done { result } => r == (FetchStep::Done { result }),
            },
    {
        match step {
            FetchStep::Open { .. } => {
                if reply == u64::MAX {
                    FetchStep::Done { result: Err(ENOENT) }
                } else {
                    FetchStep::Read { fd: reply }
                }
            },
            FetchStep::Read { .. } => {
                if reply == u64::MAX {
                    FetchStep::Done { result: Err(EIO) }
                } else {
                    FetchStep::Done { result: Ok(PageHandover { pfn: reply, pku_key: STORE_PKU_KEY }) }
                }
            },
            FetchStep::Done { result } => FetchStep::Done { result },
        }
    }

    /// Value of a key; no key is stored yet, so every lookup yields 0.
    pub fn kv_get(&self, key: &[u8; 64]) -> (r: Result<u64, i32>)
        ensures
            r == Ok::<u64, i32>(0),
    {
        Ok(0)
    }

    /// Accepts a key's new value (status 0).
    pub fn kv_set(&self, key: &[u8; 64], paddr: u64, len: u64) -> (r: i32)
        ensures
            r == 0,
    {
        0
    }

    /// Accepts an object and counts it (status 0).
    pub fn object_put(&mut self, hash: &[u8; 32], paddr: u64, len: u64) -> (r: i32)
        ensures
            r == 0,
            final(self).object_count == old(self).object_count.wrapping_add(1),
    {
        self.object_count = self.object_count.wrapping_add(1);
        0
    }

    /// The pages of an object.
    pub fn object_get(&self, hash: &[u8; 32]) -> (r: Result<PageHandover, i32>)
        ensures
            r == Ok::<PageHandover, i32>(PageHandover { pfn: OBJECT_PFN, pku_key: STORE_PKU_KEY }),
    {
        Ok(PageHandover { pfn: OBJECT_PFN, pku_key: STORE_PKU_KEY })
    }

    /// Whether an object is stored; none is found.
    pub fn object_exists(&self, hash: &[u8; 32]) -> (r: bool)
        ensures
            !r,
    {
        false
    }

    /// Accepts moving an object to another node (status 0).
    pub fn object_move(&self, hash: &[u8; 32], target_node: u32) -> (r: i32)
        ensures
            r == 0,
    {
        0
    }
}

// ---------------------------------------------------------------------------
// Build cache
// ---------------------------------------------------------------------------

/// The builds recorded per workspace mask.
pub struct BuildCache {
    pub workspace_builds: Vec<(u64, &'static str)>,
}

impl BuildCache {
    pub fn new() -> (c: Self)
        ensures
            c.workspace_builds@.len() == 0,
    {
        BuildCache { workspace_builds: Vec::new() }
    }

    /// Appends a build of `workspace` with its status.
    pub fn record_build(&mut self, workspace: u64, status: &'static str)
        ensures
            final(self).workspace_builds@ == old(self).workspace_builds@.push((workspace, status)),
    {
        self.workspace_builds.push((workspace, status));
    }
}

// ---------------------------------------------------------------------------
// Binary cache
// ---------------------------------------------------------------------------

/// The cache after storing `image` under `name`: the entry of that name is replaced,
/// or a new one is appended.
pub open spec fn binaries_after_insert(
    c: Seq<(Seq<u8>, PageHandover)>,
    name: Seq<u8>,
    image: PageHandover,
) -> Seq<(Seq<u8>, PageHandover)> {
    let i = binary_position(c, name);
    if i < c.len() {
        c.update(i, (name, image))
    } else {
        c.push((name, image))
    }
}

/// Index of the first entry named `name` at or after `i`, else `c.len()`.
pub open spec fn binary_position_from(c: Seq<(Seq<u8>, PageHandover)>, name: Seq<u8>, i: int) -> int
    decreases c.len() - i,
{
    if i < 0 || i >= c.len() {
        c.len() as int
    } else if c[i].0 == name {
        i
    } else {
        binary_position_from(c, name, i + 1)
    }
}

/// Index of the first entry named `name`, else `c.len()`.
pub open spec fn binary_position(c: Seq<(Seq<u8>, PageHandover)>, name: Seq<u8>) -> int {
    binary_position_from(c, name, 0)
}

proof fn lemma_binary_position_from(c: Seq<(Seq<u8>, PageHandover)>, name: Seq<u8>, i: int)
    requires
        0 <= i <= c.len(),
    ensures
        i <= binary_position_from(c, name, i) <= c.len(),
        binary_position_from(c, name, i) < c.len() ==> c[binary_position_from(c, name, i)].0 == name,
    decreases c.len() - i,
{
    if i < c.len() && c[i].0 != name {
        lemma_binary_position_from(c, name, i + 1);
    }
}

/// The cached binaries, by name.
pub struct BinaryCache {
    pub entries: Vec<(Vec<u8>, PageHandover)>,
}

impl View for BinaryCache {
    type V = Seq<(Seq<u8>, PageHandover)>;

    open spec fn view(&self) -> Seq<(Seq<u8>, PageHandover)> {
        self.entries@.map_values(|e: (Vec<u8>, PageHandover)| (e.0@, e.1))
    }
}

impl BinaryCache {
    pub fn new() -> (c: Self)
        ensures
            c@.len() == 0,
    {
        BinaryCache { entries: Vec::new() }
    }

    /// Stores `image` under `name`, replacing an earlier entry of that name.
    pub fn insert(&mut self, name: Vec<u8>, image: PageHandover)
        ensures
            final(self)@ == binaries_after_insert(old(self)@, name@, image),
    {
        let ghost c = self@;
        let mut i: usize = 0;
        while i < self.entries.len()
            invariant
                i <= self.entries@.len(),
                c == self@,
                c == old(self)@,
                binary_position(c, name@) == binary_position_from(c, name@, i as int),
            decreases self.entries@.len() - i,
        {
            if bytes_equal(&self.entries[i].0, &name) {
                let ghost nm = name@;
                proof {
                    assert(c[i as int].0 == nm);
                    assert(binaries_after_insert(c, nm, image) == c.update(i as int, (nm, image)));
                }
                self.entries.set(i, (name, image));
                proof {
                    assert(self@ == c.update(i as int, (nm, image)));
                }
                return;
            }
            i += 1;
        }
        self.entries.push((name, image));
        proof {
            assert(self@ == c.push((name@, image)));
        }
    }
}

/// Whether two byte strings are equal.
pub fn bytes_equal(a: &Vec<u8>, b: &Vec<u8>) -> (r: bool)
    ensures
        r == (a@ == b@),
{
    if a.len() != b.len() {
        return false;
    }
    let mut i: usize = 0;
    while i < a.len()
        invariant
            a@.len() == b@.len(),
            i <= a@.len(),
            forall|k: int| 0 <= k < i ==> a@[k] == b@[k],
        decreases a@.len() - i,
    {
        if a[i] != b[i] {
            return false;
        }
        i += 1;
    }
    proof {
        assert(a@ == b@);
    }
    true
}

// ---------------------------------------------------------------------------
// Transactions
// ---------------------------------------------------------------------------

/// The open transactions: the next id to hand out and the stack of pending ids.
pub struct Transactions {
    pub transaction_id: u64,
    pub pending: Vec<u64>,
}

impl Transactions {
    pub fn new() -> (t: Self)
        ensures
            t.transaction_id == 1,
            t.pending@.len() == 0,
    {
        Transactions { transaction_id: 1, pending: Vec::new() }
    }

    /// Opens a transaction and returns its id.
    pub fn begin(&mut self) -> (id: u64)
        ensures
            id == old(self).transaction_id,
            final(self).transaction_id == old(self).transaction_id.wrapping_add(1),
            final(self).pending@ == old(self).pending@.push(id),
    {
        let id = self.transaction_id;
        self.transaction_id = self.transaction_id.wrapping_add(1);
        self.pending.push(id);
        id
    }

    /// Commits the newest pending transaction: 0, or -1 when none is pending.
    pub fn commit(&mut self) -> (r: i32)
        ensures
            final(self).transaction_id == old(self).transaction_id,
            old(self).pending@.len() == 0 ==> r == -1 && final(self).pending@ == old(self).pending@,
            old(self).pending@.len() > 0 ==> r == 0 && final(self).pending@ == old(self).pending@.drop_last(),
    {
        match self.pending.pop() {
            Some(_) => 0,
            None => -1,
        }
    }

    /// Aborts the newest pending transaction: 0, or -1 when none is pending.
    pub fn abort(&mut self) -> (r: i32)
        ensures
            final(self).transaction_id == old(self).transaction_id,
            old(self).pending@.len() == 0 ==> r == -1 && final(self).pending@ == old(self).pending@,
            old(self).pending@.len() > 0 ==> r == 0 && final(self).pending@ == old(self).pending@.drop_last(),
    {
        match self.pending.pop() {
            Some(_) => 0,
            None => -1,
        }
    }
}

// ---------------------------------------------------------------------------
// Service registry
// ---------------------------------------------------------------------------

/// The registered services: (name, protection domain), in order of registration.
pub struct ServiceRegistry {
    pub entries: Vec<([u8; 32], u32)>,
}

/// The domain of the first service registered as `name`, else 0.
pub open spec fn registry_lookup(e: Seq<([u8; 32], u32)>, name: Seq<u8>, i: int) -> u32
    decreases e.len() - i,
{
    if i < 0 || i >= e.len() {
        0
    } else if e[i].0@ == name {
        e[i].1
    } else {
        registry_lookup(e, name, i + 1)
    }
}

impl ServiceRegistry {
    pub fn new() -> (r: Self)
        ensures
            r.entries@.len() == 0,
    {
        ServiceRegistry { entries: Vec::new() }
    }

    /// Records service `name` of domain `pd`; a full registry ignores it.
    pub fn register(&mut self, name: [u8; 32], pd: u32)
        ensures
            old(self).entries@.len() < REGISTRY_CAPACITY ==> final(self).entries@ == old(
                self,
            ).entries@.push((name, pd)),
            old(self).entries@.len() >= REGISTRY_CAPACITY ==> final(self).entries@ == old(
                self,
            ).entries@,
    {
        if self.entries.len() < REGISTRY_CAPACITY {
            self.entries.push((name, pd));
        }
    }

    /// The domain of the first service registered as `name`, or 0 when none is.
    pub fn lookup(&self, name: &[u8; 32]) -> (r: u32)
        ensures
            r == registry_lookup(self.entries@, name@, 0),
    {
        let mut i: usize = 0;
        while i < self.entries.len()
            invariant
                i <= self.entries@.len(),
                registry_lookup(self.entries@, name@, 0) == registry_lookup(self.entries@, name@, i as int),
            decreases self.entries@.len() - i,
        {
            if names_equal(&self.entries[i].0, name) {
                return self.entries[i].1;
            }
            i += 1;
        }
        0
    }
}

/// Whether two service names are equal.
fn names_equal(a: &[u8; 32], b: &[u8; 32]) -> (r: bool)
    ensures
        r == (a@ == b@),
{
    let mut i: usize = 0;
    while i < 32
        invariant
            i <= 32,
            a@.len() == 32,
            b@.len() == 32,
            forall|k: int| 0 <= k < i ==> a@[k] == b@[k],
        decreases 32 - i,
    {
        if a[i] != b[i] {
            return false;
        }
        i += 1;
    }
    proof {
        assert(a@ == b@);
    }
    true
}

// ---------------------------------------------------------------------------
// Request dispatch
// ---------------------------------------------------------------------------

/// What the store service holds, as plain values.
pub struct ShopModel {
    pub ipc_ops_total: u64,
    pub zero_copy_handovers: u64,
    pub object_count: u64,
    pub binaries: Seq<(Seq<u8>, PageHandover)>,
    pub next_transaction: u64,
    pub pending: Seq<u64>,
}

/// The store service: counters, storage front, binary cache and transactions.
pub struct StoreService {
    pub ipc_ops_total: u64,
    pub zero_copy_handovers: u64,
    pub storage: Storage,
    pub cache: BinaryCache,
    pub transactions: Transactions,
}

/// What the caller does after a request was dispatched.
#[derive(Debug)]
pub enum StoreAction {
    /// The reply is complete.
    Replied,
    /// Fetch package `name` through the VFS and complete the reply with the outcome.
    Fetch { name: Vec<u8> },
}

/// The service after handling `msg`.
pub open spec fn shop_after(m: ShopModel, msg: StoreRequest) -> ShopModel {
    let m1 = ShopModel { ipc_ops_total: m.ipc_ops_total.wrapping_add(1), ..m };
    match msg {
        StoreRequest::CacheBinary { name, image } => ShopModel {
            binaries: binaries_after_insert(m1.binaries, request_name(name@), image),
            ..m1
        },
        StoreRequest::TransactionBegin => ShopModel {
            next_transaction: m1.next_transaction.wrapping_add(1),
            pending: m1.pending.push(m1.next_transaction),
            ..m1
        },
        StoreRequest::TransactionCommit => ShopModel {
            pending: if m1.pending.len() > 0 { m1.pending.drop_last() } else { m1.pending },
            ..m1
        },
        StoreRequest::TransactionAbort => ShopModel {
            pending: if m1.pending.len() > 0 { m1.pending.drop_last() } else { m1.pending },
            ..m1
        },
        StoreRequest::ObjectPut { .. } => ShopModel {
            object_count: m1.object_count.wrapping_add(1),
            ..m1
        },
        _ => m1,
    }
}

/// The reply registers after handling `msg` in state `m` (before the request was
/// counted); a package fetch leaves them to the fetch's completion.
pub open spec fn reply_after(m: ShopModel, msg: StoreRequest, r: StoreReply) -> StoreReply {
    let pop_status: i64 = if m.pending.len() > 0 { 0i64 } else { -1i64 };
    match msg {
        StoreRequest::FetchPackage { .. } => r,
        StoreRequest::TransactionBegin => StoreReply { status: m.next_transaction as i64, ..r },
        StoreRequest::TransactionCommit => StoreReply { status: pop_status, ..r },
        StoreRequest::TransactionAbort => StoreReply { status: pop_status, ..r },
        StoreRequest::KVGet { .. } => StoreReply { status: 0, size: 0 },
        StoreRequest::ObjectGet { .. } => StoreReply { status: 0, size: OBJECT_PFN },
        StoreRequest::Stats => StoreReply {
            status: m.ipc_ops_total.wrapping_add(1) as i64,
            size: m.zero_copy_handovers,
        },
        StoreRequest::Unsupported => StoreReply { status: -1i64, ..r },
        _ => StoreReply { status: 0, ..r },
    }
}

/// The reply registers once a package fetch ended with `result`.
pub open spec fn fetch_reply(result: Result<PageHandover, i32>, r: StoreReply) -> StoreReply {
    match result {
        Ok(h) => StoreReply { status: 0, size: h.pfn },
        Err(e) => StoreReply { status: e as i64, ..r },
    }
}

impl StoreService {
    pub open spec fn model(&self) -> ShopModel {
        ShopModel {
            ipc_ops_total: self.ipc_ops_total,
            zero_copy_handovers: self.zero_copy_handovers,
            object_count: self.storage.object_count,
            binaries: self.cache@,
            next_transaction: self.transactions.transaction_id,
            pending: self.transactions.pending@,
        }
    }

    pub fn new() -> (s: Self)
        ensures
            s.model() == (ShopModel {
                ipc_ops_total: 0,
                zero_copy_handovers: 0,
                object_count: 0,
                binaries: Seq::empty(),
                next_transaction: 1,
                pending: Seq::empty(),
            }),
    {
        let s = StoreService {
            ipc_ops_total: 0,
            zero_copy_handovers: 0,
            storage: Storage::new(),
            cache: BinaryCache::new(),
            transactions: Transactions::new(),
        };
        proof {
            assert(s.cache@ == Seq::<(Seq<u8>, PageHandover)>::empty());
            assert(s.transactions.pending@ == Seq::<u64>::empty());
        }
        s
    }

    /// Dispatches one store request: counts it, updates the service and fills the
    /// reply, or hands a package fetch back to the caller.
    pub fn handle_store_message(&mut self, msg: &StoreRequest, reply: &mut StoreReply) -> (r:
        StoreAction)
        ensures
            final(self).model() == shop_after(old(self).model(), *msg),
            *final(reply) == reply_after(old(self).model(), *msg, *old(reply)),
            match *msg {
                StoreRequest::FetchPackage { name } => r matches StoreAction::Fetch { name: n }
                    && n@ == request_name(name@),
                _ => r is Replied,
            },
    {
        self.ipc_ops_total = self.ipc_ops_total.wrapping_add(1);
        match msg {
            StoreRequest::FetchPackage { name } => {
                let n = package_name(name);
                return StoreAction::Fetch { name: n };
            },
            StoreRequest::CacheBinary { name, image } => {
                let n = package_name(name);
                self.cache.insert(n, *image);
                reply.status = 0;
            },
            StoreRequest::TransactionBegin => {
                let id = self.transactions.begin();
                reply.status = id as i64;
            },
            StoreRequest::TransactionCommit => {
                reply.status = self.transactions.commit() as i64;
            },
            StoreRequest::TransactionAbort => {
                reply.status = self.transactions.abort() as i64;
            },
            StoreRequest::KVGet { key } => {
                match self.storage.kv_get(key) {
                    Ok(val) => {
                        reply.status = 0;
                        reply.size = val;
                    },
                    Err(e) => {
                        reply.status = e as i64;
                    },
                }
            },
            StoreRequest::KVSet { key, value_paddr, value_len } => {
                reply.status = self.storage.kv_set(key, *value_paddr, *value_len) as i64;
            },
            StoreRequest::KVDelete { .. } => {
                reply.status = 0;
            },
            StoreRequest::ObjectPut { hash, data_paddr, data_len } => {
                reply.status = self.storage.object_put(hash, *data_paddr, *data_len) as i64;
            },
            StoreRequest::ObjectGet { hash } => {
                match self.storage.object_get(hash) {
                    Ok(h) => {
                        reply.status = 0;
                        reply.size = h.pfn;
                    },
                    Err(e) => {
                        reply.status = e as i64;
                    },
                }
            },
            StoreRequest::ObjectExists { hash } => {
                reply.status = if self.storage.object_exists(hash) {
                    1
                } else {
                    0
                };
            },
            StoreRequest::ObjectMove { hash, target_node } => {
                reply.status = self.storage.object_move(hash, *target_node) as i64;
            },
            StoreRequest::SyncFilesystem => {
                reply.status = 0;
            },
            StoreRequest::Stats => {
                reply.status = self.ipc_ops_total as i64;
                reply.size = self.zero_copy_handovers;
            },
            StoreRequest::Unsupported => {
                reply.status = -1;
            },
        }
        StoreAction::Replied
    }

    /// Completes the reply of a package fetch: the frame on success, else the error.
    pub fn complete_fetch(&self, result: Result<PageHandover, i32>, reply: &mut StoreReply)
        ensures
            *final(reply) == fetch_reply(result, *old(reply)),
    {
        match result {
            Ok(h) => {
                reply.status = 0;
                reply.size = h.pfn;
            },
            Err(e) => {
                reply.status = e as i64;
            },
        }
    }
}

// ---------------------------------------------------------------------------
// Laws
// ---------------------------------------------------------------------------

/// A commit right after a begin succeeds and leaves the pending stack as it was
/// before the begin; so does an abort.
pub proof fn law_commit_after_begin(m: ShopModel, r: StoreReply)
    ensures
        shop_after(shop_after(m, StoreRequest::TransactionBegin), StoreRequest::TransactionCommit).pending
            == m.pending,
        reply_after(shop_after(m, StoreRequest::TransactionBegin), StoreRequest::TransactionCommit, r).status
            == 0,
        shop_after(shop_after(m, StoreRequest::TransactionBegin), StoreRequest::TransactionAbort).pending
            == m.pending,
        reply_after(shop_after(m, StoreRequest::TransactionBegin), StoreRequest::TransactionAbort, r).status
            == 0,
{
    assert(m.pending.push(m.next_transaction).drop_last() == m.pending);
}

/// With nothing pending, commit and abort answer -1 and change no transaction.
pub proof fn law_commit_without_begin(m: ShopModel, r: StoreReply)
    requires
        m.pending.len() == 0,
    ensures
        reply_after(m, StoreRequest::TransactionCommit, r).status == -1,
        reply_after(m, StoreRequest::TransactionAbort, r).status == -1,
        shop_after(m, StoreRequest::TransactionCommit).pending == m.pending,
        shop_after(m, StoreRequest::TransactionAbort).pending == m.pending,
{
}

/// After a binary is cached under a name, that name has exactly one entry, holding
/// the new image.
pub proof fn law_cache_insert_then_find(c: Seq<(Seq<u8>, PageHandover)>, name: Seq<u8>, image: PageHandover)
    ensures
        ({
            let c2 = binaries_after_insert(c, name, image);
            &&& exists|k: int| 0 <= k < c2.len() && c2[k] == (name, image)
            &&& c2.len() == c.len() || c2.len() == c.len() + 1
            &&& forall|k: int| 0 <= k < c.len() && c[k].0 != name ==> c2[k] == c[k]
        }),
{
    let c2 = binaries_after_insert(c, name, image);
    let i = binary_position(c, name);
    lemma_binary_position_from(c, name, 0);
    if i < c.len() {
        assert(c2[i] == (name, image));
    } else {
        assert(c2[c.len() as int] == (name, image));
    }
}

/// A registered service is found by its name, unless a service of that name was
/// registered before it.
pub proof fn law_register_then_lookup(e: Seq<([u8; 32], u32)>, name: [u8; 32], pd: u32)
    requires
        registry_lookup(e, name@, 0) == 0,
        forall|k: int| 0 <= k < e.len() ==> e[k].0@ != name@,
    ensures
        registry_lookup(e.push((name, pd)), name@, 0) == pd,
{
    lemma_registry_lookup_push(e, name, pd, 0);
}

proof fn lemma_registry_lookup_push(e: Seq<([u8; 32], u32)>, name: [u8; 32], pd: u32, i: int)
    requires
        0 <= i <= e.len(),
        forall|k: int| 0 <= k < e.len() ==> e[k].0@ != name@,
    ensures
        registry_lookup(e.push((name, pd)), name@, i) == pd,
    decreases e.len() - i,
{
    if i < e.len() {
        lemma_registry_lookup_push(e, name, pd, i + 1);
    }
}

} // verus!
