//! The sexbuild package builder: its store client's replies, recipes and their
//! defaults, what cooking a recipe takes, the source checksum, and the layout of a
//! binary package (SPD) file.
use vstd::prelude::*;
use vstd::string::StringSliceAdditionalSpecFns;
use crate::debug::{all_digits, digit_value};
use crate::le_bytes::{le64, push_le64};
use crate::text::hex_digit;
use sha2::Digest;

verus! {

// ---------------------------------------------------------------------------
// The store client
// ---------------------------------------------------------------------------

/// Capability slot of the sexshop store.
pub const SEXSHOP_SLOT: u32 = 4;

/// Failures of the store and the memory manager.
#[derive(Debug, Clone, Copy, PartialEq, Eq, Structural)]
pub enum StoreError {
    /// The store refused an object (its status).
    PutFailed(u64),
    /// The object is not stored, or the read failed.
    GetFailed,
    /// No physical memory could be allocated.
    AllocFailed,
}

/// The client of the sexshop object store.
#[derive(Debug, Clone, Copy, PartialEq, Eq, Structural)]
pub struct PdxClient {
    pub slot: u32,
}

impl PdxClient {
    pub fn new() -> (c: Self)
        ensures
            c.slot == SEXSHOP_SLOT,
    {
        PdxClient { slot: SEXSHOP_SLOT }
    }

    /// The outcome of an object upload the store answered with `res`: 0 is success.
    pub fn put_reply(&self, res: u64) -> (r: Result<(), StoreError>)
        ensures
            res == 0 ==> r == Ok::<(), StoreError>(()),
            res != 0 ==> r == Err::<(), StoreError>(StoreError::PutFailed(res)),
    {
        if res != 0 {
            Err(StoreError::PutFailed(res))
        } else {
            Ok(())
        }
    }

    /// The frame of an object the store answered `res` for: 0 and `u64::MAX` mean
    /// it is missing.
    pub fn get_reply(&self, res: u64) -> (r: Result<u64, StoreError>)
        ensures
            (res == 0 || res == u64::MAX) ==> r == Err::<u64, StoreError>(StoreError::GetFailed),
            !(res == 0 || res == u64::MAX) ==> r == Ok::<u64, StoreError>(res),
    {
        if res == 0 || res == u64::MAX {
            Err(StoreError::GetFailed)
        } else {
            Ok(res)
        }
    }

    /// Whether the store holds an object, from its answer `res`.
    pub fn exists_reply(&self, res: u64) -> (b: bool)
        ensures
            b == (res == 1),
    {
        res == 1
    }

    /// Pages to allocate for `size` bytes.
    pub fn alloc_pages(&self, size: u64) -> (p: u64)
        requires
            size + 4095 <= u64::MAX,
        ensures
            p == (size + 4095) / 4096,
    {
        (size + 4095) / 4096
    }

    /// The address of an allocation the memory manager answered `res` for: 0 and
    /// `u64::MAX` are failures.
    pub fn alloc_reply(&self, res: u64) -> (r: Result<u64, StoreError>)
        ensures
            (res == 0 || res == u64::MAX) ==> r == Err::<u64, StoreError>(StoreError::AllocFailed),
            !(res == 0 || res == u64::MAX) ==> r == Ok::<u64, StoreError>(res),
    {
        if res == 0 || res == u64::MAX {
            Err(StoreError::AllocFailed)
        } else {
            Ok(res)
        }
    }
}

// ---------------------------------------------------------------------------
// Recipes
// ---------------------------------------------------------------------------

/// A build recipe.
pub struct Recipe {
    pub package: Option<Package>,
    pub source: Option<Source>,
    pub build: Option<Build>,
}

/// The package a recipe makes.
pub struct Package {
    pub name: String,
    pub version: String,
}

/// Where a recipe's source comes from.
pub struct Source {
    pub git: Option<String>,
    pub tar: Option<String>,
    pub sha256: Option<String>,
}

/// How a recipe is built.
pub struct Build {
    pub template: Option<String>,
    pub depends: Option<Vec<String>>,
    pub manifest: Option<String>,
}

/// The version of a package that does not name one.
pub fn default_version() -> (v: String)
    ensures
        v@ == "0.1.0"@,
{
    "0.1.0".to_owned()
}

/// The version a recipe builds: its package's, else the default.
pub fn recipe_version(recipe: &Recipe) -> (v: String)
    ensures
        match recipe.package {
            Some(p) => v@ == p.version@,
            None => v@ == "0.1.0"@,
        },
{
    match &recipe.package {
        Some(p) => p.version.clone(),
        None => default_version(),
    }
}

/// The recipe of a package built by the legacy shell builder.
pub fn legacy_recipe(name: &str) -> (r: Recipe)
    ensures
        r.package matches Some(p) && p.name@ == name@ && p.version@ == "legacy"@,
        r.source is None,
        r.build matches Some(b) && b.template matches Some(t) && t@ == "shell"@ && b.depends is None
            && b.manifest is None,
{
    Recipe {
        package: Some(Package { name: name.to_owned(), version: "legacy".to_owned() }),
        source: None,
        build: Some(Build { template: Some("shell".to_owned()), depends: None, manifest: None }),
    }
}

/// A cookbook recipe without a build section is built with cargo.
pub fn with_default_build(recipe: Recipe) -> (r: Recipe)
    ensures
        recipe.build is None ==> (r.build matches Some(b) && b.template matches Some(t) && t@ == "cargo"@
            && b.depends is None && b.manifest is None),
        recipe.build is Some ==> r.build == recipe.build,
        r.package == recipe.package,
        r.source == recipe.source,
{
    let mut recipe = recipe;
    if recipe.build.is_none() {
        recipe.build = Some(Build { template: Some("cargo".to_owned()), depends: None, manifest: None });
    }
    recipe
}

/// How a recipe is cooked.
#[derive(Debug, Clone, Copy, PartialEq, Eq, Structural)]
pub enum CookPlan {
    /// Run the legacy shell builder.
    LegacyShell,
    /// Fetch the source, then build with cargo.
    FetchThenBuild,
    /// Build with cargo.
    Build,
}

/// The cooking of a recipe: a `shell` build template goes to the legacy builder; a
/// recipe with a source fetches it before the cargo build.
pub fn cook_plan(recipe: &Recipe) -> (p: CookPlan)
    ensures
        p == (if recipe.build matches Some(b) && b.template matches Some(t) && t@ == "shell"@ {
            CookPlan::LegacyShell
        } else if recipe.source is Some {
            CookPlan::FetchThenBuild
        } else {
            CookPlan::Build
        }),
{
    let shell = "shell".to_owned();
    match &recipe.build {
        Some(b) => match &b.template {
            Some(t) => {
                if *t == shell {
                    return CookPlan::LegacyShell;
                }
            },
            None => {},
        },
        None => {},
    }
    if recipe.source.is_some() {
        CookPlan::FetchThenBuild
    } else {
        CookPlan::Build
    }
}

/// Directories the builder works in, and its store client.
pub struct SexBuilder {
    pub recipes_dir: String,
    pub templates_dir: String,
    pub build_dir: String,
    pub binpkgs_dir: String,
    pub sasroot: String,
    pub pdx: PdxClient,
}

impl SexBuilder {
    pub fn new() -> (b: Self)
        ensures
            b.recipes_dir@ == "recipes"@,
            b.templates_dir@ == "srcpkgs"@,
            b.build_dir@ == "build_dir"@,
            b.binpkgs_dir@ == "../binpkgs"@,
            b.sasroot@ == "../sasroot"@,
            b.pdx.slot == SEXSHOP_SLOT,
    {
        SexBuilder {
            recipes_dir: "recipes".to_owned(),
            templates_dir: "srcpkgs".to_owned(),
            build_dir: "build_dir".to_owned(),
            binpkgs_dir: "../binpkgs".to_owned(),
            sasroot: "../sasroot".to_owned(),
            pdx: PdxClient::new(),
        }
    }
}

// ---------------------------------------------------------------------------
// Hashes and their text
// ---------------------------------------------------------------------------

/// The SHA-256 digest of `data`, as the `sha2` crate computes it.
pub uninterp spec fn sha256_digest(data: Seq<u8>) -> Seq<u8>;

/// Calls `sha2::Sha256::digest`. The contract names the digest `sha256_digest` and
/// claims nothing else of it beyond its 32 bytes.
#[verifier::external_body]
fn sha256(data: &[u8]) -> (h: [u8; 32])
    ensures
        h@ == sha256_digest(data@),
{
    sha2::Sha256::digest(data).into()
}

/// Two lowercase hexadecimal digits per byte of `data`.
pub open spec fn lower_hex(data: Seq<u8>) -> Seq<u8>
    decreases data.len(),
{
    if data.len() == 0 {
        Seq::empty()
    } else {
        lower_hex(data.drop_last()) + seq![
            hex_digit((data.last() / 16) as nat),
            hex_digit((data.last() % 16) as nat),
        ]
    }
}

/// Calls `hex::encode`, which writes each byte as two lowercase hexadecimal digits.
#[verifier::external_body]
fn hex_encode(data: &[u8]) -> (s: String)
    ensures
        s@ == lower_hex(data@).map_values(|b: u8| b as char),
{
    hex::encode(data)
}

/// The byte that the hexadecimal digit pair at `2 * i` of `text` writes.
pub open spec fn digit_pair(text: Seq<u8>, i: int) -> u8 {
    let hi = match digit_value(text[2 * i], 16) {
        Some(d) => d,
        None => 0,
    };
    let lo = match digit_value(text[2 * i + 1], 16) {
        Some(d) => d,
        None => 0,
    };
    (hi * 16 + lo) as u8
}

/// Calls `hex::decode_to_slice` into a 32-byte buffer. It succeeds exactly when
/// `text` is 64 hexadecimal digits (either case), each pair giving one byte.
#[verifier::external_body]
fn hex_decode_32(text: &[u8]) -> (r: Option<[u8; 32]>)
    ensures
        r is Some <==> (text@.len() == 64 && all_digits(text@, 16)),
        r matches Some(b) ==> forall|i: int| 0 <= i < 32 ==> #[trigger] b@[i] == digit_pair(text@, i),
{
    let mut out = [0u8; 32];
    match hex::decode_to_slice(text, &mut out) {
        Ok(()) => Some(out),
        Err(_) => None,
    }
}

/// The store key of a source whose expected checksum is written `expected`, when it
/// is a well-formed hexadecimal SHA-256.
pub fn store_key(expected: &str) -> (r: Option<[u8; 32]>)
    ensures
        r is Some <==> (expected.spec_bytes().len() == 64 && all_digits(expected.spec_bytes(), 16)),
        r matches Some(b) ==> forall|i: int| 0 <= i < 32 ==> #[trigger] b@[i] == digit_pair(expected.spec_bytes(), i),
{
    hex_decode_32(expected.as_bytes())
}

/// A source whose checksum differs from the recipe's.
#[derive(Debug)]
pub struct HashMismatch {
    pub expected: String,
    pub actual: String,
}

/// Checks fetched source bytes against the checksum text `expected`: their digest
/// when its lowercase hexadecimal text is `expected`, else the mismatch.
pub fn verify_source_hash(expected: &str, data: &[u8]) -> (r: Result<[u8; 32], HashMismatch>)
    ensures
        match r {
            Ok(h) => h@ == sha256_digest(data@) && lower_hex(sha256_digest(data@)).map_values(
                |b: u8| b as char,
            ) == expected@,
            Err(m) => m.expected@ == expected@ && m.actual@ == lower_hex(sha256_digest(data@)).map_values(
                |b: u8| b as char,
            ) && m.actual@ != expected@,
        },
{
    let h = sha256(data);
    let actual = hex_encode(h.as_slice());
    let want = expected.to_owned();
    if actual != want {
        Err(HashMismatch { expected: want, actual })
    } else {
        Ok(h)
    }
}

// ---------------------------------------------------------------------------
// Binary packages
// ---------------------------------------------------------------------------

/// The magic bytes that open an SPD file: `SEXPAC01`.
pub open spec fn spd_magic() -> Seq<u8> {
    seq![83u8, 69u8, 88u8, 80u8, 65u8, 67u8, 48u8, 49u8]
}

/// A name field of 32 bytes: the name's first 32 bytes, NUL-padded.
pub open spec fn name_field(name: Seq<u8>) -> Seq<u8> {
    let n = if name.len() < 32 { name.len() as int } else { 32 };
    name.take(n) + Seq::new((32 - n) as nat, |i: int| 0u8)
}

/// An SPD file: magic, name field, payload size (little-endian), digest, payload,
/// then NUL bytes up to a whole number of 4096-byte pages.
pub open spec fn spd_image(name: Seq<u8>, data: Seq<u8>, hash: Seq<u8>) -> Seq<u8> {
    let body = spd_magic() + name_field(name) + le64(data.len() as u64) + hash + data;
    body + Seq::new(((4096 - body.len() % 4096) % 4096) as nat, |i: int| 0u8)
}

fn push_bytes(out: &mut Vec<u8>, b: &[u8])
    ensures
        final(out)@ == old(out)@ + b@,
{
    let mut i: usize = 0;
    while i < b.len()
        invariant
            i <= b@.len(),
            out@ == old(out)@ + b@.take(i as int),
        decreases b@.len() - i,
    {
        out.push(b[i]);
        proof {
            assert(b@.take(i + 1) == b@.take(i as int).push(b@[i as int]));
        }
        i += 1;
    }
    proof {
        assert(b@.take(b@.len() as int) == b@);
    }
}

/// The bytes of the SPD file of package `name` with payload `data` and its digest
/// `hash`.
pub fn spd_bytes(name: &[u8], data: &[u8], hash: &[u8; 32]) -> (image: Vec<u8>)
    requires
        data@.len() + 80 + 4096 <= usize::MAX,
    ensures
        image@ == spd_image(name@, data@, hash@),
{
    let mut out: Vec<u8> = Vec::new();
    let magic: [u8; 8] = [83u8, 69u8, 88u8, 80u8, 65u8, 67u8, 48u8, 49u8];
    push_bytes(&mut out, magic.as_slice());
    let n: usize = if name.len() < 32 {
        name.len()
    } else {
        32
    };
    let mut i: usize = 0;
    let ghost head = out@;
    while i < 32
        invariant
            i <= 32,
            n <= 32,
            n <= name@.len(),
            n == (if name@.len() < 32 { name@.len() as int } else { 32 }),
            out@ == head + name_field(name@).take(i as int),
        decreases 32 - i,
    {
        let b: u8 = if i < n {
            name[i]
        } else {
            0
        };
        out.push(b);
        proof {
            assert(name_field(name@)[i as int] == b);
            assert(name_field(name@).take(i + 1) == name_field(name@).take(i as int).push(b));
        }
        i += 1;
    }
    proof {
        assert(name_field(name@).take(32) == name_field(name@));
    }
    push_le64(&mut out, data.len() as u64);
    push_bytes(&mut out, hash.as_slice());
    push_bytes(&mut out, data);
    let ghost body = out@;
    proof {
        assert(body == spd_magic() + name_field(name@) + le64(data@.len() as u64) + hash@ + data@);
    }
    let pad: usize = (4096 - out.len() % 4096) % 4096;
    let mut k: usize = 0;
    while k < pad
        invariant
            k <= pad,
            out@ == body + Seq::new(k as nat, |j: int| 0u8),
        decreases pad - k,
    {
        out.push(0u8);
        proof {
            assert(Seq::new((k + 1) as nat, |j: int| 0u8) == Seq::new(k as nat, |j: int| 0u8).push(0u8));
        }
        k += 1;
    }
    out
}

/// The SPD of a package: its digest, its file name and its bytes.
pub struct SpdPackage {
    pub hash: [u8; 32],
    pub file_name: Vec<u8>,
    pub image: Vec<u8>,
}

/// Packs the binary `data` of package `name` at `version`: the digest it is stored
/// under, the file name `<name>-<version>.spd`, and the file's bytes.
pub fn pack_spd(name: &str, version: &str, data: &[u8]) -> (p: SpdPackage)
    requires
        data@.len() + 80 + 4096 <= usize::MAX,
    ensures
        p.hash@ == sha256_digest(data@),
        p.file_name@ == name.spec_bytes() + seq![45u8] + version.spec_bytes() + seq![46u8, 115u8, 112u8, 100u8],
        p.image@ == spd_image(name.spec_bytes(), data@, sha256_digest(data@)),
{
    let hash = sha256(data);
    let mut file_name: Vec<u8> = Vec::new();
    push_bytes(&mut file_name, name.as_bytes());
    file_name.push(45u8);
    push_bytes(&mut file_name, version.as_bytes());
    file_name.push(46u8);
    file_name.push(115u8);
    file_name.push(112u8);
    file_name.push(100u8);
    let image = spd_bytes(name.as_bytes(), data, &hash);
    SpdPackage { hash, file_name, image }
}

/// An SPD file fills whole 4096-byte pages and begins with the magic, the name field,
/// the payload size and the digest, followed by the payload itself.
pub proof fn law_spd_layout(name: Seq<u8>, data: Seq<u8>, hash: Seq<u8>)
    requires
        hash.len() == 32,
        data.len() <= u64::MAX,
    ensures
        spd_image(name, data, hash).len() % 4096 == 0,
        spd_image(name, data, hash).take(8) == spd_magic(),
        spd_image(name, data, hash).subrange(8, 40) == name_field(name),
        spd_image(name, data, hash).subrange(48, 80) == hash,
        spd_image(name, data, hash).subrange(80, 80 + data.len() as int) == data,
{
    let body = spd_magic() + name_field(name) + le64(data.len() as u64) + hash + data;
    assert(le64(data.len() as u64).len() == 8);
    let len = body.len();
    assert(len == 80 + data.len());
    let pad = (4096 - len % 4096) % 4096;
    assert((len + pad) % 4096 == 0) by (nonlinear_arith)
        requires
            pad == (4096 - len % 4096) % 4096,
            len >= 0,
    ;
    let img = spd_image(name, data, hash);
    assert(img.take(8) =~= spd_magic());
    assert(img.subrange(8, 40) =~= name_field(name));
    assert(img.subrange(48, 80) =~= hash);
    assert(img.subrange(80, 80 + data.len() as int) =~= data);
}

} // verus!
