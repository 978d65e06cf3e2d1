//! silk-shell: the app manifest capability contract, shell orchestration state and the
//! framebuffer canvas.
use vstd::prelude::*;

verus! {

pub const PANEL_HEIGHT: u32 = 48;
pub const LAUNCHER_WIDTH: u32 = 320;
pub const SCREEN_WIDTH: u32 = 1280;
pub const SCREEN_HEIGHT: u32 = 720;
pub const BG_COLOR: u32 = 0xFF1E1E2E;
pub const OP_WINDOW_CREATE: u64 = 0xE4;
pub const OP_APP_SURFACE_REQ: u64 = 0xFA;
pub const APP_RUNTIME_ABI_VERSION: u8 = 1;
pub const OP_SET_BG: u64 = 0x100;
pub const OP_RENDER_BAR: u64 = 0x101;

/// No extra capabilities requested.
pub const CAP_NONE: u8 = 0x00;
/// May send events to the Bell notification service.
pub const CAP_BELL: u8 = 0x01;
/// May access SexFiles VFS storage.
pub const CAP_SEXFILES: u8 = 0x02;
/// Every known capability bit; any other bit is rejected as unknown.
pub const CAP_KNOWN: u8 = 0x03;

/// Capability bits an app-like PD may declare for its surface. Only known bits are
/// representable: display/framebuffer and shell-policy ownership have no bit.
#[derive(Debug, Clone, Copy, PartialEq, Eq, Structural)]
pub struct AppCapabilityBits(u8);

impl AppCapabilityBits {
    /// The raw bits.
    pub closed spec fn spec_bits(self) -> u8 {
        self.0
    }

    #[verifier::type_invariant]
    closed spec fn only_known_bits(self) -> bool {
        self.0 <= 3
    }

    /// Accept `bits` when every set bit is known; reject otherwise.
    pub fn validate(bits: u8) -> (r: Result<AppCapabilityBits, ()>)
        ensures
            r is Ok <==> bits <= 3,
            r matches Ok(c) ==> c.spec_bits() == bits,
    {
        assert(bits & !3u8 != 0 <==> bits > 3) by (bit_vector);
        if bits & !CAP_KNOWN != 0 {
            return Err(());
        }
        Ok(AppCapabilityBits(bits))
    }

    /// The raw bits (never above 3).
    pub fn bits(&self) -> (b: u8)
        ensures
            b == self.spec_bits(),
            b <= 3,
    {
        proof {
            use_type_invariant(self);
        }
        self.0
    }

    pub fn has_bell(&self) -> (b: bool)
        ensures
            b == (self.spec_bits() % 2 == 1),
    {
        let v = self.0;
        assert(v & 1 != 0 <==> v % 2 == 1) by (bit_vector);
        v & CAP_BELL != 0
    }

    pub fn has_sexfiles(&self) -> (b: bool)
        ensures
            b == ((self.spec_bits() / 2) % 2 == 1),
    {
        let v = self.0;
        assert(v & 2 != 0 <==> (v / 2) % 2 == 1) by (bit_vector);
        v & CAP_SEXFILES != 0
    }

    /// Human-readable summary for logging.
    pub fn describe(&self) -> (s: &'static str)
        ensures
            s@ == describe_bits(self.spec_bits()),
    {
        let v = self.0;
        assert(1u8 | 2u8 == 3u8) by (bit_vector);
        if v == 0 {
            "none"
        } else if v == CAP_BELL {
            "bell"
        } else if v == CAP_SEXFILES {
            "sexfiles"
        } else if v == CAP_BELL | CAP_SEXFILES {
            "bell+sexfiles"
        } else {
            "unknown"
        }
    }
}

pub open spec fn describe_bits(b: u8) -> Seq<char> {
    if b == 0 {
        "none"@
    } else if b == 1 {
        "bell"@
    } else if b == 2 {
        "sexfiles"@
    } else if b == 3 {
        "bell+sexfiles"@
    } else {
        "unknown"@
    }
}

/// App surface manifest: bounded identity and capability declaration, packed into the
/// three arguments of OP_APP_SURFACE_REQ. The third argument holds the capability bits
/// (bits 0-7), the app id (bits 8-23), reserved zeros (24-55) and the version 0 (56-63).
#[derive(Debug, Clone, Copy)]
pub struct AppManifest {
    pub surface_id: u64,
    pub title_id: u64,
    pub app_id: u16,
    pub capabilities: AppCapabilityBits,
}

/// The packed third argument for an app id and capability bits.
pub open spec fn pack_arg2(app_id: u16, caps: u8) -> u64 {
    ((app_id as u64) * 256 + caps as u64) as u64
}

/// The manifest a packed argument triple decodes to, if any: every bit above 23 must be
/// clear (version 0, reserved zero) and the capability bits known.
pub open spec fn spec_unpack(surface_id: u64, title_id: u64, arg2: u64) -> Option<(u64, u64, u16, u8)> {
    if arg2 < 0x100_0000 && arg2 % 256 <= 3 {
        Some((surface_id, title_id, (arg2 / 256) as u16, (arg2 % 256) as u8))
    } else {
        None
    }
}

impl AppManifest {
    /// Pack the manifest into the three PDX arguments.
    pub fn pack(&self) -> (r: (u64, u64, u64))
        ensures
            r == (self.surface_id, self.title_id, pack_arg2(self.app_id, self.capabilities.spec_bits())),
    {
        let caps = self.capabilities.bits();
        let app = self.app_id;
        let arg2 = (0u64 << 56u64) | ((app as u64) << 8u64) | (caps as u64);
        assert((0u64 << 56u64) | ((app as u64) << 8u64) | (caps as u64) == (app as u64) * 256 + (
        caps as u64)) by (bit_vector);
        (self.surface_id, self.title_id, arg2)
    }

    /// Unpack a manifest from PDX arguments, checking version, reserved bits and
    /// capability bits. The surface and title ids are passed through unchecked.
    pub fn unpack(surface_id: u64, title_id: u64, arg2: u64) -> (r: Result<AppManifest, ()>)
        ensures
            match spec_unpack(surface_id, title_id, arg2) {
                Some((s, t, a, c)) => r matches Ok(m) && m.surface_id == s && m.title_id == t
                    && m.app_id == a && m.capabilities.spec_bits() == c,
                None => r is Err,
            },
    {
        let version = (arg2 & 0xFF00_0000_0000_0000) >> 56u64;
        let reserved = arg2 & 0x00FF_FFFF_FF00_0000;
        assert((arg2 & 0xFF00_0000_0000_0000) >> 56u64 == 0 && arg2 & 0x00FF_FFFF_FF00_0000 == 0
            <==> arg2 < 0x100_0000) by (bit_vector);
        if version != 0 {
            return Err(());
        }
        if reserved != 0 {
            return Err(());
        }
        let cap_bits = (arg2 & 0xFF) as u8;
        assert(arg2 & 0xFF == arg2 % 256) by (bit_vector);
        let capabilities = match AppCapabilityBits::validate(cap_bits) {
            Ok(c) => c,
            Err(()) => return Err(()),
        };
        let app_id = ((arg2 & 0x0000_0000_00FF_FF00) >> 8u64) as u16;
        assert(arg2 < 0x100_0000 ==> (arg2 & 0x0000_0000_00FF_FF00) >> 8u64 == arg2 / 256)
            by (bit_vector);
        Ok(AppManifest { surface_id, title_id, app_id, capabilities })
    }

    /// Whether the app identified itself with a non-zero app id.
    pub fn has_identity(&self) -> (b: bool)
        ensures
            b == (self.app_id != 0),
    {
        self.app_id != 0
    }
}

/// Unpacking what was packed gives the manifest back.
pub proof fn law_unpack_pack(surface_id: u64, title_id: u64, app_id: u16, caps: u8)
    requires
        caps <= 3,
    ensures
        spec_unpack(surface_id, title_id, pack_arg2(app_id, caps)) == Some(
            (surface_id, title_id, app_id, caps),
        ),
{
    let a = pack_arg2(app_id, caps);
    assert(a < 0x100_0000) by (nonlinear_arith)
        requires
            a == (app_id as u64) * 256 + caps as u64,
            app_id < 0x1_0000,
            caps <= 3,
    ;
    assert(a / 256 == app_id && a % 256 == caps) by (nonlinear_arith)
        requires
            a == (app_id as u64) * 256 + caps as u64,
            caps <= 3,
    ;
}

/// Packing what unpacking accepted gives the arguments back.
pub proof fn law_pack_unpack(surface_id: u64, title_id: u64, arg2: u64)
    requires
        spec_unpack(surface_id, title_id, arg2) is Some,
    ensures
        ({
            let (s, t, a, c) = spec_unpack(surface_id, title_id, arg2).unwrap();
            (s, t, pack_arg2(a, c)) == (surface_id, title_id, arg2)
        }),
{
    assert((arg2 / 256) * 256 + arg2 % 256 == arg2) by (nonlinear_arith);
    assert(arg2 < 0x100_0000 ==> arg2 / 256 < 0x1_0000) by (nonlinear_arith);
}

/// Orchestration state for the shell's active execution context.
#[derive(Debug, Clone, Copy, PartialEq, Eq, Structural)]
pub struct ShellState {
    pub panel_window_id: u32,
    pub launcher_window_id: u32,
    pub bg_color: u32,
    pub is_launcher_open: bool,
    pub current_mouse_x: i32,
    pub current_mouse_y: i32,
}

impl Default for ShellState {
    fn default() -> (s: ShellState)
        ensures
            s == (ShellState {
                panel_window_id: 0,
                launcher_window_id: 0,
                bg_color: 0,
                is_launcher_open: false,
                current_mouse_x: 0,
                current_mouse_y: 0,
            }),
    {
        ShellState {
            panel_window_id: 0,
            launcher_window_id: 0,
            bg_color: 0,
            is_launcher_open: false,
            current_mouse_x: 0,
            current_mouse_y: 0,
        }
    }
}

/// Handle to an isolated execution capsule managed by the shell.
#[derive(Debug, Clone, Copy, PartialEq, Eq, Structural)]
pub struct CapsuleHandle(pub u32);

/// Client for the display compositor capability; its calls are made by the runtime.
pub struct PdxCompositorClient;


/// Index of pixel (`px`, `py`) in a row-major framebuffer `cw` pixels wide.
pub open spec fn pixel_index(cw: int, px: int, py: int) -> int {
    py * cw + px
}

/// Whether pixel (`px`, `py`) lies in the rectangle at (`x`, `y`) of size `w` x `h`,
/// clipped to a `cw` x `ch` canvas.
pub open spec fn in_rect(px: int, py: int, x: u32, y: u32, w: u32, h: u32, cw: u32, ch: u32) -> bool {
    &&& y <= py < y + h
    &&& py < ch
    &&& x <= px < x + w
    &&& px < cw
}

proof fn lemma_pixel_index_injective(cw: int, qx: int, qy: int, px: int, py: int)
    requires
        0 <= qx < cw,
        0 <= px < cw,
        0 <= qy,
        0 <= py,
        pixel_index(cw, qx, qy) == pixel_index(cw, px, py),
    ensures
        qx == px && qy == py,
{
    if qy < py {
        assert(qy * cw + cw <= py * cw) by (nonlinear_arith)
            requires
                qy < py,
                0 <= cw,
        ;
    } else if qy > py {
        assert(py * cw + cw <= qy * cw) by (nonlinear_arith)
            requires
                py < qy,
                0 <= cw,
        ;
    }
}

proof fn lemma_pixel_index_bound(cw: int, ch: int, px: int, py: int)
    requires
        0 <= px < cw,
        0 <= py < ch,
    ensures
        0 <= pixel_index(cw, px, py) < cw * ch,
{
    assert(py * cw + px < cw * ch) by (nonlinear_arith)
        requires
            0 <= px < cw,
            0 <= py < ch,
    ;
    assert(0 <= py * cw) by (nonlinear_arith)
        requires
            0 <= py,
            0 <= cw,
    ;
}

/// A row-major 32-bit framebuffer of `width` x `height` pixels.
pub struct Canvas {
    fb: Vec<u32>,
    width: u32,
    height: u32,
}

impl View for Canvas {
    type V = Seq<u32>;

    closed spec fn view(&self) -> Seq<u32> {
        self.fb@
    }
}

impl Canvas {
    pub closed spec fn spec_width(&self) -> u32 {
        self.width
    }

    pub closed spec fn spec_height(&self) -> u32 {
        self.height
    }

    /// The buffer holds exactly `width * height` pixels, a count that fits in `u32`.
    pub open spec fn wf(&self) -> bool {
        &&& self@.len() == self.spec_width() * self.spec_height()
        &&& self.spec_width() * self.spec_height() <= u32::MAX
    }

    /// Pixel (`px`, `py`).
    pub open spec fn pixel(&self, px: int, py: int) -> u32 {
        self@[pixel_index(self.spec_width() as int, px, py)]
    }

    /// Wrap a framebuffer of `w * h` pixels.
    pub fn new(fb: Vec<u32>, w: u32, h: u32) -> (c: Canvas)
        requires
            fb@.len() == w * h,
            w * h <= u32::MAX,
        ensures
            c.wf(),
            c@ == fb@,
            c.spec_width() == w,
            c.spec_height() == h,
    {
        Canvas { fb, width: w, height: h }
    }

    pub fn width(&self) -> (w: u32)
        ensures
            w == self.spec_width(),
    {
        self.width
    }

    pub fn height(&self) -> (h: u32)
        ensures
            h == self.spec_height(),
    {
        self.height
    }

    /// The framebuffer contents.
    pub fn pixels(&self) -> (p: &[u32])
        ensures
            p@ == self@,
    {
        self.fb.as_slice()
    }

    /// Fill the rectangle at (`x`, `y`) of size `w` x `h`, clipped to the canvas.
    pub fn fill_rect(&mut self, x: u32, y: u32, w: u32, h: u32, color: u32)
        requires
            old(self).wf(),
            y + h <= u32::MAX,
            x + w <= u32::MAX,
        ensures
            final(self).wf(),
            final(self).spec_width() == old(self).spec_width(),
            final(self).spec_height() == old(self).spec_height(),
            forall|px: int, py: int|
                0 <= px < old(self).spec_width() && 0 <= py < old(self).spec_height() ==> #[trigger] final(self).pixel(px, py) == if in_rect(
                    px,
                    py,
                    x,
                    y,
                    w,
                    h,
                    old(self).spec_width(),
                    old(self).spec_height(),
                ) {
                    color
                } else {
                    old(self).pixel(px, py)
                },
    {
        let cw = self.width;
        let ch = self.height;
        let y_end = if y + h < ch {
            y + h
        } else {
            ch
        };
        let x_end = if x + w < cw {
            x + w
        } else {
            cw
        };
        let mut py = y;
        while py < y_end
            invariant
                self.wf(),
                self.spec_width() == cw,
                self.spec_height() == ch,
                cw == old(self).spec_width(),
                ch == old(self).spec_height(),
                old(self).wf(),
                y <= py,
                py <= y_end || py == y,
                y_end <= ch,
                y_end as int == if y + h < ch { y + h } else { ch as int },
                x_end as int == if x + w < cw { x + w } else { cw as int },
                forall|qx: int, qy: int|
                    0 <= qx < cw && 0 <= qy < ch ==> #[trigger] self@[pixel_index(cw as int, qx, qy)]
                        == if x <= qx < x_end && y <= qy < py {
                        color
                    } else {
                        old(self)@[pixel_index(cw as int, qx, qy)]
                    },
            decreases y_end - py,
        {
            let mut px = x;
            while px < x_end
                invariant
                    self.wf(),
                    self.spec_width() == cw,
                    self.spec_height() == ch,
                    cw == old(self).spec_width(),
                    ch == old(self).spec_height(),
                    old(self).wf(),
                    y <= py < y_end,
                    y_end <= ch,
                    x <= px,
                    px <= x_end || px == x,
                    x_end <= cw,
                    forall|qx: int, qy: int|
                        0 <= qx < cw && 0 <= qy < ch ==> #[trigger] self@[pixel_index(
                            cw as int,
                            qx,
                            qy,
                        )] == if (x <= qx < x_end && y <= qy < py) || (qy == py && x <= qx < px) {
                            color
                        } else {
                            old(self)@[pixel_index(cw as int, qx, qy)]
                        },
                decreases x_end - px,
            {
                proof {
                    lemma_pixel_index_bound(cw as int, ch as int, px as int, py as int);
                }
                let idx = (py * cw + px) as usize;
                if idx < self.fb.len() {
                    self.fb.set(idx, color);
                }
                proof {
                    assert forall|qx: int, qy: int|
                        0 <= qx < cw && 0 <= qy < ch implies #[trigger] self@[pixel_index(
                            cw as int,
                            qx,
                            qy,
                        )] == if (x <= qx < x_end && y <= qy < py) || (qy == py && x <= qx < px
                            + 1) {
                            color
                        } else {
                            old(self)@[pixel_index(cw as int, qx, qy)]
                        } by {
                        lemma_pixel_index_bound(cw as int, ch as int, qx, qy);
                        if pixel_index(cw as int, qx, qy) == idx {
                            lemma_pixel_index_injective(cw as int, qx, qy, px as int, py as int);
                        }
                    }
                }
                px += 1;
            }
            py += 1;
        }
    }

    /// Draw the shell panel: the bar across the top and, when open, the launcher area.
    pub fn draw_panel(&mut self, state: &ShellState)
        requires
            old(self).wf(),
        ensures
            final(self).wf(),
            final(self).spec_width() == old(self).spec_width(),
            final(self).spec_height() == old(self).spec_height(),
            forall|px: int, py: int|
                0 <= px < old(self).spec_width() && 0 <= py < old(self).spec_height() ==> #[trigger] final(self).pixel(px, py) == if state.is_launcher_open && in_rect(
                    px,
                    py,
                    0,
                    48,
                    320,
                    400,
                    old(self).spec_width(),
                    old(self).spec_height(),
                ) {
                    0xFF1E1E2Eu32
                } else if in_rect(
                    px,
                    py,
                    0,
                    0,
                    old(self).spec_width(),
                    48,
                    old(self).spec_width(),
                    old(self).spec_height(),
                ) {
                    0xFF0A0A14u32
                } else {
                    old(self).pixel(px, py)
                },
    {
        let ghost before = *self;
        let w = self.width;
        self.fill_rect(0, 0, w, PANEL_HEIGHT, 0xFF0A0A14);
        if state.is_launcher_open {
            let ghost mid = *self;
            self.fill_rect(0, PANEL_HEIGHT, LAUNCHER_WIDTH, 400, 0xFF1E1E2E);
            assert forall|px: int, py: int|
                0 <= px < before.spec_width() && 0 <= py < before.spec_height() implies #[trigger] self.pixel(
                    px,
                    py,
                ) == if in_rect(px, py, 0, 48, 320, 400, before.spec_width(), before.spec_height()) {
                    0xFF1E1E2Eu32
                } else if in_rect(
                    px,
                    py,
                    0,
                    0,
                    before.spec_width(),
                    48,
                    before.spec_width(),
                    before.spec_height(),
                ) {
                    0xFF0A0A14u32
                } else {
                    before.pixel(px, py)
                } by {
                assert(mid.pixel(px, py) == if in_rect(
                    px,
                    py,
                    0,
                    0,
                    before.spec_width(),
                    48,
                    before.spec_width(),
                    before.spec_height(),
                ) {
                    0xFF0A0A14u32
                } else {
                    before.pixel(px, py)
                });
            }
        }
    }
}

} // verus!
