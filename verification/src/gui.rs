//! The package browser's drawing: rectangles and 8x16 bitmap text on its
//! framebuffer, the widgets it shows, and the packages it caches at start.
use vstd::prelude::*;
use vstd::arithmetic::div_mod::{lemma_fundamental_div_mod, lemma_fundamental_div_mod_converse};

verus! {

/// The browser's framebuffer: `width` by `height` pixels, row by row.
pub struct GuiFrame {
    pub width: u32,
    pub height: u32,
    pub pixels: Vec<u32>,
}

/// Number of ASCII bytes in `t`.
pub open spec fn ascii_count(t: Seq<u8>) -> nat
    decreases t.len(),
{
    if t.len() == 0 {
        0
    } else {
        ascii_count(t.drop_last()) + if t.last() < 128 {
            1nat
        } else {
            0nat
        }
    }
}

/// Left edge of the glyph of byte `i` of `text` drawn from `x`: non-ASCII bytes
/// take no room.
pub open spec fn glyph_x(text: Seq<u8>, x: u32, i: int) -> int {
    x + 8 * ascii_count(text.take(i))
}

/// Bit (`row`, `col`) of the glyph of `c`, the leftmost column the high bit.
pub open spec fn glyph_bit(font: Seq<[u8; 16]>, c: u8, row: int, col: int) -> bool {
    (font[c as int]@[row] >> ((7 - col) as u8)) & 1 == 1
}

/// Byte `i` of `text` lights pixel (`px`, `py`).
pub open spec fn lit_by(font: Seq<[u8; 16]>, text: Seq<u8>, x: u32, y: u32, i: int, px: int, py: int) -> bool {
    let gx = glyph_x(text, x, i);
    &&& text[i] < 128
    &&& gx <= px < gx + 8
    &&& y <= py < y + 16
    &&& glyph_bit(font, text[i], py - y, px - gx)
}

/// Some byte of `text` before index `n` lights pixel (`px`, `py`).
pub open spec fn lit_before(font: Seq<[u8; 16]>, text: Seq<u8>, x: u32, y: u32, n: int, px: int, py: int) -> bool {
    exists|i: int| 0 <= i < n && #[trigger] lit_by(font, text, x, y, i, px, py)
}

/// Pixel (`px`, `py`) is lit by a byte before `i`, or by byte `i` in a row before `r`
/// or in row `r` before column `c`.
pub open spec fn lit_partial(
    font: Seq<[u8; 16]>,
    text: Seq<u8>,
    x: u32,
    y: u32,
    i: int,
    r: int,
    c: int,
    px: int,
    py: int,
) -> bool {
    ||| lit_before(font, text, x, y, i, px, py)
    ||| (lit_by(font, text, x, y, i, px, py) && (py - y < r || (py - y == r && px - glyph_x(text, x, i) < c)))
}

proof fn lemma_index_split(k: int, w: int)
    requires
        w > 0,
        k >= 0,
    ensures
        k == (k / w) * w + k % w,
        0 <= k % w < w,
        k / w >= 0,
{
    lemma_fundamental_div_mod(k, w);
    assert((k / w) * w == w * (k / w)) by (nonlinear_arith);
    assert(0 <= k % w < w) by (nonlinear_arith)
        requires
            w > 0,
    ;
    assert(k / w >= 0) by (nonlinear_arith)
        requires
            w > 0,
            k >= 0,
    ;
}

proof fn lemma_index_of(px: int, py: int, w: int)
    requires
        w > 0,
        0 <= px < w,
        py >= 0,
    ensures
        (py * w + px) % w == px,
        (py * w + px) / w == py,
{
    lemma_fundamental_div_mod_converse(py * w + px, w, py, px);
}

proof fn lemma_ascii_count_step(t: Seq<u8>, i: int)
    requires
        0 <= i < t.len(),
    ensures
        ascii_count(t.take(i + 1)) == ascii_count(t.take(i)) + if t[i] < 128 {
            1nat
        } else {
            0nat
        },
{
    assert(t.take(i + 1).drop_last() == t.take(i));
}

proof fn lemma_ascii_count_bound(t: Seq<u8>, i: int)
    requires
        0 <= i <= t.len(),
    ensures
        ascii_count(t.take(i)) <= ascii_count(t),
    decreases t.len() - i,
{
    if i < t.len() {
        lemma_ascii_count_step(t, i);
        lemma_ascii_count_bound(t, i + 1);
    } else {
        assert(t.take(i) == t);
    }
}

impl GuiFrame {
    pub open spec fn wf(&self) -> bool {
        &&& self.width > 0
        &&& self.width * self.height <= u32::MAX
        &&& self.pixels@.len() == self.width * self.height
    }

    /// A frame of `width` by `height` pixels, all 0.
    pub fn new(width: u32, height: u32) -> (f: Self)
        requires
            width > 0,
            width * height <= u32::MAX,
        ensures
            f.wf(),
            f.width == width,
            f.height == height,
            forall|k: int| 0 <= k < f.pixels@.len() ==> f.pixels@[k] == 0,
    {
        let n: u32 = width * height;
        let mut pixels: Vec<u32> = Vec::new();
        while pixels.len() < n as usize
            invariant
                pixels@.len() <= n,
                forall|k: int| 0 <= k < pixels@.len() ==> pixels@[k] == 0,
            decreases n - pixels@.len(),
        {
            pixels.push(0);
        }
        GuiFrame { width, height, pixels }
    }

    /// Paints the `w` by `h` rectangle at (`x`, `y`), which lies inside the frame.
    pub fn fill_rect(&mut self, x: u32, y: u32, w: u32, h: u32, color: u32)
        requires
            old(self).wf(),
            x + w <= old(self).width,
            y + h <= old(self).height,
        ensures
            final(self).wf(),
            final(self).width == old(self).width,
            final(self).height == old(self).height,
            forall|k: int|
                0 <= k < final(self).pixels@.len() ==> #[trigger] final(self).pixels@[k] == if x <= k
                    % (old(self).width as int) < x + w && y <= k / (old(self).width as int) < y + h {
                    color
                } else {
                    old(self).pixels@[k]
                },
    {
        let width = self.width;
        let ghost wi = width as int;
        let mut j: u32 = y;
        while j < y + h
            invariant
                self.wf(),
                self.width == width,
                self.height == old(self).height,
                wi == width as int,
                y <= j <= y + h,
                x + w <= width,
                y + h <= self.height,
                forall|k: int|
                    0 <= k < self.pixels@.len() ==> #[trigger] self.pixels@[k] == if x <= k % wi < x + w
                        && y <= k / wi < j {
                        color
                    } else {
                        old(self).pixels@[k]
                    },
            decreases y + h - j,
        {
            let mut i: u32 = x;
            while i < x + w
                invariant
                    self.wf(),
                    self.width == width,
                    self.height == old(self).height,
                    wi == width as int,
                    x <= i <= x + w,
                    y <= j < y + h,
                    x + w <= width,
                    y + h <= self.height,
                    forall|k: int|
                        0 <= k < self.pixels@.len() ==> #[trigger] self.pixels@[k] == if (x <= k % wi < x
                            + w && y <= k / wi < j) || (x <= k % wi < i && k / wi == j) {
                            color
                        } else {
                            old(self).pixels@[k]
                        },
                decreases x + w - i,
            {
                proof {
                    assert(j * width + i < width * self.height) by (nonlinear_arith)
                        requires
                            j < self.height,
                            i < width,
                    ;
                    lemma_index_of(i as int, j as int, wi);
                }
                let k0: u32 = j * width + i;
                self.pixels.set(k0 as usize, color);
                proof {
                    assert forall|k: int| 0 <= k < self.pixels@.len() implies #[trigger] self.pixels@[k]
                        == if (x <= k % wi < x + w && y <= k / wi < j) || (x <= k % wi < i + 1 && k / wi
                        == j) {
                        color
                    } else {
                        old(self).pixels@[k]
                    } by {
                        lemma_index_split(k, wi);
                        if k != k0 as int {
                            if k % wi == i as int && k / wi == j as int {
                                assert(k == (j as int) * wi + i as int);
                            }
                        }
                    }
                }
                i += 1;
            }
            j += 1;
        }
    }

    /// Draws `text` at (`x`, `y`) in `color` with the 8x16 bitmap `font`, skipping
    /// non-ASCII bytes; pixels outside the frame are left out.
    pub fn draw_text(&mut self, x: u32, y: u32, text: &[u8], color: u32, font: &[[u8; 16]; 128])
        requires
            old(self).wf(),
            x + 8 * ascii_count(text@) + 8 <= u32::MAX,
            y + 16 <= u32::MAX,
        ensures
            final(self).wf(),
            final(self).width == old(self).width,
            final(self).height == old(self).height,
            forall|k: int|
                0 <= k < final(self).pixels@.len() ==> #[trigger] final(self).pixels@[k] == if lit_before(
                    font@,
                    text@,
                    x,
                    y,
                    text@.len() as int,
                    k % old(self).width as int,
                    k / old(self).width as int,
                ) {
                    color
                } else {
                    old(self).pixels@[k]
                },
    {
        let width = self.width;
        let height = self.height;
        let ghost wi = width as int;
        let mut cur_x: u32 = x;
        let mut t: usize = 0;
        while t < text.len()
            invariant
                self.wf(),
                self.width == width,
                self.height == height,
                height == old(self).height,
                wi == width as int,
                t <= text@.len(),
                cur_x == glyph_x(text@, x, t as int),
                x + 8 * ascii_count(text@) + 8 <= u32::MAX,
                y + 16 <= u32::MAX,
                forall|k: int|
                    0 <= k < self.pixels@.len() ==> #[trigger] self.pixels@[k] == if lit_before(
                        font@,
                        text@,
                        x,
                        y,
                        t as int,
                        k % wi,
                        k / wi,
                    ) {
                        color
                    } else {
                        old(self).pixels@[k]
                    },
            decreases text@.len() - t,
        {
            let ch = text[t];
            proof {
                lemma_ascii_count_step(text@, t as int);
                lemma_ascii_count_bound(text@, t + 1);
            }
            if ch >= 128 {
                proof {
                    assert forall|k: int| 0 <= k < self.pixels@.len() implies #[trigger] self.pixels@[k] == if lit_before(font@, text@, x, y, t + 1, k % wi, k / wi) {
                        color
                    } else {
                        old(self).pixels@[k]
                    } by {
                        if lit_before(font@, text@, x, y, t + 1, k % wi, k / wi) {
                            let i = choose|i: int| 0 <= i < t + 1 && #[trigger] lit_by(font@, text@, x, y, i, k % wi, k / wi);
                            assert(i != t);
                        }
                    }
                }
            } else {
                let glyph: [u8; 16] = font[ch as usize];
                let mut r: u32 = 0;
                while r < 16
                    invariant
                        self.wf(),
                        self.width == width,
                        self.height == height,
                        wi == width as int,
                        r <= 16,
                        t < text@.len(),
                        ch == text@[t as int],
                        ch < 128,
                        glyph == font@[ch as int],
                        cur_x == glyph_x(text@, x, t as int),
                        cur_x + 8 <= u32::MAX,
                        y + 16 <= u32::MAX,
                        forall|k: int|
                            0 <= k < self.pixels@.len() ==> #[trigger] self.pixels@[k] == if lit_partial(
                                font@,
                                text@,
                                x,
                                y,
                                t as int,
                                r as int,
                                0,
                                k % wi,
                                k / wi,
                            ) {
                                color
                            } else {
                                old(self).pixels@[k]
                            },
                    decreases 16 - r,
                {
                    let row: u8 = glyph[r as usize];
                    let mut c: u32 = 0;
                    while c < 8
                        invariant
                            self.wf(),
                            self.width == width,
                            self.height == height,
                            wi == width as int,
                            r < 16,
                            c <= 8,
                            t < text@.len(),
                            ch == text@[t as int],
                            ch < 128,
                            glyph == font@[ch as int],
                            row == glyph@[r as int],
                            cur_x == glyph_x(text@, x, t as int),
                            cur_x + 8 <= u32::MAX,
                            y + 16 <= u32::MAX,
                            forall|k: int|
                                0 <= k < self.pixels@.len() ==> #[trigger] self.pixels@[k] == if lit_partial(
                                    font@,
                                    text@,
                                    x,
                                    y,
                                    t as int,
                                    r as int,
                                    c as int,
                                    k % wi,
                                    k / wi,
                                ) {
                                    color
                                } else {
                                    old(self).pixels@[k]
                                },
                        decreases 8 - c,
                    {
                        let px: u32 = cur_x + c;
                        let py: u32 = y + r;
                        let shift: u8 = (7 - c) as u8;
                        let bit = (row >> shift) & 1 == 1;
                        proof {
                            assert(bit == glyph_bit(font@, ch, r as int, c as int));
                        }
                        if bit && px < width && py < height {
                            proof {
                                assert(py * width + px < width * height) by (nonlinear_arith)
                                    requires
                                        py < height,
                                        px < width,
                                ;
                                lemma_index_of(px as int, py as int, wi);
                            }
                            let k0: u32 = py * width + px;
                            self.pixels.set(k0 as usize, color);
                            proof {
                                assert(lit_by(font@, text@, x, y, t as int, px as int, py as int));
                                assert forall|k: int| 0 <= k < self.pixels@.len() implies #[trigger] self.pixels@[k]
                                    == if lit_partial(font@, text@, x, y, t as int, r as int, c + 1, k % wi, k / wi) {
                                    color
                                } else {
                                    old(self).pixels@[k]
                                } by {
                                    lemma_index_split(k, wi);
                                    if k != k0 as int {
                                        if k % wi == px as int && k / wi == py as int {
                                            assert(k == (py as int) * wi + px as int);
                                        }
                                    }
                                }
                            }
                        } else {
                            proof {
                                assert forall|k: int| 0 <= k < self.pixels@.len() implies #[trigger] self.pixels@[k] == if lit_partial(
                                    font@,
                                    text@,
                                    x,
                                    y,
                                    t as int,
                                    r as int,
                                    c + 1,
                                    k % wi,
                                    k / wi,
                                ) {
                                    color
                                } else {
                                    old(self).pixels@[k]
                                } by {
                                    lemma_index_split(k, wi);
                                    assert(k / wi < height) by (nonlinear_arith)
                                        requires
                                            k < wi * height,
                                            wi > 0,
                                            k >= 0,
                                    ;
                                }
                            }
                        }
                        c += 1;
                    }
                    proof {
                        assert forall|k: int| 0 <= k < self.pixels@.len() implies #[trigger] self.pixels@[k] == if lit_partial(
                            font@,
                            text@,
                            x,
                            y,
                            t as int,
                            r + 1,
                            0,
                            k % wi,
                            k / wi,
                        ) {
                            color
                        } else {
                            old(self).pixels@[k]
                        } by {}
                    }
                    r += 1;
                }
                proof {
                    assert forall|k: int| 0 <= k < self.pixels@.len() implies #[trigger] self.pixels@[k] == if lit_before(font@, text@, x, y, t + 1, k % wi, k / wi) {
                        color
                    } else {
                        old(self).pixels@[k]
                    } by {
                        if lit_before(font@, text@, x, y, t + 1, k % wi, k / wi) {
                            let i = choose|i: int| 0 <= i < t + 1 && #[trigger] lit_by(font@, text@, x, y, i, k % wi, k / wi);
                            if i < t {
                                assert(lit_before(font@, text@, x, y, t as int, k % wi, k / wi));
                            }
                        }
                        if lit_partial(font@, text@, x, y, t as int, 16, 0, k % wi, k / wi) {
                            if lit_before(font@, text@, x, y, t as int, k % wi, k / wi) {
                                let i = choose|i: int| 0 <= i < t && #[trigger] lit_by(font@, text@, x, y, i, k % wi, k / wi);
                                assert(0 <= i < t + 1);
                            } else {
                                assert(lit_by(font@, text@, x, y, t as int, k % wi, k / wi));
                            }
                        }
                    }
                }
                cur_x = cur_x + 8;
            }
            t += 1;
        }
        proof {
            assert(text@.take(text@.len() as int) == text@);
        }
    }
}

proof fn lemma_ascii_count_len(t: Seq<u8>)
    ensures
        ascii_count(t) <= t.len(),
    decreases t.len(),
{
    if t.len() > 0 {
        lemma_ascii_count_len(t.drop_last());
    }
}

/// `Available Packages:`.
pub open spec fn title_text() -> Seq<u8> {
    seq![65u8, 118u8, 97u8, 105u8, 108u8, 97u8, 98u8, 108u8, 101u8, 32u8, 80u8, 97u8, 99u8, 107u8, 97u8, 103u8, 101u8, 115u8, 58u8]
}

/// `1. bash`.
pub open spec fn item1_text() -> Seq<u8> {
    seq![49u8, 46u8, 32u8, 98u8, 97u8, 115u8, 104u8]
}

/// `2. coreutils`.
pub open spec fn item2_text() -> Seq<u8> {
    seq![50u8, 46u8, 32u8, 99u8, 111u8, 114u8, 101u8, 117u8, 116u8, 105u8, 108u8, 115u8]
}

/// `3. gcc`.
pub open spec fn item3_text() -> Seq<u8> {
    seq![51u8, 46u8, 32u8, 103u8, 99u8, 99u8]
}

/// `Press '1' to load bash`.
pub open spec fn hint_text() -> Seq<u8> {
    seq![80u8, 114u8, 101u8, 115u8, 115u8, 32u8, 39u8, 49u8, 39u8, 32u8, 116u8, 111u8, 32u8, 108u8, 111u8, 97u8, 100u8, 32u8, 98u8, 97u8, 115u8, 104u8]
}

/// Background colour of the browser.
pub const BACKGROUND: u32 = 0x1E1E2E;
/// Colour of the title.
pub const TITLE_COLOR: u32 = 0xFFFFFF;
/// Colour of the package list.
pub const ITEM_COLOR: u32 = 0x89B4FA;
/// Colour of the hint.
pub const HINT_COLOR: u32 = 0xCDD6F4;

/// The colour of pixel (`px`, `py`) of the widget screen: the text drawn last that
/// lights it, else the background.
pub open spec fn widget_color(font: Seq<[u8; 16]>, px: int, py: int) -> u32 {
    if lit_before(font, hint_text(), 20, 120, 22, px, py) {
        HINT_COLOR
    } else if lit_before(font, item3_text(), 30, 90, 6, px, py) {
        ITEM_COLOR
    } else if lit_before(font, item2_text(), 30, 70, 12, px, py) {
        ITEM_COLOR
    } else if lit_before(font, item1_text(), 30, 50, 7, px, py) {
        ITEM_COLOR
    } else if lit_before(font, title_text(), 20, 20, 19, px, py) {
        TITLE_COLOR
    } else {
        BACKGROUND
    }
}

impl GuiFrame {
    /// Paints the widget screen: the background, the title, the three packages and
    /// the hint.
    pub fn draw_widgets(&mut self, font: &[[u8; 16]; 128])
        requires
            old(self).wf(),
        ensures
            final(self).wf(),
            final(self).width == old(self).width,
            final(self).height == old(self).height,
            forall|k: int|
                0 <= k < final(self).pixels@.len() ==> #[trigger] final(self).pixels@[k] == widget_color(
                    font@,
                    k % (old(self).width as int),
                    k / (old(self).width as int),
                ),
    {
        let w = self.width;
        let h = self.height;
        let ghost wi = w as int;
        let title: [u8; 19] = [65u8, 118u8, 97u8, 105u8, 108u8, 97u8, 98u8, 108u8, 101u8, 32u8, 80u8, 97u8, 99u8, 107u8, 97u8, 103u8, 101u8, 115u8, 58u8];
        let item1: [u8; 7] = [49u8, 46u8, 32u8, 98u8, 97u8, 115u8, 104u8];
        let item2: [u8; 12] = [50u8, 46u8, 32u8, 99u8, 111u8, 114u8, 101u8, 117u8, 116u8, 105u8, 108u8, 115u8];
        let item3: [u8; 6] = [51u8, 46u8, 32u8, 103u8, 99u8, 99u8];
        let hint: [u8; 22] = [80u8, 114u8, 101u8, 115u8, 115u8, 32u8, 39u8, 49u8, 39u8, 32u8, 116u8, 111u8, 32u8, 108u8, 111u8, 97u8, 100u8, 32u8, 98u8, 97u8, 115u8, 104u8];
        proof {
            assert(title@ == title_text());
            assert(item1@ == item1_text());
            assert(item2@ == item2_text());
            assert(item3@ == item3_text());
            assert(hint@ == hint_text());
            lemma_ascii_count_len(title@);
            lemma_ascii_count_len(item1@);
            lemma_ascii_count_len(item2@);
            lemma_ascii_count_len(item3@);
            lemma_ascii_count_len(hint@);
        }
        self.fill_rect(0, 0, w, h, BACKGROUND);
        let ghost p0 = self.pixels@;
        proof {
            assert forall|k: int| 0 <= k < p0.len() implies #[trigger] p0[k] == BACKGROUND by {
                lemma_index_split(k, wi);
                assert(k / wi < h) by (nonlinear_arith)
                    requires
                        k < wi * h,
                        wi > 0,
                        k >= 0,
                ;
            }
        }
        self.draw_text(20, 20, title.as_slice(), TITLE_COLOR, font);
        self.draw_text(30, 50, item1.as_slice(), ITEM_COLOR, font);
        self.draw_text(30, 70, item2.as_slice(), ITEM_COLOR, font);
        self.draw_text(30, 90, item3.as_slice(), ITEM_COLOR, font);
        self.draw_text(20, 120, hint.as_slice(), HINT_COLOR, font);
    }
}

/// The name field of a store request for package `name`: its bytes, NUL-padded to
/// 256 bytes.
pub fn request_name_field(name: &[u8]) -> (f: [u8; 256])
    requires
        name@.len() <= 256,
    ensures
        f@ == name@ + Seq::new((256 - name@.len()) as nat, |i: int| 0u8),
{
    let mut f: [u8; 256] = [0u8; 256];
    let mut i: usize = 0;
    while i < name.len()
        invariant
            i <= name@.len(),
            name@.len() <= 256,
            f@.len() == 256,
            forall|k: int| 0 <= k < i ==> f@[k] == name@[k],
            forall|k: int| i <= k < 256 ==> f@[k] == 0u8,
        decreases name@.len() - i,
    {
        f[i] = name[i];
        i += 1;
    }
    proof {
        assert(f@ =~= name@ + Seq::new((256 - name@.len()) as nat, |i: int| 0u8));
    }
    f
}

/// The packages cached when the browser starts: `bash`, `coreutils`, `gcc`.
pub fn precache_packages() -> (names: Vec<Vec<u8>>)
    ensures
        names@.len() == 3,
        names@[0]@ == seq![98u8, 97u8, 115u8, 104u8],
        names@[1]@ == seq![99u8, 111u8, 114u8, 101u8, 117u8, 116u8, 105u8, 108u8, 115u8],
        names@[2]@ == seq![103u8, 99u8, 99u8],
{
    let mut names: Vec<Vec<u8>> = Vec::new();
    names.push(vec![98u8, 97u8, 115u8, 104u8]);
    names.push(vec![99u8, 111u8, 114u8, 101u8, 117u8, 116u8, 105u8, 108u8, 115u8]);
    names.push(vec![103u8, 99u8, 99u8]);
    names
}

/// Scancode of the `1` key.
pub const KEY_ONE: u8 = 2;

/// The package a key press loads: `1` loads `bash`.
pub fn package_for_key(scancode: u8) -> (r: Option<Vec<u8>>)
    ensures
        scancode == KEY_ONE ==> (r matches Some(n) && n@ == seq![98u8, 97u8, 115u8, 104u8]),
        scancode != KEY_ONE ==> r is None,
{
    if scancode == KEY_ONE {
        Some(vec![98u8, 97u8, 115u8, 104u8])
    } else {
        None
    }
}

} // verus!
