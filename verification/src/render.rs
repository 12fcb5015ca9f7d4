//! Pixel-direct renderer: an indexed-colour framebuffer (one byte per pixel,
//! holding a palette index) with the drawing primitives the dashboard uses,
//! and the 4-bit packing that feeds the PNG encoder.

use vstd::prelude::*;

verus! {

/// Panel width in pixels.
pub const W: u32 = 800;
/// Panel height in pixels.
pub const H: u32 = 480;

// ── Palette ────────────────────────────────────────────────────────────────

/// The six inks of the panel, in the index order the firmware expects.
#[derive(Copy, Clone, Debug, PartialEq, Eq, Structural)]
pub enum C {
    Black,
    White,
    Yellow,
    Red,
    Blue,
    Green,
}

/// An RGB triple (stands for `embedded_graphics::pixelcolor::Rgb888`).
#[derive(Copy, Clone, Debug, PartialEq, Eq, Structural)]
pub struct Rgb {
    pub r: u8,
    pub g: u8,
    pub b: u8,
}

/// Palette index of each ink.
pub open spec fn color_index(c: C) -> u8 {
    match c {
        C::Black => 0,
        C::White => 1,
        C::Yellow => 2,
        C::Red => 3,
        C::Blue => 4,
        C::Green => 5,
    }
}

/// Measured on-panel RGB value of the ink with palette index `i`.
pub open spec fn palette_rgb(i: int) -> Rgb {
    if i == 0 {
        Rgb { r: 0x02, g: 0x02, b: 0x02 }
    } else if i == 1 {
        Rgb { r: 0xb3, g: 0xb6, b: 0xab }
    } else if i == 2 {
        Rgb { r: 0xcd, g: 0xca, b: 0x00 }
    } else if i == 3 {
        Rgb { r: 0x75, g: 0x0a, b: 0x00 }
    } else if i == 4 {
        Rgb { r: 0x00, g: 0x2f, b: 0x6b }
    } else {
        Rgb { r: 0x21, g: 0x45, b: 0x28 }
    }
}

/// Squared Euclidean distance between two RGB triples.
pub open spec fn rgb_dist2(a: Rgb, b: Rgb) -> int {
    (a.r - b.r) * (a.r - b.r) + (a.g - b.g) * (a.g - b.g) + (a.b - b.b) * (a.b - b.b)
}

impl C {
    /// RGB value of the ink.
    pub fn rgb(self) -> (r: Rgb)
        ensures
            r == palette_rgb(color_index(self) as int),
    {
        match self {
            C::Black => Rgb { r: 0x02, g: 0x02, b: 0x02 },
            C::White => Rgb { r: 0xb3, g: 0xb6, b: 0xab },
            C::Yellow => Rgb { r: 0xcd, g: 0xca, b: 0x00 },
            C::Red => Rgb { r: 0x75, g: 0x0a, b: 0x00 },
            C::Blue => Rgb { r: 0x00, g: 0x2f, b: 0x6b },
            C::Green => Rgb { r: 0x21, g: 0x45, b: 0x28 },
        }
    }

    /// Palette index of the ink.
    pub fn index(self) -> (r: u8)
        ensures
            r == color_index(self),
    {
        match self {
            C::Black => 0,
            C::White => 1,
            C::Yellow => 2,
            C::Red => 3,
            C::Blue => 4,
            C::Green => 5,
        }
    }
}

/// The ink with palette index `i` (`i < 6`).
pub fn color_of_index(i: u8) -> (c: C)
    requires
        i < 6,
    ensures
        color_index(c) == i,
{
    if i == 0 {
        C::Black
    } else if i == 1 {
        C::White
    } else if i == 2 {
        C::Yellow
    } else if i == 3 {
        C::Red
    } else if i == 4 {
        C::Blue
    } else {
        C::Green
    }
}

/// The PNG palette: the six RGB triples, flattened in index order.
pub open spec fn spec_palette_bytes() -> Seq<u8> {
    seq![
        0x02u8, 0x02, 0x02,
        0xb3, 0xb6, 0xab,
        0xcd, 0xca, 0x00,
        0x75, 0x0a, 0x00,
        0x00, 0x2f, 0x6b,
        0x21, 0x45, 0x28,
    ]
}

/// The PLTE bytes: `rgb(i)` of every palette index, in index order.
pub fn palette_bytes() -> (r: Vec<u8>)
    ensures
        r@ == spec_palette_bytes(),
        r@.len() == 18,
        forall|i: int|
            0 <= i < 6 ==> r@[3 * i] == palette_rgb(i).r && r@[3 * i + 1] == palette_rgb(i).g
                && r@[3 * i + 2] == palette_rgb(i).b,
{
    let mut out: Vec<u8> = Vec::new();
    let mut i: u8 = 0;
    while i < 6
        invariant
            i <= 6,
            out@.len() == 3 * i,
            out@ == spec_palette_bytes().take(3 * i as int),
        decreases 6 - i,
    {
        let rgb = color_of_index(i).rgb();
        out.push(rgb.r);
        out.push(rgb.g);
        out.push(rgb.b);
        assert(spec_palette_bytes().take(3 * (i + 1) as int) == spec_palette_bytes().take(
            3 * i as int,
        ).push(rgb.r).push(rgb.g).push(rgb.b));
        i += 1;
    }
    assert(spec_palette_bytes().take(18) == spec_palette_bytes());
    out
}

/// `i` is the first palette index whose ink is closest to `rgb`.
pub open spec fn is_nearest_index(rgb: Rgb, i: int) -> bool {
    &&& 0 <= i < 6
    &&& forall|k: int| 0 <= k < 6 ==> rgb_dist2(rgb, palette_rgb(i)) <= rgb_dist2(rgb, palette_rgb(k))
    &&& forall|k: int| 0 <= k < i ==> rgb_dist2(rgb, palette_rgb(i)) < rgb_dist2(rgb, palette_rgb(k))
}

fn dist2(a: Rgb, b: Rgb) -> (d: i32)
    ensures
        d == rgb_dist2(a, b),
        0 <= d <= 3 * 255 * 255,
{
    let dr = a.r as i32 - b.r as i32;
    let dg = a.g as i32 - b.g as i32;
    let db = a.b as i32 - b.b as i32;
    assert(0 <= dr * dr <= 255 * 255) by (nonlinear_arith)
        requires
            -255 <= dr <= 255,
    ;
    assert(0 <= dg * dg <= 255 * 255) by (nonlinear_arith)
        requires
            -255 <= dg <= 255,
    ;
    assert(0 <= db * db <= 255 * 255) by (nonlinear_arith)
        requires
            -255 <= db <= 255,
    ;
    dr * dr + dg * dg + db * db
}

/// Closest palette index to an arbitrary RGB value (first one on ties).
pub fn nearest_index(rgb: Rgb) -> (r: u8)
    ensures
        is_nearest_index(rgb, r as int),
{
    let mut best: u8 = 0;
    let mut best_d: i32 = i32::MAX;
    let mut k: u8 = 0;
    while k < 6
        invariant
            k <= 6,
            best < 6,
            k == 0 ==> best_d == i32::MAX && best == 0,
            k > 0 ==> best < k && best_d == rgb_dist2(rgb, palette_rgb(best as int)),
            forall|j: int| 0 <= j < k ==> best_d <= rgb_dist2(rgb, palette_rgb(j)),
            forall|j: int| 0 <= j < best ==> best_d < rgb_dist2(rgb, palette_rgb(j)),
        decreases 6 - k,
    {
        let p = color_of_index(k).rgb();
        let d = dist2(rgb, p);
        if d < best_d {
            best_d = d;
            best = k;
        }
        k += 1;
    }
    best
}

/// Every ink maps back to its own index.
pub proof fn law_palette_round_trip(c: C)
    ensures
        is_nearest_index(palette_rgb(color_index(c) as int), color_index(c) as int),
{
    let i = color_index(c) as int;
    assert(rgb_dist2(palette_rgb(i), palette_rgb(i)) == 0);
    assert forall|k: int| 0 <= k < 6 && k != i implies rgb_dist2(palette_rgb(i), palette_rgb(k))
        > 0 by {
        let a = palette_rgb(i);
        let b = palette_rgb(k);
        assert(a != b);
        assert((a.r - b.r) * (a.r - b.r) >= 0 && (a.g - b.g) * (a.g - b.g) >= 0 && (a.b - b.b) * (
        a.b - b.b) >= 0) by (nonlinear_arith);
        if a.r != b.r {
            assert((a.r - b.r) * (a.r - b.r) > 0) by (nonlinear_arith)
                requires
                    a.r != b.r,
            ;
        } else if a.g != b.g {
            assert((a.g - b.g) * (a.g - b.g) > 0) by (nonlinear_arith)
                requires
                    a.g != b.g,
            ;
        } else {
            assert((a.b - b.b) * (a.b - b.b) > 0) by (nonlinear_arith)
                requires
                    a.b != b.b,
            ;
        }
    }
}

// ── Geometry ───────────────────────────────────────────────────────────────

/// Axis-aligned rectangle: top-left corner and size.
#[derive(Copy, Clone, Debug)]
pub struct Rect {
    pub x: i32,
    pub y: i32,
    pub w: u32,
    pub h: u32,
}

/// Pixel `(x, y)` lies inside `r`.
pub open spec fn in_rect(r: Rect, x: int, y: int) -> bool {
    r.x <= x < r.x + r.w && r.y <= y < r.y + r.h
}

/// The right and bottom edges of `r` fit in an `i32`, as the arithmetic on
/// them requires.
pub open spec fn rect_ok(r: Rect) -> bool {
    &&& r.w <= i32::MAX
    &&& r.h <= i32::MAX
    &&& r.x + r.w <= i32::MAX
    &&& r.y + r.h <= i32::MAX
}

impl Rect {
    pub fn new(x: i32, y: i32, w: u32, h: u32) -> (r: Rect)
        ensures
            r == (Rect { x, y, w, h }),
    {
        Rect { x, y, w, h }
    }

    /// One past the rightmost column.
    pub fn right(&self) -> (r: i32)
        requires
            self.w <= i32::MAX,
            self.x + self.w <= i32::MAX,
        ensures
            r == self.x + self.w,
    {
        self.x + self.w as i32
    }

    /// One past the bottom row.
    pub fn bottom(&self) -> (r: i32)
        requires
            self.h <= i32::MAX,
            self.y + self.h <= i32::MAX,
        ensures
            r == self.y + self.h,
    {
        self.y + self.h as i32
    }
}

// ── Canvas ─────────────────────────────────────────────────────────────────

/// Indexed framebuffer, row-major, one palette index per byte.
pub struct Canvas {
    pub buf: Vec<u8>,
    pub w: u32,
    pub h: u32,
}

pub proof fn lemma_index_in_bounds(x: int, y: int, w: int, h: int)
    requires
        0 <= x < w,
        0 <= y < h,
    ensures
        0 <= y * w + x < w * h,
        y * w + x + 1 <= w * h,
{
    assert(y * w + x < w * h) by (nonlinear_arith)
        requires
            0 <= x < w,
            0 <= y < h,
    ;
    assert(0 <= y * w) by (nonlinear_arith)
        requires
            0 <= y,
            0 <= w,
    ;
}

pub proof fn lemma_row_bound(y: int, w: int, h: int)
    requires
        0 <= y < h,
        0 <= w,
    ensures
        0 <= y * w,
        y * w + w <= w * h,
{
    assert(0 <= y * w && y * w + w <= w * h) by (nonlinear_arith)
        requires
            0 <= y < h,
            0 <= w,
    ;
}

pub proof fn lemma_index_unique(x1: int, y1: int, x2: int, y2: int, w: int)
    requires
        0 <= x1 < w,
        0 <= x2 < w,
        0 <= y1,
        0 <= y2,
        y1 * w + x1 == y2 * w + x2,
    ensures
        x1 == x2,
        y1 == y2,
{
    if y1 < y2 {
        assert(y1 * w + w <= y2 * w) by (nonlinear_arith)
            requires
                y1 < y2,
                0 <= w,
        ;
    } else if y2 < y1 {
        assert(y2 * w + w <= y1 * w) by (nonlinear_arith)
            requires
                y2 < y1,
                0 <= w,
        ;
    }
}

impl Canvas {
    /// The buffer holds exactly `w * h` pixels and the dimensions fit the
    /// 32-bit arithmetic used on them.
    pub open spec fn wf(&self) -> bool {
        &&& self.buf@.len() == self.w * self.h
        &&& self.w * self.h <= u32::MAX
        &&& self.w <= i32::MAX
        &&& self.h <= i32::MAX
    }

    /// Palette index stored at `(x, y)`.
    pub open spec fn px(&self, x: int, y: int) -> u8 {
        self.buf@[y * self.w + x]
    }

    /// `(x, y)` is a pixel of the canvas.
    pub open spec fn inside(&self, x: int, y: int) -> bool {
        0 <= x < self.w && 0 <= y < self.h
    }

    /// Every pixel holds the index of one of the six inks: nothing is
    /// dithered or blended.
    pub open spec fn inks_only(&self) -> bool {
        forall|x: int, y: int| #![trigger self.px(x, y)] self.inside(x, y) ==> self.px(x, y) < 6
    }

    /// `new` has the same size as `old`, and its pixel `(x, y)` is `v` where
    /// `region` holds and the old pixel elsewhere.
    pub open spec fn painted(
        old: &Canvas,
        new: &Canvas,
        region: spec_fn(int, int) -> bool,
        v: u8,
    ) -> bool {
        &&& new.wf()
        &&& new.w == old.w
        &&& new.h == old.h
        &&& forall|x: int, y: int|
            #![trigger new.px(x, y)]
            new.inside(x, y) ==> new.px(x, y) == (if region(x, y) {
                v
            } else {
                old.px(x, y)
            })
    }

    /// Like `painted`, but the new value of a pixel of `region` is `val(x, y)`.
    pub open spec fn painted_by(
        old: &Canvas,
        new: &Canvas,
        region: spec_fn(int, int) -> bool,
        val: spec_fn(int, int) -> u8,
    ) -> bool {
        &&& new.wf()
        &&& new.w == old.w
        &&& new.h == old.h
        &&& forall|x: int, y: int|
            #![trigger new.px(x, y)]
            new.inside(x, y) ==> new.px(x, y) == (if region(x, y) {
                val(x, y)
            } else {
                old.px(x, y)
            })
    }

    /// Painting a region in one ink keeps a canvas of inks a canvas of inks.
    pub broadcast proof fn lemma_painted_inks(old: &Canvas, new: &Canvas, region: spec_fn(int, int) -> bool, v: u8)
        requires
            #[trigger] Canvas::painted(old, new, region, v),
            v < 6,
            old.inks_only(),
        ensures
            new.inks_only(),
    {
        assert forall|x: int, y: int| #![trigger new.px(x, y)] new.inside(x, y) implies new.px(x, y) < 6 by {
            assert(old.inside(x, y));
        }
    }

    /// Painting a region with inks pixel by pixel keeps a canvas of inks a
    /// canvas of inks.
    pub broadcast proof fn lemma_painted_by_inks(
        old: &Canvas,
        new: &Canvas,
        region: spec_fn(int, int) -> bool,
        val: spec_fn(int, int) -> u8,
    )
        requires
            #[trigger] Canvas::painted_by(old, new, region, val),
            forall|x: int, y: int| region(x, y) ==> #[trigger] val(x, y) < 6,
            old.inks_only(),
        ensures
            new.inks_only(),
    {
        assert forall|x: int, y: int| #![trigger new.px(x, y)] new.inside(x, y) implies new.px(x, y) < 6 by {
            assert(old.inside(x, y));
        }
    }

    /// A `w × h` canvas filled with white.
    pub fn new(w: u32, h: u32) -> (c: Canvas)
        requires
            w * h <= u32::MAX,
            w <= i32::MAX,
            h <= i32::MAX,
        ensures
            c.wf(),
            c.w == w,
            c.h == h,
            forall|x: int, y: int| #![trigger c.px(x, y)] c.inside(x, y) ==> c.px(x, y) == 1,
            c.inks_only(),
    {
        let n = w * h;
        let buf = vec![C::White.index(); n as usize];
        let c = Canvas { buf, w, h };
        assert forall|x: int, y: int| #![trigger c.px(x, y)] c.inside(x, y) implies c.px(x, y)
            == 1 by {
            lemma_index_in_bounds(x, y, w as int, h as int);
        }
        c
    }

    /// Sets every pixel to `c`.
    pub fn fill(&mut self, c: C)
        requires
            old(self).wf(),
        ensures
            Canvas::painted(old(self), final(self), |x: int, y: int| true, color_index(c)),
    {
        let v = c.index();
        let n = self.buf.len();
        let mut i: usize = 0;
        while i < n
            invariant
                self.wf(),
                self.w == old(self).w,
                self.h == old(self).h,
                n == self.buf@.len(),
                i <= n,
                forall|j: int| 0 <= j < i ==> self.buf@[j] == v,
            decreases n - i,
        {
            self.buf.set(i, v);
            i += 1;
        }
        assert forall|x: int, y: int| #![trigger self.px(x, y)] self.inside(x, y) implies self.px(
            x,
            y,
        ) == v by {
            lemma_index_in_bounds(x, y, self.w as int, self.h as int);
        }
    }

    /// Sets pixel `(x, y)` to `c`; off-canvas coordinates are ignored.
    pub fn put(&mut self, x: i32, y: i32, c: C)
        requires
            old(self).wf(),
        ensures
            Canvas::painted(
                old(self),
                final(self),
                |px: int, py: int| px == x && py == y,
                color_index(c),
            ),
    {
        if x < 0 || y < 0 || (x as u32) >= self.w || (y as u32) >= self.h {
            return ;
        }
        proof {
            lemma_index_in_bounds(x as int, y as int, self.w as int, self.h as int);
        }
        let idx = (y as u32 * self.w + x as u32) as usize;
        let ghost prev = *self;
        self.buf.set(idx, c.index());
        assert forall|px: int, py: int| #![trigger self.px(px, py)] self.inside(px, py) implies
            self.px(px, py) == (if px == x && py == y {
            color_index(c)
        } else {
            prev.px(px, py)
        }) by {
            lemma_index_in_bounds(px, py, self.w as int, self.h as int);
            if py * self.w + px == y * self.w + x {
                lemma_index_unique(px, py, x as int, y as int, self.w as int);
            }
        }
    }

    /// Writes the palette colour nearest to `rgb` at `(x, y)`; off-canvas
    /// coordinates are ignored. This is what drawing an arbitrary RGB pixel
    /// onto the indexed canvas means.
    pub fn put_rgb(&mut self, x: i32, y: i32, rgb: Rgb)
        requires
            old(self).wf(),
        ensures
            exists|i: u8|
                is_nearest_index(rgb, i as int) && Canvas::painted(
                    old(self),
                    final(self),
                    |px: int, py: int| px == x && py == y,
                    i,
                ),
    {
        let i = nearest_index(rgb);
        let c = color_of_index(i);
        self.put(x, y, c);
    }

    /// Fills `r` (clipped to the canvas) with `c`.
    pub fn fill_rect(&mut self, r: Rect, c: C)
        requires
            old(self).wf(),
            rect_ok(r),
        ensures
            Canvas::painted(old(self), final(self), |x: int, y: int| in_rect(r, x, y), color_index(c)),
    {
        let x0 = if r.x > 0 { r.x } else { 0 };
        let y0 = if r.y > 0 { r.y } else { 0 };
        let xr = r.x + r.w as i32;
        let yb = r.y + r.h as i32;
        let xm = if xr < self.w as i32 { xr } else { self.w as i32 };
        let ym = if yb < self.h as i32 { yb } else { self.h as i32 };
        let x1 = if xm > 0 { xm } else { 0 };
        let y1 = if ym > 0 { ym } else { 0 };
        let idx = c.index();
        let ghost prev = *self;
        let w = self.w;
        let mut y = y0;
        while y < y1
            invariant
                self.wf(),
                self.w == prev.w,
                self.h == prev.h,
                w == self.w,
                x0 == (if r.x > 0 { r.x as int } else { 0 }),
                y0 == (if r.y > 0 { r.y as int } else { 0 }),
                x1 == (if r.x + r.w < w { if r.x + r.w > 0 { r.x + r.w } else { 0 } } else { w as int }),
                y1 == (if r.y + r.h < self.h { if r.y + r.h > 0 { r.y + r.h } else { 0 } } else { self.h as int }),
                0 <= x0,
                0 <= y0 <= y,
                x1 <= self.w,
                y1 <= self.h,
                y <= y1 || y1 <= y0,
                forall|px: int, py: int|
                    #![trigger self.px(px, py)]
                    self.inside(px, py) ==> self.px(px, py) == (if in_rect(r, px, py) && py < y {
                        idx
                    } else {
                        prev.px(px, py)
                    }),
            decreases y1 - y,
        {
            proof {
                lemma_row_bound(y as int, w as int, self.h as int);
            }
            let row = (y as u32 * w) as usize;
            let mut x = x0;
            while x < x1
                invariant
                    self.wf(),
                    self.w == prev.w,
                    self.h == prev.h,
                    w == self.w,
                    x0 == (if r.x > 0 { r.x as int } else { 0 }),
                    y0 == (if r.y > 0 { r.y as int } else { 0 }),
                    x1 == (if r.x + r.w < w { if r.x + r.w > 0 { r.x + r.w } else { 0 } } else { w as int }),
                    y1 == (if r.y + r.h < self.h { if r.y + r.h > 0 { r.y + r.h } else { 0 } } else { self.h as int }),
                    0 <= x0,
                    0 <= y0 <= y < y1,
                    x1 <= self.w,
                    y1 <= self.h,
                    row == y * w,
                    x0 <= x,
                    x <= x1 || x == x0,
                    forall|px: int, py: int|
                        #![trigger self.px(px, py)]
                        self.inside(px, py) ==> self.px(px, py) == (if in_rect(r, px, py) && (py
                            < y || (py == y && px < x)) {
                            idx
                        } else {
                            prev.px(px, py)
                        }),
                decreases x1 - x,
            {
                proof {
                    lemma_index_in_bounds(x as int, y as int, w as int, self.h as int);
                }
                let ghost before = *self;
                self.buf.set(row + x as usize, idx);
                assert forall|px: int, py: int| #![trigger self.px(px, py)] self.inside(
                    px,
                    py,
                ) implies self.px(px, py) == (if in_rect(r, px, py) && (py < y || (py == y && px
                    < x + 1)) {
                    idx
                } else {
                    prev.px(px, py)
                }) by {
                    lemma_index_in_bounds(px, py, w as int, self.h as int);
                    if py * w + px == y * w + x {
                        lemma_index_unique(px, py, x as int, y as int, w as int);
                    }
                    assert(self.px(px, py) == if px == x && py == y {
                        idx
                    } else {
                        before.px(px, py)
                    });
                }
                x += 1;
            }
            y += 1;
        }
    }

    /// Outline of `r`, `stroke` pixels thick, drawn inside the bounds.
    pub fn stroke_rect(&mut self, r: Rect, stroke: u32, c: C)
        requires
            old(self).wf(),
            rect_ok(r),
            stroke <= i32::MAX,
            r.y + r.h - stroke >= i32::MIN,
            r.x + r.w - stroke >= i32::MIN,
            r.y + r.h - stroke + stroke <= i32::MAX,
            r.x + r.w - stroke + stroke <= i32::MAX,
            r.x + stroke <= i32::MAX,
            r.y + stroke <= i32::MAX,
        ensures
            Canvas::painted(
                old(self),
                final(self),
                |x: int, y: int| stroke_region(r, stroke as int, x, y),
                color_index(c),
            ),
    {
        let s = stroke as i32;
        let ghost c0 = *self;
        self.fill_rect(Rect { x: r.x, y: r.y, w: r.w, h: stroke }, c);
        let ghost c1 = *self;
        self.fill_rect(Rect { x: r.x, y: r.y + r.h as i32 - s, w: r.w, h: stroke }, c);
        let ghost c2 = *self;
        self.fill_rect(Rect { x: r.x, y: r.y, w: stroke, h: r.h }, c);
        let ghost c3 = *self;
        self.fill_rect(Rect { x: r.x + r.w as i32 - s, y: r.y, w: stroke, h: r.h }, c);
        assert forall|x: int, y: int| #![trigger self.px(x, y)] self.inside(x, y) implies self.px(
            x,
            y,
        ) == (if stroke_region(r, stroke as int, x, y) {
            color_index(c)
        } else {
            c0.px(x, y)
        }) by {
            assert(c3.inside(x, y) && c2.inside(x, y) && c1.inside(x, y));
        }
    }

    /// One-pixel-high horizontal run of `w` pixels starting at `(x, y)`.
    pub fn hline(&mut self, x: i32, y: i32, w: u32, c: C)
        requires
            old(self).wf(),
            rect_ok(Rect { x, y, w, h: 1 }),
        ensures
            Canvas::painted(
                old(self),
                final(self),
                |px: int, py: int| in_rect(Rect { x, y, w, h: 1 }, px, py),
                color_index(c),
            ),
    {
        self.fill_rect(Rect { x, y, w, h: 1 }, c);
    }

    /// One-pixel-wide vertical run of `h` pixels starting at `(x, y)`.
    pub fn vline(&mut self, x: i32, y: i32, h: u32, c: C)
        requires
            old(self).wf(),
            rect_ok(Rect { x, y, w: 1, h }),
        ensures
            Canvas::painted(
                old(self),
                final(self),
                |px: int, py: int| in_rect(Rect { x, y, w: 1, h }, px, py),
                color_index(c),
            ),
    {
        self.fill_rect(Rect { x, y, w: 1, h }, c);
    }
}

/// The band of `r` within `s` pixels of one of its four edges.
pub open spec fn stroke_region(r: Rect, s: int, x: int, y: int) -> bool {
    ||| in_rect(Rect { x: r.x, y: r.y, w: r.w, h: s as u32 }, x, y)
    ||| in_rect(Rect { x: r.x, y: (r.y + r.h - s) as i32, w: r.w, h: s as u32 }, x, y)
    ||| in_rect(Rect { x: r.x, y: r.y, w: s as u32, h: r.h }, x, y)
    ||| in_rect(Rect { x: (r.x + r.w - s) as i32, y: r.y, w: s as u32, h: r.h }, x, y)
}

/// Pixels of the left-leaning parallelogram whose top edge runs from
/// `(x, y)` to `(x + w, y)` and whose row `dy` is that edge shifted left by
/// `slant * dy / h`.
pub open spec fn parallelogram_region(x: int, y: int, w: int, h: int, slant: int, px: int, py: int) -> bool {
    &&& y <= py < y + h
    &&& x - row_shift(h, slant, py - y) <= px < x - row_shift(h, slant, py - y) + w
}

/// How far row `dy` of the parallelogram is shifted left.
pub open spec fn row_shift(h: int, slant: int, dy: int) -> int {
    (slant * dy) / h
}

/// Sum of the widths of the first `n` stops.
pub open spec fn stop_sum(stops: Seq<(u32, C)>, n: int) -> int
    decreases n,
{
    if n <= 0 { 0 } else { stop_sum(stops, n - 1) + stops[n - 1].0 }
}

/// Palette index of the first stop, from index `i` on, whose band covers
/// position `t`; the first stop's colour when none does.
pub open spec fn stop_pick(stops: Seq<(u32, C)>, t: int, i: int) -> u8
    decreases stops.len() - i,
{
    if i >= stops.len() || i < 0 {
        color_index(stops[0].1)
    } else if t < stop_sum(stops, i + 1) {
        color_index(stops[i].1)
    } else {
        stop_pick(stops, t, i + 1)
    }
}

/// Colour of the 135° hatch at pixel `(px, py)` of rectangle `r`: the stop
/// covering `(px - r.x + py - r.y) mod total`.
pub open spec fn hatch_color(r: Rect, stops: Seq<(u32, C)>, px: int, py: int) -> u8 {
    stop_pick(stops, (px - r.x + (py - r.y)) % stop_sum(stops, stops.len() as int), 0)
}

impl Canvas {
    /// Filled left-leaning parallelogram: the top edge spans `(x, y)` to
    /// `(x + w, y)`, and the bottom edge is that edge moved `slant` pixels
    /// to the left (row `dy` by `slant * dy / h`).
    pub fn fill_left_parallelogram(&mut self, x: i32, y: i32, w: u32, h: u32, slant: u32, c: C)
        requires
            old(self).wf(),
            w <= i32::MAX,
            h <= i32::MAX,
            slant <= i32::MAX,
            slant * h <= i32::MAX,
            x + w <= i32::MAX,
            y + h <= i32::MAX,
            x - slant >= i32::MIN,
        ensures
            Canvas::painted(
                old(self),
                final(self),
                |px: int, py: int| parallelogram_region(x as int, y as int, w as int, h as int, slant as int, px, py),
                color_index(c),
            ),
            old(self).inks_only() ==> final(self).inks_only(),
    {
        let hh = h as i32;
        let sl = slant as i32;
        let ghost prev = *self;
        let mut dy: i32 = 0;
        while dy < hh
            invariant
                self.wf(),
                self.w == prev.w,
                self.h == prev.h,
                prev == *old(self),
                hh == h,
                sl == slant,
                0 <= dy <= hh,
                w <= i32::MAX,
                slant * h <= i32::MAX,
                x + w <= i32::MAX,
                y + h <= i32::MAX,
                x - slant >= i32::MIN,
                forall|px: int, py: int|
                    #![trigger self.px(px, py)]
                    self.inside(px, py) ==> self.px(px, py) == (if parallelogram_region(x as int, y as int, w as int, h as int, slant as int, px, py) && py < y + dy {
                        color_index(c)
                    } else {
                        prev.px(px, py)
                    }),
            decreases hh - dy,
        {
            assert(0 <= sl * dy <= sl * hh) by (nonlinear_arith)
                requires
                    0 <= sl,
                    0 <= dy < hh,
            ;
            let cut = sl * dy / hh;
            assert(0 <= cut <= sl) by (nonlinear_arith)
                requires
                    0 <= sl * dy <= sl * hh,
                    hh > 0,
                    cut == (sl * dy) as int / hh as int,
            ;
            assert(cut == row_shift(h as int, slant as int, dy as int));
            let ghost before = *self;
            self.fill_rect(Rect { x: x - cut, y: y + dy, w, h: 1 }, c);
            assert forall|px: int, py: int| #![trigger self.px(px, py)] self.inside(px, py)
                implies self.px(px, py) == (if parallelogram_region(x as int, y as int, w as int, h as int, slant as int, px, py) && py < y + dy + 1 {
                color_index(c)
            } else {
                prev.px(px, py)
            }) by {
                assert(before.inside(px, py));
            }
            dy += 1;
        }
        proof {
            if prev.inks_only() {
                assert forall|px: int, py: int| #![trigger self.px(px, py)] self.inside(px, py) implies self.px(px, py) < 6 by {
                    assert(prev.inside(px, py));
                }
            }
        }
    }

    /// Diagonal hatch over `r`: the repeating band pattern `stops` (widths
    /// and colours) laid out along the 135° axis `x + y`.
    pub fn hatch_135(&mut self, r: Rect, stops: &[(u32, C)])
        requires
            old(self).wf(),
            rect_ok(r),
            stop_sum(stops@, stops@.len() as int) <= i32::MAX,
        ensures
            Canvas::painted_by(
                old(self),
                final(self),
                |px: int, py: int| in_rect(r, px, py) && stop_sum(stops@, stops@.len() as int) > 0,
                |px: int, py: int| hatch_color(r, stops@, px, py),
            ),
            old(self).inks_only() ==> final(self).inks_only(),
    {
        let n = stops.len();
        let mut total: u32 = 0;
        let mut k: usize = 0;
        while k < n
            invariant
                k <= n,
                n == stops@.len(),
                total == stop_sum(stops@, k as int),
                stop_sum(stops@, stops@.len() as int) <= i32::MAX,
            decreases n - k,
        {
            proof {
                lemma_stop_sum_mono(stops@, k as int + 1, n as int);
            }
            total = total + stops[k].0;
            k += 1;
        }
        if total == 0 {
            return ;
        }
        let x0 = if r.x > 0 { r.x } else { 0 };
        let y0 = if r.y > 0 { r.y } else { 0 };
        let xr = r.x + r.w as i32;
        let yb = r.y + r.h as i32;
        let xm = if xr < self.w as i32 { xr } else { self.w as i32 };
        let ym = if yb < self.h as i32 { yb } else { self.h as i32 };
        let x1 = if xm > 0 { xm } else { 0 };
        let y1 = if ym > 0 { ym } else { 0 };
        let ghost prev = *self;
        let w = self.w;
        let mut y = y0;
        while y < y1
            invariant
                self.wf(),
                self.w == prev.w,
                self.h == prev.h,
                w == self.w,
                n == stops@.len(),
                n > 0,
                total == stop_sum(stops@, n as int),
                total > 0,
                total <= i32::MAX,
                x0 == (if r.x > 0 { r.x as int } else { 0 }),
                y0 == (if r.y > 0 { r.y as int } else { 0 }),
                x1 == (if r.x + r.w < w { if r.x + r.w > 0 { r.x + r.w } else { 0 } } else { w as int }),
                y1 == (if r.y + r.h < self.h { if r.y + r.h > 0 { r.y + r.h } else { 0 } } else { self.h as int }),
                0 <= y0 <= y,
                y <= y1 || y1 <= y0,
                forall|px: int, py: int|
                    #![trigger self.px(px, py)]
                    self.inside(px, py) ==> self.px(px, py) == (if in_rect(r, px, py) && py < y {
                        hatch_color(r, stops@, px, py)
                    } else {
                        prev.px(px, py)
                    }),
            decreases y1 - y,
        {
            proof {
                lemma_row_bound(y as int, w as int, self.h as int);
            }
            let row = (y as u32 * w) as usize;
            let mut x = x0;
            while x < x1
                invariant
                    self.wf(),
                    self.w == prev.w,
                    self.h == prev.h,
                    w == self.w,
                    n == stops@.len(),
                    n > 0,
                    total == stop_sum(stops@, n as int),
                    total > 0,
                    total <= i32::MAX,
                    x0 == (if r.x > 0 { r.x as int } else { 0 }),
                    y0 == (if r.y > 0 { r.y as int } else { 0 }),
                    x1 == (if r.x + r.w < w { if r.x + r.w > 0 { r.x + r.w } else { 0 } } else { w as int }),
                    y1 == (if r.y + r.h < self.h { if r.y + r.h > 0 { r.y + r.h } else { 0 } } else { self.h as int }),
                    0 <= y0 <= y < y1,
                    row == y * w,
                    x0 <= x,
                    x <= x1 || x == x0,
                    forall|px: int, py: int|
                        #![trigger self.px(px, py)]
                        self.inside(px, py) ==> self.px(px, py) == (if in_rect(r, px, py) && (py
                            < y || (py == y && px < x)) {
                            hatch_color(r, stops@, px, py)
                        } else {
                            prev.px(px, py)
                        }),
                decreases x1 - x,
            {
                proof {
                    lemma_index_in_bounds(x as int, y as int, w as int, self.h as int);
                }
                let d: i64 = (x as i64 - r.x as i64) + (y as i64 - r.y as i64);
                let t = (d % (total as i64)) as u32;
                let idx = stop_index_at(stops, t, total);
                let ghost before = *self;
                self.buf.set(row + x as usize, idx);
                assert forall|px: int, py: int| #![trigger self.px(px, py)] self.inside(
                    px,
                    py,
                ) implies self.px(px, py) == (if in_rect(r, px, py) && (py < y || (py == y && px
                    < x + 1)) {
                    hatch_color(r, stops@, px, py)
                } else {
                    prev.px(px, py)
                }) by {
                    lemma_index_in_bounds(px, py, w as int, self.h as int);
                    if py * w + px == y * w + x {
                        lemma_index_unique(px, py, x as int, y as int, w as int);
                    }
                    assert(self.px(px, py) == if px == x && py == y {
                        idx
                    } else {
                        before.px(px, py)
                    });
                }
                x += 1;
            }
            y += 1;
        }
        proof {
            if prev.inks_only() {
                assert forall|px: int, py: int| #![trigger self.px(px, py)] self.inside(px, py) implies self.px(px, py) < 6 by {
                    lemma_stop_pick_ink(stops@, (px - r.x + (py - r.y)) % stop_sum(stops@, stops@.len() as int), 0);
                    assert(prev.inside(px, py));
                }
            }
        }
    }
}

/// Every stop's colour is an ink.
pub proof fn lemma_stop_pick_ink(stops: Seq<(u32, C)>, t: int, i: int)
    ensures
        stop_pick(stops, t, i) < 6,
    decreases stops.len() - i,
{
    if !(i >= stops.len() || i < 0) && !(t < stop_sum(stops, i + 1)) {
        lemma_stop_pick_ink(stops, t, i + 1);
    }
}

pub proof fn lemma_stop_sum_mono(stops: Seq<(u32, C)>, a: int, b: int)
    requires
        0 <= a <= b,
    ensures
        0 <= stop_sum(stops, a) <= stop_sum(stops, b),
    decreases b,
{
    if b > a {
        lemma_stop_sum_mono(stops, a, b - 1);
    } else if a > 0 {
        lemma_stop_sum_mono(stops, a - 1, a - 1);
    }
}

/// Palette index of the stop covering position `t` of the pattern
/// (`t < total`), scanning the stops in order.
fn stop_index_at(stops: &[(u32, C)], t: u32, total: u32) -> (r: u8)
    requires
        stops@.len() > 0,
        total == stop_sum(stops@, stops@.len() as int),
        total <= i32::MAX,
        t < total,
    ensures
        r == stop_pick(stops@, t as int, 0),
{
    let n = stops.len();
    let mut acc: u32 = 0;
    let mut i: usize = 0;
    while i < n
        invariant
            i <= n,
            n == stops@.len(),
            n > 0,
            acc == stop_sum(stops@, i as int),
            acc <= t,
            total == stop_sum(stops@, n as int),
            total <= i32::MAX,
            stop_pick(stops@, t as int, 0) == stop_pick(stops@, t as int, i as int),
        decreases n - i,
    {
        proof {
            lemma_stop_sum_mono(stops@, i as int + 1, n as int);
        }
        acc = acc + stops[i].0;
        if t < acc {
            return stops[i].1.index();
        }
        i += 1;
    }
    proof {
        assert(stop_sum(stops@, n as int) <= t);
    }
    stops[0].1.index()
}

// ── PNG output ─────────────────────────────────────────────────────────────

/// Stands for `png::EncodingError`.
#[verifier::external_type_specification]
#[verifier::external_body]
pub struct ExPngEncodingError(png::EncodingError);

/// Failure to produce the PNG.
#[derive(Copy, Clone, Debug, PartialEq, Eq, Structural)]
pub enum RenderError {
    /// The PNG encoder refused the image.
    Png,
}

/// The bytes of a 4-bit indexed PNG (best compression) holding the packed
/// rows `data` of a `w × h` image with palette `palette`, or `None` when the
/// encoder refuses the input. Deterministic in its arguments.
pub uninterp spec fn spec_png_indexed4(data: Seq<u8>, w: u32, h: u32, palette: Seq<u8>) -> Option<Seq<u8>>;

/// Encodes packed 4-bit rows as an indexed PNG with `png::Encoder`
/// (colour type Indexed, depth Four, the given palette, Compression::Best).
/// The contract says only that the result is a deterministic function of
/// the arguments; the PNG format itself is not restated.
#[verifier::external_body]
fn png_encode_indexed4(data: &Vec<u8>, w: u32, h: u32, palette: Vec<u8>) -> (r: Result<Vec<u8>, png::EncodingError>)
    ensures
        match r {
            Ok(v) => spec_png_indexed4(data@, w, h, palette@) == Some(v@),
            Err(_) => spec_png_indexed4(data@, w, h, palette@) is None,
        },
{
    let mut out = Vec::with_capacity(32 * 1024);
    {
        let mut encoder = png::Encoder::new(&mut out, w, h);
        encoder.set_color(png::ColorType::Indexed);
        encoder.set_depth(png::BitDepth::Four);
        encoder.set_palette(palette);
        encoder.set_compression(png::Compression::Best);
        let mut writer = encoder.write_header()?;
        writer.write_image_data(data)?;
    }
    Ok(out)
}

/// Bytes per packed row: two pixels per byte.
pub open spec fn row_bytes(w: int) -> int {
    (w + 1) / 2
}

/// Low nibble of a palette byte.
pub open spec fn nib(v: u8) -> int {
    (v % 16) as int
}

/// Packed byte `j` of row `y`: pixel `2j` in the high nibble, pixel `2j+1`
/// (or 0 past the right edge) in the low nibble.
pub open spec fn packed_byte(c: &Canvas, y: int, j: int) -> int {
    nib(c.px(2 * j, y)) * 16 + if 2 * j + 1 < c.w { nib(c.px(2 * j + 1, y)) } else { 0 }
}

/// All packed rows of the canvas, top to bottom.
pub open spec fn spec_packed(c: &Canvas) -> Seq<u8> {
    Seq::new(
        (row_bytes(c.w as int) * c.h) as nat,
        |k: int| packed_byte(c, k / row_bytes(c.w as int), k % row_bytes(c.w as int)) as u8,
    )
}

proof fn lemma_pack_pair(a: u8, b: u8)
    ensures
        ((a & 0x0f) << 4u8) | (b & 0x0f) == (a % 16) * 16 + b % 16,
        (a & 0x0f) << 4u8 == (a % 16) * 16,
        0 <= (a % 16) * 16 + b % 16 < 256,
{
    assert(((a & 0x0f) << 4u8) | (b & 0x0f) == (a % 16) * 16 + b % 16) by (bit_vector);
    assert((a & 0x0f) << 4u8 == (a % 16) * 16) by (bit_vector);
}

proof fn lemma_divmod(y: int, j: int, rb: int)
    requires
        0 <= j < rb,
        0 <= y,
    ensures
        (y * rb + j) / rb == y,
        (y * rb + j) % rb == j,
{
    vstd::arithmetic::div_mod::lemma_fundamental_div_mod_converse(y * rb + j, rb, y, j);
}

impl Canvas {
    /// The canvas as 4-bit packed rows: two pixels per byte, high nibble
    /// first, each row padded to a whole byte.
    pub fn pack_4bit(&self) -> (r: Vec<u8>)
        requires
            self.wf(),
        ensures
            r@ == spec_packed(self),
    {
        let w = self.w;
        let h = self.h;
        let rb: u32 = w / 2 + w % 2;
        assert(rb == row_bytes(w as int));
        assert(rb * h <= w * h + h) by (nonlinear_arith)
            requires
                rb <= w / 2 + 1,
                2 * (w / 2) <= w,
                rb * 2 <= w + 1,
        ;
        let mut out: Vec<u8> = Vec::new();
        let mut y: u32 = 0;
        while y < h
            invariant
                self.wf(),
                w == self.w,
                h == self.h,
                rb == row_bytes(w as int),
                y <= h,
                out@.len() == y * rb,
                forall|k: int| 0 <= k < out@.len() ==> out@[k] == spec_packed(self)[k],
            decreases h - y,
        {
            let mut j: u32 = 0;
            while j < rb
                invariant
                    self.wf(),
                    w == self.w,
                    h == self.h,
                    rb == row_bytes(w as int),
                    y < h,
                    j <= rb,
                    out@.len() == y * rb + j,
                    forall|k: int| 0 <= k < out@.len() ==> out@[k] == spec_packed(self)[k],
                decreases rb - j,
            {
                proof {
                    lemma_index_in_bounds(2 * j as int, y as int, w as int, h as int);
                    lemma_row_bound(y as int, w as int, h as int);
                }
                let a = self.buf[(y * w + 2 * j) as usize];
                let b: u8 = if 2 * j + 1 < w {
                    proof {
                        lemma_index_in_bounds(2 * j as int + 1, y as int, w as int, h as int);
                    }
                    self.buf[(y * w + 2 * j + 1) as usize]
                } else {
                    0
                };
                proof {
                    lemma_pack_pair(a, b);
                    lemma_divmod(y as int, j as int, rb as int);
                    assert(y * rb + rb <= rb * h) by (nonlinear_arith)
                        requires
                            y < h,
                            rb >= 0,
                    ;
                }
                let byte = ((a & 0x0f) << 4u8) | (b & 0x0f);
                out.push(byte);
                j += 1;
            }
            assert((y + 1) * rb == y * rb + rb) by (nonlinear_arith);
            y += 1;
        }
        assert(h * rb == rb * h) by (nonlinear_arith);
        assert(out@.len() == spec_packed(self).len());
        assert(out@ =~= spec_packed(self));
        out
    }

    /// The canvas as a 4-bit indexed PNG carrying the panel palette.
    pub fn into_png(self) -> (r: Result<Vec<u8>, RenderError>)
        requires
            self.wf(),
        ensures
            match r {
                Ok(v) => spec_png_indexed4(spec_packed(&self), self.w, self.h, spec_palette_bytes()) == Some(v@),
                Err(_) => spec_png_indexed4(spec_packed(&self), self.w, self.h, spec_palette_bytes()) is None,
            },
    {
        let packed = self.pack_4bit();
        match png_encode_indexed4(&packed, self.w, self.h, palette_bytes()) {
            Ok(v) => Ok(v),
            Err(_) => Err(RenderError::Png),
        }
    }
}

// ── Lines ──────────────────────────────────────────────────────────────────

/// The integer line walk's state: position and error term.
pub type WalkState = (int, int, int);

pub open spec fn abs_int(v: int) -> int {
    if v < 0 { -v } else { v }
}

/// One step of the all-octant integer line walk from `(x0, y0)` to
/// `(x1, y1)`: step along x when twice the error is at least `-|Δy|`,
/// along y when it is at most `|Δx|` (both may happen).
pub open spec fn walk_next(x0: int, y0: int, x1: int, y1: int, s: WalkState) -> WalkState {
    let dx = abs_int(x1 - x0);
    let dy = -abs_int(y1 - y0);
    let sx = if x0 < x1 { 1int } else { -1int };
    let sy = if y0 < y1 { 1int } else { -1int };
    let e2 = 2 * s.2;
    let xs = e2 >= dy;
    let ys = e2 <= dx;
    (
        if xs { s.0 + sx } else { s.0 },
        if ys { s.1 + sy } else { s.1 },
        s.2 + (if xs { dy } else { 0 }) + (if ys { dx } else { 0 }),
    )
}

/// The walk's state after `k` steps.
pub open spec fn walk(x0: int, y0: int, x1: int, y1: int, k: nat) -> WalkState
    decreases k,
{
    if k == 0 {
        (x0, y0, abs_int(x1 - x0) - abs_int(y1 - y0))
    } else {
        walk_next(x0, y0, x1, y1, walk(x0, y0, x1, y1, (k - 1) as nat))
    }
}

/// The walk has reached the far end after `k` steps.
pub open spec fn walk_done(x0: int, y0: int, x1: int, y1: int, k: nat) -> bool {
    walk(x0, y0, x1, y1, k).0 == x1 && walk(x0, y0, x1, y1, k).1 == y1
}

/// Pixel `(px, py)` is on the line: the walk visits it at some step `k` no
/// later than its arrival at the far end, and, for a dashed line, `k` is
/// even.
pub open spec fn line_px(x0: int, y0: int, x1: int, y1: int, dash: bool, px: int, py: int) -> bool {
    exists|k: nat| {
        &&& forall|m: nat| m < k ==> !#[trigger] walk_done(x0, y0, x1, y1, m)
        &&& #[trigger] walk(x0, y0, x1, y1, k).0 == px
        &&& walk(x0, y0, x1, y1, k).1 == py
        &&& (!dash || k % 2 == 0)
    }
}

/// Coordinates small enough for the walk's 32-bit arithmetic.
pub open spec fn line_ok(x0: i32, y0: i32, x1: i32, y1: i32) -> bool {
    &&& -0x400_0000 <= x0 <= 0x400_0000
    &&& -0x400_0000 <= y0 <= 0x400_0000
    &&& -0x400_0000 <= x1 <= 0x400_0000
    &&& -0x400_0000 <= y1 <= 0x400_0000
}

impl Canvas {
    /// Straight line from `(x0, y0)` to `(x1, y1)` (both ends included);
    /// with `dash`, every other pixel of the walk.
    pub fn line(&mut self, x0: i32, y0: i32, x1: i32, y1: i32, c: C, dash: bool)
        requires
            old(self).wf(),
            line_ok(x0, y0, x1, y1),
        ensures
            Canvas::painted(
                old(self),
                final(self),
                |px: int, py: int| line_px(x0 as int, y0 as int, x1 as int, y1 as int, dash, px, py),
                color_index(c),
            ),
    {
        let ghost (gx0, gy0, gx1, gy1) = (x0 as int, y0 as int, x1 as int, y1 as int);
        let dx = if x1 - x0 < 0 { x0 - x1 } else { x1 - x0 };
        let dy = -(if y1 - y0 < 0 { y0 - y1 } else { y1 - y0 });
        let sx: i32 = if x0 < x1 { 1 } else { -1 };
        let sy: i32 = if y0 < y1 { 1 } else { -1 };
        let mut x = x0;
        let mut y = y0;
        let mut err = dx + dy;
        let mut n: u32 = 0;
        let ghost mut i: int = 0;
        let ghost mut j: int = 0;
        let ghost start = *self;
        let ghost big_dy = -dy;
        loop
            invariant_except_break
                self.wf(),
                start.wf(),
                self.w == start.w,
                self.h == start.h,
                line_ok(x0, y0, x1, y1),
                gx0 == x0 as int,
                gy0 == y0 as int,
                gx1 == x1 as int,
                gy1 == y1 as int,
                dx == abs_int(gx1 - gx0),
                dy == -abs_int(gy1 - gy0),
                big_dy == -dy,
                sx == (if x0 < x1 { 1int } else { -1int }),
                sy == (if y0 < y1 { 1int } else { -1int }),
                0 <= i <= dx,
                0 <= j <= big_dy,
                dx <= 0x800_0000,
                big_dy <= 0x800_0000,
                x == (if x0 < x1 { gx0 + i } else { gx0 - i }),
                y == (if y0 < y1 { gy0 + j } else { gy0 - j }),
                err == dx - big_dy + j * dx - i * big_dy,
                -(dx + 2 * big_dy) <= 2 * (j * dx - i * big_dy) <= 2 * dx + big_dy,
                n <= i + j,
                walk(gx0, gy0, gx1, gy1, n as nat) == (x as int, y as int, err as int),
                forall|m: nat| m < n ==> !#[trigger] walk_done(gx0, gy0, gx1, gy1, m),
                Canvas::painted(
                    &start,
                    self,
                    |px: int, py: int| exists|k: nat| {
                        &&& k < n
                        &&& #[trigger] walk(gx0, gy0, gx1, gy1, k).0 == px
                        &&& walk(gx0, gy0, gx1, gy1, k).1 == py
                        &&& (!dash || k % 2 == 0)
                    },
                    color_index(c),
                ),
            ensures
                self.wf(),
                self.w == start.w,
                self.h == start.h,
                n >= 1,
                walk_done(gx0, gy0, gx1, gy1, (n - 1) as nat),
                forall|m: nat| m < n - 1 ==> !#[trigger] walk_done(gx0, gy0, gx1, gy1, m),
                Canvas::painted(
                    &start,
                    self,
                    |px: int, py: int| exists|k: nat| {
                        &&& k < n
                        &&& #[trigger] walk(gx0, gy0, gx1, gy1, k).0 == px
                        &&& walk(gx0, gy0, gx1, gy1, k).1 == py
                        &&& (!dash || k % 2 == 0)
                    },
                    color_index(c),
                ),
            decreases (dx - i) + (big_dy - j),
        {
            let ghost before = *self;
            if !dash || n % 2 == 0 {
                self.put(x, y, c);
            }
            proof {
                assert forall|px: int, py: int| #![trigger self.px(px, py)] self.inside(px, py) implies self.px(px, py) == (if exists|k: nat| {
                        &&& k < n + 1
                        &&& #[trigger] walk(gx0, gy0, gx1, gy1, k).0 == px
                        &&& walk(gx0, gy0, gx1, gy1, k).1 == py
                        &&& (!dash || k % 2 == 0)
                    } {
                    color_index(c)
                } else {
                    start.px(px, py)
                }) by {
                    if exists|k: nat| {
                        &&& k < n + 1
                        &&& #[trigger] walk(gx0, gy0, gx1, gy1, k).0 == px
                        &&& walk(gx0, gy0, gx1, gy1, k).1 == py
                        &&& (!dash || k % 2 == 0)
                    } {
                        let k = choose|k: nat| {
                            &&& k < n + 1
                            &&& #[trigger] walk(gx0, gy0, gx1, gy1, k).0 == px
                            &&& walk(gx0, gy0, gx1, gy1, k).1 == py
                            &&& (!dash || k % 2 == 0)
                        };
                        if k < n {
                            assert(before.px(px, py) == color_index(c));
                        }
                    } else {
                        if px == x && py == y && (!dash || n % 2 == 0) {
                            assert(walk(gx0, gy0, gx1, gy1, n as nat).0 == px);
                            assert(false);
                        }
                    }
                }
            }
            let ghost n_old = n;
            assert(walk(gx0, gy0, gx1, gy1, n_old as nat) == (x as int, y as int, err as int));
            n += 1;
            if x == x1 && y == y1 {
                assert(walk_done(gx0, gy0, gx1, gy1, n_old as nat));
                break;
            }
            proof {
                assert(!walk_done(gx0, gy0, gx1, gy1, n_old as nat));
            }
            let e2 = 2 * err;
            let ghost xs = e2 >= dy;
            let ghost ys = e2 <= dx;
            if e2 >= dy {
                err += dy;
                x += sx;
            }
            if e2 <= dx {
                err += dx;
                y += sy;
            }
            proof {
                lemma_walk_step(gx0, gy0, gx1, gy1, dx as int, big_dy, i, j, xs, ys);
                if xs { i = i + 1; }
                if ys { j = j + 1; }
            }
        }
        proof {
            assert forall|px: int, py: int| (exists|k: nat| {
                &&& k < n
                &&& #[trigger] walk(gx0, gy0, gx1, gy1, k).0 == px
                &&& walk(gx0, gy0, gx1, gy1, k).1 == py
                &&& (!dash || k % 2 == 0)
            }) <==> line_px(gx0, gy0, gx1, gy1, dash, px, py) by {
                if line_px(gx0, gy0, gx1, gy1, dash, px, py) {
                    let k = choose|k: nat| {
                        &&& forall|m: nat| m < k ==> !#[trigger] walk_done(gx0, gy0, gx1, gy1, m)
                        &&& #[trigger] walk(gx0, gy0, gx1, gy1, k).0 == px
                        &&& walk(gx0, gy0, gx1, gy1, k).1 == py
                        &&& (!dash || k % 2 == 0)
                    };
                    if k >= n {
                        assert(walk_done(gx0, gy0, gx1, gy1, (n - 1) as nat));
                    }
                }
            }
        }
    }
}

/// The walk's bookkeeping after one step: `i` x-steps and `j` y-steps
/// taken, the error term tracking `j·|Δx| − i·|Δy|`, the walk staying
/// between its ends, and progress toward the far end.
proof fn lemma_walk_step(x0: int, y0: int, x1: int, y1: int, dx: int, dy: int, i: int, j: int, xs: bool, ys: bool)
    requires
        dx == abs_int(x1 - x0),
        dy == abs_int(y1 - y0),
        0 <= i <= dx,
        0 <= j <= dy,
        !(i == dx && j == dy),
        -(dx + 2 * dy) <= 2 * (j * dx - i * dy) <= 2 * dx + dy,
        xs == (2 * (dx - dy + j * dx - i * dy) >= -dy),
        ys == (2 * (dx - dy + j * dx - i * dy) <= dx),
    ensures
        xs || ys,
        xs ==> i + 1 <= dx,
        ys ==> j + 1 <= dy,
        -(dx + 2 * dy) <= 2 * ((if ys { j + 1 } else { j }) * dx - (if xs { i + 1 } else { i }) * dy) <= 2 * dx + dy,
        (j + 1) * dx == j * dx + dx,
        (i + 1) * dy == i * dy + dy,
{
    let c = j * dx - i * dy;
    if i == dx && xs {
        assert(j * dx - dx * dy == dx * (j - dy)) by (nonlinear_arith);
        assert(dx * (j - dy) <= -dx) by (nonlinear_arith)
            requires
                j <= dy - 1,
                dx >= 0,
        ;
        assert(false);
    }
    if j == dy && ys {
        assert(dy * dx - i * dy == dy * (dx - i)) by (nonlinear_arith);
        assert(dy * (dx - i) >= dy) by (nonlinear_arith)
            requires
                i <= dx - 1,
                dy >= 0,
        ;
        assert(false);
    }
    assert((j + 1) * dx == j * dx + dx) by (nonlinear_arith);
    assert((i + 1) * dy == i * dy + dy) by (nonlinear_arith);
}


/// Until the walk arrives, its state is `i` steps along x and `j` along y
/// from the start, with the error term those steps leave, and at least one
/// of the two advanced at every step.
proof fn lemma_walk_shape(x0: int, y0: int, x1: int, y1: int, k: nat) -> (ij: (int, int))
    requires
        forall|m: nat| m < k ==> !#[trigger] walk_done(x0, y0, x1, y1, m),
    ensures
        ({
            let (i, j) = ij;
            let dx = abs_int(x1 - x0);
            let dy = abs_int(y1 - y0);
            let sx = if x0 < x1 { 1int } else { -1int };
            let sy = if y0 < y1 { 1int } else { -1int };
            &&& 0 <= i <= dx
            &&& 0 <= j <= dy
            &&& i + j >= k
            &&& -(dx + 2 * dy) <= 2 * (j * dx - i * dy) <= 2 * dx + dy
            &&& walk(x0, y0, x1, y1, k) == (x0 + sx * i, y0 + sy * j, dx - dy + j * dx - i * dy)
        }),
    decreases k,
{
    let dx = abs_int(x1 - x0);
    let dy = abs_int(y1 - y0);
    if k == 0 {
        (0, 0)
    } else {
        let (i, j) = lemma_walk_shape(x0, y0, x1, y1, (k - 1) as nat);
        assert(!walk_done(x0, y0, x1, y1, (k - 1) as nat));
        let sx = if x0 < x1 { 1int } else { -1int };
        let sy = if y0 < y1 { 1int } else { -1int };
        lemma_signed_reach(x0, x1, sx, dx);
        lemma_signed_reach(y0, y1, sy, dy);
        assert(!(i == dx && j == dy));
        let e = dx - dy + j * dx - i * dy;
        let xs = 2 * e >= -dy;
        let ys = 2 * e <= dx;
        lemma_walk_step(x0, y0, x1, y1, dx, dy, i, j, xs, ys);
        let ni = if xs { i + 1 } else { i };
        let nj = if ys { j + 1 } else { j };
        assert(x0 + sx * ni == x0 + sx * i + (if xs { sx } else { 0 })) by (nonlinear_arith)
            requires ni == (if xs { i + 1 } else { i });
        assert(y0 + sy * nj == y0 + sy * j + (if ys { sy } else { 0 })) by (nonlinear_arith)
            requires nj == (if ys { j + 1 } else { j });
        (ni, nj)
    }
}

/// `d` signed steps of size one lead from `a` to `b`.
proof fn lemma_signed_reach(a: int, b: int, s: int, d: int)
    requires
        s == (if a < b { 1int } else { -1int }),
        d == abs_int(b - a),
    ensures
        a + s * d == b,
{
    if a < b {
        assert(s * d == d) by (nonlinear_arith)
            requires
                s == 1,
        ;
    } else {
        assert(s * d == -d) by (nonlinear_arith)
            requires
                s == -1,
        ;
    }
}

/// The first step at or after `k` at which the walk arrives.
proof fn lemma_walk_arrives(x0: int, y0: int, x1: int, y1: int, k: nat) -> (e: nat)
    requires
        forall|m: nat| m < k ==> !#[trigger] walk_done(x0, y0, x1, y1, m),
    ensures
        k <= e,
        walk_done(x0, y0, x1, y1, e),
        forall|m: nat| m < e ==> !#[trigger] walk_done(x0, y0, x1, y1, m),
    decreases abs_int(x1 - x0) + abs_int(y1 - y0) - k,
{
    if walk_done(x0, y0, x1, y1, k) {
        k
    } else {
        let (i, j) = lemma_walk_shape(x0, y0, x1, y1, k);
        let sx = if x0 < x1 { 1int } else { -1int };
        let sy = if y0 < y1 { 1int } else { -1int };
        lemma_signed_reach(x0, x1, sx, abs_int(x1 - x0));
        lemma_signed_reach(y0, y1, sy, abs_int(y1 - y0));
        assert(!(i == abs_int(x1 - x0) && j == abs_int(y1 - y0)));
        assert forall|m: nat| m < k + 1 implies !#[trigger] walk_done(x0, y0, x1, y1, m) by {
            if m < k {
                assert(!walk_done(x0, y0, x1, y1, m));
            }
        }
        lemma_walk_arrives(x0, y0, x1, y1, (k + 1) as nat)
    }
}

/// A line covers its start, and a solid line covers its far end as well.
pub proof fn law_line_ends(x0: int, y0: int, x1: int, y1: int, dash: bool)
    ensures
        line_px(x0, y0, x1, y1, dash, x0, y0),
        !dash ==> line_px(x0, y0, x1, y1, dash, x1, y1),
{
    assert(walk(x0, y0, x1, y1, 0).0 == x0);
    assert(forall|m: nat| m < 0 ==> !#[trigger] walk_done(x0, y0, x1, y1, m));
    let e = lemma_walk_arrives(x0, y0, x1, y1, 0);
    assert(walk(x0, y0, x1, y1, e).0 == x1);
}

} // verus!
