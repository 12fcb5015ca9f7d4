//! Layout and content of the dashboard, drawn straight onto the indexed
//! canvas: bitmap-font text, panel frames and the weather glyphs.

use vstd::prelude::*;
use embedded_graphics::framebuffer::Framebuffer;
use embedded_graphics::geometry::Point;
use embedded_graphics::pixelcolor::raw::{LittleEndian, RawU8};
use embedded_graphics::pixelcolor::Gray8;
use embedded_graphics::prelude::GrayColor;
use u8g2_fonts::fonts::{
    u8g2_font_helvB08_te, u8g2_font_helvB10_te, u8g2_font_helvB14_te, u8g2_font_helvB18_te,
    u8g2_font_helvB24_te, u8g2_font_helvR08_te, u8g2_font_helvR10_te, u8g2_font_logisoso92_tn,
};
use u8g2_fonts::types::HorizontalAlignment::{Center, Left, Right};
use u8g2_fonts::types::VerticalPosition::Baseline;
use u8g2_fonts::types::FontColor;
use u8g2_fonts::FontRenderer;
use crate::render::{color_index, hatch_color, in_rect, parallelogram_region, rect_ok, stroke_region, stop_sum, spec_packed, spec_palette_bytes, spec_png_indexed4, Canvas, Rect, RenderError, C, H, W};
use crate::data::{AgendaItem, Alert, BudgetCat, BudgetClass, BudgetData, ClusterMetrics, DashData, HostData, ShipmentHighlight, WeatherData, WeatherDay, WeatherHour, unix_now};
use crate::clock::{days_in_month, local_now, spec_days_in_month, LocalStamp};
use crate::status::{collect_markers, is_degraded, law_degraded_empty_iff_healthy, panels_of, spec_marker, spec_worse_of, Status};
use crate::text::{chars_of, dec, dec_int, fmt_int, push_dec, push_dec_wide, push_int, push_str, str_is, string_from_chars, string_of};

verus! {

broadcast use {crate::render::Canvas::lemma_painted_inks, crate::render::Canvas::lemma_painted_by_inks};

// ── Fonts and text ─────────────────────────────────────────────────────────

/// The bitmap faces of the layout (no antialiasing: the panel cannot show
/// it): Helvetica regular/bold at 8, 10, 14, 18 and 24 px, and a tall
/// display face for the hero temperature.
#[derive(Copy, Clone, Debug, PartialEq, Eq, Structural)]
pub enum FontId {
    Body,
    BodyBold,
    Small,
    SmallBold,
    LgBold,
    XlBold,
    HugeBold,
    Temperature,
}

/// Horizontal anchoring of a text run at its `x`.
#[derive(Copy, Clone, Debug, PartialEq, Eq, Structural)]
pub enum Align {
    Left,
    Right,
    Center,
}

/// Pixels of the layout area, row-major: `W * H`.
pub const MASK_LEN: usize = 384000;

/// An 8-bit grey framebuffer of the layout area (embedded-graphics).
pub type MaskBuffer = Framebuffer<Gray8, RawU8, LittleEndian, 800, 480, 384000>;

/// The coverage mask of a text run: byte `y * W + x` is non-zero exactly
/// where the glyphs of `text` ink pixel `(x, y)` when set on baseline `y0`
/// at `x0` with the given alignment.
pub uninterp spec fn spec_text_mask(font: FontId, text: Seq<char>, x0: i32, y0: i32, align: Align) -> Seq<u8>;

/// `FontRenderer::render_aligned` (u8g2-fonts), drawing `text` in a
/// transparent colour onto an empty `W × H` 8-bit framebuffer
/// (embedded-graphics), whose bytes are returned. Claimed: the result is a
/// function of the arguments and has one byte per pixel of the layout
/// area. A left-aligned run stops at the first glyph the face lacks, what
/// was drawn until then staying; a centred or right-aligned run holding
/// such a glyph draws nothing, as its width cannot be measured.
#[verifier::external_body]
fn text_mask(font: FontId, text: &str, x0: i32, y0: i32, align: Align) -> (r: Vec<u8>)
    requires
        text_pos_ok(x0, y0),
    ensures
        r@ == spec_text_mask(font, text@, x0, y0, align),
        r@.len() == MASK_LEN,
{
    let mut fb = MaskBuffer::new();
    let h = match align { Align::Left => Left, Align::Right => Right, Align::Center => Center };
    match font {
        FontId::Body => FontRenderer::new::<u8g2_font_helvR10_te>(),
        FontId::BodyBold => FontRenderer::new::<u8g2_font_helvB10_te>(),
        FontId::Small => FontRenderer::new::<u8g2_font_helvR08_te>(),
        FontId::SmallBold => FontRenderer::new::<u8g2_font_helvB08_te>(),
        FontId::LgBold => FontRenderer::new::<u8g2_font_helvB14_te>(),
        FontId::XlBold => FontRenderer::new::<u8g2_font_helvB18_te>(),
        FontId::HugeBold => FontRenderer::new::<u8g2_font_helvB24_te>(),
        FontId::Temperature => FontRenderer::new::<u8g2_font_logisoso92_tn>(),
    }.render_aligned(text, Point::new(x0, y0), Baseline, h, FontColor::Transparent(Gray8::WHITE), &mut fb).ok();
    fb.data().to_vec()
}

/// The horizontal cursor advance of `text` set in `font` (where a following
/// glyph would start); `None` when the face lacks one of its glyphs.
pub uninterp spec fn spec_text_advance(font: FontId, text: Seq<char>) -> Option<i32>;

/// `FontRenderer::get_rendered_dimensions` (u8g2-fonts) at the origin on the
/// baseline, keeping the advance's `x`. Claimed: a function of the
/// arguments.
#[verifier::external_body]
fn text_advance(font: FontId, text: &str) -> (r: Option<i32>)
    ensures
        r == spec_text_advance(font, text@),
{
    match font {
        FontId::Body => FontRenderer::new::<u8g2_font_helvR10_te>(),
        FontId::BodyBold => FontRenderer::new::<u8g2_font_helvB10_te>(),
        FontId::Small => FontRenderer::new::<u8g2_font_helvR08_te>(),
        FontId::SmallBold => FontRenderer::new::<u8g2_font_helvB08_te>(),
        FontId::LgBold => FontRenderer::new::<u8g2_font_helvB14_te>(),
        FontId::XlBold => FontRenderer::new::<u8g2_font_helvB18_te>(),
        FontId::HugeBold => FontRenderer::new::<u8g2_font_helvB24_te>(),
        FontId::Temperature => FontRenderer::new::<u8g2_font_logisoso92_tn>(),
    }.get_rendered_dimensions(text, Point::zero(), Baseline).ok().map(|d| d.advance.x)
}

/// Layout width of `text`: its cursor advance, 0 when negative or when the
/// face cannot set it.
pub open spec fn spec_text_width(font: FontId, text: Seq<char>) -> u32 {
    match spec_text_advance(font, text) {
        Some(a) => if a > 0 { a as u32 } else { 0 },
        None => 0,
    }
}

pub fn text_width(font: FontId, text: &str) -> (r: u32)
    ensures
        r == spec_text_width(font, text@),
{
    match text_advance(font, text) {
        Some(a) => if a > 0 { a as u32 } else { 0 },
        None => 0,
    }
}

/// Pixel `(px, py)` of the layout area is inked by the text run.
pub open spec fn text_px(font: FontId, text: Seq<char>, x0: i32, y0: i32, align: Align, px: int, py: int) -> bool {
    &&& 0 <= px < W
    &&& 0 <= py < H
    &&& spec_text_mask(font, text, x0, y0, align)[py * W + px] != 0
}

/// A text anchor far enough from the ends of `i32` for the glyph
/// renderer's position arithmetic.
pub open spec fn text_pos_ok(x0: i32, y0: i32) -> bool {
    -10_000_000 <= x0 <= 10_000_000 && -10_000_000 <= y0 <= 10_000_000
}

/// Draws `text` in `color`, every other pixel left as it was.
pub fn draw_text(c: &mut Canvas, font: FontId, text: &str, x0: i32, y0: i32, color: C, align: Align)
    requires
        text_pos_ok(x0, y0),
        old(c).wf(),
        old(c).w == W,
        old(c).h == H,
    ensures
        Canvas::painted(
            old(c),
            final(c),
            |px: int, py: int| text_px(font, text@, x0, y0, align, px, py),
            color_index(color),
        ),
        old(c).inks_only() ==> final(c).inks_only(),
{
    let mask = text_mask(font, text, x0, y0, align);
    let ghost m = mask@;
    let ghost start = *c;
    let mut yy: u32 = 0;
    while yy < H
        invariant
            mask@ == m,
            m == spec_text_mask(font, text@, x0, y0, align),
            m.len() == MASK_LEN,
            yy <= H,
            c.w == W,
            c.h == H,
            start.w == W,
            start.h == H,
            Canvas::painted(
                &start,
                c,
                |px: int, py: int| py < yy && text_px(font, text@, x0, y0, align, px, py),
                color_index(color),
            ),
        decreases H - yy,
    {
        let mut xx: u32 = 0;
        while xx < W
            invariant
                mask@ == m,
                m == spec_text_mask(font, text@, x0, y0, align),
                m.len() == MASK_LEN,
                yy < H,
                xx <= W,
                c.w == W,
                c.h == H,
                start.w == W,
                start.h == H,
                Canvas::painted(
                    &start,
                    c,
                    |px: int, py: int| (py < yy || (py == yy && px < xx)) && text_px(font, text@, x0, y0, align, px, py),
                    color_index(color),
                ),
            decreases W - xx,
        {
            let idx = (yy * W + xx) as usize;
            if mask[idx] != 0 {
                c.put(xx as i32, yy as i32, color);
            }
            xx += 1;
        }
        yy += 1;
    }
    proof {
        if start.inks_only() {
            assert forall|x: int, y: int| #![trigger c.px(x, y)] c.inside(x, y) implies c.px(x, y) < 6 by {
                assert(start.inside(x, y));
            }
        }
    }
}


/// Offset `i` (of 9) of the halo around a glyph: a 3 × 3 block, so a
/// 1-pixel outline.
pub open spec fn halo_dx(i: int) -> int {
    i % 3 - 1
}

pub open spec fn halo_dy(i: int) -> int {
    i / 3 - 1
}

/// Pixel `(px, py)` is inked by one of the first `k` halo copies (the
/// centre copy excluded).
pub open spec fn halo_px(font: FontId, text: Seq<char>, x0: i32, y0: i32, align: Align, k: int, px: int, py: int) -> bool {
    exists|i: int| 0 <= i < k && i != 4
        && #[trigger] text_px(font, text, (x0 + halo_dx(i)) as i32, (y0 + halo_dy(i)) as i32, align, px, py)
}

/// Draws `text` in `fg` over a 1-pixel `outline` halo: the run set in
/// `outline` at the eight neighbouring offsets, then once in `fg` on top:
/// a 1-pixel outline.
pub fn draw_outlined_text(c: &mut Canvas, font: FontId, text: &str, x0: i32, y0: i32, fg: C, outline: C, align: Align)
    requires
        old(c).wf(),
        old(c).w == W,
        old(c).h == H,
        -9_000_000 <= x0 <= 9_000_000,
        -9_000_000 <= y0 <= 9_000_000,
    ensures
        Canvas::painted_by(
            old(c),
            final(c),
            |px: int, py: int| text_px(font, text@, x0, y0, align, px, py)
                || halo_px(font, text@, x0, y0, align, 9, px, py),
            |px: int, py: int| if text_px(font, text@, x0, y0, align, px, py) {
                color_index(fg)
            } else {
                color_index(outline)
            },
        ),
{
    let ghost start = *c;
    let mut i: i32 = 0;
    while i < 9
        invariant
            0 <= i <= 9,
            c.wf(),
            c.w == W,
            c.h == H,
            start.w == W,
            start.h == H,
            -9_000_000 <= x0 <= 9_000_000,
            -9_000_000 <= y0 <= 9_000_000,
            Canvas::painted(
                &start,
                c,
                |px: int, py: int| halo_px(font, text@, x0, y0, align, i as int, px, py),
                color_index(outline),
            ),
        decreases 9 - i,
    {
        let ghost before = *c;
        if i != 4 {
            let dx = i % 3 - 1;
            let dy = i / 3 - 1;
            draw_text(c, font, text, x0 + dx, y0 + dy, outline, align);
        }
        proof {
            assert forall|px: int, py: int| #![trigger c.px(px, py)] c.inside(px, py) implies c.px(px, py) == (if halo_px(font, text@, x0, y0, align, i + 1, px, py) {
                color_index(outline)
            } else {
                start.px(px, py)
            }) by {
                if i != 4 && text_px(font, text@, (x0 + halo_dx(i as int)) as i32, (y0 + halo_dy(i as int)) as i32, align, px, py) {
                    assert(halo_px(font, text@, x0, y0, align, i + 1, px, py));
                }
                if halo_px(font, text@, x0, y0, align, i + 1, px, py) && !halo_px(font, text@, x0, y0, align, i as int, px, py) {
                    let j = choose|j: int| 0 <= j < i + 1 && j != 4
                        && #[trigger] text_px(font, text@, (x0 + halo_dx(j)) as i32, (y0 + halo_dy(j)) as i32, align, px, py);
                    assert(j == i);
                }
                if halo_px(font, text@, x0, y0, align, i as int, px, py) {
                    let j = choose|j: int| 0 <= j < i && j != 4
                        && #[trigger] text_px(font, text@, (x0 + halo_dx(j)) as i32, (y0 + halo_dy(j)) as i32, align, px, py);
                    assert(halo_px(font, text@, x0, y0, align, i + 1, px, py));
                }
            }
        }
        i += 1;
    }
    draw_text(c, font, text, x0, y0, fg, align);
}

/// Text runs are clipped to a width by dropping characters off the end and
/// appending an ellipsis; the candidates `s[..n] + "…"` are tried for `n`
/// from `k - 1` down to 0, the first that fits wins, `"…"` alone when none
/// does.
pub open spec fn clip_search(font: FontId, s: Seq<char>, k: int, max_w: u32) -> Seq<char>
    decreases k,
{
    if k <= 0 {
        seq!['…']
    } else if spec_text_width(font, s.take(k - 1).push('…')) <= max_w {
        s.take(k - 1).push('…')
    } else {
        clip_search(font, s, k - 1, max_w)
    }
}

/// `s` when it fits in `max_w`, else its longest ellipsized prefix that
/// does (see `clip_search`).
pub open spec fn spec_clip_to_width(font: FontId, s: Seq<char>, max_w: u32) -> Seq<char> {
    if spec_text_width(font, s) <= max_w {
        s
    } else {
        clip_search(font, s, s.len() as int, max_w)
    }
}

proof fn lemma_clip_search(font: FontId, s: Seq<char>, k: int, max_w: u32) -> (n: int)
    requires
        0 <= k <= s.len(),
    ensures
        0 <= n <= s.len(),
        clip_search(font, s, k, max_w) == s.take(n).push('…'),
        spec_text_width(font, clip_search(font, s, k, max_w)) <= max_w || clip_search(font, s, k, max_w)
            == seq!['…'],
    decreases k,
{
    if k <= 0 {
        assert(s.take(0).push('…') =~= seq!['…']);
        0
    } else if spec_text_width(font, s.take(k - 1).push('…')) <= max_w {
        k - 1
    } else {
        lemma_clip_search(font, s, k - 1, max_w)
    }
}

/// A clipped run fits its width, unless it is the bare ellipsis because
/// nothing else does, and it reads as the text itself or as a prefix of
/// it followed by an ellipsis.
pub proof fn law_clip_to_width(font: FontId, s: Seq<char>, max_w: u32)
    ensures
        spec_text_width(font, spec_clip_to_width(font, s, max_w)) <= max_w || spec_clip_to_width(font, s, max_w)
            == seq!['…'],
        spec_clip_to_width(font, s, max_w) == s || exists|n: int|
            0 <= n <= s.len() && spec_clip_to_width(font, s, max_w) == #[trigger] s.take(n).push('…'),
{
    if spec_text_width(font, s) > max_w {
        let n = lemma_clip_search(font, s, s.len() as int, max_w);
        assert(spec_clip_to_width(font, s, max_w) == s.take(n).push('…'));
    }
}

/// Ellipsizes `s` to fit in `max_w` pixels of `font`.
pub fn clip_to_width(font: FontId, s: &str, max_w: u32) -> (r: String)
    ensures
        r@ == spec_clip_to_width(font, s@, max_w),
{
    if text_width(font, s) <= max_w {
        return string_of(s);
    }
    let cs = chars_of(s);
    let mut k: usize = cs.len();
    while k > 0
        invariant
            k <= cs@.len(),
            cs@ == s@,
            spec_text_width(font, s@) > max_w,
            clip_search(font, s@, k as int, max_w) == clip_search(font, s@, cs@.len() as int, max_w),
        decreases k,
    {
        let mut cand: Vec<char> = Vec::new();
        let mut j: usize = 0;
        while j < k - 1
            invariant
                0 < k <= cs@.len(),
                j <= k - 1,
                cand@ == cs@.take(j as int),
            decreases k - 1 - j,
        {
            cand.push(cs[j]);
            assert(cs@.take(j + 1) == cs@.take(j as int).push(cs@[j as int]));
            j += 1;
        }
        cand.push('…');
        let cand_s = string_from_chars(&cand);
        if text_width(font, cand_s.as_str()) <= max_w {
            assert(cand_s@ == s@.take(k - 1).push('…'));
            assert(clip_search(font, s@, k as int, max_w) == cand_s@);
            return cand_s;
        }
        k -= 1;
    }
    proof {
        reveal_strlit("…");
    }
    string_of("…")
}

/// `String::to_uppercase` on `s`: the Unicode uppercase mapping, which
/// can change the number of characters.
pub uninterp spec fn spec_to_uppercase(s: Seq<char>) -> Seq<char>;

/// `str::to_uppercase` (std). Claimed: a function of the argument.
#[verifier::external_body]
pub(crate) fn to_uppercase(s: &str) -> (r: String)
    ensures
        r@ == spec_to_uppercase(s@),
{
    s.to_uppercase()
}

/// Uppercases `s` and keeps at most `max_chars` characters of the result.
pub open spec fn spec_clip_to_chars(s: Seq<char>, max_chars: usize) -> Seq<char> {
    let u = spec_to_uppercase(s);
    if u.len() <= max_chars {
        u
    } else {
        u.take(max_chars as int)
    }
}

pub fn clip_to_chars(s: &str, max_chars: usize) -> (r: String)
    ensures
        r@ == spec_clip_to_chars(s@, max_chars),
{
    let upper = to_uppercase(s);
    let cs = chars_of(upper.as_str());
    if cs.len() <= max_chars {
        return upper;
    }
    let mut out: Vec<char> = Vec::new();
    let mut j: usize = 0;
    while j < max_chars
        invariant
            max_chars < cs@.len(),
            j <= max_chars,
            out@ == cs@.take(j as int),
        decreases max_chars - j,
    {
        out.push(cs[j]);
        assert(cs@.take(j + 1) == cs@.take(j as int).push(cs@[j as int]));
        j += 1;
    }
    string_from_chars(&out)
}


// ── Frame ──────────────────────────────────────────────────────────────────

/// The canvas is a well-formed full-size layout canvas whose every pixel
/// holds one of the six inks.
pub open spec fn layout_canvas(c: &Canvas) -> bool {
    c.wf() && c.w == W && c.h == H && c.inks_only()
}

/// Header band height (including its 3-pixel bottom rule).
pub const HDR_H: u32 = 44;
/// Footer band height.
pub const FTR_H: u32 = 22;
pub const BODY_TOP: i32 = 44;
/// `H - HDR_H - FTR_H`.
pub const BODY_H: u32 = 414;
/// Half the body: the rows of the second and third columns.
pub const ROW_H: u32 = 207;
pub const COL1_W: u32 = 260;
/// `W - COL1_W - COL3_W`.
pub const COL2_W: u32 = 320;
pub const COL3_W: u32 = 220;

/// A text width used for placement, capped far beyond the panel so that
/// coordinate arithmetic stays in range; below the cap it is the width.
pub open spec fn capped(w: u32) -> u32 {
    if w > 4096 { 4096 } else { w }
}

fn cap_width(w: u32) -> (r: u32)
    ensures
        r == capped(w),
{
    if w > 4096 { 4096 } else { w }
}

/// The weather column.
pub fn col1_rect() -> (r: Rect)
    ensures
        r == (Rect { x: 0, y: BODY_TOP, w: COL1_W, h: BODY_H }),
{
    Rect::new(0, BODY_TOP, COL1_W, BODY_H)
}

/// The agenda panel (middle column, top).
pub fn col2_top() -> (r: Rect)
    ensures
        r == (Rect { x: COL1_W as i32, y: BODY_TOP, w: COL2_W, h: ROW_H }),
{
    Rect::new(COL1_W as i32, BODY_TOP, COL2_W, ROW_H)
}

/// The budget panel (middle column, bottom).
pub fn col2_bot() -> (r: Rect)
    ensures
        r == (Rect { x: COL1_W as i32, y: (BODY_TOP + ROW_H as i32) as i32, w: COL2_W, h: ROW_H }),
{
    Rect::new(COL1_W as i32, BODY_TOP + ROW_H as i32, COL2_W, ROW_H)
}

/// The SYS panel (right column, top).
pub fn col3_top() -> (r: Rect)
    ensures
        r == (Rect { x: (COL1_W + COL2_W) as i32, y: BODY_TOP, w: COL3_W, h: ROW_H }),
{
    Rect::new((COL1_W + COL2_W) as i32, BODY_TOP, COL3_W, ROW_H)
}

/// The OPS panel (right column, bottom).
pub fn col3_bot() -> (r: Rect)
    ensures
        r == (Rect { x: (COL1_W + COL2_W) as i32, y: (BODY_TOP + ROW_H as i32) as i32, w: COL3_W, h: ROW_H }),
{
    Rect::new((COL1_W + COL2_W) as i32, BODY_TOP + ROW_H as i32, COL3_W, ROW_H)
}

/// A panel rectangle of the layout.
pub open spec fn panel_ok(p: Rect) -> bool {
    &&& 0 <= p.x
    &&& p.x + p.w <= W
    &&& 0 <= p.y
    &&& p.y + p.h <= H
    &&& p.w >= 24
}

/// Pixel `(x, y)` belongs to one of the 8 × 8 one-pixel corner brackets:
/// at `(4, 4)`, `(788, 4)`, `(4, 446)` and `(788, 446)`, each open towards
/// the middle of the page.
pub open spec fn registration_px(x: int, y: int) -> bool {
    let r = 788int;
    let b = 446int;
    ||| y == 4 && 4 <= x < 12
    ||| x == 4 && 4 <= y < 12
    ||| y == 4 && r <= x < r + 8
    ||| x == r + 7 && 4 <= y < 12
    ||| y == b + 7 && 4 <= x < 12
    ||| x == 4 && b <= y < b + 8
    ||| y == b + 7 && r <= x < r + 8
    ||| x == r + 7 && b <= y < b + 8
}

/// 8 × 8 one-pixel corner brackets at the four corners of the live area,
/// in black.
pub fn draw_registration_marks(c: &mut Canvas)
    requires
        layout_canvas(old(c)),
    ensures
        layout_canvas(final(c)),
        Canvas::painted(old(c), final(c), |x: int, y: int| registration_px(x, y), 0),
{
    let tl_x = 4i32;
    let tl_y = 4i32;
    let tr_x = W as i32 - 4 - 8;
    let bl_y = H as i32 - 22 - 4 - 8;
    let ghost c0 = *c;
    c.hline(tl_x, tl_y, 8, C::Black);
    let ghost c1 = *c;
    c.vline(tl_x, tl_y, 8, C::Black);
    let ghost c2 = *c;
    c.hline(tr_x, tl_y, 8, C::Black);
    let ghost c3 = *c;
    c.vline(tr_x + 7, tl_y, 8, C::Black);
    let ghost c4 = *c;
    c.hline(tl_x, bl_y + 7, 8, C::Black);
    let ghost c5 = *c;
    c.vline(tl_x, bl_y, 8, C::Black);
    let ghost c6 = *c;
    c.hline(tr_x, bl_y + 7, 8, C::Black);
    let ghost c7 = *c;
    c.vline(tr_x + 7, bl_y, 8, C::Black);
    assert forall|x: int, y: int| #![trigger c.px(x, y)] c.inside(x, y) implies c.px(x, y) == (if registration_px(x, y) {
        0u8
    } else {
        c0.px(x, y)
    }) by {
        assert(c7.inside(x, y) && c6.inside(x, y) && c5.inside(x, y) && c4.inside(x, y));
        assert(c3.inside(x, y) && c2.inside(x, y) && c1.inside(x, y) && c0.inside(x, y));
    }
}

/// The first content row below a panel's section header.
pub open spec fn content_top(panel: Rect) -> int {
    panel.y + 34
}

/// The panel stamp: the `en` tag white on a black box, the `seq` label
/// right-aligned, and a 2-pixel rule below; returns where content starts.
/// The ink of pixel `(x, y)` of a panel stamp, topmost first: the rule
/// under it, the marker in red (or the sequence label in black) at the
/// right, the white tag over its black box.
pub open spec fn section_header_ink(panel: Rect, en: Seq<char>, seq: Seq<char>, marker: Option<Seq<char>>, x: int, y: int) -> Option<u8> {
    let top = panel.y + 8;
    if in_box(panel.x + 12, top + 18, panel.w - 24, 2, x, y) {
        Some(0u8)
    } else if (marker matches Some(m) && text_px(FontId::SmallBold, m, (panel.x + panel.w - 12) as i32, (top + 11) as i32, Align::Right, x, y)) {
        Some(3u8)
    } else if marker is None && text_px(FontId::Small, seq, (panel.x + panel.w - 12) as i32, (top + 11) as i32, Align::Right, x, y) {
        Some(0u8)
    } else if text_px(FontId::SmallBold, en, (panel.x + 17) as i32, (top + 11) as i32, Align::Left, x, y) {
        Some(1u8)
    } else if in_box(panel.x + 12, top, capped(spec_text_width(FontId::SmallBold, en)) + 10, 14, x, y) {
        Some(0u8)
    } else {
        None
    }
}

pub fn draw_section_header(c: &mut Canvas, panel: Rect, en: &str, seq: &str, marker: &Option<String>) -> (y: i32)
    requires
        layout_canvas(old(c)),
        panel_ok(panel),
    ensures
        layout_canvas(final(c)),
        y == content_top(panel),
        overlaid(old(c), final(c), |x: int, y: int| section_header_ink(panel, en@, seq@, crate::alerts::opt_view(*marker), x, y)),
{
    let ghost c0 = *c;
    let pad_x = 12i32;
    let top = panel.y + 8;
    let tag_w = cap_width(text_width(FontId::SmallBold, en)) + 10;
    let tag_h = 14u32;
    c.fill_rect(Rect::new(panel.x + pad_x, top, tag_w, tag_h), C::Black);
    let ghost c1 = *c;
    draw_text(c, FontId::SmallBold, en, panel.x + pad_x + 5, top + 11, C::White, Align::Left);
    let ghost c2 = *c;
    match marker {
        Some(m) => draw_text(c, FontId::SmallBold, m.as_str(), panel.right() - pad_x, top + 11, C::Red, Align::Right),
        None => draw_text(c, FontId::Small, seq, panel.right() - pad_x, top + 11, C::Black, Align::Right),
    }
    let ghost c3 = *c;
    let line_y = top + tag_h as i32 + 4;
    c.fill_rect(Rect::new(panel.x + pad_x, line_y, panel.w - pad_x as u32 * 2, 2), C::Black);
    assert forall|x: int, y: int| #![trigger c.px(x, y)] c.inside(x, y) implies c.px(x, y) == match section_header_ink(panel, en@, seq@, crate::alerts::opt_view(*marker), x, y) {
        Some(v) => v,
        None => c0.px(x, y),
    } by {
        assert(c3.inside(x, y) && c2.inside(x, y) && c1.inside(x, y));
    }
    line_y + 2 + 6
}

/// `"<dow> · <date>"`, the header's date line.
pub fn header_date_line(dow: &str, date: &str) -> (r: String)
    ensures
        r@ == dow@ + " · "@ + date@,
{
    let mut v: Vec<char> = Vec::new();
    push_str(&mut v, dow);
    push_str(&mut v, " · ");
    push_str(&mut v, date);
    string_from_chars(&v)
}

/// The header band: the slanted unit tab, the hatched stripe carrying the
/// outlined motto, and the date line.
/// Width of the header's slanted unit tab.
pub open spec fn header_tab_w() -> int {
    12 + capped(spec_text_width(FontId::Small, "UNIT"@)) + 8 + capped(spec_text_width(FontId::HugeBold, "TRMNL-01"@)) + 12 + 14
}

/// The header's hatched stripe, between the tab and the 200-pixel right
/// block.
pub open spec fn header_stripe() -> Rect {
    let w = 800 - (header_tab_w() + 200);
    Rect { x: header_tab_w() as i32, y: 0, w: (if w > 0 { w } else { 0 }) as u32, h: 41 }
}

/// The stripe's band pattern: red, black, red, white.
pub open spec fn header_stops() -> Seq<(u32, C)> {
    seq![(6u32, C::Red), (2u32, C::Black), (6u32, C::Red), (6u32, C::White)]
}

/// The ink of header pixel `(x, y)`, topmost first: the date line, the
/// motto in white over a black halo, the hatched stripe, the white unit
/// name and label, the black tab and the 3-pixel rule under the band.
pub open spec fn header_ink(d: DashData, x: int, y: int) -> Option<u8> {
    let st = header_stripe();
    let mx = (st.x + st.w / 2) as i32;
    if text_px(FontId::Small, d.date_dow@ + " · "@ + d.date@, 788, 18, Align::Right, x, y) {
        Some(0u8)
    } else if text_px(FontId::LgBold, d.motto@, mx, 28, Align::Center, x, y) {
        Some(1u8)
    } else if halo_px(FontId::LgBold, d.motto@, mx, 28, Align::Center, 9, x, y) {
        Some(0u8)
    } else if in_rect(st, x, y) {
        Some(hatch_color(st, header_stops(), x, y))
    } else if text_px(FontId::HugeBold, "TRMNL-01"@, (12 + capped(spec_text_width(FontId::Small, "UNIT"@)) + 8) as i32, 32, Align::Left, x, y) {
        Some(1u8)
    } else if text_px(FontId::Small, "UNIT"@, 12, 16, Align::Left, x, y) {
        Some(1u8)
    } else if parallelogram_region(0, 0, header_tab_w(), 41, 14, x, y) {
        Some(0u8)
    } else if in_box(0, 41, 800, 3, x, y) {
        Some(0u8)
    } else {
        None
    }
}

pub fn draw_header(c: &mut Canvas, data: &DashData)
    requires
        layout_canvas(old(c)),
    ensures
        layout_canvas(final(c)),
        overlaid(old(c), final(c), |x: int, y: int| header_ink(*data, x, y)),
{
    let ghost c0 = *c;
    c.fill_rect(Rect::new(0, HDR_H as i32 - 3, W, 3), C::Black);
    let ghost c1 = *c;
    let unit_w = cap_width(text_width(FontId::Small, "UNIT"));
    let name_w = cap_width(text_width(FontId::HugeBold, "TRMNL-01"));
    let left_pad = 12i32;
    let inner_gap = 8i32;
    let slant = 14u32;
    let left_w = (left_pad as u32) + unit_w + (inner_gap as u32) + name_w + (left_pad as u32) + slant;
    c.fill_left_parallelogram(0, 0, left_w, HDR_H - 3, slant, C::Black);
    let ghost c2 = *c;
    draw_text(c, FontId::Small, "UNIT", left_pad, 16, C::White, Align::Left);
    let ghost c3 = *c;
    draw_text(c, FontId::HugeBold, "TRMNL-01", left_pad + unit_w as i32 + inner_gap, 32, C::White, Align::Left);
    let ghost c4 = *c;
    let right_block_w = 200u32;
    let center = Rect::new(left_w as i32, 0, W.saturating_sub(left_w + right_block_w), HDR_H - 3);
    let stops: Vec<(u32, C)> = vec![(6, C::Red), (2, C::Black), (6, C::Red), (6, C::White)];
    assert(crate::render::stop_sum(stops@, 4) == 20) by {
        reveal_with_fuel(crate::render::stop_sum, 5);
    }
    assert(stops@ == header_stops());
    assert(center == header_stripe());
    c.hatch_135(center, stops.as_slice());
    let ghost c5 = *c;
    draw_outlined_text(c, FontId::LgBold, data.motto.as_str(), center.x + (center.w / 2) as i32, center.y + 28, C::White, C::Black, Align::Center);
    let ghost c6 = *c;
    let line = header_date_line(data.date_dow.as_str(), data.date.as_str());
    draw_text(c, FontId::Small, line.as_str(), W as i32 - 12, 18, C::Black, Align::Right);
    assert forall|x: int, y: int| #![trigger c.px(x, y)] c.inside(x, y) implies c.px(x, y) == match header_ink(*data, x, y) {
        Some(v) => v,
        None => c0.px(x, y),
    } by {
        assert(c6.inside(x, y) && c5.inside(x, y) && c4.inside(x, y) && c3.inside(x, y) && c2.inside(x, y) && c1.inside(x, y));
    }
}

/// Signal-strength bars (0–4) for a Wi-Fi RSSI in dBm.
pub open spec fn spec_signal_bars(rssi: i32) -> i32 {
    if rssi > -55 {
        4
    } else if rssi > -70 {
        3
    } else if rssi > -80 {
        2
    } else if rssi > -90 {
        1
    } else {
        0
    }
}

pub fn signal_bars(rssi: i32) -> (r: i32)
    ensures
        r == spec_signal_bars(rssi),
{
    if rssi > -55 {
        4
    } else if rssi > -70 {
        3
    } else if rssi > -80 {
        2
    } else if rssi > -90 {
        1
    } else {
        0
    }
}

/// `"BAT <battery>%   SIG"`.
pub fn battery_line(battery: u8) -> (r: String)
    ensures
        r@ == "BAT "@ + dec(battery as nat) + "%   SIG"@,
{
    let mut v: Vec<char> = Vec::new();
    push_str(&mut v, "BAT ");
    push_dec(&mut v, battery as u64);
    push_str(&mut v, "%   SIG");
    string_from_chars(&v)
}

/// The battery / signal pair on the header's second row: four bars
/// climbing left to right, the first `signal_bars(rssi)` filled and the
/// rest outlined, with the battery label to their left.
/// Bar `i` of the signal gauge, solid when `i < bars` and outlined
/// otherwise: 3 pixels wide on a 4-pixel pitch from `x = 773`, rising to
/// the baseline at `y = 33`, `8 (i + 1) / 4 + 2` pixels tall.
pub open spec fn signal_bar_px(bars: int, i: int, x: int, y: int) -> bool {
    let h = 8 * (i + 1) / 4 + 2;
    let r = Rect { x: (773 + i * 4) as i32, y: (33 - h) as i32, w: 3, h: h as u32 };
    if i < bars { in_rect(r, x, y) } else { stroke_region(r, 1, x, y) }
}

/// Pixels of the header's right meta block with its first `n` bars: the
/// signal gauge and, left of it, `BAT <n>%   SIG` right-aligned, all black.
pub open spec fn header_meta_px(battery: u8, rssi: i32, n: int, x: int, y: int) -> bool {
    let bars = spec_signal_bars(rssi) as int;
    ||| (n > 0 && signal_bar_px(bars, 0, x, y))
    ||| (n > 1 && signal_bar_px(bars, 1, x, y))
    ||| (n > 2 && signal_bar_px(bars, 2, x, y))
    ||| (n > 3 && signal_bar_px(bars, 3, x, y))
    ||| (n > 4 && text_px(FontId::Small, "BAT "@ + dec(battery as nat) + "%   SIG"@, 767, 33, Align::Right, x, y))
}

pub fn draw_header_meta(c: &mut Canvas, battery: u8, rssi: i32)
    requires
        layout_canvas(old(c)),
    ensures
        layout_canvas(final(c)),
        Canvas::painted(old(c), final(c), |x: int, y: int| header_meta_px(battery, rssi, 5, x, y), 0),
{
    let ghost c0 = *c;
    let right_x = W as i32 - 12;
    let baseline = 33i32;
    let bars = signal_bars(rssi);
    let bar_w = 3u32;
    let bar_gap = 1i32;
    let bar_max_h = 8u32;
    let bar_block_w = (bar_w as i32 + bar_gap) * 4 - bar_gap;
    let bar_x0 = right_x - bar_block_w;
    let mut i: i32 = 0;
    while i < 4
        invariant
            0 <= i <= 4,
            layout_canvas(c),
            bar_x0 == W as i32 - 12 - 15,
            bar_w == 3,
            bar_gap == 1,
            bar_max_h == 8,
            baseline == 33,
            bars == spec_signal_bars(rssi),
            c.w == c0.w,
            c.h == c0.h,
            Canvas::painted(&c0, c, |x: int, y: int| header_meta_px(battery, rssi, i as int, x, y), 0),
        decreases 4 - i,
    {
        let h = bar_max_h * (i as u32 + 1) / 4 + 2;
        // bars are `bar_w` wide with `bar_gap` between them: a 4-pixel pitch
        let bx = bar_x0 + i * 4;
        let by = baseline - h as i32;
        let r = Rect::new(bx, by, bar_w, h);
        let ghost prev = *c;
        if i < bars {
            c.fill_rect(r, C::Black);
        } else {
            c.stroke_rect(r, 1, C::Black);
        }
        assert(h as int == 8 * (i + 1) / 4 + 2);
        assert forall|x: int, y: int| #![trigger c.px(x, y)] c.inside(x, y) implies c.px(x, y) == (if header_meta_px(battery, rssi, i + 1, x, y) {
            0u8
        } else {
            c0.px(x, y)
        }) by {
            assert(prev.inside(x, y));
        }
        i += 1;
    }
    let line = battery_line(battery);
    let ghost prev = *c;
    draw_text(c, FontId::Small, line.as_str(), bar_x0 - 6, baseline, C::Black, Align::Right);
    assert forall|x: int, y: int| #![trigger c.px(x, y)] c.inside(x, y) implies c.px(x, y) == (if header_meta_px(battery, rssi, 5, x, y) {
        0u8
    } else {
        c0.px(x, y)
    }) by {
        assert(prev.inside(x, y));
    }
}

/// `"SYNC <last> → <next>"`.
pub fn sync_line(last: &str, next: &str) -> (r: String)
    ensures
        r@ == "SYNC "@ + last@ + " → "@ + next@,
{
    let mut v: Vec<char> = Vec::new();
    push_str(&mut v, "SYNC ");
    push_str(&mut v, last);
    push_str(&mut v, " → ");
    push_str(&mut v, next);
    string_from_chars(&v)
}

/// The panel tags of a degraded list, separated by single spaces.
pub open spec fn join_tags(d: Seq<(&'static str, String)>) -> Seq<char>
    decreases d.len(),
{
    if d.len() == 0 {
        seq![]
    } else if d.len() == 1 {
        d[0].0@
    } else {
        join_tags(d.drop_last()) + " "@ + d.last().0@
    }
}

/// The footer's state word: `● ONLINE` with nothing degraded, otherwise
/// `● DEGRADED:` followed by the affected panels.
pub open spec fn spec_footer_state(d: Seq<(&'static str, String)>) -> Seq<char> {
    if d.len() == 0 {
        "● ONLINE"@
    } else {
        "● DEGRADED: "@ + join_tags(d)
    }
}

/// The footer's state word for the `(panel tag, marker)` list of degraded
/// panels.
pub fn footer_state(d: &Vec<(&'static str, String)>) -> (r: String)
    ensures
        r@ == spec_footer_state(d@),
{
    if d.len() == 0 {
        proof {
            reveal_strlit("● ONLINE");
        }
        return string_of("● ONLINE");
    }
    let mut v: Vec<char> = Vec::new();
    push_str(&mut v, "● DEGRADED: ");
    let ghost head = v@;
    let mut i: usize = 0;
    while i < d.len()
        invariant
            i <= d@.len(),
            d@.len() > 0,
            head == "● DEGRADED: "@,
            v@ == head + join_tags(d@.take(i as int)),
        decreases d@.len() - i,
    {
        assert(d@.take(i as int + 1).drop_last() == d@.take(i as int));
        if i > 0 {
            push_str(&mut v, " ");
        }
        push_str(&mut v, d[i].0);
        proof {
            if i == 0 {
                assert(join_tags(d@.take(1)) == d@[0].0@);
            }
        }
        i += 1;
    }
    assert(d@.take(d@.len() as int) == d@);
    string_from_chars(&v)
}

/// The footer reads `● ONLINE` exactly when no panel's sources are
/// failing; `d` is the list of degraded panels that `Status::degraded`
/// gives for the same status and instant.
pub proof fn law_footer_online_iff_healthy(s: Status, now: int, d: Seq<(&'static str, String)>)
    requires
        d.len() == collect_markers(panels_of(s), now).len(),
    ensures
        spec_footer_state(d) == "● ONLINE"@ <==> forall|i: int|
            0 <= i < 5 ==> !is_degraded((#[trigger] panels_of(s)[i]).1),
{
    law_degraded_empty_iff_healthy(panels_of(s), now);
    reveal_strlit("● ONLINE");
    reveal_strlit("● DEGRADED: ");
    if d.len() > 0 {
        let full = "● DEGRADED: "@ + join_tags(d);
        assert(full[2] == 'D');
        assert("● ONLINE"@[2] == 'O');
    }
}

/// Panel tags separated by single spaces.
pub open spec fn join_seq(tags: Seq<Seq<char>>) -> Seq<char>
    decreases tags.len(),
{
    if tags.len() == 0 {
        seq![]
    } else if tags.len() == 1 {
        tags[0]
    } else {
        join_seq(tags.drop_last()) + " "@ + tags.last()
    }
}

/// The tags of the panels degraded at `now`, in footer order.
pub open spec fn degraded_tags(s: Status, now: int) -> Seq<Seq<char>> {
    collect_markers(panels_of(s), now).map_values(|p: (Seq<char>, Seq<char>)| p.0)
}

/// The footer's state word for the degraded panel tags `tags`.
pub open spec fn state_word(tags: Seq<Seq<char>>) -> Seq<char> {
    if tags.len() == 0 {
        "● ONLINE"@
    } else {
        "● DEGRADED: "@ + join_seq(tags)
    }
}

proof fn lemma_join_tags(d: Seq<(&'static str, String)>, tags: Seq<Seq<char>>)
    requires
        d.len() == tags.len(),
        forall|i: int| 0 <= i < d.len() ==> (#[trigger] d[i]).0@ == tags[i],
    ensures
        join_tags(d) == join_seq(tags),
        spec_footer_state(d) == state_word(tags),
    decreases d.len(),
{
    if d.len() > 1 {
        lemma_join_tags(d.drop_last(), tags.drop_last());
    }
}

/// Where the footer's state word starts, and how wide it may run.
pub open spec fn footer_room() -> int {
    let w = 800 - 10 - 8 - 230 - capped(spec_text_width(FontId::SmallBold, "NEO / TRMNL"@));
    if w > 0 { w } else { 0 }
}

/// The ink of footer pixel `(x, y)`, topmost first: the device label and
/// the sync line in white, the state word in red over the black band;
/// `None` off the band and its text.
pub open spec fn footer_ink(d: DashData, now: int, x: int, y: int) -> Option<u8> {
    if text_px(FontId::SmallBold, "NEO / TRMNL"@, 790, 473, Align::Right, x, y) {
        Some(1u8)
    } else if text_px(FontId::SmallBold, spec_clip_to_width(FontId::SmallBold, state_word(degraded_tags(d.status, now)), footer_room() as u32), 230, 473, Align::Left, x, y) {
        Some(3u8)
    } else if text_px(FontId::SmallBold, "SYNC "@ + d.last_sync@ + " → "@ + d.next_sync@, 10, 473, Align::Left, x, y) {
        Some(1u8)
    } else if in_box(0, 458, 800, 22, x, y) {
        Some(0u8)
    } else {
        None
    }
}

/// `new` is `old` with the pixels `ink` names set to their ink.
pub open spec fn overlaid(old: &Canvas, new: &Canvas, ink: spec_fn(int, int) -> Option<u8>) -> bool {
    &&& new.wf()
    &&& new.w == old.w
    &&& new.h == old.h
    &&& forall|x: int, y: int|
        #![trigger new.px(x, y)]
        new.inside(x, y) ==> new.px(x, y) == match ink(x, y) {
            Some(v) => v,
            None => old.px(x, y),
        }
}

/// The footer band: sync times, the state word (`● ONLINE`, or
/// `● DEGRADED:` and the panels whose sources are failing at Unix instant
/// `unix`) and the device label, on black.
pub fn draw_footer(c: &mut Canvas, data: &DashData, unix: i64)
    requires
        layout_canvas(old(c)),
    ensures
        layout_canvas(final(c)),
        overlaid(old(c), final(c), |x: int, y: int| footer_ink(*data, unix as int, x, y)),
{
    let ghost c0 = *c;
    let y0 = (H - FTR_H) as i32;
    c.fill_rect(Rect::new(0, y0, W, FTR_H), C::Black);
    let ghost c1 = *c;
    let baseline = y0 + 15;
    let line = sync_line(data.last_sync.as_str(), data.next_sync.as_str());
    draw_text(c, FontId::SmallBold, line.as_str(), 10, baseline, C::White, Align::Left);
    let ghost c2 = *c;
    let label_w = cap_width(text_width(FontId::SmallBold, "NEO / TRMNL"));
    let state_x = 10i32 + 220;
    let room = (W - 10 - 8 - state_x as u32).saturating_sub(label_w);
    let degraded = data.status.degraded(unix);
    let state = footer_state(&degraded);
    proof {
        let tags = degraded_tags(data.status, unix as int);
        assert forall|i: int| 0 <= i < degraded@.len() implies (#[trigger] degraded@[i]).0@ == tags[i] by {}
        lemma_join_tags(degraded@, tags);
        assert(room as int == footer_room());
    }
    let shown = clip_to_width(FontId::SmallBold, state.as_str(), room);
    draw_text(c, FontId::SmallBold, shown.as_str(), state_x, baseline, C::Red, Align::Left);
    let ghost c3 = *c;
    draw_text(c, FontId::SmallBold, "NEO / TRMNL", W as i32 - 10, baseline, C::White, Align::Right);
    assert forall|x: int, y: int| #![trigger c.px(x, y)] c.inside(x, y) implies c.px(x, y) == match footer_ink(*data, unix as int, x, y) {
        Some(v) => v,
        None => c0.px(x, y),
    } by {
        assert(c3.inside(x, y) && c2.inside(x, y) && c1.inside(x, y));
    }
}


// ── Weather glyphs ─────────────────────────────────────────────────────────
//
// Drawn from primitives; each is keyed off a free-form condition word, and
// unknown words fall back to the cloud.

/// Which glyph a condition word gets.
#[derive(Copy, Clone, Debug, PartialEq, Eq, Structural)]
pub enum Icon {
    Sun,
    Rain,
    Storm,
    Snow,
    Fog,
    Cloud,
}

pub open spec fn spec_icon_kind(u: Seq<char>) -> Icon {
    if u == "SUN"@ || u == "CLEAR"@ || u == "SUNNY"@ || u == "FAIR"@ {
        Icon::Sun
    } else if u == "RAIN"@ || u == "RAINY"@ || u == "SHOWERS"@ || u == "DRIZZLE"@ {
        Icon::Rain
    } else if u == "STORM"@ || u == "THUNDER"@ || u == "THUNDERSTORM"@ {
        Icon::Storm
    } else if u == "SNOW"@ || u == "SNOWY"@ || u == "SLEET"@ {
        Icon::Snow
    } else if u == "FOG"@ || u == "MIST"@ || u == "HAZE"@ || u == "SMOKE"@ {
        Icon::Fog
    } else {
        Icon::Cloud
    }
}

/// The condition words of each glyph, upper case.
pub open spec fn sun_word(u: Seq<char>) -> bool {
    u == "SUN"@ || u == "CLEAR"@ || u == "SUNNY"@ || u == "FAIR"@
}

pub open spec fn rain_word(u: Seq<char>) -> bool {
    u == "RAIN"@ || u == "RAINY"@ || u == "SHOWERS"@ || u == "DRIZZLE"@
}

pub open spec fn storm_word(u: Seq<char>) -> bool {
    u == "STORM"@ || u == "THUNDER"@ || u == "THUNDERSTORM"@
}

pub open spec fn snow_word(u: Seq<char>) -> bool {
    u == "SNOW"@ || u == "SNOWY"@ || u == "SLEET"@
}

pub open spec fn fog_word(u: Seq<char>) -> bool {
    u == "FOG"@ || u == "MIST"@ || u == "HAZE"@ || u == "SMOKE"@
}

/// Each glyph is drawn for exactly its own condition words: sun for SUN,
/// CLEAR, SUNNY, FAIR; rain for RAIN, RAINY, SHOWERS, DRIZZLE; storm for
/// STORM, THUNDER, THUNDERSTORM; snow for SNOW, SNOWY, SLEET; fog for FOG,
/// MIST, HAZE, SMOKE; the cloud for every other word.
pub proof fn law_icon_table(u: Seq<char>)
    ensures
        (spec_icon_kind(u) == Icon::Sun) <==> sun_word(u),
        (spec_icon_kind(u) == Icon::Rain) <==> rain_word(u),
        (spec_icon_kind(u) == Icon::Storm) <==> storm_word(u),
        (spec_icon_kind(u) == Icon::Snow) <==> snow_word(u),
        (spec_icon_kind(u) == Icon::Fog) <==> fog_word(u),
        (spec_icon_kind(u) == Icon::Cloud) <==> !(sun_word(u) || rain_word(u) || storm_word(u) || snow_word(u) || fog_word(u)),
{
    reveal_strlit("SUN");
    reveal_strlit("CLEAR");
    reveal_strlit("SUNNY");
    reveal_strlit("FAIR");
    reveal_strlit("RAIN");
    reveal_strlit("RAINY");
    reveal_strlit("SHOWERS");
    reveal_strlit("DRIZZLE");
    reveal_strlit("STORM");
    reveal_strlit("THUNDER");
    reveal_strlit("THUNDERSTORM");
    reveal_strlit("SNOW");
    reveal_strlit("SNOWY");
    reveal_strlit("SLEET");
    reveal_strlit("FOG");
    reveal_strlit("MIST");
    reveal_strlit("HAZE");
    reveal_strlit("SMOKE");
    if sun_word(u) {
        assert(u[0] == 'S' || u[0] == 'C' || u[0] == 'F');
        assert(!rain_word(u) && !storm_word(u) && !snow_word(u) && !fog_word(u)) by {
            if u.len() == 4 || u.len() == 5 {
                assert(u[1] == 'L' || u[1] == 'U' || u[1] == 'A');
            }
        }
    } else if rain_word(u) {
        assert(!storm_word(u) && !snow_word(u) && !fog_word(u)) by {
            assert(u[0] == 'R' || u[0] == 'S' || u[0] == 'D');
            assert(u.len() != 7 || u[0] != 'S' || u[1] == 'H');
        }
    } else if storm_word(u) {
        assert(!snow_word(u) && !fog_word(u)) by {
            assert(u[0] == 'S' || u[0] == 'T');
            assert(u.len() != 5 || u[1] == 'T');
        }
    } else if snow_word(u) {
        assert(!fog_word(u)) by {
            assert(u[0] == 'S');
            assert(u.len() != 5 || u[1] == 'N' || u[1] == 'L');
        }
    }
}

/// The glyph for a condition, matched case-insensitively (on the
/// uppercased word).
pub fn icon_for(condition: &str) -> (r: Icon)
    ensures
        r == spec_icon_kind(spec_to_uppercase(condition@)),
{
    let up = to_uppercase(condition);
    let u = up.as_str();
    if str_is(u, "SUN") || str_is(u, "CLEAR") || str_is(u, "SUNNY") || str_is(u, "FAIR") {
        Icon::Sun
    } else if str_is(u, "RAIN") || str_is(u, "RAINY") || str_is(u, "SHOWERS") || str_is(u, "DRIZZLE") {
        Icon::Rain
    } else if str_is(u, "STORM") || str_is(u, "THUNDER") || str_is(u, "THUNDERSTORM") {
        Icon::Storm
    } else if str_is(u, "SNOW") || str_is(u, "SNOWY") || str_is(u, "SLEET") {
        Icon::Snow
    } else if str_is(u, "FOG") || str_is(u, "MIST") || str_is(u, "HAZE") || str_is(u, "SMOKE") {
        Icon::Fog
    } else {
        Icon::Cloud
    }
}

/// The canvas keeps its size, stays well-formed, and holds only inks if it
/// did before.
pub open spec fn same_canvas(old: &Canvas, new: &Canvas) -> bool {
    new.wf() && new.w == old.w && new.h == old.h && (old.inks_only() ==> new.inks_only())
}

/// A point and extent small enough for the glyph arithmetic.
pub open spec fn glyph_ok(cx: i32, cy: i32, size: i32) -> bool {
    &&& -100_000 <= cx <= 100_000
    &&& -100_000 <= cy <= 100_000
    &&& 0 <= size <= 1000
}

/// The disc of radius `r` around `(cx, cy)`.
pub open spec fn in_disc(cx: int, cy: int, r: int, x: int, y: int) -> bool {
    (x - cx) * (x - cx) + (y - cy) * (y - cy) <= r * r
}

proof fn lemma_sq_bound(a: int)
    requires
        -32_767 <= a <= 32_767,
    ensures
        0 <= a * a <= 1_073_676_289,
{
    assert(0 <= a * a <= 1_073_676_289) by (nonlinear_arith)
        requires
            -32_767 <= a <= 32_767,
    ;
}

/// Points more than `r` away along either axis are off the disc.
proof fn lemma_off_disc(cx: int, cy: int, r: int, x: int, y: int)
    requires
        r >= 0,
        x - cx > r || cx - x > r || y - cy > r || cy - y > r,
    ensures
        !in_disc(cx, cy, r, x, y),
{
    assert((x - cx) * (x - cx) >= 0 && (y - cy) * (y - cy) >= 0) by (nonlinear_arith);
    if x - cx > r || cx - x > r {
        assert((x - cx) * (x - cx) > r * r) by (nonlinear_arith)
            requires
                x - cx > r || cx - x > r,
                r >= 0,
        ;
    } else {
        assert((y - cy) * (y - cy) > r * r) by (nonlinear_arith)
            requires
                y - cy > r || cy - y > r,
                r >= 0,
        ;
    }
}

/// Fills the disc of radius `r` around `(cx, cy)`. The radius is at most
/// 32,767, so that `dx² + dy²` fits in `i32`, and the disc's extent fits
/// in `i32` too.
pub fn fill_disc(c: &mut Canvas, cx: i32, cy: i32, r: i32, color: C)
    requires
        old(c).wf(),
        0 <= r <= 32_767,
        i32::MIN <= cx - r,
        cx + r <= i32::MAX,
        i32::MIN <= cy - r,
        cy + r <= i32::MAX,
    ensures
        Canvas::painted(old(c), final(c), |x: int, y: int| in_disc(cx as int, cy as int, r as int, x, y), color_index(color)),
{
    let ghost start = *c;
    proof {
        lemma_sq_bound(r as int);
        assert forall|x: int, y: int| y < cy - r implies !in_disc(cx as int, cy as int, r as int, x, y) by {
            lemma_off_disc(cx as int, cy as int, r as int, x, y);
        }
    }
    let r2 = r * r;
    let mut dy: i32 = -r;
    while dy <= r
        invariant
            -r <= dy <= r + 1,
            0 <= r <= 32_767,
            r2 == r * r,
            i32::MIN <= cx - r,
            cx + r <= i32::MAX,
            i32::MIN <= cy - r,
            cy + r <= i32::MAX,
            start.wf(),
            Canvas::painted(&start, c, |x: int, y: int| y < cy + dy && in_disc(cx as int, cy as int, r as int, x, y), color_index(color)),
        decreases r + 1 - dy,
    {
        proof {
            assert forall|x: int, y: int| y == cy + dy && x < cx - r implies !in_disc(cx as int, cy as int, r as int, x, y) by {
                lemma_off_disc(cx as int, cy as int, r as int, x, y);
            }
        }
        let mut dx: i32 = -r;
        while dx <= r
            invariant
                -r <= dy <= r,
                -r <= dx <= r + 1,
                0 <= r <= 32_767,
                r2 == r * r,
                i32::MIN <= cx - r,
                cx + r <= i32::MAX,
                i32::MIN <= cy - r,
                cy + r <= i32::MAX,
                start.wf(),
                Canvas::painted(&start, c, |x: int, y: int| (y < cy + dy || (y == cy + dy && x < cx + dx)) && in_disc(cx as int, cy as int, r as int, x, y), color_index(color)),
            decreases r + 1 - dx,
        {
            proof {
                lemma_sq_bound(dx as int);
                lemma_sq_bound(dy as int);
            }
            if dx * dx + dy * dy <= r2 {
                c.put(cx + dx, cy + dy, color);
            }
            dx += 1;
        }
        proof {
            assert forall|x: int, y: int| y == cy + dy && x >= cx + dx implies !in_disc(cx as int, cy as int, r as int, x, y) by {
                lemma_off_disc(cx as int, cy as int, r as int, x, y);
            }
        }
        dy += 1;
    }
    proof {
        assert forall|x: int, y: int| y >= cy + dy implies !in_disc(cx as int, cy as int, r as int, x, y) by {
            lemma_off_disc(cx as int, cy as int, r as int, x, y);
        }
    }
}

/// `x0 <= x < x0 + w` and `y0 <= y < y0 + h`.
pub open spec fn in_box(x0: int, y0: int, w: int, h: int, x: int, y: int) -> bool {
    x0 <= x < x0 + w && y0 <= y < y0 + h
}

/// Pixels of the cloud glyph of `size` centred on `(cx, cy)`: three discs
/// and a flat-bottomed bar.
pub open spec fn cloud_px(cx: int, cy: int, size: int, x: int, y: int) -> bool {
    let r1 = if size / 4 > 3 { size / 4 } else { 3 };
    let r2 = if size / 3 > 4 { size / 3 } else { 4 };
    let bw = if size > 4 { size - 4 } else { 0 };
    let bh = if size / 6 > 2 { size / 6 } else { 2 };
    ||| in_disc(cx - size / 3, cy + size / 12, r1, x, y)
    ||| in_disc(cx, cy - size / 12, r2, x, y)
    ||| in_disc(cx + size / 3, cy + size / 12, r1, x, y)
    ||| in_box(cx - bw / 2, cy + size / 4 - bh, bw, bh, x, y)
}

/// Cloud silhouette: three overlapping discs over a flat-bottomed bar.
fn draw_cloud(c: &mut Canvas, cx: i32, cy: i32, size: i32, color: C)
    requires
        old(c).wf(),
        -200_000 <= cx <= 200_000,
        -200_000 <= cy <= 200_000,
        0 <= size <= 1000,
    ensures
        same_canvas(old(c), final(c)),
        Canvas::painted(old(c), final(c), |x: int, y: int| cloud_px(cx as int, cy as int, size as int, x, y), color_index(color)),
{
    let ghost c0 = *c;
    let r1 = if size / 4 > 3 { size / 4 } else { 3 };
    let r2 = if size / 3 > 4 { size / 3 } else { 4 };
    let r3 = if size / 4 > 3 { size / 4 } else { 3 };
    let bottom = cy + size / 4;
    fill_disc(c, cx - size / 3, cy + size / 12, r1, color);
    let ghost c1 = *c;
    fill_disc(c, cx, cy - size / 12, r2, color);
    let ghost c2 = *c;
    fill_disc(c, cx + size / 3, cy + size / 12, r3, color);
    let ghost c3 = *c;
    let bottom_w = (size as u32).saturating_sub(4);
    let bottom_h = (if size / 6 > 2 { size / 6 } else { 2 }) as u32;
    c.fill_rect(Rect::new(cx - bottom_w as i32 / 2, bottom - bottom_h as i32, bottom_w, bottom_h), color);
    assert forall|x: int, y: int| #![trigger c.px(x, y)] c.inside(x, y) implies c.px(x, y) == (if cloud_px(cx as int, cy as int, size as int, x, y) {
        color_index(color)
    } else {
        c0.px(x, y)
    }) by {
        assert(c3.inside(x, y) && c2.inside(x, y) && c1.inside(x, y));
    }
}

/// Direction of ray `k` of the sun glyph.
pub open spec fn sun_dir(k: int) -> (int, int) {
    if k == 0 { (1, 0) } else if k == 1 { (-1, 0) } else if k == 2 { (0, 1) } else if k == 3 { (0, -1) }
    else if k == 4 { (1, 1) } else if k == 5 { (1, -1) } else if k == 6 { (-1, 1) } else { (-1, -1) }
}

/// `p` moved `n` pixels in direction `d` (-1, 0 or 1).
pub open spec fn step_along(p: int, d: int, n: int) -> int {
    if d == 1 { p + n } else if d == -1 { p - n } else { p }
}

/// Radius of the sun's disc.
pub open spec fn sun_r(size: int) -> int {
    if size / 4 > 3 { size / 4 } else { 3 }
}

/// Where ray `k` starts along its direction, and how many steps it takes.
pub open spec fn sun_ray_from(size: int, k: int) -> int {
    let inner = sun_r(size) + (if size / 12 > 2 { size / 12 } else { 2 });
    let d = sun_dir(k);
    let scale = if d.0 != 0 && d.1 != 0 { 7int } else { 10int };
    inner * scale / 10
}

pub open spec fn sun_ray_steps(size: int, k: int) -> int {
    let outer = sun_r(size) + (if size / 4 > 3 { size / 4 } else { 3 });
    let d = sun_dir(k);
    let scale = if d.0 != 0 && d.1 != 0 { 7int } else { 10int };
    let o = outer * scale / 10;
    let i = sun_ray_from(size, k);
    if o - i > 1 { o - i } else { 1 }
}

/// Pixel `(x, y)` is on dot `st` of ray `k`.
pub open spec fn sun_dot(cx: int, cy: int, size: int, k: int, st: int, x: int, y: int) -> bool {
    let d = sun_dir(k);
    let i = sun_ray_from(size, k);
    in_disc(step_along(step_along(cx, d.0, i), d.0, st), step_along(step_along(cy, d.1, i), d.1, st), 1, x, y)
}

/// Pixel `(x, y)` is on one of the first `n` dots of ray `k`.
pub open spec fn sun_ray(cx: int, cy: int, size: int, k: int, n: int, x: int, y: int) -> bool {
    exists|st: int| 0 <= st < n && #[trigger] sun_dot(cx, cy, size, k, st, x, y)
}

/// Pixels of the sun glyph with its first `n` rays drawn: the disc, and
/// each ray a run of 1-pixel discs.
pub open spec fn sun_px(cx: int, cy: int, size: int, n: int, x: int, y: int) -> bool {
    in_disc(cx, cy, sun_r(size), x, y) || exists|k: int| 0 <= k < n && #[trigger] sun_ray(cx, cy, size, k, sun_ray_steps(size, k) + 1, x, y)
}

/// Sun: a disc and eight short rays, each ray a run of 1-pixel discs from
/// `inner` to `outer` along its direction (diagonals scaled by 7/10).
/// Positions along a ray advance one pixel per step along each axis the
/// ray moves on.
fn draw_sun(c: &mut Canvas, cx: i32, cy: i32, size: i32, color: C)
    requires
        old(c).wf(),
        glyph_ok(cx, cy, size),
    ensures
        same_canvas(old(c), final(c)),
        Canvas::painted(old(c), final(c), |x: int, y: int| sun_px(cx as int, cy as int, size as int, 8, x, y), color_index(color)),
{
    let ghost c0 = *c;
    let r = if size / 4 > 3 { size / 4 } else { 3 };
    fill_disc(c, cx, cy, r, color);
    let inner = r + (if size / 12 > 2 { size / 12 } else { 2 });
    let outer = r + (if size / 4 > 3 { size / 4 } else { 3 });
    let dirs: [(i32, i32); 8] = [(1, 0), (-1, 0), (0, 1), (0, -1), (1, 1), (1, -1), (-1, 1), (-1, -1)];
    let mut k: usize = 0;
    while k < 8
        invariant
            k <= 8,
            glyph_ok(cx, cy, size),
            0 <= r <= 250,
            r <= inner <= r + 83,
            r <= outer <= r + 250,
            c.wf(),
            c.w == old(c).w,
            c.h == old(c).h,
            old(c).inks_only() ==> c.inks_only(),
            forall|j: int| 0 <= j < 8 ==> -1 <= (#[trigger] dirs@[j]).0 <= 1 && -1 <= dirs@[j].1 <= 1,
            forall|j: int| 0 <= j < 8 ==> (#[trigger] dirs@[j]).0 == sun_dir(j).0 && dirs@[j].1 == sun_dir(j).1,
            r == sun_r(size as int),
            inner == sun_r(size as int) + (if size / 12 > 2 { size / 12 } else { 2 }),
            outer == sun_r(size as int) + (if size / 4 > 3 { size / 4 } else { 3 }),
            c0 == *old(c),
            Canvas::painted(&c0, c, |x: int, y: int| sun_px(cx as int, cy as int, size as int, k as int, x, y), color_index(color)),
        decreases 8 - k,
    {
        let (dx, dy) = dirs[k];
        let scale_num: i32 = if (dx == 1 || dx == -1) && (dy == 1 || dy == -1) { 7 } else { 10 };
        let i = inner * scale_num / 10;
        let o = outer * scale_num / 10;
        let x0 = if dx == 1 { cx + i } else if dx == -1 { cx - i } else { cx };
        let y0 = if dy == 1 { cy + i } else if dy == -1 { cy - i } else { cy };
        let steps = if o - i > 1 { o - i } else { 1 };
        assert(i == sun_ray_from(size as int, k as int));
        assert(steps == sun_ray_steps(size as int, k as int));
        let ghost ck = *c;
        let mut st: i32 = 0;
        while st <= steps
            invariant
                0 <= st <= steps + 1,
                1 <= steps <= 500,
                -1 <= dx <= 1,
                -1 <= dy <= 1,
                dx == sun_dir(k as int).0,
                dy == sun_dir(k as int).1,
                0 <= k < 8,
                i == sun_ray_from(size as int, k as int),
                x0 == step_along(cx as int, dx as int, i as int),
                y0 == step_along(cy as int, dy as int, i as int),
                -101_000 <= x0 <= 101_000,
                -101_000 <= y0 <= 101_000,
                c.wf(),
                c.w == old(c).w,
                c.h == old(c).h,
                c0 == *old(c),
                old(c).inks_only() ==> c.inks_only(),
                Canvas::painted(&c0, c, |px: int, py: int| sun_px(cx as int, cy as int, size as int, k as int, px, py)
                    || sun_ray(cx as int, cy as int, size as int, k as int, st as int, px, py), color_index(color)),
            decreases steps + 1 - st,
        {
            let x = if dx == 1 { x0 + st } else if dx == -1 { x0 - st } else { x0 };
            let y = if dy == 1 { y0 + st } else if dy == -1 { y0 - st } else { y0 };
            let ghost prev = *c;
            fill_disc(c, x, y, 1, color);
            assert forall|px: int, py: int| #![trigger c.px(px, py)] c.inside(px, py) implies c.px(px, py) == (if sun_px(cx as int, cy as int, size as int, k as int, px, py)
                || sun_ray(cx as int, cy as int, size as int, k as int, st + 1, px, py) {
                color_index(color)
            } else {
                c0.px(px, py)
            }) by {
                assert(prev.inside(px, py));
                if in_disc(x as int, y as int, 1, px, py) {
                    assert(sun_dot(cx as int, cy as int, size as int, k as int, st as int, px, py));
                }
                if sun_ray(cx as int, cy as int, size as int, k as int, st + 1, px, py) && !in_disc(x as int, y as int, 1, px, py) {
                    let w = choose|w: int| 0 <= w < st + 1 && #[trigger] sun_dot(cx as int, cy as int, size as int, k as int, w, px, py);
                    assert(w != st);
                    assert(sun_ray(cx as int, cy as int, size as int, k as int, st as int, px, py));
                }
                if sun_ray(cx as int, cy as int, size as int, k as int, st as int, px, py) {
                    let w = choose|w: int| 0 <= w < st && #[trigger] sun_dot(cx as int, cy as int, size as int, k as int, w, px, py);
                    assert(sun_ray(cx as int, cy as int, size as int, k as int, st + 1, px, py));
                }
            }
            st += 1;
        }
        assert forall|px: int, py: int| #![trigger c.px(px, py)] c.inside(px, py) implies c.px(px, py) == (if sun_px(cx as int, cy as int, size as int, k + 1, px, py) {
            color_index(color)
        } else {
            c0.px(px, py)
        }) by {
            let full = sun_ray(cx as int, cy as int, size as int, k as int, sun_ray_steps(size as int, k as int) + 1, px, py);
            if full {
                assert(sun_px(cx as int, cy as int, size as int, k + 1, px, py));
            }
            if sun_px(cx as int, cy as int, size as int, k + 1, px, py) && !in_disc(cx as int, cy as int, sun_r(size as int), px, py) {
                let w = choose|w: int| 0 <= w < k + 1 && #[trigger] sun_ray(cx as int, cy as int, size as int, w, sun_ray_steps(size as int, w) + 1, px, py);
                if w < k {
                    assert(sun_px(cx as int, cy as int, size as int, k as int, px, py));
                }
            }
            if sun_px(cx as int, cy as int, size as int, k as int, px, py) && !in_disc(cx as int, cy as int, sun_r(size as int), px, py) {
                let w = choose|w: int| 0 <= w < k && #[trigger] sun_ray(cx as int, cy as int, size as int, w, sun_ray_steps(size as int, w) + 1, px, py);
                assert(sun_px(cx as int, cy as int, size as int, k + 1, px, py));
            }
        }
        k += 1;
    }
}

/// Horizontal offset of the `i`-th of three drops or flakes.
pub open spec fn third_dx(size: int, i: int) -> int {
    -(size / 4) + i * size / 4
}

/// Drop `i` of the rain glyph.
pub open spec fn rain_drop(cx: int, cy: int, size: int, i: int, x: int, y: int) -> bool {
    let w = if size / 30 > 2 { size / 30 } else { 2 };
    let h = if size / 4 > 4 { size / 4 } else { 4 };
    in_box(cx + third_dx(size, i) - w / 2, cy + size / 6, w, h, x, y)
}

/// Pixels of the rain glyph: the cloud raised by a quarter of `size`, and
/// three drops below it.
pub open spec fn rain_px(cx: int, cy: int, size: int, n: int, x: int, y: int) -> bool {
    ||| cloud_px(cx, cy - size / 4, size, x, y)
    ||| (n > 0 && rain_drop(cx, cy, size, 0, x, y))
    ||| (n > 1 && rain_drop(cx, cy, size, 1, x, y))
    ||| (n > 2 && rain_drop(cx, cy, size, 2, x, y))
}

/// Rain: a raised cloud over three short drops.
fn draw_rain(c: &mut Canvas, cx: i32, cy: i32, size: i32, color: C)
    requires
        old(c).wf(),
        glyph_ok(cx, cy, size),
    ensures
        same_canvas(old(c), final(c)),
        Canvas::painted(old(c), final(c), |x: int, y: int| rain_px(cx as int, cy as int, size as int, 3, x, y), color_index(color)),
{
    let ghost c0 = *c;
    draw_cloud(c, cx, cy - size / 4, size, color);
    let drop_y = cy + size / 6;
    let drop_h = (if size / 4 > 4 { size / 4 } else { 4 }) as u32;
    let drop_w: u32 = if (size / 30) as u32 > 2 { (size / 30) as u32 } else { 2 };
    let mut i: i32 = 0;
    while i < 3
        invariant
            0 <= i <= 3,
            glyph_ok(cx, cy, size),
            2 <= drop_w <= 34,
            4 <= drop_h <= 250,
            drop_y == cy + size / 6,
            drop_w == (if size / 30 > 2 { size / 30 } else { 2 }),
            drop_h == (if size / 4 > 4 { size / 4 } else { 4 }),
            c.wf(),
            c.w == old(c).w,
            c.h == old(c).h,
            c0 == *old(c),
            old(c).inks_only() ==> c.inks_only(),
            Canvas::painted(&c0, c, |x: int, y: int| rain_px(cx as int, cy as int, size as int, i as int, x, y), color_index(color)),
        decreases 3 - i,
    {
        assert(0 <= i * size <= 3000) by (nonlinear_arith)
            requires
                0 <= i < 3,
                0 <= size <= 1000,
        ;
        let dx = -(size / 4) + i * size / 4;
        let ghost prev = *c;
        c.fill_rect(Rect::new(cx + dx - drop_w as i32 / 2, drop_y, drop_w, drop_h), color);
        assert forall|x: int, y: int| #![trigger c.px(x, y)] c.inside(x, y) implies c.px(x, y) == (if rain_px(cx as int, cy as int, size as int, i + 1, x, y) {
            color_index(color)
        } else {
            c0.px(x, y)
        }) by {
            assert(prev.inside(x, y));
        }
        i += 1;
    }
}

/// Pixels of the storm glyph: the raised cloud and a three-bar lightning
/// zigzag below it.
pub open spec fn storm_px(cx: int, cy: int, size: int, x: int, y: int) -> bool {
    let bx = cx - size / 16;
    let by = cy + size / 12;
    let bw = if size / 14 > 3 { size / 14 } else { 3 };
    let bh1 = if size / 5 > 4 { size / 5 } else { 4 };
    let bh2 = if size / 6 > 3 { size / 6 } else { 3 };
    ||| cloud_px(cx, cy - size / 4, size, x, y)
    ||| in_box(bx, by, bw, bh1, x, y)
    ||| in_box(bx - size / 12, by + bh1, size / 12 + bw, bw, x, y)
    ||| in_box(bx - size / 12, by + bh1, bw, bh2, x, y)
}

/// Storm: a raised cloud over a lightning zigzag.
fn draw_storm(c: &mut Canvas, cx: i32, cy: i32, size: i32, color: C)
    requires
        old(c).wf(),
        glyph_ok(cx, cy, size),
    ensures
        same_canvas(old(c), final(c)),
        Canvas::painted(old(c), final(c), |x: int, y: int| storm_px(cx as int, cy as int, size as int, x, y), color_index(color)),
{
    let ghost c0 = *c;
    draw_cloud(c, cx, cy - size / 4, size, color);
    let ghost c1 = *c;
    let bx = cx - size / 16;
    let by = cy + size / 12;
    let bw = (if size / 14 > 3 { size / 14 } else { 3 }) as u32;
    let bh1 = (if size / 5 > 4 { size / 5 } else { 4 }) as u32;
    let bh2 = (if size / 6 > 3 { size / 6 } else { 3 }) as u32;
    c.fill_rect(Rect::new(bx, by, bw, bh1), color);
    let ghost c2 = *c;
    c.fill_rect(Rect::new(bx - size / 12, by + bh1 as i32, (size / 12 + bw as i32) as u32, bw), color);
    let ghost c3 = *c;
    c.fill_rect(Rect::new(bx - size / 12, by + bh1 as i32, bw, bh2), color);
    assert forall|x: int, y: int| #![trigger c.px(x, y)] c.inside(x, y) implies c.px(x, y) == (if storm_px(cx as int, cy as int, size as int, x, y) {
        color_index(color)
    } else {
        c0.px(x, y)
    }) by {
        assert(c3.inside(x, y) && c2.inside(x, y) && c1.inside(x, y));
    }
}

/// Flake `i` of the snow glyph: a plus of two 2-pixel bars.
pub open spec fn snow_flake(cx: int, cy: int, size: int, i: int, x: int, y: int) -> bool {
    let arm = if size / 14 > 3 { size / 14 } else { 3 };
    let fx = cx + third_dx(size, i);
    let fy = cy + size / 6;
    in_box(fx - arm, fy, arm * 2 + 1, 2, x, y) || in_box(fx, fy - arm, 2, arm * 2 + 1, x, y)
}

/// Pixels of the snow glyph: the raised cloud and three flakes below it.
pub open spec fn snow_px(cx: int, cy: int, size: int, n: int, x: int, y: int) -> bool {
    ||| cloud_px(cx, cy - size / 4, size, x, y)
    ||| (n > 0 && snow_flake(cx, cy, size, 0, x, y))
    ||| (n > 1 && snow_flake(cx, cy, size, 1, x, y))
    ||| (n > 2 && snow_flake(cx, cy, size, 2, x, y))
}

/// Snow: a raised cloud over three plus-shaped flakes.
fn draw_snow(c: &mut Canvas, cx: i32, cy: i32, size: i32, color: C)
    requires
        old(c).wf(),
        glyph_ok(cx, cy, size),
    ensures
        same_canvas(old(c), final(c)),
        Canvas::painted(old(c), final(c), |x: int, y: int| snow_px(cx as int, cy as int, size as int, 3, x, y), color_index(color)),
{
    let ghost c0 = *c;
    draw_cloud(c, cx, cy - size / 4, size, color);
    let y = cy + size / 6;
    let arm = if size / 14 > 3 { size / 14 } else { 3 };
    let mut i: i32 = 0;
    while i < 3
        invariant
            0 <= i <= 3,
            glyph_ok(cx, cy, size),
            3 <= arm <= 72,
            y == cy + size / 6,
            arm == (if size / 14 > 3 { size / 14 } else { 3 }),
            c.wf(),
            c.w == old(c).w,
            c.h == old(c).h,
            c0 == *old(c),
            old(c).inks_only() ==> c.inks_only(),
            Canvas::painted(&c0, c, |px: int, py: int| snow_px(cx as int, cy as int, size as int, i as int, px, py), color_index(color)),
        decreases 3 - i,
    {
        assert(0 <= i * size <= 3000) by (nonlinear_arith)
            requires
                0 <= i < 3,
                0 <= size <= 1000,
        ;
        let dx = -(size / 4) + i * size / 4;
        let x = cx + dx;
        let ghost prev = *c;
        c.fill_rect(Rect::new(x - arm, y, (arm * 2 + 1) as u32, 2), color);
        let ghost mid = *c;
        c.fill_rect(Rect::new(x, y - arm, 2, (arm * 2 + 1) as u32), color);
        assert forall|px: int, py: int| #![trigger c.px(px, py)] c.inside(px, py) implies c.px(px, py) == (if snow_px(cx as int, cy as int, size as int, i + 1, px, py) {
            color_index(color)
        } else {
            c0.px(px, py)
        }) by {
            assert(prev.inside(px, py) && mid.inside(px, py));
        }
        i += 1;
    }
}

/// Bar `i` of the fog glyph.
pub open spec fn fog_bar(cx: int, cy: int, size: int, i: int, x: int, y: int) -> bool {
    let h = if size / 14 > 2 { size / 14 } else { 2 };
    let gap = if size / 8 > 3 { size / 8 } else { 3 };
    let w = if i == 0 { size } else if i == 1 { size - size / 6 } else { size - size / 4 };
    let off = if i == 1 { size / 12 } else { 0 };
    in_box(cx - w / 2 + off, cy - gap + i * gap, w, h, x, y)
}

/// Pixels of the fog glyph: three staggered bars, the middle one shifted
/// right.
pub open spec fn fog_px(cx: int, cy: int, size: int, n: int, x: int, y: int) -> bool {
    ||| (n > 0 && fog_bar(cx, cy, size, 0, x, y))
    ||| (n > 1 && fog_bar(cx, cy, size, 1, x, y))
    ||| (n > 2 && fog_bar(cx, cy, size, 2, x, y))
}

/// Fog: three staggered horizontal bars.
fn draw_fog(c: &mut Canvas, cx: i32, cy: i32, size: i32, color: C)
    requires
        old(c).wf(),
        glyph_ok(cx, cy, size),
    ensures
        same_canvas(old(c), final(c)),
        Canvas::painted(old(c), final(c), |x: int, y: int| fog_px(cx as int, cy as int, size as int, 3, x, y), color_index(color)),
{
    let ghost c0 = *c;
    let bar_h: u32 = if (size / 14) as u32 > 2 { (size / 14) as u32 } else { 2 };
    let gap = if size / 8 > 3 { size / 8 } else { 3 };
    let widths: [i32; 3] = [size, size - size / 6, size - size / 4];
    let mut i: i32 = 0;
    while i < 3
        invariant
            0 <= i <= 3,
            glyph_ok(cx, cy, size),
            2 <= bar_h <= 72,
            3 <= gap <= 125,
            forall|j: int| 0 <= j < 3 ==> 0 <= #[trigger] widths@[j] <= size,
            widths@[0] == size,
            widths@[1] == size - size / 6,
            widths@[2] == size - size / 4,
            bar_h == (if size / 14 > 2 { size / 14 } else { 2 }),
            gap == (if size / 8 > 3 { size / 8 } else { 3 }),
            c.wf(),
            c.w == old(c).w,
            c.h == old(c).h,
            c0 == *old(c),
            old(c).inks_only() ==> c.inks_only(),
            Canvas::painted(&c0, c, |x: int, y: int| fog_px(cx as int, cy as int, size as int, i as int, x, y), color_index(color)),
        decreases 3 - i,
    {
        let w = widths[i as usize];
        assert(0 <= i * gap <= 375) by (nonlinear_arith)
            requires
                0 <= i < 3,
                3 <= gap <= 125,
        ;
        let y = cy - gap + i * gap;
        let off = if i % 2 == 1 { size / 12 } else { 0 };
        let ghost prev = *c;
        c.fill_rect(Rect::new(cx - w / 2 + off, y, w as u32, bar_h), color);
        assert forall|px: int, py: int| #![trigger c.px(px, py)] c.inside(px, py) implies c.px(px, py) == (if fog_px(cx as int, cy as int, size as int, i + 1, px, py) {
            color_index(color)
        } else {
            c0.px(px, py)
        }) by {
            assert(prev.inside(px, py));
        }
        i += 1;
    }
}

/// The offset `(ox, oy)` from a centre lies on the ring between radii
/// `r - stroke` and `r`.
pub open spec fn in_ring(r: int, stroke: int, ox: int, oy: int) -> bool {
    &&& -r <= ox <= r
    &&& -r <= oy <= r
    &&& ox * ox + oy * oy <= r * r
    &&& ox * ox + oy * oy >= (r - stroke) * (r - stroke)
}

/// Circle outline of radius `r`, `stroke` pixels thick.
fn draw_circle_outline(c: &mut Canvas, cx: i32, cy: i32, r: i32, stroke: i32, color: C)
    requires
        old(c).wf(),
        -100_000 <= cx <= 100_000,
        -100_000 <= cy <= 100_000,
        0 <= r <= 1000,
        0 <= stroke <= r,
    ensures
        same_canvas(old(c), final(c)),
        Canvas::painted(old(c), final(c), |x: int, y: int| in_ring(r as int, stroke as int, x - cx, y - cy), color_index(color)),
{
    let ghost c0 = *c;
    assert(0 <= r * r <= 1_000_000 && 0 <= (r - stroke) * (r - stroke) <= 1_000_000) by (nonlinear_arith)
        requires
            0 <= stroke <= r <= 1000,
    ;
    let mut dy: i32 = -r;
    while dy <= r
        invariant
            -r <= dy <= r + 1,
            0 <= stroke <= r <= 1000,
            -100_000 <= cx <= 100_000,
            -100_000 <= cy <= 100_000,
            0 <= r * r <= 1_000_000,
            0 <= (r - stroke) * (r - stroke) <= 1_000_000,
            c.wf(),
            c.w == old(c).w,
            c.h == old(c).h,
            c0 == *old(c),
            old(c).inks_only() ==> c.inks_only(),
            Canvas::painted(&c0, c, |x: int, y: int| in_ring(r as int, stroke as int, x - cx, y - cy) && y - cy < dy, color_index(color)),
        decreases r + 1 - dy,
    {
        let mut dx: i32 = -r;
        while dx <= r
            invariant
                -r <= dy <= r,
                -r <= dx <= r + 1,
                0 <= stroke <= r <= 1000,
                -100_000 <= cx <= 100_000,
                -100_000 <= cy <= 100_000,
                0 <= r * r <= 1_000_000,
                0 <= (r - stroke) * (r - stroke) <= 1_000_000,
                c.wf(),
                c.w == old(c).w,
                c.h == old(c).h,
                c0 == *old(c),
                old(c).inks_only() ==> c.inks_only(),
                Canvas::painted(&c0, c, |x: int, y: int| in_ring(r as int, stroke as int, x - cx, y - cy)
                    && (y - cy < dy || (y - cy == dy && x - cx < dx)), color_index(color)),
            decreases r + 1 - dx,
        {
            proof {
                lemma_sq_bound(dx as int);
                lemma_sq_bound(dy as int);
            }
            let d2 = dx * dx + dy * dy;
            let ghost prev = *c;
            let hit = d2 <= r * r && d2 >= (r - stroke) * (r - stroke);
            if hit {
                c.put(cx + dx, cy + dy, color);
            }
            assert(hit == in_ring(r as int, stroke as int, dx as int, dy as int));
            assert forall|x: int, y: int| #![trigger c.px(x, y)] c.inside(x, y) implies c.px(x, y) == (if in_ring(r as int, stroke as int, x - cx, y - cy)
                && (y - cy < dy || (y - cy == dy && x - cx < dx + 1)) {
                color_index(color)
            } else {
                c0.px(x, y)
            }) by {
                assert(prev.inside(x, y));
                if x - cx == dx && y - cy == dy {
                    assert(x - cx == dx as int && y - cy == dy as int);
                }
            }
            dx += 1;
        }
        assert forall|x: int, y: int| #![trigger c.px(x, y)] c.inside(x, y) implies c.px(x, y) == (if in_ring(r as int, stroke as int, x - cx, y - cy)
            && y - cy < dy + 1 {
            color_index(color)
        } else {
            c0.px(x, y)
        }) by {
            if in_ring(r as int, stroke as int, x - cx, y - cy) && y - cy == dy {
                assert(x - cx < dx);
            }
        }
        dy += 1;
    }
    assert forall|x: int, y: int| #![trigger c.px(x, y)] c.inside(x, y) implies c.px(x, y) == (if in_ring(r as int, stroke as int, x - cx, y - cy) {
        color_index(color)
    } else {
        c0.px(x, y)
    }) by {}
}

/// Pixels of glyph `g` of `size` centred on `(cx, cy)`.
pub open spec fn glyph_px(g: Icon, cx: int, cy: int, size: int, x: int, y: int) -> bool {
    match g {
        Icon::Sun => sun_px(cx, cy, size, 8, x, y),
        Icon::Rain => rain_px(cx, cy, size, 3, x, y),
        Icon::Storm => storm_px(cx, cy, size, x, y),
        Icon::Snow => snow_px(cx, cy, size, 3, x, y),
        Icon::Fog => fog_px(cx, cy, size, 3, x, y),
        Icon::Cloud => cloud_px(cx, cy, size, x, y),
    }
}

/// Draws the glyph for `condition` centred on `(cx, cy)`.
fn draw_weather_icon(c: &mut Canvas, cx: i32, cy: i32, size: i32, condition: &str, color: C)
    requires
        old(c).wf(),
        glyph_ok(cx, cy, size),
    ensures
        same_canvas(old(c), final(c)),
        Canvas::painted(
            old(c),
            final(c),
            |x: int, y: int| glyph_px(spec_icon_kind(spec_to_uppercase(condition@)), cx as int, cy as int, size as int, x, y),
            color_index(color),
        ),
{
    match icon_for(condition) {
        Icon::Sun => draw_sun(c, cx, cy, size, color),
        Icon::Rain => draw_rain(c, cx, cy, size, color),
        Icon::Storm => draw_storm(c, cx, cy, size, color),
        Icon::Snow => draw_snow(c, cx, cy, size, color),
        Icon::Fog => draw_fog(c, cx, cy, size, color),
        Icon::Cloud => draw_cloud(c, cx, cy, size, color),
    }
}


// ── Weather panel ──────────────────────────────────────────────────────────

/// `"<v>°"`.
pub fn deg_label(v: i8) -> (r: String)
    ensures
        r@ == dec_int(v as int) + "°"@,
{
    let mut out: Vec<char> = Vec::new();
    push_int(&mut out, v as i64);
    push_str(&mut out, "°");
    string_from_chars(&out)
}

/// `"HI <hi>°  LO <lo>°"`.
pub fn hi_lo_line(hi: i8, lo: i8) -> (r: String)
    ensures
        r@ == "HI "@ + dec_int(hi as int) + "°  LO "@ + dec_int(lo as int) + "°"@,
{
    let mut out: Vec<char> = Vec::new();
    push_str(&mut out, "HI ");
    push_int(&mut out, hi as i64);
    push_str(&mut out, "°  LO ");
    push_int(&mut out, lo as i64);
    push_str(&mut out, "°");
    string_from_chars(&out)
}

/// `"<time> <temp>° <cond>"`, one hourly slot.
pub fn hour_line(h: &WeatherHour) -> (r: String)
    ensures
        r@ == h.time@ + " "@ + dec_int(h.temp_c as int) + "° "@ + h.cond@,
{
    let mut out: Vec<char> = Vec::new();
    push_str(&mut out, h.time.as_str());
    push_str(&mut out, " ");
    push_int(&mut out, h.temp_c as i64);
    push_str(&mut out, "° ");
    push_str(&mut out, h.cond.as_str());
    string_from_chars(&out)
}

/// The condition the big glyph shows: the first hourly slot's, else the
/// day's.
pub open spec fn spec_hero_cond(w: WeatherData) -> Seq<char> {
    if w.hourly@.len() > 0 {
        w.hourly@[0].cond@
    } else {
        w.condition@
    }
}

pub fn hero_cond(w: &WeatherData) -> (r: &str)
    ensures
        r@ == spec_hero_cond(*w),
{
    if w.hourly.len() > 0 {
        w.hourly[0].cond.as_str()
    } else {
        w.condition.as_str()
    }
}

/// The side block (condition, HI/LO, three hourly slots) at `x`, lines
/// from `y`.
/// Pixel `(px, py)` is inked by the line of hour `i` of the side block at
/// `(x, y)`.
pub open spec fn hour_px(w: WeatherData, x: int, y: int, i: int, px: int, py: int) -> bool {
    let h = w.hourly@[i];
    text_px(FontId::Small, h.time@ + " "@ + dec_int(h.temp_c as int) + "° "@ + h.cond@, x as i32, (y + 32 + i * 14) as i32, Align::Left, px, py)
}

/// Pixels of the side block at `(x, y)` with its first `n` hour lines:
/// the condition, the high/low line, and the hour lines below.
pub open spec fn weather_side_px(w: WeatherData, x: int, y: int, n: int, px: int, py: int) -> bool {
    ||| text_px(FontId::BodyBold, w.condition@, x as i32, y as i32, Align::Left, px, py)
    ||| text_px(FontId::Small, "HI "@ + dec_int(w.hi as int) + "°  LO "@ + dec_int(w.lo as int) + "°"@, x as i32, (y + 16) as i32, Align::Left, px, py)
    ||| (n > 0 && hour_px(w, x, y, 0, px, py))
    ||| (n > 1 && hour_px(w, x, y, 1, px, py))
    ||| (n > 2 && hour_px(w, x, y, 2, px, py))
}

/// Hour lines the side block shows: the first three.
pub open spec fn side_hours(w: WeatherData) -> int {
    if w.hourly@.len() < 3 { w.hourly@.len() as int } else { 3 }
}

fn draw_weather_side(c: &mut Canvas, w: &WeatherData, x: i32, y: i32)
    requires
        layout_canvas(old(c)),
        -100_000 <= x <= 100_000,
        -100_000 <= y <= 100_000,
    ensures
        layout_canvas(final(c)),
        Canvas::painted(old(c), final(c), |px: int, py: int| weather_side_px(*w, x as int, y as int, side_hours(*w), px, py), 0),
{
    let ghost c0 = *c;
    draw_text(c, FontId::BodyBold, w.condition.as_str(), x, y, C::Black, Align::Left);
    let ghost c1 = *c;
    let hl = hi_lo_line(w.hi, w.lo);
    draw_text(c, FontId::Small, hl.as_str(), x, y + 16, C::Black, Align::Left);
    assert forall|px: int, py: int| #![trigger c.px(px, py)] c.inside(px, py) implies c.px(px, py) == (if weather_side_px(*w, x as int, y as int, 0, px, py) {
        0u8
    } else {
        c0.px(px, py)
    }) by {
        assert(c1.inside(px, py));
    }
    let mut i: usize = 0;
    while i < 3 && i < w.hourly.len()
        invariant
            i <= 3,
            i <= w.hourly@.len(),
            layout_canvas(c),
            -100_000 <= x <= 100_000,
            -100_000 <= y <= 100_000,
            c.w == c0.w,
            c.h == c0.h,
            Canvas::painted(&c0, c, |px: int, py: int| weather_side_px(*w, x as int, y as int, i as int, px, py), 0),
        decreases 3 - i,
    {
        let line = hour_line(&w.hourly[i]);
        let ghost prev = *c;
        draw_text(c, FontId::Small, line.as_str(), x, y + 32 + (i as i32) * 14, C::Black, Align::Left);
        assert forall|px: int, py: int| #![trigger c.px(px, py)] c.inside(px, py) implies c.px(px, py) == (if weather_side_px(*w, x as int, y as int, i + 1, px, py) {
            0u8
        } else {
            c0.px(px, py)
        }) by {
            assert(prev.inside(px, py));
        }
        i += 1;
    }
}

/// One forecast cell: day name, high, and low beside a small glyph.
/// Pixels of the forecast cell centred on column `cx` at `fc_y`: the day
/// name and the high, centred, and a row of the low and a 12-pixel glyph.
pub open spec fn forecast_px(day: WeatherDay, cx: int, fc_y: int, px: int, py: int) -> bool {
    let lo = dec_int(day.lo as int) + "°"@;
    let lo_w = capped(spec_text_width(FontId::Small, lo)) as int;
    let row_x0 = cx - (lo_w + 16) / 2;
    ||| text_px(FontId::SmallBold, day.day@, cx as i32, (fc_y + 12) as i32, Align::Center, px, py)
    ||| text_px(FontId::XlBold, dec_int(day.hi as int) + "°"@, cx as i32, (fc_y + 32) as i32, Align::Center, px, py)
    ||| text_px(FontId::Small, lo, row_x0 as i32, (fc_y + 44) as i32, Align::Left, px, py)
    ||| glyph_px(spec_icon_kind(spec_to_uppercase(day.cond@)), row_x0 + lo_w + 10, fc_y + 40, 12, px, py)
}

fn draw_forecast_cell(c: &mut Canvas, day: &WeatherDay, cx: i32, fc_y: i32)
    requires
        layout_canvas(old(c)),
        0 <= cx <= 1000,
        0 <= fc_y <= 1000,
    ensures
        layout_canvas(final(c)),
        Canvas::painted(old(c), final(c), |px: int, py: int| forecast_px(*day, cx as int, fc_y as int, px, py), 0),
{
    let ghost c0 = *c;
    draw_text(c, FontId::SmallBold, day.day.as_str(), cx, fc_y + 12, C::Black, Align::Center);
    let ghost c1 = *c;
    let hi = deg_label(day.hi);
    draw_text(c, FontId::XlBold, hi.as_str(), cx, fc_y + 32, C::Black, Align::Center);
    let ghost c2 = *c;
    let lo = deg_label(day.lo);
    let lo_w = cap_width(text_width(FontId::Small, lo.as_str())) as i32;
    let icon_w = 12i32;
    let row_w = lo_w + 4 + icon_w;
    let row_x0 = cx - row_w / 2;
    draw_text(c, FontId::Small, lo.as_str(), row_x0, fc_y + 44, C::Black, Align::Left);
    let ghost c3 = *c;
    draw_weather_icon(c, row_x0 + lo_w + 4 + icon_w / 2, fc_y + 40, icon_w, day.cond.as_str(), C::Black);
    assert forall|px: int, py: int| #![trigger c.px(px, py)] c.inside(px, py) implies c.px(px, py) == (if forecast_px(*day, cx as int, fc_y as int, px, py) {
        0u8
    } else {
        c0.px(px, py)
    }) by {
        assert(c3.inside(px, py) && c2.inside(px, py) && c1.inside(px, py));
    }
}

/// The weather column: hero temperature with its degree ring, the side
/// block (beside the digits when 70 pixels are free there, else below),
/// the glyph of the coming hour, and a four-day forecast strip.
/// The weather column.
pub open spec fn wx_panel() -> Rect {
    Rect { x: 0, y: BODY_TOP, w: COL1_W, h: BODY_H }
}

/// Centre column of the degree ring: right of the hero temperature.
pub open spec fn wx_deg_cx(w: WeatherData) -> int {
    12 + capped(spec_text_width(FontId::Temperature, dec_int(w.temp_c as int))) + 16
}

/// The side block: beside the digits when 70 pixels are free there,
/// else below them.
pub open spec fn wx_side_px(w: WeatherData, x: int, y: int) -> bool {
    let sx = wx_deg_cx(w) + 20;
    if 248 - sx >= 70 {
        weather_side_px(w, sx, 118, side_hours(w), x, y)
    } else {
        weather_side_px(w, 12, 200, side_hours(w), x, y)
    }
}

/// The dotted separator after forecast cell `i`, its first `k` dot pairs.
pub open spec fn wx_dots_px(i: int, k: int, x: int, y: int) -> bool {
    let d = y - 406;
    &&& x == 12 + 59 * (i + 1)
    &&& 0 <= d < 4 * k
    &&& (d % 4 == 0 || d % 4 == 1)
}

/// Forecast cell `i` of the strip, with its separator for the first three.
pub open spec fn wx_cell_px(w: WeatherData, i: int, x: int, y: int) -> bool {
    (i < 3 && wx_dots_px(i, 12, x, y)) || forecast_px(w.forecast@[i], 41 + 59 * i, 404, x, y)
}

/// The black parts over the ring: the side block, the strip's rule, the
/// hero glyph (90 pixels, centred at `(130, 296)`), the first `n` forecast
/// cells and the first `dk` dot pairs of separator `n`.
pub open spec fn wx_black_px(w: WeatherData, n: int, dk: int, x: int, y: int) -> bool {
    ||| wx_side_px(w, x, y)
    ||| in_box(12, 404, 236, 1, x, y)
    ||| glyph_px(spec_icon_kind(spec_to_uppercase(spec_hero_cond(w))), 130, 296, 90, x, y)
    ||| (n > 0 && wx_cell_px(w, 0, x, y))
    ||| (n > 1 && wx_cell_px(w, 1, x, y))
    ||| (n > 2 && wx_cell_px(w, 2, x, y))
    ||| (n > 3 && wx_cell_px(w, 3, x, y))
    ||| (n < 3 && wx_dots_px(n, dk, x, y))
}

/// The weather column's ink with `n` forecast cells and `dk` dot pairs
/// of the next separator drawn: the black parts, the red degree ring, the
/// hero temperature, the stamp.
pub open spec fn wx_stage_ink(w: WeatherData, marker: Option<Seq<char>>, n: int, dk: int, x: int, y: int) -> Option<u8> {
    if wx_black_px(w, n, dk, x, y) {
        Some(0u8)
    } else if in_ring(8, 2, x - wx_deg_cx(w), y - 108) {
        Some(3u8)
    } else if text_px(FontId::Temperature, dec_int(w.temp_c as int), 12, 178, Align::Left, x, y) {
        Some(0u8)
    } else {
        section_header_ink(wx_panel(), "WX"@, "// 01"@, marker, x, y)
    }
}

/// Forecast cells the strip shows: the first four.
pub open spec fn wx_cells(w: WeatherData) -> int {
    if w.forecast@.len() < 4 { w.forecast@.len() as int } else { 4 }
}

/// The weather column's ink: a dash and `WEATHER NOT SET` without data.
pub open spec fn weather_ink(w: Option<WeatherData>, marker: Option<Seq<char>>, x: int, y: int) -> Option<u8> {
    match w {
        None => if text_px(FontId::Small, "WEATHER NOT SET"@, 12, 128, Align::Left, x, y) {
            Some(0u8)
        } else if text_px(FontId::LgBold, "—"@, 12, 110, Align::Left, x, y) {
            Some(0u8)
        } else {
            section_header_ink(wx_panel(), "WX"@, "// 01"@, marker, x, y)
        },
        Some(d) => wx_stage_ink(d, marker, wx_cells(d), 0, x, y),
    }
}

fn draw_weather(c: &mut Canvas, w: Option<&WeatherData>, marker: &Option<String>)
    requires
        layout_canvas(old(c)),
    ensures
        layout_canvas(final(c)),
        overlaid(old(c), final(c), |x: int, y: int| weather_ink(match w { Some(d) => Some(*d), None => None }, crate::alerts::opt_view(*marker), x, y)),
{
    let ghost c0 = *c;
    let ghost mv = crate::alerts::opt_view(*marker);
    let ghost wo = match w { Some(d) => Some(*d), None => None };
    let panel = col1_rect();
    let content_y = draw_section_header(c, panel, "WX", "// 01", marker);
    let ghost c1 = *c;
    let w = match w {
        Some(w) => w,
        None => {
            draw_text(c, FontId::LgBold, "—", panel.x + 12, content_y + 32, C::Black, Align::Left);
            let ghost c2 = *c;
            draw_text(c, FontId::Small, "WEATHER NOT SET", panel.x + 12, content_y + 50, C::Black, Align::Left);
            assert forall|x: int, y: int| #![trigger c.px(x, y)] c.inside(x, y) implies c.px(x, y) == match weather_ink(wo, mv, x, y) {
                Some(v) => v,
                None => c0.px(x, y),
            } by {
                assert(c2.inside(x, y) && c1.inside(x, y));
            }
            return;
        },
    };
    let temp_str = fmt_int(w.temp_c as i64);
    let temp_x = panel.x + 12;
    let temp_baseline = content_y + 100;
    draw_text(c, FontId::Temperature, temp_str.as_str(), temp_x, temp_baseline, C::Black, Align::Left);
    let ghost c2 = *c;
    let temp_w = cap_width(text_width(FontId::Temperature, temp_str.as_str())) as i32;
    let deg_r = 8i32;
    let deg_gap = 8i32;
    let deg_cx = temp_x + temp_w + deg_gap + deg_r;
    let deg_cy = content_y + 30;
    draw_circle_outline(c, deg_cx, deg_cy, deg_r, 2, C::Red);
    let ghost c3 = *c;
    let side_x = deg_cx + deg_r + 12;
    let side_avail = panel.right() - 12 - side_x;
    if side_avail >= 70 {
        draw_weather_side(c, w, side_x, content_y + 40);
    } else {
        draw_weather_side(c, w, temp_x, content_y + 122);
    }
    let ghost c4 = *c;
    let fc_h = 48u32;
    let fc_y = panel.bottom() - fc_h as i32 - 6;
    c.hline(panel.x + 12, fc_y, panel.w - 24, C::Black);
    let ghost c5 = *c;
    let icon_band_top = temp_baseline + 16;
    let icon_band_bot = fc_y - 6;
    let icon_cy = (icon_band_top + icon_band_bot) / 2;
    let icon_cx = panel.x + (panel.w / 2) as i32;
    let band = icon_band_bot - icon_band_top - 8;
    let icon_size = if band < 40 { 40 } else if band > 90 { 90 } else { band };
    draw_weather_icon(c, icon_cx, icon_cy, icon_size, hero_cond(w), C::Black);
    assert forall|x: int, y: int| #![trigger c.px(x, y)] c.inside(x, y) implies c.px(x, y) == match wx_stage_ink(*w, mv, 0, 0, x, y) {
        Some(v) => v,
        None => c0.px(x, y),
    } by {
        assert(c5.inside(x, y) && c4.inside(x, y) && c3.inside(x, y) && c2.inside(x, y) && c1.inside(x, y));
    }
    let cell_w = (panel.w - 24) / 4;
    let mut i: usize = 0;
    while i < 4 && i < w.forecast.len()
        invariant
            i <= 4,
            i <= w.forecast@.len(),
            layout_canvas(c),
            panel == (Rect { x: 0, y: BODY_TOP, w: COL1_W, h: BODY_H }),
            cell_w == 59,
            fc_h == 48,
            fc_y == 404,
            c.w == c0.w,
            c.h == c0.h,
            overlaid(&c0, c, |x: int, y: int| wx_stage_ink(*w, mv, i as int, 0, x, y)),
        decreases 4 - i,
    {
        let cx = panel.x + 12 + (cell_w * i as u32) as i32 + (cell_w / 2) as i32;
        if i < 3 {
            let dx = panel.x + 12 + (cell_w * (i + 1) as u32) as i32;
            let mut k: u32 = 0;
            while k < fc_h / 4
                invariant
                    k <= 12,
                    fc_h == 48,
                    fc_y == 404,
                    0 <= dx <= 260,
                    dx == 12 + 59 * (i + 1),
                    i < 3,
                    layout_canvas(c),
                    c.w == c0.w,
                    c.h == c0.h,
                    overlaid(&c0, c, |x: int, y: int| wx_stage_ink(*w, mv, i as int, k as int, x, y)),
                decreases 12 - k,
            {
                let ghost p0 = *c;
                c.put(dx, fc_y + (k * 4) as i32 + 2, C::Black);
                let ghost p1 = *c;
                c.put(dx, fc_y + (k * 4) as i32 + 3, C::Black);
                assert forall|x: int, y: int| #![trigger c.px(x, y)] c.inside(x, y) implies c.px(x, y) == match wx_stage_ink(*w, mv, i as int, k + 1, x, y) {
                    Some(v) => v,
                    None => c0.px(x, y),
                } by {
                    assert(p1.inside(x, y) && p0.inside(x, y));
                    let d = y - 406;
                    if x == dx && (y == 404 + k * 4 + 2 || y == 404 + k * 4 + 3) {
                        assert(wx_dots_px(i as int, k + 1, x, y));
                    }
                    if wx_dots_px(i as int, k + 1, x, y) && !wx_dots_px(i as int, k as int, x, y) {
                        assert(d == 4 * k || d == 4 * k + 1);
                    }
                }
                k += 1;
            }
        }
        let ghost p2 = *c;
        draw_forecast_cell(c, &w.forecast[i], cx, fc_y);
        assert forall|x: int, y: int| #![trigger c.px(x, y)] c.inside(x, y) implies c.px(x, y) == match wx_stage_ink(*w, mv, i + 1, 0, x, y) {
            Some(v) => v,
            None => c0.px(x, y),
        } by {
            assert(p2.inside(x, y));
            assert(w.forecast@[i as int] == w.forecast[i as int]);
        }
        i += 1;
    }
}


// ── Agenda panel ───────────────────────────────────────────────────────────

/// How many deliveries and events the agenda lists: at most two
/// deliveries first, then as many events as rows remain.
pub open spec fn spec_agenda_rows(n_ship: int, n_items: int, max_rows: int) -> (int, int) {
    let ships = if n_ship < 2 { n_ship } else { 2 };
    let ships = if ships < max_rows { ships } else { max_rows };
    let left = max_rows - ships;
    (ships, if n_items < left { n_items } else { left })
}

pub fn agenda_rows(n_ship: usize, n_items: usize, max_rows: usize) -> (r: (usize, usize))
    ensures
        (r.0 as int, r.1 as int) == spec_agenda_rows(n_ship as int, n_items as int, max_rows as int),
{
    let ships = if n_ship < 2 { n_ship } else { 2 };
    let ships = if ships < max_rows { ships } else { max_rows };
    let left = max_rows - ships;
    (ships, if n_items < left { n_items } else { left })
}

/// The agenda panel: today's deliveries (tagged `DLV`), then the events
/// with their start time (the first row in red), ellipsized title and
/// right-aligned duration.
/// The agenda panel.
pub open spec fn agenda_panel() -> Rect {
    Rect { x: COL1_W as i32, y: BODY_TOP, w: COL2_W, h: ROW_H }
}

/// The ink of pixel `(x, y)` of delivery row `r`: its ellipsized remark
/// in black over the red `DLV` tag.
pub open spec fn ship_row_ink(s: ShipmentHighlight, r: int, x: int, y: int) -> Option<u8> {
    let b = (78 + r * 14 + 9) as i32;
    if text_px(FontId::Small, spec_clip_to_width(FontId::Small, s.remark@, 216), 308, b, Align::Left, x, y) {
        Some(0u8)
    } else if text_px(FontId::SmallBold, "DLV"@, 272, b, Align::Left, x, y) {
        Some(3u8)
    } else {
        None
    }
}

/// The ink of pixel `(x, y)` of event row `r`: its duration right-aligned
/// (when it has one), its ellipsized title, its start time in bold, red on
/// the first row of the panel and black below.
pub open spec fn item_row_ink(ev: AgendaItem, r: int, x: int, y: int) -> Option<u8> {
    let b = (78 + r * 14 + 9) as i32;
    if ev.duration@.len() > 0 && text_px(FontId::Small, ev.duration@, 568, b, Align::Right, x, y) {
        Some(0u8)
    } else if text_px(FontId::Small, spec_clip_to_width(FontId::Small, ev.title@, 216), 308, b, Align::Left, x, y) {
        Some(0u8)
    } else if text_px(FontId::SmallBold, ev.time@, 272, b, Align::Left, x, y) {
        Some(if r == 0 { 3u8 } else { 0u8 })
    } else {
        None
    }
}

/// The agenda panel's ink with its first `k` delivery rows drawn.
pub open spec fn agenda_ships_ink(ships: Seq<ShipmentHighlight>, marker: Option<Seq<char>>, k: int, x: int, y: int) -> Option<u8>
    decreases k,
{
    if k <= 0 {
        section_header_ink(agenda_panel(), "AGENDA"@, "// 02"@, marker, x, y)
    } else {
        match ship_row_ink(ships[k - 1], k - 1, x, y) {
            Some(v) => Some(v),
            None => agenda_ships_ink(ships, marker, k - 1, x, y),
        }
    }
}

/// The agenda panel's ink with `ns` delivery rows and the first `k`
/// event rows below them drawn.
pub open spec fn agenda_rows_ink(items: Seq<AgendaItem>, ships: Seq<ShipmentHighlight>, marker: Option<Seq<char>>, ns: int, k: int, x: int, y: int) -> Option<u8>
    decreases k,
{
    if k <= 0 {
        agenda_ships_ink(ships, marker, ns, x, y)
    } else {
        match item_row_ink(items[k - 1], ns + k - 1, x, y) {
            Some(v) => Some(v),
            None => agenda_rows_ink(items, ships, marker, ns, k - 1, x, y),
        }
    }
}

/// The agenda panel's ink: the stamp and `NO EVENTS TODAY` when there is
/// nothing, else at most two deliveries and as many events as fit twelve
/// rows.
pub open spec fn agenda_ink(items: Seq<AgendaItem>, ships: Seq<ShipmentHighlight>, marker: Option<Seq<char>>, x: int, y: int) -> Option<u8> {
    if items.len() == 0 && ships.len() == 0 {
        if text_px(FontId::Small, "NO EVENTS TODAY"@, 272, 96, Align::Left, x, y) {
            Some(0u8)
        } else {
            section_header_ink(agenda_panel(), "AGENDA"@, "// 02"@, marker, x, y)
        }
    } else {
        let (ns, ni) = spec_agenda_rows(ships.len() as int, items.len() as int, 12);
        agenda_rows_ink(items, ships, marker, ns, ni, x, y)
    }
}

fn draw_agenda(c: &mut Canvas, items: &Vec<AgendaItem>, shipments: &Vec<ShipmentHighlight>, marker: &Option<String>)
    requires
        layout_canvas(old(c)),
    ensures
        layout_canvas(final(c)),
        overlaid(old(c), final(c), |x: int, y: int| agenda_ink(items@, shipments@, crate::alerts::opt_view(*marker), x, y)),
{
    let ghost c0 = *c;
    let panel = col2_top();
    let content_y = draw_section_header(c, panel, "AGENDA", "// 02", marker);
    let ghost mv = crate::alerts::opt_view(*marker);
    let pad_x = 12i32;
    if items.len() == 0 && shipments.len() == 0 {
        let ghost c1 = *c;
        draw_text(c, FontId::Small, "NO EVENTS TODAY", panel.x + pad_x, content_y + 18, C::Black, Align::Left);
        assert forall|x: int, y: int| #![trigger c.px(x, y)] c.inside(x, y) implies c.px(x, y) == match agenda_ink(items@, shipments@, mv, x, y) {
            Some(v) => v,
            None => c0.px(x, y),
        } by {
            assert(c1.inside(x, y));
        }
        return;
    }
    let row_h = 14i32;
    let bottom_pad = 4i32;
    let avail0 = panel.bottom() - bottom_pad - content_y;
    let avail = if avail0 > 0 { avail0 } else { 0 };
    let max_rows = (avail / row_h) as usize;
    let time_x = panel.x + pad_x;
    let title_x = time_x + 36;
    let dur_right = panel.right() - pad_x;
    let dur_w = 40i32;
    let tw = dur_right - dur_w - title_x - 4;
    let title_max_w = (if tw > 0 { tw } else { 0 }) as u32;
    let (n_ships, n_items) = agenda_rows(shipments.len(), items.len(), max_rows);
    let mut rows_used: usize = 0;
    while rows_used < n_ships
        invariant
            layout_canvas(c),
            n_ships <= 2,
            n_ships <= shipments@.len(),
            rows_used <= n_ships,
            row_h == 14,
            content_y == 78,
            time_x == 272,
            title_x == 308,
            title_max_w == 216,
            c.w == c0.w,
            c.h == c0.h,
            overlaid(&c0, c, |x: int, y: int| agenda_ships_ink(shipments@, mv, rows_used as int, x, y)),
        decreases n_ships - rows_used,
    {
        let y = content_y + (rows_used as i32) * row_h;
        let ghost p0 = *c;
        draw_text(c, FontId::SmallBold, "DLV", time_x, y + 9, C::Red, Align::Left);
        let ghost p1 = *c;
        let title = clip_to_width(FontId::Small, shipments[rows_used].remark.as_str(), title_max_w);
        draw_text(c, FontId::Small, title.as_str(), title_x, y + 9, C::Black, Align::Left);
        assert forall|x: int, y: int| #![trigger c.px(x, y)] c.inside(x, y) implies c.px(x, y) == match agenda_ships_ink(shipments@, mv, rows_used + 1, x, y) {
            Some(v) => v,
            None => c0.px(x, y),
        } by {
            assert(p1.inside(x, y) && p0.inside(x, y));
        }
        rows_used += 1;
    }
    let mut i: usize = 0;
    while i < n_items
        invariant
            layout_canvas(c),
            n_items <= items@.len(),
            n_ships + n_items <= 12,
            i <= n_items,
            rows_used == n_ships + i,
            row_h == 14,
            content_y == 78,
            time_x == 272,
            title_x == 308,
            dur_right == 568,
            title_max_w == 216,
            c.w == c0.w,
            c.h == c0.h,
            overlaid(&c0, c, |x: int, y: int| agenda_rows_ink(items@, shipments@, mv, n_ships as int, i as int, x, y)),
        decreases n_items - i,
    {
        let ev = &items[i];
        let y = content_y + (rows_used as i32) * row_h;
        let time_color = if rows_used == 0 { C::Red } else { C::Black };
        let ghost p0 = *c;
        draw_text(c, FontId::SmallBold, ev.time.as_str(), time_x, y + 9, time_color, Align::Left);
        let ghost p1 = *c;
        let title = clip_to_width(FontId::Small, ev.title.as_str(), title_max_w);
        draw_text(c, FontId::Small, title.as_str(), title_x, y + 9, C::Black, Align::Left);
        let ghost p2 = *c;
        if chars_of(ev.duration.as_str()).len() > 0 {
            draw_text(c, FontId::Small, ev.duration.as_str(), dur_right, y + 9, C::Black, Align::Right);
        }
        assert forall|x: int, y: int| #![trigger c.px(x, y)] c.inside(x, y) implies c.px(x, y) == match agenda_rows_ink(items@, shipments@, mv, n_ships as int, i + 1, x, y) {
            Some(v) => v,
            None => c0.px(x, y),
        } by {
            assert(p2.inside(x, y) && p1.inside(x, y) && p0.inside(x, y));
            assert(items@[i as int] == *ev);
        }
        rows_used += 1;
        i += 1;
    }
}

// ── OPS panel ──────────────────────────────────────────────────────────────

/// Background and text colour of an alert's level pill.
pub open spec fn spec_pill_colors(level: Seq<char>) -> (C, C) {
    if level == "ERR"@ {
        (C::Red, C::White)
    } else if level == "WRN"@ {
        (C::Yellow, C::Black)
    } else {
        (C::Black, C::White)
    }
}

pub fn pill_colors(level: &str) -> (r: (C, C))
    ensures
        r == spec_pill_colors(level@),
{
    if str_is(level, "ERR") {
        (C::Red, C::White)
    } else if str_is(level, "WRN") {
        (C::Yellow, C::Black)
    } else {
        (C::Black, C::White)
    }
}

/// The OPS panel: one row per alert that fits, a coloured level pill and
/// the ellipsized message.
/// The OPS panel.
pub open spec fn ops_panel() -> Rect {
    Rect { x: (COL1_W + COL2_W) as i32, y: (BODY_TOP + ROW_H as i32) as i32, w: COL3_W, h: ROW_H }
}

/// The ink of pixel `(x, y)` of OPS row `i`, topmost first: the message
/// (ellipsized to 164 pixels) in black, the level centred on its pill in
/// the pill's text colour, the pill.
pub open spec fn alert_row_ink(a: Alert, i: int, x: int, y: int) -> Option<u8> {
    let ry = 285 + i * 14;
    let (bg, fg) = spec_pill_colors(a.level@);
    if text_px(FontId::Small, spec_clip_to_width(FontId::Small, a.message@, 164), 626, (ry + 9) as i32, Align::Left, x, y) {
        Some(0u8)
    } else if text_px(FontId::SmallBold, a.level@, 605, (ry + 9) as i32, Align::Center, x, y) {
        Some(color_index(fg))
    } else if in_box(590, ry, 30, 12, x, y) {
        Some(color_index(bg))
    } else {
        None
    }
}

/// The ink of the OPS panel with its first `k` rows drawn.
pub open spec fn ops_ink(alerts: Seq<Alert>, marker: Option<Seq<char>>, k: int, x: int, y: int) -> Option<u8>
    decreases k,
{
    if k <= 0 {
        section_header_ink(ops_panel(), "OPS"@, "// 05"@, marker, x, y)
    } else {
        match alert_row_ink(alerts[k - 1], k - 1, x, y) {
            Some(v) => Some(v),
            None => ops_ink(alerts, marker, k - 1, x, y),
        }
    }
}

/// Alert rows that fit the OPS panel.
pub open spec fn ops_rows(n: int) -> int {
    if n < 12 { n } else { 12 }
}

fn draw_ops(c: &mut Canvas, alerts: &Vec<Alert>, marker: &Option<String>)
    requires
        layout_canvas(old(c)),
    ensures
        layout_canvas(final(c)),
        overlaid(old(c), final(c), |x: int, y: int| ops_ink(alerts@, crate::alerts::opt_view(*marker), ops_rows(alerts@.len() as int), x, y)),
{
    let ghost c0 = *c;
    let panel = col3_bot();
    let content_y = draw_section_header(c, panel, "OPS", "// 05", marker);
    proof {
        reveal_strlit("OPS");
        reveal_strlit("// 05");
    }
    let pad_x = 10i32;
    let alert_h = 14i32;
    let bottom_pad = 4i32;
    let avail0 = panel.bottom() - bottom_pad - content_y;
    let avail = if avail0 > 0 { avail0 } else { 0 };
    let max_alerts = (avail / alert_h) as usize;
    let n = if alerts.len() < max_alerts { alerts.len() } else { max_alerts };
    let pill_w = 30u32;
    let msg_w = panel.w - pad_x as u32 * 2 - pill_w - 6;
    let mut i: usize = 0;
    while i < n
        invariant
            layout_canvas(c),
            n <= alerts@.len(),
            n <= 12,
            i <= n,
            alert_h == 14,
            pad_x == 10,
            pill_w == 30,
            content_y == 285,
            panel == (Rect { x: (COL1_W + COL2_W) as i32, y: (BODY_TOP + ROW_H as i32) as i32, w: COL3_W, h: ROW_H }),
            msg_w == 164,
            n == ops_rows(alerts@.len() as int),
            c.w == c0.w,
            c.h == c0.h,
            overlaid(&c0, c, |x: int, y: int| ops_ink(alerts@, crate::alerts::opt_view(*marker), i as int, x, y)),
        decreases n - i,
    {
        let a = &alerts[i];
        let y = content_y + (i as i32) * alert_h;
        let (bg, fg) = pill_colors(a.level.as_str());
        let ghost p0 = *c;
        c.fill_rect(Rect::new(panel.x + pad_x, y, pill_w, 12), bg);
        let ghost p1 = *c;
        draw_text(c, FontId::SmallBold, a.level.as_str(), panel.x + pad_x + (pill_w / 2) as i32, y + 9, fg, Align::Center);
        let ghost p2 = *c;
        let msg = clip_to_width(FontId::Small, a.message.as_str(), msg_w);
        draw_text(c, FontId::Small, msg.as_str(), panel.x + pad_x + pill_w as i32 + 6, y + 9, C::Black, Align::Left);
        assert forall|x: int, y: int| #![trigger c.px(x, y)] c.inside(x, y) implies c.px(x, y) == match ops_ink(alerts@, crate::alerts::opt_view(*marker), i + 1, x, y) {
            Some(v) => v,
            None => c0.px(x, y),
        } by {
            assert(p2.inside(x, y) && p1.inside(x, y) && p0.inside(x, y));
            assert(alerts@[i as int] == *a);
        }
        i += 1;
    }
}


// ── SYS panel ──────────────────────────────────────────────────────────────

/// A per-host figure the summary can average.
#[derive(Copy, Clone, Debug, PartialEq, Eq, Structural)]
pub enum HostField {
    Cpu,
    Ram,
    Disk,
    Temp,
}

pub open spec fn field_of(h: HostData, f: HostField) -> int {
    match f {
        HostField::Cpu => h.cpu as int,
        HostField::Ram => h.ram_pct as int,
        HostField::Disk => h.disk_pct as int,
        HostField::Temp => h.cpu_temp as int,
    }
}

/// Sum of a figure over the first `n` hosts.
pub open spec fn field_sum(hs: Seq<HostData>, f: HostField, n: int) -> int
    decreases n,
{
    if n <= 0 {
        0
    } else {
        field_sum(hs, f, n - 1) + field_of(hs[n - 1], f)
    }
}

/// Integer mean of a figure over all hosts, 0 without hosts.
pub open spec fn field_mean(hs: Seq<HostData>, f: HostField) -> int {
    if hs.len() == 0 {
        0
    } else {
        field_sum(hs, f, hs.len() as int) / (hs.len() as int)
    }
}

pub proof fn lemma_field_sum_bound(hs: Seq<HostData>, f: HostField, n: int)
    requires
        0 <= n <= hs.len(),
    ensures
        0 <= field_sum(hs, f, n) <= 255 * n,
    decreases n,
{
    if n > 0 {
        lemma_field_sum_bound(hs, f, n - 1);
    }
}

fn field_value(h: &HostData, f: HostField) -> (r: u8)
    ensures
        r as int == field_of(*h, f),
{
    match f {
        HostField::Cpu => h.cpu,
        HostField::Ram => h.ram_pct,
        HostField::Disk => h.disk_pct,
        HostField::Temp => h.cpu_temp,
    }
}

pub fn field_avg(hosts: &Vec<HostData>, f: HostField) -> (r: u32)
    ensures
        r as int == field_mean(hosts@, f),
{
    let n = hosts.len();
    if n == 0 {
        return 0;
    }
    let mut sum: u128 = 0;
    let mut i: usize = 0;
    while i < n
        invariant
            n == hosts@.len(),
            i <= n,
            sum as int == field_sum(hosts@, f, i as int),
        decreases n - i,
    {
        proof {
            lemma_field_sum_bound(hosts@, f, i as int);
        }
        sum = sum + field_value(&hosts[i], f) as u128;
        i += 1;
    }
    proof {
        lemma_field_sum_bound(hosts@, f, n as int);
        assert(sum as int / n as int <= 255) by (nonlinear_arith)
            requires
                0 <= sum <= 255 * n,
                n >= 1,
        ;
    }
    (sum / n as u128) as u32
}

/// The four summary cells: CPU, RAM and disk from the cluster rollup when
/// there is one, else the mean over hosts; temperature always the mean.
pub open spec fn spec_sys_cells(hs: Seq<HostData>, cluster: Option<ClusterMetrics>) -> Seq<int> {
    match cluster {
        Some(m) => seq![m.cpu_pct as int, m.ram_pct as int, m.disk_pct as int, field_mean(hs, HostField::Temp)],
        None => seq![
            field_mean(hs, HostField::Cpu),
            field_mean(hs, HostField::Ram),
            field_mean(hs, HostField::Disk),
            field_mean(hs, HostField::Temp),
        ],
    }
}

pub fn sys_cells(hosts: &Vec<HostData>, cluster: Option<&ClusterMetrics>) -> (r: [u32; 4])
    ensures
        r@.map_values(|v: u32| v as int) == spec_sys_cells(hosts@, match cluster { Some(m) => Some(*m), None => None }),
{
    let cpu = match cluster { Some(m) => m.cpu_pct as u32, None => field_avg(hosts, HostField::Cpu) };
    let ram = match cluster { Some(m) => m.ram_pct as u32, None => field_avg(hosts, HostField::Ram) };
    let dsk = match cluster { Some(m) => m.disk_pct as u32, None => field_avg(hosts, HostField::Disk) };
    let tmp = field_avg(hosts, HostField::Temp);
    let r = [cpu, ram, dsk, tmp];
    assert(r@.map_values(|v: u32| v as int) =~= spec_sys_cells(hosts@, match cluster { Some(m) => Some(*m), None => None }));
    r
}

/// Width of a bar's fill: the share `min(v, 100) / 100` of `inner` pixels,
/// rounded down.
pub open spec fn spec_fill_width(inner: u32, v: u32) -> int {
    inner * (if v < 100 { v } else { 100 }) / 100
}

pub fn fill_width(inner: u32, v: u32) -> (r: u32)
    ensures
        r as int == spec_fill_width(inner, v),
        r <= inner,
{
    let m = if v < 100 { v } else { 100 };
    assert(inner * m <= 0xffff_ffff * 100) by (nonlinear_arith)
        requires
            inner <= 0xffff_ffff,
            m <= 100,
    ;
    assert(inner * m / 100 <= inner) by (nonlinear_arith)
        requires
            m <= 100,
    ;
    ((inner as u64) * (m as u64) / 100) as u32
}

/// `"<v>%"`.
pub fn pct_label(v: u32) -> (r: String)
    ensures
        r@ == dec(v as nat) + "%"@,
{
    let mut out: Vec<char> = Vec::new();
    push_dec(&mut out, v as u64);
    push_str(&mut out, "%");
    string_from_chars(&out)
}

/// `"<n>°"` for a non-negative reading.
pub fn unsigned_deg_label(v: u32) -> (r: String)
    ensures
        r@ == dec(v as nat) + "°"@,
{
    let mut out: Vec<char> = Vec::new();
    push_dec(&mut out, v as u64);
    push_str(&mut out, "°");
    string_from_chars(&out)
}

/// RAM as `"<used>G/<total>G"`, the used amount with one decimal (held in
/// tenths of a GiB), the total in whole GiB.
pub fn ram_label(used_dgib: u32, total_gib: u32) -> (r: String)
    ensures
        r@ == dec((used_dgib / 10) as nat) + "."@ + dec((used_dgib % 10) as nat) + "G/"@ + dec(total_gib as nat) + "G"@,
{
    let mut out: Vec<char> = Vec::new();
    push_dec(&mut out, (used_dgib / 10) as u64);
    push_str(&mut out, ".");
    push_dec(&mut out, (used_dgib % 10) as u64);
    push_str(&mut out, "G/");
    push_dec(&mut out, total_gib as u64);
    push_str(&mut out, "G");
    string_from_chars(&out)
}

/// A reading above 70 is drawn in red.
pub open spec fn alarm_color(v: int) -> C {
    if v > 70 { C::Red } else { C::Black }
}

fn alarm(v: u32) -> (r: C)
    ensures
        r == alarm_color(v as int),
{
    if v > 70 { C::Red } else { C::Black }
}

/// One summary cell: label, big number with its unit, and a meter bar.
/// The ink of pixel `(x, y)` of the summary cell at `(cx, cy)`, topmost
/// first: the gauge fill in its alarm colour, the gauge outline, the red
/// unit, the big value, the label, the cell outline.
pub open spec fn sys_cell_ink(cx: int, cy: int, cell_w: int, lbl: Seq<char>, val: u32, unit: Seq<char>, x: int, y: int) -> Option<u8> {
    let num = dec_int(val as int);
    let val_w = capped(spec_text_width(FontId::HugeBold, num)) as int;
    let bar_w = cell_w - 8;
    let fw = spec_fill_width((if bar_w >= 2 { bar_w - 2 } else { 0 }) as u32, val);
    if in_box(cx + 5, cy + 48, fw, 4, x, y) {
        Some(color_index(alarm_color(val as int)))
    } else if stroke_region(Rect { x: (cx + 4) as i32, y: (cy + 47) as i32, w: bar_w as u32, h: 6 }, 1, x, y) {
        Some(0u8)
    } else if text_px(FontId::Body, unit, (cx + 6 + val_w) as i32, (cy + 38) as i32, Align::Left, x, y) {
        Some(3u8)
    } else if text_px(FontId::HugeBold, num, (cx + 4) as i32, (cy + 38) as i32, Align::Left, x, y) {
        Some(0u8)
    } else if text_px(FontId::SmallBold, lbl, (cx + 4) as i32, (cy + 12) as i32, Align::Left, x, y) {
        Some(0u8)
    } else if stroke_region(Rect { x: cx as i32, y: cy as i32, w: cell_w as u32, h: 58 }, 1, x, y) {
        Some(0u8)
    } else {
        None
    }
}

fn draw_sys_cell(c: &mut Canvas, cx: i32, cy: i32, cell_w: u32, cell_h: u32, lbl: &str, val: u32, unit: &str)
    requires
        layout_canvas(old(c)),
        0 <= cx <= 1000,
        0 <= cy <= 1000,
        8 <= cell_w <= 1000,
        cell_h == 58,
    ensures
        layout_canvas(final(c)),
        overlaid(old(c), final(c), |x: int, y: int| sys_cell_ink(cx as int, cy as int, cell_w as int, lbl@, val, unit@, x, y)),
{
    let ghost c0 = *c;
    c.stroke_rect(Rect::new(cx, cy, cell_w, cell_h), 1, C::Black);
    let ghost c1 = *c;
    draw_text(c, FontId::SmallBold, lbl, cx + 4, cy + 12, C::Black, Align::Left);
    let ghost c2 = *c;
    let num = fmt_int(val as i64);
    draw_text(c, FontId::HugeBold, num.as_str(), cx + 4, cy + 38, C::Black, Align::Left);
    let ghost c3 = *c;
    let val_w = cap_width(text_width(FontId::HugeBold, num.as_str())) as i32;
    draw_text(c, FontId::Body, unit, cx + 6 + val_w, cy + 38, C::Red, Align::Left);
    let ghost c4 = *c;
    let bar = Rect::new(cx + 4, cy + 47, cell_w - 8, 6);
    c.stroke_rect(bar, 1, C::Black);
    let ghost c5 = *c;
    let fw = fill_width(bar.w.saturating_sub(2), val);
    c.fill_rect(Rect::new(bar.x + 1, bar.y + 1, fw, 4), alarm(val));
    assert forall|x: int, y: int| #![trigger c.px(x, y)] c.inside(x, y) implies c.px(x, y) == match sys_cell_ink(cx as int, cy as int, cell_w as int, lbl@, val, unit@, x, y) {
        Some(v) => v,
        None => c0.px(x, y),
    } by {
        assert(c5.inside(x, y) && c4.inside(x, y) && c3.inside(x, y) && c2.inside(x, y) && c1.inside(x, y));
    }
}

/// One host row: uppercased ellipsized name, CPU %, RAM used/total and
/// temperature, each figure red above 70.
/// The ink of pixel `(px, py)` of a host row at `(x, y)`, topmost first:
/// temperature, RAM and CPU figures right-aligned in their alarm colours,
/// and the uppercased, clipped host name in black.
pub open spec fn host_row_ink(h: HostData, x: int, y: int, name_max_w: u32, cpu_right: int, ram_right: int, tmp_right: int, px: int, py: int) -> Option<u8> {
    let b = (y + 9) as i32;
    if text_px(FontId::Small, dec(h.cpu_temp as nat) + "°"@, tmp_right as i32, b, Align::Right, px, py) {
        Some(color_index(alarm_color(h.cpu_temp as int)))
    } else if text_px(FontId::Small, dec((h.ram_used_dgib / 10) as nat) + "."@ + dec((h.ram_used_dgib % 10) as nat) + "G/"@ + dec(h.ram_total_gib as nat) + "G"@, ram_right as i32, b, Align::Right, px, py) {
        Some(color_index(alarm_color(h.ram_pct as int)))
    } else if text_px(FontId::Small, dec(h.cpu as nat) + "%"@, cpu_right as i32, b, Align::Right, px, py) {
        Some(color_index(alarm_color(h.cpu as int)))
    } else if text_px(FontId::SmallBold, spec_clip_to_width(FontId::SmallBold, spec_to_uppercase(h.name@), name_max_w), x as i32, b, Align::Left, px, py) {
        Some(0u8)
    } else {
        None
    }
}

fn draw_host_row(c: &mut Canvas, h: &HostData, x: i32, y: i32, name_max_w: u32, cpu_right: i32, ram_right: i32, tmp_right: i32)
    requires
        layout_canvas(old(c)),
        0 <= x <= 1000,
        0 <= y <= 1000,
        0 <= cpu_right <= 1000,
        0 <= ram_right <= 1000,
        0 <= tmp_right <= 1000,
    ensures
        layout_canvas(final(c)),
        overlaid(old(c), final(c), |px: int, py: int| host_row_ink(*h, x as int, y as int, name_max_w, cpu_right as int, ram_right as int, tmp_right as int, px, py)),
{
    let ghost c0 = *c;
    let upper = to_uppercase(h.name.as_str());
    let name = clip_to_width(FontId::SmallBold, upper.as_str(), name_max_w);
    draw_text(c, FontId::SmallBold, name.as_str(), x, y + 9, C::Black, Align::Left);
    let ghost c1 = *c;
    let cpu = pct_label(h.cpu as u32);
    draw_text(c, FontId::Small, cpu.as_str(), cpu_right, y + 9, alarm(h.cpu as u32), Align::Right);
    let ghost c2 = *c;
    let ram = ram_label(h.ram_used_dgib, h.ram_total_gib);
    draw_text(c, FontId::Small, ram.as_str(), ram_right, y + 9, alarm(h.ram_pct as u32), Align::Right);
    let ghost c3 = *c;
    let tmp = unsigned_deg_label(h.cpu_temp as u32);
    draw_text(c, FontId::Small, tmp.as_str(), tmp_right, y + 9, alarm(h.cpu_temp as u32), Align::Right);
    assert forall|px: int, py: int| #![trigger c.px(px, py)] c.inside(px, py) implies c.px(px, py) == match host_row_ink(*h, x as int, y as int, name_max_w, cpu_right as int, ram_right as int, tmp_right as int, px, py) {
        Some(v) => v,
        None => c0.px(px, py),
    } by {
        assert(c3.inside(px, py) && c2.inside(px, py) && c1.inside(px, py));
    }
}

/// The SYS panel (right column, top): four summary cells (CPU, RAM, DSK,
/// TMP) and up to six host rows.
pub open spec fn sys_panel() -> Rect {
    Rect { x: (COL1_W + COL2_W) as i32, y: BODY_TOP, w: COL3_W, h: ROW_H }
}

/// Label and unit of summary cell `i`.
pub open spec fn cell_label(i: int) -> Seq<char> {
    if i == 0 { "CPU"@ } else if i == 1 { "RAM"@ } else if i == 2 { "DSK"@ } else { "TMP"@ }
}

pub open spec fn cell_unit(i: int) -> Seq<char> {
    if i == 3 { "°"@ } else { "%"@ }
}

/// The SYS panel's ink with its first `k` summary cells drawn, 43 pixels
/// wide on a 51-pixel pitch.
pub open spec fn sys_cells_ink(vals: Seq<int>, marker: Option<Seq<char>>, k: int, x: int, y: int) -> Option<u8>
    decreases k,
{
    if k <= 0 {
        section_header_ink(sys_panel(), "SYS"@, "// 03"@, marker, x, y)
    } else {
        match sys_cell_ink(592 + (k - 1) * 51, 78, 43, cell_label(k - 1), vals[k - 1] as u32, cell_unit(k - 1), x, y) {
            Some(v) => Some(v),
            None => sys_cells_ink(vals, marker, k - 1, x, y),
        }
    }
}

/// The SYS panel's ink with the four cells and the first `k` host rows
/// drawn below them.
pub open spec fn sys_rows_ink(hosts: Seq<HostData>, vals: Seq<int>, marker: Option<Seq<char>>, k: int, x: int, y: int) -> Option<u8>
    decreases k,
{
    if k <= 0 {
        sys_cells_ink(vals, marker, 4, x, y)
    } else {
        match host_row_ink(hosts[k - 1], 592, 142 + (k - 1) * 14, 42, 674, 752, 788, x, y) {
            Some(v) => Some(v),
            None => sys_rows_ink(hosts, vals, marker, k - 1, x, y),
        }
    }
}

/// The SYS panel's ink: the stamp and `PROMETHEUS_URL NOT SET` with no
/// data, else the CPU/RAM/DSK/TMP cells and up to six host rows.
pub open spec fn sys_ink(hosts: Seq<HostData>, cluster: Option<ClusterMetrics>, marker: Option<Seq<char>>, x: int, y: int) -> Option<u8> {
    if hosts.len() == 0 && cluster is None {
        if text_px(FontId::Small, "PROMETHEUS_URL NOT SET"@, 592, 96, Align::Left, x, y) {
            Some(0u8)
        } else {
            section_header_ink(sys_panel(), "SYS"@, "// 03"@, marker, x, y)
        }
    } else {
        sys_rows_ink(hosts, spec_sys_cells(hosts, cluster), marker, if hosts.len() < 6 { hosts.len() as int } else { 6 }, x, y)
    }
}

fn draw_sys(c: &mut Canvas, hosts: &Vec<HostData>, cluster: Option<&ClusterMetrics>, marker: &Option<String>)
    requires
        layout_canvas(old(c)),
    ensures
        layout_canvas(final(c)),
        overlaid(old(c), final(c), |x: int, y: int| sys_ink(hosts@, match cluster { Some(m) => Some(*m), None => None }, crate::alerts::opt_view(*marker), x, y)),
{
    let ghost c0 = *c;
    let ghost mv = crate::alerts::opt_view(*marker);
    let ghost cl = match cluster { Some(m) => Some(*m), None => None };
    let panel = col3_top();
    let content_y = draw_section_header(c, panel, "SYS", "// 03", marker);
    if hosts.len() == 0 && cluster.is_none() {
        let ghost c1 = *c;
        draw_text(c, FontId::Small, "PROMETHEUS_URL NOT SET", panel.x + 12, content_y + 18, C::Black, Align::Left);
        assert forall|x: int, y: int| #![trigger c.px(x, y)] c.inside(x, y) implies c.px(x, y) == match sys_ink(hosts@, cl, mv, x, y) {
            Some(v) => v,
            None => c0.px(x, y),
        } by {
            assert(c1.inside(x, y));
        }
        return;
    }
    let cells = sys_cells(hosts, cluster);
    let ghost vals = spec_sys_cells(hosts@, cl);
    let pad_x = 12i32;
    let cell_w = (panel.w - pad_x as u32 * 2 - 24) / 4;
    let cell_gap = 8i32;
    let cell_h = 58u32;
    let mut i: usize = 0;
    while i < 4
        invariant
            i <= 4,
            layout_canvas(c),
            cell_w == 43,
            cell_h == 58,
            content_y == 78,
            pad_x == 12,
            cell_gap == 8,
            panel == (Rect { x: (COL1_W + COL2_W) as i32, y: BODY_TOP, w: COL3_W, h: ROW_H }),
            cells@.map_values(|v: u32| v as int) == vals,
            c.w == c0.w,
            c.h == c0.h,
            overlaid(&c0, c, |x: int, y: int| sys_cells_ink(vals, mv, i as int, x, y)),
        decreases 4 - i,
    {
        let pitch = cell_w as i32 + cell_gap;
        assert(0 <= (i as i32) * pitch <= 153) by (nonlinear_arith)
            requires
                0 <= i < 4,
                pitch == 51,
        ;
        let cx = panel.x + pad_x + (i as i32) * pitch;
        let (lbl, unit) = if i == 0 {
            ("CPU", "%")
        } else if i == 1 {
            ("RAM", "%")
        } else if i == 2 {
            ("DSK", "%")
        } else {
            ("TMP", "°")
        };
        assert(lbl@ == cell_label(i as int) && unit@ == cell_unit(i as int));
        assert(cells[i as int] as int == vals[i as int]);
        let ghost p0 = *c;
        draw_sys_cell(c, cx, content_y, cell_w, cell_h, lbl, cells[i], unit);
        assert forall|x: int, y: int| #![trigger c.px(x, y)] c.inside(x, y) implies c.px(x, y) == match sys_cells_ink(vals, mv, i + 1, x, y) {
            Some(v) => v,
            None => c0.px(x, y),
        } by {
            assert(p0.inside(x, y));
        }
        i += 1;
    }
    let list_y = content_y + cell_h as i32 + 6;
    let row_h = 14i32;
    let max_rows = if hosts.len() < 6 { hosts.len() } else { 6 };
    let cols_right_edge = panel.right() - pad_x;
    let cpu_w = 36i32;
    let ram_w = 78i32;
    let tmp_w = 36i32;
    let cpu_right = cols_right_edge - tmp_w - ram_w;
    let ram_right = cols_right_edge - tmp_w;
    let tmp_right = cols_right_edge;
    let cols_left_edge = cpu_right - cpu_w;
    let nw = cols_left_edge - (panel.x + pad_x) - 4;
    let name_max_w = (if nw > 40 { nw } else { 40 }) as u32;
    let mut k: usize = 0;
    while k < max_rows
        invariant
            k <= max_rows,
            max_rows <= 6,
            max_rows <= hosts@.len(),
            layout_canvas(c),
            list_y == 142,
            row_h == 14,
            pad_x == 12,
            cpu_right == 674,
            ram_right == 752,
            tmp_right == 788,
            name_max_w == 42,
            max_rows == (if hosts@.len() < 6 { hosts@.len() as int } else { 6 }),
            panel == (Rect { x: (COL1_W + COL2_W) as i32, y: BODY_TOP, w: COL3_W, h: ROW_H }),
            c.w == c0.w,
            c.h == c0.h,
            overlaid(&c0, c, |x: int, y: int| sys_rows_ink(hosts@, vals, mv, k as int, x, y)),
        decreases max_rows - k,
    {
        let y = list_y + (k as i32) * row_h;
        let ghost p0 = *c;
        draw_host_row(c, &hosts[k], panel.x + pad_x, y, name_max_w, cpu_right, ram_right, tmp_right);
        assert forall|x: int, y: int| #![trigger c.px(x, y)] c.inside(x, y) implies c.px(x, y) == match sys_rows_ink(hosts@, vals, mv, k + 1, x, y) {
            Some(v) => v,
            None => c0.px(x, y),
        } by {
            assert(p0.inside(x, y));
        }
        k += 1;
    }
}


// ── Budget triage ──────────────────────────────────────────────────────────
//
// A day-to-day envelope is flagged OVER once its balance (carryover +
// budgeted − spent) is negative: it is then genuinely out of money, while
// one that overshot this month but is still covered by funds carried over
// is not. Fixed envelopes are only summed with what is left to pay of them.

/// A day-to-day envelope that is out of money.
pub open spec fn is_over(c: BudgetCat) -> bool {
    c.class == BudgetClass::Variable && c.balance < 0
}

/// The most flagged envelopes the panel lists.
pub const MAX_FLAGGED: usize = 2;

/// The budget's triage.
pub struct Triage {
    /// Indices of the flagged envelopes, in category order.
    pub flagged: Vec<usize>,
    pub on_track_count: u64,
    /// What is left (never below 0 each) of the on-track envelopes.
    pub on_track_left: i128,
    pub fixed_count: u64,
    pub fixed_remaining: i128,
}

pub open spec fn left_of(c: BudgetCat) -> int {
    if c.cap as int - c.spent as int > 0 { c.cap as int - c.spent as int } else { 0 }
}

/// Indices, in order, of the flagged envelopes among the first `n`.
pub open spec fn spec_flagged(cats: Seq<BudgetCat>, n: int) -> Seq<usize>
    decreases n,
{
    if n <= 0 {
        seq![]
    } else if is_over(cats[n - 1]) {
        spec_flagged(cats, n - 1).push((n - 1) as usize)
    } else {
        spec_flagged(cats, n - 1)
    }
}

/// Count and total left of the envelopes with a cap among the first `n`
/// that are fixed (`fixed`) or neither fixed nor flagged (on track).
pub open spec fn spec_tally(cats: Seq<BudgetCat>, n: int, fixed: bool) -> (int, int)
    decreases n,
{
    if n <= 0 {
        (0, 0)
    } else {
        let prev = spec_tally(cats, n - 1, fixed);
        let c = cats[n - 1];
        let counted = c.cap != 0 && if fixed {
            c.class == BudgetClass::Fixed
        } else {
            c.class != BudgetClass::Fixed && !is_over(c)
        };
        if counted { (prev.0 + 1, prev.1 + left_of(c)) } else { prev }
    }
}

pub open spec fn triage_of(t: Triage, cats: Seq<BudgetCat>) -> bool {
    &&& t.flagged@ == spec_flagged(cats, cats.len() as int)
    &&& (t.on_track_count as int, t.on_track_left as int) == spec_tally(cats, cats.len() as int, false)
    &&& (t.fixed_count as int, t.fixed_remaining as int) == spec_tally(cats, cats.len() as int, true)
}

proof fn lemma_tally_bound(cats: Seq<BudgetCat>, n: int, fixed: bool)
    requires
        0 <= n <= cats.len(),
    ensures
        0 <= spec_tally(cats, n, fixed).0 <= n,
        0 <= spec_tally(cats, n, fixed).1 <= n * 0x1_0000_0000,
    decreases n,
{
    if n > 0 {
        lemma_tally_bound(cats, n - 1, fixed);
    }
}

/// Every flagged index names a flagged envelope among the first `n`.
proof fn lemma_flagged_entries(cats: Seq<BudgetCat>, n: int)
    requires
        0 <= n <= cats.len(),
        cats.len() <= usize::MAX,
    ensures
        spec_flagged(cats, n).len() <= n,
        forall|k: int| 0 <= k < spec_flagged(cats, n).len() ==> {
            let j = #[trigger] spec_flagged(cats, n)[k];
            &&& (j as int) < n
            &&& is_over(cats[j as int])
        },
    decreases n,
{
    if n > 0 {
        lemma_flagged_entries(cats, n - 1);
    }
}

/// Triages the envelopes of `b`.
pub fn triage(b: &BudgetData) -> (r: Triage)
    ensures
        triage_of(r, b.cats@),
{
    let ghost cats = b.cats@;
    let mut flagged: Vec<usize> = Vec::new();
    let mut on_count: u64 = 0;
    let mut on_left: i128 = 0;
    let mut fx_count: u64 = 0;
    let mut fx_left: i128 = 0;
    let n = b.cats.len();
    let mut i: usize = 0;
    while i < n
        invariant
            n == cats.len(),
            cats == b.cats@,
            i <= n,
            flagged@ == spec_flagged(cats, i as int),
            (on_count as int, on_left as int) == spec_tally(cats, i as int, false),
            (fx_count as int, fx_left as int) == spec_tally(cats, i as int, true),
        decreases n - i,
    {
        proof {
            lemma_tally_bound(cats, i as int, false);
            lemma_tally_bound(cats, i as int, true);
        }
        let cat = &b.cats[i];
        let over = cat.class == BudgetClass::Variable && cat.balance < 0;
        if over {
            flagged.push(i);
        }
        if cat.cap != 0 {
            let left: i128 = if (cat.cap as i128) - (cat.spent as i128) > 0 { (cat.cap as i128) - (cat.spent as i128) } else { 0 };
            if cat.class == BudgetClass::Fixed {
                fx_count = fx_count + 1;
                fx_left = fx_left + left;
            } else if !over {
                on_count = on_count + 1;
                on_left = on_left + left;
            }
        }
        i += 1;
    }
    Triage {
        flagged,
        on_track_count: on_count,
        on_track_left: on_left,
        fixed_count: fx_count,
        fixed_remaining: fx_left,
    }
}

// ── Budget panel ───────────────────────────────────────────────────────────

/// `"€<n>"` for money left, `"-€<n>"` for money overspent.
pub open spec fn spec_hero_amount(remaining: int) -> Seq<char> {
    if remaining >= 0 {
        "€"@ + dec(remaining as nat)
    } else {
        "-€"@ + dec((-remaining) as nat)
    }
}

pub fn hero_amount(remaining: i64) -> (r: String)
    requires
        remaining > i64::MIN,
    ensures
        r@ == spec_hero_amount(remaining as int),
{
    let mut out: Vec<char> = Vec::new();
    if remaining >= 0 {
        push_str(&mut out, "€");
        push_dec(&mut out, remaining as u64);
    } else {
        push_str(&mut out, "-€");
        push_dec(&mut out, (-remaining) as u64);
    }
    string_from_chars(&out)
}

/// Days left in the month, today included.
pub open spec fn spec_days_left(dim: u32, day: u32) -> int {
    (if dim > day { dim - day } else { 0 }) + 1
}

/// What may be spent per remaining day to keep within the money left.
pub open spec fn spec_per_day(remaining: int, days_left: int) -> int {
    if days_left == 0 { 0 } else { (if remaining > 0 { remaining } else { 0 }) / days_left }
}

/// Days left in the month counting today, and what may be spent per day
/// of them to stay within `remaining`.
pub fn runway(dim: u32, day: u32, remaining: i64) -> (r: (u32, u64))
    requires
        day >= 1,
    ensures
        r.0 == spec_days_left(dim, day),
        r.1 == spec_per_day(remaining as int, r.0 as int),
{
    let days_left = dim.saturating_sub(day) + 1;
    let per_day: u64 = if days_left == 0 {
        0
    } else {
        (if remaining > 0 { remaining as u64 } else { 0 }) / (days_left as u64)
    };
    (days_left, per_day)
}

/// `"<d>D LEFT · €<p>/D AVG"`.
pub fn days_line(days_left: u32, per_day: u64) -> (r: String)
    ensures
        r@ == dec(days_left as nat) + "D LEFT · €"@ + dec(per_day as nat) + "/D AVG"@,
{
    let mut out: Vec<char> = Vec::new();
    push_dec(&mut out, days_left as u64);
    push_str(&mut out, "D LEFT · €");
    push_dec(&mut out, per_day);
    push_str(&mut out, "/D AVG");
    string_from_chars(&out)
}

/// `"OVER (<n>)"`.
pub fn over_header(n: usize) -> (r: String)
    ensures
        r@ == "OVER ("@ + dec(n as nat) + ")"@,
{
    let mut out: Vec<char> = Vec::new();
    push_str(&mut out, "OVER (");
    push_dec(&mut out, n as u64);
    push_str(&mut out, ")");
    string_from_chars(&out)
}

/// `"ON TRACK (<n>): €<left> LEFT"`.
pub fn on_track_line(count: u64, left: u128) -> (r: String)
    ensures
        r@ == "ON TRACK ("@ + dec(count as nat) + "): €"@ + dec(left as nat) + " LEFT"@,
{
    let mut out: Vec<char> = Vec::new();
    push_str(&mut out, "ON TRACK (");
    push_dec(&mut out, count);
    push_str(&mut out, "): €");
    push_dec_wide(&mut out, left);
    push_str(&mut out, " LEFT");
    string_from_chars(&out)
}

/// `"FIXED    (<n>): PAID"` when nothing is left to pay, else
/// `"FIXED    (<n>): €<left> PENDING"`.
pub fn fixed_line(count: u64, remaining: u128) -> (r: String)
    ensures
        r@ == if remaining == 0 {
            "FIXED    ("@ + dec(count as nat) + "): PAID"@
        } else {
            "FIXED    ("@ + dec(count as nat) + "): €"@ + dec(remaining as nat) + " PENDING"@
        },
{
    let mut out: Vec<char> = Vec::new();
    push_str(&mut out, "FIXED    (");
    push_dec(&mut out, count);
    if remaining == 0 {
        push_str(&mut out, "): PAID");
    } else {
        push_str(&mut out, "): €");
        push_dec_wide(&mut out, remaining);
        push_str(&mut out, " PENDING");
    }
    string_from_chars(&out)
}

/// The budget panel (middle column, below the agenda): money left (or
/// overspent) for the month, the days left with the daily allowance, the
/// month's gauge, at most two envelopes flagged OVER, and the on-track and
/// fixed summaries.
pub open spec fn budget_panel() -> Rect {
    Rect { x: COL1_W as i32, y: (BODY_TOP + ROW_H as i32) as i32, w: COL2_W, h: ROW_H }
}

/// What is left of the month's budget, in euros (negative when over).
pub open spec fn budget_remaining(b: BudgetData) -> int {
    b.cap as int - b.spent as int
}

/// The ink of pixel `(x, y)` of flagged row `i`, for envelope `j`: its
/// clipped label, a red `OVER` tag and its balance in red, right-aligned.
pub open spec fn flagged_row_ink(b: BudgetData, j: int, i: int, x: int, y: int) -> Option<u8> {
    let by = (364 + i * 12) as i32;
    let c = b.cats@[j];
    if text_px(FontId::Small, spec_hero_amount(c.balance as int), 570, by, Align::Right, x, y) {
        Some(3u8)
    } else if text_px(FontId::SmallBold, "OVER"@, 348, by, Align::Left, x, y) {
        Some(3u8)
    } else if text_px(FontId::Small, spec_clip_to_chars(c.label@, 12), 270, by, Align::Left, x, y) {
        Some(0u8)
    } else {
        None
    }
}

/// The budget panel's ink down to the triage header: the flagged count in
/// red or `ALL COVERED` in green, the gauge fill in red, the gauge
/// outline, the runway line, the month, the `LEFT`/`OVER` suffix and the
/// hero amount (red when over), the stamp.
pub open spec fn budget_top_ink(b: BudgetData, now: LocalStamp, marker: Option<Seq<char>>, x: int, y: int) -> Option<u8> {
    let rem = budget_remaining(b);
    let hero = spec_hero_amount(rem);
    let hero_ink = if rem >= 0 { 0u8 } else { 3u8 };
    let dim = spec_days_in_month(now.year, now.month);
    let dl = spec_days_left(dim, now.day);
    let pd = spec_per_day(rem, dl);
    let n_over = spec_flagged(b.cats@, b.cats@.len() as int).len();
    let shown = if b.spent < b.cap { b.spent } else { b.cap };
    if n_over > 0 && text_px(FontId::SmallBold, "OVER ("@ + dec(n_over) + ")"@, 270, 352, Align::Left, x, y) {
        Some(3u8)
    } else if n_over == 0 && text_px(FontId::SmallBold, "ALL COVERED"@, 270, 352, Align::Left, x, y) {
        Some(5u8)
    } else if b.cap != 0 && in_box(271, 328, 298 * shown / b.cap as int, 4, x, y) {
        Some(3u8)
    } else if stroke_region(Rect { x: 270, y: 327, w: 300, h: 6 }, 1, x, y) {
        Some(0u8)
    } else if text_px(FontId::Small, dec(dl as nat) + "D LEFT · €"@ + dec(pd as nat) + "/D AVG"@, 270, 321, Align::Left, x, y) {
        Some(0u8)
    } else if text_px(FontId::Small, b.month_label@, 570, 307, Align::Right, x, y) {
        Some(0u8)
    } else if text_px(FontId::SmallBold, if rem >= 0 { "LEFT"@ } else { "OVER"@ }, (276 + capped(spec_text_width(FontId::HugeBold, hero))) as i32, 307, Align::Left, x, y) {
        Some(hero_ink)
    } else if text_px(FontId::HugeBold, hero, 270, 307, Align::Left, x, y) {
        Some(hero_ink)
    } else {
        section_header_ink(budget_panel(), "€"@, "// 04"@, marker, x, y)
    }
}

/// The budget panel's ink with its first `k` flagged rows drawn.
pub open spec fn budget_rows_ink(b: BudgetData, now: LocalStamp, marker: Option<Seq<char>>, k: int, x: int, y: int) -> Option<u8>
    decreases k,
{
    if k <= 0 {
        budget_top_ink(b, now, marker, x, y)
    } else {
        let j = spec_flagged(b.cats@, b.cats@.len() as int)[k - 1];
        match flagged_row_ink(b, j as int, k - 1, x, y) {
            Some(v) => Some(v),
            None => budget_rows_ink(b, now, marker, k - 1, x, y),
        }
    }
}

/// The budget panel's ink: a dash and `BUDGET NOT SET` without data; else
/// the hero, runway and gauge, at most two flagged rows, and the on-track
/// and fixed summaries at the bottom.
pub open spec fn budget_ink(b: Option<BudgetData>, now: LocalStamp, marker: Option<Seq<char>>, x: int, y: int) -> Option<u8> {
    match b {
        None => if text_px(FontId::Small, "BUDGET NOT SET"@, 270, 329, Align::Left, x, y) {
            Some(0u8)
        } else if text_px(FontId::LgBold, "—"@, 270, 309, Align::Left, x, y) {
            Some(0u8)
        } else {
            section_header_ink(budget_panel(), "€"@, "// 04"@, marker, x, y)
        },
        Some(d) => {
            let n_over = spec_flagged(d.cats@, d.cats@.len() as int).len() as int;
            let on = spec_tally(d.cats@, d.cats@.len() as int, false);
            let fx = spec_tally(d.cats@, d.cats@.len() as int, true);
            let fixed_text = if fx.1 == 0 {
                "FIXED    ("@ + dec(fx.0 as nat) + "): PAID"@
            } else {
                "FIXED    ("@ + dec(fx.0 as nat) + "): €"@ + dec(fx.1 as nat) + " PENDING"@
            };
            if text_px(FontId::Small, fixed_text, 270, 451, Align::Left, x, y) {
                Some(0u8)
            } else if text_px(FontId::Small, "ON TRACK ("@ + dec(on.0 as nat) + "): €"@ + dec(on.1 as nat) + " LEFT"@, 270, 439, Align::Left, x, y) {
                Some(0u8)
            } else {
                budget_rows_ink(d, now, marker, if n_over < MAX_FLAGGED as int { n_over } else { MAX_FLAGGED as int }, x, y)
            }
        },
    }
}

fn draw_budget(c: &mut Canvas, b: Option<&BudgetData>, now: &LocalStamp, marker: &Option<String>)
    requires
        layout_canvas(old(c)),
        now.wf(),
        now.year < i32::MAX,
    ensures
        layout_canvas(final(c)),
        overlaid(old(c), final(c), |x: int, y: int| budget_ink(match b { Some(d) => Some(*d), None => None }, *now, crate::alerts::opt_view(*marker), x, y)),
{
    let ghost c0 = *c;
    let ghost mv = crate::alerts::opt_view(*marker);
    let ghost bo = match b { Some(d) => Some(*d), None => None };
    let panel = col2_bot();
    let content_y = draw_section_header(c, panel, "€", "// 04", marker);
    let ghost c1 = *c;
    let b = match b {
        Some(b) => b,
        None => {
            draw_text(c, FontId::LgBold, "—", panel.x + 10, content_y + 24, C::Black, Align::Left);
            let ghost c2 = *c;
            draw_text(c, FontId::Small, "BUDGET NOT SET", panel.x + 10, content_y + 44, C::Black, Align::Left);
            assert forall|x: int, y: int| #![trigger c.px(x, y)] c.inside(x, y) implies c.px(x, y) == match budget_ink(bo, *now, mv, x, y) {
                Some(v) => v,
                None => c0.px(x, y),
            } by {
                assert(c2.inside(x, y) && c1.inside(x, y));
            }
            return;
        },
    };
    let pad_x = 10i32;
    let remaining: i64 = b.cap as i64 - b.spent as i64;
    let hero = hero_amount(remaining);
    let hero_color = if remaining >= 0 { C::Black } else { C::Red };
    draw_text(c, FontId::HugeBold, hero.as_str(), panel.x + pad_x, content_y + 22, hero_color, Align::Left);
    let ghost c2 = *c;
    let hero_w = cap_width(text_width(FontId::HugeBold, hero.as_str())) as i32;
    let suffix = if remaining >= 0 { "LEFT" } else { "OVER" };
    draw_text(c, FontId::SmallBold, suffix, panel.x + pad_x + hero_w + 6, content_y + 22, hero_color, Align::Left);
    let ghost c3 = *c;
    draw_text(c, FontId::Small, b.month_label.as_str(), panel.right() - pad_x, content_y + 22, C::Black, Align::Right);
    let ghost c4 = *c;

    let dim = days_in_month(now.year, now.month);
    let day = now.day;
    let (days_left, per_day) = runway(dim, day, remaining);
    let dl = days_line(days_left, per_day);
    draw_text(c, FontId::Small, dl.as_str(), panel.x + pad_x, content_y + 36, C::Black, Align::Left);
    let ghost c5 = *c;

    let bar = Rect::new(panel.x + pad_x, content_y + 42, (panel.w as i32 - pad_x * 2) as u32, 6);
    c.stroke_rect(bar, 1, C::Black);
    let ghost c6 = *c;
    if b.cap != 0 {
        let shown = if b.spent < b.cap { b.spent } else { b.cap };
        let inner = bar.w.saturating_sub(2) as u64;
        assert(inner * shown <= 300 * 0xffff_ffff) by (nonlinear_arith)
            requires
                inner <= 300,
                shown <= 0xffff_ffff,
        ;
        assert(inner * shown / (b.cap as int) <= inner) by (nonlinear_arith)
            requires
                shown <= b.cap,
                b.cap > 0,
                inner >= 0,
        ;
        let fill_w = (inner * (shown as u64) / (b.cap as u64)) as u32;
        c.fill_rect(Rect::new(bar.x + 1, bar.y + 1, fill_w, 4), C::Red);
    }
    let ghost c7 = *c;

    let t = triage(b);
    let row_h = 12i32;
    let header_y = content_y + 58;
    let summary_top = panel.bottom() - 4 - row_h * 2;
    let list_top = header_y + row_h;
    let n_over = t.flagged.len();
    let shown = if n_over < MAX_FLAGGED { n_over } else { MAX_FLAGGED };
    let ncats = b.cats.len();
    proof {
        lemma_flagged_entries(b.cats@, ncats as int);
    }
    if n_over > 0 {
        let hdr = over_header(n_over);
        draw_text(c, FontId::SmallBold, hdr.as_str(), panel.x + pad_x, header_y + 9, C::Red, Align::Left);
        assert forall|x: int, y: int| #![trigger c.px(x, y)] c.inside(x, y) implies c.px(x, y) == match budget_rows_ink(*b, *now, mv, 0, x, y) {
            Some(v) => v,
            None => c0.px(x, y),
        } by {
            assert(c7.inside(x, y) && c6.inside(x, y) && c5.inside(x, y) && c4.inside(x, y) && c3.inside(x, y) && c2.inside(x, y) && c1.inside(x, y));
        }
        let mut i: usize = 0;
        while i < shown
            invariant
                layout_canvas(c),
                i <= shown,
                shown <= MAX_FLAGGED,
                shown <= t.flagged@.len(),
                t.flagged@ == spec_flagged(b.cats@, b.cats@.len() as int),
                forall|k: int| 0 <= k < spec_flagged(b.cats@, b.cats@.len() as int).len() ==>
                    (#[trigger] spec_flagged(b.cats@, b.cats@.len() as int)[k] as int) < b.cats@.len(),
                list_top == 355,
                row_h == 12,
                pad_x == 10,
                panel == (Rect { x: COL1_W as i32, y: (BODY_TOP + ROW_H as i32) as i32, w: COL2_W, h: ROW_H }),
                c.w == c0.w,
                c.h == c0.h,
                overlaid(&c0, c, |x: int, y: int| budget_rows_ink(*b, *now, mv, i as int, x, y)),
            decreases shown - i,
        {
            let j = t.flagged[i];
            assert(t.flagged@[i as int] == j);
            let cat = &b.cats[j];
            let y = list_top + (i as i32) * row_h;
            let label = clip_to_chars(cat.label.as_str(), 12);
            let ghost p0 = *c;
            draw_text(c, FontId::Small, label.as_str(), panel.x + pad_x, y + 9, C::Black, Align::Left);
            let ghost p1 = *c;
            draw_text(c, FontId::SmallBold, "OVER", panel.x + pad_x + 78, y + 9, C::Red, Align::Left);
            let ghost p2 = *c;
            let bal = hero_amount(cat.balance as i64);
            draw_text(c, FontId::Small, bal.as_str(), panel.right() - pad_x, y + 9, C::Red, Align::Right);
            assert forall|x: int, y: int| #![trigger c.px(x, y)] c.inside(x, y) implies c.px(x, y) == match budget_rows_ink(*b, *now, mv, i + 1, x, y) {
                Some(v) => v,
                None => c0.px(x, y),
            } by {
                assert(p2.inside(x, y) && p1.inside(x, y) && p0.inside(x, y));
            }
            i += 1;
        }
    } else {
        draw_text(c, FontId::SmallBold, "ALL COVERED", panel.x + pad_x, header_y + 9, C::Green, Align::Left);
        assert forall|x: int, y: int| #![trigger c.px(x, y)] c.inside(x, y) implies c.px(x, y) == match budget_rows_ink(*b, *now, mv, 0, x, y) {
            Some(v) => v,
            None => c0.px(x, y),
        } by {
            assert(c7.inside(x, y) && c6.inside(x, y) && c5.inside(x, y) && c4.inside(x, y) && c3.inside(x, y) && c2.inside(x, y) && c1.inside(x, y));
        }
    }
    let ghost c8 = *c;
    proof {
        lemma_tally_bound(b.cats@, b.cats@.len() as int, false);
        lemma_tally_bound(b.cats@, b.cats@.len() as int, true);
    }
    let s1 = on_track_line(t.on_track_count, t.on_track_left as u128);
    let s2 = fixed_line(t.fixed_count, t.fixed_remaining as u128);
    draw_text(c, FontId::Small, s1.as_str(), panel.x + pad_x, summary_top + 9, C::Black, Align::Left);
    let ghost c9 = *c;
    draw_text(c, FontId::Small, s2.as_str(), panel.x + pad_x, summary_top + 9 + row_h, C::Black, Align::Left);
    assert forall|x: int, y: int| #![trigger c.px(x, y)] c.inside(x, y) implies c.px(x, y) == match budget_ink(bo, *now, mv, x, y) {
        Some(v) => v,
        None => c0.px(x, y),
    } by {
        assert(c9.inside(x, y) && c8.inside(x, y));
    }
}


// ── Page ───────────────────────────────────────────────────────────────────

/// The body: 2-pixel rules between the panels, then the five panels.
/// `a` where it names an ink, else `b`.
pub open spec fn over(a: Option<u8>, b: Option<u8>) -> Option<u8> {
    match a {
        Some(v) => Some(v),
        None => b,
    }
}

/// The 2-pixel black rules between the body's panels.
pub open spec fn body_rules_px(x: int, y: int) -> bool {
    ||| in_box(260, 44, 2, 414, x, y)
    ||| in_box(260, 251, 320, 2, x, y)
    ||| in_box(580, 44, 2, 414, x, y)
    ||| in_box(580, 251, 220, 2, x, y)
}

/// The body's ink: the five panels (each stamped with its stale marker at
/// Unix instant `unix`, the budget dated by `now`) over the rules.
pub open spec fn body_ink(d: DashData, now: LocalStamp, unix: int, x: int, y: int) -> Option<u8> {
    let st = d.status;
    over(ops_ink(d.alerts@, spec_marker(st.alerts, unix), ops_rows(d.alerts@.len() as int), x, y),
    over(budget_ink(d.budget, now, spec_marker(st.budget, unix), x, y),
    over(sys_ink(d.hosts@, d.cluster, spec_marker(spec_worse_of(st.hosts, st.cluster), unix), x, y),
    over(agenda_ink(d.agenda@, d.shipments_due_today@, spec_marker(spec_worse_of(st.agenda, st.shipments), unix), x, y),
    over(weather_ink(d.weather, spec_marker(st.weather, unix), x, y),
    if body_rules_px(x, y) { Some(0u8) } else { None })))))
}

fn draw_body(c: &mut Canvas, data: &DashData, now: &LocalStamp, unix: i64)
    requires
        layout_canvas(old(c)),
        now.wf(),
        now.year < i32::MAX,
    ensures
        layout_canvas(final(c)),
        overlaid(old(c), final(c), |x: int, y: int| body_ink(*data, *now, unix as int, x, y)),
{
    let ghost c0 = *c;
    c.vline(COL1_W as i32, BODY_TOP, BODY_H, C::Black);
    let ghost l1 = *c;
    c.vline(COL1_W as i32 + 1, BODY_TOP, BODY_H, C::Black);
    let ghost l2 = *c;
    c.hline(COL1_W as i32, BODY_TOP + ROW_H as i32, COL2_W, C::Black);
    let ghost l3 = *c;
    c.hline(COL1_W as i32, BODY_TOP + ROW_H as i32 + 1, COL2_W, C::Black);
    let ghost l4 = *c;
    let col3_x = (COL1_W + COL2_W) as i32;
    c.vline(col3_x, BODY_TOP, BODY_H, C::Black);
    let ghost l5 = *c;
    c.vline(col3_x + 1, BODY_TOP, BODY_H, C::Black);
    let ghost l6 = *c;
    c.hline(col3_x, BODY_TOP + ROW_H as i32, COL3_W, C::Black);
    let ghost l7 = *c;
    c.hline(col3_x, BODY_TOP + ROW_H as i32 + 1, COL3_W, C::Black);
    assert forall|x: int, y: int| #![trigger c.px(x, y)] c.inside(x, y) implies c.px(x, y) == (if body_rules_px(x, y) { 0u8 } else { c0.px(x, y) }) by {
        assert(l7.inside(x, y) && l6.inside(x, y) && l5.inside(x, y) && l4.inside(x, y));
        assert(l3.inside(x, y) && l2.inside(x, y) && l1.inside(x, y));
    }
    let ghost r0 = *c;
    let st = &data.status;
    let m1 = st.wx().marker(unix);
    draw_weather(c, data.weather.as_ref(), &m1);
    let ghost r1 = *c;
    let m2 = st.agenda_panel().marker(unix);
    draw_agenda(c, &data.agenda, &data.shipments_due_today, &m2);
    let ghost r2 = *c;
    let m3 = st.sys().marker(unix);
    draw_sys(c, &data.hosts, data.cluster.as_ref(), &m3);
    let ghost r3 = *c;
    let m4 = st.budget_panel().marker(unix);
    draw_budget(c, data.budget.as_ref(), now, &m4);
    let ghost r4 = *c;
    let m5 = st.ops().marker(unix);
    draw_ops(c, &data.alerts, &m5);
    assert(crate::alerts::opt_view(m1) == spec_marker(data.status.weather, unix as int));
    assert(crate::alerts::opt_view(m2) == spec_marker(spec_worse_of(data.status.agenda, data.status.shipments), unix as int));
    assert(crate::alerts::opt_view(m3) == spec_marker(spec_worse_of(data.status.hosts, data.status.cluster), unix as int));
    assert(crate::alerts::opt_view(m4) == spec_marker(data.status.budget, unix as int));
    assert(crate::alerts::opt_view(m5) == spec_marker(data.status.alerts, unix as int));
    assert forall|x: int, y: int| #![trigger c.px(x, y)] c.inside(x, y) implies c.px(x, y) == match body_ink(*data, *now, unix as int, x, y) {
        Some(v) => v,
        None => c0.px(x, y),
    } by {
        assert(r4.inside(x, y) && r3.inside(x, y) && r2.inside(x, y) && r1.inside(x, y) && r0.inside(x, y));
    }
}

/// The ink of page pixel `(x, y)`, topmost first: the footer, the body's
/// panels and rules, the header's meta block, the header band, the
/// registration marks; `None` where the white page shows.
pub open spec fn page_ink(d: DashData, battery: u8, rssi: i32, now: LocalStamp, unix: int, x: int, y: int) -> Option<u8> {
    over(footer_ink(d, unix, x, y),
    over(body_ink(d, now, unix, x, y),
    over(if header_meta_px(battery, rssi, 5, x, y) { Some(0u8) } else { None },
    over(header_ink(d, x, y),
    if registration_px(x, y) { Some(0u8) } else { None }))))
}

/// Palette index of page pixel `(x, y)`: its ink, white elsewhere.
pub open spec fn page_px(d: DashData, battery: u8, rssi: i32, now: LocalStamp, unix: int, x: int, y: int) -> u8 {
    match page_ink(d, battery, rssi, now, unix, x, y) {
        Some(v) => v,
        None => 1u8,
    }
}

/// `c` is the page for `d`, the device readings, local time `now` and
/// Unix instant `unix`.
pub open spec fn is_page(c: &Canvas, d: DashData, battery: u8, rssi: i32, now: LocalStamp, unix: int) -> bool {
    &&& layout_canvas(c)
    &&& forall|x: int, y: int| #![trigger c.px(x, y)] c.inside(x, y) ==> c.px(x, y) == page_px(d, battery, rssi, now, unix, x, y)
}

/// The full page drawn on a white `W × H` canvas, as of local time `now`
/// (which dates the budget's pace) and Unix instant `unix` (which ages the
/// stale markers).
pub fn draw_page(data: &DashData, battery: u8, rssi: i32, now: &LocalStamp, unix: i64) -> (c: Canvas)
    requires
        now.wf(),
        now.year < i32::MAX,
    ensures
        layout_canvas(&c),
        c.inks_only(),
        is_page(&c, *data, battery, rssi, *now, unix as int),
{
    let mut c = Canvas::new(W, H);
    c.fill(C::White);
    let ghost c0 = c;
    draw_registration_marks(&mut c);
    let ghost c1 = c;
    draw_header(&mut c, data);
    let ghost c2 = c;
    draw_header_meta(&mut c, battery, rssi);
    let ghost c3 = c;
    draw_body(&mut c, data, now, unix);
    let ghost c4 = c;
    draw_footer(&mut c, data, unix);
    assert forall|x: int, y: int| #![trigger c.px(x, y)] c.inside(x, y) implies c.px(x, y) == page_px(*data, battery, rssi, *now, unix as int, x, y) by {
        assert(c4.inside(x, y) && c3.inside(x, y) && c2.inside(x, y) && c1.inside(x, y) && c0.inside(x, y));
    }
    c
}

/// The page as a 4-bit indexed PNG: the page of `data` and the device
/// readings at the local time and Unix instant read from the clock.
pub fn render(data: &DashData, battery: u8, rssi: i32) -> (r: Result<Vec<u8>, RenderError>)
    ensures
        exists|c: Canvas, now: LocalStamp, unix: i64|
            #![trigger is_page(&c, *data, battery, rssi, now, unix as int)]
            now.wf() && is_page(&c, *data, battery, rssi, now, unix as int) && match r {
                Ok(v) => spec_png_indexed4(spec_packed(&c), W, H, spec_palette_bytes()) == Some(v@),
                Err(_) => spec_png_indexed4(spec_packed(&c), W, H, spec_palette_bytes()) is None,
            },
{
    let now = local_now();
    let unix = unix_now();
    let c = draw_page(data, battery, rssi, &now, unix);
    let ghost cv = c;
    let r = c.into_png();
    assert(is_page(&cv, *data, battery, rssi, now, unix as int));
    r
}

} // verus!
