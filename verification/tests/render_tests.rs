use trmnl_cyberpunk::render::{color_of_index, nearest_index, palette_bytes, Canvas, Rect, Rgb, C};

fn px(c: &Canvas, x: u32, y: u32) -> u8 {
    c.buf[(y * c.w + x) as usize]
}

#[test]
fn palette_order() {
    assert_eq!(C::Black.index(), 0);
    assert_eq!(C::White.index(), 1);
    assert_eq!(C::Green.index(), 5);
    assert_eq!(color_of_index(3), C::Red);
    let p = palette_bytes();
    assert_eq!(p.len(), 18);
    assert_eq!(&p[0..3], &[0x02, 0x02, 0x02]);
    assert_eq!(&p[3..6], &[0xb3, 0xb6, 0xab]);
}

#[test]
fn nearest_palette_colour() {
    assert_eq!(nearest_index(C::Red.rgb()), 3);
    assert_eq!(nearest_index(Rgb { r: 255, g: 255, b: 255 }), 1);
    assert_eq!(nearest_index(Rgb { r: 0, g: 0, b: 0 }), 0);
    assert_eq!(nearest_index(Rgb { r: 0, g: 60, b: 120 }), 4);
}

#[test]
fn new_canvas_is_white_and_put_clips() {
    let mut c = Canvas::new(4, 3);
    assert_eq!(c.buf.len(), 12);
    assert!(c.buf.iter().all(|&b| b == 1));
    c.put(1, 2, C::Red);
    c.put(-1, 0, C::Red);
    c.put(4, 0, C::Red);
    assert_eq!(px(&c, 1, 2), 3);
    assert_eq!(c.buf.iter().filter(|&&b| b == 3).count(), 1);
}

#[test]
fn rects_and_outlines() {
    let mut c = Canvas::new(6, 5);
    c.fill_rect(Rect::new(-2, 1, 4, 2), C::Black);
    assert_eq!(px(&c, 0, 1), 0);
    assert_eq!(px(&c, 1, 2), 0);
    assert_eq!(px(&c, 2, 1), 1);
    let mut c = Canvas::new(6, 5);
    c.stroke_rect(Rect::new(1, 1, 4, 3), 1, C::Blue);
    assert_eq!(px(&c, 1, 1), 4);
    assert_eq!(px(&c, 4, 3), 4);
    assert_eq!(px(&c, 2, 2), 1, "the inside stays");
    let r = Rect::new(2, 3, 5, 7);
    assert_eq!((r.right(), r.bottom()), (7, 10));
}

#[test]
fn lines_include_both_ends() {
    let mut c = Canvas::new(10, 10);
    c.line(1, 1, 8, 4, C::Black, false);
    assert_eq!(px(&c, 1, 1), 0);
    assert_eq!(px(&c, 8, 4), 0);
    assert_eq!(c.buf.iter().filter(|&&b| b == 0).count(), 8, "one pixel per column");
    let mut d = Canvas::new(10, 10);
    d.line(0, 0, 0, 9, C::Red, true);
    assert_eq!(d.buf.iter().filter(|&&b| b == 3).count(), 5);
    assert_eq!(px(&d, 0, 0), 3);
    assert_eq!(px(&d, 0, 1), 1);
}

#[test]
fn parallelogram_and_hatch() {
    let mut c = Canvas::new(20, 4);
    c.fill_left_parallelogram(10, 0, 4, 4, 4, C::Black);
    for dy in 0..4u32 {
        for x in 0..20u32 {
            let inside = x + dy >= 10 && x + dy < 14;
            assert_eq!(px(&c, x, dy), if inside { 0 } else { 1 }, "row {dy} column {x}");
        }
    }
    let mut h = Canvas::new(8, 2);
    h.hatch_135(Rect::new(0, 0, 8, 2), &[(2, C::Red), (2, C::White)]);
    assert_eq!(px(&h, 0, 0), 3);
    assert_eq!(px(&h, 2, 0), 1);
    assert_eq!(px(&h, 1, 1), 1);
}

#[test]
fn png_output() {
    let mut c = Canvas::new(3, 2);
    c.put(0, 0, C::Red);
    let packed = c.pack_4bit();
    assert_eq!(packed, vec![0x31, 0x10, 0x11, 0x10]);
    let png = c.into_png().unwrap();
    assert_eq!(&png[0..8], &[0x89, b'P', b'N', b'G', 0x0d, 0x0a, 0x1a, 0x0a]);
}

#[test]
fn rgb_pixels_land_on_the_nearest_ink() {
    let mut c = Canvas::new(4, 4);
    c.put_rgb(1, 2, Rgb { r: 250, g: 20, b: 10 });
    assert_eq!(px(&c, 1, 2), nearest_index(Rgb { r: 250, g: 20, b: 10 }));
    c.put_rgb(3, 3, C::Green.rgb());
    assert_eq!(px(&c, 3, 3), 5);
    c.put_rgb(9, 9, C::Blue.rgb());
    assert!(c.buf.iter().all(|&b| b < 6));
}
