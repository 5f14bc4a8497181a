use sprite_engine::bitmap::Bitmap;
use sprite_engine::canvas::Canvas;
use sprite_engine::color::{map_color, map_color2, palette};
use sprite_engine::EngineError;

#[test]
fn palette_glyphs() {
    assert_eq!(map_color(&b'0'), 0);
    assert_eq!(map_color(&b'1'), 0xffffff);
    assert_eq!(map_color(&b'b'), 0xa4839f);
    assert_eq!(map_color(&b'f'), 0x000000ff);
    assert_eq!(map_color(&b'.'), 0);
    assert_eq!(map_color(&b'z'), 0);
    assert_eq!(map_color2(b'5'), 0xfff609);
    assert_eq!(map_color2(b'.'), palette(15));
}

#[test]
fn parse_without_size() {
    let b = Bitmap::new_from_string_without_size("12\n34\n").unwrap();
    assert_eq!(b.width(), 2);
    assert_eq!(b.height(), 2);
    assert_eq!(b.get_pixel(0, 0), 0xffffff);
    assert_eq!(b.get_pixel(1, 1), 0xff8135);
}

#[test]
fn parse_strips_spaces_and_blank_rows() {
    let b = Bitmap::new_from_string_without_size("\n 1 2 \r\n\n3 4\n").unwrap();
    assert_eq!(b.width(), 2);
    assert_eq!(b.height(), 2);
}

#[test]
fn parse_rejects_ragged_rows() {
    match Bitmap::new_from_string_without_size("123\n12\n") {
        Err(e) => assert_eq!(e, EngineError::BadFormat),
        Ok(_) => panic!("ragged rows must be rejected"),
    }
}

#[test]
fn parse_empty_text() {
    let b = Bitmap::new_from_string_without_size("").unwrap();
    assert_eq!(b.width(), 0);
    assert_eq!(b.height(), 0);
}

#[test]
fn draw_single_pixel() {
    let mut canvas = Canvas::new();
    let bmp = Bitmap::new_from_string("1", 1, 1);
    assert_eq!(canvas.draw(0, 0, &bmp), 1);
    assert_eq!(canvas.get_pixel(0, 0), 0xffffff);
    assert_eq!(canvas.get_pixel(1, 0), 0);
    assert_eq!(canvas.get_pixel(0, 1), 0);
}

#[test]
fn draw_fully_off_canvas() {
    let mut canvas = Canvas::new();
    let bmp = Bitmap::new_with_color(5, 5, b'2');
    assert_eq!(canvas.draw(-20, -30, &bmp), 0);
    assert_eq!(canvas.draw(160, 0, &bmp), 0);
    assert_eq!(canvas.draw(0, 120, &bmp), 0);
    for x in 0..160 {
        assert_eq!(canvas.get_pixel(x, 0), 0);
    }
}

#[test]
fn draw_clips_to_canvas() {
    let mut canvas = Canvas::new();
    let bmp = Bitmap::new_with_color(40, 32, b'f');
    // Top-left corner sticks out: only a 20 by 2 band lands on canvas.
    assert_eq!(canvas.draw(-20, -30, &bmp), 20 * 2);
    assert_eq!(canvas.get_pixel(0, 0), 0x000000ff);
    assert_eq!(canvas.get_pixel(19, 1), 0x000000ff);
    assert_eq!(canvas.get_pixel(20, 0), 0);
    assert_eq!(canvas.get_pixel(0, 2), 0);
}

#[test]
fn draw_keeps_destination_under_transparent_pixels() {
    let mut canvas = Canvas::new();
    let below = Bitmap::new_with_color(4, 4, b'3');
    canvas.draw(0, 0, &below);
    // '.' parses to the transparent value 0, '1' to white.
    let over = Bitmap::new_from_string(".1\n1.", 2, 2);
    assert_eq!(canvas.draw(0, 0, &over), 4);
    assert_eq!(canvas.get_pixel(0, 0), 0xff93c4);
    assert_eq!(canvas.get_pixel(1, 0), 0xffffff);
    assert_eq!(canvas.get_pixel(0, 1), 0xffffff);
    assert_eq!(canvas.get_pixel(1, 1), 0xff93c4);
}

#[test]
fn bitmap_overlap_exact() {
    let a = Bitmap::new_from_string("1.\n.1", 2, 2);
    let b = Bitmap::new_from_string(".1\n1.", 2, 2);
    let whole = sprite_engine::geom::Rect::new(0, 0, 2, 2);
    assert!(!a.test_overlap(&b, &whole, &whole));
    assert!(a.test_overlap(&a, &whole, &whole));
}

#[test]
fn set_data_replaces_contents() {
    let mut b = Bitmap::new(2, 2);
    b.set_data(3, vec![7, 7, 7]);
    assert_eq!(b.width(), 3);
    assert_eq!(b.height(), 1);
    assert_eq!(b.get_pixel(2, 0), 7);
}

#[test]
fn new_from_raw_bytes() {
    let b = Bitmap::new_from(&vec![b'1', b'2', b'3', b'4'], 2);
    assert_eq!(b.width(), 2);
    assert_eq!(b.height(), 2);
    assert_eq!(b.get_pixel(0, 1), 0xff93c4);
}

#[test]
fn bitmap_rect_matches_extent() {
    let b = Bitmap::new_with_color(6, 4, b'1');
    let r = b.rect();
    assert_eq!((r.x, r.y, r.w, r.h), (0, 0, 6, 4));
}
