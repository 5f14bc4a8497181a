use sprite_engine::anim::FrameMgr;
use sprite_engine::bitmap::Bitmap;
use sprite_engine::geom::Rect;
use sprite_engine::sprite::{player, Sprite};

// The placements walk the two glyph grids through the same relative
// positions as the original fixtures, expressed through the top-left
// corner of each bounding box.
fn place(sp: &mut Sprite, left: i32, top: i32) {
    sp.set_left(left);
    sp.set_top(top);
}

#[test]
fn test_overlap() {
    let frames = FrameMgr::new();
    let img1 = "
12345678
..1....2
..1....3
..1....4
..1....5
";
    let img2 = "
..........
.5........
.4........
.3........
.2........
..........
";
    let mut sp1 = Sprite::new_with_bmp(Bitmap::new_from_string(img1, 8, 5), player());
    let mut sp2 = Sprite::new_with_bmp(Bitmap::new_from_string(img2, 10, 6), player());
    place(&mut sp1, 0, 0);
    place(&mut sp2, 0, 0);

    let mut rect = Rect::new(0, 0, 8, 5);
    assert_eq!(rect, sp1.intersect_with(&sp2).unwrap());
    assert_eq!(rect, sp2.intersect_with(&sp1).unwrap());
    assert!(!sp1.pixel_overlap(&sp2, &rect, &frames));
    assert!(!sp2.pixel_overlap(&sp1, &rect, &frames));

    place(&mut sp1, 2, 1);
    rect = Rect::new(2, 1, 8, 5);
    assert_eq!(sp1.intersect_with(&sp2).unwrap(), rect);
    assert_eq!(sp2.intersect_with(&sp1).unwrap(), rect);
    assert!(!sp2.pixel_overlap(&sp1, &rect, &frames));
    assert!(!sp2.pixel_overlap(&sp2, &rect, &frames));

    place(&mut sp1, 4, 3);
    rect = Rect::new(4, 3, 6, 3);
    assert_eq!(sp1.intersect_with(&sp2).unwrap(), rect);
    assert_eq!(sp2.intersect_with(&sp1).unwrap(), rect);
    assert!(!sp2.pixel_overlap(&sp1, &rect, &frames));
    assert!(!sp1.pixel_overlap(&sp2, &rect, &frames));

    place(&mut sp1, -1, -3);
    rect = Rect::new(0, 0, 7, 2);
    assert_eq!(sp1.intersect_with(&sp2).unwrap(), rect);
    assert_eq!(sp2.intersect_with(&sp1).unwrap(), rect);
    assert!(sp2.pixel_overlap(&sp1, &rect, &frames));
    assert!(sp1.pixel_overlap(&sp2, &rect, &frames));

    place(&mut sp1, -1, -1);
    place(&mut sp2, 5, 2);
    rect = Rect::new(5, 2, 2, 2);
    assert_eq!(sp1.intersect_with(&sp2).unwrap(), rect);
    assert_eq!(sp2.intersect_with(&sp1).unwrap(), rect);
    assert!(sp1.pixel_overlap(&sp2, &rect, &frames));
    assert!(sp2.pixel_overlap(&sp1, &rect, &frames));

    sp1.set_left(-3);
    sp2.set_left(5);
    assert_eq!(sp1.intersect_with(&sp2), None);
    assert_eq!(sp2.intersect_with(&sp1), None);

    place(&mut sp1, -3, -5);
    place(&mut sp2, -1, -6);
    rect = Rect::new(-1, -5, 6, 5);
    assert_eq!(sp1.intersect_with(&sp2).unwrap(), rect);
    assert_eq!(sp2.intersect_with(&sp1).unwrap(), rect);
    assert!(sp1.pixel_overlap(&sp2, &rect, &frames));
    assert!(sp2.pixel_overlap(&sp1, &rect, &frames));

    place(&mut sp1, 1, 0);
    place(&mut sp2, 7, 0);
    rect = Rect::new(7, 0, 2, 5);
    assert_eq!(sp1.intersect_with(&sp2).unwrap(), rect);
    assert_eq!(sp2.intersect_with(&sp1).unwrap(), rect);
    assert!(sp1.pixel_overlap(&sp2, &rect, &frames));
    assert!(sp2.pixel_overlap(&sp1, &rect, &frames));
}
