use sprite_engine::geom::Rect;

#[test]
fn right_bottom() {
    let r = Rect { x: -5, y: -10, w: 100, h: 200 };
    assert_eq!(r.right(), 95);
    assert_eq!(r.bottom(), 190);
}

#[test]
fn test_intersect() {
    let mut r1 = Rect { x: -5, y: -10, w: 100, h: 200 };
    let r2 = Rect { x: 0, y: 0, w: 10, h: 300 };
    assert_eq!(r1.intersect(&r2).unwrap_or_default(), Rect { x: 0, y: 0, w: 10, h: 190 });
    assert_eq!(r2.intersect(&r1).unwrap_or_default(), Rect { x: 0, y: 0, w: 10, h: 190 });

    r1 = Rect { x: 11, y: 12, w: 5, h: 10 };
    assert_eq!(r1.intersect(&r2), None);
    assert_eq!(r2.intersect(&r1), None);

    r1 = Rect { x: 2, y: 300, w: 5, h: 10 };
    assert_eq!(r1.intersect(&r2), None);
    assert_eq!(r2.intersect(&r1), None);

    r1 = Rect { x: 2, y: 299, w: 5, h: 10 };
    assert_eq!(r1.intersect(&r2).unwrap_or_default(), Rect { x: 2, y: 299, w: 5, h: 1 });
    assert_eq!(r2.intersect(&r1).unwrap_or_default(), Rect { x: 2, y: 299, w: 5, h: 1 });

    r1 = Rect { x: 5, y: 12, w: 5, h: 10 };
    assert_eq!(r1.intersect(&r2).unwrap_or_default(), r1);
    assert_eq!(r2.intersect(&r1).unwrap_or_default(), r1);
}

#[test]
fn touching_edges_do_not_intersect() {
    let a = Rect::new(0, 0, 10, 10);
    let b = Rect::new(10, 0, 10, 10);
    assert_eq!(a.intersect(&b), None);
    let c = Rect::new(0, 10, 10, 10);
    assert_eq!(a.intersect(&c), None);
}

#[test]
fn add_iu_mixes_signs() {
    assert_eq!(sprite_engine::geom::add_iu(-5, 100), 95);
    assert_eq!(sprite_engine::geom::add_iu(7, 3), 10);
}
