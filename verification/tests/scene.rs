use sprite_engine::anim::FrameMgr;
use sprite_engine::bitmap::Bitmap;
use sprite_engine::canvas::Canvas;
use sprite_engine::game::{BMP_HEIGHT, BMP_WIDTH};
use sprite_engine::scene::Scene;
use sprite_engine::sprite::{create, player, projectile, Flag, Sprite};

fn scene() -> Scene {
    Scene::new(FrameMgr::new())
}

fn solid_sprite(w: usize, h: usize, kind: usize) -> Sprite {
    Sprite::new_with_bmp(Bitmap::new_with_color(w, h, b'1'), kind)
}

#[test]
fn test_runtime() {
    let mut runtime = scene();
    let mut canvas = Canvas::new();
    let bg = Bitmap::new_with_color(BMP_WIDTH as usize, BMP_HEIGHT as usize, b'b');
    runtime.set_bgi(bg);
    runtime.draw(&mut canvas);
    assert_eq!(canvas.get_pixel(13, 22), 0xa4839f);

    let mut runtime = scene();
    let bg = Bitmap::new_with_color(BMP_WIDTH as usize, BMP_HEIGHT as usize, b'5');
    runtime.set_bgi(bg);
    runtime.draw(&mut canvas);
    assert_eq!(canvas.get_pixel(159, 44), 0xfff609);
}

#[test]
fn full_canvas_reset_each_draw() {
    let mut sc = scene();
    let mut canvas = Canvas::new();
    sc.set_bgi(Bitmap::new_with_color(BMP_WIDTH as usize, BMP_HEIGHT as usize, b'b'));
    sc.draw(&mut canvas);
    for (x, y) in [(0usize, 0usize), (80, 60), (159, 119)] {
        assert_eq!(canvas.get_pixel(x, y), 0xa4839f);
    }
}

#[test]
fn ids_count_up_and_lookups_answer() {
    let mut sc = scene();
    let a = sc.add_sprite(solid_sprite(2, 2, player()));
    let b = sc.add_sprite(solid_sprite(3, 3, projectile()));
    assert_eq!(a, 1);
    assert_eq!(b, 2);
    assert_eq!(sc.get(a).unwrap().width, 2);
    assert_eq!(sc.get(b).unwrap().width, 3);
    assert!(sc.get(99).is_none());
    sc.remove_sprite(a);
    assert!(sc.get(a).is_none());
    assert!(sc.get(b).is_some());
    // Removed ids are never reused.
    let c = sc.add_sprite(solid_sprite(1, 1, player()));
    assert_eq!(c, 3);
}

#[test]
fn get_mut_writes_through() {
    let mut sc = scene();
    let id = sc.add_sprite(solid_sprite(2, 2, player()));
    {
        let sp = sc.get_mut(id).unwrap();
        sp.set_left(10);
        sp.set_top(20);
        sp.vx = 5000;
    }
    let sp = sc.get(id).unwrap();
    assert_eq!(sp.left(), 10);
    assert_eq!(sp.top(), 20);
    assert_eq!(sp.vx, 5000);
    assert!(sc.get_mut(99).is_none());
}

#[test]
fn z_order_draws_front_sprite_last() {
    let mut sc = scene();
    let mut canvas = Canvas::new();
    let mut back = Sprite::new_with_bmp(Bitmap::new_with_color(2, 2, b'2'), player());
    back.set_left(0);
    back.set_top(0);
    let mut front = Sprite::new_with_bmp(Bitmap::new_with_color(2, 2, b'3'), player());
    front.set_left(0);
    front.set_top(0);
    // Same z: the later insertion wins the tie through z2.
    sc.add_sprite(back);
    sc.add_sprite(front);
    sc.draw(&mut canvas);
    assert_eq!(canvas.get_pixel(0, 0), 0xff93c4);

    // A higher z beats a later insertion.
    let mut sc2 = scene();
    let mut top = Sprite::new_with_bmp(Bitmap::new_with_color(2, 2, b'2'), player());
    top.set_left(0);
    top.set_top(0);
    top.z = 5;
    let mut late = Sprite::new_with_bmp(Bitmap::new_with_color(2, 2, b'3'), player());
    late.set_left(0);
    late.set_top(0);
    sc2.add_sprite(top);
    sc2.add_sprite(late);
    let mut canvas2 = Canvas::new();
    sc2.draw(&mut canvas2);
    assert_eq!(canvas2.get_pixel(0, 0), 0xff2121);
}

#[test]
fn front_of_never_ties_after_add() {
    let mut sc = scene();
    let mut ids = Vec::new();
    for _ in 0..4 {
        ids.push(sc.add_sprite(solid_sprite(1, 1, player())));
    }
    for &a in &ids {
        for &b in &ids {
            if a != b {
                let sa = sc.get(a).unwrap();
                let sb = sc.get(b).unwrap();
                assert_ne!(sa.front_of(sb), sb.front_of(sa));
            }
        }
    }
}

#[test]
fn invisible_sprites_are_not_drawn() {
    let mut sc = scene();
    let mut sp = solid_sprite(2, 2, player());
    sp.set_left(0);
    sp.set_top(0);
    let id = sc.add_sprite(sp);
    sc.get_mut(id).unwrap().set_flag(Flag::Invisible.u32(), true);
    let mut canvas = Canvas::new();
    sc.draw(&mut canvas);
    assert_eq!(canvas.get_pixel(0, 0), 0);
}

#[test]
fn autodestroy_purges_after_leaving_canvas() {
    let mut sc = scene();
    let mut runaway = solid_sprite(2, 2, player());
    runaway.set_left(-50);
    runaway.set_top(10);
    runaway.vx = -200_000;
    let mut stays = solid_sprite(2, 2, player());
    stays.set_left(-50);
    stays.set_top(10);
    stays.vx = -200_000;
    let gone_id = sc.add_sprite(runaway);
    let kept_id = sc.add_sprite(stays);
    sc.get_mut(gone_id).unwrap().set_flag(Flag::Autodestory.u32(), true);
    // One second: both move 200 pixels further left, fully off canvas.
    sc.update(1000);
    assert!(sc.get(gone_id).is_none());
    assert!(sc.get(kept_id).is_some());
}

#[test]
fn update_integrates_only_live_motion() {
    let mut sc = scene();
    let id = sc.add_sprite(solid_sprite(2, 2, player()));
    let x0 = sc.get(id).unwrap().x;
    sc.update(500);
    assert_eq!(sc.get(id).unwrap().x, x0);
    sc.get_mut(id).unwrap().vx = 10_000;
    sc.update(500);
    assert_eq!(sc.get(id).unwrap().x, x0 + 5000);
    // Acceleration feeds the velocity first, then the position.
    sc.get_mut(id).unwrap().vx = 0;
    sc.get_mut(id).unwrap().ax = 4000;
    sc.update(500);
    let sp = sc.get(id).unwrap();
    assert_eq!(sp.vx, 2000);
    assert_eq!(sp.x, x0 + 5000 + 1000);
}

#[test]
fn overlap_checks_report_both_orders() {
    let mut sc = scene();
    let mut a = solid_sprite(4, 4, player());
    a.set_left(0);
    a.set_top(0);
    let mut b = solid_sprite(4, 4, projectile());
    b.set_left(2);
    b.set_top(2);
    let mut c = solid_sprite(4, 4, projectile());
    c.set_left(100);
    c.set_top(100);
    let ia = sc.add_sprite(a);
    let ib = sc.add_sprite(b);
    let _ic = sc.add_sprite(c);

    assert_eq!(sc.check_overlaps(), vec![]);
    sc.add_overlap_detection(player(), projectile());
    let mut hits = sc.check_overlaps();
    hits.sort();
    assert_eq!(hits, vec![(ia, ib, player(), projectile()), (ib, ia, projectile(), player())]);
}

#[test]
fn bounding_boxes_alone_do_not_overlap() {
    let mut sc = scene();
    // Opaque only on opposite diagonal halves: boxes meet, pixels do not.
    let a = Sprite::new_with_bmp(Bitmap::new_from_string("1.\n..", 2, 2), player());
    let b = Sprite::new_with_bmp(Bitmap::new_from_string(".2\n..", 2, 2), projectile());
    let mut a = a;
    a.set_left(0);
    a.set_top(0);
    let mut b = b;
    b.set_left(0);
    b.set_top(0);
    sc.add_sprite(a);
    sc.add_sprite(b);
    sc.add_overlap_detection(player(), projectile());
    assert_eq!(sc.check_overlaps(), vec![]);
}

#[test]
fn kind_counter_allocates_above_reserved() {
    let mut last = 10usize;
    let k1 = create(&mut last);
    let k2 = create(&mut last);
    assert_eq!(k1, 11);
    assert_eq!(k2, 12);
    assert_eq!(player(), 1);
    assert_eq!(projectile(), 2);
}

#[test]
fn sprite_bounds_round_trip() {
    let mut sp = solid_sprite(8, 5, player());
    sp.set_left(3);
    assert_eq!(sp.left(), 3);
    assert_eq!(sp.right(), 11);
    sp.set_right(20);
    assert_eq!(sp.right(), 20);
    sp.set_top(-2);
    assert_eq!(sp.top(), -2);
    sp.set_bottom(7);
    assert_eq!(sp.bottom(), 7);
}

#[test]
fn draw_fills_the_whole_buffer() {
    let mut sc = scene();
    let mut canvas = Canvas::new();
    sc.set_bgi(Bitmap::new_with_color(BMP_WIDTH as usize, BMP_HEIGHT as usize, b'5'));
    sc.draw(&mut canvas);
    let buf = canvas.buffer();
    assert_eq!(buf.len(), (BMP_WIDTH * BMP_HEIGHT) as usize);
    assert!(buf.iter().all(|&p| p == 0xfff609));
}

#[test]
fn game_over_latches() {
    let mut g = sprite_engine::game::Game::new();
    assert!(!g.over);
    g.over(false);
    assert!(g.over);
}
