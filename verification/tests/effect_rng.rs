use sprite_engine::effect::{SceneEffect, Snow};
use sprite_engine::rng::{randint, Rng};
use sprite_engine::scene::Scene;
use sprite_engine::anim::FrameMgr;
use sprite_engine::canvas::Canvas;

#[test]
fn randint_stays_in_range() {
    let mut rng = Rng::new(12345);
    for _ in 0..200 {
        let v = randint(&mut rng, -7, 13);
        assert!((-7..13).contains(&v));
    }
    assert_eq!(randint(&mut rng, 4, 4), 4);
}

#[test]
fn rng_is_reproducible_from_its_seed() {
    let mut a = Rng::new(99);
    let mut b = Rng::new(99);
    for _ in 0..50 {
        assert_eq!(randint(&mut a, 0, 1000), randint(&mut b, 0, 1000));
    }
    let mut c = Rng::new(100);
    let mut differs = false;
    let mut d = Rng::new(99);
    for _ in 0..50 {
        if randint(&mut c, 0, 1000) != randint(&mut d, 0, 1000) {
            differs = true;
        }
    }
    assert!(differs);
}

#[test]
fn blizzard_seeds_one_item_per_cell() {
    match SceneEffect::blizzard(Rng::new(7)) {
        SceneEffect::Blizzard(ec) => {
            assert_eq!(ec.items.len(), 30);
            for item in &ec.items {
                assert!(item.life_ms >= 500 && item.life_ms < 1000);
                assert_eq!(item.age_ms, 0);
                let w = item.current.width();
                let h = item.current.height();
                assert!(w == 1 || w == 2);
                assert!(h == 1 || h == 2);
            }
        },
        SceneEffect::Dummy => panic!("the blizzard must carry items"),
    }
}

#[test]
fn blizzard_field_never_shrinks() {
    let mut eff = SceneEffect::blizzard(Rng::new(21));
    for _ in 0..10 {
        eff.update(400);
        match &eff {
            SceneEffect::Blizzard(ec) => assert_eq!(ec.items.len(), 30),
            SceneEffect::Dummy => panic!("the blizzard must stay active"),
        }
    }
}

#[test]
fn snow_falls_diagonally() {
    let mut rng = Rng::new(3);
    let mut item = Snow::new(0, 0, 32, 30, &mut rng);
    let (x0, y0) = (item.x, item.y);
    item.update(16, &mut rng);
    assert_eq!(item.x - x0, item.y - y0);
    assert!(item.x >= x0);
    assert_eq!(item.age_ms, 16);
}

#[test]
fn dummy_effect_draws_nothing() {
    let mut sc = Scene::new(FrameMgr::new());
    sc.active_effect(SceneEffect::dummy());
    let mut canvas = Canvas::new();
    sc.draw(&mut canvas);
    for x in 0..160 {
        assert_eq!(canvas.get_pixel(x, 60), 0);
    }
}

#[test]
fn blizzard_effect_paints_snow() {
    let mut sc = Scene::new(FrameMgr::new());
    sc.active_effect(SceneEffect::blizzard(Rng::new(42)));
    let mut canvas = Canvas::new();
    sc.draw(&mut canvas);
    let mut painted = 0usize;
    for y in 0..120 {
        for x in 0..160 {
            if canvas.get_pixel(x, y) == 0xffffff {
                painted += 1;
            }
        }
    }
    assert!(painted > 0);
}
