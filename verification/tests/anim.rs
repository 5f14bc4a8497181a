use sprite_engine::anim::{Animation, FrameMgr, Frames};
use sprite_engine::bitmap::Bitmap;
use sprite_engine::EngineError;

fn frame(w: usize) -> Bitmap {
    Bitmap::new_with_color(w, 1, b'1')
}

#[test]
fn frame_index_wraps() {
    let mut fmr = FrameMgr::new();
    fmr.create("walk", 100);
    fmr.append("walk", frame(1)).unwrap();
    fmr.append("walk", frame(2)).unwrap();
    fmr.append("walk", frame(3)).unwrap();

    let mut cursor = Animation::new();
    cursor.reset(String::from("walk"));
    cursor.time_go(250);
    assert_eq!(cursor.current(&fmr).unwrap().width(), 3);
    cursor.time_go(50);
    assert_eq!(cursor.current(&fmr).unwrap().width(), 1);
}

#[test]
fn no_active_clip_resolves_to_nothing() {
    let fmr = FrameMgr::new();
    let cursor = Animation::new();
    assert!(cursor.current(&fmr).is_none());
}

#[test]
fn unknown_clip_resolves_to_nothing() {
    let fmr = FrameMgr::new();
    let mut cursor = Animation::new();
    cursor.reset(String::from("missing"));
    assert!(cursor.current(&fmr).is_none());
}

#[test]
fn zero_frame_clip_resolves_to_nothing() {
    let mut fmr = FrameMgr::new();
    fmr.create("empty", 100);
    let mut cursor = Animation::new();
    cursor.reset(String::from("empty"));
    cursor.time_go(500);
    assert!(cursor.current(&fmr).is_none());
}

#[test]
fn reactivating_keeps_elapsed_time() {
    let mut cursor = Animation::new();
    cursor.reset(String::from("walk"));
    cursor.time_go(70);
    cursor.reset(String::from("walk"));
    assert_eq!(cursor.elapsed_ms, 70);
    cursor.reset(String::from("run"));
    assert_eq!(cursor.elapsed_ms, 0);
}

#[test]
fn append_to_unknown_clip_fails() {
    let mut fmr = FrameMgr::new();
    assert_eq!(fmr.append("missing", frame(1)).unwrap_err(), EngineError::NotFound);
}

#[test]
fn create_replaces_existing_clip() {
    let mut fmr = FrameMgr::new();
    fmr.create("walk", 100);
    fmr.append("walk", frame(1)).unwrap();
    fmr.create("walk", 50);
    let mut cursor = Animation::new();
    cursor.reset(String::from("walk"));
    assert!(cursor.current(&fmr).is_none());
}

#[test]
fn frames_collect_in_order() {
    let mut f = Frames::new(40);
    f.add_bmp(frame(1));
    f.add_bmp(frame(2));
    assert_eq!(f.interval_ms, 40);
    assert_eq!(f.bmp.len(), 2);
    assert_eq!(f.bmp[1].width(), 2);
}
