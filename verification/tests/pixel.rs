use wallpaper_rs::pixel::{blend, blend_into, cleanup, converge, converge_range, copy_into};

#[test]
fn converge_moves_by_step_without_overshoot() {
    assert_eq!(converge(10, 100, 20), 30);
    assert_eq!(converge(100, 10, 20), 80);
    assert_eq!(converge(95, 100, 20), 100);
    assert_eq!(converge(105, 100, 20), 100);
    assert_eq!(converge(7, 7, 20), 7);
    assert_eq!(converge(0, 255, 255), 255);
    assert_eq!(converge(0, 255, 0), 0);
}

#[test]
fn converge_range_touches_only_its_range() {
    let mut canvas = vec![0u8; 8];
    let target = vec![100u8; 8];
    converge_range(&mut canvas, &target, 2, 5, 10);
    assert_eq!(canvas, vec![0, 0, 10, 10, 10, 0, 0, 0]);
}

#[test]
fn cleanup_reports_done_only_when_equal() {
    let mut canvas = vec![0u8, 0, 0, 0, 250, 250, 250, 250];
    let target = vec![3u8, 3, 3, 3, 252, 252, 252, 252];
    assert!(!cleanup(&mut canvas, &target, 2));
    assert_eq!(canvas, vec![2, 2, 2, 2, 252, 252, 252, 252]);
    assert!(cleanup(&mut canvas, &target, 2));
    assert_eq!(canvas, target);
}

#[test]
fn cleanup_ignores_partial_pixels() {
    let mut canvas = vec![0u8; 6];
    let target = vec![9u8; 6];
    assert!(cleanup(&mut canvas, &target, 100));
    assert_eq!(canvas, vec![9, 9, 9, 9, 0, 0]);
}

#[test]
fn cleanup_settles_within_bound() {
    // With step 2 the farthest byte (255 away) settles after 128 frames.
    let mut canvas = vec![0u8, 255, 17, 200];
    let target = vec![255u8, 0, 17, 201];
    let mut frames = 0;
    while !cleanup(&mut canvas, &target, 2) {
        frames += 1;
        assert!(frames < 200);
    }
    assert_eq!(frames + 1, 128);
    assert_eq!(canvas, target);
}

#[test]
fn blend_weights() {
    assert_eq!(blend(10, 200, 0), 10);
    assert_eq!(blend(10, 200, 256), 200);
    assert_eq!(blend(0, 255, 128), 127);
    assert_eq!(blend(255, 0, 128), 127);
    assert_eq!(blend(100, 100, 77), 100);
}

#[test]
fn blend_into_stops_at_shorter_buffer() {
    let mut canvas = vec![0u8, 0, 0];
    let target = vec![255u8, 255];
    blend_into(&mut canvas, &target, 256);
    assert_eq!(canvas, vec![255, 255, 0]);
}

#[test]
fn copy_into_copies() {
    let mut canvas = vec![1u8, 2, 3];
    copy_into(&mut canvas, &[7, 8, 9]);
    assert_eq!(canvas, vec![7, 8, 9]);
}
