use wallpaper_rs::config::TransitionType;
use wallpaper_rs::surface::{adopt_pending, pool_suffices, saturating_mul, SurfaceState};
use wallpaper_rs::transition::effects::Frame;
use wallpaper_rs::transition::Transition;

#[test]
fn buffer_size_saturates() {
    assert_eq!(SurfaceState::new(1920, 1080).buffer_size(), 1920 * 1080 * 4);
    assert_eq!(SurfaceState::new(u32::MAX, 2).buffer_size(), u32::MAX as usize);
    assert_eq!(saturating_mul(70_000, 70_000), u32::MAX);
    assert_eq!(saturating_mul(3, 5), 15);
}

#[test]
fn surface_runs_a_transition_from_black() {
    let mut s = SurfaceState::new(1, 1);
    s.begin(Transition::new(TransitionType::Simple, 0, (0, 0), (1, 1), vec![3, 3, 3, 3]));
    assert_eq!(s.pixels, vec![0, 0, 0, 0]);
    assert!(s.tick(&Frame::Still));
    assert_eq!(s.pixels, vec![2, 2, 2, 2]);
    assert!(!s.tick(&Frame::Still));
    assert_eq!(s.pixels, vec![3, 3, 3, 3]);
    assert!(s.transition.is_none());
    assert!(!s.tick(&Frame::Still));
    s.release();
    assert!(s.pixels.is_empty());
}

#[test]
fn stop_drops_everything() {
    let mut s = SurfaceState::new(1, 1);
    s.begin(Transition::new(TransitionType::Fade, 0, (0, 0), (1, 1), vec![3, 3, 3, 3]));
    s.stop();
    assert!(s.transition.is_none() && s.pixels.is_empty());
}

#[test]
fn pool_needs_enough_room() {
    assert!(!pool_suffices(None, 0));
    assert!(!pool_suffices(Some(10), 11));
    assert!(pool_suffices(Some(11), 11));
}

#[test]
fn first_wallpaper_adopts_pending_surfaces() {
    let mut active: Vec<u8> = Vec::new();
    let mut pending: Vec<u8> = Vec::new();
    assert!(adopt_pending(&mut active, &mut pending).is_err());
    pending.push(1);
    assert_eq!(adopt_pending(&mut active, &mut pending).ok(), Some(true));
    assert_eq!((active.clone(), pending.clone()), (vec![1], vec![]));
    pending.push(2);
    assert_eq!(adopt_pending(&mut active, &mut pending).ok(), Some(false));
    assert_eq!((active, pending), (vec![1], vec![2]));
}
