use wallpaper_rs::config::TransitionType;
use wallpaper_rs::transition::effects::{Effect, Frame, RadialMode, WaveRow};
use wallpaper_rs::transition::Transition;

fn kind(e: &Effect) -> &'static str {
    match e {
        Effect::Instant => "instant",
        Effect::Cleanup { .. } => "cleanup",
        Effect::Fade(_) => "fade",
        Effect::Radial(_) => "radial",
        Effect::Wave(_) => "wave",
    }
}

#[test]
fn effect_for_each_transition_type() {
    let dims = (4, 3);
    assert_eq!(kind(&Effect::new(TransitionType::Instant, 90, (0, 0), dims)), "instant");
    match Effect::new(TransitionType::Simple, 90, (0, 0), dims) {
        Effect::Cleanup { step } => assert_eq!(step, 2),
        other => panic!("unexpected {}", kind(&other)),
    }
    match Effect::new(TransitionType::Fade, 90, (0, 0), dims) {
        Effect::Fade(f) => assert_eq!(f.alpha, 0),
        other => panic!("unexpected {}", kind(&other)),
    }
    match Effect::new(TransitionType::Grow, 90, (1, 2), dims) {
        Effect::Radial(r) => {
            assert_eq!(r.mode, RadialMode::Grow);
            assert_eq!((r.center, r.step, r.width, r.height), ((1, 2), 90, 4, 3));
        }
        other => panic!("unexpected {}", kind(&other)),
    }
    match Effect::new(TransitionType::Outer, 90, (1, 2), dims) {
        Effect::Radial(r) => assert_eq!(r.mode, RadialMode::Outer),
        other => panic!("unexpected {}", kind(&other)),
    }
    for t in [TransitionType::Wipe, TransitionType::Wave] {
        match Effect::new(t, 60, (0, 0), dims) {
            Effect::Wave(w) => assert_eq!((w.step, w.width, w.height), (60, 4, 3)),
            other => panic!("unexpected {}", kind(&other)),
        }
    }
}

#[test]
fn instant_copies_and_completes() {
    let mut e = Effect::new(TransitionType::Instant, 0, (0, 0), (1, 1));
    let mut canvas = vec![0u8; 4];
    assert!(e.execute(&mut canvas, &[1, 2, 3, 4], &Frame::Still));
    assert_eq!(canvas, vec![1, 2, 3, 4]);
}

#[test]
fn fade_blends_then_hands_over_to_cleanup() {
    let mut e = Effect::new(TransitionType::Fade, 0, (0, 0), (1, 1));
    let target = [200u8, 200, 200, 200];
    let mut canvas = vec![0u8; 4];
    // First frame blends with weight 0, then takes 128 for the next one.
    assert!(!e.execute(&mut canvas, &target, &Frame::Fade { alpha: 128, finished: false }));
    assert_eq!(canvas, vec![0, 0, 0, 0]);
    assert!(!e.execute(&mut canvas, &target, &Frame::Fade { alpha: 256, finished: true }));
    assert_eq!(canvas, vec![100, 100, 100, 100]);
    match e {
        // 256 as u8 is 0, so the step is 0 / 4 + 4.
        Effect::Cleanup { step } => assert_eq!(step, 4),
        other => panic!("unexpected {}", kind(&other)),
    }
}

#[test]
fn fade_cleanup_step_from_last_weight() {
    let mut e = Effect::new(TransitionType::Fade, 0, (0, 0), (1, 1));
    let mut canvas = vec![0u8; 4];
    e.execute(&mut canvas, &[0; 4], &Frame::Fade { alpha: 200, finished: true });
    match e {
        Effect::Cleanup { step } => assert_eq!(step, 200 / 4 + 4),
        other => panic!("unexpected {}", kind(&other)),
    }
}

#[test]
fn radial_grow_converges_inside_the_circle() {
    // 4x2 output, center column 2, half-widths 1 and 0.
    let mut e = Effect::new(TransitionType::Grow, 50, (2, 0), (4, 2));
    let target = vec![100u8; 32];
    let mut canvas = vec![0u8; 32];
    let frame = Frame::Radial { spans: vec![1, 0], finished: false };
    assert!(!e.execute(&mut canvas, &target, &frame));
    let mut expected = vec![0u8; 32];
    for b in &mut expected[4..12] {
        *b = 50;
    }
    assert_eq!(canvas, expected);
    let frame = Frame::Radial { spans: vec![0, 0], finished: true };
    assert!(!e.execute(&mut canvas, &target, &frame));
    match e {
        Effect::Cleanup { step } => assert_eq!(step, 50 / 4 + 4),
        other => panic!("unexpected {}", kind(&other)),
    }
}

#[test]
fn radial_outer_converges_outside_the_circle() {
    let mut e = Effect::new(TransitionType::Outer, 255, (2, 0), (4, 1));
    let target = vec![9u8; 16];
    let mut canvas = vec![0u8; 16];
    let frame = Frame::Radial { spans: vec![1], finished: false };
    e.execute(&mut canvas, &target, &frame);
    let mut expected = vec![9u8; 16];
    for b in &mut expected[4..12] {
        *b = 0;
    }
    assert_eq!(canvas, expected);
}

#[test]
fn wave_converges_primary_and_band() {
    let mut e = Effect::new(TransitionType::Wave, 255, (0, 0), (3, 2));
    let target = vec![5u8; 24];
    let mut canvas = vec![0u8; 24];
    let rows = vec![
        WaveRow { primary: (8, 12), band: vec![0] },
        WaveRow { primary: (0, 0), band: vec![4] },
    ];
    assert!(!e.execute(&mut canvas, &target, &Frame::Wave { rows, finished: false }));
    let mut expected = vec![0u8; 24];
    for range in [0..4, 8..12, 16..20] {
        for b in &mut expected[range] {
            *b = 5;
        }
    }
    assert_eq!(canvas, expected);
}

#[test]
fn simple_transition_runs_to_completion() {
    let target = vec![7u8; 8];
    let mut t = Transition::new(TransitionType::Simple, 90, (0, 0), (2, 1), target.clone());
    assert_eq!(t.dimensions(), (2, 1));
    let mut canvas = vec![0u8; 8];
    let mut frames = 0;
    while !t.frame(&mut canvas, &Frame::Still) {
        frames += 1;
    }
    assert_eq!(frames, 3);
    assert!(t.is_done());
    assert_eq!(canvas, target);
    // A finished transition leaves the canvas alone and stays finished.
    canvas[0] = 1;
    assert!(t.frame(&mut canvas, &Frame::Still));
    assert_eq!(canvas[0], 1);
}

#[test]
fn animated_effects_hand_over_without_completing() {
    let target = vec![200u8; 32];
    let mut canvas = vec![0u8; 32];
    let mut effect = Effect::new(TransitionType::Wave, 40, (2, 1), (4, 2));
    let rows = |finished| Frame::Wave { rows: vec![WaveRow { primary: (0, 4), band: vec![] }, WaveRow { primary: (0, 4), band: vec![] }], finished };
    assert!(!effect.execute(&mut canvas, &target, &rows(false)));
    assert!(matches!(effect, Effect::Wave(_)));
    assert!(!effect.execute(&mut canvas, &target, &rows(true)));
    assert!(matches!(effect, Effect::Cleanup { step: 14 }));
}
