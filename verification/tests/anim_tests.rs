use goblin_maker::anim::{Animation, AnimationError};

#[test]
fn frame_windows_cover_the_timeline() {
    let anim = Animation::new(vec![100, 50, 200]).unwrap();
    assert_eq!(anim.total_length, 350);
    assert_eq!(anim.get_at_time(0), 0);
    assert_eq!(anim.get_at_time(99), 0);
    assert_eq!(anim.get_at_time(100), 1);
    assert_eq!(anim.get_at_time(149), 1);
    assert_eq!(anim.get_at_time(150), 2);
    assert_eq!(anim.get_at_time(349), 2);
}

#[test]
fn time_wraps_around_the_total() {
    let anim = Animation::new(vec![100, 50, 200]).unwrap();
    assert_eq!(anim.get_at_time(350), 0);
    assert_eq!(anim.get_at_time(500), 2);
    assert_eq!(anim.get_at_time(700 + 120), 1);
}

#[test]
fn an_animation_with_no_time_is_rejected() {
    assert_eq!(Animation::new(vec![]).err(), Some(AnimationError::EmptyAnimation));
    assert_eq!(Animation::new(vec![0, 0, 0]).err(), Some(AnimationError::EmptyAnimation));
}

#[test]
fn zero_length_frames_are_skipped_over() {
    let anim = Animation::new(vec![0, 10, 0, 5]).unwrap();
    assert_eq!(anim.get_at_time(0), 1);
    assert_eq!(anim.get_at_time(9), 1);
    assert_eq!(anim.get_at_time(10), 3);
    assert_eq!(anim.get_at_time(14), 3);
}
