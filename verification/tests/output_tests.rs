use khigy::output::{Mode, Output, Rect, Transform, DEFAULT_REFRESH_MHZ};

#[test]
fn create_output_uses_window_size_and_default_refresh() {
    let out = Output::create_output(800, 600);
    assert_eq!(out.mode, Mode { width: 800, height: 600, refresh: DEFAULT_REFRESH_MHZ });
    assert_eq!(out.preferred, Mode { width: 800, height: 600, refresh: 60_000 });
    assert_eq!(out.transform, Transform::Flipped180);
    assert_eq!(out.scale, 1);
}

#[test]
fn resize_replaces_current_mode_only() {
    let mut out = Output::create_output(800, 600);
    out.apply_resize(1024, 768);
    assert_eq!(out.mode, Mode { width: 1024, height: 768, refresh: 60_000 });
    assert_eq!(out.preferred, Mode { width: 800, height: 600, refresh: 60_000 });
    assert_eq!(out.transform, Transform::Flipped180);
    assert_eq!(out.scale, 1);
}

#[test]
fn damage_is_the_full_output_rectangle() {
    let mode = Mode { width: 640, height: 480, refresh: 60_000 };
    let r = Rect::full(&mode);
    assert_eq!(r, Rect { x: 0, y: 0, width: 640, height: 480 });
}
